use exoshell::cleanup::{cleanup_with, Failure};

fn f(m: &str) -> Failure {
    Failure::new(m.to_string())
}

#[test]
fn cleanup_with_cases() {
    assert!(cleanup_with(Ok(()), Ok(())).is_ok());
    assert_eq!("work", cleanup_with(Err(f("work")), Ok(())).unwrap_err().message());
    assert_eq!("clean", cleanup_with(Ok(()), Err(f("clean"))).unwrap_err().message());
    assert_eq!(
        "While cleaning up after: work: clean",
        cleanup_with(Err(f("work")), Err(f("clean"))).unwrap_err().message()
    );
}

#[test]
fn context_prefixes_message() {
    assert_eq!("outer: inner", f("inner").context("outer").message());
}
