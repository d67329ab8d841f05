//! Combining the outcome of some work with the outcome of cleaning up after it.
use vstd::prelude::*;

verus! {

/// A failure, described by a message.
#[derive(Debug)]
pub struct Failure {
    message: String,
}

impl Failure {
    /// The message.
    pub closed spec fn spec_message(&self) -> Seq<char> {
        self.message@
    }

    /// A failure described by `message`.
    pub fn new(message: String) -> (f: Self)
        ensures
            f.spec_message() == message@,
    {
        Failure { message }
    }

    /// The message.
    pub fn message(&self) -> (m: &str)
        ensures
            m@ == self.spec_message(),
    {
        self.message.as_str()
    }

    /// The same failure, described in the context `context`: the message
    /// becomes `<context>: <message>`.
    pub fn context(self, context: &str) -> (f: Self)
        ensures
            f.spec_message() == context@ + ": "@ + self.spec_message(),
    {
        let mut message = context.to_owned();
        message.append(": ");
        message.append(self.message.as_str());
        Failure { message }
    }
}

/// The outcome of work followed by cleaning up: success when both
/// succeeded, otherwise the failure of the one that failed; when both failed,
/// the cleanup's failure in the context of the work's failure.
pub open spec fn cleanup_with_spec(
    result: Result<(), Failure>,
    cleanup_result: Result<(), Failure>,
) -> Result<(), Seq<char>> {
    match (result, cleanup_result) {
        (Ok(()), Ok(())) => Ok(()),
        (Err(original), Ok(())) => Err(original.spec_message()),
        (Ok(()), Err(cleanup)) => Err(cleanup.spec_message()),
        (Err(original), Err(cleanup)) => Err(
            "While cleaning up after: "@ + original.spec_message() + ": "@ + cleanup.spec_message(),
        ),
    }
}

/// Combine the outcome of some work with the outcome of cleaning up after
/// it; no failure is dropped.
pub fn cleanup_with(result: Result<(), Failure>, cleanup_result: Result<(), Failure>) -> (r: Result<
    (),
    Failure,
>)
    ensures
        match cleanup_with_spec(result, cleanup_result) {
            Ok(()) => r is Ok,
            Err(m) => r matches Err(f) && f.spec_message() == m,
        },
{
    match (result, cleanup_result) {
        (Ok(()), Ok(())) => Ok(()),
        (Err(original), Ok(())) => Err(original),
        (Ok(()), Err(cleanup)) => Err(cleanup),
        (Err(original), Err(cleanup)) => {
            let mut context = "While cleaning up after: ".to_owned();
            context.append(original.message.as_str());
            let f = cleanup.context(context.as_str());
            Err(f)
        },
    }
}

} // verus!
