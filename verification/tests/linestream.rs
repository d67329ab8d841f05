use exoshell::linestream::{ByteLineStream, Upstream, UpstreamStep};

/// What the stream hands downstream, one poll at a time.
#[derive(Debug, PartialEq)]
enum Polled {
    Line(Vec<u8>),
    Failed(&'static str),
    Finished,
    Pending,
}

/// One poll, with the upstream answered from `upstream`.
fn poll(s: &mut ByteLineStream, upstream: &mut Vec<Upstream<&'static str>>) -> Polled {
    loop {
        if let Some(item) = s.poll_buffered() {
            return match item {
                Some(line) => Polled::Line(line),
                None => Polled::Finished,
            };
        }
        let ev = if upstream.is_empty() {
            Upstream::Ended
        } else {
            upstream.remove(0)
        };
        match s.on_upstream(ev) {
            UpstreamStep::Continue => {}
            UpstreamStep::Failed(e) => return Polled::Failed(e),
            UpstreamStep::Pending => return Polled::Pending,
        }
    }
}

fn collect_lines(bytes: &[u8], expected: Vec<&[u8]>) {
    let mut s = ByteLineStream::new();
    let mut upstream = vec![Upstream::Chunk(bytes.to_vec())];
    let mut actual = vec![];
    loop {
        match poll(&mut s, &mut upstream) {
            Polled::Line(l) => actual.push(l),
            Polled::Finished => break,
            other => panic!("unexpected {other:?}"),
        }
    }
    let expected: Vec<Vec<u8>> = expected.into_iter().map(|e| e.to_vec()).collect();
    assert_eq!(expected, actual);
}

#[test]
fn collect() {
    collect_lines(b"hello world!", vec![b"hello world!".as_slice()]);
    collect_lines(
        b"hello\nworld!",
        vec![b"hello\n".as_slice(), b"world!".as_slice()],
    );
    collect_lines(
        b"hello\nworld!\n",
        vec![b"hello\n".as_slice(), b"world!\n".as_slice()],
    );
}

#[test]
fn lines_span_chunks_and_errors_pass_through() {
    let mut s = ByteLineStream::new();
    let mut upstream = vec![
        Upstream::Chunk(b"ab".to_vec()),
        Upstream::Pending,
        Upstream::Chunk(b"c\nd".to_vec()),
        Upstream::Failed("boom"),
        Upstream::Chunk(b"e\n".to_vec()),
    ];
    assert_eq!(Polled::Pending, poll(&mut s, &mut upstream));
    assert_eq!(Polled::Line(b"abc\n".to_vec()), poll(&mut s, &mut upstream));
    assert_eq!(Polled::Failed("boom"), poll(&mut s, &mut upstream));
    assert_eq!(Polled::Line(b"de\n".to_vec()), poll(&mut s, &mut upstream));
    assert_eq!(Polled::Finished, poll(&mut s, &mut upstream));
    assert_eq!(Polled::Finished, poll(&mut s, &mut upstream));
}

#[test]
fn empty_upstream_finishes_at_once() {
    let mut s = ByteLineStream::new();
    assert!(s.is_active());
    let mut upstream = vec![];
    assert_eq!(Polled::Finished, poll(&mut s, &mut upstream));
    assert!(!s.is_active());
}

#[test]
fn error_comes_after_completed_lines() {
    let mut s = ByteLineStream::new();
    let mut upstream = vec![
        Upstream::Chunk(b"x\ny\nz".to_vec()),
        Upstream::Failed("bad"),
        Upstream::Chunk(b"w".to_vec()),
    ];
    assert_eq!(Polled::Line(b"x\n".to_vec()), poll(&mut s, &mut upstream));
    assert_eq!(Polled::Line(b"y\n".to_vec()), poll(&mut s, &mut upstream));
    assert_eq!(Polled::Failed("bad"), poll(&mut s, &mut upstream));
    assert_eq!(Polled::Line(b"zw".to_vec()), poll(&mut s, &mut upstream));
    assert_eq!(Polled::Finished, poll(&mut s, &mut upstream));
}
