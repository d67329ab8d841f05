use bytes::Bytes;
use exoshell::linebuf::ByteLineBuf;

fn drain(bytes: &[u8], expected: Vec<&[u8]>) {
    let mut blb = ByteLineBuf::default();
    blb.extend(bytes);
    let mut actual: Vec<Vec<u8>> = blb.drain_lines();
    if let Some(tail) = blb.drain_remainder() {
        actual.push(tail);
    }
    let expected: Vec<Vec<u8>> = expected.into_iter().map(|e| e.to_vec()).collect();
    assert_eq!(expected, actual);
}

#[test]
fn drain_single_line() {
    drain(b"hello world!".as_slice(), vec![b"hello world!".as_slice()]);
}

#[test]
fn drain_two_lines_non_terminated() {
    drain(
        b"hello\nworld!".as_slice(),
        vec![b"hello\n".as_slice(), b"world!".as_slice()],
    );
}

#[test]
fn drain_two_lines_terminated() {
    drain(
        b"hello\nworld!\n".as_slice(),
        vec![b"hello\n".as_slice(), b"world!\n".as_slice()],
    );
}

#[test]
fn pop_line_takes_complete_lines_in_order() {
    let mut blb = ByteLineBuf::new();
    blb.extend(b"ab\ncd");
    assert_eq!(Some(b"ab\n".to_vec()), blb.pop_line());
    assert_eq!(None, blb.pop_line());
    blb.extend_byte(b'\n');
    assert_eq!(Some(b"cd\n".to_vec()), blb.pop_line());
    assert_eq!(None, blb.pop_line());
    assert_eq!(None, blb.drain_remainder());
}

#[test]
fn empty_buffer_has_no_remainder() {
    let blb = ByteLineBuf::new();
    assert_eq!(None, blb.drain_remainder());
}

#[test]
fn empty_lines_are_kept() {
    let mut blb = ByteLineBuf::new();
    blb.extend(b"\n\nx");
    assert_eq!(vec![b"\n".to_vec(), b"\n".to_vec()], blb.drain_lines());
    assert_eq!(Some(b"x".to_vec()), blb.drain_remainder());
}

#[test]
fn chunk_boundaries_do_not_matter() {
    let whole = b"one\ntwo\nthree";
    let mut a = ByteLineBuf::new();
    a.extend(whole);
    let mut b = ByteLineBuf::new();
    b.extend(b"on");
    b.extend(b"e\ntw");
    b.extend(b"o\nthr");
    b.extend(b"ee");
    let mut ia = a.into_iter();
    let mut ib = b.into_iter();
    loop {
        let x = ia.next();
        let y = ib.next();
        assert_eq!(x, y);
        if x.is_none() {
            break;
        }
    }
}

#[test]
fn into_iter_yields_lines_then_fragment() {
    let mut blb = ByteLineBuf::new();
    blb.extend(b"a\nb\nc");
    let mut it = blb.into_iter();
    assert_eq!(Some(b"a\n".to_vec()), it.next());
    assert_eq!(Some(b"b\n".to_vec()), it.next());
    assert_eq!(Some(b"c".to_vec()), it.next());
    assert_eq!(None, it.next());
    assert_eq!(None, it.next());
}

#[test]
fn into_iter_of_terminated_input_has_no_empty_item() {
    let mut blb = ByteLineBuf::new();
    blb.extend(b"a\n");
    let mut it = blb.into_iter();
    assert_eq!(Some(b"a\n".to_vec()), it.next());
    assert_eq!(None, it.next());
}

#[test]
fn joined_items_give_back_the_input() {
    let input = b"x\n\nyz\nw".to_vec();
    let mut blb = ByteLineBuf::new();
    blb.extend(&input);
    let mut it = blb.into_iter();
    let mut joined = Vec::new();
    while let Some(item) = it.next() {
        joined.extend(item);
    }
    assert_eq!(input, joined);
}

#[test]
fn extend_chunk_reads_bytes() {
    let mut blb = ByteLineBuf::new();
    blb.extend_chunk(Bytes::from(b"hi\nthere".to_vec()));
    assert_eq!(Some(b"hi\n".to_vec()), blb.pop_line());
    assert_eq!(Some(b"there".to_vec()), blb.drain_remainder());
}

#[test]
fn pops_give_segments_in_order_and_keep_remainder() {
    let mut blb = ByteLineBuf::default();
    for &b in b"a\nbc\n\nd".iter() {
        blb.extend_byte(b);
    }
    assert_eq!(Some(b"a\n".to_vec()), blb.pop_line());
    assert_eq!(Some(b"bc\n".to_vec()), blb.pop_line());
    assert_eq!(Some(b"\n".to_vec()), blb.pop_line());
    assert_eq!(None, blb.pop_line());
    assert_eq!(None, blb.pop_line());
    assert_eq!(Some(b"d".to_vec()), blb.drain_remainder());
}
