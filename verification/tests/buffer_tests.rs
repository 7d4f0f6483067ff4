use packrat::buffer::{AsciiBuffer, Buffer};

#[test]
fn ascii_buffer_spans_and_reads() {
    let text = b"ab";
    let mut buf = AsciiBuffer::new(text);
    assert_eq!(buf.state(), 0);
    let span = buf.next();
    assert_eq!(span, Some((0, 1)));
    assert_eq!(buf.read((0, 1)), Some('a'));
    assert_eq!(buf.state(), 1);
    // the next start offset would have no full span after it
    assert_eq!(buf.next(), None);
    buf.restore(0);
    assert_eq!(buf.state(), 0);
    assert_eq!(buf.next(), Some((0, 1)));
}

#[test]
fn ascii_buffer_empty_text() {
    let text = b"";
    let mut buf = AsciiBuffer::new(text);
    assert_eq!(buf.next(), None);
    assert_eq!(buf.state(), 0);
}
