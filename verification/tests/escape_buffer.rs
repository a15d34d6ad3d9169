use jsonmodem::escape_buffer::UnicodeEscapeBuffer;

#[test]
fn basic_decoding() {
    let mut buf = UnicodeEscapeBuffer::new();
    assert_eq!(buf.feed('0').unwrap(), None);
    assert_eq!(buf.feed('0').unwrap(), None);
    assert_eq!(buf.feed('4').unwrap(), None);
    assert_eq!(buf.feed('1').unwrap(), Some('A'));
}

#[test]
fn mixed_case_hex() {
    let mut buf = UnicodeEscapeBuffer::new();
    for ch in "AbCd".chars() {
        let res = buf.feed(ch).unwrap();
        if ch == 'd' {
            assert_eq!(res, Some(char::from_u32(0xABCD).unwrap()));
        } else {
            assert!(res.is_none());
        }
    }
}

#[test]
fn reset_clears_buffer() {
    let mut buf = UnicodeEscapeBuffer::new();
    assert!(buf.feed('F').unwrap().is_none());
    buf.reset();
    // After reset, previous input is discarded
    assert_eq!(buf.feed('0').unwrap(), None);
}

#[test]
fn invalid_hex_error() {
    let mut buf = UnicodeEscapeBuffer::new();
    let err = buf.feed('G').unwrap_err();
    assert!(err.contains("Invalid unicode escape character"));
}

#[test]
fn surrogate_code_is_announced_before_the_fourth_digit() {
    let mut buf = UnicodeEscapeBuffer::new();
    for ch in "DFF".chars() {
        assert_eq!(buf.feed(ch).unwrap(), None);
    }
    assert_eq!(buf.completing_code('F'), Some(0xDFFF));
    assert_eq!(buf.completing_code('x'), None);
    // A surrogate is not fed: the caller resets the buffer instead.
    buf.reset();
    for ch in "00e".chars() {
        assert_eq!(buf.feed(ch).unwrap(), None);
    }
    assert_eq!(buf.feed('9').unwrap(), Some('é'));
}

#[test]
fn invalid_character_leaves_digits() {
    let mut buf = UnicodeEscapeBuffer::new();
    assert_eq!(buf.feed('0').unwrap(), None);
    assert_eq!(buf.feed('x').unwrap_err(), "Invalid unicode escape character: x");
    assert_eq!(buf.feed('0').unwrap(), None);
    assert_eq!(buf.feed('4').unwrap(), None);
    assert_eq!(buf.feed('2').unwrap(), Some('B'));
}
