use web_executor::cstring::nul_terminated;

#[test]
fn text_gets_a_terminating_nul() {
    assert_eq!(nul_terminated("hi"), Some(vec![b'h', b'i', 0]));
}

#[test]
fn empty_text_is_just_the_nul() {
    assert_eq!(nul_terminated(""), Some(vec![0]));
}

#[test]
fn multibyte_text_keeps_its_utf8_bytes() {
    assert_eq!(nul_terminated("é"), Some(vec![0xc3, 0xa9, 0]));
}

#[test]
fn interior_nul_is_refused() {
    assert_eq!(nul_terminated("a\0b"), None);
    assert_eq!(nul_terminated("\0"), None);
}
