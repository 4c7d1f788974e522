use op_cache::mask::mask;

#[test]
fn masking_keeps_only_the_ends_of_long_values() {
    assert_eq!(mask(b"ghp_abcdefghijklmnop\n"), "ghp••••••nop");
    assert_eq!(mask(b"short\n"), "••••••••");
    assert_eq!(mask(b"exactly12chr"), "exa••••••chr");
}

#[test]
fn line_ends_are_trimmed_before_masking() {
    assert_eq!(mask(b"abcdefghijkl\r\n\n\r"), "abc••••••jkl");
    assert_eq!(mask(b"abcdefghijk\n"), "••••••••");
    assert_eq!(mask(b"\n\n"), "••••••••");
    assert_eq!(mask(b""), "••••••••");
}

#[test]
fn masking_counts_characters_not_bytes() {
    // Eleven characters but more than twelve bytes: still hidden.
    assert_eq!(mask("ééééééééééé".as_bytes()), "••••••••");
    assert_eq!(mask("αβγδεζηθικλμ".as_bytes()), "αβγ••••••κλμ");
}

#[test]
fn invalid_utf8_is_read_with_replacement_characters() {
    assert_eq!(
        mask(b"\xffbcdefghijk\xfe"),
        "\u{fffd}bc••••••jk\u{fffd}"
    );
}

#[test]
fn masking_text_directly() {
    assert_eq!(op_cache::mask::mask_text("0123456789abcdef\n"), "012••••••def");
}
