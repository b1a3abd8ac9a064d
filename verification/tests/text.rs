use sst::text::{chars_of, decimal, is_whitespace};

#[test]
fn decimal_digits() {
    assert_eq!(decimal(1024), "1024");
    assert_eq!(chars_of("ab"), vec!['a', 'b']);
}

#[test]
fn white_space_agrees_with_std() {
    for v in 0..0x110000u32 {
        if let Some(c) = char::from_u32(v) {
            assert_eq!(is_whitespace(c), c.is_whitespace(), "{:x}", v);
        }
    }
}
