use lsp_backend::utf16::{char_len_utf16, str_len_utf16, UTF16Len};
use std::rc::Rc;
use std::sync::Arc;

#[test]
fn astral_characters_take_two_units() {
    assert_eq!(char_len_utf16('a'), 1);
    assert_eq!(char_len_utf16('\u{FFFF}'), 1);
    assert_eq!(char_len_utf16('\u{10000}'), 2);
    assert_eq!(char_len_utf16('\u{1F600}'), 2);
}

#[test]
fn every_string_type_counts_alike() {
    let text = "a\u{1F600}\u{4F60}b";
    assert_eq!(String::from(text).utf16_len(), 5);
    assert_eq!(Arc::<str>::from(text).utf16_len(), 5);
    assert_eq!(Rc::<str>::from(text).utf16_len(), 5);
    assert_eq!(String::new().utf16_len(), 0);
}

#[test]
fn lengths_agree_with_the_encoder_and_add_up() {
    let a = "x\u{10FFFF}";
    let b = "\u{1F680}yz";
    for s in [a, b, "", "plain"] {
        assert_eq!(str_len_utf16(s), s.encode_utf16().count());
        assert!(str_len_utf16(s) <= s.len());
    }
    let both = [a, b].concat();
    assert_eq!(str_len_utf16(&both), str_len_utf16(a) + str_len_utf16(b));
}
