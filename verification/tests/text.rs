use lsp_backend::protocol::{Position, Range};
use lsp_backend::syntax::Token;
use lsp_backend::text::{chars_of, current_ident, get_lsp_range, low_bits, trailing_ident};
use lsp_backend::utf16::UTF16Len;

fn token(value: &str, line: usize, column: usize) -> Token {
    Token { value: value.to_string(), file: String::from("main.ant"), line, column }
}

fn at(line: u32, character: u32) -> Position {
    Position { line, character }
}

#[test]
fn token_on_a_plain_line() {
    let range = get_lsp_range("let x = 1;\nlet yy = x;\n", &token("yy", 2, 5));
    assert_eq!(range, Range { start: at(1, 4), end: at(1, 6) });
}

#[test]
fn token_behind_astral_characters() {
    let range = get_lsp_range("\u{1F600}\u{1F600} ab", &token("a\u{1F600}", 1, 4));
    assert_eq!(range, Range { start: at(0, 5), end: at(0, 8) });
}

#[test]
fn token_on_a_missing_line() {
    assert_eq!(get_lsp_range("one\ntwo", &token("x", 3, 2)), Range::default());
    assert_eq!(get_lsp_range("one\ntwo\n", &token("x", 3, 2)), Range::default());
    assert_eq!(get_lsp_range("", &token("x", 1, 1)), Range::default());
    assert_eq!(Range::default(), Range { start: at(0, 0), end: at(0, 0) });
}

#[test]
fn line_and_column_zero_count_as_one() {
    let text = "abc";
    assert_eq!(get_lsp_range(text, &token("ab", 0, 0)), get_lsp_range(text, &token("ab", 1, 1)));
    assert_eq!(get_lsp_range(text, &token("ab", 0, 0)).end, at(0, 2));
}

#[test]
fn column_behind_the_line_is_put_at_its_end() {
    let range = get_lsp_range("ab\r\ncd", &token("zz", 1, 9));
    assert_eq!(range, Range { start: at(0, 2), end: at(0, 4) });
}

#[test]
fn range_is_on_one_line_and_as_long_as_its_token() {
    let token = token("v\u{1F600}w", 2, 3);
    let range = get_lsp_range("first\n  v\u{1F600}w()", &token);
    assert_eq!(range.start.line, range.end.line);
    assert_eq!(range.start.line, 1);
    let length: usize = (range.end.character - range.start.character) as usize;
    assert_eq!(length, token.value.utf16_len());
}

#[test]
fn counts_wrap_at_32_bits() {
    assert_eq!(low_bits(0), 0);
    assert_eq!(low_bits(4_294_967_295), u32::MAX);
    assert_eq!(low_bits(4_294_967_296), 0);
    assert_eq!(low_bits(4_294_967_303), 7);
}

#[test]
fn lines_end_as_in_the_standard_library() {
    for text in ["a\nb", "a\r\nb\n", "a\rb\n\nc\r", "\n", "", "\r\n\r\n", "x\n\r\ny"] {
        let count = text.lines().count();
        for (i, line) in text.lines().enumerate() {
            let width = line.encode_utf16().count() as u32;
            let range = get_lsp_range(text, &token("", i + 1, 100));
            assert_eq!(range.start, at(i as u32, width));
        }
        assert_eq!(get_lsp_range(text, &token("q", count + 1, 2)), Range::default());
    }
}

#[test]
fn ident_before_the_caret() {
    assert_eq!(current_ident("foo.bar_9(x)", at(0, 9)), "bar_9");
    assert_eq!(current_ident("foo.bar_9(x)", at(0, 6)), "ba");
    assert_eq!(current_ident("foo.bar_9(x)", at(0, 4)), "");
    assert_eq!(current_ident("foo.bar_9(x)", at(0, 0)), "");
    assert_eq!(current_ident("one\ntwo", at(1, 2)), "tw");
}

#[test]
fn ident_may_hold_any_alphanumeric_character() {
    assert_eq!(current_ident("(\u{4F60}\u{597D}1", at(0, 4)), "\u{4F60}\u{597D}1");
    assert_eq!(current_ident("a-\u{E9}t\u{E9}", at(0, 5)), "\u{E9}t\u{E9}");
    assert_eq!(current_ident("a\u{1F600}b", at(0, 4)), "b");
}

#[test]
fn caret_behind_the_line_or_the_text() {
    assert_eq!(current_ident("abc\r\nd", at(0, 99)), "abc");
    assert_eq!(current_ident("abc", at(1, 0)), "");
    assert_eq!(current_ident("", at(0, 0)), "");
}

#[test]
fn caret_inside_a_surrogate_pair_goes_behind_it() {
    assert_eq!(current_ident("\u{20000}x", at(0, 1)), "\u{20000}");
    assert_eq!(current_ident("\u{20000}x", at(0, 2)), "\u{20000}");
    assert_eq!(current_ident("\u{20000}x", at(0, 3)), "\u{20000}x");
}

#[test]
fn ident_at_the_end_of_its_token() {
    let text = "fn main() {\n    \u{1F600} + some_name;\n}";
    let token = token("some_name", 2, 9);
    assert_eq!(current_ident(text, get_lsp_range(text, &token).end), token.value);
}

#[test]
fn ident_is_the_longest_run_of_flagged_characters() {
    assert_eq!(trailing_ident("a.bc", &vec![true, false, true, true]), "bc");
    assert_eq!(trailing_ident("a_bc", &vec![true, false, true, true]), "a_bc");
    assert_eq!(trailing_ident("abcd", &vec![true, true, true, false]), "");
    assert_eq!(trailing_ident("", &vec![]), "");
    assert_eq!(chars_of("a\u{1F600}"), vec!['a', '\u{1F600}']);
}

#[test]
fn ascii_letters_digits_and_underscore_make_identifiers() {
    for byte in 0u8..128 {
        let c = byte as char;
        if c == '\n' {
            continue;
        }
        let text = format!("{}", c);
        let expected = if c.is_ascii_alphanumeric() || c == '_' { text.clone() } else { String::new() };
        assert_eq!(current_ident(&text, at(0, 1)), expected);
    }
}
