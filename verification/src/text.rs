//! Finding places in the text of a document.
use crate::protocol::origin;
use crate::protocol::Position;
use crate::protocol::Range;
use crate::syntax::Token;
use crate::utf16::char_len_utf16;
use crate::utf16::law_units_of_char;
use crate::utf16::law_units_of_concatenation;
use crate::utf16::law_units_within_bytes;
use crate::utf16::lemma_units_of_next;
use crate::utf16::lemma_units_of_part;
use crate::utf16::str_len_utf16;
use crate::utf16::utf16_units;
use vstd::prelude::*;

verus! {

/// The number of characters in front of the first line feed, or of all
/// characters where there is none.
pub open spec fn line_break(s: Seq<char>) -> int
    decreases s.len(),
{
    if s.len() == 0 || s[0] == '\n' {
        0
    } else {
        1 + line_break(s.skip(1))
    }
}

/// A line without the carriage return that stands in front of its line feed.
pub open spec fn without_return(line: Seq<char>) -> Seq<char> {
    if line.len() > 0 && line.last() == '\r' {
        line.drop_last()
    } else {
        line
    }
}

/// The lines of a text, without their line endings. A line ends with a line
/// feed or with a carriage return and a line feed; the last line may go without.
pub open spec fn lines(s: Seq<char>) -> Seq<Seq<char>>
    decreases s.len(),
    via lines_decreases
{
    if s.len() == 0 {
        seq![]
    } else if line_break(s) == s.len() {
        seq![s]
    } else {
        seq![without_return(s.take(line_break(s)))] + lines(s.skip(line_break(s) + 1))
    }
}

#[via_fn]
proof fn lines_decreases(s: Seq<char>) {
    lemma_line_break(s);
}

/// Where the first line ends.
proof fn lemma_line_break(s: Seq<char>)
    ensures
        0 <= line_break(s) <= s.len(),
        line_break(s) < s.len() ==> s[line_break(s)] == '\n',
        forall|i: int| 0 <= i < line_break(s) ==> s[i] != '\n',
    decreases s.len(),
{
    if s.len() > 0 && s[0] != '\n' {
        lemma_line_break(s.skip(1));
        assert forall|i: int| 0 <= i < line_break(s) implies s[i] != '\n' by {
            if i > 0 {
                assert(s[i] == s.skip(1)[i - 1]);
            }
        }
        if line_break(s) < s.len() {
            assert(s[line_break(s)] == s.skip(1)[line_break(s) - 1]);
        }
    }
}

/// The characters of a string slice.
pub fn chars_of(s: &str) -> (chars: Vec<char>)
    ensures
        chars@ == s@,
{
    let mut chars: Vec<char> = Vec::new();
    for c in it: s.chars()
        invariant
            it.seq() == s@,
            chars@ == s@.take(it.index()),
    {
        proof {
            assert(s@.take(it.index() + 1) == s@.take(it.index()).push(s@[it.index()]));
        }
        chars.push(c);
    }
    proof {
        assert(s@.take(s@.len() as int) == s@);
    }
    chars
}

/// The bounds, counted in characters, of the line with the given index.
fn nth_line(text: &Vec<char>, index: usize) -> (bounds: Option<(usize, usize)>)
    ensures
        match bounds {
            Some((from, to)) => {
                &&& index < lines(text@).len()
                &&& from <= to <= text@.len()
                &&& text@.subrange(from as int, to as int) == lines(text@)[index as int]
            },
            None => index >= lines(text@).len(),
        },
{
    let mut from: usize = 0;
    let mut left: usize = index;
    proof {
        assert(text@.skip(0) == text@);
        assert(lines(text@).skip(0) == lines(text@));
    }
    while from < text.len()
        invariant
            from <= text@.len(),
            left <= index,
            index - left <= lines(text@).len(),
            lines(text@).skip(index - left) == lines(text@.skip(from as int)),
        decreases text@.len() - from,
    {
        let ghost rest = text@.skip(from as int);
        let mut to: usize = from;
        while to < text.len() && text[to] != '\n'
            invariant
                from <= to <= text@.len(),
                rest == text@.skip(from as int),
                forall|i: int| 0 <= i < to - from ==> rest[i] != '\n',
            decreases text@.len() - to,
        {
            proof {
                assert(rest[to - from] == text@[to as int]);
            }
            to = to + 1;
        }
        proof {
            lemma_line_break(rest);
            if to < text@.len() {
                assert(rest[to - from] == text@[to as int]);
            }
            assert(line_break(rest) == to - from);
        }
        if left == 0 {
            proof {
                assert(lines(text@)[index as int] == lines(text@).skip(index as int)[0]);
                assert(rest.take(to - from) == text@.subrange(from as int, to as int));
                assert(to == text@.len() ==> rest == text@.subrange(from as int, to as int));
            }
            if to < text.len() && to > from && text[to - 1] == '\r' {
                proof {
                    assert(text@.subrange(from as int, to - 1) == rest.take(
                        to - from,
                    ).drop_last());
                }
                return Some((from, to - 1));
            }
            return Some((from, to));
        }
        if to == text.len() {
            proof {
                assert(lines(text@).skip(index - left).len() == 1);
            }
            return None;
        }
        proof {
            let tail = rest.skip(to - from + 1);
            assert(tail == text@.skip(to + 1));
            assert(lines(rest).len() == 1 + lines(tail).len());
            assert(lines(text@).skip(index - left + 1) == lines(text@).skip(index - left).skip(1));
            assert(lines(rest).skip(1) == lines(tail));
        }
        left = left - 1;
        from = to + 1;
    }
    proof {
        assert(text@.skip(from as int).len() == 0);
        assert(lines(text@).skip(index - left).len() == 0);
    }
    None
}

/// A count as a 32-bit number of the protocol: what lies above is cut off.
pub open spec fn wrapped(n: nat) -> u32 {
    (n % 0x1_0000_0000) as u32
}

/// The low 32 bits of a count.
pub fn low_bits(n: usize) -> (low: u32)
    ensures
        low == wrapped(n as nat),
{
    let wide: u64 = n as u64;
    assert(wide as u32 == wide % 0x1_0000_0000) by (bit_vector);
    #[verifier::truncate]
    (wide as u32)
}

/// The index, counted from zero, of a line or column that is counted from one.
pub open spec fn from_one(n: usize) -> nat {
    if n == 0 {
        0
    } else {
        (n - 1) as nat
    }
}

/// The first `n` characters of a line, or all of it where it is shorter.
pub open spec fn front(line: Seq<char>, n: nat) -> Seq<char> {
    if n < line.len() {
        line.take(n as int)
    } else {
        line
    }
}

/// The range of a token in a text. It starts where the token's column says on
/// the token's line and is as long as the token's own text. A token on a line
/// that the text does not have is put at the beginning of the text.
pub open spec fn token_range(text: Seq<char>, token: Token) -> Range {
    let index = from_one(token.line);
    if index < lines(text).len() {
        let start = utf16_units(front(lines(text)[index as int], from_one(token.column)));
        let end = start + utf16_units(token.value@);
        Range {
            start: Position { line: wrapped(index), character: wrapped(start) },
            end: Position { line: wrapped(index), character: wrapped(end) },
        }
    } else {
        origin()
    }
}

/// Where a token stands in a text, as an editor counts: lines from zero, and
/// characters in UTF-16 code units. Numbers that do not fit 32 bits wrap around.
pub fn get_lsp_range(text: &str, token: &Token) -> (range: Range)
    ensures
        range == token_range(text@, *token),
{
    let chars = chars_of(text);
    let line_idx: usize = if token.line == 0 {
        0
    } else {
        token.line - 1
    };
    let (from, to) = match nth_line(&chars, line_idx) {
        Some(bounds) => bounds,
        None => return Range::default(),
    };
    let skipped: usize = if token.column == 0 {
        0
    } else {
        token.column - 1
    };
    let width: usize = to - from;
    let stop: usize = if skipped < width {
        from + skipped
    } else {
        to
    };
    let before = text.substring_char(from, stop);
    proof {
        assert(text@.subrange(from as int, stop as int) == front(
            lines(text@)[line_idx as int],
            skipped as nat,
        ));
    }
    let start: usize = str_len_utf16(before);
    let length: usize = str_len_utf16(token.value.as_str());
    let start_char: u32 = low_bits(start);
    let end_char: u32 = start_char.wrapping_add(low_bits(length));
    proof {
        vstd::arithmetic::div_mod::lemma_add_mod_noop(start as int, length as int, 0x1_0000_0000);
    }
    let line: u32 = low_bits(line_idx);
    Range {
        start: Position { line, character: start_char },
        end: Position { line, character: end_char },
    }
}

/// Whether a character beyond ASCII is alphanumeric.
pub uninterp spec fn unicode_alphanumeric(c: char) -> bool;

/// The letters and digits of ASCII.
pub open spec fn ascii_alphanumeric(c: char) -> bool {
    ('a' <= c && c <= 'z') || ('A' <= c && c <= 'Z') || ('0' <= c && c <= '9')
}

/// Whether a character is alphanumeric.
pub open spec fn alphanumeric(c: char) -> bool {
    if c <= '\x7f' {
        ascii_alphanumeric(c)
    } else {
        unicode_alphanumeric(c)
    }
}

/// `char::is_alphanumeric` decides by the character alone. In ASCII it accepts
/// the letters and the digits and nothing else; its answer for any other
/// character is called `unicode_alphanumeric`. Which characters those are is
/// left to the Unicode tables of the standard library.
pub assume_specification[ char::is_alphanumeric ](c: char) -> (answer: bool)
    ensures
        c <= '\x7f' ==> answer == ascii_alphanumeric(c),
        c > '\x7f' ==> answer == unicode_alphanumeric(c),
;

/// For each character of a text, whether it is alphanumeric.
pub open spec fn alphanumeric_flags(s: Seq<char>) -> Seq<bool> {
    s.map_values(|c: char| alphanumeric(c))
}

/// The length of the identifier at the end of a text, given for each character
/// whether it is alphanumeric. Underscores belong to identifiers too.
pub open spec fn ident_length(before: Seq<char>, flags: Seq<bool>) -> nat
    decreases before.len(),
{
    if before.len() > 0 && (flags[before.len() - 1] || before.last() == '_') {
        1 + ident_length(before.drop_last(), flags)
    } else {
        0
    }
}

/// The identifier at the end of a text.
pub open spec fn ident_suffix(before: Seq<char>, flags: Seq<bool>) -> Seq<char> {
    before.skip(before.len() - ident_length(before, flags))
}

/// How many characters of a line stand in front of a caret that is given in
/// UTF-16 code units. A character that the caret would split counts as standing
/// in front of it, and a caret behind the end of the line is put at its end.
pub open spec fn chars_before(line: Seq<char>, character: nat) -> nat
    decreases line.len(),
{
    if line.len() == 0 {
        0
    } else if utf16_units(line.drop_last()) < character {
        line.len()
    } else {
        chars_before(line.drop_last(), character)
    }
}

/// The part of a document's line that stands in front of a position; empty on
/// a line that the document does not have.
pub open spec fn text_before(text: Seq<char>, position: Position) -> Seq<char> {
    if position.line < lines(text).len() {
        let line = lines(text)[position.line as int];
        line.take(chars_before(line, position.character as nat) as int)
    } else {
        seq![]
    }
}

/// The identifier that ends at a position.
pub open spec fn ident_at(text: Seq<char>, position: Position) -> Seq<char> {
    let before = text_before(text, position);
    ident_suffix(before, alphanumeric_flags(before))
}

/// The identifier at the end of a text is no longer than the text.
proof fn lemma_ident_length(before: Seq<char>, flags: Seq<bool>)
    ensures
        ident_length(before, flags) <= before.len(),
    decreases before.len(),
{
    if before.len() > 0 {
        lemma_ident_length(before.drop_last(), flags);
    }
}

/// A prefix that reaches the caret, while no shorter one does, is what stands
/// in front of the caret.
proof fn lemma_chars_before(line: Seq<char>, character: nat, k: int)
    requires
        0 <= k <= line.len(),
        k > 0 ==> utf16_units(line.take(k - 1)) < character,
        k < line.len() ==> utf16_units(line.take(k)) >= character,
    ensures
        chars_before(line, character) == k,
    decreases line.len(),
{
    if k == line.len() {
        if k > 0 {
            assert(line.drop_last() == line.take(k - 1));
        }
    } else {
        let shorter = line.drop_last();
        lemma_units_of_part(line, k, line.len() - 1);
        assert(shorter == line.take(line.len() - 1));
        if k > 0 {
            assert(shorter.take(k - 1) == line.take(k - 1));
        }
        assert(shorter.take(k) == line.take(k));
        lemma_chars_before(shorter, character, k);
    }
}

/// The identifier at the end of a text, given for each of its characters
/// whether it is alphanumeric.
pub fn trailing_ident(before: &str, flags: &Vec<bool>) -> (ident: String)
    requires
        flags@.len() == before@.len(),
    ensures
        ident@ == ident_suffix(before@, flags@),
{
    let chars = chars_of(before);
    let mut start: usize = chars.len();
    proof {
        assert(before@.take(start as int) == before@);
    }
    while start > 0 && (flags[start - 1] || chars[start - 1] == '_')
        invariant
            start <= chars@.len(),
            chars@ == before@,
            flags@.len() == chars@.len(),
            ident_length(before@, flags@) == (before@.len() - start) + ident_length(
                before@.take(start as int),
                flags@,
            ),
        decreases start,
    {
        proof {
            let prefix = before@.take(start as int);
            assert(prefix.drop_last() == before@.take(start - 1));
            assert(prefix.last() == before@[start - 1]);
        }
        start = start - 1;
    }
    proof {
        assert(start > 0 ==> before@.take(start as int).last() == before@[start - 1]);
        assert(before@.subrange(start as int, before@.len() as int) == before@.skip(start as int));
    }
    before.substring_char(start, chars.len()).to_owned()
}

/// The identifier that ends at a position: the longest run of alphanumeric
/// characters and underscores right in front of it.
pub fn current_ident(text: &str, position: Position) -> (ident: String)
    ensures
        ident@ == ident_at(text@, position),
{
    let chars = chars_of(text);
    let (from, to) = match nth_line(&chars, position.line as usize) {
        Some(bounds) => bounds,
        None => {
            proof {
                lemma_ident_length(seq![], alphanumeric_flags(seq![]));
            }
            return String::new();
        },
    };
    let ghost line = lines(text@)[position.line as int];
    proof {
        law_units_within_bytes(text@);
    }
    let limit: usize = text.as_bytes().len();
    let mut units: usize = 0;
    let mut stop: usize = from;
    while stop < to && units < position.character as usize
        invariant
            from <= stop <= to <= chars@.len(),
            chars@ == text@,
            line == text@.subrange(from as int, to as int),
            units == utf16_units(line.take(stop - from)),
            stop > from ==> utf16_units(line.take(stop - from - 1)) < position.character,
            utf16_units(text@) <= limit,
        decreases to - stop,
    {
        proof {
            lemma_units_of_next(line, stop - from);
            lemma_units_of_part(line, 0, stop - from + 1);
            assert(line.subrange(0, stop - from + 1) == line.take(stop - from + 1));
            lemma_units_of_part(text@, from as int, to as int);
        }
        units = units + char_len_utf16(chars[stop]);
        stop = stop + 1;
    }
    proof {
        lemma_chars_before(line, position.character as nat, stop - from);
        assert(text@.subrange(from as int, stop as int) == line.take(stop - from));
    }
    let before = text.substring_char(from, stop);
    let mut flags: Vec<bool> = Vec::new();
    for c in it: before.chars()
        invariant
            it.seq() == before@,
            flags@ == alphanumeric_flags(before@.take(it.index())),
    {
        proof {
            assert(alphanumeric_flags(before@.take(it.index() + 1)) == alphanumeric_flags(
                before@.take(it.index()),
            ).push(alphanumeric(before@[it.index()])));
        }
        flags.push(c.is_alphanumeric());
    }
    proof {
        assert(before@.take(before@.len() as int) == before@);
    }
    trailing_ident(before, &flags)
}

/// A token never spans lines.
pub proof fn law_range_on_one_line(text: Seq<char>, token: Token)
    ensures
        token_range(text, token).start.line == token_range(text, token).end.line,
{
}

/// The range of a token on a line of the text lies on that line and is as long
/// as the token's own text, counted in UTF-16 code units, wherever 32 bits
/// suffice to say so.
pub proof fn law_range_spans_token(text: Seq<char>, token: Token)
    requires
        from_one(token.line) < lines(text).len(),
        from_one(token.line) <= u32::MAX,
        utf16_units(front(lines(text)[from_one(token.line) as int], from_one(token.column)))
            + utf16_units(token.value@) <= u32::MAX,
    ensures
        token_range(text, token).start.line == from_one(token.line),
        token_range(text, token).end.character - token_range(text, token).start.character
            == utf16_units(token.value@),
{
}

/// What stands in front of a caret reaches up to the caret, unless the line
/// ends before, and nothing shorter does.
pub proof fn law_chars_before_caret(line: Seq<char>, character: nat)
    ensures
        chars_before(line, character) <= line.len(),
        chars_before(line, character) < line.len() ==> utf16_units(
            line.take(chars_before(line, character) as int),
        ) >= character,
        forall|k: int|
            0 <= k < chars_before(line, character) ==> utf16_units(#[trigger] line.take(k))
                < character,
    decreases line.len(),
{
    if line.len() > 0 {
        let shorter = line.drop_last();
        law_chars_before_caret(shorter, character);
        let n = chars_before(line, character);
        if utf16_units(shorter) < character {
            assert forall|k: int| 0 <= k < n implies utf16_units(#[trigger] line.take(k))
                < character by {
                lemma_units_of_part(line, k, line.len() - 1);
                assert(shorter == line.take(line.len() - 1));
            }
        } else {
            assert forall|k: int| 0 <= k <= shorter.len() implies #[trigger] line.take(k)
                == shorter.take(k) by {}
            if n == shorter.len() {
                assert(line.take(n as int) == shorter);
            }
        }
    }
}

/// Whether a character can be part of an identifier: a letter or a digit of
/// ASCII, an underscore, or an alphanumeric character beyond ASCII.
pub open spec fn ident_char(c: char) -> bool {
    ||| 'a' <= c && c <= 'z'
    ||| 'A' <= c && c <= 'Z'
    ||| '0' <= c && c <= '9'
    ||| c == '_'
    ||| c > '\x7f' && unicode_alphanumeric(c)
}

/// The identifier at the end of a text is a suffix of the text, consists of
/// alphanumeric characters and underscores, and cannot be extended to the left.
pub proof fn law_ident_is_longest_run(before: Seq<char>)
    ensures
        ({
            let ident = ident_suffix(before, alphanumeric_flags(before));
            let start = before.len() - ident.len();
            &&& 0 <= start <= before.len()
            &&& ident == before.skip(start)
            &&& forall|i: int| 0 <= i < ident.len() ==> ident_char(#[trigger] ident[i])
            &&& start > 0 ==> !ident_char(before[start - 1])
        }),
{
    let flags = alphanumeric_flags(before);
    let n = ident_length(before, flags);
    lemma_ident_length(before, flags);
    lemma_ident_run(before, before.len() as int);
    assert(before.take(before.len() as int) == before);
    let ident = before.skip(before.len() - n);
    assert forall|i: int| 0 <= i < n implies ident_char(#[trigger] ident[i]) by {
        assert(ident_char(before[before.len() - n + i]));
    }
}

/// The identifier at the end of a prefix of a text.
proof fn lemma_ident_run(s: Seq<char>, end: int)
    requires
        0 <= end <= s.len(),
    ensures
        ({
            let n = ident_length(s.take(end), alphanumeric_flags(s));
            &&& n <= end
            &&& forall|i: int| end - n <= i < end ==> ident_char(#[trigger] s[i])
            &&& end > n ==> !ident_char(s[end - n - 1])
        }),
    decreases end,
{
    if end > 0 {
        lemma_ident_run(s, end - 1);
        assert(s.take(end).drop_last() == s.take(end - 1));
        assert(s.take(end).last() == s[end - 1]);
    }
}

/// Whether a word of identifier characters stands on its own at a place of a
/// line: whatever is in front of it cannot be part of an identifier.
pub open spec fn stands_at(line: Seq<char>, word: Seq<char>, at: int) -> bool {
    &&& 0 <= at
    &&& at + word.len() <= line.len()
    &&& line.subrange(at, at + word.len()) == word
    &&& forall|i: int| 0 <= i < word.len() ==> ident_char(#[trigger] word[i])
    &&& at > 0 ==> !ident_char(line[at - 1])
}

/// An editor that asks for the identifier at the end of an identifier token's
/// range gets the text of that token.
pub proof fn law_ident_at_end_of_token(text: Seq<char>, token: Token)
    requires
        from_one(token.line) < lines(text).len(),
        from_one(token.line) <= u32::MAX,
        stands_at(
            lines(text)[from_one(token.line) as int],
            token.value@,
            from_one(token.column) as int,
        ),
        utf16_units(front(lines(text)[from_one(token.line) as int], from_one(token.column)))
            + utf16_units(token.value@) <= u32::MAX,
    ensures
        ident_at(text, token_range(text, token).end) == token.value@,
{
    let line = lines(text)[from_one(token.line) as int];
    let at = from_one(token.column) as int;
    let word = token.value@;
    let stop = at + word.len();
    let character = token_range(text, token).end.character as nat;
    assert(front(line, at as nat) == line.take(at));
    lemma_units_of_part(line, at, stop);
    assert(character == utf16_units(line.take(stop)));
    if stop > 0 {
        lemma_units_of_next(line, stop - 1);
    }
    lemma_chars_before(line, character, stop);
    let before = line.take(stop);
    assert(text_before(text, token_range(text, token).end) == before);
    lemma_ident_run(before, stop);
    assert(before.take(stop) == before);
    let n = ident_length(before, alphanumeric_flags(before));
    assert forall|i: int| at <= i < stop implies ident_char(#[trigger] before[i]) by {
        assert(word[i - at] == line[i]);
    }
    if at > 0 {
        assert(before[at - 1] == line[at - 1]);
    }
    assert(n == word.len());
    assert(before.skip(at) == word);
}

/// Right behind a character that cannot be part of an identifier, there is no
/// identifier.
pub proof fn law_no_ident_behind_other_character(text: Seq<char>, position: Position)
    requires
        text_before(text, position).len() > 0,
        !ident_char(text_before(text, position).last()),
    ensures
        ident_at(text, position) == Seq::<char>::empty(),
{
    law_ident_is_longest_run(text_before(text, position));
}

/// The first line feed ends the first line.
proof fn lemma_first_line_feed(line: Seq<char>, rest: Seq<char>)
    requires
        !line.contains('\n'),
    ensures
        line_break(line + seq!['\n'] + rest) == line.len(),
        (line + seq!['\n'] + rest).take(line.len() as int) == line,
        (line + seq!['\n'] + rest).skip(line.len() as int + 1) == rest,
{
    let s = line + seq!['\n'] + rest;
    let n = line_break(s);
    lemma_line_break(s);
    assert(s[line.len() as int] == '\n');
    if n < line.len() {
        assert(s[n] == line[n]);
    }
    assert(s.take(line.len() as int) == line);
    assert(s.skip(line.len() as int + 1) == rest);
}

/// An empty text has no lines.
pub proof fn law_empty_text_has_no_lines()
    ensures
        lines(seq![]) == Seq::<Seq<char>>::empty(),
{
}

/// What stands behind the last line feed of a text is a line as it is, whatever
/// it ends with.
pub proof fn law_last_line_stays_whole(line: Seq<char>)
    requires
        line.len() > 0,
        !line.contains('\n'),
    ensures
        lines(line) == seq![line],
{
    lemma_line_break(line);
    let n = line_break(line);
    if n < line.len() {
        assert(line.contains(line[n]));
    }
}

/// A line feed ends a line, and nothing but the line feed is taken off.
pub proof fn law_line_feed_ends_line(line: Seq<char>, rest: Seq<char>)
    requires
        !line.contains('\n'),
        line.len() > 0 ==> line.last() != '\r',
    ensures
        lines(line + seq!['\n'] + rest) == seq![line] + lines(rest),
{
    lemma_first_line_feed(line, rest);
}

/// A carriage return and a line feed end a line, and nothing but these two is
/// taken off.
pub proof fn law_return_and_line_feed_end_line(line: Seq<char>, rest: Seq<char>)
    requires
        !line.contains('\n'),
    ensures
        lines(line + seq!['\r', '\n'] + rest) == seq![line] + lines(rest),
{
    let with_return = line.push('\r');
    assert(!with_return.contains('\n')) by {
        if with_return.contains('\n') {
            let k = choose|k: int| 0 <= k < with_return.len() && with_return[k] == '\n';
            assert(line.contains(line[k]));
        }
    }
    lemma_first_line_feed(with_return, rest);
    assert(line + seq!['\r', '\n'] + rest == with_return + seq!['\n'] + rest);
    assert(with_return.drop_last() == line);
}

/// A text without carriage returns that ends each line with a line feed is what
/// its lines give, each followed by a line feed.
pub proof fn law_lines_give_text_back(text: Seq<char>)
    requires
        !text.contains('\r'),
        text.len() > 0 ==> text.last() == '\n',
    ensures
        lines(text).map_values(|line: Seq<char>| line.push('\n')).flatten() == text,
    decreases text.len(),
{
    let end = |line: Seq<char>| line.push('\n');
    if text.len() == 0 {
        assert(lines(text).map_values(end) == Seq::<Seq<char>>::empty());
    } else {
        lemma_line_break(text);
        let n = line_break(text);
        if n == text.len() {
            assert(text[text.len() - 1] == '\n');
        }
        let line = text.take(n);
        let rest = text.skip(n + 1);
        if rest.contains('\r') {
            let k = choose|k: int| 0 <= k < rest.len() && rest[k] == '\r';
            assert(text.contains(text[k + n + 1]));
        }
        if line.len() > 0 && line.last() == '\r' {
            assert(text.contains(text[n - 1]));
        }
        if rest.len() > 0 {
            assert(rest.last() == text.last());
        }
        law_lines_give_text_back(rest);
        let all = lines(text).map_values(end);
        assert(all.first() == line.push('\n'));
        assert(all.drop_first() == lines(rest).map_values(end));
        assert(line.push('\n') + rest == text);
    }
}

/// A count that fits 32 bits is kept, and counts that differ by 2^32 are not
/// told apart.
pub proof fn law_counts_wrap(n: nat)
    ensures
        n <= 0xffff_ffff ==> wrapped(n) == n,
        wrapped(n + 0x1_0000_0000) == wrapped(n),
{
}

/// Where a token stands on a line of the text, whatever its own text is: on its
/// line, counted from zero, from the length of the characters in front of its
/// column to that plus its own length. A column behind the end of the line is
/// put at its end. Everything is counted in UTF-16 code units, modulo 2^32.
pub proof fn law_token_is_at_its_line_and_column(text: Seq<char>, token: Token)
    requires
        1 <= token.line <= lines(text).len(),
        1 <= token.column,
    ensures
        ({
            let line = lines(text)[token.line - 1];
            let skipped = if token.column - 1 <= line.len() {
                token.column - 1
            } else {
                line.len() as int
            };
            let start = utf16_units(line.take(skipped));
            let end = start + utf16_units(token.value@);
            let range = token_range(text, token);
            &&& range.start.line == (token.line - 1) % 0x1_0000_0000
            &&& range.end.line == (token.line - 1) % 0x1_0000_0000
            &&& range.start.character == start % 0x1_0000_0000
            &&& range.end.character == end % 0x1_0000_0000
        }),
{
    let line = lines(text)[token.line - 1];
    assert(line.take(line.len() as int) == line);
}

/// Where a token starts does not depend on its text.
pub proof fn law_start_does_not_depend_on_value(text: Seq<char>, a: Token, b: Token)
    requires
        a.line == b.line,
        a.column == b.column,
    ensures
        token_range(text, a).start == token_range(text, b).start,
{
}

/// A token on a line that the text does not have is put at the beginning of the
/// text, with no length.
pub proof fn law_token_on_missing_line(text: Seq<char>, token: Token)
    requires
        token.line > lines(text).len() || lines(text).len() == 0,
    ensures
        token_range(text, token).start.line == 0,
        token_range(text, token).start.character == 0,
        token_range(text, token).end.line == 0,
        token_range(text, token).end.character == 0,
{
}

/// A line or a column of zero counts as the first one.
pub proof fn law_zero_counts_as_one(text: Seq<char>, a: Token, b: Token)
    requires
        a.value@ == b.value@,
        a.line == b.line || (a.line == 0 && b.line == 1),
        a.column == b.column || (a.column == 0 && b.column == 1),
    ensures
        token_range(text, a) == token_range(text, b),
{
}

/// The identifier at a caret is the word in front of it, up to the nearest
/// character that cannot be part of an identifier. The caret stands right behind
/// the word, or inside the surrogate pair of the word's last character, or
/// anywhere behind the end of the line that the word ends.
pub proof fn law_ident_is_word_before_caret(
    text: Seq<char>,
    position: Position,
    head: Seq<char>,
    word: Seq<char>,
    tail: Seq<char>,
)
    requires
        position.line < lines(text).len(),
        lines(text)[position.line as int] == head + word + tail,
        forall|i: int| 0 <= i < word.len() ==> ident_char(#[trigger] word[i]),
        head.len() > 0 ==> !ident_char(head.last()),
        ({
            let units = utf16_units(head + word);
            ||| position.character == units
            ||| position.character >= units && tail.len() == 0
            ||| position.character + 1 == units && (head + word).len() > 0 && (head
                + word).last() > '\u{ffff}'
        }),
    ensures
        ident_at(text, position) == word,
{
    let line = lines(text)[position.line as int];
    let before = head + word;
    let stop = before.len() as int;
    assert(line.take(stop) == before);
    if stop > 0 {
        let shorter = before.drop_last();
        assert(line.take(stop - 1) == shorter);
        assert(before == shorter + seq![before.last()]);
        law_units_of_concatenation(shorter, seq![before.last()]);
        law_units_of_char(before.last());
    }
    lemma_chars_before(line, position.character as nat, stop);
    assert(text_before(text, position) == before);
    lemma_ident_run(before, stop);
    assert(before.take(stop) == before);
    let n = ident_length(before, alphanumeric_flags(before));
    assert forall|i: int| head.len() <= i < stop implies ident_char(#[trigger] before[i]) by {
        assert(word[i - head.len()] == before[i]);
    }
    if head.len() > 0 {
        assert(before[head.len() - 1] == head.last());
    }
    assert(n == word.len());
    assert(before.skip(head.len() as int) == word);
}

/// There is no identifier on a line that the text does not have.
pub proof fn law_no_ident_on_missing_line(text: Seq<char>, position: Position)
    requires
        position.line >= lines(text).len(),
    ensures
        ident_at(text, position) == Seq::<char>::empty(),
{
    lemma_ident_length(seq![], alphanumeric_flags(seq![]));
}

/// Whatever characters count as alphanumeric, the identifier at the end of a
/// text is the longest run at its end of such characters and underscores.
pub proof fn law_trailing_ident_is_longest_run(before: Seq<char>, flags: Seq<bool>)
    requires
        flags.len() == before.len(),
    ensures
        ({
            let ident = ident_suffix(before, flags);
            let start = before.len() - ident.len();
            &&& 0 <= start <= before.len()
            &&& ident == before.skip(start)
            &&& forall|i: int| start <= i < before.len() ==> #[trigger] flags[i] || before[i] == '_'
            &&& start > 0 ==> !flags[start - 1] && before[start - 1] != '_'
        }),
{
    lemma_flagged_run(before, flags, before.len() as int);
    assert(before.take(before.len() as int) == before);
}

/// The identifier at the end of a prefix of a text.
proof fn lemma_flagged_run(s: Seq<char>, flags: Seq<bool>, end: int)
    requires
        0 <= end <= s.len(),
    ensures
        ({
            let n = ident_length(s.take(end), flags);
            &&& n <= end
            &&& forall|i: int| end - n <= i < end ==> #[trigger] flags[i] || s[i] == '_'
            &&& end > n ==> !flags[end - n - 1] && s[end - n - 1] != '_'
        }),
    decreases end,
{
    if end > 0 {
        lemma_flagged_run(s, flags, end - 1);
        assert(s.take(end).drop_last() == s.take(end - 1));
        assert(s.take(end).last() == s[end - 1]);
    }
}

} // verus!
