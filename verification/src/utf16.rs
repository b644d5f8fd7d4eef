//! Lengths counted in UTF-16 code units, the unit in which the Language Server
//! Protocol measures positions inside a line.
use std::rc::Rc;
use std::sync::Arc;
use vstd::prelude::*;
use vstd::utf8::encode_scalar;
use vstd::utf8::encode_utf8;

verus! {

/// The number of UTF-16 code units that encode one character: two for a
/// character outside the basic multilingual plane, one for any other.
pub open spec fn char_units(c: char) -> nat {
    if (c as u32) < 0x10000 {
        1
    } else {
        2
    }
}

/// The number of UTF-16 code units that encode a sequence of characters.
pub open spec fn utf16_units(s: Seq<char>) -> nat
    decreases s.len(),
{
    if s.len() == 0 {
        0
    } else {
        utf16_units(s.drop_last()) + char_units(s.last())
    }
}

/// A text that follows another one takes up its own length: lengths add up.
pub proof fn law_units_of_concatenation(a: Seq<char>, b: Seq<char>)
    ensures
        utf16_units(a + b) == utf16_units(a) + utf16_units(b),
    decreases b.len(),
{
    if b.len() == 0 {
        assert(a + b == a);
    } else {
        assert((a + b).drop_last() == a + b.drop_last());
        law_units_of_concatenation(a, b.drop_last());
    }
}

/// A text is at least as long as each of its parts.
pub proof fn lemma_units_of_part(s: Seq<char>, i: int, j: int)
    requires
        0 <= i <= j <= s.len(),
    ensures
        utf16_units(s.subrange(i, j)) <= utf16_units(s),
        utf16_units(s.take(j)) == utf16_units(s.take(i)) + utf16_units(s.subrange(i, j)),
{
    assert(s == s.take(j) + s.skip(j));
    law_units_of_concatenation(s.take(j), s.skip(j));
    assert(s.take(j) == s.take(i) + s.subrange(i, j));
    law_units_of_concatenation(s.take(i), s.subrange(i, j));
}

/// One more character lengthens a prefix by that character's units.
pub proof fn lemma_units_of_next(s: Seq<char>, i: int)
    requires
        0 <= i < s.len(),
    ensures
        utf16_units(s.take(i + 1)) == utf16_units(s.take(i)) + char_units(s[i]),
{
    assert(s.take(i + 1).drop_last() == s.take(i));
}

/// A text has no more UTF-16 code units than it has bytes in UTF-8.
pub proof fn law_units_within_bytes(s: Seq<char>)
    ensures
        utf16_units(s) <= encode_utf8(s).len(),
    decreases s.len(),
{
    if s.len() > 0 {
        let head = seq![s[0]];
        let tail = s.drop_first();
        law_units_within_bytes(tail);
        assert(s == head + tail);
        law_units_of_concatenation(head, tail);
        assert(utf16_units(head) == char_units(s[0])) by {
            reveal_with_fuel(utf16_units, 2);
        }
        assert(encode_scalar(s[0] as u32).len() >= char_units(s[0]));
    }
}

/// The number of UTF-16 code units that encode a character.
pub fn char_len_utf16(c: char) -> (units: usize)
    ensures
        units == char_units(c),
{
    if (c as u32) < 0x10000 {
        1
    } else {
        2
    }
}

/// The number of UTF-16 code units that encode a string slice.
pub fn str_len_utf16(s: &str) -> (units: usize)
    ensures
        units == utf16_units(s@),
{
    let bytes = s.as_bytes();
    let limit: usize = bytes.len();
    proof {
        law_units_within_bytes(s@);
    }
    let mut units: usize = 0;
    for c in it: s.chars()
        invariant
            it.seq() == s@,
            units == utf16_units(s@.take(it.index())),
            utf16_units(s@) <= limit,
    {
        proof {
            lemma_units_of_next(s@, it.index());
            lemma_units_of_part(s@, 0, it.index() + 1);
            assert(s@.subrange(0, it.index() + 1) == s@.take(it.index() + 1));
        }
        units = units + char_len_utf16(c);
    }
    proof {
        assert(s@.take(s@.len() as int) == s@);
    }
    units
}

/// Strings whose length can be taken in UTF-16 code units.
pub trait UTF16Len {
    /// The characters of the string.
    spec fn utf16_chars(&self) -> Seq<char>;

    /// The length of the string in UTF-16 code units.
    fn utf16_len(&self) -> (units: usize)
        ensures
            units == utf16_units(self.utf16_chars()),
    ;
}

impl UTF16Len for String {
    open spec fn utf16_chars(&self) -> Seq<char> {
        self@
    }

    fn utf16_len(&self) -> (units: usize) {
        str_len_utf16(self.as_str())
    }
}

impl UTF16Len for Arc<str> {
    open spec fn utf16_chars(&self) -> Seq<char> {
        (**self)@
    }

    fn utf16_len(&self) -> (units: usize) {
        str_len_utf16(&**self)
    }
}

impl UTF16Len for Rc<str> {
    open spec fn utf16_chars(&self) -> Seq<char> {
        (**self)@
    }

    fn utf16_len(&self) -> (units: usize) {
        str_len_utf16(&**self)
    }
}

/// A character takes one UTF-16 code unit up to U+FFFF and two beyond, and an
/// empty text takes none.
pub proof fn law_units_of_char(c: char)
    ensures
        utf16_units(Seq::<char>::empty()) == 0,
        c <= '\u{ffff}' ==> utf16_units(seq![c]) == 1,
        c > '\u{ffff}' ==> utf16_units(seq![c]) == 2,
{
    reveal_with_fuel(utf16_units, 2);
}

/// What is counted of a string is all of its characters.
pub proof fn law_all_characters_count(owned: String, shared: Arc<str>, local: Rc<str>)
    ensures
        owned.utf16_chars() == owned@,
        shared.utf16_chars() == (*shared)@,
        local.utf16_chars() == (*local)@,
{
}

} // verus!
