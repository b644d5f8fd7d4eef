//! The form in which semantic tokens are sent.
use crate::marks::Mark;
use crate::ordering::before;
use crate::ordering::in_order;
use crate::protocol::Position;
use crate::protocol::SemanticToken;
use crate::token_type::kind_number;
use vstd::prelude::*;

verus! {

/// A mark as it is sent after a token that starts at `last`.
pub open spec fn token_after(last: Position, mark: Mark) -> SemanticToken {
    SemanticToken {
        delta_line: (mark.start.line - last.line) as u32,
        delta_start: if mark.start.line == last.line {
            (mark.start.character - last.character) as u32
        } else {
            mark.start.character
        },
        length: mark.length,
        token_type: kind_number(mark.kind),
        token_modifiers_bitset: 0,
    }
}

/// Where the mark in front of the one with the given index starts; the first
/// mark is placed relative to the beginning of the document.
pub open spec fn last_start(marks: Seq<Mark>, i: int) -> Position {
    if i <= 0 {
        Position { line: 0, character: 0 }
    } else {
        marks[i - 1].start
    }
}

/// Marks as they are sent, each placed relative to the one before it.
pub open spec fn encoded(marks: Seq<Mark>) -> Seq<SemanticToken> {
    Seq::new(marks.len(), |i: int| token_after(last_start(marks, i), marks[i]))
}

/// Writes sorted marks as they are sent, each placed relative to the one
/// before it.
pub fn encode_marks(marks: &Vec<Mark>) -> (data: Vec<SemanticToken>)
    requires
        in_order(marks@),
    ensures
        data@ == encoded(marks@),
{
    let mut data: Vec<SemanticToken> = Vec::new();
    let mut last = Position { line: 0, character: 0 };
    let mut i: usize = 0;
    while i < marks.len()
        invariant
            i <= marks@.len(),
            in_order(marks@),
            last == last_start(marks@, i as int),
            data@ == encoded(marks@).take(i as int),
        decreases marks@.len() - i,
    {
        let mark = marks[i];
        proof {
            assert(i > 0 ==> before(marks@[i - 1].start, marks@[i as int].start));
            assert(encoded(marks@).take(i + 1) == encoded(marks@).take(i as int).push(
                encoded(marks@)[i as int],
            ));
        }
        let delta_line: u32 = mark.start.line - last.line;
        let delta_start: u32 = if delta_line == 0 {
            mark.start.character - last.character
        } else {
            mark.start.character
        };
        data.push(
            SemanticToken {
                delta_line,
                delta_start,
                length: mark.length,
                token_type: mark.kind.number(),
                token_modifiers_bitset: 0,
            },
        );
        last = mark.start;
        i = i + 1;
    }
    proof {
        assert(encoded(marks@).take(i as int) == encoded(marks@));
    }
    data
}

/// Where an editor puts a token that is sent after one that starts at `last`.
pub open spec fn start_after(last: Position, token: SemanticToken) -> Position {
    Position {
        line: (last.line + token.delta_line) as u32,
        character: if token.delta_line == 0 {
            (last.character + token.delta_start) as u32
        } else {
            token.delta_start
        },
    }
}

/// Where an editor puts each of the tokens that it is sent.
pub open spec fn decoded_starts(data: Seq<SemanticToken>) -> Seq<Position>
    decreases data.len(),
{
    if data.len() == 0 {
        seq![]
    } else {
        let earlier = decoded_starts(data.drop_last());
        let last = if earlier.len() == 0 {
            Position { line: 0, character: 0 }
        } else {
            earlier.last()
        };
        earlier.push(start_after(last, data.last()))
    }
}

/// An editor that reads the tokens it is sent finds every mark at its place,
/// with its length and the number of its kind, and no modifiers.
pub proof fn law_editor_finds_marks(marks: Seq<Mark>)
    requires
        in_order(marks),
    ensures
        encoded(marks).len() == marks.len(),
        decoded_starts(encoded(marks)) == marks.map_values(|mark: Mark| mark.start),
        forall|i: int|
            0 <= i < marks.len() ==> {
                &&& (#[trigger] encoded(marks)[i]).length == marks[i].length
                &&& encoded(marks)[i].token_type == kind_number(marks[i].kind)
                &&& encoded(marks)[i].token_modifiers_bitset == 0
            },
    decreases marks.len(),
{
    if marks.len() > 0 {
        let n = marks.len() - 1;
        let shorter = marks.drop_last();
        law_editor_finds_marks(shorter);
        assert(encoded(marks).drop_last() == encoded(shorter));
        let earlier = decoded_starts(encoded(shorter));
        if n > 0 {
            assert(before(marks[n - 1].start, marks[n].start));
            assert(earlier.last() == marks[n - 1].start);
        }
        let starts = marks.map_values(|mark: Mark| mark.start);
        assert(starts.drop_last() == shorter.map_values(|mark: Mark| mark.start));
        assert(decoded_starts(encoded(marks)) == starts.drop_last().push(marks[n].start));
    }
}

/// The first token says where it starts. Each later one says how many lines it
/// is below the one before it and, on the same line, how far to the right of its
/// start, on another line where on that line it starts.
pub proof fn law_tokens_are_relative(marks: Seq<Mark>, i: int)
    requires
        in_order(marks),
        0 <= i < marks.len(),
    ensures
        i == 0 ==> {
            &&& encoded(marks)[0].delta_line == marks[0].start.line
            &&& encoded(marks)[0].delta_start == marks[0].start.character
        },
        i > 0 ==> {
            let last = marks[i - 1].start;
            let start = marks[i].start;
            &&& encoded(marks)[i].delta_line == start.line - last.line
            &&& start.line == last.line ==> encoded(marks)[i].delta_start == start.character
                - last.character
            &&& start.line != last.line ==> encoded(marks)[i].delta_start == start.character
        },
{
    if i > 0 {
        assert(before(marks[i - 1].start, marks[i].start));
    }
}

} // verus!
