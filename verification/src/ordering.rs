//! Sorting marks, with at most one mark at each place.
use crate::marks::Mark;
use crate::protocol::Position;
use vstd::prelude::*;

verus! {

/// Whether a position lies in front of another one.
pub open spec fn before(a: Position, b: Position) -> bool {
    a.line < b.line || (a.line == b.line && a.character < b.character)
}

/// Marks that are sorted by where they start, no two at the same place.
pub open spec fn in_order(marks: Seq<Mark>) -> bool {
    forall|i: int, j: int|
        0 <= i < j < marks.len() ==> before(
            (#[trigger] marks[i]).start,
            (#[trigger] marks[j]).start,
        )
}

/// Whether some mark starts at a position.
pub open spec fn has_start(marks: Seq<Mark>, start: Position) -> bool {
    exists|i: int| 0 <= i < marks.len() && (#[trigger] marks[i]).start == start
}

/// Whether a mark is the first one listed of those that start where it does.
pub open spec fn is_first(marks: Seq<Mark>, mark: Mark) -> bool {
    exists|i: int|
        0 <= i < marks.len() && #[trigger] marks[i] == mark && !has_start(marks.take(i), mark.start)
}

/// What sorting marks and dropping all but the first at each place gives.
pub open spec fn is_ordering(marks: Seq<Mark>, ordered: Seq<Mark>) -> bool {
    &&& in_order(ordered)
    &&& forall|mark: Mark| #[trigger] ordered.contains(mark) <==> is_first(marks, mark)
}

/// If some mark starts at a position, then one of them is the first.
proof fn lemma_first_exists(marks: Seq<Mark>, start: Position) -> (mark: Mark)
    requires
        has_start(marks, start),
    ensures
        is_first(marks, mark),
        mark.start == start,
    decreases marks.len(),
{
    let earlier = marks.drop_last();
    let i = choose|i: int| 0 <= i < marks.len() && (#[trigger] marks[i]).start == start;
    if has_start(earlier, start) {
        let mark = lemma_first_exists(earlier, start);
        let k = choose|k: int|
            0 <= k < earlier.len() && #[trigger] earlier[k] == mark && !has_start(
                earlier.take(k),
                mark.start,
            );
        assert(marks[k] == mark);
        assert(marks.take(k) == earlier.take(k));
        mark
    } else {
        if i < earlier.len() {
            assert(earlier[i].start == start);
        }
        assert(marks.take(i) == earlier);
        marks[i]
    }
}

/// Which marks come first in a list that is put together of two.
proof fn lemma_first_of_two(a: Seq<Mark>, b: Seq<Mark>, mark: Mark)
    ensures
        is_first(a + b, mark) <==> (is_first(a, mark) || (is_first(b, mark) && !has_start(
            a,
            mark.start,
        ))),
{
    let all = a + b;
    if is_first(all, mark) {
        let i = choose|i: int|
            0 <= i < all.len() && #[trigger] all[i] == mark && !has_start(all.take(i), mark.start);
        if i < a.len() {
            assert(a[i] == mark);
            assert(all.take(i) == a.take(i));
        } else {
            assert(b[i - a.len()] == mark);
            assert forall|k: int| 0 <= k < a.len() implies (#[trigger] a[k]).start
                != mark.start by {
                assert(all.take(i)[k] == a[k]);
            }
            assert forall|k: int| 0 <= k < i - a.len() implies (#[trigger] b.take(
                i - a.len(),
            )[k]).start != mark.start by {
                assert(all.take(i)[k + a.len()] == b.take(i - a.len())[k]);
            }
        }
    }
    if is_first(a, mark) {
        let i = choose|i: int|
            0 <= i < a.len() && #[trigger] a[i] == mark && !has_start(a.take(i), mark.start);
        assert(all[i] == mark);
        assert(all.take(i) == a.take(i));
    }
    if is_first(b, mark) && !has_start(a, mark.start) {
        let i = choose|i: int|
            0 <= i < b.len() && #[trigger] b[i] == mark && !has_start(b.take(i), mark.start);
        assert(all[i + a.len()] == mark);
        assert forall|k: int| 0 <= k < i + a.len() implies (#[trigger] all.take(
            i + a.len(),
        )[k]).start != mark.start by {
            if k < a.len() {
                assert(a[k] == all.take(i + a.len())[k]);
            } else {
                assert(b.take(i)[k - a.len()] == all.take(i + a.len())[k]);
            }
        }
    }
}

/// Whether a position lies in front of another one.
fn is_before(a: Position, b: Position) -> (answer: bool)
    ensures
        answer == before(a, b),
{
    a.line < b.line || (a.line == b.line && a.character < b.character)
}

/// What a merge has put together of two lists so far.
spec fn merged(left: Seq<Mark>, right: Seq<Mark>, i: int, j: int, out: Seq<Mark>) -> bool {
    &&& in_order(out)
    &&& forall|k: int, l: int|
        0 <= k < out.len() && i <= l < left.len() ==> before(
            (#[trigger] out[k]).start,
            (#[trigger] left[l]).start,
        )
    &&& forall|k: int, l: int|
        0 <= k < out.len() && j <= l < right.len() ==> before(
            (#[trigger] out[k]).start,
            (#[trigger] right[l]).start,
        )
    &&& forall|mark: Mark| #[trigger]
        out.contains(mark) <==> (left.take(i).contains(mark) || (right.take(j).contains(mark)
            && !has_start(left, mark.start)))
}

/// What a list holds after one more mark has been added.
proof fn lemma_contains_push(s: Seq<Mark>, x: Mark, mark: Mark)
    ensures
        s.push(x).contains(mark) <==> (s.contains(mark) || mark == x),
{
    if s.contains(mark) {
        let k = choose|k: int| 0 <= k < s.len() && s[k] == mark;
        assert(s.push(x)[k] == mark);
    }
    if mark == x {
        assert(s.push(x)[s.len() as int] == mark);
    }
}

/// A merge goes on with the next mark of the first list.
proof fn lemma_merge_left(left: Seq<Mark>, right: Seq<Mark>, i: int, j: int, out: Seq<Mark>)
    requires
        in_order(left),
        merged(left, right, i, j, out),
        0 <= i < left.len(),
        0 <= j <= right.len(),
        j < right.len() ==> before(left[i].start, right[j].start),
        in_order(right),
    ensures
        merged(left, right, i + 1, j, out.push(left[i])),
{
    let next = out.push(left[i]);
    assert(left.take(i + 1) == left.take(i).push(left[i]));
    assert forall|mark: Mark| #[trigger] next.contains(mark) <==> (left.take(i + 1).contains(mark)
        || (right.take(j).contains(mark) && !has_start(left, mark.start))) by {
        lemma_contains_push(out, left[i], mark);
        lemma_contains_push(left.take(i), left[i], mark);
    }
    assert forall|k: int, l: int| 0 <= k < next.len() && j <= l < right.len() implies before(
        (#[trigger] next[k]).start,
        (#[trigger] right[l]).start,
    ) by {
        if k == out.len() {
            assert(l == j || before(right[j].start, right[l].start));
        }
    }
}

/// A merge goes on where both lists have a mark at the same place.
proof fn lemma_merge_both(left: Seq<Mark>, right: Seq<Mark>, i: int, j: int, out: Seq<Mark>)
    requires
        in_order(left),
        in_order(right),
        merged(left, right, i, j, out),
        0 <= i < left.len(),
        0 <= j < right.len(),
        left[i].start == right[j].start,
    ensures
        merged(left, right, i + 1, j + 1, out.push(left[i])),
{
    let next = out.push(left[i]);
    assert(left.take(i + 1) == left.take(i).push(left[i]));
    assert(right.take(j + 1) == right.take(j).push(right[j]));
    assert(has_start(left, right[j].start));
    assert forall|mark: Mark| #[trigger] next.contains(mark) <==> (left.take(i + 1).contains(mark)
        || (right.take(j + 1).contains(mark) && !has_start(left, mark.start))) by {
        lemma_contains_push(out, left[i], mark);
        lemma_contains_push(left.take(i), left[i], mark);
        lemma_contains_push(right.take(j), right[j], mark);
    }
    assert forall|k: int, l: int| 0 <= k < next.len() && j + 1 <= l < right.len() implies before(
        (#[trigger] next[k]).start,
        (#[trigger] right[l]).start,
    ) by {
        assert(before(right[j].start, right[l].start));
    }
}

/// A merge goes on with the next mark of the second list.
proof fn lemma_merge_right(left: Seq<Mark>, right: Seq<Mark>, i: int, j: int, out: Seq<Mark>)
    requires
        in_order(left),
        in_order(right),
        merged(left, right, i, j, out),
        0 <= i <= left.len(),
        0 <= j < right.len(),
        i < left.len() ==> before(right[j].start, left[i].start),
    ensures
        merged(left, right, i, j + 1, out.push(right[j])),
{
    let next = out.push(right[j]);
    assert(right.take(j + 1) == right.take(j).push(right[j]));
    assert forall|l: int| 0 <= l < left.len() implies (#[trigger] left[l]).start
        != right[j].start by {
        if l < i {
            assert(left.take(i)[l] == left[l]);
            assert(out.contains(left[l]));
            let k = choose|k: int| 0 <= k < out.len() && out[k] == left[l];
            assert(before(out[k].start, right[j].start));
        } else {
            assert(l == i || before(left[i].start, left[l].start));
        }
    }
    assert forall|mark: Mark| #[trigger] next.contains(mark) <==> (left.take(i).contains(mark) || (
    right.take(j + 1).contains(mark) && !has_start(left, mark.start))) by {
        lemma_contains_push(out, right[j], mark);
        lemma_contains_push(right.take(j), right[j], mark);
    }
    assert forall|k: int, l: int| 0 <= k < next.len() && i <= l < left.len() implies before(
        (#[trigger] next[k]).start,
        (#[trigger] left[l]).start,
    ) by {
        if k == out.len() {
            assert(l == i || before(left[i].start, left[l].start));
        }
    }
}

/// Merges two sorted lists of marks. Where both have a mark at the same place,
/// that of the first list stays.
fn merge_marks(left: &Vec<Mark>, right: &Vec<Mark>) -> (out: Vec<Mark>)
    requires
        in_order(left@),
        in_order(right@),
    ensures
        in_order(out@),
        forall|mark: Mark| #[trigger]
            out@.contains(mark) <==> (left@.contains(mark) || (right@.contains(mark) && !has_start(
                left@,
                mark.start,
            ))),
{
    let mut out: Vec<Mark> = Vec::new();
    let mut i: usize = 0;
    let mut j: usize = 0;
    while i < left.len() || j < right.len()
        invariant
            in_order(left@),
            in_order(right@),
            i <= left@.len(),
            j <= right@.len(),
            merged(left@, right@, i as int, j as int, out@),
        decreases left@.len() - i + right@.len() - j,
    {
        if j == right.len() || (i < left.len() && is_before(left[i].start, right[j].start)) {
            proof {
                lemma_merge_left(left@, right@, i as int, j as int, out@);
            }
            out.push(left[i]);
            i = i + 1;
        } else if i == left.len() || is_before(right[j].start, left[i].start) {
            proof {
                lemma_merge_right(left@, right@, i as int, j as int, out@);
            }
            out.push(right[j]);
            j = j + 1;
        } else {
            proof {
                lemma_merge_both(left@, right@, i as int, j as int, out@);
            }
            out.push(left[i]);
            i = i + 1;
            j = j + 1;
        }
    }
    proof {
        assert(left@.take(i as int) == left@);
        assert(right@.take(j as int) == right@);
    }
    out
}

/// Sorts a part of a list of marks and drops all but the first at each place.
fn order_part(marks: &Vec<Mark>, from: usize, to: usize) -> (ordered: Vec<Mark>)
    requires
        from <= to <= marks@.len(),
    ensures
        is_ordering(marks@.subrange(from as int, to as int), ordered@),
    decreases to - from,
{
    let ghost part = marks@.subrange(from as int, to as int);
    let mut ordered: Vec<Mark> = Vec::new();
    if to - from == 0 {
        return ordered;
    }
    if to - from == 1 {
        ordered.push(marks[from]);
        proof {
            assert(part == seq![marks@[from as int]]);
            assert(ordered@ == part);
            assert forall|mark: Mark| #[trigger]
                ordered@.contains(mark) <==> is_first(part, mark) by {
                if ordered@.contains(mark) {
                    assert(part[0] == mark);
                    assert(part.take(0).len() == 0);
                }
            }
        }
        return ordered;
    }
    let middle: usize = from + (to - from) / 2;
    let left = order_part(marks, from, middle);
    let right = order_part(marks, middle, to);
    ordered = merge_marks(&left, &right);
    proof {
        let a = marks@.subrange(from as int, middle as int);
        let b = marks@.subrange(middle as int, to as int);
        assert(part == a + b);
        assert forall|mark: Mark| #[trigger] ordered@.contains(mark) <==> is_first(part, mark) by {
            lemma_first_of_two(a, b, mark);
            assert(left@.contains(mark) <==> is_first(a, mark));
            assert(right@.contains(mark) <==> is_first(b, mark));
            if has_start(a, mark.start) {
                let first = lemma_first_exists(a, mark.start);
                assert(left@.contains(first));
            }
            if has_start(left@, mark.start) {
                let k = choose|k: int|
                    0 <= k < left@.len() && (#[trigger] left@[k]).start == mark.start;
                assert(left@.contains(left@[k]));
                assert(is_first(a, left@[k]));
            }
        }
    }
    ordered
}

/// Sorts marks by where they start. Of several marks at the same place, the
/// one that is listed first stays.
pub fn order_marks(marks: &Vec<Mark>) -> (ordered: Vec<Mark>)
    ensures
        is_ordering(marks@, ordered@),
{
    proof {
        assert(marks@.subrange(0, marks@.len() as int) == marks@);
    }
    order_part(marks, 0, marks.len())
}

/// Sorted marks are determined by which marks there are.
proof fn lemma_order_is_unique(a: Seq<Mark>, b: Seq<Mark>)
    requires
        in_order(a),
        in_order(b),
        forall|mark: Mark| #[trigger] a.contains(mark) <==> b.contains(mark),
    ensures
        a == b,
    decreases a.len(),
{
    if a.len() == 0 {
        if b.len() > 0 {
            assert(b.contains(b[0]));
            assert(a.contains(b[0]));
        }
    } else {
        assert(a.contains(a.last()));
        assert(b.contains(a.last()));
        let i = choose|i: int| 0 <= i < b.len() && b[i] == a.last();
        assert(b.contains(b.last()));
        assert(a.contains(b.last()));
        let j = choose|j: int| 0 <= j < a.len() && a[j] == b.last();
        if i < b.len() - 1 {
            assert(before(b[i].start, b[b.len() - 1].start));
        }
        if j < a.len() - 1 {
            assert(before(a[j].start, a[a.len() - 1].start));
        }
        let c = a.drop_last();
        let d = b.drop_last();
        assert forall|mark: Mark| #[trigger] c.contains(mark) <==> d.contains(mark) by {
            if c.contains(mark) {
                let k = choose|k: int| 0 <= k < c.len() && c[k] == mark;
                assert(a[k] == mark);
                assert(before(a[k].start, a.last().start));
                assert(a.contains(mark));
                assert(b.contains(mark));
                let l = choose|l: int| 0 <= l < b.len() && b[l] == mark;
                assert(d[l] == mark);
            }
            if d.contains(mark) {
                let k = choose|k: int| 0 <= k < d.len() && d[k] == mark;
                assert(b[k] == mark);
                assert(before(b[k].start, b.last().start));
                assert(a.contains(mark));
                let l = choose|l: int| 0 <= l < a.len() && a[l] == mark;
                assert(c[l] == mark);
            }
        }
        lemma_order_is_unique(c, d);
        assert(a == c.push(a.last()));
        assert(b == d.push(b.last()));
    }
}

/// There is only one way to sort marks and to keep the first at each place.
pub proof fn law_ordering_is_unique(marks: Seq<Mark>, a: Seq<Mark>, b: Seq<Mark>)
    requires
        is_ordering(marks, a),
        is_ordering(marks, b),
    ensures
        a == b,
{
    assert forall|mark: Mark| #[trigger] a.contains(mark) <==> b.contains(mark) by {
        assert(a.contains(mark) <==> is_first(marks, mark));
        assert(b.contains(mark) <==> is_first(marks, mark));
    }
    lemma_order_is_unique(a, b);
}

/// Sorting loses no place and invents none: a mark starts at a position after
/// sorting exactly where one did before.
pub proof fn law_ordering_keeps_places(marks: Seq<Mark>, ordered: Seq<Mark>, start: Position)
    requires
        is_ordering(marks, ordered),
    ensures
        has_start(ordered, start) <==> has_start(marks, start),
{
    if has_start(marks, start) {
        let mark = lemma_first_exists(marks, start);
        assert(ordered.contains(mark));
        let k = choose|k: int| 0 <= k < ordered.len() && ordered[k] == mark;
        assert(ordered[k].start == start);
    }
    if has_start(ordered, start) {
        let k = choose|k: int| 0 <= k < ordered.len() && (#[trigger] ordered[k]).start == start;
        assert(ordered.contains(ordered[k]));
        assert(is_first(marks, ordered[k]));
        let i = choose|i: int|
            0 <= i < marks.len() && #[trigger] marks[i] == ordered[k] && !has_start(
                marks.take(i),
                ordered[k].start,
            );
        assert(marks[i].start == start);
    }
}

/// Marks that are in order already stay as they are.
pub proof fn law_ordering_of_ordered(marks: Seq<Mark>)
    requires
        in_order(marks),
    ensures
        is_ordering(marks, marks),
{
    assert forall|mark: Mark| #[trigger] marks.contains(mark) <==> is_first(marks, mark) by {
        if marks.contains(mark) {
            let k = choose|k: int| 0 <= k < marks.len() && marks[k] == mark;
            assert forall|l: int| 0 <= l < k implies (#[trigger] marks.take(k)[l]).start
                != mark.start by {
                assert(before(marks[l].start, marks[k].start));
            }
            assert(marks[k] == mark);
        }
    }
}

/// Of two marks at the same place, one in each of two lists, the one in the
/// first list is kept.
pub proof fn law_first_list_wins(a: Seq<Mark>, b: Seq<Mark>, ordered: Seq<Mark>, mark: Mark)
    requires
        is_ordering(a + b, ordered),
        ordered.contains(mark),
        has_start(a, mark.start),
    ensures
        is_first(a, mark),
{
    lemma_first_of_two(a, b, mark);
}

/// Sorted marks go from line to line and, on a line, from left to right.
pub proof fn law_ordered_marks_go_forward(marks: Seq<Mark>, ordered: Seq<Mark>, i: int, j: int)
    requires
        is_ordering(marks, ordered),
        0 <= i < j < ordered.len(),
    ensures
        ordered[i].start.line <= ordered[j].start.line,
        ordered[i].start.line == ordered[j].start.line ==> ordered[i].start.character
            < ordered[j].start.character,
{
    assert(before(ordered[i].start, ordered[j].start));
}

/// A mark that is listed before any other at its place is kept.
pub proof fn law_first_mark_is_kept(marks: Seq<Mark>, ordered: Seq<Mark>, i: int)
    requires
        is_ordering(marks, ordered),
        0 <= i < marks.len(),
        forall|j: int| 0 <= j < i ==> (#[trigger] marks[j]).start != marks[i].start,
    ensures
        exists|k: int| 0 <= k < ordered.len() && #[trigger] ordered[k] == marks[i],
{
    assert forall|j: int| 0 <= j < i implies (#[trigger] marks.take(i)[j]).start
        != marks[i].start by {
        assert(marks[j].start != marks[i].start);
    }
    assert(is_first(marks, marks[i]));
    assert(ordered.contains(marks[i]));
}

/// A mark that is kept is listed before any other at its place.
pub proof fn law_kept_mark_is_first(marks: Seq<Mark>, ordered: Seq<Mark>, k: int)
    requires
        is_ordering(marks, ordered),
        0 <= k < ordered.len(),
    ensures
        exists|i: int|
            {
                &&& 0 <= i < marks.len()
                &&& #[trigger] marks[i] == ordered[k]
                &&& forall|j: int| 0 <= j < i ==> (#[trigger] marks[j]).start != ordered[k].start
            },
{
    assert(ordered.contains(ordered[k]));
    let i = choose|i: int|
        0 <= i < marks.len() && #[trigger] marks[i] == ordered[k] && !has_start(
            marks.take(i),
            ordered[k].start,
        );
    assert forall|j: int| 0 <= j < i implies (#[trigger] marks[j]).start != ordered[k].start by {
        assert(marks.take(i)[j] == marks[j]);
    }
}

} // verus!
