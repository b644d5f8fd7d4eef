//! The semantic tokens of a document.
use crate::encoding::encode_marks;
use crate::encoding::encoded;
use crate::marks::collect_marks;
use crate::marks::expression_marks;
use crate::marks::statement_marks;
use crate::marks::Mark;
use crate::ordering::is_ordering;
use crate::ordering::order_marks;
use crate::protocol::SemanticToken;
use crate::syntax::TypedExpression;
use crate::syntax::TypedStatement;
use crate::encoding::decoded_starts;
use crate::encoding::law_editor_finds_marks;
use crate::marks::law_expression_marks;
use crate::marks::law_expressions_of_file;
use crate::marks::law_statement_marks;
use crate::marks::law_statements_of_file;
use crate::marks::lemma_contains_of_two;
use crate::ordering::has_start;
use crate::ordering::is_first;
use crate::ordering::law_first_mark_is_kept;
use crate::ordering::law_kept_mark_is_first;
use crate::ordering::law_ordered_marks_go_forward;
use crate::ordering::law_ordering_is_unique;
use crate::ordering::law_ordering_keeps_places;
use crate::protocol::Position;
use crate::token_type::kind_name;
use crate::token_type::kind_number;
use crate::token_type::law_legend_names_kind;
use crate::token_type::legend_names;
use vstd::prelude::*;

verus! {

/// What an editor shows for a document: the marks of its expressions and
/// statements, in order, as they are sent.
pub open spec fn is_reply(
    text: Seq<char>,
    exprs: Seq<TypedExpression>,
    stmts: Seq<TypedStatement>,
    file: Seq<char>,
    data: Seq<SemanticToken>,
) -> bool {
    let marks = expression_marks(text, exprs, file) + statement_marks(text, stmts, file);
    exists|ordered: Seq<Mark>|
        #[trigger] is_ordering(marks, ordered) && data == encoded(ordered)
}

/// The semantic tokens of a document, given its text, its compiled module and
/// the file that it is.
pub fn semantic_tokens(
    text: &str,
    typed_exprs: &Vec<TypedExpression>,
    typed_stmts: &Vec<TypedStatement>,
    file: &String,
) -> (data: Vec<SemanticToken>)
    ensures
        is_reply(text@, typed_exprs@, typed_stmts@, file@, data@),
{
    let marks = collect_marks(text, typed_exprs, typed_stmts, file);
    let ordered = order_marks(&marks);
    encode_marks(&ordered)
}

/// The semantic tokens of a document are determined by its text, its module
/// and its file.
pub proof fn law_reply_is_unique(
    text: Seq<char>,
    exprs: Seq<TypedExpression>,
    stmts: Seq<TypedStatement>,
    file: Seq<char>,
    a: Seq<SemanticToken>,
    b: Seq<SemanticToken>,
)
    requires
        is_reply(text, exprs, stmts, file, a),
        is_reply(text, exprs, stmts, file, b),
    ensures
        a == b,
{
    let marks = expression_marks(text, exprs, file) + statement_marks(text, stmts, file);
    let c = choose|ordered: Seq<Mark>|
        #[trigger] is_ordering(marks, ordered) && a == encoded(ordered);
    let d = choose|ordered: Seq<Mark>|
        #[trigger] is_ordering(marks, ordered) && b == encoded(ordered);
    law_ordering_is_unique(marks, c, d);
}

/// An editor can look up every token of a reply in the legend, and finds there
/// the name of the kind that the token is highlighted as.
pub proof fn law_reply_keeps_to_legend(
    text: Seq<char>,
    exprs: Seq<TypedExpression>,
    stmts: Seq<TypedStatement>,
    file: Seq<char>,
    data: Seq<SemanticToken>,
    ordered: Seq<Mark>,
)
    requires
        is_reply(text, exprs, stmts, file, data),
        is_ordering(
            expression_marks(text, exprs, file) + statement_marks(text, stmts, file),
            ordered,
        ),
    ensures
        data.len() == ordered.len(),
        forall|i: int|
            0 <= i < data.len() ==> {
                &&& (#[trigger] data[i]).token_type < legend_names().len()
                &&& legend_names()[data[i].token_type as int] == kind_name(ordered[i].kind)
                &&& data[i].token_modifiers_bitset == 0
            },
{
    let marks = expression_marks(text, exprs, file) + statement_marks(text, stmts, file);
    let sent = choose|sent: Seq<Mark>|
        #[trigger] is_ordering(marks, sent) && data == encoded(sent);
    law_ordering_is_unique(marks, sent, ordered);
    assert forall|i: int| 0 <= i < data.len() implies {
        &&& (#[trigger] data[i]).token_type < legend_names().len()
        &&& legend_names()[data[i].token_type as int] == kind_name(ordered[i].kind)
        &&& data[i].token_modifiers_bitset == 0
    } by {
        law_legend_names_kind(ordered[i].kind);
    }
}

/// Where an editor finds a token, an expression or a statement of the file has
/// a mark, and where one of them has a mark, the editor finds a token.
pub proof fn law_reply_shows_all_places(
    text: Seq<char>,
    exprs: Seq<TypedExpression>,
    stmts: Seq<TypedStatement>,
    file: Seq<char>,
    data: Seq<SemanticToken>,
    start: Position,
)
    requires
        is_reply(text, exprs, stmts, file, data),
    ensures
        decoded_starts(data).contains(start) <==> (has_start(
            expression_marks(text, exprs, file),
            start,
        ) || has_start(statement_marks(text, stmts, file), start)),
{
    let a = expression_marks(text, exprs, file);
    let b = statement_marks(text, stmts, file);
    let ordered = choose|ordered: Seq<Mark>|
        #[trigger] is_ordering(a + b, ordered) && data == encoded(ordered);
    law_editor_finds_marks(ordered);
    law_ordering_keeps_places(a + b, ordered, start);
    let starts = decoded_starts(data);
    if starts.contains(start) {
        let k = choose|k: int| 0 <= k < starts.len() && starts[k] == start;
        assert(ordered[k].start == start);
    }
    if has_start(ordered, start) {
        let k = choose|k: int| 0 <= k < ordered.len() && (#[trigger] ordered[k]).start == start;
        assert(starts[k] == start);
    }
    if has_start(a + b, start) {
        let k = choose|k: int| 0 <= k < (a + b).len() && (#[trigger] (a + b)[k]).start == start;
        if k < a.len() {
            assert(a[k].start == start);
        } else {
            assert(b[k - a.len()].start == start);
        }
    }
    if has_start(a, start) {
        let k = choose|k: int| 0 <= k < a.len() && (#[trigger] a[k]).start == start;
        assert((a + b)[k].start == start);
    }
    if has_start(b, start) {
        let k = choose|k: int| 0 <= k < b.len() && (#[trigger] b[k]).start == start;
        assert((a + b)[k + a.len()].start == start);
    }
}

/// A document shows nothing of a module that stands in other files only.
pub proof fn law_other_files_show_nothing(
    text: Seq<char>,
    exprs: Seq<TypedExpression>,
    stmts: Seq<TypedStatement>,
    file: Seq<char>,
    data: Seq<SemanticToken>,
)
    requires
        is_reply(text, exprs, stmts, file, data),
        forall|i: int| 0 <= i < exprs.len() ==> (#[trigger] exprs[i]).token.file@ != file,
        forall|i: int| 0 <= i < stmts.len() ==> (#[trigger] stmts[i]).token.file@ != file,
    ensures
        data.len() == 0,
{
    let marks = expression_marks(text, exprs, file) + statement_marks(text, stmts, file);
    let ordered = choose|ordered: Seq<Mark>|
        #[trigger] is_ordering(marks, ordered) && data == encoded(ordered);
    if data.len() > 0 {
        let mark = ordered[0];
        assert(ordered.contains(mark));
        assert(is_first(marks, mark));
        assert(marks.contains(mark));
        lemma_contains_of_two(
            expression_marks(text, exprs, file),
            statement_marks(text, stmts, file),
            mark,
        );
        law_expression_marks(text, exprs, file, mark);
        law_statement_marks(text, stmts, file, mark);
    }
}

/// A document shows what stands in its own file and nothing else: the reply for
/// a module is the reply for those of its expressions and statements that stand
/// in the file.
pub proof fn law_reply_is_that_of_file(
    text: Seq<char>,
    exprs: Seq<TypedExpression>,
    stmts: Seq<TypedStatement>,
    file: Seq<char>,
    data: Seq<SemanticToken>,
)
    ensures
        is_reply(text, exprs, stmts, file, data) <==> is_reply(
            text,
            exprs.filter(|e: TypedExpression| e.token.file@ == file),
            stmts.filter(|s: TypedStatement| s.token.file@ == file),
            file,
            data,
        ),
{
    law_expressions_of_file(text, exprs, file);
    law_statements_of_file(text, stmts, file);
}

/// Every mark that is listed before any other at its place, the marks of
/// expressions before those of statements, is found by the editor: at its place,
/// with its length and the number of its kind.
pub proof fn law_first_mark_is_sent(
    text: Seq<char>,
    exprs: Seq<TypedExpression>,
    stmts: Seq<TypedStatement>,
    file: Seq<char>,
    data: Seq<SemanticToken>,
    i: int,
)
    requires
        is_reply(text, exprs, stmts, file, data),
        ({
            let marks = expression_marks(text, exprs, file) + statement_marks(text, stmts, file);
            &&& 0 <= i < marks.len()
            &&& forall|j: int| 0 <= j < i ==> (#[trigger] marks[j]).start != marks[i].start
        }),
    ensures
        ({
            let marks = expression_marks(text, exprs, file) + statement_marks(text, stmts, file);
            exists|k: int|
                {
                    &&& 0 <= k < data.len()
                    &&& decoded_starts(data)[k] == marks[i].start
                    &&& (#[trigger] data[k]).length == marks[i].length
                    &&& data[k].token_type == kind_number(marks[i].kind)
                }
        }),
{
    let marks = expression_marks(text, exprs, file) + statement_marks(text, stmts, file);
    let ordered = choose|ordered: Seq<Mark>|
        #[trigger] is_ordering(marks, ordered) && data == encoded(ordered);
    lemma_first_mark_is_sent(marks, ordered, i);
}

/// What the editor finds of a mark that is listed before any other at its place.
proof fn lemma_first_mark_is_sent(marks: Seq<Mark>, ordered: Seq<Mark>, i: int)
    requires
        is_ordering(marks, ordered),
        0 <= i < marks.len(),
        forall|j: int| 0 <= j < i ==> (#[trigger] marks[j]).start != marks[i].start,
    ensures
        exists|k: int|
            {
                &&& 0 <= k < encoded(ordered).len()
                &&& decoded_starts(encoded(ordered))[k] == marks[i].start
                &&& (#[trigger] encoded(ordered)[k]).length == marks[i].length
                &&& encoded(ordered)[k].token_type == kind_number(marks[i].kind)
            },
{
    law_first_mark_is_kept(marks, ordered, i);
    law_editor_finds_marks(ordered);
    let k = choose|k: int| 0 <= k < ordered.len() && #[trigger] ordered[k] == marks[i];
    assert(encoded(ordered)[k].length == ordered[k].length);
}

/// Every token that the editor finds is a mark that is listed before any other
/// at its place, the marks of expressions before those of statements.
pub proof fn law_sent_token_is_first_mark(
    text: Seq<char>,
    exprs: Seq<TypedExpression>,
    stmts: Seq<TypedStatement>,
    file: Seq<char>,
    data: Seq<SemanticToken>,
    k: int,
)
    requires
        is_reply(text, exprs, stmts, file, data),
        0 <= k < data.len(),
    ensures
        decoded_starts(data).len() == data.len(),
        data[k].token_modifiers_bitset == 0,
        ({
            let marks = expression_marks(text, exprs, file) + statement_marks(text, stmts, file);
            exists|i: int|
                {
                    &&& 0 <= i < marks.len()
                    &&& (#[trigger] marks[i]).start == decoded_starts(data)[k]
                    &&& marks[i].length == data[k].length
                    &&& kind_number(marks[i].kind) == data[k].token_type
                    &&& forall|j: int|
                        0 <= j < i ==> (#[trigger] marks[j]).start != marks[i].start
                }
        }),
{
    let marks = expression_marks(text, exprs, file) + statement_marks(text, stmts, file);
    let ordered = choose|ordered: Seq<Mark>|
        #[trigger] is_ordering(marks, ordered) && data == encoded(ordered);
    lemma_sent_token_is_first_mark(marks, ordered, k);
}

/// Which mark a token that the editor finds stands for.
proof fn lemma_sent_token_is_first_mark(marks: Seq<Mark>, ordered: Seq<Mark>, k: int)
    requires
        is_ordering(marks, ordered),
        0 <= k < encoded(ordered).len(),
    ensures
        decoded_starts(encoded(ordered)).len() == encoded(ordered).len(),
        encoded(ordered)[k].token_modifiers_bitset == 0,
        exists|i: int|
            {
                &&& 0 <= i < marks.len()
                &&& (#[trigger] marks[i]).start == decoded_starts(encoded(ordered))[k]
                &&& marks[i].length == encoded(ordered)[k].length
                &&& kind_number(marks[i].kind) == encoded(ordered)[k].token_type
                &&& forall|j: int| 0 <= j < i ==> (#[trigger] marks[j]).start != marks[i].start
            },
{
    law_editor_finds_marks(ordered);
    assert(encoded(ordered)[k].length == ordered[k].length);
    assert(decoded_starts(encoded(ordered))[k] == ordered[k].start);
    law_kept_mark_is_first(marks, ordered, k);
}

/// The tokens of a reply come in reading order: from line to line and, on a
/// line, from left to right.
pub proof fn law_reply_goes_forward(
    text: Seq<char>,
    exprs: Seq<TypedExpression>,
    stmts: Seq<TypedStatement>,
    file: Seq<char>,
    data: Seq<SemanticToken>,
    i: int,
    j: int,
)
    requires
        is_reply(text, exprs, stmts, file, data),
        0 <= i < j < data.len(),
    ensures
        ({
            let a = decoded_starts(data)[i];
            let b = decoded_starts(data)[j];
            a.line < b.line || (a.line == b.line && a.character < b.character)
        }),
{
    let marks = expression_marks(text, exprs, file) + statement_marks(text, stmts, file);
    let ordered = choose|ordered: Seq<Mark>|
        #[trigger] is_ordering(marks, ordered) && data == encoded(ordered);
    law_editor_finds_marks(ordered);
    law_ordered_marks_go_forward(marks, ordered, i, j);
}

} // verus!
