//! Which stretches of a document are highlighted, and as what.
use crate::protocol::Position;
use crate::syntax::ExpressionKind;
use crate::syntax::StatementKind;
use crate::syntax::Token;
use crate::syntax::Ty;
use crate::syntax::TypedExpression;
use crate::syntax::TypedStatement;
use crate::text::get_lsp_range;
use crate::text::low_bits;
use crate::text::token_range;
use crate::text::wrapped;
use crate::token_type::SemanticTokenTypeNumber;
use crate::utf16::utf16_units;
use crate::utf16::UTF16Len;
use vstd::prelude::*;

verus! {

/// A stretch of a document that is highlighted as a kind of token.
#[derive(Debug, Clone, Copy, PartialEq, Eq, Structural)]
pub struct Mark {
    pub start: Position,
    pub length: u32,
    pub kind: SemanticTokenTypeNumber,
}

/// The mark that a token of the module leaves in a text.
pub open spec fn mark_of(text: Seq<char>, token: Token, kind: SemanticTokenTypeNumber) -> Mark {
    Mark {
        start: token_range(text, token).start,
        length: wrapped(utf16_units(token.value@)),
        kind,
    }
}

/// How an identifier is highlighted: as a type where it names one, and
/// otherwise by the type of what it stands for.
pub open spec fn ident_kind(names_type: bool, ty: Ty) -> SemanticTokenTypeNumber {
    if names_type {
        SemanticTokenTypeNumber::Type
    } else {
        match ty {
            Ty::Function => SemanticTokenTypeNumber::Function,
            Ty::Generic => SemanticTokenTypeNumber::TypeParameter,
            _ => SemanticTokenTypeNumber::Variable,
        }
    }
}

/// The mark of an expression, if it has one.
pub open spec fn expression_mark(text: Seq<char>, kind: ExpressionKind) -> Seq<Mark> {
    match kind {
        ExpressionKind::Ident { ident, names_type, ty } => seq![
            mark_of(text, ident, ident_kind(names_type, ty)),
        ],
        ExpressionKind::Function { name: Some(name) } => seq![
            mark_of(text, name, SemanticTokenTypeNumber::Function),
        ],
        ExpressionKind::TypePath { left } => seq![
            mark_of(text, left, SemanticTokenTypeNumber::Struct),
        ],
        _ => seq![],
    }
}

/// How a segment of an import's path is highlighted: the last one as a type,
/// the others as namespaces.
pub open spec fn segment_kind(i: int, segments: nat) -> SemanticTokenTypeNumber {
    if i == segments - 1 {
        SemanticTokenTypeNumber::Type
    } else {
        SemanticTokenTypeNumber::Namespace
    }
}

/// The marks of a statement.
pub open spec fn statement_mark(text: Seq<char>, kind: StatementKind) -> Seq<Mark> {
    match kind {
        StatementKind::Use { full_path } => Seq::new(
            full_path@.len(),
            |i: int| mark_of(text, full_path@[i], segment_kind(i, full_path@.len())),
        ),
        StatementKind::Struct { name } => seq![
            mark_of(text, name, SemanticTokenTypeNumber::Struct),
        ],
        StatementKind::Extern { alias } => seq![
            mark_of(text, alias, SemanticTokenTypeNumber::Function),
        ],
        StatementKind::Other => seq![],
    }
}

/// The marks of those expressions that stand in a file.
pub open spec fn expression_marks(
    text: Seq<char>,
    exprs: Seq<TypedExpression>,
    file: Seq<char>,
) -> Seq<Mark>
    decreases exprs.len(),
{
    if exprs.len() == 0 {
        seq![]
    } else {
        let earlier = expression_marks(text, exprs.drop_last(), file);
        if exprs.last().token.file@ == file {
            earlier + expression_mark(text, exprs.last().kind)
        } else {
            earlier
        }
    }
}

/// The marks of those statements that stand in a file.
pub open spec fn statement_marks(
    text: Seq<char>,
    stmts: Seq<TypedStatement>,
    file: Seq<char>,
) -> Seq<Mark>
    decreases stmts.len(),
{
    if stmts.len() == 0 {
        seq![]
    } else {
        let earlier = statement_marks(text, stmts.drop_last(), file);
        if stmts.last().token.file@ == file {
            earlier + statement_mark(text, stmts.last().kind)
        } else {
            earlier
        }
    }
}

/// The mark that a token of the module leaves in a text.
fn mark_token(text: &str, token: &Token, kind: SemanticTokenTypeNumber) -> (mark: Mark)
    ensures
        mark == mark_of(text@, *token, kind),
{
    let range = get_lsp_range(text, token);
    Mark { start: range.start, length: low_bits(token.value.utf16_len()), kind }
}

/// Adds the mark of an expression, if it has one.
fn push_expression(text: &str, kind: &ExpressionKind, marks: &mut Vec<Mark>)
    ensures
        final(marks)@ == old(marks)@ + expression_mark(text@, *kind),
{
    match kind {
        ExpressionKind::Ident { ident, names_type, ty } => {
            let token_type = if *names_type {
                SemanticTokenTypeNumber::Type
            } else {
                match ty {
                    Ty::Function => SemanticTokenTypeNumber::Function,
                    Ty::Generic => SemanticTokenTypeNumber::TypeParameter,
                    _ => SemanticTokenTypeNumber::Variable,
                }
            };
            marks.push(mark_token(text, ident, token_type));
        },
        ExpressionKind::Function { name: Some(name) } => {
            marks.push(mark_token(text, name, SemanticTokenTypeNumber::Function));
        },
        ExpressionKind::TypePath { left } => {
            marks.push(mark_token(text, left, SemanticTokenTypeNumber::Struct));
        },
        _ => {},
    }
}

/// Adds the marks of a statement.
fn push_statement(text: &str, kind: &StatementKind, marks: &mut Vec<Mark>)
    ensures
        final(marks)@ == old(marks)@ + statement_mark(text@, *kind),
{
    match kind {
        StatementKind::Use { full_path } => {
            let ghost start = marks@;
            let ghost all = statement_mark(text@, *kind);
            let mut i: usize = 0;
            while i < full_path.len()
                invariant
                    i <= full_path@.len(),
                    all == statement_mark(text@, StatementKind::Use { full_path: *full_path }),
                    marks@ == start + all.take(i as int),
                decreases full_path@.len() - i,
            {
                let token_type = if i == full_path.len() - 1 {
                    SemanticTokenTypeNumber::Type
                } else {
                    SemanticTokenTypeNumber::Namespace
                };
                proof {
                    assert(all.take(i + 1) == all.take(i as int).push(all[i as int]));
                }
                marks.push(mark_token(text, &full_path[i], token_type));
                i = i + 1;
            }
            proof {
                assert(all.take(i as int) == all);
            }
        },
        StatementKind::Struct { name } => {
            marks.push(mark_token(text, name, SemanticTokenTypeNumber::Struct));
        },
        StatementKind::Extern { alias } => {
            marks.push(mark_token(text, alias, SemanticTokenTypeNumber::Function));
        },
        StatementKind::Other => {},
    }
}

/// All marks of those expressions and statements of a module that stand in a
/// file: first those of the expressions, then those of the statements.
pub fn collect_marks(
    text: &str,
    typed_exprs: &Vec<TypedExpression>,
    typed_stmts: &Vec<TypedStatement>,
    file: &String,
) -> (marks: Vec<Mark>)
    ensures
        marks@ == expression_marks(text@, typed_exprs@, file@) + statement_marks(
            text@,
            typed_stmts@,
            file@,
        ),
{
    let mut marks: Vec<Mark> = Vec::new();
    let mut i: usize = 0;
    while i < typed_exprs.len()
        invariant
            i <= typed_exprs@.len(),
            marks@ == expression_marks(text@, typed_exprs@.take(i as int), file@),
        decreases typed_exprs@.len() - i,
    {
        proof {
            let next = typed_exprs@.take(i + 1);
            assert(next.drop_last() == typed_exprs@.take(i as int));
            assert(next.last() == typed_exprs@[i as int]);
        }
        let expr = &typed_exprs[i];
        if expr.token.file == *file {
            push_expression(text, &expr.kind, &mut marks);
        }
        i = i + 1;
    }
    let ghost of_exprs = marks@;
    proof {
        assert(typed_exprs@.take(i as int) == typed_exprs@);
    }
    let mut j: usize = 0;
    while j < typed_stmts.len()
        invariant
            j <= typed_stmts@.len(),
            marks@ == of_exprs + statement_marks(text@, typed_stmts@.take(j as int), file@),
        decreases typed_stmts@.len() - j,
    {
        proof {
            let next = typed_stmts@.take(j + 1);
            assert(next.drop_last() == typed_stmts@.take(j as int));
            assert(next.last() == typed_stmts@[j as int]);
        }
        let stmt = &typed_stmts[j];
        if stmt.token.file == *file {
            push_statement(text, &stmt.kind, &mut marks);
        }
        j = j + 1;
    }
    proof {
        assert(typed_stmts@.take(j as int) == typed_stmts@);
    }
    marks
}

/// A mark comes from an expression exactly where that expression stands in the
/// file.
pub proof fn law_expression_marks(
    text: Seq<char>,
    exprs: Seq<TypedExpression>,
    file: Seq<char>,
    mark: Mark,
)
    ensures
        expression_marks(text, exprs, file).contains(mark) <==> exists|i: int|
            0 <= i < exprs.len() && (#[trigger] exprs[i]).token.file@ == file && expression_mark(
                text,
                exprs[i].kind,
            ).contains(mark),
    decreases exprs.len(),
{
    if exprs.len() > 0 {
        let shorter = exprs.drop_last();
        let earlier = expression_marks(text, shorter, file);
        let own = expression_mark(text, exprs.last().kind);
        law_expression_marks(text, shorter, file, mark);
        lemma_contains_of_two(earlier, own, mark);
        if earlier.contains(mark) {
            let i = choose|i: int|
                0 <= i < shorter.len() && (#[trigger] shorter[i]).token.file@ == file
                    && expression_mark(text, shorter[i].kind).contains(mark);
            assert(exprs[i] == shorter[i]);
        }
        if exists|i: int|
            0 <= i < exprs.len() && (#[trigger] exprs[i]).token.file@ == file && expression_mark(
                text,
                exprs[i].kind,
            ).contains(mark) {
            let i = choose|i: int|
                0 <= i < exprs.len() && (#[trigger] exprs[i]).token.file@ == file
                    && expression_mark(text, exprs[i].kind).contains(mark);
            if i < shorter.len() {
                assert(exprs[i] == shorter[i]);
            }
        }
    }
}

/// A mark comes from a statement exactly where that statement stands in the
/// file.
pub proof fn law_statement_marks(
    text: Seq<char>,
    stmts: Seq<TypedStatement>,
    file: Seq<char>,
    mark: Mark,
)
    ensures
        statement_marks(text, stmts, file).contains(mark) <==> exists|i: int|
            0 <= i < stmts.len() && (#[trigger] stmts[i]).token.file@ == file && statement_mark(
                text,
                stmts[i].kind,
            ).contains(mark),
    decreases stmts.len(),
{
    if stmts.len() > 0 {
        let shorter = stmts.drop_last();
        let earlier = statement_marks(text, shorter, file);
        let own = statement_mark(text, stmts.last().kind);
        law_statement_marks(text, shorter, file, mark);
        lemma_contains_of_two(earlier, own, mark);
        if earlier.contains(mark) {
            let i = choose|i: int|
                0 <= i < shorter.len() && (#[trigger] shorter[i]).token.file@ == file
                    && statement_mark(text, shorter[i].kind).contains(mark);
            assert(stmts[i] == shorter[i]);
        }
        if exists|i: int|
            0 <= i < stmts.len() && (#[trigger] stmts[i]).token.file@ == file && statement_mark(
                text,
                stmts[i].kind,
            ).contains(mark) {
            let i = choose|i: int|
                0 <= i < stmts.len() && (#[trigger] stmts[i]).token.file@ == file
                    && statement_mark(text, stmts[i].kind).contains(mark);
            if i < shorter.len() {
                assert(stmts[i] == shorter[i]);
            }
        }
    }
}

/// What a list holds that is put together of two.
pub proof fn lemma_contains_of_two(a: Seq<Mark>, b: Seq<Mark>, mark: Mark)
    ensures
        (a + b).contains(mark) <==> (a.contains(mark) || b.contains(mark)),
{
    let all = a + b;
    if all.contains(mark) {
        let k = choose|k: int| 0 <= k < all.len() && all[k] == mark;
        if k < a.len() {
            assert(a[k] == mark);
        } else {
            assert(b[k - a.len()] == mark);
        }
    }
    if a.contains(mark) {
        let k = choose|k: int| 0 <= k < a.len() && a[k] == mark;
        assert(all[k] == mark);
    }
    if b.contains(mark) {
        let k = choose|k: int| 0 <= k < b.len() && b[k] == mark;
        assert(all[k + a.len()] == mark);
    }
}

/// Expressions of other files leave no marks: those that stand in the file
/// alone have the same marks as all.
pub proof fn law_expressions_of_file(
    text: Seq<char>,
    exprs: Seq<TypedExpression>,
    file: Seq<char>,
)
    ensures
        expression_marks(text, exprs.filter(|e: TypedExpression| e.token.file@ == file), file)
            == expression_marks(text, exprs, file),
    decreases exprs.len(),
{
    let in_file = |e: TypedExpression| e.token.file@ == file;
    reveal(Seq::filter);
    if exprs.len() > 0 {
        let shorter = exprs.drop_last();
        law_expressions_of_file(text, shorter, file);
        if in_file(exprs.last()) {
            let kept = exprs.filter(in_file);
            assert(kept == shorter.filter(in_file).push(exprs.last()));
            assert(kept.drop_last() == shorter.filter(in_file));
        }
    }
}

/// Statements of other files leave no marks: those that stand in the file
/// alone have the same marks as all.
pub proof fn law_statements_of_file(
    text: Seq<char>,
    stmts: Seq<TypedStatement>,
    file: Seq<char>,
)
    ensures
        statement_marks(text, stmts.filter(|s: TypedStatement| s.token.file@ == file), file)
            == statement_marks(text, stmts, file),
    decreases stmts.len(),
{
    let in_file = |s: TypedStatement| s.token.file@ == file;
    reveal(Seq::filter);
    if stmts.len() > 0 {
        let shorter = stmts.drop_last();
        law_statements_of_file(text, shorter, file);
        if in_file(stmts.last()) {
            let kept = stmts.filter(in_file);
            assert(kept == shorter.filter(in_file).push(stmts.last()));
            assert(kept.drop_last() == shorter.filter(in_file));
        }
    }
}

/// The mark of a token starts where the token does and is as long as its text,
/// in UTF-16 code units modulo 2^32.
pub proof fn law_mark_covers_token(
    text: Seq<char>,
    token: Token,
    kind: SemanticTokenTypeNumber,
)
    ensures
        mark_of(text, token, kind).start == token_range(text, token).start,
        mark_of(text, token, kind).length == utf16_units(token.value@) % 0x1_0000_0000,
        mark_of(text, token, kind).kind == kind,
{
}

/// Every segment of an import's path is marked, in order: the last one as a
/// type, all others as namespaces.
pub proof fn law_import_marks(text: Seq<char>, full_path: Vec<Token>)
    ensures
        ({
            let marks = statement_mark(text, StatementKind::Use { full_path });
            &&& marks.len() == full_path@.len()
            &&& forall|i: int|
                0 <= i < full_path@.len() ==> {
                    &&& (#[trigger] marks[i]).start == token_range(text, full_path@[i]).start
                    &&& marks[i].length == utf16_units(full_path@[i].value@) % 0x1_0000_0000
                    &&& i + 1 == full_path@.len() ==> marks[i].kind
                        == SemanticTokenTypeNumber::Type
                    &&& i + 1 < full_path@.len() ==> marks[i].kind
                        == SemanticTokenTypeNumber::Namespace
                }
        }),
{
}

/// Whether a list consists of one mark, which covers a token as a kind.
pub open spec fn marks_only(
    marks: Seq<Mark>,
    text: Seq<char>,
    token: Token,
    kind: SemanticTokenTypeNumber,
) -> bool {
    &&& marks.len() == 1
    &&& marks[0].start == token_range(text, token).start
    &&& marks[0].length == utf16_units(token.value@) % 0x1_0000_0000
    &&& marks[0].kind == kind
}

/// The name of a struct is marked as a struct, that of a foreign function as a
/// function, and other statements leave no mark.
pub proof fn law_other_statement_marks(text: Seq<char>, name: Token)
    ensures
        marks_only(
            statement_mark(text, StatementKind::Struct { name }),
            text,
            name,
            SemanticTokenTypeNumber::Struct,
        ),
        marks_only(
            statement_mark(text, StatementKind::Extern { alias: name }),
            text,
            name,
            SemanticTokenTypeNumber::Function,
        ),
        statement_mark(text, StatementKind::Other).len() == 0,
{
}

/// An identifier that names a type is marked as a type, whatever it stands for;
/// any other as a function, as a type parameter or as a variable, by what it
/// stands for.
pub proof fn law_identifier_marks(text: Seq<char>, ident: Token, ty: Ty)
    ensures
        marks_only(
            expression_mark(text, ExpressionKind::Ident { ident, names_type: true, ty }),
            text,
            ident,
            SemanticTokenTypeNumber::Type,
        ),
        marks_only(
            expression_mark(text, ExpressionKind::Ident { ident, names_type: false, ty }),
            text,
            ident,
            match ty {
                Ty::Function => SemanticTokenTypeNumber::Function,
                Ty::Generic => SemanticTokenTypeNumber::TypeParameter,
                Ty::Struct => SemanticTokenTypeNumber::Variable,
                Ty::Other => SemanticTokenTypeNumber::Variable,
            },
        ),
{
}

/// The name of a function is marked as a function and the start of a type path
/// as a struct; a function without a name and other expressions leave no mark.
pub proof fn law_other_expression_marks(text: Seq<char>, token: Token)
    ensures
        marks_only(
            expression_mark(text, ExpressionKind::Function { name: Some(token) }),
            text,
            token,
            SemanticTokenTypeNumber::Function,
        ),
        marks_only(
            expression_mark(text, ExpressionKind::TypePath { left: token }),
            text,
            token,
            SemanticTokenTypeNumber::Struct,
        ),
        expression_mark(text, ExpressionKind::Function { name: None }).len() == 0,
        expression_mark(text, ExpressionKind::Other).len() == 0,
{
}

/// The marks of expressions follow one another as the expressions do.
pub proof fn law_expression_marks_of_two(
    text: Seq<char>,
    a: Seq<TypedExpression>,
    b: Seq<TypedExpression>,
    file: Seq<char>,
)
    ensures
        expression_marks(text, a + b, file) == expression_marks(text, a, file) + expression_marks(
            text,
            b,
            file,
        ),
    decreases b.len(),
{
    if b.len() == 0 {
        assert(a + b == a);
    } else {
        assert((a + b).drop_last() == a + b.drop_last());
        law_expression_marks_of_two(text, a, b.drop_last(), file);
    }
}

/// An expression of the file leaves its own marks, and one of another file
/// leaves none.
pub proof fn law_expression_marks_of_one(
    text: Seq<char>,
    expr: TypedExpression,
    file: Seq<char>,
)
    ensures
        expr.token.file@ == file ==> expression_marks(text, seq![expr], file) == expression_mark(
            text,
            expr.kind,
        ),
        expr.token.file@ != file ==> expression_marks(text, seq![expr], file).len() == 0,
{
    reveal_with_fuel(expression_marks, 2);
}

/// The marks of statements follow one another as the statements do.
pub proof fn law_statement_marks_of_two(
    text: Seq<char>,
    a: Seq<TypedStatement>,
    b: Seq<TypedStatement>,
    file: Seq<char>,
)
    ensures
        statement_marks(text, a + b, file) == statement_marks(text, a, file) + statement_marks(
            text,
            b,
            file,
        ),
    decreases b.len(),
{
    if b.len() == 0 {
        assert(a + b == a);
    } else {
        assert((a + b).drop_last() == a + b.drop_last());
        law_statement_marks_of_two(text, a, b.drop_last(), file);
    }
}

/// A statement of the file leaves its own marks, and one of another file leaves
/// none.
pub proof fn law_statement_marks_of_one(text: Seq<char>, stmt: TypedStatement, file: Seq<char>)
    ensures
        stmt.token.file@ == file ==> statement_marks(text, seq![stmt], file) == statement_mark(
            text,
            stmt.kind,
        ),
        stmt.token.file@ != file ==> statement_marks(text, seq![stmt], file).len() == 0,
{
    reveal_with_fuel(statement_marks, 2);
}

/// An import of the file is among the marks of its statements with every segment
/// of its path: the last one as a type, all others as namespaces.
pub proof fn law_import_is_marked(
    text: Seq<char>,
    stmts: Seq<TypedStatement>,
    file: Seq<char>,
    s: int,
    full_path: Vec<Token>,
    i: int,
)
    requires
        0 <= s < stmts.len(),
        stmts[s].token.file@ == file,
        stmts[s].kind == (StatementKind::Use { full_path }),
        0 <= i < full_path@.len(),
    ensures
        ({
            let marks = statement_marks(text, stmts, file);
            exists|k: int|
                {
                    &&& 0 <= k < marks.len()
                    &&& (#[trigger] marks[k]).start == token_range(text, full_path@[i]).start
                    &&& marks[k].length == utf16_units(full_path@[i].value@) % 0x1_0000_0000
                    &&& i + 1 == full_path@.len() ==> marks[k].kind
                        == SemanticTokenTypeNumber::Type
                    &&& i + 1 < full_path@.len() ==> marks[k].kind
                        == SemanticTokenTypeNumber::Namespace
                }
        }),
{
    let own = statement_mark(text, stmts[s].kind);
    law_import_marks(text, full_path);
    assert(own.contains(own[i]));
    law_statement_marks(text, stmts, file, own[i]);
    let marks = statement_marks(text, stmts, file);
    let k = choose|k: int| 0 <= k < marks.len() && marks[k] == own[i];
    assert(marks[k].start == token_range(text, full_path@[i]).start);
}

} // verus!
