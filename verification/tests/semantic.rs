use lsp_backend::encoding::encode_marks;
use lsp_backend::marks::{collect_marks, Mark};
use lsp_backend::ordering::order_marks;
use lsp_backend::protocol::{Position, SemanticToken};
use lsp_backend::semantic::semantic_tokens;
use lsp_backend::syntax::{
    ExpressionKind, StatementKind, Token, Ty, TypedExpression, TypedStatement,
};
use lsp_backend::token_type::SemanticTokenTypeNumber as Kind;

const FILE: &str = "/src/main.ant";

fn token(value: &str, line: usize, column: usize) -> Token {
    token_in(FILE, value, line, column)
}

fn token_in(file: &str, value: &str, line: usize, column: usize) -> Token {
    Token { value: value.to_string(), file: file.to_string(), line, column }
}

fn mark(line: u32, character: u32, length: u32, kind: Kind) -> Mark {
    Mark { start: Position { line, character }, length, kind }
}

fn sent(delta_line: u32, delta_start: u32, length: u32, kind: Kind) -> SemanticToken {
    SemanticToken {
        delta_line,
        delta_start,
        length,
        token_type: kind.number(),
        token_modifiers_bitset: 0,
    }
}

fn ident(value: &str, line: usize, column: usize, names_type: bool, ty: Ty) -> TypedExpression {
    TypedExpression {
        token: token(value, line, column),
        kind: ExpressionKind::Ident { ident: token(value, line, column), names_type, ty },
    }
}

fn decode(data: &[SemanticToken]) -> Vec<(u32, u32, u32, u32)> {
    let (mut line, mut start) = (0u32, 0u32);
    let mut places = Vec::new();
    for token in data {
        start = if token.delta_line == 0 { start + token.delta_start } else { token.delta_start };
        line += token.delta_line;
        places.push((line, start, token.length, token.token_type));
    }
    places
}

#[test]
fn identifiers_go_by_their_types() {
    let text = "i32 f T x s";
    let exprs = vec![
        ident("i32", 1, 1, true, Ty::Function),
        ident("f", 1, 5, false, Ty::Function),
        ident("T", 1, 7, false, Ty::Generic),
        ident("x", 1, 9, false, Ty::Other),
        ident("s", 1, 11, false, Ty::Struct),
    ];
    let marks = collect_marks(text, &exprs, &vec![], &FILE.to_string());
    assert_eq!(
        marks,
        vec![
            mark(0, 0, 3, Kind::Type),
            mark(0, 4, 1, Kind::Function),
            mark(0, 6, 1, Kind::TypeParameter),
            mark(0, 8, 1, Kind::Variable),
            mark(0, 10, 1, Kind::Variable),
        ]
    );
}

#[test]
fn functions_paths_and_other_expressions() {
    let text = "func go Point::new";
    let exprs = vec![
        TypedExpression {
            token: token("func", 1, 1),
            kind: ExpressionKind::Function { name: Some(token("go", 1, 6)) },
        },
        TypedExpression {
            token: token("func", 1, 1),
            kind: ExpressionKind::Function { name: None },
        },
        TypedExpression {
            token: token("::", 1, 14),
            kind: ExpressionKind::TypePath { left: token("Point", 1, 9) },
        },
        TypedExpression { token: token("1", 1, 1), kind: ExpressionKind::Other },
    ];
    let marks = collect_marks(text, &exprs, &vec![], &FILE.to_string());
    assert_eq!(marks, vec![mark(0, 5, 2, Kind::Function), mark(0, 8, 5, Kind::Struct)]);
}

#[test]
fn statements_and_the_last_segment_of_a_path() {
    let text = "use a::b::C\nstruct S\nextern puts\nlet";
    let stmts = vec![
        TypedStatement {
            token: token("use", 1, 1),
            kind: StatementKind::Use {
                full_path: vec![token("a", 1, 5), token("b", 1, 8), token("C", 1, 11)],
            },
        },
        TypedStatement { token: token("use", 1, 1), kind: StatementKind::Use { full_path: vec![] } },
        TypedStatement {
            token: token("struct", 2, 1),
            kind: StatementKind::Struct { name: token("S", 2, 8) },
        },
        TypedStatement {
            token: token("extern", 3, 1),
            kind: StatementKind::Extern { alias: token("puts", 3, 8) },
        },
        TypedStatement { token: token("let", 4, 1), kind: StatementKind::Other },
    ];
    let marks = collect_marks(text, &vec![], &stmts, &FILE.to_string());
    assert_eq!(
        marks,
        vec![
            mark(0, 4, 1, Kind::Namespace),
            mark(0, 7, 1, Kind::Namespace),
            mark(0, 10, 1, Kind::Type),
            mark(1, 7, 1, Kind::Struct),
            mark(2, 7, 4, Kind::Function),
        ]
    );
}

#[test]
fn marks_are_sorted_and_the_first_at_a_place_stays() {
    let marks = vec![
        mark(2, 0, 1, Kind::Variable),
        mark(0, 9, 2, Kind::Type),
        mark(0, 4, 3, Kind::Function),
        mark(0, 9, 7, Kind::Struct),
        mark(2, 0, 5, Kind::Macro),
        mark(1, 1, 1, Kind::Enum),
    ];
    let ordered = order_marks(&marks);
    assert_eq!(
        ordered,
        vec![
            mark(0, 4, 3, Kind::Function),
            mark(0, 9, 2, Kind::Type),
            mark(1, 1, 1, Kind::Enum),
            mark(2, 0, 1, Kind::Variable),
        ]
    );
    assert_eq!(order_marks(&ordered), ordered);
    assert_eq!(order_marks(&vec![]), vec![]);
}

#[test]
fn sorting_agrees_with_the_standard_library() {
    let mut seed: u32 = 12345;
    let mut marks = Vec::new();
    for i in 0..300u32 {
        seed = seed.wrapping_mul(1664525).wrapping_add(1013904223);
        marks.push(mark((seed >> 16) % 7, (seed >> 8) % 9, i, Kind::Variable));
    }
    let mut expected = marks.clone();
    expected.sort_by_key(|m| (m.start.line, m.start.character));
    expected.dedup_by(|a, b| a.start == b.start);
    assert_eq!(order_marks(&marks), expected);
}

#[test]
fn tokens_are_sent_relative_to_each_other() {
    let marks = vec![
        mark(1, 4, 2, Kind::Function),
        mark(1, 9, 1, Kind::Variable),
        mark(3, 2, 5, Kind::Struct),
    ];
    let data = encode_marks(&marks);
    assert_eq!(
        data,
        vec![
            sent(1, 4, 2, Kind::Function),
            sent(0, 5, 1, Kind::Variable),
            sent(2, 2, 5, Kind::Struct),
        ]
    );
    assert_eq!(decode(&data), vec![(1, 4, 2, 12), (1, 9, 1, 8), (3, 2, 5, 5)]);
    assert_eq!(encode_marks(&vec![]), vec![]);
}

#[test]
fn expressions_win_over_statements() {
    let text = "use x";
    let exprs = vec![ident("x", 1, 5, false, Ty::Other)];
    let stmts = vec![TypedStatement {
        token: token("use", 1, 1),
        kind: StatementKind::Use { full_path: vec![token("x", 1, 5)] },
    }];
    let data = semantic_tokens(text, &exprs, &stmts, &FILE.to_string());
    assert_eq!(data, vec![sent(0, 4, 1, Kind::Variable)]);
}

#[test]
fn other_files_are_passed_over() {
    let text = "x\ny";
    let mut elsewhere = ident("x", 1, 1, false, Ty::Other);
    elsewhere.token.file = String::from("/src/lib.ant");
    let stmts = vec![TypedStatement {
        token: token_in("", "struct", 1, 1),
        kind: StatementKind::Struct { name: token("y", 2, 1) },
    }];
    let exprs = vec![elsewhere];
    assert_eq!(semantic_tokens(text, &exprs, &stmts, &FILE.to_string()), vec![]);
    assert_eq!(
        semantic_tokens(text, &exprs, &stmts, &String::new()),
        vec![sent(1, 0, 1, Kind::Struct)]
    );
    assert_eq!(
        semantic_tokens(text, &exprs, &stmts, &String::from("/src/lib.ant")),
        vec![sent(0, 0, 1, Kind::Variable)]
    );
}

#[test]
fn tokens_on_missing_lines_share_the_first_place() {
    let exprs =
        vec![ident("aa", 8, 1, false, Ty::Function), ident("b", 9, 1, false, Ty::Other)];
    let data = semantic_tokens("x", &exprs, &vec![], &FILE.to_string());
    assert_eq!(data, vec![sent(0, 0, 2, Kind::Function)]);
}

#[test]
fn lengths_are_counted_in_utf16() {
    let exprs = vec![ident("\u{20000}x", 1, 2, false, Ty::Other)];
    let data = semantic_tokens("\u{1F600}\u{20000}x", &exprs, &vec![], &FILE.to_string());
    assert_eq!(data, vec![sent(0, 2, 3, Kind::Variable)]);
}

#[test]
fn reply_is_that_of_the_file() {
    let text = "x y\nz";
    let statement = |file: &str| TypedStatement {
        token: token_in(file, "struct", 2, 1),
        kind: StatementKind::Struct { name: token("z", 2, 1) },
    };
    let mut foreign = ident("x", 1, 1, false, Ty::Function);
    foreign.token.file = String::from("/src/lib.ant");
    let mixed = semantic_tokens(
        text,
        &vec![foreign, ident("y", 1, 3, false, Ty::Other)],
        &vec![statement("/src/lib.ant"), statement(FILE)],
        &FILE.to_string(),
    );
    let own = semantic_tokens(
        text,
        &vec![ident("y", 1, 3, false, Ty::Other)],
        &vec![statement(FILE)],
        &FILE.to_string(),
    );
    assert_eq!(mixed, own);
    assert_eq!(own, vec![sent(0, 2, 1, Kind::Variable), sent(1, 0, 1, Kind::Struct)]);
}
