use lsp_backend::analysis::{Analysis, Failure, Phase, Verdict};
use lsp_backend::protocol::{DiagnosticSeverity, Position, Range};
use lsp_backend::syntax::{
    ExpressionKind, StatementKind, Symbol, Token, Ty, TypedExpression, TypedStatement,
};
use lsp_backend::AnalysisResult;

const PHASES: [Phase; 5] =
    [Phase::Parse, Phase::Resolve, Phase::Check, Phase::Unify, Phase::Infer];

fn token() -> Token {
    Token { value: String::from("bad"), file: String::from("m"), line: 1, column: 3 }
}

fn failure(message: Option<&str>) -> Failure {
    Failure {
        token: token(),
        kind: String::from("unexpected token"),
        message: message.map(|m| m.to_string()),
    }
}

fn run(failing: Option<Phase>, message: Option<&str>) -> Verdict {
    let mut analysis = Analysis::start(None, "mem:x", "a bad");
    for phase in PHASES {
        assert_eq!(analysis.phase, phase);
        let outcome = if failing == Some(phase) { Some(failure(message)) } else { None };
        if let Some(verdict) = analysis.advance(outcome) {
            assert_eq!(analysis.phase, failing.unwrap_or(Phase::Infer));
            return verdict;
        }
    }
    panic!("the compilation did not end")
}

fn conclude(verdict: Verdict) -> AnalysisResult {
    AnalysisResult::conclude(
        verdict,
        vec![Symbol { name: String::from("x"), ty: Ty::Other }],
        vec![TypedStatement { token: token(), kind: StatementKind::Other }],
        vec![TypedExpression { token: token(), kind: ExpressionKind::Other }],
    )
}

#[test]
fn compilation_starts_with_the_parser() {
    let analysis = Analysis::start(Some(String::from("/a.ant")), "file:///a.ant", "text");
    assert_eq!(analysis.phase, Phase::Parse);
    assert_eq!(analysis.path, "/a.ant");
    assert_eq!(analysis.text, "text");
    assert_eq!(Analysis::start(None, "untitled:1", "").path, "untitled:1");
}

#[test]
fn success_shows_nothing() {
    let verdict = run(None, None);
    assert!(verdict.diagnostics.is_empty());
    assert!(verdict.keep_module);
    let result = conclude(verdict);
    assert_eq!(result.typed_stmts.len(), 1);
    assert_eq!(result.typed_exprs.len(), 1);
    assert_eq!(result.symbols.len(), 1);
}

#[test]
fn first_failure_is_the_only_one_shown() {
    for phase in PHASES {
        let verdict = run(Some(phase), Some("no good"));
        assert_eq!(verdict.diagnostics.len(), 1);
        let diagnostic = &verdict.diagnostics[0];
        assert_eq!(diagnostic.message, "no good");
        assert_eq!(diagnostic.severity, DiagnosticSeverity::Error);
        assert_eq!(
            diagnostic.range,
            Range {
                start: Position { line: 0, character: 2 },
                end: Position { line: 0, character: 5 },
            }
        );
    }
}

#[test]
fn only_the_parser_falls_back_on_the_kind_of_failure() {
    assert_eq!(run(Some(Phase::Parse), None).diagnostics[0].message, "unexpected token");
    for phase in [Phase::Resolve, Phase::Check, Phase::Unify, Phase::Infer] {
        assert_eq!(run(Some(phase), None).diagnostics[0].message, "");
    }
}

#[test]
fn module_is_kept_once_the_type_checker_has_started() {
    for (phase, kept) in [
        (Phase::Parse, 0),
        (Phase::Resolve, 0),
        (Phase::Check, 1),
        (Phase::Unify, 1),
        (Phase::Infer, 1),
    ] {
        let result = conclude(run(Some(phase), None));
        assert_eq!(result.typed_stmts.len(), kept);
        assert_eq!(result.typed_exprs.len(), kept);
        assert_eq!(result.symbols[0].name, "x");
        assert_eq!(result.diagnostics.len(), 1);
    }
}

#[test]
fn publication_has_all_diagnostics_and_no_version() {
    let result = conclude(run(Some(Phase::Check), Some("mismatch")));
    let publication = result.publication();
    assert_eq!(publication.diagnostics.len(), 1);
    assert_eq!(publication.diagnostics[0].message, "mismatch");
    assert_eq!(publication.diagnostics[0].range, result.diagnostics[0].range);
    assert_eq!(publication.version, None);
    assert!(conclude(run(None, None)).publication().diagnostics.is_empty());
}
