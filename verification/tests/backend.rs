use lsp_backend::analysis::{Phase, Verdict};
use lsp_backend::backend::TextDocumentSyncKind;
use lsp_backend::completion::complete;
use lsp_backend::path::{compiled_name, shown_name};
use lsp_backend::protocol::{CompletionItem, CompletionItemKind, Position};
use lsp_backend::syntax::{ExpressionKind, Symbol, Token, Ty, TypedExpression};
use lsp_backend::{AnalysisResult, Backend, SemanticTokenTypeNumber};

fn at(line: u32, character: u32) -> Position {
    Position { line, character }
}

fn symbol(name: &str, ty: Ty) -> Symbol {
    Symbol { name: name.to_string(), ty }
}

fn symbols() -> Vec<Symbol> {
    vec![
        symbol("print", Ty::Function),
        symbol("Point", Ty::Struct),
        symbol("prime", Ty::Other),
        symbol("p", Ty::Generic),
    ]
}

fn ident(file: &str, value: &str) -> TypedExpression {
    let token = || Token { value: value.to_string(), file: file.to_string(), line: 1, column: 1 };
    TypedExpression {
        token: token(),
        kind: ExpressionKind::Ident { ident: token(), names_type: false, ty: Ty::Other },
    }
}

fn result(exprs: Vec<TypedExpression>) -> AnalysisResult {
    let verdict = Verdict { diagnostics: vec![], keep_module: true };
    AnalysisResult::conclude(verdict, symbols(), vec![], exprs)
}

fn labels(items: Vec<CompletionItem>) -> Vec<String> {
    items.into_iter().map(|item| item.label).collect()
}

#[test]
fn server_introduces_itself() {
    let hello = Backend::initialize();
    assert_eq!(hello.sync, TextDocumentSyncKind::Full);
    assert_eq!(hello.trigger_characters, vec![".", ":"]);
    assert_eq!(hello.document_selector.len(), 1);
    assert_eq!(hello.document_selector[0].language.as_deref(), Some("TypedAnt"));
    assert_eq!(hello.document_selector[0].scheme.as_deref(), Some("file"));
    assert_eq!(hello.document_selector[0].pattern, None);
    assert_eq!(hello.token_types, SemanticTokenTypeNumber::legend());
    assert!(hello.token_modifiers.is_empty());
    assert!(hello.full_semantic_tokens);
    assert_eq!(hello.server_name, "TypedAnt LSP");
    assert_eq!(hello.server_version.as_deref(), Some("0.1.0"));
}

#[test]
fn completions_start_with_what_was_typed() {
    let all = symbols();
    let items = complete(&all, "p");
    assert_eq!(items.len(), 3);
    assert_eq!(items[0].kind, CompletionItemKind::Function);
    assert_eq!(items[1].kind, CompletionItemKind::Variable);
    assert_eq!(items[2].kind, CompletionItemKind::Variable);
    assert_eq!(labels(items), vec!["print", "prime", "p"]);
    assert_eq!(complete(&all, "Point")[0].kind, CompletionItemKind::Struct);
    assert_eq!(labels(complete(&all, "pri")), vec!["print", "prime"]);
    assert!(complete(&all, "printer").is_empty());
    assert!(complete(&all, "q").is_empty());
    assert_eq!(labels(complete(&all, "")), vec!["print", "Point", "prime", "p"]);
}

#[test]
fn documents_that_are_not_open_have_no_answers() {
    let backend = Backend::new();
    assert!(backend.completion("file:///a.ant", at(0, 0)).is_none());
    assert!(backend.semantic_tokens_full("file:///a.ant").is_none());
    assert!(backend.semantic_tokens_at("file:///a.ant", None).is_none());
}

#[test]
fn opened_document_is_answered_for() {
    let mut backend = Backend::new();
    backend.did_open(String::from("file:///a.ant"), String::from("x = pri;"), result(vec![]));
    let items = backend.completion("file:///a.ant", at(0, 7)).unwrap();
    assert_eq!(labels(items), vec!["print", "prime"]);
    let items = backend.completion("file:///a.ant", at(7, 7)).unwrap();
    assert_eq!(items.len(), 4);
    assert!(backend.completion("file:///b.ant", at(0, 0)).is_none());
}

#[test]
fn symbol_is_offered_at_its_name() {
    let mut backend = Backend::new();
    backend.did_open(String::from("u:a"), String::from("1 + Point"), result(vec![]));
    assert_eq!(labels(backend.completion("u:a", at(0, 9)).unwrap()), vec!["Point"]);
}

#[test]
fn last_change_counts() {
    let uri = || String::from("file:///a.ant");
    let changes = || vec![String::from("Po"), String::from("p.pri")];
    assert_eq!(Backend::changed_text(&changes()).map(|s| s.as_str()), Some("p.pri"));
    assert_eq!(Backend::changed_text(&vec![]), None);

    let mut changed = Backend::new();
    changed.did_open(uri(), String::from("Po"), result(vec![]));
    changed.did_change(uri(), changes(), result(vec![]));
    let mut opened = Backend::new();
    opened.did_open(uri(), String::from("p.pri"), result(vec![]));
    for backend in [&changed, &opened] {
        let items = backend.completion("file:///a.ant", at(0, 5)).unwrap();
        assert_eq!(labels(items), vec!["print", "prime"]);
    }
}

#[test]
fn change_without_content_changes_nothing() {
    let mut backend = Backend::new();
    backend.did_change(String::from("u:a"), vec![], result(vec![]));
    assert!(backend.completion("u:a", at(0, 0)).is_none());
    backend.did_open(String::from("u:a"), String::from("Po"), result(vec![]));
    backend.did_change(String::from("u:a"), vec![], result(vec![]));
    assert_eq!(labels(backend.completion("u:a", at(0, 2)).unwrap()), vec!["Point"]);
}

#[test]
fn change_of_an_unknown_document_opens_it() {
    let mut backend = Backend::new();
    backend.did_change(String::from("u:a"), vec![String::from("Po")], result(vec![]));
    assert_eq!(labels(backend.completion("u:a", at(0, 2)).unwrap()), vec!["Point"]);
}

#[test]
fn names_of_files() {
    assert_eq!(compiled_name(Some(String::from("/a")), "file:///a"), "/a");
    assert_eq!(compiled_name(None, "untitled:1"), "untitled:1");
    assert_eq!(shown_name(Some(String::from("/a"))), "/a");
    assert_eq!(shown_name(None), "");
}

#[test]
fn documents_are_compiled_under_their_paths() {
    let analysis = Backend::run_analysis("file:///tmp/my%20code.ant", "let");
    assert_eq!(analysis.path, "/tmp/my code.ant");
    assert_eq!(analysis.text, "let");
    assert_eq!(analysis.phase, Phase::Parse);
    assert_eq!(Backend::run_analysis("untitled:Untitled-1", "").path, "untitled:Untitled-1");
    assert_eq!(Backend::run_analysis("file://host/a.ant", "").path, "file://host/a.ant");
}

#[test]
fn tokens_are_looked_up_under_the_path() {
    let mut backend = Backend::new();
    let uri = "file:///tmp/my%20code.ant";
    let exprs = vec![ident("/tmp/my code.ant", "x"), ident("/tmp/other.ant", "y")];
    backend.did_open(uri.to_string(), String::from("x"), result(exprs));
    let data = backend.semantic_tokens_full(uri).unwrap();
    assert_eq!(data.len(), 1);
    assert_eq!(data[0].token_type, SemanticTokenTypeNumber::Variable.number());
    let path = Some(String::from("/tmp/my code.ant"));
    assert_eq!(backend.semantic_tokens_at(uri, path).unwrap(), data);
    assert!(backend.semantic_tokens_at(uri, None).unwrap().is_empty());
}

#[test]
fn documents_without_a_path_show_nothing() {
    let mut backend = Backend::new();
    let uri = "untitled:Untitled-1";
    let analysis = Backend::run_analysis(uri, "x");
    let exprs = vec![ident(&analysis.path, "x")];
    backend.did_open(uri.to_string(), String::from("x"), result(exprs));
    assert!(backend.semantic_tokens_full(uri).unwrap().is_empty());
}

#[test]
fn no_name_is_offered_twice() {
    let all = symbols();
    for prefix in ["", "p", "pr", "P", "q"] {
        let mut offered = labels(complete(&all, prefix));
        let count = offered.len();
        offered.sort();
        offered.dedup();
        assert_eq!(offered.len(), count);
    }
}

#[test]
fn every_text_is_kept_with_its_own_analysis() {
    let verdict = || Verdict { diagnostics: vec![], keep_module: true };
    let known = |name: &str| {
        AnalysisResult::conclude(verdict(), vec![symbol(name, Ty::Other)], vec![], vec![])
    };
    let mut backend = Backend::new();
    backend.did_open(String::from("u:a"), String::from("alpha"), known("alpha"));
    backend.did_open(String::from("u:b"), String::from("beta"), known("beta"));
    backend.did_change(String::from("u:a"), vec![String::from("gamma")], known("gamma"));
    assert_eq!(labels(backend.completion("u:a", at(0, 5)).unwrap()), vec!["gamma"]);
    assert_eq!(labels(backend.completion("u:b", at(0, 4)).unwrap()), vec!["beta"]);
}

#[test]
fn trigger_characters_offer_every_name() {
    let mut backend = Backend::new();
    for trigger in Backend::initialize().trigger_characters {
        let text = ["Point", trigger.as_str()].concat();
        backend.did_open(String::from("u:a"), text, result(vec![]));
        let offered = labels(backend.completion("u:a", at(0, 6)).unwrap());
        assert_eq!(offered, vec!["print", "Point", "prime", "p"]);
    }
}
