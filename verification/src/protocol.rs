//! The values that the server exchanges with an editor.
use vstd::prelude::*;

verus! {

/// A place in a document: a line, counted from zero, and an offset into that
/// line in UTF-16 code units.
#[derive(Debug, Clone, Copy, PartialEq, Eq, Structural)]
pub struct Position {
    pub line: u32,
    pub character: u32,
}

/// The stretch of a document between two positions; `end` is not part of it.
#[derive(Debug, Clone, Copy, PartialEq, Eq, Structural)]
pub struct Range {
    pub start: Position,
    pub end: Position,
}

/// The empty range at the very beginning of a document.
pub open spec fn origin() -> Range {
    Range {
        start: Position { line: 0, character: 0 },
        end: Position { line: 0, character: 0 },
    }
}

impl Default for Range {
    fn default() -> (range: Range)
        ensures
            range == origin(),
    {
        Range {
            start: Position { line: 0, character: 0 },
            end: Position { line: 0, character: 0 },
        }
    }
}

/// A semantic token as it is sent: its place is given relative to the token
/// before it.
#[derive(Debug, Clone, Copy, PartialEq, Eq, Structural)]
pub struct SemanticToken {
    pub delta_line: u32,
    pub delta_start: u32,
    pub length: u32,
    pub token_type: u32,
    pub token_modifiers_bitset: u32,
}

/// How grave a reported problem is.
#[derive(Debug, Clone, Copy, PartialEq, Eq, Structural)]
pub enum DiagnosticSeverity {
    Error,
}

/// A problem that is shown in a document.
#[derive(Debug)]
pub struct Diagnostic {
    pub range: Range,
    pub severity: DiagnosticSeverity,
    pub message: String,
}

/// A diagnostic with its message as a sequence of characters.
pub struct DiagnosticView {
    pub range: Range,
    pub severity: DiagnosticSeverity,
    pub message: Seq<char>,
}

impl View for Diagnostic {
    type V = DiagnosticView;

    open spec fn view(&self) -> DiagnosticView {
        DiagnosticView { range: self.range, severity: self.severity, message: self.message@ }
    }
}

impl Clone for Diagnostic {
    fn clone(&self) -> (copy: Diagnostic)
        ensures
            copy == *self,
    {
        Diagnostic {
            range: self.range,
            severity: self.severity,
            message: self.message.clone(),
        }
    }
}

/// The problems of one document, as they are sent to the editor.
#[derive(Debug)]
pub struct Publication {
    pub diagnostics: Vec<Diagnostic>,
    pub version: Option<i32>,
}

/// What an offered name stands for.
#[derive(Debug, Clone, Copy, PartialEq, Eq, Structural)]
pub enum CompletionItemKind {
    Function,
    Struct,
    Variable,
}

/// A name that is offered for completion.
#[derive(Debug)]
pub struct CompletionItem {
    pub label: String,
    pub kind: CompletionItemKind,
}

/// The view of a diagnostic has its range, its severity and the whole of its
/// message.
pub proof fn law_view_of_diagnostic(diagnostic: Diagnostic)
    ensures
        diagnostic@.range == diagnostic.range,
        diagnostic@.severity == diagnostic.severity,
        diagnostic@.message == diagnostic.message@,
{
}

} // verus!
