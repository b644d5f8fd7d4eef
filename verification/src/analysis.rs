//! The phases that a document is compiled in, and what they leave behind.
use crate::path::compiled_as;
use crate::path::compiled_name;
use crate::path::path_chars;
use crate::protocol::Diagnostic;
use crate::protocol::DiagnosticSeverity;
use crate::protocol::DiagnosticView;
use crate::protocol::Publication;
use crate::syntax::Symbol;
use crate::syntax::Token;
use crate::syntax::TypedExpression;
use crate::syntax::TypedStatement;
use crate::text::get_lsp_range;
use crate::text::law_token_is_at_its_line_and_column;
use crate::text::law_token_on_missing_line;
use crate::text::lines;
use crate::text::token_range;
use crate::utf16::utf16_units;
use vstd::prelude::*;

verus! {

/// The phases of compilation, in the order in which they run.
#[derive(Debug, Clone, Copy, PartialEq, Eq, Structural)]
pub enum Phase {
    Parse,
    Resolve,
    Check,
    Unify,
    Infer,
}

/// The phase that follows on a phase that went well.
pub open spec fn phase_after(phase: Phase) -> Option<Phase> {
    match phase {
        Phase::Parse => Some(Phase::Resolve),
        Phase::Resolve => Some(Phase::Check),
        Phase::Check => Some(Phase::Unify),
        Phase::Unify => Some(Phase::Infer),
        Phase::Infer => None,
    }
}

/// The number of phases that are left to run, this one counted.
pub open spec fn phases_left(phase: Phase) -> nat {
    match phase {
        Phase::Parse => 5,
        Phase::Resolve => 4,
        Phase::Check => 3,
        Phase::Unify => 2,
        Phase::Infer => 1,
    }
}

/// Whether a failure in a phase leaves a typed module to work with: the type
/// checker has to have started.
pub open spec fn keeps_module(phase: Phase) -> bool {
    phases_left(phase) <= phases_left(Phase::Check)
}

/// Why a phase failed: the token where it did, what kind of failure it was,
/// and a message, if the phase gave one.
#[derive(Debug)]
pub struct Failure {
    pub token: Token,
    pub kind: String,
    pub message: Option<String>,
}

/// The message that is shown for a failure. A parser that gave none is
/// answered for by the kind of its failure; other phases are not.
pub open spec fn shown_message(phase: Phase, failure: Failure) -> Seq<char> {
    match failure.message {
        Some(message) => message@,
        None => if phase == Phase::Parse {
            failure.kind@
        } else {
            seq![]
        },
    }
}

/// What is shown for a failure: an error with its message, at its token.
pub open spec fn shown_failure(text: Seq<char>, phase: Phase, failure: Failure) -> DiagnosticView {
    DiagnosticView {
        range: token_range(text, failure.token),
        severity: DiagnosticSeverity::Error,
        message: shown_message(phase, failure),
    }
}

/// How a compilation ended: what there is to show, and whether the typed
/// module is kept.
#[derive(Debug)]
pub struct Verdict {
    pub diagnostics: Vec<Diagnostic>,
    pub keep_module: bool,
}

/// A verdict with its diagnostics as a sequence.
#[verifier::ext_equal]
pub struct VerdictView {
    pub diagnostics: Seq<DiagnosticView>,
    pub keep_module: bool,
}

/// The views of diagnostics.
pub open spec fn diagnostic_views(diagnostics: Seq<Diagnostic>) -> Seq<DiagnosticView> {
    diagnostics.map_values(|diagnostic: Diagnostic| diagnostic@)
}

impl View for Verdict {
    type V = VerdictView;

    open spec fn view(&self) -> VerdictView {
        VerdictView {
            diagnostics: diagnostic_views(self.diagnostics@),
            keep_module: self.keep_module,
        }
    }
}

/// The verdict on a compilation that failed in a phase.
pub open spec fn failed(text: Seq<char>, phase: Phase, failure: Failure) -> VerdictView {
    VerdictView {
        diagnostics: seq![shown_failure(text, phase, failure)],
        keep_module: keeps_module(phase),
    }
}

/// The verdict on a compilation in which no phase failed.
pub open spec fn passed() -> VerdictView {
    VerdictView { diagnostics: seq![], keep_module: true }
}

/// What to show for a failure.
fn show_failure(text: &str, phase: Phase, failure: Failure) -> (diagnostic: Diagnostic)
    ensures
        diagnostic@ == shown_failure(text@, phase, failure),
{
    let range = get_lsp_range(text, &failure.token);
    let message = match failure.message {
        Some(message) => message,
        None => match phase {
            Phase::Parse => failure.kind,
            _ => String::new(),
        },
    };
    Diagnostic { range, severity: DiagnosticSeverity::Error, message }
}

/// A compilation under way: the text, the name of the file that it is compiled
/// as, and the phase that is to run next.
#[derive(Debug)]
pub struct Analysis {
    pub text: String,
    pub path: String,
    pub phase: Phase,
}

impl Analysis {
    /// Sets out to compile the text of a document that is stored under a given
    /// path.
    pub fn start(path: Option<String>, uri: &str, text: &str) -> (analysis: Analysis)
        ensures
            analysis.text@ == text@,
            analysis.path@ == compiled_as(path_chars(path), uri@),
            analysis.phase == Phase::Parse,
    {
        Analysis { text: text.to_owned(), path: compiled_name(path, uri), phase: Phase::Parse }
    }

    /// Takes note of how the current phase went. Either the next phase is to
    /// run, or the compilation has ended with a verdict.
    pub fn advance(&mut self, failure: Option<Failure>) -> (verdict: Option<Verdict>)
        ensures
            final(self).text == old(self).text,
            final(self).path == old(self).path,
            match failure {
                Some(failure) => {
                    &&& verdict is Some
                    &&& verdict->0@ == failed(old(self).text@, old(self).phase, failure)
                    &&& final(self).phase == old(self).phase
                },
                None => match phase_after(old(self).phase) {
                    Some(phase) => verdict is None && final(self).phase == phase,
                    None => {
                        &&& verdict is Some
                        &&& verdict->0@ == passed()
                        &&& final(self).phase == old(self).phase
                    },
                },
            },
            forall|outcome: spec_fn(Phase) -> Option<Failure>| #[trigger]
                outcome(old(self).phase) == failure ==> run_from(
                    old(self).text@,
                    old(self).phase,
                    outcome,
                ) == match verdict {
                    Some(verdict) => verdict@,
                    None => run_from(final(self).text@, final(self).phase, outcome),
                },
    {
        if let Some(failure) = failure {
            let keep_module = match self.phase {
                Phase::Parse | Phase::Resolve => false,
                _ => true,
            };
            let mut diagnostics: Vec<Diagnostic> = Vec::new();
            let diagnostic = show_failure(self.text.as_str(), self.phase, failure);
            diagnostics.push(diagnostic);
            let verdict = Verdict { diagnostics, keep_module };
            proof {
                assert(verdict@ =~= failed(self.text@, self.phase, failure));
            }
            return Some(verdict);
        }
        match self.phase {
            Phase::Parse => self.phase = Phase::Resolve,
            Phase::Resolve => self.phase = Phase::Check,
            Phase::Check => self.phase = Phase::Unify,
            Phase::Unify => self.phase = Phase::Infer,
            Phase::Infer => {
                let verdict = Verdict { diagnostics: Vec::new(), keep_module: true };
                proof {
                    assert(verdict@ =~= passed());
                }
                return Some(verdict);
            },
        }
        None
    }
}

/// What is known of a document once it has been compiled.
#[derive(Debug)]
pub struct AnalysisResult {
    pub symbols: Vec<Symbol>,
    pub typed_stmts: Vec<TypedStatement>,
    pub typed_exprs: Vec<TypedExpression>,
    pub diagnostics: Vec<Diagnostic>,
}

impl AnalysisResult {
    /// Puts together what is known of a document whose compilation has ended.
    /// The symbols are kept in any case, the typed module where the verdict
    /// says so.
    pub fn conclude(
        verdict: Verdict,
        symbols: Vec<Symbol>,
        typed_stmts: Vec<TypedStatement>,
        typed_exprs: Vec<TypedExpression>,
    ) -> (result: AnalysisResult)
        ensures
            result.symbols == symbols,
            result.diagnostics == verdict.diagnostics,
            verdict.keep_module ==> result.typed_stmts == typed_stmts && result.typed_exprs
                == typed_exprs,
            !verdict.keep_module ==> result.typed_stmts@.len() == 0 && result.typed_exprs@.len()
                == 0,
            forall|text: Seq<char>, outcome: spec_fn(Phase) -> Option<Failure>|
                verdict@ == #[trigger] run_from(text, Phase::Parse, outcome) ==> is_result_of(
                    text,
                    result,
                ),
    {
        if verdict.keep_module {
            AnalysisResult { symbols, typed_stmts, typed_exprs, diagnostics: verdict.diagnostics }
        } else {
            AnalysisResult {
                symbols,
                typed_stmts: Vec::new(),
                typed_exprs: Vec::new(),
                diagnostics: verdict.diagnostics,
            }
        }
    }

    /// What is sent to the editor about a document that has been compiled: all
    /// of its diagnostics, for no version in particular.
    pub fn publication(&self) -> (publication: Publication)
        ensures
            publication.diagnostics@ == self.diagnostics@,
            publication.version is None,
    {
        let mut diagnostics: Vec<Diagnostic> = Vec::new();
        let mut i: usize = 0;
        while i < self.diagnostics.len()
            invariant
                i <= self.diagnostics@.len(),
                diagnostics@ == self.diagnostics@.take(i as int),
            decreases self.diagnostics@.len() - i,
        {
            proof {
                assert(self.diagnostics@.take(i + 1) == self.diagnostics@.take(i as int).push(
                    self.diagnostics@[i as int],
                ));
            }
            diagnostics.push(self.diagnostics[i].clone());
            i = i + 1;
        }
        proof {
            assert(self.diagnostics@.take(i as int) == self.diagnostics@);
        }
        Publication { diagnostics, version: None }
    }
}

/// How a compilation ends that runs from a phase on, if each phase goes as
/// `outcome` says.
pub open spec fn run_from(
    text: Seq<char>,
    phase: Phase,
    outcome: spec_fn(Phase) -> Option<Failure>,
) -> VerdictView
    decreases phases_left(phase),
{
    match outcome(phase) {
        Some(failure) => failed(text, phase, failure),
        None => match phase_after(phase) {
            Some(next) => run_from(text, next, outcome),
            None => passed(),
        },
    }
}

/// A compilation shows the failure of the first phase that fails, and of no
/// other, and keeps the typed module if that was the type checker or a later
/// phase.
pub proof fn law_first_failure_is_shown(
    text: Seq<char>,
    outcome: spec_fn(Phase) -> Option<Failure>,
    phase: Phase,
)
    requires
        outcome(phase) is Some,
        forall|earlier: Phase|
            phases_left(earlier) > phases_left(phase) ==> #[trigger] outcome(earlier) is None,
    ensures
        run_from(text, Phase::Parse, outcome) == failed(text, phase, outcome(phase)->0),
{
    reveal_with_fuel(run_from, 6);
}

/// A compilation in which no phase fails shows nothing and keeps the typed
/// module.
pub proof fn law_success_shows_nothing(
    text: Seq<char>,
    outcome: spec_fn(Phase) -> Option<Failure>,
)
    requires
        forall|phase: Phase| #[trigger] outcome(phase) is None,
    ensures
        run_from(text, Phase::Parse, outcome) == passed(),
{
    reveal_with_fuel(run_from, 6);
}

/// However the phases go, at most one problem is shown, and it is an error.
pub proof fn law_at_most_one_error(
    text: Seq<char>,
    phase: Phase,
    outcome: spec_fn(Phase) -> Option<Failure>,
)
    ensures
        run_from(text, phase, outcome).diagnostics.len() <= 1,
        forall|i: int|
            0 <= i < run_from(text, phase, outcome).diagnostics.len() ==> (
            #[trigger] run_from(text, phase, outcome).diagnostics[i]).severity
                == DiagnosticSeverity::Error,
        run_from(text, phase, outcome).diagnostics.len() == 0 ==> run_from(
            text,
            phase,
            outcome,
        ).keep_module,
    decreases phases_left(phase),
{
    if outcome(phase) is None {
        if let Some(next) = phase_after(phase) {
            law_at_most_one_error(text, next, outcome);
        }
    }
}

/// Whether something is what compiling a text can leave behind: for some way
/// that the phases can go, it has the diagnostics of that compilation, and a
/// typed module only where that compilation keeps one.
pub open spec fn is_result_of(text: Seq<char>, result: AnalysisResult) -> bool {
    exists|outcome: spec_fn(Phase) -> Option<Failure>|
        {
            let verdict = #[trigger] run_from(text, Phase::Parse, outcome);
            &&& diagnostic_views(result.diagnostics@) == verdict.diagnostics
            &&& !verdict.keep_module ==> result.typed_stmts@.len() == 0
                && result.typed_exprs@.len() == 0
        }
}

/// A failure at a token on a line of the text is shown as an error on that line,
/// from the length of the characters in front of the token's column to that plus
/// the token's length, in UTF-16 code units modulo 2^32.
pub proof fn law_failure_is_shown_at_its_token(text: Seq<char>, phase: Phase, failure: Failure)
    requires
        1 <= failure.token.line <= lines(text).len(),
        1 <= failure.token.column,
    ensures
        ({
            let token = failure.token;
            let line = lines(text)[token.line - 1];
            let skipped = if token.column - 1 <= line.len() {
                token.column - 1
            } else {
                line.len() as int
            };
            let start = utf16_units(line.take(skipped));
            let end = start + utf16_units(token.value@);
            let shown = shown_failure(text, phase, failure);
            &&& shown.severity == DiagnosticSeverity::Error
            &&& shown.range.start.line == (token.line - 1) % 0x1_0000_0000
            &&& shown.range.end.line == (token.line - 1) % 0x1_0000_0000
            &&& shown.range.start.character == start % 0x1_0000_0000
            &&& shown.range.end.character == end % 0x1_0000_0000
        }),
{
    law_token_is_at_its_line_and_column(text, failure.token);
}

/// A failure at a token on a line that the text does not have is shown as an
/// error at the beginning of the text.
pub proof fn law_failure_on_missing_line(text: Seq<char>, phase: Phase, failure: Failure)
    requires
        failure.token.line > lines(text).len() || lines(text).len() == 0,
    ensures
        ({
            let shown = shown_failure(text, phase, failure);
            &&& shown.severity == DiagnosticSeverity::Error
            &&& shown.range.start.line == 0
            &&& shown.range.start.character == 0
            &&& shown.range.end.line == 0
            &&& shown.range.end.character == 0
        }),
{
    law_token_on_missing_line(text, failure.token);
}

/// A failure is shown with its own message. Without one, a failure of the parser
/// is shown with its kind and any other with no text.
pub proof fn law_message_of_failure(text: Seq<char>, phase: Phase, failure: Failure)
    ensures
        failure.message matches Some(message) ==> shown_failure(text, phase, failure).message
            == message@,
        failure.message is None && phase is Parse ==> shown_failure(text, phase, failure).message
            == failure.kind@,
        failure.message is None && !(phase is Parse) ==> shown_failure(
            text,
            phase,
            failure,
        ).message.len() == 0,
{
}

/// Whether a verdict shows one failure and nothing else, at its token.
pub open spec fn shows_only(
    verdict: VerdictView,
    text: Seq<char>,
    phase: Phase,
    failure: Failure,
) -> bool {
    &&& verdict.diagnostics.len() == 1
    &&& verdict.diagnostics[0].range == token_range(text, failure.token)
    &&& verdict.diagnostics[0].severity == DiagnosticSeverity::Error
    &&& verdict.diagnostics[0].message == match failure.message {
        Some(message) => message@,
        None => if phase is Parse {
            failure.kind@
        } else {
            seq![]
        },
    }
}

/// A text is parsed, resolved, checked, unified and inferred, in this order, and
/// the first of these that fails is shown. The typed module is dropped if that
/// was the parser or the resolver and kept otherwise. Where none fails, nothing
/// is shown.
pub proof fn law_course_of_compilation(
    text: Seq<char>,
    outcome: spec_fn(Phase) -> Option<Failure>,
)
    ensures
        ({
            let verdict = run_from(text, Phase::Parse, outcome);
            if outcome(Phase::Parse) is Some {
                &&& shows_only(verdict, text, Phase::Parse, outcome(Phase::Parse)->0)
                &&& !verdict.keep_module
            } else if outcome(Phase::Resolve) is Some {
                &&& shows_only(verdict, text, Phase::Resolve, outcome(Phase::Resolve)->0)
                &&& !verdict.keep_module
            } else if outcome(Phase::Check) is Some {
                &&& shows_only(verdict, text, Phase::Check, outcome(Phase::Check)->0)
                &&& verdict.keep_module
            } else if outcome(Phase::Unify) is Some {
                &&& shows_only(verdict, text, Phase::Unify, outcome(Phase::Unify)->0)
                &&& verdict.keep_module
            } else if outcome(Phase::Infer) is Some {
                &&& shows_only(verdict, text, Phase::Infer, outcome(Phase::Infer)->0)
                &&& verdict.keep_module
            } else {
                &&& verdict.diagnostics.len() == 0
                &&& verdict.keep_module
            }
        }),
{
    reveal_with_fuel(run_from, 6);
}

/// The view of a verdict has the view of each of its diagnostics, in order.
pub proof fn law_view_of_verdict(verdict: Verdict)
    ensures
        verdict@.diagnostics.len() == verdict.diagnostics@.len(),
        forall|i: int|
            0 <= i < verdict.diagnostics@.len() ==> #[trigger] verdict@.diagnostics[i]
                == verdict.diagnostics@[i]@,
        verdict@.keep_module == verdict.keep_module,
{
}

} // verus!
