//! The documents that are open in the editor, and the answers to its requests.
use crate::analysis::is_result_of;
use crate::analysis::Analysis;
use crate::analysis::AnalysisResult;
use crate::analysis::Phase;
use crate::completion::complete;
use crate::completion::completion_item;
use crate::completion::completions;
use crate::completion::distinct_labels;
use crate::completion::distinct_names;
use crate::completion::law_agreeing_name_is_offered;
use crate::completion::law_completions;
use crate::completion::law_empty_prefix_offers_all;
use crate::completion::law_no_name_is_offered_twice;
use crate::completion::law_offered_label_agrees;
use crate::completion::starts_with;
use crate::path::compiled_as;
use crate::path::file_path;
use crate::path::path_answer;
use crate::path::path_chars;
use crate::path::shown_as;
use crate::path::shown_name;
use crate::protocol::CompletionItem;
use crate::protocol::Position;
use crate::protocol::SemanticToken;
use crate::semantic::is_reply;
use crate::semantic::law_other_files_show_nothing;
use crate::semantic::semantic_tokens;
use crate::syntax::Symbol;
use crate::syntax::Token;
use crate::text::current_ident;
use crate::text::from_one;
use crate::text::front;
use crate::text::ident_at;
use crate::text::law_ident_at_end_of_token;
use crate::text::law_no_ident_behind_other_character;
use crate::text::lines;
use crate::text::stands_at;
use crate::text::text_before;
use crate::text::token_range;
use crate::token_type::legend_names;
use crate::token_type::SemanticTokenTypeNumber;
use crate::utf16::utf16_units;
use vstd::hash_map::StringHashMap;
use vstd::prelude::*;

verus! {

/// A document: its text and what compiling it has brought to light.
pub struct Document {
    pub text: String,
    pub analysis: AnalysisResult,
}

/// The documents that the editor has opened, by their URIs.
pub struct Backend {
    documents: StringHashMap<Document>,
}

impl View for Backend {
    type V = Map<Seq<char>, Document>;

    closed spec fn view(&self) -> Map<Seq<char>, Document> {
        self.documents@
    }
}

/// The documents after one of them has been opened.
pub open spec fn after_open(
    documents: Map<Seq<char>, Document>,
    uri: Seq<char>,
    text: String,
    analysis: AnalysisResult,
) -> Map<Seq<char>, Document> {
    documents.insert(uri, Document { text, analysis })
}

/// The documents after one of them has been changed. The last change has the
/// whole new text; without a change, everything stays as it is.
pub open spec fn after_change(
    documents: Map<Seq<char>, Document>,
    uri: Seq<char>,
    changes: Seq<String>,
    analysis: AnalysisResult,
) -> Map<Seq<char>, Document> {
    if changes.len() == 0 {
        documents
    } else {
        documents.insert(uri, Document { text: changes.last(), analysis })
    }
}

/// The completions at a position of a document.
pub open spec fn document_completions(document: Document, position: Position) -> Seq<
    CompletionItem,
> {
    completions(document.analysis.symbols@, ident_at(document.text@, position))
}

/// Whether tokens are those of a document that is looked up under a file name.
pub open spec fn is_document_reply(
    document: Document,
    file: Seq<char>,
    data: Seq<SemanticToken>,
) -> bool {
    is_reply(
        document.text@,
        document.analysis.typed_exprs@,
        document.analysis.typed_stmts@,
        file,
        data,
    )
}

/// The texts after which an editor asks for completions by itself.
pub open spec fn trigger_characters() -> Seq<Seq<char>> {
    seq!["."@, ":"@]
}

/// How an editor has to send changes.
#[derive(Debug, Clone, Copy, PartialEq, Eq, Structural)]
pub enum TextDocumentSyncKind {
    /// With the whole text.
    Full,
}

/// The documents that the server is meant for.
#[derive(Debug)]
pub struct DocumentFilter {
    pub language: Option<String>,
    pub scheme: Option<String>,
    pub pattern: Option<String>,
}

/// What the server tells an editor about itself.
#[derive(Debug)]
pub struct InitializeResult {
    pub sync: TextDocumentSyncKind,
    pub trigger_characters: Vec<String>,
    pub document_selector: Vec<DocumentFilter>,
    pub token_types: Vec<String>,
    pub token_modifiers: Vec<String>,
    pub full_semantic_tokens: bool,
    pub server_name: String,
    pub server_version: Option<String>,
}

impl Backend {
    /// A server without any documents.
    pub fn new() -> (backend: Backend)
        ensures
            backend@ == Map::<Seq<char>, Document>::empty(),
    {
        Backend { documents: StringHashMap::new() }
    }

    /// What the server can do: it takes whole texts, completes names, also
    /// after a dot or a colon, and highlights whole TypedAnt files.
    pub fn initialize() -> (result: InitializeResult)
        ensures
            result.sync == TextDocumentSyncKind::Full,
            result.trigger_characters@.len() == trigger_characters().len(),
            forall|i: int|
                0 <= i < result.trigger_characters@.len() ==> (
                #[trigger] result.trigger_characters@[i])@ == trigger_characters()[i],
            result.document_selector@.len() == 1,
            result.document_selector@[0].language is Some,
            result.document_selector@[0].language->0@ == "TypedAnt"@,
            result.document_selector@[0].scheme is Some,
            result.document_selector@[0].scheme->0@ == "file"@,
            result.document_selector@[0].pattern is None,
            result.token_types@.len() == legend_names().len(),
            forall|i: int|
                0 <= i < result.token_types@.len() ==> (#[trigger] result.token_types@[i])@
                    == legend_names()[i],
            result.token_modifiers@.len() == 0,
            result.full_semantic_tokens,
            result.server_name@ == "TypedAnt LSP"@,
            result.server_version is Some,
            result.server_version->0@ == "0.1.0"@,
    {
        InitializeResult {
            sync: TextDocumentSyncKind::Full,
            trigger_characters: vec![".".to_owned(), ":".to_owned()],
            document_selector: vec![
                DocumentFilter {
                    language: Some("TypedAnt".to_owned()),
                    scheme: Some("file".to_owned()),
                    pattern: None,
                },
            ],
            token_types: SemanticTokenTypeNumber::legend(),
            token_modifiers: Vec::new(),
            full_semantic_tokens: true,
            server_name: "TypedAnt LSP".to_owned(),
            server_version: Some("0.1.0".to_owned()),
        }
    }

    /// Sets out to compile the text of a document.
    pub fn run_analysis(uri: &str, text: &str) -> (analysis: Analysis)
        ensures
            analysis.text@ == text@,
            exists|path: Option<Seq<char>>|
                #[trigger] path_answer(uri@, path) && analysis.path@ == compiled_as(path, uri@)
                    && (path matches Some(p) ==> p.len() > 0),
            analysis.phase == Phase::Parse,
    {
        Analysis::start(file_path(uri), uri, text)
    }

    /// Keeps a document that has been opened and compiled. It takes the place
    /// of whatever was kept under its URI.
    pub fn did_open(&mut self, uri: String, text: String, res: AnalysisResult)
        ensures
            final(self)@ == after_open(old(self)@, uri@, text, res),
    {
        self.documents.insert(uri, Document { text, analysis: res });
    }

    /// The text that a document has after changes: that of the last change. It
    /// is to be compiled; without a change, nothing is.
    pub fn changed_text(changes: &Vec<String>) -> (text: Option<&String>)
        ensures
            match text {
                Some(text) => changes@.len() > 0 && *text == changes@.last(),
                None => changes@.len() == 0,
            },
    {
        if changes.len() == 0 {
            None
        } else {
            Some(&changes[changes.len() - 1])
        }
    }

    /// Keeps a document that has been changed, if it has, and compiled anew.
    pub fn did_change(&mut self, uri: String, changes: Vec<String>, res: AnalysisResult)
        ensures
            final(self)@ == after_change(old(self)@, uri@, changes@, res),
    {
        let mut changes = changes;
        match changes.pop() {
            Some(text) => self.documents.insert(uri, Document { text, analysis: res }),
            None => {},
        }
    }

    /// The completions at a position: the symbols of the document that start
    /// with the identifier there. A document that is not open has no answer.
    pub fn completion(&self, uri: &str, position: Position) -> (items: Option<Vec<CompletionItem>>)
        ensures
            match items {
                Some(items) => {
                    &&& self@.contains_key(uri@)
                    &&& items@ == document_completions(self@[uri@], position)
                },
                None => !self@.contains_key(uri@),
            },
    {
        let document = match self.documents.get(uri) {
            Some(document) => document,
            None => return None,
        };
        let prefix = current_ident(document.text.as_str(), position);
        Some(complete(&document.analysis.symbols, prefix.as_str()))
    }

    /// The semantic tokens of a document that is stored under a given path. A
    /// document that is not open has no answer.
    pub fn semantic_tokens_at(&self, uri: &str, path: Option<String>) -> (data: Option<
        Vec<SemanticToken>,
    >)
        ensures
            match data {
                Some(data) => {
                    &&& self@.contains_key(uri@)
                    &&& is_document_reply(self@[uri@], shown_as(path_chars(path)), data@)
                },
                None => !self@.contains_key(uri@),
            },
    {
        let document = match self.documents.get(uri) {
            Some(document) => document,
            None => return None,
        };
        let file = shown_name(path);
        Some(
            semantic_tokens(
                document.text.as_str(),
                &document.analysis.typed_exprs,
                &document.analysis.typed_stmts,
                &file,
            ),
        )
    }

    /// The semantic tokens of a document. A document that is not open has no
    /// answer.
    pub fn semantic_tokens_full(&self, uri: &str) -> (data: Option<Vec<SemanticToken>>)
        ensures
            match data {
                Some(data) => {
                    &&& self@.contains_key(uri@)
                    &&& exists|path: Option<Seq<char>>|
                        #[trigger] path_answer(uri@, path) && is_document_reply(
                            self@[uri@],
                            shown_as(path),
                            data@,
                        ) && (path matches Some(p) ==> p.len() > 0)
                },
                None => !self@.contains_key(uri@),
            },
    {
        self.semantic_tokens_at(uri, file_path(uri))
    }
}

/// A document that has been opened is known with its text, and no other
/// document is touched.
pub proof fn law_open_document_is_known(
    documents: Map<Seq<char>, Document>,
    uri: Seq<char>,
    text: String,
    analysis: AnalysisResult,
    other: Seq<char>,
)
    ensures
        after_open(documents, uri, text, analysis).contains_key(uri),
        after_open(documents, uri, text, analysis)[uri] == (Document { text, analysis }),
        other != uri ==> {
            &&& after_open(documents, uri, text, analysis).contains_key(other)
                == documents.contains_key(other)
            &&& documents.contains_key(other) ==> after_open(documents, uri, text, analysis)[other]
                == documents[other]
        },
{
}

/// Changing a document is like opening it with the text of the last change,
/// and a change without content leaves all documents as they are.
pub proof fn law_change_is_open_with_last_text(
    documents: Map<Seq<char>, Document>,
    uri: Seq<char>,
    changes: Seq<String>,
    analysis: AnalysisResult,
)
    ensures
        changes.len() > 0 ==> after_change(documents, uri, changes, analysis) == after_open(
            documents,
            uri,
            changes.last(),
            analysis,
        ),
        changes.len() == 0 ==> after_change(documents, uri, changes, analysis) == documents,
{
}

/// Opening a document anew wipes out what was known of it.
pub proof fn law_last_open_counts(
    documents: Map<Seq<char>, Document>,
    uri: Seq<char>,
    first: String,
    first_analysis: AnalysisResult,
    second: String,
    second_analysis: AnalysisResult,
)
    ensures
        after_open(
            after_open(documents, uri, first, first_analysis),
            uri,
            second,
            second_analysis,
        ) == after_open(documents, uri, second, second_analysis),
{
}

/// A symbol is offered at the end of an identifier token that spells its name.
pub proof fn law_symbol_is_offered_at_its_name(
    document: Document,
    token: Token,
    symbol: Symbol,
)
    requires
        document.analysis.symbols@.contains(symbol),
        symbol.name@ == token.value@,
        from_one(token.line) < lines(document.text@).len(),
        from_one(token.line) <= u32::MAX,
        stands_at(
            lines(document.text@)[from_one(token.line) as int],
            token.value@,
            from_one(token.column) as int,
        ),
        utf16_units(
            front(lines(document.text@)[from_one(token.line) as int], from_one(token.column)),
        ) + utf16_units(token.value@) <= u32::MAX,
    ensures
        document_completions(document, token_range(document.text@, token).end).contains(
            completion_item(symbol),
        ),
{
    let symbols = document.analysis.symbols@;
    law_ident_at_end_of_token(document.text@, token);
    law_completions(symbols, token.value@, completion_item(symbol));
    let i = choose|i: int| 0 <= i < symbols.len() && symbols[i] == symbol;
    assert(symbol.name@.subrange(0, symbol.name@.len() as int) == symbol.name@);
    assert(starts_with(symbols[i], token.value@));
}

/// A document without a path shows nothing of what was compiled under its URI:
/// its tokens are looked up under the empty name.
pub proof fn law_document_without_path_shows_nothing(
    document: Document,
    uri: Seq<char>,
    data: Seq<SemanticToken>,
)
    requires
        uri.len() > 0,
        forall|i: int|
            0 <= i < document.analysis.typed_exprs@.len() ==> (
            #[trigger] document.analysis.typed_exprs@[i]).token.file@ == compiled_as(None, uri),
        forall|i: int|
            0 <= i < document.analysis.typed_stmts@.len() ==> (
            #[trigger] document.analysis.typed_stmts@[i]).token.file@ == compiled_as(None, uri),
        is_document_reply(document, shown_as(None), data),
    ensures
        data.len() == 0,
{
    law_other_files_show_nothing(
        document.text@,
        document.analysis.typed_exprs@,
        document.analysis.typed_stmts@,
        shown_as(None),
        data,
    );
}

/// Whether a relation of URIs, texts and analyses holds of every document.
pub open spec fn all_belong(
    documents: Map<Seq<char>, Document>,
    belongs: spec_fn(Seq<char>, Seq<char>, AnalysisResult) -> bool,
) -> bool {
    forall|uri: Seq<char>| #[trigger]
        documents.contains_key(uri) ==> belongs(
            uri,
            documents[uri].text@,
            documents[uri].analysis,
        )
}

/// Any relation of URIs, texts and analyses holds of a server without documents.
pub proof fn law_no_document_to_belong(
    belongs: spec_fn(Seq<char>, Seq<char>, AnalysisResult) -> bool,
)
    ensures
        all_belong(Map::empty(), belongs),
{
}

/// A text is never kept with the analysis of another text or URI: where the
/// analysis of each kept document belongs to its URI and text, and so does that
/// of a document that is opened, the same is true once it has been opened.
pub proof fn law_open_keeps_text_with_analysis(
    documents: Map<Seq<char>, Document>,
    uri: Seq<char>,
    text: String,
    analysis: AnalysisResult,
    belongs: spec_fn(Seq<char>, Seq<char>, AnalysisResult) -> bool,
)
    requires
        all_belong(documents, belongs),
        belongs(uri, text@, analysis),
    ensures
        all_belong(after_open(documents, uri, text, analysis), belongs),
{
}

/// A text is never kept with the analysis of another text or URI: where the
/// analysis of each kept document belongs to its URI and text, and the one that
/// comes with changes belongs to the text of the last change, the same is true
/// once the document has been changed.
pub proof fn law_change_keeps_text_with_analysis(
    documents: Map<Seq<char>, Document>,
    uri: Seq<char>,
    changes: Seq<String>,
    analysis: AnalysisResult,
    belongs: spec_fn(Seq<char>, Seq<char>, AnalysisResult) -> bool,
)
    requires
        all_belong(documents, belongs),
        changes.len() > 0 ==> belongs(uri, changes.last()@, analysis),
    ensures
        all_belong(after_change(documents, uri, changes, analysis), belongs),
{
}

/// Whether every document is kept with what compiling its own text can leave
/// behind.
pub open spec fn all_compiled(documents: Map<Seq<char>, Document>) -> bool {
    all_belong(
        documents,
        |uri: Seq<char>, text: Seq<char>, analysis: AnalysisResult| is_result_of(text, analysis),
    )
}

/// Documents that are kept with the results of compiling them stay so when one
/// of them is opened with the result of compiling its text.
pub proof fn law_open_keeps_results(
    documents: Map<Seq<char>, Document>,
    uri: Seq<char>,
    text: String,
    analysis: AnalysisResult,
)
    requires
        all_compiled(documents),
        is_result_of(text@, analysis),
    ensures
        all_compiled(after_open(documents, uri, text, analysis)),
{
}

/// Documents that are kept with the results of compiling them stay so when one
/// of them is changed with the result of compiling the text of the last change.
pub proof fn law_change_keeps_results(
    documents: Map<Seq<char>, Document>,
    uri: Seq<char>,
    changes: Seq<String>,
    analysis: AnalysisResult,
)
    requires
        all_compiled(documents),
        changes.len() > 0 ==> is_result_of(changes.last()@, analysis),
    ensures
        all_compiled(after_change(documents, uri, changes, analysis)),
{
}

/// Right behind a trigger character, every symbol of the document is offered.
pub proof fn law_trigger_character_offers_all(document: Document, position: Position)
    requires
        text_before(document.text@, position).len() > 0,
        trigger_characters().contains(seq![text_before(document.text@, position).last()]),
    ensures
        ident_at(document.text@, position) == Seq::<char>::empty(),
        document_completions(document, position) == document.analysis.symbols@.map_values(
            |symbol: Symbol| completion_item(symbol),
        ),
{
    let last = text_before(document.text@, position).last();
    reveal_strlit(".");
    reveal_strlit(":");
    let i = choose|i: int|
        0 <= i < trigger_characters().len() && trigger_characters()[i] == seq![last];
    assert(seq![last][0] == trigger_characters()[i][0]);
    assert(last == '.' || last == ':');
    law_no_ident_behind_other_character(document.text@, position);
    law_empty_prefix_offers_all(document.analysis.symbols@);
}

/// Whether no document knows two symbols of the same name.
pub open spec fn all_names_distinct(documents: Map<Seq<char>, Document>) -> bool {
    forall|uri: Seq<char>| #[trigger]
        documents.contains_key(uri) ==> distinct_names(documents[uri].analysis.symbols@)
}

/// No document of a server without documents knows a name twice.
pub proof fn law_no_document_has_names()
    ensures
        all_names_distinct(Map::empty()),
{
}

/// Documents that know no name twice stay so when one of them is opened with
/// distinct names.
pub proof fn law_open_keeps_names_distinct(
    documents: Map<Seq<char>, Document>,
    uri: Seq<char>,
    text: String,
    analysis: AnalysisResult,
)
    requires
        all_names_distinct(documents),
        distinct_names(analysis.symbols@),
    ensures
        all_names_distinct(after_open(documents, uri, text, analysis)),
{
}

/// Documents that know no name twice stay so when one of them is changed and
/// has distinct names then.
pub proof fn law_change_keeps_names_distinct(
    documents: Map<Seq<char>, Document>,
    uri: Seq<char>,
    changes: Seq<String>,
    analysis: AnalysisResult,
)
    requires
        all_names_distinct(documents),
        changes.len() > 0 ==> distinct_names(analysis.symbols@),
    ensures
        all_names_distinct(after_change(documents, uri, changes, analysis)),
{
}

/// A document that is kept where no document knows a name twice offers no name
/// twice, at any position.
pub proof fn law_document_offers_no_name_twice(
    documents: Map<Seq<char>, Document>,
    uri: Seq<char>,
    position: Position,
)
    requires
        all_names_distinct(documents),
        documents.contains_key(uri),
    ensures
        distinct_labels(document_completions(documents[uri], position)),
{
    law_no_name_is_offered_twice(
        documents[uri].analysis.symbols@,
        ident_at(documents[uri].text@, position),
    );
}

/// Every name that is offered in a document agrees with the whole identifier at
/// the caret, character by character, and belongs to a symbol of the document.
pub proof fn law_document_offers_agreeing_names(document: Document, position: Position, k: int)
    requires
        0 <= k < document_completions(document, position).len(),
    ensures
        ({
            let item = document_completions(document, position)[k];
            let typed = ident_at(document.text@, position);
            &&& typed.len() <= item.label@.len()
            &&& forall|c: int| 0 <= c < typed.len() ==> #[trigger] item.label@[c] == typed[c]
            &&& exists|i: int|
                0 <= i < document.analysis.symbols@.len() && item.label == (
                #[trigger] document.analysis.symbols@[i]).name
        }),
{
    law_offered_label_agrees(
        document.analysis.symbols@,
        ident_at(document.text@, position),
        k,
    );
}

/// Every symbol of a document whose name agrees with the whole identifier at the
/// caret is offered.
pub proof fn law_document_offers_all_agreeing_names(
    document: Document,
    position: Position,
    i: int,
)
    requires
        0 <= i < document.analysis.symbols@.len(),
        ({
            let name = document.analysis.symbols@[i].name@;
            let typed = ident_at(document.text@, position);
            &&& typed.len() <= name.len()
            &&& forall|c: int| 0 <= c < typed.len() ==> #[trigger] name[c] == typed[c]
        }),
    ensures
        exists|k: int|
            {
                &&& 0 <= k < document_completions(document, position).len()
                &&& (#[trigger] document_completions(document, position)[k]).label
                    == document.analysis.symbols@[i].name
            },
{
    let typed = ident_at(document.text@, position);
    law_agreeing_name_is_offered(document.analysis.symbols@, typed, i);
    let all = completions(document.analysis.symbols@, typed);
    let k = choose|k: int|
        0 <= k < all.len() && (#[trigger] all[k]).label == document.analysis.symbols@[i].name;
    assert(document_completions(document, position)[k] == all[k]);
}

/// The tokens of a document are those of its own text and its own module.
pub proof fn law_document_reply_is_its_own(
    document: Document,
    file: Seq<char>,
    data: Seq<SemanticToken>,
)
    ensures
        is_document_reply(document, file, data) <==> is_reply(
            document.text@,
            document.analysis.typed_exprs@,
            document.analysis.typed_stmts@,
            file,
            data,
        ),
{
}

/// The completions in a document are those of its own symbols for the whole
/// identifier at the caret.
pub proof fn law_document_completions_are_its_own(document: Document, position: Position)
    ensures
        document_completions(document, position) == completions(
            document.analysis.symbols@,
            ident_at(document.text@, position),
        ),
{
}

} // verus!
