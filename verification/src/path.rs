//! The files that documents are stored in.
use tower_lsp::lsp_types::Url;
use vstd::prelude::*;

verus! {

/// The characters of a path that may be missing.
pub open spec fn path_chars(path: Option<String>) -> Option<Seq<char>> {
    match path {
        Some(path) => Some(path@),
        None => None,
    }
}

/// Whether there is a platform on which a URI stands for the file with the given
/// path or, for `None`, for no file. This is a relation and not a function of
/// the URI, because platforms differ in their answers.
pub uninterp spec fn path_answer(uri: Seq<char>, path: Option<Seq<char>>) -> bool;

/// The path of the file that a document's URI stands for, if there is one.
///
/// Reads the URI with `Url::parse`, asks `Url::to_file_path` for the path and
/// takes its text. What comes back is an answer of this platform, and a path is
/// never empty. Which URIs have a path, and how it is written, differs from
/// platform to platform, and nothing is said of it here.
#[verifier::external_body]
pub(crate) fn file_path(uri: &str) -> (path: Option<String>)
    ensures
        path_answer(uri@, path_chars(path)),
        path matches Some(p) ==> p@.len() > 0,
{
    let path = Url::parse(uri).ok()?.to_file_path().ok()?;
    Some(path.to_string_lossy().to_string())
}

/// The file name under which a document is compiled: its path or, for a
/// document without one, its URI.
pub open spec fn compiled_as(path: Option<Seq<char>>, uri: Seq<char>) -> Seq<char> {
    match path {
        Some(path) => path,
        None => uri,
    }
}

/// The file name under which the tokens of a document are looked up: its path
/// or, for a document without one, the empty name.
pub open spec fn shown_as(path: Option<Seq<char>>) -> Seq<char> {
    match path {
        Some(path) => path,
        None => seq![],
    }
}

/// The file name under which a document with a given path is compiled.
pub fn compiled_name(path: Option<String>, uri: &str) -> (name: String)
    ensures
        name@ == compiled_as(path_chars(path), uri@),
        path matches Some(p) ==> name@ == p@,
        path is None ==> name@ == uri@,
{
    match path {
        Some(path) => path,
        None => uri.to_owned(),
    }
}

/// The file name under which the tokens of a document with a given path are
/// looked up.
pub fn shown_name(path: Option<String>) -> (name: String)
    ensures
        name@ == shown_as(path_chars(path)),
        path matches Some(p) ==> name@ == p@,
        path is None ==> name@.len() == 0,
{
    match path {
        Some(path) => path,
        None => String::new(),
    }
}

/// The tokens of a document that has a path are looked up under the name that
/// the document is compiled under.
pub proof fn law_names_agree_on_files(path: Seq<char>, uri: Seq<char>)
    ensures
        compiled_as(Some(path), uri) == shown_as(Some(path)),
{
}

/// A document without a path is compiled under a name under which its tokens
/// are not looked up.
pub proof fn law_names_differ_without_file(uri: Seq<char>)
    requires
        uri.len() > 0,
    ensures
        compiled_as(None, uri) != shown_as(None),
{
}

/// A document that has a path goes by that path. One that has none is compiled
/// under its URI and looked up under the empty name.
pub proof fn law_names_of_documents(path: Seq<char>, uri: Seq<char>)
    ensures
        compiled_as(Some(path), uri) == path,
        compiled_as(None, uri) == uri,
        shown_as(Some(path)) == path,
        shown_as(None) == Seq::<char>::empty(),
{
}

} // verus!
