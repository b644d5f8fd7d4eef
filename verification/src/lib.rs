//! The decisions of a language server for TypedAnt: where tokens stand in a
//! document, how they are highlighted, which names are offered, what is shown of
//! a failed compilation, and which documents are open.
pub mod analysis;
pub mod backend;
pub mod completion;
pub mod encoding;
pub mod marks;
pub mod ordering;
pub mod path;
pub mod protocol;
pub mod semantic;
pub mod syntax;
pub mod text;
pub mod token_type;
pub mod utf16;

pub use analysis::AnalysisResult;
pub use backend::Backend;
pub use token_type::SemanticTokenTypeNumber;
