//! What the server reads of a compiled TypedAnt module.
use vstd::prelude::*;

verus! {

/// A token as the lexer cut it out of a source file. Lines and columns are
/// counted from one, columns in characters.
#[derive(Debug)]
pub struct Token {
    pub value: String,
    pub file: String,
    pub line: usize,
    pub column: usize,
}

/// The type of a name, as far as the server tells types apart.
#[derive(Debug, Clone, Copy, PartialEq, Eq, Structural)]
pub enum Ty {
    Function,
    Struct,
    Generic,
    Other,
}

/// The kinds of typed expressions that the server tells apart.
#[derive(Debug)]
pub enum ExpressionKind {
    /// An identifier. `names_type` says whether its text is itself the name of
    /// a type; `ty` is the type of what it stands for.
    Ident { ident: Token, names_type: bool, ty: Ty },
    /// A function, which may go without a name.
    Function { name: Option<Token> },
    /// A path that starts at a type.
    TypePath { left: Token },
    /// Any other expression.
    Other,
}

/// A typed expression and the token that stands for it.
#[derive(Debug)]
pub struct TypedExpression {
    pub token: Token,
    pub kind: ExpressionKind,
}

/// The kinds of typed statements that the server tells apart.
#[derive(Debug)]
pub enum StatementKind {
    /// An import, with the segments of its path.
    Use { full_path: Vec<Token> },
    /// The definition of a struct.
    Struct { name: Token },
    /// The declaration of a foreign function under a name of this module.
    Extern { alias: Token },
    /// Any other statement.
    Other,
}

/// A typed statement and the token that stands for it.
#[derive(Debug)]
pub struct TypedStatement {
    pub token: Token,
    pub kind: StatementKind,
}

/// A name that the module knows, with its type.
#[derive(Debug)]
pub struct Symbol {
    pub name: String,
    pub ty: Ty,
}

} // verus!
