//! The kinds of semantic tokens and the legend that tells an editor about them.
use tower_lsp::lsp_types::SemanticTokenType;
use vstd::prelude::*;

verus! {

/// The kind of a semantic token. Its number is its place in the legend.
#[derive(Debug, Clone, Copy, PartialEq, Eq, Structural)]
pub enum SemanticTokenTypeNumber {
    Namespace,
    Type,
    Class,
    Enum,
    Interface,
    Struct,
    TypeParameter,
    Parameter,
    Variable,
    Property,
    EnumMember,
    Event,
    Function,
    Method,
    Macro,
    Keyword,
    Modifier,
    Comment,
    String,
    Number,
    Regexp,
    Operator,
    Decorator,
}

/// The number by which a token of a kind is sent.
pub open spec fn kind_number(kind: SemanticTokenTypeNumber) -> u32 {
    match kind {
        SemanticTokenTypeNumber::Namespace => 0,
        SemanticTokenTypeNumber::Type => 1,
        SemanticTokenTypeNumber::Class => 2,
        SemanticTokenTypeNumber::Enum => 3,
        SemanticTokenTypeNumber::Interface => 4,
        SemanticTokenTypeNumber::Struct => 5,
        SemanticTokenTypeNumber::TypeParameter => 6,
        SemanticTokenTypeNumber::Parameter => 7,
        SemanticTokenTypeNumber::Variable => 8,
        SemanticTokenTypeNumber::Property => 9,
        SemanticTokenTypeNumber::EnumMember => 10,
        SemanticTokenTypeNumber::Event => 11,
        SemanticTokenTypeNumber::Function => 12,
        SemanticTokenTypeNumber::Method => 13,
        SemanticTokenTypeNumber::Macro => 14,
        SemanticTokenTypeNumber::Keyword => 15,
        SemanticTokenTypeNumber::Modifier => 16,
        SemanticTokenTypeNumber::Comment => 17,
        SemanticTokenTypeNumber::String => 18,
        SemanticTokenTypeNumber::Number => 19,
        SemanticTokenTypeNumber::Regexp => 20,
        SemanticTokenTypeNumber::Operator => 21,
        SemanticTokenTypeNumber::Decorator => 22,
    }
}

/// The name that the protocol gives to a kind.
pub open spec fn kind_name(kind: SemanticTokenTypeNumber) -> Seq<char> {
    match kind {
        SemanticTokenTypeNumber::Namespace => "namespace"@,
        SemanticTokenTypeNumber::Type => "type"@,
        SemanticTokenTypeNumber::Class => "class"@,
        SemanticTokenTypeNumber::Enum => "enum"@,
        SemanticTokenTypeNumber::Interface => "interface"@,
        SemanticTokenTypeNumber::Struct => "struct"@,
        SemanticTokenTypeNumber::TypeParameter => "typeParameter"@,
        SemanticTokenTypeNumber::Parameter => "parameter"@,
        SemanticTokenTypeNumber::Variable => "variable"@,
        SemanticTokenTypeNumber::Property => "property"@,
        SemanticTokenTypeNumber::EnumMember => "enumMember"@,
        SemanticTokenTypeNumber::Event => "event"@,
        SemanticTokenTypeNumber::Function => "function"@,
        SemanticTokenTypeNumber::Method => "method"@,
        SemanticTokenTypeNumber::Macro => "macro"@,
        SemanticTokenTypeNumber::Keyword => "keyword"@,
        SemanticTokenTypeNumber::Modifier => "modifier"@,
        SemanticTokenTypeNumber::Comment => "comment"@,
        SemanticTokenTypeNumber::String => "string"@,
        SemanticTokenTypeNumber::Number => "number"@,
        SemanticTokenTypeNumber::Regexp => "regexp"@,
        SemanticTokenTypeNumber::Operator => "operator"@,
        SemanticTokenTypeNumber::Decorator => "decorator"@,
    }
}

/// The names of all kinds, in the order of their numbers.
pub open spec fn legend_names() -> Seq<Seq<char>> {
    seq![
        "namespace"@,
        "type"@,
        "class"@,
        "enum"@,
        "interface"@,
        "struct"@,
        "typeParameter"@,
        "parameter"@,
        "variable"@,
        "property"@,
        "enumMember"@,
        "event"@,
        "function"@,
        "method"@,
        "macro"@,
        "keyword"@,
        "modifier"@,
        "comment"@,
        "string"@,
        "number"@,
        "regexp"@,
        "operator"@,
        "decorator"@,
    ]
}

/// An editor that looks up the number of a token in the legend finds the name
/// of the token's kind.
pub proof fn law_legend_names_kind(kind: SemanticTokenTypeNumber)
    ensures
        kind_number(kind) < legend_names().len(),
        legend_names()[kind_number(kind) as int] == kind_name(kind),
{
}

/// No two kinds share a number.
pub proof fn law_kind_numbers_differ(a: SemanticTokenTypeNumber, b: SemanticTokenTypeNumber)
    requires
        kind_number(a) == kind_number(b),
    ensures
        a == b,
{
}

/// Every entry of the legend is the name of some kind.
pub proof fn law_legend_holds_kinds_only(number: u32)
    requires
        number < legend_names().len(),
    ensures
        exists|kind: SemanticTokenTypeNumber| #[trigger] kind_number(kind) == number,
{
    assert(kind_number(SemanticTokenTypeNumber::Namespace) == 0);
    assert(kind_number(SemanticTokenTypeNumber::Type) == 1);
    assert(kind_number(SemanticTokenTypeNumber::Class) == 2);
    assert(kind_number(SemanticTokenTypeNumber::Enum) == 3);
    assert(kind_number(SemanticTokenTypeNumber::Interface) == 4);
    assert(kind_number(SemanticTokenTypeNumber::Struct) == 5);
    assert(kind_number(SemanticTokenTypeNumber::TypeParameter) == 6);
    assert(kind_number(SemanticTokenTypeNumber::Parameter) == 7);
    assert(kind_number(SemanticTokenTypeNumber::Variable) == 8);
    assert(kind_number(SemanticTokenTypeNumber::Property) == 9);
    assert(kind_number(SemanticTokenTypeNumber::EnumMember) == 10);
    assert(kind_number(SemanticTokenTypeNumber::Event) == 11);
    assert(kind_number(SemanticTokenTypeNumber::Function) == 12);
    assert(kind_number(SemanticTokenTypeNumber::Method) == 13);
    assert(kind_number(SemanticTokenTypeNumber::Macro) == 14);
    assert(kind_number(SemanticTokenTypeNumber::Keyword) == 15);
    assert(kind_number(SemanticTokenTypeNumber::Modifier) == 16);
    assert(kind_number(SemanticTokenTypeNumber::Comment) == 17);
    assert(kind_number(SemanticTokenTypeNumber::String) == 18);
    assert(kind_number(SemanticTokenTypeNumber::Number) == 19);
    assert(kind_number(SemanticTokenTypeNumber::Regexp) == 20);
    assert(kind_number(SemanticTokenTypeNumber::Operator) == 21);
    assert(kind_number(SemanticTokenTypeNumber::Decorator) == 22);
}

/// The text of `SemanticTokenType::NAMESPACE` is `namespace`.
#[verifier::external_body]
fn namespace_text() -> (text: String)
    ensures
        text@ == "namespace"@,
{
    SemanticTokenType::NAMESPACE.as_str().to_string()
}

/// The text of `SemanticTokenType::TYPE` is `type`.
#[verifier::external_body]
fn type_text() -> (text: String)
    ensures
        text@ == "type"@,
{
    SemanticTokenType::TYPE.as_str().to_string()
}

/// The text of `SemanticTokenType::CLASS` is `class`.
#[verifier::external_body]
fn class_text() -> (text: String)
    ensures
        text@ == "class"@,
{
    SemanticTokenType::CLASS.as_str().to_string()
}

/// The text of `SemanticTokenType::ENUM` is `enum`.
#[verifier::external_body]
fn enum_text() -> (text: String)
    ensures
        text@ == "enum"@,
{
    SemanticTokenType::ENUM.as_str().to_string()
}

/// The text of `SemanticTokenType::INTERFACE` is `interface`.
#[verifier::external_body]
fn interface_text() -> (text: String)
    ensures
        text@ == "interface"@,
{
    SemanticTokenType::INTERFACE.as_str().to_string()
}

/// The text of `SemanticTokenType::STRUCT` is `struct`.
#[verifier::external_body]
fn struct_text() -> (text: String)
    ensures
        text@ == "struct"@,
{
    SemanticTokenType::STRUCT.as_str().to_string()
}

/// The text of `SemanticTokenType::TYPE_PARAMETER` is `typeParameter`.
#[verifier::external_body]
fn type_parameter_text() -> (text: String)
    ensures
        text@ == "typeParameter"@,
{
    SemanticTokenType::TYPE_PARAMETER.as_str().to_string()
}

/// The text of `SemanticTokenType::PARAMETER` is `parameter`.
#[verifier::external_body]
fn parameter_text() -> (text: String)
    ensures
        text@ == "parameter"@,
{
    SemanticTokenType::PARAMETER.as_str().to_string()
}

/// The text of `SemanticTokenType::VARIABLE` is `variable`.
#[verifier::external_body]
fn variable_text() -> (text: String)
    ensures
        text@ == "variable"@,
{
    SemanticTokenType::VARIABLE.as_str().to_string()
}

/// The text of `SemanticTokenType::PROPERTY` is `property`.
#[verifier::external_body]
fn property_text() -> (text: String)
    ensures
        text@ == "property"@,
{
    SemanticTokenType::PROPERTY.as_str().to_string()
}

/// The text of `SemanticTokenType::ENUM_MEMBER` is `enumMember`.
#[verifier::external_body]
fn enum_member_text() -> (text: String)
    ensures
        text@ == "enumMember"@,
{
    SemanticTokenType::ENUM_MEMBER.as_str().to_string()
}

/// The text of `SemanticTokenType::EVENT` is `event`.
#[verifier::external_body]
fn event_text() -> (text: String)
    ensures
        text@ == "event"@,
{
    SemanticTokenType::EVENT.as_str().to_string()
}

/// The text of `SemanticTokenType::FUNCTION` is `function`.
#[verifier::external_body]
fn function_text() -> (text: String)
    ensures
        text@ == "function"@,
{
    SemanticTokenType::FUNCTION.as_str().to_string()
}

/// The text of `SemanticTokenType::METHOD` is `method`.
#[verifier::external_body]
fn method_text() -> (text: String)
    ensures
        text@ == "method"@,
{
    SemanticTokenType::METHOD.as_str().to_string()
}

/// The text of `SemanticTokenType::MACRO` is `macro`.
#[verifier::external_body]
fn macro_text() -> (text: String)
    ensures
        text@ == "macro"@,
{
    SemanticTokenType::MACRO.as_str().to_string()
}

/// The text of `SemanticTokenType::KEYWORD` is `keyword`.
#[verifier::external_body]
fn keyword_text() -> (text: String)
    ensures
        text@ == "keyword"@,
{
    SemanticTokenType::KEYWORD.as_str().to_string()
}

/// The text of `SemanticTokenType::MODIFIER` is `modifier`.
#[verifier::external_body]
fn modifier_text() -> (text: String)
    ensures
        text@ == "modifier"@,
{
    SemanticTokenType::MODIFIER.as_str().to_string()
}

/// The text of `SemanticTokenType::COMMENT` is `comment`.
#[verifier::external_body]
fn comment_text() -> (text: String)
    ensures
        text@ == "comment"@,
{
    SemanticTokenType::COMMENT.as_str().to_string()
}

/// The text of `SemanticTokenType::STRING` is `string`.
#[verifier::external_body]
fn string_text() -> (text: String)
    ensures
        text@ == "string"@,
{
    SemanticTokenType::STRING.as_str().to_string()
}

/// The text of `SemanticTokenType::NUMBER` is `number`.
#[verifier::external_body]
fn number_text() -> (text: String)
    ensures
        text@ == "number"@,
{
    SemanticTokenType::NUMBER.as_str().to_string()
}

/// The text of `SemanticTokenType::REGEXP` is `regexp`.
#[verifier::external_body]
fn regexp_text() -> (text: String)
    ensures
        text@ == "regexp"@,
{
    SemanticTokenType::REGEXP.as_str().to_string()
}

/// The text of `SemanticTokenType::OPERATOR` is `operator`.
#[verifier::external_body]
fn operator_text() -> (text: String)
    ensures
        text@ == "operator"@,
{
    SemanticTokenType::OPERATOR.as_str().to_string()
}

/// The text of `SemanticTokenType::DECORATOR` is `decorator`.
#[verifier::external_body]
fn decorator_text() -> (text: String)
    ensures
        text@ == "decorator"@,
{
    SemanticTokenType::DECORATOR.as_str().to_string()
}

impl SemanticTokenTypeNumber {
    /// The number by which a token of this kind is sent.
    pub fn number(self) -> (number: u32)
        ensures
            number == kind_number(self),
    {
        match self {
            SemanticTokenTypeNumber::Namespace => 0,
            SemanticTokenTypeNumber::Type => 1,
            SemanticTokenTypeNumber::Class => 2,
            SemanticTokenTypeNumber::Enum => 3,
            SemanticTokenTypeNumber::Interface => 4,
            SemanticTokenTypeNumber::Struct => 5,
            SemanticTokenTypeNumber::TypeParameter => 6,
            SemanticTokenTypeNumber::Parameter => 7,
            SemanticTokenTypeNumber::Variable => 8,
            SemanticTokenTypeNumber::Property => 9,
            SemanticTokenTypeNumber::EnumMember => 10,
            SemanticTokenTypeNumber::Event => 11,
            SemanticTokenTypeNumber::Function => 12,
            SemanticTokenTypeNumber::Method => 13,
            SemanticTokenTypeNumber::Macro => 14,
            SemanticTokenTypeNumber::Keyword => 15,
            SemanticTokenTypeNumber::Modifier => 16,
            SemanticTokenTypeNumber::Comment => 17,
            SemanticTokenTypeNumber::String => 18,
            SemanticTokenTypeNumber::Number => 19,
            SemanticTokenTypeNumber::Regexp => 20,
            SemanticTokenTypeNumber::Operator => 21,
            SemanticTokenTypeNumber::Decorator => 22,
        }
    }

    /// The legend: the protocol's names of all kinds, each at the place that is
    /// the kind's number.
    pub fn legend() -> (legend: Vec<String>)
        ensures
            legend@.len() == legend_names().len(),
            forall|i: int|
                0 <= i < legend@.len() ==> (#[trigger] legend@[i])@ == legend_names()[i],
    {
        vec![
            namespace_text(),
            type_text(),
            class_text(),
            enum_text(),
            interface_text(),
            struct_text(),
            type_parameter_text(),
            parameter_text(),
            variable_text(),
            property_text(),
            enum_member_text(),
            event_text(),
            function_text(),
            method_text(),
            macro_text(),
            keyword_text(),
            modifier_text(),
            comment_text(),
            string_text(),
            number_text(),
            regexp_text(),
            operator_text(),
            decorator_text(),
        ]
    }
}

} // verus!
