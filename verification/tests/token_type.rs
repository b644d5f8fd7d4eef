use lsp_backend::token_type::SemanticTokenTypeNumber as Kind;
use tower_lsp::lsp_types::SemanticTokenType;

#[test]
fn legend_lists_the_names_of_the_protocol() {
    let expected = vec![
        "namespace", "type", "class", "enum", "interface", "struct", "typeParameter", "parameter",
        "variable", "property", "enumMember", "event", "function", "method", "macro", "keyword",
        "modifier", "comment", "string", "number", "regexp", "operator", "decorator",
    ];
    assert_eq!(Kind::legend(), expected);
}

#[test]
fn numbers_index_the_legend() {
    let kinds = vec![
        (Kind::Namespace, SemanticTokenType::NAMESPACE),
        (Kind::Type, SemanticTokenType::TYPE),
        (Kind::Class, SemanticTokenType::CLASS),
        (Kind::Enum, SemanticTokenType::ENUM),
        (Kind::Interface, SemanticTokenType::INTERFACE),
        (Kind::Struct, SemanticTokenType::STRUCT),
        (Kind::TypeParameter, SemanticTokenType::TYPE_PARAMETER),
        (Kind::Parameter, SemanticTokenType::PARAMETER),
        (Kind::Variable, SemanticTokenType::VARIABLE),
        (Kind::Property, SemanticTokenType::PROPERTY),
        (Kind::EnumMember, SemanticTokenType::ENUM_MEMBER),
        (Kind::Event, SemanticTokenType::EVENT),
        (Kind::Function, SemanticTokenType::FUNCTION),
        (Kind::Method, SemanticTokenType::METHOD),
        (Kind::Macro, SemanticTokenType::MACRO),
        (Kind::Keyword, SemanticTokenType::KEYWORD),
        (Kind::Modifier, SemanticTokenType::MODIFIER),
        (Kind::Comment, SemanticTokenType::COMMENT),
        (Kind::String, SemanticTokenType::STRING),
        (Kind::Number, SemanticTokenType::NUMBER),
        (Kind::Regexp, SemanticTokenType::REGEXP),
        (Kind::Operator, SemanticTokenType::OPERATOR),
        (Kind::Decorator, SemanticTokenType::DECORATOR),
    ];
    let legend = Kind::legend();
    assert_eq!(legend.len(), kinds.len());
    for (i, (kind, name)) in kinds.into_iter().enumerate() {
        assert_eq!(kind.number() as usize, i);
        assert_eq!(kind.number(), kind as u32);
        assert_eq!(SemanticTokenType::from(legend[i].clone()), name);
    }
}
