use vstd::prelude::*;

verus! {

/// The kinds of tokens and nodes of the JavaScript syntax tree that this
/// library produces or reads.
#[allow(non_camel_case_types)]
#[derive(Debug, Clone, Copy, PartialEq, Eq, Structural)]
pub enum SyntaxKind {
    /// The kind of an abandoned node start.
    TOMBSTONE,
    /// The end of the token stream.
    EOF,
    // punctuation
    SEMICOLON,
    COMMA,
    L_PAREN,
    R_PAREN,
    L_CURLY,
    R_CURLY,
    L_BRACK,
    R_BRACK,
    L_ANGLE,
    R_ANGLE,
    QUESTION,
    COLON,
    EQ,
    DOT,
    DOT3,
    STAR,
    AT,
    PLUS,
    MINUS,
    SLASH,
    BANG,
    PIPE,
    AMP,
    FAT_ARROW,
    // reserved keywords
    BREAK_KW,
    CASE_KW,
    CLASS_KW,
    CONST_KW,
    DELETE_KW,
    DO_KW,
    ELSE_KW,
    EXPORT_KW,
    EXTENDS_KW,
    FALSE_KW,
    FOR_KW,
    FUNCTION_KW,
    IF_KW,
    IMPORT_KW,
    IN_KW,
    INSTANCEOF_KW,
    NEW_KW,
    NULL_KW,
    RETURN_KW,
    SUPER_KW,
    SWITCH_KW,
    THIS_KW,
    THROW_KW,
    TRUE_KW,
    TRY_KW,
    TYPEOF_KW,
    VAR_KW,
    VOID_KW,
    WHILE_KW,
    WITH_KW,
    // contextual keywords
    AWAIT_KW,
    YIELD_KW,
    ASYNC_KW,
    GET_KW,
    SET_KW,
    OF_KW,
    LET_KW,
    STATIC_KW,
    AS_KW,
    IS_KW,
    // literals and identifiers
    JS_NUMBER_LITERAL,
    JS_BIGINT_LITERAL,
    JS_STRING_LITERAL,
    JS_REGEX_LITERAL,
    JSX_STRING_LITERAL,
    TEMPLATE_CHUNK,
    IDENT,
    GRIT_METAVARIABLE,
    ERROR_TOKEN,
    // nodes
    JS_OBJECT_EXPRESSION,
    JS_OBJECT_MEMBER_LIST,
    JS_PROPERTY_OBJECT_MEMBER,
    JS_METHOD_OBJECT_MEMBER,
    JS_GETTER_OBJECT_MEMBER,
    JS_SETTER_OBJECT_MEMBER,
    JS_SHORTHAND_PROPERTY_OBJECT_MEMBER,
    JS_SPREAD,
    JS_LITERAL_MEMBER_NAME,
    JS_COMPUTED_MEMBER_NAME,
    JS_METAVARIABLE,
    JS_REFERENCE_IDENTIFIER,
    JS_EXPRESSION,
    JS_IDENTIFIER_EXPRESSION,
    JS_STRING_LITERAL_EXPRESSION,
    JS_NUMBER_LITERAL_EXPRESSION,
    JS_BIGINT_LITERAL_EXPRESSION,
    JS_BOOLEAN_LITERAL_EXPRESSION,
    JS_NULL_LITERAL_EXPRESSION,
    JS_THIS_EXPRESSION,
    JS_BINARY_EXPRESSION,
    JS_IN_EXPRESSION,
    JS_INSTANCEOF_EXPRESSION,
    JS_FUNCTION_BODY,
    JS_PARAMETERS,
    JS_FORMAL_PARAMETER,
    JS_CALL_ARGUMENTS,
    JS_DECORATOR,
    JS_DECORATOR_LIST,
    TS_TYPE_PARAMETERS,
    TS_TYPE_ANNOTATION,
    TS_RETURN_TYPE_ANNOTATION,
    JS_BOGUS,
    JS_BOGUS_MEMBER,
}

/// Reserved and contextual keywords.
pub open spec fn keyword(k: SyntaxKind) -> bool {
    match k {
        SyntaxKind::BREAK_KW | SyntaxKind::CASE_KW | SyntaxKind::CLASS_KW | SyntaxKind::CONST_KW
        | SyntaxKind::DELETE_KW | SyntaxKind::DO_KW | SyntaxKind::ELSE_KW | SyntaxKind::EXPORT_KW
        | SyntaxKind::EXTENDS_KW | SyntaxKind::FALSE_KW | SyntaxKind::FOR_KW
        | SyntaxKind::FUNCTION_KW | SyntaxKind::IF_KW | SyntaxKind::IMPORT_KW | SyntaxKind::IN_KW
        | SyntaxKind::INSTANCEOF_KW | SyntaxKind::NEW_KW | SyntaxKind::NULL_KW
        | SyntaxKind::RETURN_KW | SyntaxKind::SUPER_KW | SyntaxKind::SWITCH_KW
        | SyntaxKind::THIS_KW | SyntaxKind::THROW_KW | SyntaxKind::TRUE_KW | SyntaxKind::TRY_KW
        | SyntaxKind::TYPEOF_KW | SyntaxKind::VAR_KW | SyntaxKind::VOID_KW
        | SyntaxKind::WHILE_KW | SyntaxKind::WITH_KW => true,
        _ => contextual_keyword(k),
    }
}

/// Keywords that may also be used as identifiers.
pub open spec fn contextual_keyword(k: SyntaxKind) -> bool {
    match k {
        SyntaxKind::AWAIT_KW | SyntaxKind::YIELD_KW | SyntaxKind::ASYNC_KW | SyntaxKind::GET_KW
        | SyntaxKind::SET_KW | SyntaxKind::OF_KW | SyntaxKind::LET_KW | SyntaxKind::STATIC_KW
        | SyntaxKind::AS_KW | SyntaxKind::IS_KW => true,
        _ => false,
    }
}

/// Kinds that a lexer hands to the parser (everything but nodes, `EOF` and `TOMBSTONE`).
pub open spec fn token_kind(k: SyntaxKind) -> bool {
    match k {
        SyntaxKind::TOMBSTONE | SyntaxKind::EOF | SyntaxKind::JS_OBJECT_EXPRESSION
        | SyntaxKind::JS_OBJECT_MEMBER_LIST | SyntaxKind::JS_PROPERTY_OBJECT_MEMBER
        | SyntaxKind::JS_METHOD_OBJECT_MEMBER | SyntaxKind::JS_GETTER_OBJECT_MEMBER
        | SyntaxKind::JS_SETTER_OBJECT_MEMBER | SyntaxKind::JS_SHORTHAND_PROPERTY_OBJECT_MEMBER
        | SyntaxKind::JS_SPREAD | SyntaxKind::JS_LITERAL_MEMBER_NAME
        | SyntaxKind::JS_COMPUTED_MEMBER_NAME | SyntaxKind::JS_METAVARIABLE
        | SyntaxKind::JS_REFERENCE_IDENTIFIER | SyntaxKind::JS_EXPRESSION
        | SyntaxKind::JS_FUNCTION_BODY | SyntaxKind::JS_PARAMETERS
        | SyntaxKind::JS_FORMAL_PARAMETER | SyntaxKind::JS_CALL_ARGUMENTS
        | SyntaxKind::JS_DECORATOR | SyntaxKind::JS_DECORATOR_LIST | SyntaxKind::TS_TYPE_PARAMETERS
        | SyntaxKind::TS_TYPE_ANNOTATION | SyntaxKind::TS_RETURN_TYPE_ANNOTATION
        | SyntaxKind::JS_BOGUS | SyntaxKind::JS_BOGUS_MEMBER | SyntaxKind::JS_IDENTIFIER_EXPRESSION | SyntaxKind::JS_STRING_LITERAL_EXPRESSION | SyntaxKind::JS_NUMBER_LITERAL_EXPRESSION | SyntaxKind::JS_BIGINT_LITERAL_EXPRESSION | SyntaxKind::JS_BOOLEAN_LITERAL_EXPRESSION | SyntaxKind::JS_NULL_LITERAL_EXPRESSION | SyntaxKind::JS_THIS_EXPRESSION | SyntaxKind::JS_BINARY_EXPRESSION | SyntaxKind::JS_IN_EXPRESSION | SyntaxKind::JS_INSTANCEOF_EXPRESSION => false,
        _ => true,
    }
}

/// The bogus kind that replaces a node kind when its syntax is rejected.
pub open spec fn bogus_of(k: SyntaxKind) -> SyntaxKind {
    match k {
        SyntaxKind::JS_PROPERTY_OBJECT_MEMBER | SyntaxKind::JS_METHOD_OBJECT_MEMBER
        | SyntaxKind::JS_GETTER_OBJECT_MEMBER | SyntaxKind::JS_SETTER_OBJECT_MEMBER
        | SyntaxKind::JS_SHORTHAND_PROPERTY_OBJECT_MEMBER | SyntaxKind::JS_SPREAD
        | SyntaxKind::JS_BOGUS_MEMBER => SyntaxKind::JS_BOGUS_MEMBER,
        _ => SyntaxKind::JS_BOGUS,
    }
}

impl SyntaxKind {
    /// Whether the kind is a (reserved or contextual) keyword.
    pub fn is_keyword(self) -> (r: bool)
        ensures
            r == keyword(self),
    {
        match self {
            SyntaxKind::BREAK_KW | SyntaxKind::CASE_KW | SyntaxKind::CLASS_KW
            | SyntaxKind::CONST_KW | SyntaxKind::DELETE_KW | SyntaxKind::DO_KW
            | SyntaxKind::ELSE_KW | SyntaxKind::EXPORT_KW | SyntaxKind::EXTENDS_KW
            | SyntaxKind::FALSE_KW | SyntaxKind::FOR_KW | SyntaxKind::FUNCTION_KW
            | SyntaxKind::IF_KW | SyntaxKind::IMPORT_KW | SyntaxKind::IN_KW
            | SyntaxKind::INSTANCEOF_KW | SyntaxKind::NEW_KW | SyntaxKind::NULL_KW
            | SyntaxKind::RETURN_KW | SyntaxKind::SUPER_KW | SyntaxKind::SWITCH_KW
            | SyntaxKind::THIS_KW | SyntaxKind::THROW_KW | SyntaxKind::TRUE_KW
            | SyntaxKind::TRY_KW | SyntaxKind::TYPEOF_KW | SyntaxKind::VAR_KW
            | SyntaxKind::VOID_KW | SyntaxKind::WHILE_KW | SyntaxKind::WITH_KW => true,
            _ => self.is_contextual_keyword(),
        }
    }

    /// Whether the kind is a keyword that may also be used as an identifier.
    pub fn is_contextual_keyword(self) -> (r: bool)
        ensures
            r == contextual_keyword(self),
    {
        match self {
            SyntaxKind::AWAIT_KW | SyntaxKind::YIELD_KW | SyntaxKind::ASYNC_KW
            | SyntaxKind::GET_KW | SyntaxKind::SET_KW | SyntaxKind::OF_KW | SyntaxKind::LET_KW
            | SyntaxKind::STATIC_KW | SyntaxKind::AS_KW | SyntaxKind::IS_KW => true,
            _ => false,
        }
    }

    /// Whether the kind is one that a lexer hands to the parser.
    pub fn is_token(self) -> (r: bool)
        ensures
            r == token_kind(self),
    {
        match self {
            SyntaxKind::TOMBSTONE | SyntaxKind::EOF | SyntaxKind::JS_OBJECT_EXPRESSION
            | SyntaxKind::JS_OBJECT_MEMBER_LIST | SyntaxKind::JS_PROPERTY_OBJECT_MEMBER
            | SyntaxKind::JS_METHOD_OBJECT_MEMBER | SyntaxKind::JS_GETTER_OBJECT_MEMBER
            | SyntaxKind::JS_SETTER_OBJECT_MEMBER
            | SyntaxKind::JS_SHORTHAND_PROPERTY_OBJECT_MEMBER | SyntaxKind::JS_SPREAD
            | SyntaxKind::JS_LITERAL_MEMBER_NAME | SyntaxKind::JS_COMPUTED_MEMBER_NAME
            | SyntaxKind::JS_METAVARIABLE | SyntaxKind::JS_REFERENCE_IDENTIFIER
            | SyntaxKind::JS_EXPRESSION | SyntaxKind::JS_FUNCTION_BODY
            | SyntaxKind::JS_PARAMETERS | SyntaxKind::JS_FORMAL_PARAMETER
            | SyntaxKind::JS_CALL_ARGUMENTS | SyntaxKind::JS_DECORATOR
            | SyntaxKind::JS_DECORATOR_LIST
            | SyntaxKind::TS_TYPE_PARAMETERS | SyntaxKind::TS_TYPE_ANNOTATION
            | SyntaxKind::TS_RETURN_TYPE_ANNOTATION | SyntaxKind::JS_BOGUS
            | SyntaxKind::JS_BOGUS_MEMBER | SyntaxKind::JS_IDENTIFIER_EXPRESSION | SyntaxKind::JS_STRING_LITERAL_EXPRESSION | SyntaxKind::JS_NUMBER_LITERAL_EXPRESSION | SyntaxKind::JS_BIGINT_LITERAL_EXPRESSION | SyntaxKind::JS_BOOLEAN_LITERAL_EXPRESSION | SyntaxKind::JS_NULL_LITERAL_EXPRESSION | SyntaxKind::JS_THIS_EXPRESSION | SyntaxKind::JS_BINARY_EXPRESSION | SyntaxKind::JS_IN_EXPRESSION | SyntaxKind::JS_INSTANCEOF_EXPRESSION => false,
            _ => true,
        }
    }

    /// Whether the kind is a GritQL metavariable token.
    pub fn is_metavariable(self) -> (r: bool)
        ensures
            r == (self == SyntaxKind::GRIT_METAVARIABLE),
    {
        self == SyntaxKind::GRIT_METAVARIABLE
    }

    /// The bogus kind that replaces this node kind when its syntax is rejected.
    pub fn to_bogus(self) -> (r: SyntaxKind)
        ensures
            r == bogus_of(self),
    {
        match self {
            SyntaxKind::JS_PROPERTY_OBJECT_MEMBER | SyntaxKind::JS_METHOD_OBJECT_MEMBER
            | SyntaxKind::JS_GETTER_OBJECT_MEMBER | SyntaxKind::JS_SETTER_OBJECT_MEMBER
            | SyntaxKind::JS_SHORTHAND_PROPERTY_OBJECT_MEMBER | SyntaxKind::JS_SPREAD
            | SyntaxKind::JS_BOGUS_MEMBER => SyntaxKind::JS_BOGUS_MEMBER,
            _ => SyntaxKind::JS_BOGUS,
        }
    }
}

} // verus!
