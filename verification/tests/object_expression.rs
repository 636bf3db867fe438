use js_object_parser::events::{Event, LexedToken};
use js_object_parser::parser::{
    DiagnosticKind, JsParser, ParseDiagnostic, ParsedSyntax, TsOnlySyntax,
};
use js_object_parser::syntax::object::{
    is_at_literal_member_name, is_at_object_member_name, is_nth_at_type_member_name,
    parse_computed_member_name, parse_getter_object_member, parse_literal_member_name,
    parse_method_object_member_body, parse_object_expression, parse_object_member,
    parse_object_member_name, parse_setter_object_member, ObjectMembersList, RecoveryError,
};
use js_object_parser::syntax::function::SignatureFlags;
use js_object_parser::syntax_kind::SyntaxKind;

fn keyword(word: &str) -> Option<SyntaxKind> {
    Some(match word {
        "break" => SyntaxKind::BREAK_KW,
        "case" => SyntaxKind::CASE_KW,
        "class" => SyntaxKind::CLASS_KW,
        "const" => SyntaxKind::CONST_KW,
        "delete" => SyntaxKind::DELETE_KW,
        "do" => SyntaxKind::DO_KW,
        "else" => SyntaxKind::ELSE_KW,
        "export" => SyntaxKind::EXPORT_KW,
        "extends" => SyntaxKind::EXTENDS_KW,
        "false" => SyntaxKind::FALSE_KW,
        "for" => SyntaxKind::FOR_KW,
        "function" => SyntaxKind::FUNCTION_KW,
        "if" => SyntaxKind::IF_KW,
        "import" => SyntaxKind::IMPORT_KW,
        "in" => SyntaxKind::IN_KW,
        "instanceof" => SyntaxKind::INSTANCEOF_KW,
        "new" => SyntaxKind::NEW_KW,
        "null" => SyntaxKind::NULL_KW,
        "return" => SyntaxKind::RETURN_KW,
        "super" => SyntaxKind::SUPER_KW,
        "switch" => SyntaxKind::SWITCH_KW,
        "this" => SyntaxKind::THIS_KW,
        "throw" => SyntaxKind::THROW_KW,
        "true" => SyntaxKind::TRUE_KW,
        "try" => SyntaxKind::TRY_KW,
        "typeof" => SyntaxKind::TYPEOF_KW,
        "var" => SyntaxKind::VAR_KW,
        "void" => SyntaxKind::VOID_KW,
        "while" => SyntaxKind::WHILE_KW,
        "with" => SyntaxKind::WITH_KW,
        "await" => SyntaxKind::AWAIT_KW,
        "yield" => SyntaxKind::YIELD_KW,
        "async" => SyntaxKind::ASYNC_KW,
        "get" => SyntaxKind::GET_KW,
        "set" => SyntaxKind::SET_KW,
        "of" => SyntaxKind::OF_KW,
        "let" => SyntaxKind::LET_KW,
        "static" => SyntaxKind::STATIC_KW,
        "as" => SyntaxKind::AS_KW,
        "is" => SyntaxKind::IS_KW,
        _ => return None,
    })
}

/// A small lexer for the test inputs.
fn lex(src: &str) -> Vec<LexedToken> {
    let chars: Vec<char> = src.chars().collect();
    let mut tokens: Vec<LexedToken> = Vec::new();
    let mut i = 0;
    let mut line_break = false;
    while i < chars.len() {
        let c = chars[i];
        if c == '\n' {
            line_break = true;
            i += 1;
            continue;
        }
        if c.is_whitespace() {
            i += 1;
            continue;
        }
        let kind;
        if c.is_ascii_alphabetic() || c == '_' || c == '$' {
            let start = i;
            while i < chars.len() && (chars[i].is_ascii_alphanumeric() || chars[i] == '_' || chars[i] == '$') {
                i += 1;
            }
            let word: String = chars[start..i].iter().collect();
            kind = keyword(&word).unwrap_or(SyntaxKind::IDENT);
        } else if c.is_ascii_digit() {
            while i < chars.len() && chars[i].is_ascii_digit() {
                i += 1;
            }
            if i < chars.len() && chars[i] == 'n' {
                i += 1;
                kind = SyntaxKind::JS_BIGINT_LITERAL;
            } else {
                kind = SyntaxKind::JS_NUMBER_LITERAL;
            }
        } else if c == '"' || c == '\'' {
            i += 1;
            while i < chars.len() && chars[i] != c {
                i += 1;
            }
            i += 1;
            kind = SyntaxKind::JS_STRING_LITERAL;
        } else if c == '/'
            && matches!(tokens.last(), Some(LexedToken { kind: SyntaxKind::COLON, .. }))
            && chars[i + 1..].iter().take_while(|c| **c != '\n').any(|c| *c == '/')
        {
            // A regular expression literal where an expression starts.
            i += 1;
            while chars[i] != '/' {
                i += 1;
            }
            i += 1;
            kind = SyntaxKind::JS_REGEX_LITERAL;
        } else if c == '.' && i + 2 < chars.len() && chars[i + 1] == '.' && chars[i + 2] == '.' {
            i += 3;
            kind = SyntaxKind::DOT3;
        } else if c == '=' && i + 1 < chars.len() && chars[i + 1] == '>' {
            i += 2;
            kind = SyntaxKind::FAT_ARROW;
        } else {
            i += 1;
            kind = match c {
                ';' => SyntaxKind::SEMICOLON,
                ',' => SyntaxKind::COMMA,
                '(' => SyntaxKind::L_PAREN,
                ')' => SyntaxKind::R_PAREN,
                '{' => SyntaxKind::L_CURLY,
                '}' => SyntaxKind::R_CURLY,
                '[' => SyntaxKind::L_BRACK,
                ']' => SyntaxKind::R_BRACK,
                '<' => SyntaxKind::L_ANGLE,
                '>' => SyntaxKind::R_ANGLE,
                '?' => SyntaxKind::QUESTION,
                ':' => SyntaxKind::COLON,
                '=' => SyntaxKind::EQ,
                '.' => SyntaxKind::DOT,
                '*' => SyntaxKind::STAR,
                '@' => SyntaxKind::AT,
                '+' => SyntaxKind::PLUS,
                '-' => SyntaxKind::MINUS,
                '/' => SyntaxKind::SLASH,
                '!' => SyntaxKind::BANG,
                '|' => SyntaxKind::PIPE,
                '&' => SyntaxKind::AMP,
                _ => SyntaxKind::ERROR_TOKEN,
            };
        }
        tokens.push(LexedToken { kind, has_preceding_line_break: line_break });
        line_break = false;
    }
    tokens
}

fn parser(src: &str, typescript: bool) -> JsParser {
    JsParser::new(lex(src), typescript).unwrap()
}

/// The kinds of the nodes that the events open, in order.
fn node_kinds(events: &[Event]) -> Vec<SyntaxKind> {
    events
        .iter()
        .filter_map(|e| match e {
            Event::Start { kind } => Some(*kind),
            _ => None,
        })
        .collect()
}

/// The kinds of the tokens that the events emit, in order.
fn token_kinds(events: &[Event]) -> Vec<SyntaxKind> {
    events
        .iter()
        .filter_map(|e| match e {
            Event::Token { kind } => Some(*kind),
            _ => None,
        })
        .collect()
}

/// Every `Finish` closes an earlier `Start`, and every `Start` is closed.
fn balanced(events: &[Event]) -> bool {
    let mut depth: i64 = 0;
    for e in events {
        match e {
            Event::Start { .. } => depth += 1,
            Event::Finish => depth -= 1,
            Event::Token { .. } => {}
        }
        if depth < 0 {
            return false;
        }
    }
    depth == 0
}

fn diagnostic_kinds(p: &JsParser) -> Vec<DiagnosticKind> {
    p.diagnostics().iter().map(|d| d.kind).collect()
}

/// The kinds of the members of the object literal that `events` holds.
fn member_kinds(events: &[Event]) -> Vec<SyntaxKind> {
    let mut depth = 0;
    let mut kinds = Vec::new();
    for e in events {
        match e {
            Event::Start { kind } => {
                depth += 1;
                if depth == 3 {
                    kinds.push(*kind);
                }
            }
            Event::Finish => depth -= 1,
            Event::Token { .. } => {}
        }
    }
    kinds
}

fn parse_object(src: &str, typescript: bool) -> JsParser {
    let mut p = parser(src, typescript);
    let r = parse_object_expression(&mut p);
    assert!(r.is_present());
    assert!(balanced(p.events()));
    assert_eq!(token_kinds(p.events()).len(), p.position());
    p
}

#[test]
fn empty_object() {
    let p = parse_object("{}", false);
    assert_eq!(
        p.events(),
        &vec![
            Event::Start { kind: SyntaxKind::JS_OBJECT_EXPRESSION },
            Event::Token { kind: SyntaxKind::L_CURLY },
            Event::Start { kind: SyntaxKind::JS_OBJECT_MEMBER_LIST },
            Event::Finish,
            Event::Token { kind: SyntaxKind::R_CURLY },
            Event::Finish,
        ]
    );
    assert!(p.diagnostics().is_empty());
}

#[test]
fn shorthand_with_trailing_comma() {
    let p = parse_object("{foo,}", false);
    assert_eq!(
        p.events(),
        &vec![
            Event::Start { kind: SyntaxKind::JS_OBJECT_EXPRESSION },
            Event::Token { kind: SyntaxKind::L_CURLY },
            Event::Start { kind: SyntaxKind::JS_OBJECT_MEMBER_LIST },
            Event::Start { kind: SyntaxKind::JS_SHORTHAND_PROPERTY_OBJECT_MEMBER },
            Event::Start { kind: SyntaxKind::JS_REFERENCE_IDENTIFIER },
            Event::Token { kind: SyntaxKind::IDENT },
            Event::Finish,
            Event::Finish,
            Event::Token { kind: SyntaxKind::COMMA },
            Event::Finish,
            Event::Token { kind: SyntaxKind::R_CURLY },
            Event::Finish,
        ]
    );
    assert!(p.diagnostics().is_empty());
}

#[test]
fn object_absent_leaves_parser_unchanged() {
    let mut p = parser("foo }", false);
    assert_eq!(parse_object_expression(&mut p), ParsedSyntax::Absent);
    assert!(p.events().is_empty());
    assert!(p.diagnostics().is_empty());
    assert_eq!(p.position(), 0);
}

#[test]
fn leading_comma_is_a_missing_member() {
    let p = parse_object("{, foo}", false);
    assert_eq!(member_kinds(p.events()), vec![SyntaxKind::JS_SHORTHAND_PROPERTY_OBJECT_MEMBER]);
    assert!(p.diagnostics().is_empty());
}

#[test]
fn missing_comma_is_reported() {
    let p = parse_object("{ foo bar }", false);
    assert_eq!(
        member_kinds(p.events()),
        vec![SyntaxKind::JS_SHORTHAND_PROPERTY_OBJECT_MEMBER, SyntaxKind::JS_SHORTHAND_PROPERTY_OBJECT_MEMBER]
    );
    assert_eq!(
        p.diagnostics(),
        &vec![ParseDiagnostic { kind: DiagnosticKind::ExpectedToken { kind: SyntaxKind::COMMA }, start: 2, end: 3 }]
    );
}

#[test]
fn missing_closing_brace_is_reported() {
    let p = parse_object("{ foo", false);
    assert_eq!(
        p.diagnostics(),
        &vec![ParseDiagnostic { kind: DiagnosticKind::ExpectedToken { kind: SyntaxKind::R_CURLY }, start: 2, end: 2 }]
    );
    assert_eq!(p.position(), 2);
}

#[test]
fn getter_members() {
    let src = "{ get foo() { return foo; }, get \"bar\"() { return \"bar\"; }, get [\"a\" + \"b\"]() { return \"a\" + \"b\" }, get 5() { return 5; }, get() { return \"x\"; } }";
    let p = parse_object(src, false);
    assert_eq!(
        member_kinds(p.events()),
        vec![
            SyntaxKind::JS_GETTER_OBJECT_MEMBER,
            SyntaxKind::JS_GETTER_OBJECT_MEMBER,
            SyntaxKind::JS_GETTER_OBJECT_MEMBER,
            SyntaxKind::JS_GETTER_OBJECT_MEMBER,
            SyntaxKind::JS_METHOD_OBJECT_MEMBER,
        ]
    );
    assert!(p.diagnostics().is_empty());
}

#[test]
fn setter_members() {
    let src = "{ set foo(value) { }, set a(value,) { }, set \"bar\"(value) { }, set [\"a\" + \"b\"](value) { }, set 5(value) { }, set() { return 1; } }";
    let p = parse_object(src, false);
    assert_eq!(
        member_kinds(p.events()),
        vec![
            SyntaxKind::JS_SETTER_OBJECT_MEMBER,
            SyntaxKind::JS_SETTER_OBJECT_MEMBER,
            SyntaxKind::JS_SETTER_OBJECT_MEMBER,
            SyntaxKind::JS_SETTER_OBJECT_MEMBER,
            SyntaxKind::JS_SETTER_OBJECT_MEMBER,
            SyntaxKind::JS_METHOD_OBJECT_MEMBER,
        ]
    );
    assert!(p.diagnostics().is_empty());
}

#[test]
fn setter_without_parameter_is_reported() {
    let p = parse_object("{ set foo() { return 5; } }", false);
    assert_eq!(member_kinds(p.events()), vec![SyntaxKind::JS_SETTER_OBJECT_MEMBER]);
    assert_eq!(diagnostic_kinds(&p), vec![DiagnosticKind::ExpectedParameter]);
}

#[test]
fn async_and_generator_methods() {
    let p = parse_object("{ async foo() {}, async *foo() {}, *foo() {} }", false);
    assert_eq!(
        member_kinds(p.events()),
        vec![SyntaxKind::JS_METHOD_OBJECT_MEMBER, SyntaxKind::JS_METHOD_OBJECT_MEMBER, SyntaxKind::JS_METHOD_OBJECT_MEMBER]
    );
    assert!(p.diagnostics().is_empty());
}

#[test]
fn async_on_its_own_line_is_a_shorthand() {
    let p = parse_object("{ async\n foo() {} }", false);
    assert_eq!(member_kinds(p.events())[0], SyntaxKind::JS_SHORTHAND_PROPERTY_OBJECT_MEMBER);
}

#[test]
fn spread_member() {
    let p = parse_object("{...foo}", false);
    assert_eq!(member_kinds(p.events()), vec![SyntaxKind::JS_SPREAD]);
    assert!(p.diagnostics().is_empty());
}

#[test]
fn spread_without_argument_is_reported() {
    let p = parse_object("{...}", false);
    assert_eq!(member_kinds(p.events()), vec![SyntaxKind::JS_SPREAD]);
    assert_eq!(diagnostic_kinds(&p), vec![DiagnosticKind::ExpectedExpressionAssignment]);
}

#[test]
fn shorthand_with_initializer_is_bogus() {
    let p = parse_object("{ arrow = () => {} }", false);
    assert_eq!(member_kinds(p.events()), vec![SyntaxKind::JS_BOGUS_MEMBER]);
    assert_eq!(
        p.diagnostics(),
        &vec![ParseDiagnostic { kind: DiagnosticKind::ShorthandPropertyInitializer, start: 2, end: 3 }]
    );
}

#[test]
fn method_members() {
    let p = parse_object("{ foo() {}, \"bar\"(a, b, c) {}, [\"foo\" + \"bar\"](a) {}, 5(...rest) {} }", false);
    assert_eq!(
        member_kinds(p.events()),
        vec![
            SyntaxKind::JS_METHOD_OBJECT_MEMBER,
            SyntaxKind::JS_METHOD_OBJECT_MEMBER,
            SyntaxKind::JS_METHOD_OBJECT_MEMBER,
            SyntaxKind::JS_METHOD_OBJECT_MEMBER,
        ]
    );
    assert!(p.diagnostics().is_empty());
}

#[test]
fn method_without_parameters_is_reported() {
    let p = parse_object("{ foo) }", false);
    assert!(diagnostic_kinds(&p).contains(&DiagnosticKind::ExpectedToken { kind: SyntaxKind::COMMA }));
}

#[test]
fn property_members() {
    let p = parse_object("{\"foo\": foo, [6 + 6]: foo, bar: foo, 7: foo}", false);
    assert_eq!(
        member_kinds(p.events()),
        vec![
            SyntaxKind::JS_PROPERTY_OBJECT_MEMBER,
            SyntaxKind::JS_PROPERTY_OBJECT_MEMBER,
            SyntaxKind::JS_PROPERTY_OBJECT_MEMBER,
            SyntaxKind::JS_PROPERTY_OBJECT_MEMBER,
        ]
    );
    assert!(p.diagnostics().is_empty());
}

#[test]
fn keyword_value_property() {
    let p = parse_object("{ a: true }", false);
    assert_eq!(member_kinds(p.events()), vec![SyntaxKind::JS_PROPERTY_OBJECT_MEMBER]);
    assert!(p.diagnostics().is_empty());
}

#[test]
fn property_value_with_in() {
    let p = parse_object("{ a: \"x\" in {} }", false);
    assert_eq!(member_kinds(p.events()), vec![SyntaxKind::JS_PROPERTY_OBJECT_MEMBER]);
    assert!(p.diagnostics().is_empty());
}

#[test]
fn computed_name_with_in() {
    let p = parse_object("{[\"x\" in {}]: 3}", false);
    assert_eq!(member_kinds(p.events()), vec![SyntaxKind::JS_PROPERTY_OBJECT_MEMBER]);
    assert!(node_kinds(p.events()).contains(&SyntaxKind::JS_COMPUTED_MEMBER_NAME));
    assert!(p.diagnostics().is_empty());
}

#[test]
fn invalid_property_names_recover() {
    let p = parse_object("{ /: 6, /: /foo/ }", false);
    assert_eq!(
        member_kinds(p.events()),
        vec![SyntaxKind::JS_PROPERTY_OBJECT_MEMBER, SyntaxKind::JS_PROPERTY_OBJECT_MEMBER]
    );
    assert!(node_kinds(p.events()).contains(&SyntaxKind::JS_BOGUS));
    assert_eq!(
        p.diagnostics(),
        &vec![
            ParseDiagnostic { kind: DiagnosticKind::ExpectedObjectMember, start: 1, end: 2 },
            ParseDiagnostic { kind: DiagnosticKind::ExpectedObjectMember, start: 5, end: 6 },
        ]
    );
}

#[test]
fn nested_braces_become_a_bogus_member() {
    let p = parse_object("{{}}", false);
    assert_eq!(member_kinds(p.events()), vec![SyntaxKind::JS_BOGUS_MEMBER]);
    assert_eq!(
        p.diagnostics(),
        &vec![ParseDiagnostic { kind: DiagnosticKind::ExpectedObjectMember, start: 1, end: 2 }]
    );
}

#[test]
fn literal_name_without_value_reports_once() {
    let p = parse_object("{5}", false);
    assert_eq!(member_kinds(p.events()), vec![SyntaxKind::JS_PROPERTY_OBJECT_MEMBER]);
    assert_eq!(
        p.diagnostics(),
        &vec![ParseDiagnostic { kind: DiagnosticKind::ExpectedToken { kind: SyntaxKind::COLON }, start: 2, end: 3 }]
    );
}

#[test]
fn getter_type_parameters_are_reported() {
    let p = parse_object("{ get a<A>(): A {} }", true);
    assert_eq!(member_kinds(p.events()), vec![SyntaxKind::JS_GETTER_OBJECT_MEMBER]);
    assert_eq!(diagnostic_kinds(&p), vec![DiagnosticKind::TsAccessorTypeParameters]);
}

#[test]
fn setter_return_type_is_reported() {
    let p = parse_object("{ set a(value: string): void {} }", true);
    assert_eq!(member_kinds(p.events()), vec![SyntaxKind::JS_SETTER_OBJECT_MEMBER]);
    assert_eq!(diagnostic_kinds(&p), vec![DiagnosticKind::TsSetAccessorReturnType]);
}

#[test]
fn typescript_method_bodies() {
    let src = "{ x<A>(maybeA: any): maybeA is A { return true }, y(a: string): string { return \"s\"; } }";
    let p = parse_object(src, true);
    assert_eq!(member_kinds(p.events()), vec![SyntaxKind::JS_METHOD_OBJECT_MEMBER, SyntaxKind::JS_METHOD_OBJECT_MEMBER]);
    assert!(p.diagnostics().is_empty());
    assert!(node_kinds(p.events()).contains(&SyntaxKind::TS_TYPE_PARAMETERS));
    assert!(node_kinds(p.events()).contains(&SyntaxKind::TS_RETURN_TYPE_ANNOTATION));
}

#[test]
fn typescript_syntax_in_javascript_is_bogus() {
    let p = parse_object("{ x<A>(a): A { } }", false);
    assert_eq!(member_kinds(p.events()), vec![SyntaxKind::JS_METHOD_OBJECT_MEMBER]);
    assert_eq!(
        diagnostic_kinds(&p),
        vec![
            DiagnosticKind::TsOnly { syntax: TsOnlySyntax::TypeParameters },
            DiagnosticKind::TsOnly { syntax: TsOnlySyntax::ReturnTypeAnnotation },
        ]
    );
    assert!(!node_kinds(p.events()).contains(&SyntaxKind::TS_TYPE_PARAMETERS));
}

#[test]
fn getter_annotation_in_javascript_is_reported() {
    let p = parse_object("{ get a(): A {} }", false);
    assert_eq!(
        diagnostic_kinds(&p),
        vec![DiagnosticKind::TsOnly { syntax: TsOnlySyntax::TypeAnnotation }]
    );
}

#[test]
fn setter_decorators_are_reported() {
    let p = parse_object("{ set val(@dec.fn() x) {} }", true);
    assert_eq!(member_kinds(p.events()), vec![SyntaxKind::JS_SETTER_OBJECT_MEMBER]);
    assert_eq!(diagnostic_kinds(&p), vec![DiagnosticKind::DecoratorsNotAllowed]);
    assert!(node_kinds(p.events()).contains(&SyntaxKind::JS_BOGUS));
    assert!(!node_kinds(p.events()).contains(&SyntaxKind::JS_DECORATOR_LIST));
}

#[test]
fn type_member_name_lookahead() {
    let p = parser("get \"a\" 5 [ ident await yield if ( ", false);
    assert!(!is_nth_at_type_member_name(&p, 9));
    assert!(is_nth_at_type_member_name(&p, 0));
    for i in 1..8 {
        assert!(is_nth_at_type_member_name(&p, i));
    }
    assert!(!is_nth_at_type_member_name(&p, 8));
    assert!(is_at_object_member_name(&p));
    assert!(is_at_literal_member_name(&p, 1));
    assert!(is_at_literal_member_name(&p, 2));
    assert!(!is_at_literal_member_name(&p, 3));
}

#[test]
fn literal_member_name_remaps_keywords() {
    let mut p = parser("if", false);
    assert!(parse_literal_member_name(&mut p).is_present());
    assert_eq!(
        p.events(),
        &vec![
            Event::Start { kind: SyntaxKind::JS_LITERAL_MEMBER_NAME },
            Event::Token { kind: SyntaxKind::IDENT },
            Event::Finish,
        ]
    );
    let mut p = parser("(", false);
    assert_eq!(parse_literal_member_name(&mut p), ParsedSyntax::Absent);
    assert!(p.events().is_empty());
}

#[test]
fn metavariable_member_name() {
    let tokens = vec![LexedToken { kind: SyntaxKind::GRIT_METAVARIABLE, has_preceding_line_break: false }];
    let mut p = JsParser::new(tokens, false).unwrap();
    assert!(parse_object_member_name(&mut p).is_present());
    assert_eq!(
        p.events(),
        &vec![
            Event::Start { kind: SyntaxKind::JS_METAVARIABLE },
            Event::Token { kind: SyntaxKind::GRIT_METAVARIABLE },
            Event::Finish,
        ]
    );
}

#[test]
fn computed_member_name_without_expression() {
    let mut p = parser("[]", false);
    assert!(parse_computed_member_name(&mut p).is_present());
    assert_eq!(diagnostic_kinds(&p), vec![DiagnosticKind::ExpectedExpression]);
    let mut p = parser("a", false);
    assert_eq!(parse_computed_member_name(&mut p), ParsedSyntax::Absent);
}

#[test]
fn getter_and_setter_absent_elsewhere() {
    let mut p = parser("foo() {}", false);
    assert_eq!(parse_getter_object_member(&mut p), ParsedSyntax::Absent);
    assert_eq!(parse_setter_object_member(&mut p), ParsedSyntax::Absent);
    assert!(p.events().is_empty());
}

#[test]
fn member_absent_leaves_parser_unchanged() {
    let mut p = parser("; a", false);
    assert_eq!(parse_object_member(&mut p), ParsedSyntax::Absent);
    assert!(p.events().is_empty());
    assert!(p.diagnostics().is_empty());
    assert_eq!(p.position(), 0);
    let mut p = parser("/ a", false);
    assert_eq!(parse_object_member(&mut p), ParsedSyntax::Absent);
    assert!(p.events().is_empty());
    assert!(p.diagnostics().is_empty());
    assert_eq!(p.position(), 0);
}

#[test]
fn method_body_reports_missing_parts() {
    let mut p = parser("", false);
    parse_method_object_member_body(&mut p, SignatureFlags::empty());
    assert_eq!(diagnostic_kinds(&p), vec![DiagnosticKind::ExpectedParameters]);
}

#[test]
fn member_list_recovery() {
    let list = ObjectMembersList;
    assert_eq!(list.separating_element_kind(), SyntaxKind::COMMA);
    assert!(list.allow_trailing_separating_element());
    let mut p = parser("; a", false);
    assert_eq!(list.recover(&mut p, ParsedSyntax::Absent), Err(RecoveryError::AlreadyRecovered));
    assert_eq!(diagnostic_kinds(&p), vec![DiagnosticKind::ExpectedObjectMember]);
    let mut p = parser("", false);
    assert_eq!(list.recover(&mut p, ParsedSyntax::Absent), Err(RecoveryError::Eof));
    let mut p = parser("/ / \n a", false);
    assert!(list.recover(&mut p, ParsedSyntax::Absent).is_ok());
    assert_eq!(p.position(), 2);
    assert_eq!(node_kinds(p.events()), vec![SyntaxKind::JS_BOGUS_MEMBER]);
}

#[test]
fn parser_rejects_node_kinds() {
    let tokens = vec![LexedToken { kind: SyntaxKind::JS_OBJECT_EXPRESSION, has_preceding_line_break: false }];
    assert!(JsParser::new(tokens, false).is_none());
    let tokens = vec![LexedToken { kind: SyntaxKind::EOF, has_preceding_line_break: false }];
    assert!(JsParser::new(tokens, false).is_none());
}

#[test]
fn object_member_name_found_where_expected() {
    for src in ["get", "\"a\"", "5", "[a]", "ident", "await", "yield", "if", "(", ";", "/"] {
        let mut p = parser(src, false);
        let at_name = is_at_object_member_name(&p);
        let found = parse_object_member_name(&mut p).is_present();
        assert!(!at_name || found, "{src}");
    }
}

#[test]
fn checkpoint_and_rewind_restore_the_parser() {
    let mut p = parser("a : b", false);
    let m = p.start();
    let checkpoint = p.checkpoint();
    p.bump_any();
    p.error_at_cur(DiagnosticKind::ExpectedExpression);
    p.bump_any();
    p.rewind(checkpoint);
    assert_eq!(p.position(), 0);
    assert_eq!(p.events(), &vec![Event::Start { kind: SyntaxKind::TOMBSTONE }]);
    assert!(p.diagnostics().is_empty());
    p.abandon(m);
    assert!(p.events().is_empty());
}

#[test]
fn diagnostics_at_the_same_start_are_dropped() {
    let mut p = parser("a", false);
    p.error_at_cur(DiagnosticKind::ExpectedExpression);
    p.error_at_cur(DiagnosticKind::ExpectedObjectMember);
    assert_eq!(diagnostic_kinds(&p), vec![DiagnosticKind::ExpectedExpression]);
}

/// Parses one member from the start of `src`; its kind, or `None` when absent.
fn parse_member(src: &str) -> (JsParser, Option<SyntaxKind>) {
    let mut p = parser(src, false);
    let kind = match parse_object_member(&mut p) {
        ParsedSyntax::Present(m) => Some(p.kind(&m)),
        ParsedSyntax::Absent => None,
    };
    assert!(balanced(p.events()));
    (p, kind)
}

#[test]
fn members_are_consumed_whole() {
    let cases = [
        ("get foo() { return foo; }", SyntaxKind::JS_GETTER_OBJECT_MEMBER),
        ("get \"bar\"() { return \"bar\"; }", SyntaxKind::JS_GETTER_OBJECT_MEMBER),
        ("get [\"a\" + \"b\"]() { return \"a\" + \"b\" }", SyntaxKind::JS_GETTER_OBJECT_MEMBER),
        ("get 5() { return 5; }", SyntaxKind::JS_GETTER_OBJECT_MEMBER),
        ("get() {}", SyntaxKind::JS_METHOD_OBJECT_MEMBER),
        ("set foo(value) { }", SyntaxKind::JS_SETTER_OBJECT_MEMBER),
        ("set() { return 1; }", SyntaxKind::JS_METHOD_OBJECT_MEMBER),
        ("...foo", SyntaxKind::JS_SPREAD),
        ("a: true", SyntaxKind::JS_PROPERTY_OBJECT_MEMBER),
        ("\"foo\": foo", SyntaxKind::JS_PROPERTY_OBJECT_MEMBER),
        ("[6 + 6]: foo", SyntaxKind::JS_PROPERTY_OBJECT_MEMBER),
        ("bar: foo", SyntaxKind::JS_PROPERTY_OBJECT_MEMBER),
        ("7: foo", SyntaxKind::JS_PROPERTY_OBJECT_MEMBER),
        ("foo() {}", SyntaxKind::JS_METHOD_OBJECT_MEMBER),
        ("\"bar\"(a, b, c) {}", SyntaxKind::JS_METHOD_OBJECT_MEMBER),
        ("[\"foo\" + \"bar\"](a) {}", SyntaxKind::JS_METHOD_OBJECT_MEMBER),
        ("5(...rest) {}", SyntaxKind::JS_METHOD_OBJECT_MEMBER),
        ("*foo() {}", SyntaxKind::JS_METHOD_OBJECT_MEMBER),
        ("async foo() {}", SyntaxKind::JS_METHOD_OBJECT_MEMBER),
        ("async *foo() {}", SyntaxKind::JS_METHOD_OBJECT_MEMBER),
    ];
    for (src, kind) in cases {
        let (p, found) = parse_member(src);
        assert_eq!(found, Some(kind), "{src}");
        assert!(p.at(SyntaxKind::EOF), "{src}");
        assert!(p.diagnostics().is_empty(), "{src}");
    }
}

#[test]
fn get_before_a_line_break_is_a_shorthand() {
    let (p, kind) = parse_member("get\nfoo");
    assert_eq!(kind, Some(SyntaxKind::JS_SHORTHAND_PROPERTY_OBJECT_MEMBER));
    assert_eq!(p.position(), 1);
    assert!(p.at(SyntaxKind::IDENT));
    assert!(p.diagnostics().is_empty());
}

#[test]
fn shorthand_stops_before_the_comma() {
    let (p, kind) = parse_member("foo, bar");
    assert_eq!(kind, Some(SyntaxKind::JS_SHORTHAND_PROPERTY_OBJECT_MEMBER));
    assert!(p.at(SyntaxKind::COMMA));
    assert!(p.diagnostics().is_empty());
}

#[test]
fn shorthand_initializer_is_consumed() {
    let (p, kind) = parse_member("arrow = () => {}");
    assert_eq!(kind, Some(SyntaxKind::JS_BOGUS_MEMBER));
    assert!(p.at(SyntaxKind::EOF));
    assert_eq!(diagnostic_kinds(&p), vec![DiagnosticKind::ShorthandPropertyInitializer]);
}

#[test]
fn invalid_name_recovers_up_to_the_comma() {
    let (p, kind) = parse_member("/ : 6 , /: /foo/");
    assert_eq!(kind, Some(SyntaxKind::JS_PROPERTY_OBJECT_MEMBER));
    assert!(p.at(SyntaxKind::COMMA));
    assert_eq!(
        p.diagnostics(),
        &vec![ParseDiagnostic { kind: DiagnosticKind::ExpectedObjectMember, start: 0, end: 1 }]
    );
    let (p, kind) = parse_member("{ } }");
    assert_eq!(kind, None);
    assert_eq!(p.position(), 0);
    assert!(p.diagnostics().is_empty());
}

#[test]
fn property_without_colon_reports_it_after_the_name() {
    let (p, kind) = parse_member("\"a\" 1");
    assert_eq!(kind, Some(SyntaxKind::JS_PROPERTY_OBJECT_MEMBER));
    assert!(p.at(SyntaxKind::EOF));
    assert_eq!(
        p.diagnostics(),
        &vec![ParseDiagnostic { kind: DiagnosticKind::ExpectedToken { kind: SyntaxKind::COLON }, start: 1, end: 2 }]
    );
}

#[test]
fn computed_name_without_closing_bracket_is_reported() {
    let mut p = parser("[a b", false);
    assert!(parse_computed_member_name(&mut p).is_present());
    assert!(p.at(SyntaxKind::EOF));
    assert_eq!(
        p.diagnostics(),
        &vec![ParseDiagnostic { kind: DiagnosticKind::ExpectedToken { kind: SyntaxKind::R_BRACK }, start: 3, end: 3 }]
    );
}

#[test]
fn empty_type_parameters_are_reported() {
    let p = parse_object("{ get a<>(): A {} }", true);
    assert_eq!(member_kinds(p.events()), vec![SyntaxKind::JS_GETTER_OBJECT_MEMBER]);
    assert_eq!(
        diagnostic_kinds(&p),
        vec![DiagnosticKind::ExpectedTypeParameter, DiagnosticKind::TsAccessorTypeParameters]
    );
}

#[test]
fn setter_with_two_parameters_is_reported() {
    let (p, kind) = parse_member("set a(b, c) {}");
    assert_eq!(kind, Some(SyntaxKind::JS_SETTER_OBJECT_MEMBER));
    assert_eq!(p.position(), 5);
    assert_eq!(
        p.diagnostics(),
        &vec![ParseDiagnostic { kind: DiagnosticKind::ExpectedToken { kind: SyntaxKind::R_PAREN }, start: 5, end: 6 }]
    );
}

#[test]
fn object_literal_is_consumed_whole() {
    let p = parse_object("{ a: b, \"b\": 5 + 5 }", false);
    assert!(p.at(SyntaxKind::EOF));
    assert!(p.diagnostics().is_empty());
    assert_eq!(
        member_kinds(p.events()),
        vec![SyntaxKind::JS_PROPERTY_OBJECT_MEMBER, SyntaxKind::JS_PROPERTY_OBJECT_MEMBER]
    );
}

#[test]
fn getter_children_come_in_order() {
    let mut p = parser("get a() {}", false);
    assert!(parse_getter_object_member(&mut p).is_present());
    assert_eq!(
        p.events(),
        &vec![
            Event::Start { kind: SyntaxKind::JS_GETTER_OBJECT_MEMBER },
            Event::Token { kind: SyntaxKind::GET_KW },
            Event::Start { kind: SyntaxKind::JS_LITERAL_MEMBER_NAME },
            Event::Token { kind: SyntaxKind::IDENT },
            Event::Finish,
            Event::Token { kind: SyntaxKind::L_PAREN },
            Event::Token { kind: SyntaxKind::R_PAREN },
            Event::Start { kind: SyntaxKind::JS_FUNCTION_BODY },
            Event::Token { kind: SyntaxKind::L_CURLY },
            Event::Token { kind: SyntaxKind::R_CURLY },
            Event::Finish,
            Event::Finish,
        ]
    );
    assert!(p.diagnostics().is_empty());
}

#[test]
fn getter_without_body_is_reported() {
    let mut p = parser("get a(", false);
    assert!(parse_getter_object_member(&mut p).is_present());
    assert!(p.at(SyntaxKind::EOF));
    assert_eq!(
        p.diagnostics(),
        &vec![ParseDiagnostic { kind: DiagnosticKind::ExpectedToken { kind: SyntaxKind::R_PAREN }, start: 3, end: 3 }]
    );
}

#[test]
fn method_flags_decide_yield_and_await() {
    let mut p = parser("(param) { yield await param }", false);
    parse_method_object_member_body(&mut p, SignatureFlags { is_async: true, is_generator: true });
    assert!(p.at(SyntaxKind::EOF));
    assert!(p.diagnostics().is_empty());
    let mut p = parser("(param) { yield await param }", false);
    parse_method_object_member_body(&mut p, SignatureFlags::empty());
    assert!(p.at(SyntaxKind::EOF));
    assert_eq!(
        p.diagnostics(),
        &vec![
            ParseDiagnostic { kind: DiagnosticKind::YieldOutsideGenerator, start: 4, end: 5 },
            ParseDiagnostic { kind: DiagnosticKind::AwaitOutsideAsync, start: 5, end: 6 },
        ]
    );
}

#[test]
fn async_and_generator_methods_allow_await_and_yield() {
    let (p, kind) = parse_member("async *foo(a = await b) { yield await a }");
    assert_eq!(kind, Some(SyntaxKind::JS_METHOD_OBJECT_MEMBER));
    assert!(p.diagnostics().is_empty());
    let (p, _) = parse_member("async foo() { yield 1 }");
    assert_eq!(diagnostic_kinds(&p), vec![DiagnosticKind::YieldOutsideGenerator]);
    let (p, _) = parse_member("*foo() { await 1 }");
    assert_eq!(diagnostic_kinds(&p), vec![DiagnosticKind::AwaitOutsideAsync]);
    let (p, _) = parse_member("get a() { await 1 }");
    assert_eq!(diagnostic_kinds(&p), vec![DiagnosticKind::AwaitOutsideAsync]);
}

#[test]
fn shorthand_member_holds_a_reference_identifier() {
    let (p, kind) = parse_member("foo");
    assert_eq!(kind, Some(SyntaxKind::JS_SHORTHAND_PROPERTY_OBJECT_MEMBER));
    assert_eq!(
        p.events(),
        &vec![
            Event::Start { kind: SyntaxKind::JS_SHORTHAND_PROPERTY_OBJECT_MEMBER },
            Event::Start { kind: SyntaxKind::JS_REFERENCE_IDENTIFIER },
            Event::Token { kind: SyntaxKind::IDENT },
            Event::Finish,
            Event::Finish,
        ]
    );
}

#[test]
fn setter_children_come_in_order() {
    let (p, kind) = parse_member("set a(v,) {}");
    assert_eq!(kind, Some(SyntaxKind::JS_SETTER_OBJECT_MEMBER));
    assert_eq!(
        p.events(),
        &vec![
            Event::Start { kind: SyntaxKind::JS_SETTER_OBJECT_MEMBER },
            Event::Token { kind: SyntaxKind::SET_KW },
            Event::Start { kind: SyntaxKind::JS_LITERAL_MEMBER_NAME },
            Event::Token { kind: SyntaxKind::IDENT },
            Event::Finish,
            Event::Token { kind: SyntaxKind::L_PAREN },
            Event::Start { kind: SyntaxKind::JS_FORMAL_PARAMETER },
            Event::Token { kind: SyntaxKind::IDENT },
            Event::Finish,
            Event::Token { kind: SyntaxKind::COMMA },
            Event::Token { kind: SyntaxKind::R_PAREN },
            Event::Start { kind: SyntaxKind::JS_FUNCTION_BODY },
            Event::Token { kind: SyntaxKind::L_CURLY },
            Event::Token { kind: SyntaxKind::R_CURLY },
            Event::Finish,
            Event::Finish,
        ]
    );
    assert!(p.diagnostics().is_empty());
}

#[test]
fn property_value_in_expression() {
    let (p, kind) = parse_member("a: \"x\" in {}");
    assert_eq!(kind, Some(SyntaxKind::JS_PROPERTY_OBJECT_MEMBER));
    assert!(p.at(SyntaxKind::EOF));
    assert!(p.diagnostics().is_empty());
    assert_eq!(
        node_kinds(p.events()),
        vec![
            SyntaxKind::JS_PROPERTY_OBJECT_MEMBER,
            SyntaxKind::JS_LITERAL_MEMBER_NAME,
            SyntaxKind::JS_IN_EXPRESSION,
            SyntaxKind::JS_STRING_LITERAL_EXPRESSION,
            SyntaxKind::JS_OBJECT_EXPRESSION,
            SyntaxKind::JS_OBJECT_MEMBER_LIST,
        ]
    );
}

#[test]
fn computed_member_name_in_expression() {
    let mut p = parser("[\"x\" in {}]", false);
    assert!(parse_computed_member_name(&mut p).is_present());
    assert!(p.at(SyntaxKind::EOF));
    assert!(p.diagnostics().is_empty());
    assert_eq!(
        node_kinds(p.events())[..3],
        [SyntaxKind::JS_COMPUTED_MEMBER_NAME, SyntaxKind::JS_IN_EXPRESSION, SyntaxKind::JS_STRING_LITERAL_EXPRESSION]
    );
}

#[test]
fn binary_operators_follow_precedence() {
    let (p, _) = parse_member("a: b + c * d in e");
    assert_eq!(
        node_kinds(p.events()),
        vec![
            SyntaxKind::JS_PROPERTY_OBJECT_MEMBER,
            SyntaxKind::JS_LITERAL_MEMBER_NAME,
            SyntaxKind::JS_IN_EXPRESSION,
            SyntaxKind::JS_BINARY_EXPRESSION,
            SyntaxKind::JS_IDENTIFIER_EXPRESSION,
            SyntaxKind::JS_REFERENCE_IDENTIFIER,
            SyntaxKind::JS_BINARY_EXPRESSION,
            SyntaxKind::JS_IDENTIFIER_EXPRESSION,
            SyntaxKind::JS_REFERENCE_IDENTIFIER,
            SyntaxKind::JS_IDENTIFIER_EXPRESSION,
            SyntaxKind::JS_REFERENCE_IDENTIFIER,
            SyntaxKind::JS_IDENTIFIER_EXPRESSION,
            SyntaxKind::JS_REFERENCE_IDENTIFIER,
        ]
    );
    let (p, _) = parse_member("a: 1 - -2");
    assert_eq!(
        node_kinds(p.events())[2..],
        [SyntaxKind::JS_BINARY_EXPRESSION, SyntaxKind::JS_NUMBER_LITERAL_EXPRESSION, SyntaxKind::JS_EXPRESSION]
    );
    let (p, _) = parse_member("a: b +");
    assert!(p.at(SyntaxKind::EOF));
    assert_eq!(diagnostic_kinds(&p), vec![DiagnosticKind::ExpectedExpression]);
}

#[test]
fn object_types_in_annotations() {
    let mut p = parser("get a(): {x: number} {}", true);
    assert!(parse_getter_object_member(&mut p).is_present());
    assert!(p.at(SyntaxKind::EOF));
    assert!(p.diagnostics().is_empty());
    assert!(node_kinds(p.events()).contains(&SyntaxKind::TS_TYPE_ANNOTATION));
    assert!(node_kinds(p.events()).contains(&SyntaxKind::JS_FUNCTION_BODY));
    let mut p = parser("set a(v: {x: number}) {}", true);
    assert!(parse_setter_object_member(&mut p).is_present());
    assert!(p.at(SyntaxKind::EOF));
    assert!(p.diagnostics().is_empty());
    let mut p = parser("x(): A | {y: B} {}", true);
    assert!(parse_object_member(&mut p).is_present());
    assert!(p.at(SyntaxKind::EOF));
    assert!(p.diagnostics().is_empty());
}

#[test]
fn nested_object_value() {
    let p = parse_object("{ a: { b: 1 }, c }", false);
    assert_eq!(
        node_kinds(p.events()),
        vec![
            SyntaxKind::JS_OBJECT_EXPRESSION,
            SyntaxKind::JS_OBJECT_MEMBER_LIST,
            SyntaxKind::JS_PROPERTY_OBJECT_MEMBER,
            SyntaxKind::JS_LITERAL_MEMBER_NAME,
            SyntaxKind::JS_OBJECT_EXPRESSION,
            SyntaxKind::JS_OBJECT_MEMBER_LIST,
            SyntaxKind::JS_PROPERTY_OBJECT_MEMBER,
            SyntaxKind::JS_LITERAL_MEMBER_NAME,
            SyntaxKind::JS_NUMBER_LITERAL_EXPRESSION,
            SyntaxKind::JS_SHORTHAND_PROPERTY_OBJECT_MEMBER,
            SyntaxKind::JS_REFERENCE_IDENTIFIER,
        ]
    );
    assert_eq!(
        member_kinds(p.events()),
        vec![SyntaxKind::JS_PROPERTY_OBJECT_MEMBER, SyntaxKind::JS_SHORTHAND_PROPERTY_OBJECT_MEMBER]
    );
    assert_eq!(p.position(), 11);
    assert!(p.diagnostics().is_empty());
}

#[test]
fn nested_object_in_computed_name() {
    let p = parse_object("{ [{}]: 1 }", false);
    assert_eq!(
        node_kinds(p.events()),
        vec![
            SyntaxKind::JS_OBJECT_EXPRESSION,
            SyntaxKind::JS_OBJECT_MEMBER_LIST,
            SyntaxKind::JS_PROPERTY_OBJECT_MEMBER,
            SyntaxKind::JS_COMPUTED_MEMBER_NAME,
            SyntaxKind::JS_OBJECT_EXPRESSION,
            SyntaxKind::JS_OBJECT_MEMBER_LIST,
            SyntaxKind::JS_NUMBER_LITERAL_EXPRESSION,
        ]
    );
    assert_eq!(p.position(), 8);
    assert!(p.diagnostics().is_empty());
}

#[test]
fn nested_object_closes_before_the_outer_one() {
    let p = parse_object("{ a: { b: 1 }", false);
    assert_eq!(member_kinds(p.events()), vec![SyntaxKind::JS_PROPERTY_OBJECT_MEMBER]);
    assert_eq!(p.position(), 8);
    assert_eq!(p.diagnostics().len(), 1);
    assert_eq!(p.diagnostics()[0].kind, DiagnosticKind::ExpectedToken { kind: SyntaxKind::R_CURLY });
    assert_eq!(p.diagnostics()[0].start, 8);
}

#[test]
fn setter_decorators_become_one_bogus_node() {
    let p = parse_object("{ set a(@x @y.z(1) v) {} }", false);
    assert_eq!(
        node_kinds(p.events()),
        vec![
            SyntaxKind::JS_OBJECT_EXPRESSION,
            SyntaxKind::JS_OBJECT_MEMBER_LIST,
            SyntaxKind::JS_SETTER_OBJECT_MEMBER,
            SyntaxKind::JS_LITERAL_MEMBER_NAME,
            SyntaxKind::JS_BOGUS,
            SyntaxKind::JS_DECORATOR,
            SyntaxKind::JS_DECORATOR,
            SyntaxKind::JS_CALL_ARGUMENTS,
            SyntaxKind::JS_FORMAL_PARAMETER,
            SyntaxKind::JS_FUNCTION_BODY,
        ]
    );
    assert_eq!(
        p.diagnostics(),
        &vec![ParseDiagnostic { kind: DiagnosticKind::DecoratorsNotAllowed, start: 4, end: 13 }]
    );
}
