use vstd::prelude::*;

use crate::events::{forest, lemma_net_concat, net, start_kind, Event, LexedToken};
use crate::parser::{
    grows, reached, lemma_node_events, lemma_bumped_grows, lemma_completed, lemma_diagnosed_grows, lemma_grows_keeps,
    lemma_grows_refl, lemma_grows_trans, lemma_parsed_grows, lemma_renamed_node, law_rewind_restores,
    or_add_diagnostic, parsed, prefix_of, result_kind, CompletedMarker, DiagnosticKind, JsParser, ParseDiagnostic,
    ParsedSyntax, ParserState, TsOnlySyntax,
};
use crate::syntax::balanced::{run_end, run_end_from, run_stops_at, token_events, RunEnd};
use crate::syntax::expr::{
    binary_events, bracket_delta, depth_from,
    expression_events, expression_after, is_nth_at_reference_identifier, parse_assignment_expression_or_higher,
    parse_expression, parse_reference_identifier, reference_identifier, starts_expression,
    value_after,
};
use crate::syntax::function::{
    body_after, body_events, decorators_after, decorators_events, formal_parameter_events,
    parameters_after, parameters_events, plain, parse_decorators, parse_formal_parameter, parse_function_body,
    parse_parameter_list, SignatureFlags,
};
use crate::syntax::metavariable::parse_metavariable;
use crate::syntax::typescript::{
    parse_ts_return_type_annotation, parse_ts_type_parameters, parse_typescript_only, ts_after,
    ts_diagnostics, ts_end, ts_events, ts_node_events,
};
use crate::syntax_kind::{keyword, SyntaxKind};

verus! {

/// Tokens with which the name of a type member or an accessor can start.
pub open spec fn type_member_name_start(k: SyntaxKind) -> bool {
    ||| keyword(k)
    ||| k == SyntaxKind::JS_STRING_LITERAL
    ||| k == SyntaxKind::JS_NUMBER_LITERAL
    ||| k == SyntaxKind::IDENT
    ||| k == SyntaxKind::AWAIT_KW
    ||| k == SyntaxKind::YIELD_KW
    ||| k == SyntaxKind::L_BRACK
}

/// Tokens that are a literal member name on their own.
pub open spec fn literal_member_name_start(k: SyntaxKind) -> bool {
    ||| k == SyntaxKind::JS_STRING_LITERAL
    ||| k == SyntaxKind::JS_NUMBER_LITERAL
    ||| k == SyntaxKind::IDENT
    ||| keyword(k)
}

/// Tokens with which an object member name starts.
pub open spec fn member_name_start(k: SyntaxKind) -> bool {
    k == SyntaxKind::L_BRACK || k == SyntaxKind::GRIT_METAVARIABLE || literal_member_name_start(k)
}

/// The kind of the member name node that starts with `k`.
pub open spec fn member_name_kind(k: SyntaxKind) -> SyntaxKind {
    if k == SyntaxKind::L_BRACK {
        SyntaxKind::JS_COMPUTED_MEMBER_NAME
    } else if k == SyntaxKind::GRIT_METAVARIABLE {
        SyntaxKind::JS_METAVARIABLE
    } else {
        SyntaxKind::JS_LITERAL_MEMBER_NAME
    }
}

/// The kind that a literal member name token is emitted with.
pub open spec fn literal_name_token(k: SyntaxKind) -> SyntaxKind {
    if keyword(k) {
        SyntaxKind::IDENT
    } else {
        k
    }
}

/// `async` that starts a method: on the same line as a member name or a `*`.
pub open spec fn async_method_start(s: ParserState) -> bool {
    &&& s.cur() == SyntaxKind::ASYNC_KW
    &&& !s.nth_line_break(1)
    &&& (type_member_name_start(s.nth(1)) || s.nth(1) == SyntaxKind::STAR)
}

/// `get` that starts a getter: on the same line as a member name.
pub open spec fn getter_start(s: ParserState) -> bool {
    s.cur() == SyntaxKind::GET_KW && !s.nth_line_break(1) && type_member_name_start(s.nth(1))
}

/// `set` that starts a setter: on the same line as a member name.
pub open spec fn setter_start(s: ParserState) -> bool {
    s.cur() == SyntaxKind::SET_KW && !s.nth_line_break(1) && type_member_name_start(s.nth(1))
}

/// The members that the current token alone tells apart.
pub open spec fn keyword_member_start(s: ParserState) -> bool {
    ||| getter_start(s)
    ||| setter_start(s)
    ||| async_method_start(s)
    ||| s.cur() == SyntaxKind::DOT3
    ||| s.cur() == SyntaxKind::STAR
}

/// A shorthand property `{ a }`: a reference identifier that no `(`, `<` or `:`
/// follows.
pub open spec fn shorthand_start(s: ParserState) -> bool {
    &&& reference_identifier(s.cur())
    &&& s.nth(1) != SyntaxKind::L_PAREN
    &&& s.nth(1) != SyntaxKind::L_ANGLE
    &&& s.nth(1) != SyntaxKind::COLON
}

/// Tokens before which the one-token recovery of a member stops.
pub open spec fn single_token_recovered(k: SyntaxKind) -> bool {
    ||| k == SyntaxKind::COLON
    ||| k == SyntaxKind::COMMA
    ||| k == SyntaxKind::L_CURLY
    ||| k == SyntaxKind::R_CURLY
    ||| k == SyntaxKind::EOF
}

/// No object member starts at the current token: no member kind matches, and after
/// the one-token recovery there is no `:`.
pub open spec fn member_absent(s: ParserState) -> bool {
    &&& !keyword_member_start(s)
    &&& !shorthand_start(s)
    &&& !member_name_start(s.cur())
    &&& s.cur() != SyntaxKind::L_PAREN
    &&& s.cur() != SyntaxKind::L_ANGLE
    &&& if single_token_recovered(s.cur()) {
        s.cur() != SyntaxKind::COLON
    } else {
        s.nth(1) != SyntaxKind::COLON
    }
}

/// The index of the first token from the index `i` on before which the recovery of
/// a list member stops: a `,`, `}`, `;` or `:`, or a token after a line break; the
/// end of the stream when there is none.
pub open spec fn recovery_end_from(toks: Seq<LexedToken>, i: int) -> int
    decreases toks.len() - i,
{
    if i >= toks.len() {
        toks.len() as int
    } else if toks[i].kind == SyntaxKind::COMMA || toks[i].kind == SyntaxKind::R_CURLY
        || toks[i].kind == SyntaxKind::SEMICOLON || toks[i].kind == SyntaxKind::COLON
        || toks[i].has_preceding_line_break {
        i
    } else {
        recovery_end_from(toks, i + 1)
    }
}

/// The node kinds of object members.
pub open spec fn member_kind(k: SyntaxKind) -> bool {
    ||| k == SyntaxKind::JS_GETTER_OBJECT_MEMBER
    ||| k == SyntaxKind::JS_SETTER_OBJECT_MEMBER
    ||| k == SyntaxKind::JS_METHOD_OBJECT_MEMBER
    ||| k == SyntaxKind::JS_SPREAD
    ||| k == SyntaxKind::JS_SHORTHAND_PROPERTY_OBJECT_MEMBER
    ||| k == SyntaxKind::JS_PROPERTY_OBJECT_MEMBER
    ||| k == SyntaxKind::JS_BOGUS_MEMBER
}

/// Tokens before which the recovery of a list member stops.
pub open spec fn member_recovered(s: ParserState) -> bool {
    ||| s.cur() == SyntaxKind::COMMA
    ||| s.cur() == SyntaxKind::R_CURLY
    ||| s.cur() == SyntaxKind::SEMICOLON
    ||| s.cur() == SyntaxKind::COLON
    ||| s.nth_line_break(0)
}

/// Where the member list stops: at a `}`, a `;` or a `:`, before a line break, or at
/// the end of the stream.
pub open spec fn list_stopped(s: ParserState) -> bool {
    ||| s.cur() == SyntaxKind::EOF
    ||| s.cur() == SyntaxKind::R_CURLY
    ||| s.cur() == SyntaxKind::SEMICOLON
    ||| s.cur() == SyntaxKind::COLON
    ||| s.nth_line_break(0)
}

/// Whether the member name that starts at the current token ends where
/// `name_after` says: every name but a computed one whose expression is an object
/// literal whose member list `list_after` leaves open.
pub open spec fn name_known(s: ParserState) -> bool
    decreases tokens_left(s), 27int,
{
    let s = s.cursor();
    s.cur() != SyntaxKind::L_BRACK || object_known(s.skipped())
}

/// How many tokens are left from the current one on.
pub open spec fn tokens_left(s: ParserState) -> nat {
    if s.pos < s.tokens.len() {
        (s.tokens.len() - s.pos) as nat
    } else {
        0
    }
}

/// Where the parser stands after the object literal at the current `{`: after its
/// member list, as `list_after` says, and the expected `}`.
pub open spec fn object_after(s: ParserState) -> ParserState
    decreases tokens_left(s), 10int,
{
    let s = s.cursor();
    if s.cur() == SyntaxKind::L_CURLY {
        match list_after(s.skipped(), true) {
            Some(c) => c.expected(SyntaxKind::R_CURLY),
            None => s,
        }
    } else {
        s
    }
}

/// Whether the object literal that starts at the current token, if one does, ends
/// where `object_after` says: its member list ends where `list_after` says.
pub open spec fn object_known(s: ParserState) -> bool
    decreases tokens_left(s), 10int,
{
    let s = s.cursor();
    s.cur() != SyntaxKind::L_CURLY || list_after(s.skipped(), true) is Some
}

/// Where the parser stands after a value that a rule requires: after the object
/// literal at a `{`, after the expression otherwise, or with a diagnostic of the
/// kind `missing` when no expression starts at the current token.
pub open spec fn member_value_after(s: ParserState, mode: RunEnd, missing: DiagnosticKind) -> ParserState
    decreases tokens_left(s), 20int,
{
    let s = s.cursor();
    if s.cur() == SyntaxKind::L_CURLY {
        object_after(s)
    } else {
        value_after(s, mode, missing)
    }
}

/// Where the parser stands after an optional expression: after the object literal
/// at a `{`, after the expression otherwise, or where it was.
pub open spec fn nested_expression_after(s: ParserState, mode: RunEnd) -> ParserState
    decreases tokens_left(s), 20int,
{
    let s = s.cursor();
    if s.cur() == SyntaxKind::L_CURLY {
        object_after(s)
    } else {
        expression_after(s, mode)
    }
}

/// Where the parser stands after the computed member name that starts at the
/// current `[`: after the expression, or with it reported as missing, and after
/// the expected `]`.
pub open spec fn computed_name_after(s: ParserState) -> ParserState
    decreases tokens_left(s), 28int,
{
    let s = s.cursor();
    member_value_after(s.skipped(), RunEnd::Sequence, DiagnosticKind::ExpectedExpression).expected(
        SyntaxKind::R_BRACK,
    )
}

/// Where the parser stands after the member name that starts at the current token.
pub open spec fn name_after(s: ParserState) -> ParserState
    decreases tokens_left(s), 29int,
{
    let s = s.cursor();
    if s.cur() == SyntaxKind::L_BRACK {
        computed_name_after(s)
    } else {
        s.skipped()
    }
}

/// Where the parser stands after a member name that a rule requires: after the
/// name, or with a diagnostic of the kind `missing` when none starts here.
pub open spec fn required_name_after(s: ParserState, missing: DiagnosticKind) -> ParserState
    decreases tokens_left(s), 30int,
{
    let s = s.cursor();
    if member_name_start(s.cur()) {
        name_after(s)
    } else {
        s.reported(missing)
    }
}

/// Where the parser stands after the type parameters that an accessor may not have:
/// after them, with them reported, when the current token is `<`.
pub open spec fn accessor_type_parameters_after(s: ParserState) -> ParserState {
    let s = s.cursor();
    if s.cur() != SyntaxKind::L_ANGLE {
        s
    } else {
        let t = s.moved(
            ts_end(s, TsOnlySyntax::TypeParameters),
            ts_diagnostics(s, TsOnlySyntax::TypeParameters),
        );
        t.with_diagnostics(
            t.diagnosed(
                ParseDiagnostic {
                    kind: DiagnosticKind::TsAccessorTypeParameters,
                    start: s.pos as usize,
                    end: t.pos as usize,
                },
            ),
        )
    }
}

/// Where the parser stands after the name and the type parameters of an accessor.
pub open spec fn accessor_head_after(s: ParserState) -> ParserState
    decreases tokens_left(s), 33int,
{
    let s = s.cursor();
    accessor_type_parameters_after(
        required_name_after(s, DiagnosticKind::ExpectedObjectMemberName),
    )
}

/// Where the parser stands after the getter that starts at the current `get`: the
/// name, the type parameters, the expected `(` and `)`, the type annotation and the
/// body.
pub open spec fn getter_after(s: ParserState) -> ParserState
    decreases tokens_left(s), 37int,
{
    let s = s.cursor();
    body_after(
        ts_after(
            accessor_head_after(s.skipped()).expected(SyntaxKind::L_PAREN).expected(
                SyntaxKind::R_PAREN,
            ),
            TsOnlySyntax::TypeAnnotation,
        ),
        plain(),
    )
}

/// Where the one parameter of a setter starts: after the decorators before it,
/// which are reported as not allowed there.
#[verifier::opaque]
pub open spec fn setter_parameter_head(s: ParserState) -> ParserState {
    let s = s.cursor();
    if s.cur() == SyntaxKind::AT {
        let x = decorators_after(s);
        x.with_diagnostics(
            x.diagnosed(
                ParseDiagnostic {
                    kind: DiagnosticKind::DecoratorsNotAllowed,
                    start: s.pos as usize,
                    end: x.pos as usize,
                },
            ),
        )
    } else {
        s
    }
}

/// Where the parser stands after the one parameter of a setter: after the
/// decorators before it, the parameter, or with it reported as missing, and an
/// optional `,`.
pub open spec fn setter_parameter_after(s: ParserState) -> ParserState {
    let s = setter_parameter_head(s.cursor());
    let t = if run_stops_at(RunEnd::Parameter, s.cur()) {
        s.reported(DiagnosticKind::ExpectedParameter)
    } else {
        s.moved(run_end(s, s.pos, RunEnd::Parameter), s.diagnostics)
    };
    if t.cur() == SyntaxKind::COMMA {
        t.skipped()
    } else {
        t
    }
}

/// Where the parser stands after the return type that a setter may not have:
/// after it, with it reported, when the current token is `:`.
pub open spec fn setter_return_type_after(s: ParserState) -> ParserState {
    let s = s.cursor();
    if s.cur() != SyntaxKind::COLON {
        s
    } else {
        let t = s.moved(ts_end(s, TsOnlySyntax::ReturnTypeAnnotation), s.diagnostics);
        t.with_diagnostics(
            t.diagnosed(
                ParseDiagnostic {
                    kind: DiagnosticKind::TsSetAccessorReturnType,
                    start: s.pos as usize,
                    end: t.pos as usize,
                },
            ),
        )
    }
}

/// Where the parameter of the setter that starts at the current `set` starts.
pub open spec fn setter_parameter_start(s: ParserState) -> ParserState
    decreases tokens_left(s), 35int,
{
    let s = s.cursor();
    accessor_head_after(s.skipped()).expected(SyntaxKind::L_PAREN)
}

/// Whether the setter that starts at the current `set` ends where `setter_after`
/// says: its name is known.
pub open spec fn setter_known(s: ParserState) -> bool
    decreases tokens_left(s), 37int,
{
    let s = s.cursor();
    name_known(s.skipped())
}

/// Where the parser stands after the setter that starts at the current `set`: the
/// name, the type parameters, the expected `(`, the parameter, the expected `)`,
/// the return type and the body.
pub open spec fn setter_after(s: ParserState) -> ParserState
    decreases tokens_left(s), 37int,
{
    let s = s.cursor();
    body_after(
        setter_return_type_after(
            setter_parameter_after(setter_parameter_start(s)).expected(SyntaxKind::R_PAREN),
        ),
        plain(),
    )
}

/// Where the parser stands after the body of a method with the flags `flags`, from
/// right after its name: the type parameters, the parameter list, the return type
/// and the function body.
pub open spec fn method_body_after(s: ParserState, flags: SignatureFlags) -> ParserState {
    let s = s.cursor();
    body_after(
        ts_after(
            parameters_after(ts_after(s, TsOnlySyntax::TypeParameters), flags),
            TsOnlySyntax::ReturnTypeAnnotation,
        ),
        flags,
    )
}

/// The flags of the method that starts at the current token: async after an
/// `async` that starts a method, a generator after a `*`.
pub open spec fn method_flags(s: ParserState) -> SignatureFlags {
    let a = async_method_start(s);
    SignatureFlags {
        is_async: a,
        is_generator: (if a {
            s.nth(1)
        } else {
            s.cur()
        }) == SyntaxKind::STAR,
    }
}

/// Where the name of the method that starts at the current token starts: after an
/// `async` that starts a method and after a `*`.
pub open spec fn method_name_start(s: ParserState) -> ParserState {
    let s = s.cursor();
    let a = if async_method_start(s) {
        s.skipped()
    } else {
        s
    };
    if a.cur() == SyntaxKind::STAR {
        a.skipped()
    } else {
        a
    }
}

/// Where the parser stands after the method that starts at the current token.
pub open spec fn method_after(s: ParserState) -> ParserState
    decreases tokens_left(s), 37int,
{
    let s = s.cursor();
    method_body_after(
        required_name_after(method_name_start(s), DiagnosticKind::ExpectedObjectMemberName),
        method_flags(s),
    )
}

/// Where the parser stands after the name of a member that starts with one, or
/// after the diagnostic of a missing member.
pub open spec fn named_member_name_after(s: ParserState) -> ParserState
    decreases tokens_left(s), 31int,
{
    let s = s.cursor();
    if member_name_start(s.cur()) {
        name_after(s)
    } else {
        s.reported(DiagnosticKind::ExpectedObjectMember)
    }
}

/// Where the value of a property whose name is missing starts: after the one
/// recovered token and the `:`.
pub open spec fn recovered_value_start(s: ParserState) -> ParserState
    decreases tokens_left(s), 32int,
{
    let s = s.cursor();
    let t = named_member_name_after(s);
    let u = if single_token_recovered(t.cur()) {
        t
    } else {
        t.skipped()
    };
    u.skipped()
}

/// The kind of the member that a name, or a missing name, starts: a shorthand
/// property, bogus after an initializer; a method when `(` or `<` follows the name;
/// a property otherwise.
pub open spec fn named_member_kind(s: ParserState) -> SyntaxKind {
    if shorthand_start(s) {
        if s.nth(1) == SyntaxKind::EQ {
            SyntaxKind::JS_BOGUS_MEMBER
        } else {
            SyntaxKind::JS_SHORTHAND_PROPERTY_OBJECT_MEMBER
        }
    } else {
        let t = named_member_name_after(s);
        if t.cur() == SyntaxKind::L_PAREN || t.cur() == SyntaxKind::L_ANGLE {
            SyntaxKind::JS_METHOD_OBJECT_MEMBER
        } else {
            SyntaxKind::JS_PROPERTY_OBJECT_MEMBER
        }
    }
}

/// Where the parser stands after the member that a name, or a missing name, starts.
pub open spec fn named_member_after(s: ParserState) -> ParserState
    decreases tokens_left(s), 37int,
{
    named_member_after_at(s.cursor())
}

/// `named_member_after` of a state with its events left out.
#[verifier::opaque]
pub open spec fn named_member_after_at(s: ParserState) -> ParserState
    decreases tokens_left(s), 34int,
{
    if shorthand_start(s) {
        if s.nth(1) == SyntaxKind::EQ {
            nested_expression_after(
                s.skipped().reported(DiagnosticKind::ShorthandPropertyInitializer).skipped(),
                RunEnd::Assignment,
            )
        } else {
            s.skipped()
        }
    } else {
        let t = named_member_name_after(s);
        if t.cur() == SyntaxKind::L_PAREN || t.cur() == SyntaxKind::L_ANGLE {
            method_body_after(t, plain())
        } else if member_name_start(s.cur()) {
            let x = t.expected(SyntaxKind::COLON);
            if x.tokens == s.tokens && x.pos >= s.pos {
                member_value_after(
                    x,
                    RunEnd::Assignment,
                    DiagnosticKind::ExpectedExpressionAssignment,
                )
            } else {
                x
            }
        } else {
            let x = recovered_value_start(s);
            if x.tokens == s.tokens && x.pos >= s.pos {
                member_value_after(x, RunEnd::Assignment, DiagnosticKind::ExpectedObjectMember)
            } else {
                x
            }
        }
    }
}

/// Whether the member that a name starts ends where `named_member_after` says: each
/// object literal in its name or as its value ends where `object_after` says.
pub open spec fn named_member_known(s: ParserState) -> bool
    decreases tokens_left(s), 36int,
{
    let s = s.cursor();
    if shorthand_start(s) {
        s.nth(1) == SyntaxKind::EQ ==> object_known(
            s.skipped().reported(DiagnosticKind::ShorthandPropertyInitializer).skipped(),
        )
    } else {
        let t = named_member_name_after(s);
        &&& name_known(s)
        &&& if t.cur() == SyntaxKind::L_PAREN || t.cur() == SyntaxKind::L_ANGLE {
            true
        } else if member_name_start(s.cur()) {
            let x = t.expected(SyntaxKind::COLON);
            x.tokens == s.tokens && x.pos >= s.pos && object_known(x)
        } else {
            let x = recovered_value_start(s);
            x.tokens == s.tokens && x.pos >= s.pos && object_known(x)
        }
    }
}

/// Where the parser stands after the spread member that starts at the current `...`.
pub open spec fn spread_after(s: ParserState) -> ParserState
    decreases tokens_left(s), 37int,
{
    let s = s.cursor();
    member_value_after(s.skipped(), RunEnd::Assignment, DiagnosticKind::ExpectedExpressionAssignment)
}

/// Where the parser stands after the member that starts at the current token.
pub open spec fn member_after(s: ParserState) -> ParserState
    decreases tokens_left(s), 39int,
{
    let s = s.cursor();
    if getter_start(s) {
        getter_after(s)
    } else if setter_start(s) {
        setter_after(s)
    } else if async_method_start(s) || s.cur() == SyntaxKind::STAR {
        method_after(s)
    } else if s.cur() == SyntaxKind::DOT3 {
        spread_after(s)
    } else {
        named_member_after(s)
    }
}

/// Whether the member that starts at the current token ends where `member_after`
/// says: each object literal in its name or as its value ends where `object_after`
/// says.
pub open spec fn member_known(s: ParserState) -> bool
    decreases tokens_left(s), 39int,
{
    let s = s.cursor();
    if getter_start(s) {
        name_known(s.skipped())
    } else if setter_start(s) {
        setter_known(s)
    } else if async_method_start(s) || s.cur() == SyntaxKind::STAR {
        name_known(method_name_start(s))
    } else if s.cur() == SyntaxKind::DOT3 {
        object_known(s.skipped())
    } else {
        named_member_known(s)
    }
}

/// Where the parser stands after the member list from `s` on, where `first` says
/// that no member came before: each member as `member_after` says, with a `,`
/// expected before each but the first, up to a `}` after a `,`, a `}` or the end of
/// the stream; a missing member is skipped up to where the list goes on and
/// reported. `None` where a member ends at a point that `member_known` leaves open.
pub open spec fn list_after(s: ParserState, first: bool) -> Option<ParserState>
    decreases tokens_left(s), (if first {
        41int
    } else {
        40int
    }),
{
    let c = s.cursor();
    if c.cur() == SyntaxKind::EOF || c.cur() == SyntaxKind::R_CURLY {
        Some(c)
    } else {
        let a = list_head(c, first);
        if !first && a.cur() == SyntaxKind::R_CURLY {
            Some(a)
        } else if !member_absent(a) {
            if member_known(a) {
                let b = member_after(a);
                if b.tokens == c.tokens && c.pos < b.pos <= c.tokens.len() {
                    list_after(b, false)
                } else {
                    None
                }
            } else {
                None
            }
        } else if a.cur() == SyntaxKind::COMMA {
            if a.tokens == c.tokens && (first || c.pos < a.pos) {
                list_after(a, false)
            } else {
                None
            }
        } else if a.cur() == SyntaxKind::EOF || member_recovered(a) {
            Some(a.reported(DiagnosticKind::ExpectedObjectMember))
        } else {
            let e = recovery_end_from(a.tokens, a.pos + 1);
            let b = a.moved(
                e,
                a.diagnosed(
                    ParseDiagnostic {
                        kind: DiagnosticKind::ExpectedObjectMember,
                        start: a.pos as usize,
                        end: e as usize,
                    },
                ),
            );
            if b.tokens == c.tokens && c.pos < e <= c.tokens.len() {
                list_after(b, false)
            } else {
                None
            }
        }
    }
}

/// The events of a member that the recovery of the list skipped: the tokens from the
/// index `from` up to `to` in a `JS_BOGUS_MEMBER` node.
pub open spec fn bogus_member_events(toks: Seq<LexedToken>, from: int, to: int) -> Seq<Event> {
    seq![Event::Start { kind: SyntaxKind::JS_BOGUS_MEMBER }] + token_events(toks, from, to) + seq![
        Event::Finish,
    ]
}

/// The events of the `,` expected before a member but the first.
pub open spec fn list_head_events(s: ParserState, first: bool) -> Seq<Event> {
    if first {
        Seq::empty()
    } else {
        expected_events(s, SyntaxKind::COMMA)
    }
}

/// The events of the member list from `s` on, step for step as `list_after` goes:
/// each `,`, each member as `member_events` says, and each skipped member.
pub open spec fn list_events(s: ParserState, first: bool) -> Seq<Event>
    decreases tokens_left(s), (if first {
        41int
    } else {
        40int
    }),
{
    let c = s.cursor();
    if c.cur() == SyntaxKind::EOF || c.cur() == SyntaxKind::R_CURLY {
        Seq::empty()
    } else {
        let a = list_head(c, first);
        let h = list_head_events(c, first);
        if !first && a.cur() == SyntaxKind::R_CURLY {
            h
        } else if !member_absent(a) {
            let b = member_after(a);
            if member_known(a) && b.tokens == c.tokens && c.pos < b.pos <= c.tokens.len() {
                h + member_events(a) + list_events(b, false)
            } else {
                Seq::empty()
            }
        } else if a.cur() == SyntaxKind::COMMA {
            if a.tokens == c.tokens && (first || c.pos < a.pos) {
                h + list_events(a, false)
            } else {
                Seq::empty()
            }
        } else if a.cur() == SyntaxKind::EOF || member_recovered(a) {
            h
        } else {
            let e = recovery_end_from(a.tokens, a.pos + 1);
            let b = a.moved(
                e,
                a.diagnosed(
                    ParseDiagnostic {
                        kind: DiagnosticKind::ExpectedObjectMember,
                        start: a.pos as usize,
                        end: e as usize,
                    },
                ),
            );
            if b.tokens == c.tokens && c.pos < e <= c.tokens.len() {
                h + bogus_member_events(a.tokens, a.pos, e) + list_events(b, false)
            } else {
                Seq::empty()
            }
        }
    }
}

/// The events of the member list from `s` on in its `JS_OBJECT_MEMBER_LIST` node.
pub open spec fn list_node_events(s: ParserState) -> Seq<Event>
    decreases tokens_left(s), 42int,
{
    let s = s.cursor();
    seq![Event::Start { kind: SyntaxKind::JS_OBJECT_MEMBER_LIST }] + list_events(s, true) + seq![
        Event::Finish,
    ]
}

/// The events of the object literal at the current `{`, where its member list ends
/// where `list_after` says: the `{`, the list node and the expected `}`, in a
/// `JS_OBJECT_EXPRESSION` node.
pub open spec fn object_expression_events(s: ParserState) -> Seq<Event>
    decreases tokens_left(s), 10int,
{
    let s = s.cursor();
    let a = s.skipped();
    if s.cur() == SyntaxKind::L_CURLY {
        match list_after(a, true) {
            Some(c) => seq![
                Event::Start { kind: SyntaxKind::JS_OBJECT_EXPRESSION },
                Event::Token { kind: SyntaxKind::L_CURLY },
            ] + list_node_events(a) + expected_events(c, SyntaxKind::R_CURLY) + seq![Event::Finish],
            None => Seq::empty(),
        }
    } else {
        Seq::empty()
    }
}

/// The events of a value: the object literal at a `{`, the expression otherwise.
pub open spec fn member_value_events(s: ParserState, mode: RunEnd) -> Seq<Event>
    decreases tokens_left(s), 20int,
{
    let s = s.cursor();
    if s.cur() == SyntaxKind::L_CURLY {
        object_expression_events(s)
    } else {
        expression_events(s, mode)
    }
}

/// Where a member of the list starts: at `s` for the first one, and after the
/// expected `,` for the others.
pub open spec fn list_head(s: ParserState, first: bool) -> ParserState {
    let s = s.cursor();
    if first {
        s
    } else {
        s.expected(SyntaxKind::COMMA)
    }
}

/// The steps of the member list from a loop head `x` at which the list goes on,
/// after its head `b`: a `}` after a `,` ends the list.
proof fn lemma_list_trailing(x: ParserState, b: ParserState)
    requires
        x.cur() != SyntaxKind::EOF && x.cur() != SyntaxKind::R_CURLY,
        reached(b, list_head(x, false)),
        b.cur() == SyntaxKind::R_CURLY,
    ensures
        list_after(x, false) matches Some(t) && reached(b, t),
        list_events(x, false) == list_head_events(x, false),
{
}

/// A missing member before a `,` goes on after the `,`.
proof fn lemma_list_comma(x: ParserState, f: bool, b: ParserState)
    requires
        x.cur() != SyntaxKind::EOF && x.cur() != SyntaxKind::R_CURLY,
        reached(b, list_head(x, f)),
        f || b.cur() != SyntaxKind::R_CURLY,
        member_absent(b),
        b.cur() == SyntaxKind::COMMA,
    ensures
        list_after(x, f) == list_after(b, false),
        list_events(x, f) == list_head_events(x, f) + list_events(b, false),
{
    lemma_list_cursor(b, list_head(x, f), false);
}

/// A member goes on after the member, where `member_after` says.
proof fn lemma_list_member(x: ParserState, f: bool, b: ParserState, c: ParserState)
    requires
        x.cur() != SyntaxKind::EOF && x.cur() != SyntaxKind::R_CURLY,
        reached(b, list_head(x, f)),
        f || b.cur() != SyntaxKind::R_CURLY,
        !member_absent(b),
        c.tokens == x.tokens,
        x.pos <= b.pos < c.pos <= c.tokens.len(),
        member_known(b) ==> reached(c, member_after(b)),
    ensures
        list_after(x, f) == (if member_known(b) {
            list_after(c, false)
        } else {
            None
        }),
        member_known(b) ==> list_events(x, f) == list_head_events(x, f) + member_events(b)
            + list_events(c, false),
{
    let a = list_head(x, f);
    lemma_member_cursor(b, a);
    if member_known(b) {
        lemma_list_cursor(c, member_after(a), false);
    }
}

/// A missing member that was skipped goes on after the skipped tokens.
proof fn lemma_list_recovered(x: ParserState, f: bool, b: ParserState, z: ParserState)
    requires
        x.cur() != SyntaxKind::EOF && x.cur() != SyntaxKind::R_CURLY,
        reached(b, list_head(x, f)),
        f || b.cur() != SyntaxKind::R_CURLY,
        member_absent(b),
        b.cur() != SyntaxKind::COMMA,
        b.cur() != SyntaxKind::EOF,
        !member_recovered(b),
        z.tokens == x.tokens,
        z.typescript == x.typescript,
        x.pos <= b.pos < z.pos <= z.tokens.len(),
        z.pos == recovery_end_from(b.tokens, b.pos + 1),
        z.diagnostics == b.diagnosed(
            ParseDiagnostic {
                kind: DiagnosticKind::ExpectedObjectMember,
                start: b.pos as usize,
                end: z.pos as usize,
            },
        ),
    ensures
        list_after(x, f) == list_after(z, false),
        list_events(x, f) == list_head_events(x, f) + bogus_member_events(b.tokens, b.pos, z.pos)
            + list_events(z, false),
{
    let h = list_head(x, f);
    let e = recovery_end_from(h.tokens, h.pos + 1);
    lemma_list_cursor(
        z,
        h.moved(
            e,
            h.diagnosed(
                ParseDiagnostic {
                    kind: DiagnosticKind::ExpectedObjectMember,
                    start: h.pos as usize,
                    end: e as usize,
                },
            ),
        ),
        false,
    );
}

/// A missing member where the list goes on ends the list, reported.
proof fn lemma_list_unrecovered(x: ParserState, f: bool, b: ParserState, z: ParserState)
    requires
        x.cur() != SyntaxKind::EOF && x.cur() != SyntaxKind::R_CURLY,
        reached(b, list_head(x, f)),
        f || b.cur() != SyntaxKind::R_CURLY,
        member_absent(b),
        b.cur() != SyntaxKind::COMMA,
        b.cur() == SyntaxKind::EOF || member_recovered(b),
        reached(z, b.reported(DiagnosticKind::ExpectedObjectMember)),
    ensures
        list_after(x, f) matches Some(t) && reached(z, t),
        list_events(x, f) == list_head_events(x, f),
{
}

/// One step of the member list, in events: what the head and the member appended
/// stands where `list_events` has them.
proof fn lemma_list_events_step(
    e: Seq<Event>,
    l: int,
    a: ParserState,
    f: bool,
    b: ParserState,
    z: ParserState,
    mid: Seq<Event>,
    rest: Seq<Event>,
)
    requires
        0 <= l <= a.events.len(),
        e == a.events.skip(l) + list_events(a, f),
        b.events == a.events + list_head_events(a, f),
        z.events == b.events + mid,
        list_events(a, f) == list_head_events(a, f) + mid + rest,
    ensures
        e == z.events.skip(l) + rest,
{
    assert(z.events.skip(l) =~= a.events.skip(l) + list_head_events(a, f) + mid);
}

/// The list ends at a `}` or at the end of the stream.
proof fn lemma_list_stop(x: ParserState, f: bool)
    requires
        x.cur() == SyntaxKind::EOF || x.cur() == SyntaxKind::R_CURLY,
    ensures
        list_after(x, f) matches Some(t) && reached(x, t),
        list_events(x, f) == Seq::<Event>::empty(),
{
}

/// What a member and a value make of the parser reads of it only where it stands.
pub proof fn lemma_member_cursor(a: ParserState, b: ParserState)
    requires
        reached(a, b),
    ensures
        member_known(a) == member_known(b),
        member_after(a) == member_after(b),
        member_events(a) == member_events(b),
        named_member_known(a) == named_member_known(b),
        named_member_after(a) == named_member_after(b),
        named_member_events(a) == named_member_events(b),
        name_known(a) == name_known(b),
        name_after(a) == name_after(b),
        name_events(a) == name_events(b),
{
}

/// What a value makes of the parser reads of it only where it stands.
pub proof fn lemma_value_cursor(a: ParserState, b: ParserState, mode: RunEnd, missing: DiagnosticKind)
    requires
        reached(a, b),
    ensures
        object_known(a) == object_known(b),
        object_after(a) == object_after(b),
        object_expression_events(a) == object_expression_events(b),
        member_value_after(a, mode, missing) == member_value_after(b, mode, missing),
        member_value_events(a, mode) == member_value_events(b, mode),
        nested_expression_after(a, mode) == nested_expression_after(b, mode),
{
}

/// `list_after` reads of the parser only where it stands.
proof fn lemma_list_cursor(a: ParserState, b: ParserState, first: bool)
    requires
        reached(a, b),
    ensures
        list_after(a, first) == list_after(b, first),
        list_events(a, first) == list_events(b, first),
{
}

/// What `parse_computed_member_name` does from `old`.
pub open spec fn computed_name_post(old: ParserState, new: ParserState, r: ParsedSyntax) -> bool {
    &&& (r is Absent <==> old.cur() != SyntaxKind::L_BRACK)
    &&& r matches ParsedSyntax::Present(m) ==> {
        &&& new.kind_of(m) == SyntaxKind::JS_COMPUTED_MEMBER_NAME
        &&& new.pos > old.pos
        &&& new.events[old.events.len() as int + 1] == (Event::Token { kind: SyntaxKind::L_BRACK })
        &&& starts_expression(old.nth(1)) ==> new.events[old.events.len() as int + 2] == (
        Event::Start {
            kind: if old.nth(1) == SyntaxKind::L_CURLY {
                SyntaxKind::JS_OBJECT_EXPRESSION
            } else {
                start_kind(expression_events(old.skipped(), RunEnd::Sequence)[0])
            },
        })
        &&& object_known(old.skipped()) ==> reached(new, computed_name_after(old))
            && new.events == old.events + computed_name_events(old)
    }
}

/// What `parse_literal_member_name` does from `old`: one name token in one node.
pub open spec fn literal_name_post(old: ParserState, new: ParserState, r: ParsedSyntax) -> bool {
    &&& (r is Absent <==> !(literal_member_name_start(old.cur()) || old.cur()
        == SyntaxKind::GRIT_METAVARIABLE))
    &&& r is Present ==> new == old.with_events(
        old.events + seq![
            Event::Start { kind: member_name_kind(old.cur()) },
            Event::Token { kind: literal_name_token(old.cur()) },
            Event::Finish,
        ],
    ).bumped_silently()
}

/// The event of an expected token: the token when it is the current one.
pub open spec fn expected_events(s: ParserState, k: SyntaxKind) -> Seq<Event> {
    let s = s.cursor();
    if s.cur() == k {
        seq![Event::Token { kind: k }]
    } else {
        Seq::empty()
    }
}

/// The events of the computed member name that starts at the current `[`.
pub open spec fn computed_name_events(s: ParserState) -> Seq<Event>
    decreases tokens_left(s), 28int,
{
    let s = s.cursor();
    let a = s.skipped();
    let b = member_value_after(a, RunEnd::Sequence, DiagnosticKind::ExpectedExpression);
    seq![Event::Start { kind: SyntaxKind::JS_COMPUTED_MEMBER_NAME }, Event::Token { kind: SyntaxKind::L_BRACK }]
        + member_value_events(a, RunEnd::Sequence) + expected_events(b, SyntaxKind::R_BRACK) + seq![
        Event::Finish,
    ]
}

/// The events of the member name that starts at the current token.
pub open spec fn name_events(s: ParserState) -> Seq<Event>
    decreases tokens_left(s), 29int,
{
    let s = s.cursor();
    if s.cur() == SyntaxKind::L_BRACK {
        computed_name_events(s)
    } else {
        seq![
            Event::Start { kind: member_name_kind(s.cur()) },
            Event::Token { kind: literal_name_token(s.cur()) },
            Event::Finish,
        ]
    }
}

/// The events of a member name that a rule requires: none when it is missing.
pub open spec fn required_name_events(s: ParserState) -> Seq<Event>
    decreases tokens_left(s), 30int,
{
    if member_name_start(s.cursor().cur()) {
        name_events(s)
    } else {
        Seq::empty()
    }
}

/// The events of the type parameters that an accessor may not have.
pub open spec fn accessor_type_parameters_events(s: ParserState) -> Seq<Event> {
    let s = s.cursor();
    if s.cur() != SyntaxKind::L_ANGLE {
        Seq::empty()
    } else {
        ts_node_events(s, TsOnlySyntax::TypeParameters, SyntaxKind::TS_TYPE_PARAMETERS)
    }
}

/// The events of the name and the type parameters of an accessor.
pub open spec fn accessor_head_events(s: ParserState) -> Seq<Event>
    decreases tokens_left(s), 33int,
{
    let s = s.cursor();
    required_name_events(s) + accessor_type_parameters_events(
        required_name_after(s, DiagnosticKind::ExpectedObjectMemberName),
    )
}

/// The events of the getter that starts at the current `get`.
pub open spec fn getter_events(s: ParserState) -> Seq<Event>
    decreases tokens_left(s), 37int,
{
    let s = s.cursor();
    let a = s.skipped();
    let h = accessor_head_after(a);
    let b = h.expected(SyntaxKind::L_PAREN);
    let c = b.expected(SyntaxKind::R_PAREN);
    let d = ts_after(c, TsOnlySyntax::TypeAnnotation);
    seq![Event::Start { kind: SyntaxKind::JS_GETTER_OBJECT_MEMBER }, Event::Token { kind: SyntaxKind::GET_KW }]
        + accessor_head_events(a) + expected_events(h, SyntaxKind::L_PAREN) + expected_events(
        b,
        SyntaxKind::R_PAREN,
    ) + ts_events(c, TsOnlySyntax::TypeAnnotation) + body_events(d) + seq![Event::Finish]
}

/// The events of the decorators before the parameter of a setter, in a bogus node.
#[verifier::opaque]
pub open spec fn setter_decorator_events(s: ParserState) -> Seq<Event> {
    if s.cur() == SyntaxKind::AT {
        seq![Event::Start { kind: crate::syntax_kind::bogus_of(SyntaxKind::JS_DECORATOR_LIST) }] + decorators_events(s)
            + seq![Event::Finish]
    } else {
        Seq::empty()
    }
}

/// The events of the one parameter of a setter, with the decorators before it.
pub open spec fn setter_parameter_events(s: ParserState) -> Seq<Event> {
    let s = s.cursor();
    let d = setter_parameter_head(s);
    let t = if run_stops_at(RunEnd::Parameter, d.cur()) {
        d.reported(DiagnosticKind::ExpectedParameter)
    } else {
        d.moved(run_end(d, d.pos, RunEnd::Parameter), d.diagnostics)
    };
    setter_decorator_events(s) + formal_parameter_events(d) + expected_events(t, SyntaxKind::COMMA)
}

/// The events of the return type that a setter may not have.
pub open spec fn setter_return_type_events(s: ParserState) -> Seq<Event> {
    let s = s.cursor();
    if s.cur() != SyntaxKind::COLON {
        Seq::empty()
    } else {
        ts_node_events(
            s,
            TsOnlySyntax::ReturnTypeAnnotation,
            SyntaxKind::TS_RETURN_TYPE_ANNOTATION,
        )
    }
}

/// The events of the setter that starts at the current `set`.
pub open spec fn setter_events(s: ParserState) -> Seq<Event>
    decreases tokens_left(s), 37int,
{
    let s = s.cursor();
    let a = s.skipped();
    let h = accessor_head_after(a);
    let b = setter_parameter_start(s);
    let c = setter_parameter_after(b);
    let d = c.expected(SyntaxKind::R_PAREN);
    let e = setter_return_type_after(d);
    seq![Event::Start { kind: SyntaxKind::JS_SETTER_OBJECT_MEMBER }, Event::Token { kind: SyntaxKind::SET_KW }]
        + accessor_head_events(a) + expected_events(h, SyntaxKind::L_PAREN)
        + setter_parameter_events(b) + expected_events(c, SyntaxKind::R_PAREN)
        + setter_return_type_events(d) + body_events(e) + seq![Event::Finish]
}

/// The events of the body of a method, from right after its name.
pub open spec fn method_body_events(s: ParserState, flags: SignatureFlags) -> Seq<Event> {
    let s = s.cursor();
    let a = ts_after(s, TsOnlySyntax::TypeParameters);
    let b = parameters_after(a, flags);
    let c = ts_after(b, TsOnlySyntax::ReturnTypeAnnotation);
    ts_events(s, TsOnlySyntax::TypeParameters) + parameters_events(a) + ts_events(
        b,
        TsOnlySyntax::ReturnTypeAnnotation,
    ) + body_events(c)
}

/// The events of the `async` and the `*` before the name of a method.
pub open spec fn method_prefix_events(s: ParserState) -> Seq<Event> {
    let s = s.cursor();
    let a = if async_method_start(s) {
        s.skipped()
    } else {
        s
    };
    (if async_method_start(s) {
        seq![Event::Token { kind: SyntaxKind::ASYNC_KW }]
    } else {
        Seq::<Event>::empty()
    }) + expected_events(a, SyntaxKind::STAR)
}

/// The events of the method that starts at the current token.
pub open spec fn method_events(s: ParserState) -> Seq<Event>
    decreases tokens_left(s), 37int,
{
    let s = s.cursor();
    let n = method_name_start(s);
    seq![Event::Start { kind: SyntaxKind::JS_METHOD_OBJECT_MEMBER }] + method_prefix_events(s)
        + required_name_events(n) + method_body_events(
        required_name_after(n, DiagnosticKind::ExpectedObjectMemberName),
        method_flags(s),
    ) + seq![Event::Finish]
}

/// The events of the member that a name, or a missing name, starts.
pub open spec fn named_member_events(s: ParserState) -> Seq<Event>
    decreases tokens_left(s), 37int,
{
    named_member_events_at(s.cursor())
}

/// `named_member_events` of a state with its events left out.
#[verifier::opaque]
pub open spec fn named_member_events_at(s: ParserState) -> Seq<Event>
    decreases tokens_left(s), 34int,
{
    let reference = seq![
        Event::Start { kind: SyntaxKind::JS_REFERENCE_IDENTIFIER },
        Event::Token { kind: SyntaxKind::IDENT },
        Event::Finish,
    ];
    if shorthand_start(s) {
        if s.nth(1) == SyntaxKind::EQ {
            seq![Event::Start { kind: SyntaxKind::JS_BOGUS_MEMBER }] + reference + seq![
                Event::Token { kind: SyntaxKind::EQ },
            ] + member_value_events(
                s.skipped().reported(DiagnosticKind::ShorthandPropertyInitializer).skipped(),
                RunEnd::Assignment,
            ) + seq![Event::Finish]
        } else {
            seq![Event::Start { kind: SyntaxKind::JS_SHORTHAND_PROPERTY_OBJECT_MEMBER }] + reference
                + seq![Event::Finish]
        }
    } else {
        let t = named_member_name_after(s);
        if t.cur() == SyntaxKind::L_PAREN || t.cur() == SyntaxKind::L_ANGLE {
            seq![Event::Start { kind: SyntaxKind::JS_METHOD_OBJECT_MEMBER }] + required_name_events(s)
                + method_body_events(t, plain()) + seq![Event::Finish]
        } else if member_name_start(s.cur()) {
            let x = t.expected(SyntaxKind::COLON);
            seq![Event::Start { kind: SyntaxKind::JS_PROPERTY_OBJECT_MEMBER }] + name_events(s)
                + expected_events(t, SyntaxKind::COLON) + (if x.tokens == s.tokens && x.pos
                >= s.pos {
                member_value_events(x, RunEnd::Assignment)
            } else {
                Seq::empty()
            }) + seq![Event::Finish]
        } else {
            let x = recovered_value_start(s);
            seq![Event::Start { kind: SyntaxKind::JS_PROPERTY_OBJECT_MEMBER }] + (if single_token_recovered(
                t.cur(),
            ) {
                Seq::<Event>::empty()
            } else {
                seq![
                    Event::Start { kind: SyntaxKind::JS_BOGUS },
                    Event::Token { kind: t.cur() },
                    Event::Finish,
                ]
            }) + seq![Event::Token { kind: SyntaxKind::COLON }] + (if x.tokens == s.tokens && x.pos
                >= s.pos {
                member_value_events(x, RunEnd::Assignment)
            } else {
                Seq::empty()
            }) + seq![Event::Finish]
        }
    }
}

/// Tokens before which an assignment expression ends when no bracket is open in
/// it: a `,` or a `;` that separates it from what follows, or a closing bracket.
pub open spec fn assignment_stop(k: SyntaxKind) -> bool {
    ||| k == SyntaxKind::COMMA
    ||| k == SyntaxKind::SEMICOLON
    ||| k == SyntaxKind::R_PAREN
    ||| k == SyntaxKind::R_BRACK
    ||| k == SyntaxKind::R_CURLY
}

/// A run of an assignment expression from the index `from` on, continued at the
/// index `i`, ends at the first token outside brackets before which an assignment
/// expression ends, or at the end of the stream.
proof fn lemma_assignment_run(toks: Seq<LexedToken>, from: int, i: int)
    requires
        0 <= from <= i <= toks.len(),
        depth_from(toks, from, i) >= 0,
        forall|k: int|
            from <= k < i ==> !(depth_from(toks, from, k) == 0 && #[trigger] assignment_stop(
                toks[k].kind,
            )),
    ensures
        ({
            let e = run_end_from(toks, i, depth_from(toks, from, i), RunEnd::Assignment);
            &&& i <= e <= toks.len()
            &&& forall|k: int|
                from <= k < e ==> !(depth_from(toks, from, k) == 0 && #[trigger] assignment_stop(
                    toks[k].kind,
                ))
            &&& e < toks.len() ==> depth_from(toks, from, e) == 0 && assignment_stop(toks[e].kind)
        }),
    decreases toks.len() - i,
{
    if i < toks.len() {
        let d = depth_from(toks, from, i);
        assert(depth_from(toks, from, i + 1) == d + bracket_delta(toks[i].kind));
        if d <= 0 && crate::syntax::balanced::stops_before(toks, i, RunEnd::Assignment) {
        } else {
            lemma_assignment_run(toks, from, i + 1);
        }
    }
}

/// A value that is an assignment expression and not an object literal ends at the
/// first token after its start, outside brackets, before which an assignment
/// expression ends, and its events are the expression over the tokens up to there.
proof fn lemma_assignment_value(x: ParserState, missing: DiagnosticKind)
    requires
        starts_expression(x.cur()),
        x.cur() != SyntaxKind::L_CURLY,
    ensures
        ({
            let a = member_value_after(x, RunEnd::Assignment, missing);
            let toks = x.tokens;
            &&& a.tokens == toks
            &&& x.pos < a.pos <= toks.len()
            &&& forall|k: int|
                x.pos <= k < a.pos ==> !(depth_from(toks, x.pos, k) == 0
                    && #[trigger] assignment_stop(toks[k].kind))
            &&& a.pos < toks.len() ==> depth_from(toks, x.pos, a.pos) == 0 && assignment_stop(
                toks[a.pos].kind,
            )
            &&& member_value_events(x, RunEnd::Assignment) == binary_events(toks, x.pos, a.pos)
        }),
{
    let from = x.pos;
    lemma_value_unfold(x, RunEnd::Assignment, missing);
    assert(depth_from(x.tokens, from, from) == 0);
    lemma_assignment_run(x.tokens, from, from);
    assert(!crate::syntax::balanced::stops_before(x.tokens, from, RunEnd::Assignment));
    assert(depth_from(x.tokens, from, from + 1) == bracket_delta(x.tokens[from].kind));
    lemma_assignment_run(x.tokens, from, from + 1);
}

/// Law: the argument of a spread member is an assignment expression. When it is not
/// an object literal, the member ends at the first token after the `...`, outside
/// brackets, that is a `,`, a `;` or a closing bracket (or at the end of the
/// stream), so a `,` after the argument separates it from the next member; its
/// events are the `...` and the expression over the tokens up to there. Where no
/// expression follows the `...`, the member is the `...` and the missing argument
/// is reported.
pub proof fn law_spread_argument_is_an_assignment_expression(s: ParserState)
    requires
        s.cur() == SyntaxKind::DOT3,
        s.nth(1) != SyntaxKind::L_CURLY,
    ensures
        ({
            let from = s.pos + 1;
            let a = spread_after(s);
            let toks = s.tokens;
            &&& a.tokens == toks
            &&& starts_expression(s.nth(1)) ==> {
                &&& from < a.pos <= toks.len()
                &&& forall|k: int|
                    from <= k < a.pos ==> !(depth_from(toks, from, k) == 0
                        && #[trigger] assignment_stop(toks[k].kind))
                &&& a.pos < toks.len() ==> depth_from(toks, from, a.pos) == 0 && assignment_stop(
                    toks[a.pos].kind,
                )
                &&& spread_events(s) == seq![
                    Event::Start { kind: SyntaxKind::JS_SPREAD },
                    Event::Token { kind: SyntaxKind::DOT3 },
                ] + binary_events(toks, from, a.pos) + seq![Event::Finish]
            }
            &&& !starts_expression(s.nth(1)) ==> a == s.skipped().reported(
                DiagnosticKind::ExpectedExpressionAssignment,
            ) && spread_events(s) == seq![
                Event::Start { kind: SyntaxKind::JS_SPREAD },
                Event::Token { kind: SyntaxKind::DOT3 },
                Event::Finish,
            ]
        }),
{
    let c = s.cursor();
    let x = c.skipped();
    let a = spread_after(s);
    assert(a == member_value_after(
        x,
        RunEnd::Assignment,
        DiagnosticKind::ExpectedExpressionAssignment,
    ));
    assert(spread_events(s) == seq![
        Event::Start { kind: SyntaxKind::JS_SPREAD },
        Event::Token { kind: SyntaxKind::DOT3 },
    ] + member_value_events(x, RunEnd::Assignment) + seq![Event::Finish]);
    lemma_value_unfold(x, RunEnd::Assignment, DiagnosticKind::ExpectedExpressionAssignment);
    if starts_expression(s.nth(1)) {
        lemma_assignment_value(x, DiagnosticKind::ExpectedExpressionAssignment);
        assert(spread_events(s) =~= seq![
            Event::Start { kind: SyntaxKind::JS_SPREAD },
            Event::Token { kind: SyntaxKind::DOT3 },
        ] + binary_events(s.tokens, s.pos + 1, a.pos) + seq![Event::Finish]);
    } else {
        assert(spread_events(s) =~= seq![
            Event::Start { kind: SyntaxKind::JS_SPREAD },
            Event::Token { kind: SyntaxKind::DOT3 },
            Event::Finish,
        ]);
    }
}

/// Law: the value of a property is an assignment expression. After a literal name
/// and its `:`, when the value is not an object literal, the property ends at the
/// first token after the `:`, outside brackets, that is a `,`, a `;` or a closing
/// bracket (or at the end of the stream), so a `,` after the value separates it
/// from the next member; its events are the name, the `:` and the expression over
/// the tokens up to there, in a `JS_PROPERTY_OBJECT_MEMBER` node.
pub proof fn law_property_value_is_an_assignment_expression(s: ParserState)
    requires
        literal_member_name_start(s.cur()),
        s.nth(1) == SyntaxKind::COLON,
        starts_expression(s.nth(2)),
        s.nth(2) != SyntaxKind::L_CURLY,
    ensures
        ({
            let from = s.pos + 2;
            let a = named_member_after(s);
            let toks = s.tokens;
            &&& a.tokens == toks
            &&& from < a.pos <= toks.len()
            &&& forall|k: int|
                from <= k < a.pos ==> !(depth_from(toks, from, k) == 0
                    && #[trigger] assignment_stop(toks[k].kind))
            &&& a.pos < toks.len() ==> depth_from(toks, from, a.pos) == 0 && assignment_stop(
                toks[a.pos].kind,
            )
            &&& named_member_events(s) == seq![
                Event::Start { kind: SyntaxKind::JS_PROPERTY_OBJECT_MEMBER },
                Event::Start { kind: SyntaxKind::JS_LITERAL_MEMBER_NAME },
                Event::Token { kind: literal_name_token(s.cur()) },
                Event::Finish,
                Event::Token { kind: SyntaxKind::COLON },
            ] + binary_events(toks, from, a.pos) + seq![Event::Finish]
        }),
{
    reveal(named_member_after_at);
    reveal(named_member_events_at);
    let c = s.cursor();
    let t = c.skipped();
    let x = t.skipped();
    assert(named_member_after(s) == named_member_after_at(c));
    assert(named_member_events(s) == named_member_events_at(c));
    assert(name_after(c) == t);
    assert(named_member_name_after(c) == t);
    assert(name_events(c) == seq![
        Event::Start { kind: SyntaxKind::JS_LITERAL_MEMBER_NAME },
        Event::Token { kind: literal_name_token(s.cur()) },
        Event::Finish,
    ]);
    assert(t.expected(SyntaxKind::COLON) == x);
    lemma_assignment_value(x, DiagnosticKind::ExpectedExpressionAssignment);
    assert(named_member_events(s) =~= seq![
        Event::Start { kind: SyntaxKind::JS_PROPERTY_OBJECT_MEMBER },
        Event::Start { kind: SyntaxKind::JS_LITERAL_MEMBER_NAME },
        Event::Token { kind: literal_name_token(s.cur()) },
        Event::Finish,
        Event::Token { kind: SyntaxKind::COLON },
    ] + binary_events(s.tokens, s.pos + 2, named_member_after(s).pos) + seq![Event::Finish]);
}

/// The events of the spread member that starts at the current `...`.
pub open spec fn spread_events(s: ParserState) -> Seq<Event>
    decreases tokens_left(s), 37int,
{
    let s = s.cursor();
    seq![Event::Start { kind: SyntaxKind::JS_SPREAD }, Event::Token { kind: SyntaxKind::DOT3 }]
        + member_value_events(s.skipped(), RunEnd::Assignment) + seq![Event::Finish]
}

/// The events of the member that starts at the current token.
pub open spec fn member_events(s: ParserState) -> Seq<Event>
    decreases tokens_left(s), 39int,
{
    let s = s.cursor();
    if getter_start(s) {
        getter_events(s)
    } else if setter_start(s) {
        setter_events(s)
    } else if async_method_start(s) || s.cur() == SyntaxKind::STAR {
        method_events(s)
    } else if s.cur() == SyntaxKind::DOT3 {
        spread_events(s)
    } else {
        named_member_events(s)
    }
}

/// What `parse_getter_object_member` does from `old`.
pub open spec fn getter_post(old: ParserState, new: ParserState, r: ParsedSyntax) -> bool {
    &&& (r is Absent <==> old.cur() != SyntaxKind::GET_KW)
    &&& r matches ParsedSyntax::Present(m) ==> {
        &&& new.kind_of(m) == SyntaxKind::JS_GETTER_OBJECT_MEMBER
        &&& new.pos > old.pos
        &&& new.events[old.events.len() as int + 1] == (Event::Token { kind: SyntaxKind::GET_KW })
        &&& member_name_start(old.nth(1)) ==> new.events[old.events.len() as int + 2] == (
        Event::Start { kind: member_name_kind(old.nth(1)) })
        &&& name_known(old.skipped()) ==> reached(new, getter_after(old)) && new.events
            == old.events + getter_events(old)
    }
}

/// What `parse_setter_object_member` does from `old`.
pub open spec fn setter_post(old: ParserState, new: ParserState, r: ParsedSyntax) -> bool {
    &&& (r is Absent <==> old.cur() != SyntaxKind::SET_KW)
    &&& r matches ParsedSyntax::Present(m) ==> {
        &&& new.kind_of(m) == SyntaxKind::JS_SETTER_OBJECT_MEMBER
        &&& new.pos > old.pos
        &&& new.events[old.events.len() as int + 1] == (Event::Token { kind: SyntaxKind::SET_KW })
        &&& member_name_start(old.nth(1)) ==> new.events[old.events.len() as int + 2] == (
        Event::Start { kind: member_name_kind(old.nth(1)) })
        &&& setter_known(old) ==> reached(new, setter_after(old)) && new.events == old.events
            + setter_events(old)
    }
}

/// What `parse_method_object_member` does from `old`.
pub open spec fn method_post(old: ParserState, new: ParserState, r: ParsedSyntax) -> bool {
    let n = method_name_start(old);
    &&& (r is Absent <==> !(async_method_start(old) || old.cur() == SyntaxKind::STAR
        || type_member_name_start(old.cur())))
    &&& r matches ParsedSyntax::Present(m) ==> {
        &&& new.kind_of(m) == SyntaxKind::JS_METHOD_OBJECT_MEMBER
        &&& (async_method_start(old) || old.cur() == SyntaxKind::STAR || member_name_start(
            old.cur(),
        ) ==> new.pos > old.pos)
        &&& member_name_start(n.cur()) ==> new.events[old.events.len() + 1 + n.pos - old.pos]
            == (Event::Start { kind: member_name_kind(n.cur()) })
        &&& name_known(n) ==> reached(new, method_after(old)) && new.events == old.events
            + method_events(old)
    }
}

/// Every event of `s` that stands outside all the nodes in `s` is a `,` or opens
/// the node of an object member: the children of a member list.
pub open spec fn member_children(s: Seq<Event>) -> bool {
    forall|i: int|
        0 <= i < s.len() && net(#[trigger] s.take(i)) == 0 ==> (s[i] == Event::Token {
            kind: SyntaxKind::COMMA,
        } || (s[i] is Start && member_kind(start_kind(s[i]))))
}

/// A `,` after the children of a member list keeps them children of a member list.
proof fn lemma_children_comma(a: Seq<Event>)
    requires
        member_children(a),
        forest(a),
    ensures
        member_children(a.push(Event::Token { kind: SyntaxKind::COMMA })),
{
    let b = a.push(Event::Token { kind: SyntaxKind::COMMA });
    assert forall|i: int| 0 <= i < b.len() && net(#[trigger] b.take(i)) == 0 implies (b[i]
        == Event::Token { kind: SyntaxKind::COMMA } || (b[i] is Start && member_kind(
        start_kind(b[i]),
    ))) by {
        if i < a.len() {
            assert(b.take(i) =~= a.take(i));
        }
    }
}

/// A member node after the children of a member list keeps them children of a
/// member list.
proof fn lemma_children_node(a: Seq<Event>, b: Seq<Event>)
    requires
        member_children(a),
        forest(a),
        b.len() >= 2,
        b[0] is Start,
        member_kind(start_kind(b[0])),
        b.last() == Event::Finish,
        forest(b.subrange(1, b.len() - 1)),
    ensures
        member_children(a + b),
{
    let c = a + b;
    let inner = b.subrange(1, b.len() - 1);
    assert forall|i: int| 0 <= i < c.len() && net(#[trigger] c.take(i)) == 0 implies (c[i]
        == Event::Token { kind: SyntaxKind::COMMA } || (c[i] is Start && member_kind(
        start_kind(c[i]),
    ))) by {
        if i < a.len() {
            assert(c.take(i) =~= a.take(i));
        } else if i > a.len() {
            let j = i - a.len();
            assert(c.take(i) =~= a + b.take(j));
            lemma_net_concat(a, b.take(j));
            let st = seq![b[0]];
            assert(b.take(j) =~= st + inner.take(j - 1));
            lemma_net_concat(st, inner.take(j - 1));
            assert(st.drop_last() =~= Seq::<Event>::empty());
            assert(net(Seq::<Event>::empty()) == 0);
            assert(st.last() == b[0]);
            assert(net(st) == 1);
            assert(net(inner.take(j - 1)) >= 0);
        }
    }
}

/// A member node that a rule appends keeps the events after `s1` the children of a
/// member list.
proof fn lemma_children_parsed(s1: ParserState, b: ParserState, c: ParserState, m: CompletedMarker)
    requires
        grows(s1, b),
        member_children(b.events.skip(s1.events.len() as int)),
        parsed(b, c, ParsedSyntax::Present(m)),
        member_kind(c.kind_of(m)),
    ensures
        member_children(c.events.skip(s1.events.len() as int)),
{
    let l = s1.events.len() as int;
    let lb = b.events.len() as int;
    let a = b.events.skip(l);
    let node = c.events.skip(lb);
    assert(c.events.take(lb) =~= b.events);
    assert(c.events.skip(l) =~= a + node);
    assert(node[0] == c.events[m.start_pos as int]);
    assert(node.subrange(1, node.len() - 1) =~= c.events.subrange(lb + 1, c.events.len() - 1));
    lemma_children_node(a, node);
}

/// Why the recovery of a list member did not recover.
#[derive(Debug, Clone, Copy, PartialEq, Eq, Structural)]
pub enum RecoveryError {
    /// The parser is at the end of the stream.
    Eof,
    /// The parser already is at a point from where the list goes on.
    AlreadyRecovered,
}

/// The object members between the braces of an object literal, separated by commas,
/// with an optional trailing comma.
pub struct ObjectMembersList;

impl ObjectMembersList {
    /// The kind of the list node.
    pub fn list_kind(&self) -> (r: SyntaxKind)
        ensures
            r == SyntaxKind::JS_OBJECT_MEMBER_LIST,
    {
        SyntaxKind::JS_OBJECT_MEMBER_LIST
    }

    /// The kind of the token between members.
    pub fn separating_element_kind(&self) -> (r: SyntaxKind)
        ensures
            r == SyntaxKind::COMMA,
    {
        SyntaxKind::COMMA
    }

    /// A comma may follow the last member.
    pub fn allow_trailing_separating_element(&self) -> (r: bool)
        ensures
            r,
    {
        true
    }

    /// The list ends before a `}`.
    pub fn is_at_list_end(&self, p: &JsParser) -> (r: bool)
        requires
            p@.wf(),
        ensures
            r == (p@.cur() == SyntaxKind::R_CURLY),
    {
        p.at(SyntaxKind::R_CURLY)
    }

    /// One member.
    pub fn parse_element(&self, p: &mut JsParser) -> (r: ParsedSyntax)
        requires
            old(p)@.wf(),
        ensures
            final(p)@.wf(),
            parsed(old(p)@, final(p)@, r),
            r is Absent <==> member_absent(old(p)@),
            r matches ParsedSyntax::Present(m) ==> final(p)@.pos > old(p)@.pos && member_kind(
                final(p)@.kind_of(m),
            ),
            r is Present && member_known(old(p)@) ==> reached(final(p)@, member_after(old(p)@))
                && final(p)@.events == old(p)@.events + member_events(old(p)@),
        decreases old(p)@.tokens.len() - old(p)@.pos, 7int,
    {
        parse_object_member(p)
    }

    /// Skips the tokens up to a `,`, `}`, `;`, `:`, a line break or the end of the
    /// stream, in a `JS_BOGUS_MEMBER` node.
    fn recover_member(&self, p: &mut JsParser) -> (r: Result<CompletedMarker, RecoveryError>)
        requires
            old(p)@.wf(),
        ensures
            final(p)@.wf(),
            r matches Err(e) ==> final(p)@ == old(p)@ && (e == RecoveryError::Eof <==> old(p)@.cur() == SyntaxKind::EOF) && (e == RecoveryError::AlreadyRecovered <==> (old(p)@.cur() != SyntaxKind::EOF && member_recovered(old(p)@))),
            r matches Ok(m) ==> {
                &&& old(p)@.cur() != SyntaxKind::EOF
                &&& !member_recovered(old(p)@)
                &&& parsed(old(p)@, final(p)@, ParsedSyntax::Present(m))
                &&& final(p)@.kind_of(m) == SyntaxKind::JS_BOGUS_MEMBER
                &&& final(p)@.pos > old(p)@.pos
                &&& final(p)@.diagnostics == old(p)@.diagnostics
                &&& (member_recovered(final(p)@) || final(p)@.cur() == SyntaxKind::EOF)
                &&& final(p)@.pos == recovery_end_from(old(p)@.tokens, old(p)@.pos + 1)
                &&& final(p)@.events == old(p)@.events + bogus_member_events(
                    old(p)@.tokens,
                    old(p)@.pos,
                    final(p)@.pos,
                )
            },
    {
        if p.at(SyntaxKind::EOF) {
            return Err(RecoveryError::Eof);
        }
        if is_at_member_recovered(p) {
            return Err(RecoveryError::AlreadyRecovered);
        }
        let ghost s0 = p@;
        let m = p.start();
        let ghost s1 = p@;
        proof {
            lemma_grows_refl(s1);
            assert(s1.events =~= s1.events + token_events(s0.tokens, s0.pos, s1.pos));
        }
        while !(is_at_member_recovered(p) || p.at(SyntaxKind::EOF))
            invariant
                p@.events == s1.events + token_events(s0.tokens, s0.pos, p@.pos),
                p@.wf(),
                s1.wf(),
                grows(s1, p@),
                p@.diagnostics == s1.diagnostics,
                s1.pos == s0.pos,
                p@.pos == s0.pos ==> p@ == s1,
                s1.cur() == s0.cur(),
                s1.tokens == s0.tokens,
                s0.cur() != SyntaxKind::EOF,
                !member_recovered(s1),
                p@.pos > s0.pos ==> recovery_end_from(p@.tokens, p@.pos) == recovery_end_from(
                    s0.tokens,
                    s0.pos + 1,
                ),
            decreases p@.tokens.len() - p@.pos,
        {
            let ghost a = p@;
            proof {
                assert(a.pos < a.tokens.len());
                assert(!member_recovered(a));
                assert(recovery_end_from(a.tokens, a.pos) == recovery_end_from(a.tokens, a.pos + 1));
            }
            p.bump_any();
            proof {
                lemma_bumped_grows(a, a.cur());
                lemma_grows_trans(s1, a, p@);
                assert(p@.events =~= s1.events + token_events(s0.tokens, s0.pos, p@.pos));
            }
        }
        let ghost s2 = p@;
        proof {
            lemma_grows_keeps(s1, s2, m.pos as int);
        }
        let cm = p.complete(m, SyntaxKind::JS_BOGUS_MEMBER);
        proof {
            lemma_completed(s0, s1, s2, p@, SyntaxKind::JS_BOGUS_MEMBER);
            assert(p@.events =~= s0.events + bogus_member_events(s0.tokens, s0.pos, s2.pos));
        }
        Ok(cm)
    }

    /// Hands out a member that was parsed; when none was, skips to a point from where
    /// the list goes on and reports that a member was expected.
    pub fn recover(&self, p: &mut JsParser, parsed_element: ParsedSyntax) -> (r: Result<
        CompletedMarker,
        RecoveryError,
    >)
        requires
            old(p)@.wf(),
        ensures
            final(p)@.wf(),
            grows(old(p)@, final(p)@),
            parsed_element matches ParsedSyntax::Present(m) ==> r == Ok::<
                CompletedMarker,
                RecoveryError,
            >(m) && final(p)@ == old(p)@,
            parsed_element is Absent ==> {
                &&& (r is Err <==> (old(p)@.cur() == SyntaxKind::EOF || member_recovered(old(p)@)))
                &&& r is Err ==> final(p)@ == old(p)@.with_diagnostics(
                    old(p)@.diagnosed(
                        ParseDiagnostic {
                            kind: DiagnosticKind::ExpectedObjectMember,
                            start: old(p)@.pos as usize,
                            end: old(p)@.cur_end() as usize,
                        },
                    ),
                )
                &&& r is Ok ==> final(p)@.pos > old(p)@.pos
                &&& r matches Ok(m) ==> {
                    &&& final(p)@.kind_of(m) == SyntaxKind::JS_BOGUS_MEMBER
                    &&& parsed(
                        old(p)@,
                        final(p)@.with_diagnostics(old(p)@.diagnostics),
                        ParsedSyntax::Present(m),
                    )
                    &&& final(p)@.diagnostics == old(p)@.diagnosed(
                        ParseDiagnostic {
                            kind: DiagnosticKind::ExpectedObjectMember,
                            start: old(p)@.pos as usize,
                            end: final(p)@.pos as usize,
                        },
                    )
                    &&& (member_recovered(final(p)@) || final(p)@.cur() == SyntaxKind::EOF)
                    &&& final(p)@.pos == recovery_end_from(old(p)@.tokens, old(p)@.pos + 1)
                    &&& final(p)@.events == old(p)@.events + bogus_member_events(
                        old(p)@.tokens,
                        old(p)@.pos,
                        final(p)@.pos,
                    )
                }
            },
    {
        proof {
            lemma_grows_refl(p@);
        }
        match parsed_element {
            ParsedSyntax::Present(m) => Ok(m),
            ParsedSyntax::Absent => {
                let ghost s0 = p@;
                let start = p.cur_start();
                match self.recover_member(p) {
                    Ok(recovered) => {
                        let ghost s1 = p@;
                        let end = p.cur_start();
                        p.error(
                            ParseDiagnostic {
                                kind: DiagnosticKind::ExpectedObjectMember,
                                start,
                                end,
                            },
                        );
                        proof {
                            lemma_parsed_grows(s0, s1, ParsedSyntax::Present(recovered));
                            lemma_diagnosed_grows(
                                s1,
                                ParseDiagnostic {
                                    kind: DiagnosticKind::ExpectedObjectMember,
                                    start,
                                    end,
                                },
                            );
                            lemma_grows_trans(s0, s1, p@);
                        }
                        Ok(recovered)
                    },
                    Err(e) => {
                        proof {
                            lemma_diagnosed_grows(
                                s0,
                                ParseDiagnostic {
                                    kind: DiagnosticKind::ExpectedObjectMember,
                                    start: s0.pos as usize,
                                    end: s0.cur_end() as usize,
                                },
                            );
                        }
                        p.error_at_cur(DiagnosticKind::ExpectedObjectMember);
                        Err(e)
                    },
                }
            },
        }
    }

    /// The members up to the `}` or the end of the stream, in a
    /// `JS_OBJECT_MEMBER_LIST` node: before each member but the first a `,` is
    /// expected, and the list ends after a `,` before a `}`.
    #[verifier::spinoff_prover]
    #[verifier::rlimit(60)]
    pub fn parse_list(&self, p: &mut JsParser) -> (r: CompletedMarker)
        requires
            old(p)@.wf(),
        ensures
            final(p)@.wf(),
            parsed(old(p)@, final(p)@, ParsedSyntax::Present(r)),
            final(p)@.kind_of(r) == SyntaxKind::JS_OBJECT_MEMBER_LIST,
            list_stopped(final(p)@),
            member_children(
                final(p)@.events.subrange(
                    old(p)@.events.len() as int + 1,
                    final(p)@.events.len() - 1,
                ),
            ),
            old(p)@.cur() == SyntaxKind::EOF || old(p)@.cur() == SyntaxKind::R_CURLY ==> {
                &&& final(p)@.pos == old(p)@.pos
                &&& final(p)@.diagnostics == old(p)@.diagnostics
                &&& final(p)@.events == old(p)@.events + seq![
                    Event::Start { kind: SyntaxKind::JS_OBJECT_MEMBER_LIST },
                    Event::Finish,
                ]
            },
            list_after(old(p)@, true) matches Some(c) ==> reached(final(p)@, c),
            list_after(old(p)@, true) is Some ==> final(p)@.events == old(p)@.events
                + list_node_events(old(p)@),
        decreases old(p)@.tokens.len() - old(p)@.pos, 8int,
    {
        let ghost s0 = p@;
        let ghost total = list_after(s0, true);
        let elements = p.start();
        let ghost s1 = p@;
        proof {
            lemma_grows_refl(s1);
            assert(s1.events.skip(s1.events.len() as int) =~= Seq::<Event>::empty());
            lemma_list_cursor(s1, s0, true);
        }
        let mut first = true;
        while !p.at(SyntaxKind::EOF) && !self.is_at_list_end(p)
            invariant
                old(p)@ == s0,
                p@.wf(),
                s0.wf(),
                s1.wf(),
                s1.pos == s0.pos,
                s1.tokens == s0.tokens,
                s1.events.len() == s0.events.len() + 1,
                grows(s1, p@),
                elements.pos == s0.events.len(),
                s1.events[elements.pos as int] == (Event::Start { kind: SyntaxKind::TOMBSTONE }),
                elements.pos < s1.events.len(),
                member_children(p@.events.skip(s1.events.len() as int)),
                s0.cur() == SyntaxKind::EOF || s0.cur() == SyntaxKind::R_CURLY ==> p@ == s1,
                total == list_after(s0, true),
                total is Some ==> total == list_after(p@, first),
                total is Some ==> list_events(s0, true) == p@.events.skip(s1.events.len() as int)
                    + list_events(p@, first),
            ensures
                p@.wf(),
                grows(s1, p@),
                list_stopped(p@),
                member_children(p@.events.skip(s1.events.len() as int)),
                s0.cur() == SyntaxKind::EOF || s0.cur() == SyntaxKind::R_CURLY ==> p@ == s1,
                total matches Some(t) ==> (reached(p@, t) || (total == list_after(p@, first) && (
                p@.cur() == SyntaxKind::EOF || p@.cur() == SyntaxKind::R_CURLY))),
                total is Some ==> (list_events(s0, true) == p@.events.skip(s1.events.len() as int)
                    || (list_events(s0, true) == p@.events.skip(s1.events.len() as int)
                    + list_events(p@, first) && (p@.cur() == SyntaxKind::EOF || p@.cur()
                    == SyntaxKind::R_CURLY))),
            decreases 2 * (p@.tokens.len() - p@.pos) + (if first {
                1int
            } else {
                0int
            }),
        {
            let ghost a = p@;
            let ghost f = first;
            if first {
                first = false;
            } else {
                let found = self.expect_separator(p);
                let ghost b = p@;
                proof {
                    lemma_grows_trans(s1, a, b);
                    let l = s1.events.len() as int;
                    if found {
                        assert(b.events.skip(l) =~= a.events.skip(l).push(
                            Event::Token { kind: SyntaxKind::COMMA },
                        ));
                        lemma_children_comma(a.events.skip(l));
                    }
                    assert(b.events =~= a.events + list_head_events(a, f));
                }
                proof {
                    assert(reached(b, list_head(a, f)));
                }
                if self.allow_trailing_separating_element() && self.is_at_list_end(p) {
                    proof {
                        lemma_list_trailing(a, b);
                        if total is Some {
                            assert(b.events =~= b.events + Seq::<Event>::empty());
                            assert(list_events(a, f) =~= list_head_events(a, f)
                                + Seq::<Event>::empty() + Seq::<Event>::empty());
                            lemma_list_events_step(
                                list_events(s0, true),
                                s1.events.len() as int,
                                a,
                                f,
                                b,
                                b,
                                Seq::empty(),
                                Seq::empty(),
                            );
                        }
                    }
                    break;
                }
            }
            let ghost b = p@;
            proof {
                assert(reached(b, list_head(a, f)));
                assert(b.events == a.events + list_head_events(a, f)) by {
                    if f {
                        assert(a.events =~= a.events + Seq::<Event>::empty());
                    }
                }
            }
            let parsed_element = self.parse_element(p);
            let ghost c = p@;
            proof {
                lemma_parsed_grows(b, c, parsed_element);
                lemma_grows_trans(s1, b, c);
                if let ParsedSyntax::Present(m) = parsed_element {
                    lemma_children_parsed(s1, b, c, m);
                }
            }
            if parsed_element.is_absent() && p.at(self.separating_element_kind()) {
                proof {
                    lemma_list_comma(a, f, b);
                    if total is Some {
                        assert(b.events =~= b.events + Seq::<Event>::empty());
                        assert(list_events(a, f) =~= list_head_events(a, f) + Seq::<Event>::empty()
                            + list_events(b, false));
                        lemma_list_events_step(
                            list_events(s0, true),
                            s1.events.len() as int,
                            a,
                            f,
                            b,
                            b,
                            Seq::empty(),
                            list_events(b, false),
                        );
                    }
                }
                continue;
            }
            let recovered = self.recover(p, parsed_element);
            proof {
                lemma_grows_trans(s1, c, p@);
                if parsed_element is Absent {
                    if let Ok(m) = recovered {
                        lemma_children_parsed(s1, c, p@.with_diagnostics(c.diagnostics), m);
                    }
                }
                let l = s1.events.len() as int;
                let e = list_events(s0, true);
                if parsed_element is Present {
                    lemma_list_member(a, f, b, p@);
                    if total is Some {
                        lemma_list_events_step(e, l, a, f, b, p@, member_events(b), list_events(p@, false));
                    }
                } else if recovered is Ok {
                    lemma_list_recovered(a, f, b, p@);
                    if total is Some {
                        lemma_list_events_step(
                            e,
                            l,
                            a,
                            f,
                            b,
                            p@,
                            bogus_member_events(b.tokens, b.pos, p@.pos),
                            list_events(p@, false),
                        );
                    }
                } else {
                    lemma_list_unrecovered(a, f, b, p@);
                    if total is Some {
                        assert(p@.events =~= b.events + Seq::<Event>::empty());
                        assert(list_events(a, f) =~= list_head_events(a, f) + Seq::<Event>::empty()
                            + Seq::<Event>::empty());
                        lemma_list_events_step(e, l, a, f, b, p@, Seq::empty(), Seq::empty());
                    }
                }
            }
            if recovered.is_err() {
                break;
            }
        }
        let ghost s2 = p@;
        proof {
            lemma_grows_keeps(s1, s2, elements.pos as int);
            if total is Some && (s2.cur() == SyntaxKind::EOF || s2.cur() == SyntaxKind::R_CURLY) {
                lemma_list_stop(s2, first);
            }
            if total is Some {
                assert(list_events(s0, true) =~= s2.events.skip(s1.events.len() as int));
            }
        }
        let list_kind = self.list_kind();
        let cm = p.complete(elements, list_kind);
        proof {
            lemma_completed(s0, s1, s2, p@, SyntaxKind::JS_OBJECT_MEMBER_LIST);
            assert(p@.events.subrange(s0.events.len() as int + 1, p@.events.len() - 1)
                =~= s2.events.skip(s1.events.len() as int));
            if s0.cur() == SyntaxKind::EOF || s0.cur() == SyntaxKind::R_CURLY {
                assert(p@.events =~= s0.events + seq![
                    Event::Start { kind: SyntaxKind::JS_OBJECT_MEMBER_LIST },
                    Event::Finish,
                ]);
            }
            if total is Some {
                assert(p@.events =~= s0.events + list_node_events(s0));
            }
        }
        cm
    }

    /// Expects the `,` between two members.
    fn expect_separator(&self, p: &mut JsParser) -> (r: bool)
        requires
            old(p)@.wf(),
        ensures
            final(p)@.wf(),
            grows(old(p)@, final(p)@),
            r == (old(p)@.cur() == SyntaxKind::COMMA),
            r ==> final(p)@.pos == old(p)@.pos + 1 && final(p)@.events == old(p)@.events.push(
                Event::Token { kind: SyntaxKind::COMMA },
            ),
            !r ==> final(p)@.pos == old(p)@.pos && final(p)@.cur() == old(p)@.cur()
                && final(p)@.events == old(p)@.events,
            reached(final(p)@, old(p)@.expected(SyntaxKind::COMMA)),
    {
        let sep = self.separating_element_kind();
        p.expect(sep)
    }
}

fn is_at_member_recovered(p: &JsParser) -> (r: bool)
    requires
        p@.wf(),
    ensures
        r == member_recovered(p@),
{
    p.at(SyntaxKind::COMMA) || p.at(SyntaxKind::R_CURLY) || p.at(SyntaxKind::SEMICOLON) || p.at(
        SyntaxKind::COLON,
    ) || p.has_preceding_line_break()
}

/// An object literal such as `{ a: b, "b": 5 + 5 }`: a `{`, the members and the
/// expected `}`, in a `JS_OBJECT_EXPRESSION` node; `Absent` when the current token
/// is not `{`.
#[verifier::spinoff_prover]
#[verifier::rlimit(40)]
pub fn parse_object_expression(p: &mut JsParser) -> (r: ParsedSyntax)
    requires
        old(p)@.wf(),
    ensures
        final(p)@.wf(),
        parsed(old(p)@, final(p)@, r),
        r is Absent <==> old(p)@.cur() != SyntaxKind::L_CURLY,
        r matches ParsedSyntax::Present(m) ==> {
            &&& final(p)@.kind_of(m) == SyntaxKind::JS_OBJECT_EXPRESSION
            &&& final(p)@.pos > old(p)@.pos
            &&& final(p)@.events[old(p)@.events.len() as int + 1] == (Event::Token {
                kind: SyntaxKind::L_CURLY,
            })
            &&& final(p)@.events[old(p)@.events.len() as int + 2] == (Event::Start {
                kind: SyntaxKind::JS_OBJECT_MEMBER_LIST,
            })
            &&& (final(p)@.events[final(p)@.events.len() - 2] == (Event::Token {
                kind: SyntaxKind::R_CURLY,
            }) || (final(p)@.diagnostics.len() > 0 && final(p)@.diagnostics.last().start
                == final(p)@.pos))
            &&& final(p)@.events[final(p)@.events.len() - 2] == (Event::Token {
                kind: SyntaxKind::R_CURLY,
            }) ==> final(p)@.events[final(p)@.events.len() - 3] == Event::Finish
                && member_children(
                final(p)@.events.subrange(
                    old(p)@.events.len() as int + 3,
                    final(p)@.events.len() - 3,
                ),
            )
            &&& final(p)@.events[final(p)@.events.len() - 2] != (Event::Token {
                kind: SyntaxKind::R_CURLY,
            }) ==> final(p)@.events[final(p)@.events.len() - 2] == Event::Finish
                && member_children(
                final(p)@.events.subrange(
                    old(p)@.events.len() as int + 3,
                    final(p)@.events.len() - 2,
                ),
            )
            &&& old(p)@.nth(1) == SyntaxKind::R_CURLY ==> final(p)@.pos == old(p)@.pos + 2
                && final(p)@.diagnostics == old(p)@.diagnostics
            &&& list_after(old(p)@.skipped(), true) matches Some(c) ==> reached(
                final(p)@,
                c.expected(SyntaxKind::R_CURLY),
            ) && final(p)@.events == old(p)@.events + object_expression_events(old(p)@)
        },
    decreases old(p)@.tokens.len() - old(p)@.pos, 9int,
{
    if !p.at(SyntaxKind::L_CURLY) {
        return ParsedSyntax::Absent;
    }
    let ghost s0 = p@;
    let m = p.start();
    let ghost s1 = p@;
    p.bump(SyntaxKind::L_CURLY);
    let ghost s2 = p@;
    let list = ObjectMembersList.parse_list(p);
    let ghost s3 = p@;
    p.expect(SyntaxKind::R_CURLY);
    let ghost s4 = p@;
    proof {
        lemma_bumped_grows(s1, SyntaxKind::L_CURLY);
        lemma_parsed_grows(s2, s3, ParsedSyntax::Present(list));
        lemma_grows_trans(s1, s2, s3);
        lemma_grows_trans(s1, s3, s4);
        lemma_grows_trans(s2, s3, s4);
        lemma_grows_keeps(s1, s4, m.pos as int);
        lemma_grows_keeps(s2, s4, s1.events.len() as int);
        lemma_grows_keeps(s3, s4, s2.events.len() as int);
    }
    let cm = p.complete(m, SyntaxKind::JS_OBJECT_EXPRESSION);
    proof {
        lemma_completed(s0, s1, s4, p@, SyntaxKind::JS_OBJECT_EXPRESSION);
        assert(p@.events.subrange(s0.events.len() as int + 3, s3.events.len() - 1)
            =~= s3.events.subrange(s2.events.len() as int + 1, s3.events.len() - 1));
        lemma_list_cursor(s2, s0.skipped(), true);
        assert(reached(s4, s3.expected(SyntaxKind::R_CURLY)));
        if let Some(c) = list_after(s0.skipped(), true) {
            assert(s4.events =~= s3.events + expected_events(c, SyntaxKind::R_CURLY));
            assert(p@.events =~= s0.events + object_expression_events(s0));
        }
    }
    ParsedSyntax::Present(cm)
}

/// An individual object member such as `"a": b`, `5: 6 + 6`, `a`, `...a`, `a() {}`,
/// `get a() {}` or `set a(v) {}`; `Absent`, with the parser as it was, when no member
/// starts at the current token.
#[verifier::spinoff_prover]
#[verifier::rlimit(60)]
pub fn parse_object_member(p: &mut JsParser) -> (r: ParsedSyntax)
    requires
        old(p)@.wf(),
    ensures
        final(p)@.wf(),
        parsed(old(p)@, final(p)@, r),
        r is Absent <==> member_absent(old(p)@),
        r matches ParsedSyntax::Present(m) ==> final(p)@.pos > old(p)@.pos && member_kind(
            final(p)@.kind_of(m),
        ),
        getter_start(old(p)@) ==> getter_post(old(p)@, final(p)@, r),
        setter_start(old(p)@) ==> setter_post(old(p)@, final(p)@, r),
        async_method_start(old(p)@) || old(p)@.cur() == SyntaxKind::STAR ==> method_post(
            old(p)@,
            final(p)@,
            r,
        ),
        old(p)@.cur() == SyntaxKind::DOT3 ==> result_kind(final(p)@, r) == SyntaxKind::JS_SPREAD,
        !keyword_member_start(old(p)@) && name_known(old(p)@) && r is Present ==> result_kind(
            final(p)@,
            r,
        ) == named_member_kind(old(p)@),
        r is Present && member_known(old(p)@) ==> reached(final(p)@, member_after(old(p)@))
            && final(p)@.events == old(p)@.events + member_events(old(p)@),
    decreases old(p)@.tokens.len() - old(p)@.pos, 6int,
{
    if p.at(SyntaxKind::GET_KW) && !p.has_nth_preceding_line_break(1)
        && is_nth_at_type_member_name(p, 1) {
        return parse_getter_object_member(p);
    }
    if p.at(SyntaxKind::SET_KW) && !p.has_nth_preceding_line_break(1)
        && is_nth_at_type_member_name(p, 1) {
        return parse_setter_object_member(p);
    }
    if p.at(SyntaxKind::ASYNC_KW) && is_parser_at_async_method_member(p) {
        return parse_method_object_member(p);
    }
    if p.at(SyntaxKind::DOT3) {
        return parse_spread_member(p);
    }
    if p.at(SyntaxKind::STAR) {
        return parse_method_object_member(p);
    }
    parse_named_object_member(p)
}

/// A shorthand property `a`, or a shorthand with an initializer `a = b`, which is
/// reported and becomes a bogus member.
#[verifier::spinoff_prover]
#[verifier::rlimit(60)]
fn parse_shorthand_member(p: &mut JsParser) -> (r: ParsedSyntax)
    requires
        old(p)@.wf(),
        shorthand_start(old(p)@),
    ensures
        final(p)@.wf(),
        parsed(old(p)@, final(p)@, r),
        r is Present,
        final(p)@.pos > old(p)@.pos,
        result_kind(final(p)@, r) == named_member_kind(old(p)@),
        named_member_known(old(p)@) ==> reached(final(p)@, named_member_after(old(p)@))
            && final(p)@.events == old(p)@.events + named_member_events(old(p)@),
    decreases old(p)@.tokens.len() - old(p)@.pos, 4int,
{
    proof {
        reveal(named_member_after_at);
        reveal(named_member_events_at);
    }
    let ghost s0 = p@;
    let m = p.start();
    let ghost s1 = p@;
    let identifier = parse_reference_identifier(p);
    let ghost s2 = p@;
    proof {
        lemma_parsed_grows(s1, s2, identifier);
    }
    if p.at(SyntaxKind::EQ) {
        p.error_at_cur(DiagnosticKind::ShorthandPropertyInitializer);
        let ghost s3 = p@;
        p.bump(SyntaxKind::EQ);
        let ghost s4 = p@;
        let initializer = parse_assignment_expression_or_higher(p);
        let ghost s5 = p@;
        proof {
            lemma_parsed_grows(s4, s5, initializer);
            lemma_diagnosed_grows(
                s2,
                ParseDiagnostic {
                    kind: DiagnosticKind::ShorthandPropertyInitializer,
                    start: s2.pos as usize,
                    end: s2.cur_end() as usize,
                },
            );
            lemma_bumped_grows(s3, SyntaxKind::EQ);
            lemma_grows_trans(s1, s2, s3);
            lemma_grows_trans(s1, s3, s4);
            lemma_grows_trans(s1, s4, s5);
            lemma_grows_keeps(s1, s5, m.pos as int);
            assert(reached(
                s4,
                s0.skipped().reported(DiagnosticKind::ShorthandPropertyInitializer).skipped(),
            ));
        }
        let cm = p.complete(m, SyntaxKind::JS_BOGUS_MEMBER);
        proof {
            lemma_completed(s0, s1, s5, p@, SyntaxKind::JS_BOGUS_MEMBER);
            lemma_named_initializer_events(s0, s4);
            lemma_value_unfold(s4, RunEnd::Assignment, DiagnosticKind::ExpectedExpressionAssignment);
            if named_member_known(s0) {
                assert(s5.events == s4.events + member_value_events(s4, RunEnd::Assignment));
                assert(reached(s5, named_member_after(s0)));
                let inner = seq![Event::Start { kind: SyntaxKind::JS_REFERENCE_IDENTIFIER }, Event::Token { kind: SyntaxKind::IDENT }, Event::Finish] + seq![Event::Token { kind: SyntaxKind::EQ }]
                    + member_value_events(s4, RunEnd::Assignment);
                assert(s5.events =~= s1.events + inner);
                lemma_node_events(s0, s1, s5, p@, SyntaxKind::JS_BOGUS_MEMBER, inner);
            }
        }
        ParsedSyntax::Present(cm)
    } else {
        proof {
            lemma_grows_keeps(s1, s2, m.pos as int);
            assert(reached(s2, s0.skipped()));
            assert(named_member_after(s0) == named_member_after_at(s0.cursor()));
            assert(named_member_events(s0) == named_member_events_at(s0.cursor()));
        }
        let cm = p.complete(m, SyntaxKind::JS_SHORTHAND_PROPERTY_OBJECT_MEMBER);
        proof {
            lemma_completed(s0, s1, s2, p@, SyntaxKind::JS_SHORTHAND_PROPERTY_OBJECT_MEMBER);
            let inner = seq![Event::Start { kind: SyntaxKind::JS_REFERENCE_IDENTIFIER }, Event::Token { kind: SyntaxKind::IDENT }, Event::Finish];
            assert(s2.events =~= s1.events + inner);
            lemma_node_events(s0, s1, s2, p@, SyntaxKind::JS_SHORTHAND_PROPERTY_OBJECT_MEMBER, inner);
            assert(named_member_events(s0) =~= seq![Event::Start { kind: SyntaxKind::JS_SHORTHAND_PROPERTY_OBJECT_MEMBER }] + inner + seq![Event::Finish]);
        }
        ParsedSyntax::Present(cm)
    }
}

/// A spread member `...a`: the `...` and the expected expression, in a `JS_SPREAD`
/// node.
#[verifier::spinoff_prover]
#[verifier::rlimit(60)]
fn parse_spread_member(p: &mut JsParser) -> (r: ParsedSyntax)
    requires
        old(p)@.wf(),
        old(p)@.cur() == SyntaxKind::DOT3,
    ensures
        final(p)@.wf(),
        parsed(old(p)@, final(p)@, r),
        result_kind(final(p)@, r) == SyntaxKind::JS_SPREAD,
        final(p)@.pos > old(p)@.pos,
        object_known(old(p)@.skipped()) ==> reached(final(p)@, spread_after(old(p)@))
            && final(p)@.events == old(p)@.events + spread_events(old(p)@),
    decreases old(p)@.tokens.len() - old(p)@.pos, 5int,
{
    let ghost s0 = p@;
    let m = p.start();
    let ghost s1 = p@;
    p.bump_any();
    let ghost s2 = p@;
    let argument = parse_assignment_expression_or_higher(p);
    let ghost s3 = p@;
    let _ = or_add_diagnostic(p, argument, DiagnosticKind::ExpectedExpressionAssignment);
    let ghost s4 = p@;
    proof {
        lemma_bumped_grows(s1, SyntaxKind::DOT3);
        lemma_parsed_grows(s2, s3, argument);
        lemma_grows_trans(s1, s2, s3);
        lemma_grows_trans(s1, s3, s4);
        lemma_grows_keeps(s1, s4, m.pos as int);
        assert(reached(s2, s0.skipped()));
        lemma_value_cursor(s2, s0.skipped(), RunEnd::Assignment, DiagnosticKind::ExpectedExpressionAssignment);
        if object_known(s0.skipped()) {
            if s0.nth(1) != SyntaxKind::L_CURLY {
                assert(reached(
                    s4,
                    value_after(s2, RunEnd::Assignment, DiagnosticKind::ExpectedExpressionAssignment),
                ));
            }
            assert(reached(
                s4,
                member_value_after(s2, RunEnd::Assignment, DiagnosticKind::ExpectedExpressionAssignment),
            ));
            assert(s4.events == s2.events + member_value_events(s2, RunEnd::Assignment));
        }
    }
    let cm = p.complete(m, SyntaxKind::JS_SPREAD);
    proof {
        lemma_completed(s0, s1, s4, p@, SyntaxKind::JS_SPREAD);
        if object_known(s0.skipped()) {
            let inner = seq![Event::Token { kind: SyntaxKind::DOT3 }] + member_value_events(
                s2,
                RunEnd::Assignment,
            );
            assert(s4.events =~= s1.events + inner);
            lemma_node_events(s0, s1, s4, p@, SyntaxKind::JS_SPREAD, inner);
            assert(member_value_events(s2, RunEnd::Assignment) == member_value_events(
                s0.skipped(),
                RunEnd::Assignment,
            ));
            assert(spread_events(s0) =~= seq![Event::Start { kind: SyntaxKind::JS_SPREAD }] + inner
                + seq![Event::Finish]);
        }
    }
    ParsedSyntax::Present(cm)
}

/// A member that starts with a name: a shorthand property, possibly with a reported
/// initializer, a method or a property; after a missing name, a one-token recovery
/// and a `:` make a property, and anything else leaves the parser as it was.
#[verifier::spinoff_prover]
#[verifier::rlimit(100)]
fn parse_named_object_member(p: &mut JsParser) -> (r: ParsedSyntax)
    requires
        old(p)@.wf(),
    ensures
        final(p)@.wf(),
        parsed(old(p)@, final(p)@, r),
        r is Absent <==> (!shorthand_start(old(p)@) && !member_name_start(old(p)@.cur())
            && old(p)@.cur() != SyntaxKind::L_PAREN && old(p)@.cur() != SyntaxKind::L_ANGLE && (
        if single_token_recovered(old(p)@.cur()) {
            old(p)@.cur() != SyntaxKind::COLON
        } else {
            old(p)@.nth(1) != SyntaxKind::COLON
        })),
        r is Present ==> final(p)@.pos > old(p)@.pos,
        r is Present && name_known(old(p)@) ==> result_kind(final(p)@, r) == named_member_kind(
            old(p)@,
        ),
        !shorthand_start(old(p)@) && r is Present ==> (result_kind(final(p)@, r)
            == SyntaxKind::JS_METHOD_OBJECT_MEMBER || result_kind(final(p)@, r)
            == SyntaxKind::JS_PROPERTY_OBJECT_MEMBER),
        r is Present && named_member_known(old(p)@) ==> reached(
            final(p)@,
            named_member_after(old(p)@),
        ) && final(p)@.events == old(p)@.events + named_member_events(old(p)@),
    decreases old(p)@.tokens.len() - old(p)@.pos, 5int,
{
    let ghost s0 = p@;
    let m = p.start();
    let ghost s1 = p@;
    if is_nth_at_reference_identifier(p, 0) && !(p.nth_at(1, SyntaxKind::L_PAREN) || p.nth_at(
        1,
        SyntaxKind::L_ANGLE,
    ) || p.nth_at(1, SyntaxKind::COLON)) {
        p.abandon(m);
        proof {
            assert(p@ =~= s0);
        }
        return parse_shorthand_member(p);
    }
    let checkpoint = p.checkpoint();
    let name = parse_object_member_name(p);
    let ghost s2 = p@;
    let member_name = or_add_diagnostic(p, name, DiagnosticKind::ExpectedObjectMember);
    let ghost s3 = p@;
    proof {
        lemma_parsed_grows(s1, s2, name);
        lemma_grows_trans(s1, s2, s3);
        assert(reached(s1, s0));
        if name_known(s0) {
            assert(reached(s3, named_member_name_after(s1)));
            assert(reached(s3, named_member_name_after(s0)));
        }
    }
    if p.at(SyntaxKind::L_PAREN) || p.at(SyntaxKind::L_ANGLE) {
        parse_method_object_member_body(p, SignatureFlags::empty());
        let ghost s4 = p@;
        proof {
            lemma_grows_trans(s1, s3, s4);
            lemma_grows_keeps(s1, s4, m.pos as int);
        }
        let cm = p.complete(m, SyntaxKind::JS_METHOD_OBJECT_MEMBER);
        proof {
            lemma_completed(s0, s1, s4, p@, SyntaxKind::JS_METHOD_OBJECT_MEMBER);
            if named_member_known(s0) {
                let inner = required_name_events(s1) + method_body_events(s3, plain());
                assert(s2.events == s1.events + required_name_events(s1));
                assert(s4.events =~= s1.events + inner);
                lemma_node_events(s0, s1, s4, p@, SyntaxKind::JS_METHOD_OBJECT_MEMBER, inner);
                lemma_named_method_events(s0, s1, s3);
            }
        }
        ParsedSyntax::Present(cm)
    } else if member_name.is_some() {
        parse_property_value(p);
        let ghost s6 = p@;
        proof {
            lemma_grows_trans(s1, s3, s6);
            lemma_grows_keeps(s1, s6, m.pos as int);
        }
        let cm = p.complete(m, SyntaxKind::JS_PROPERTY_OBJECT_MEMBER);
        proof {
            lemma_completed(s0, s1, s6, p@, SyntaxKind::JS_PROPERTY_OBJECT_MEMBER);
            if named_member_known(s0) {
                let s4 = s3.expected(SyntaxKind::COLON);
                assert(named_member_name_after(s0.cursor()) == named_member_name_after(s0));
                assert(s4 == named_member_name_after(s0).expected(SyntaxKind::COLON));
                assert(object_known(s4));
                let inner = name_events(s1) + expected_events(s3, SyntaxKind::COLON)
                    + member_value_events(s4, RunEnd::Assignment);
                assert(s2.events == s1.events + name_events(s1));
                assert(s6.events =~= s1.events + inner);
                lemma_node_events(s0, s1, s6, p@, SyntaxKind::JS_PROPERTY_OBJECT_MEMBER, inner);
                lemma_named_property_events(s0, s1, s3, s4);
            }
        }
        ParsedSyntax::Present(cm)
    } else {
        if parse_recovered_value(p) {
            let ghost s7 = p@;
            proof {
                lemma_grows_trans(s1, s3, s7);
                lemma_grows_keeps(s1, s7, m.pos as int);
            }
            let cm = p.complete(m, SyntaxKind::JS_PROPERTY_OBJECT_MEMBER);
            proof {
                lemma_completed(s0, s1, s7, p@, SyntaxKind::JS_PROPERTY_OBJECT_MEMBER);
                if named_member_known(s0) {
                    let u = if single_token_recovered(s3.cur()) {
                        s3.cursor()
                    } else {
                        s3.skipped()
                    };
                    let s5 = u.skipped();
                    let bogus = if single_token_recovered(s3.cur()) {
                        Seq::<Event>::empty()
                    } else {
                        seq![
                            Event::Start { kind: SyntaxKind::JS_BOGUS },
                            Event::Token { kind: s3.cur() },
                            Event::Finish,
                        ]
                    };
                    assert(named_member_name_after(s0.cursor()) == named_member_name_after(s0));
                    assert(recovered_value_start(s0.cursor()) == recovered_value_start(s0));
                    assert(s5 == recovered_value_start(s0));
                    assert(object_known(s5));
                    let inner = bogus + seq![Event::Token { kind: SyntaxKind::COLON }]
                        + member_value_events(s5, RunEnd::Assignment);
                    assert(s3.events == s1.events);
                    assert(s7.events =~= s1.events + inner);
                    lemma_node_events(s0, s1, s7, p@, SyntaxKind::JS_PROPERTY_OBJECT_MEMBER, inner);
                    assert(reached(s5, recovered_value_start(s0)));
                    lemma_named_recovered_events(s0, s3, s5);
                }
            }
            ParsedSyntax::Present(cm)
        } else {
            let ghost s4 = p@;
            proof {
                lemma_grows_trans(s1, s3, s4);
                law_rewind_restores(s1, s4);
                assert(s4.events.take(checkpoint.event_pos + 1) =~= s1.events);
            }
            p.rewind(checkpoint);
            p.abandon(m);
            proof {
                assert(p@ =~= s0);
            }
            ParsedSyntax::Absent
        }
    }
}

/// The `:` that a property expects after its name and the value after it, whose
/// absence is reported.
#[verifier::spinoff_prover]
#[verifier::rlimit(60)]
fn parse_property_value(p: &mut JsParser)
    requires
        old(p)@.wf(),
    ensures
        final(p)@.wf(),
        grows(old(p)@, final(p)@),
        final(p)@.pos >= old(p)@.pos,
        object_known(old(p)@.expected(SyntaxKind::COLON)) ==> reached(
            final(p)@,
            member_value_after(
                old(p)@.expected(SyntaxKind::COLON),
                RunEnd::Assignment,
                DiagnosticKind::ExpectedExpressionAssignment,
            ),
        ) && final(p)@.events == old(p)@.events + (expected_events(old(p)@, SyntaxKind::COLON)
            + member_value_events(old(p)@.expected(SyntaxKind::COLON), RunEnd::Assignment)),
    decreases old(p)@.tokens.len() - old(p)@.pos, 11int,
{
    let ghost s3 = p@;
    p.expect(SyntaxKind::COLON);
    let ghost s4 = p@;
    let value = parse_assignment_expression_or_higher(p);
    let ghost s5 = p@;
    let _ = or_add_diagnostic(p, value, DiagnosticKind::ExpectedExpressionAssignment);
    let ghost s6 = p@;
    proof {
        lemma_parsed_grows(s4, s5, value);
        lemma_grows_trans(s3, s4, s5);
        lemma_grows_trans(s3, s5, s6);
        let t = s3.expected(SyntaxKind::COLON);
        assert(reached(s4, t));
        lemma_value_cursor(s4, t, RunEnd::Assignment, DiagnosticKind::ExpectedExpressionAssignment);
        assert(s4.events == s3.events + expected_events(s3, SyntaxKind::COLON));
        if object_known(t) {
            if t.cur() != SyntaxKind::L_CURLY {
                assert(reached(s6, value_after(s4, RunEnd::Assignment, DiagnosticKind::ExpectedExpressionAssignment)));
                assert(expression_events(s4, RunEnd::Assignment) == expression_events(t, RunEnd::Assignment));
            }
            assert(reached(s6, member_value_after(s4, RunEnd::Assignment, DiagnosticKind::ExpectedExpressionAssignment)));
            assert(s6.events == s4.events + member_value_events(s4, RunEnd::Assignment));
            assert(s6.events =~= s3.events + (expected_events(s3, SyntaxKind::COLON)
                + member_value_events(t, RunEnd::Assignment)));
        }
    }
}

/// After a missing member name: the one recovered token, and, when a `:` follows,
/// the `:` and the value after it, whose absence is reported. Whether the `:` was
/// there.
#[verifier::spinoff_prover]
#[verifier::rlimit(60)]
fn parse_recovered_value(p: &mut JsParser) -> (r: bool)
    requires
        old(p)@.wf(),
    ensures
        final(p)@.wf(),
        grows(old(p)@, final(p)@),
        r == ((if single_token_recovered(old(p)@.cur()) {
            old(p)@.cursor()
        } else {
            old(p)@.skipped()
        }).cur() == SyntaxKind::COLON),
        r ==> final(p)@.pos > old(p)@.pos,
        r && (if single_token_recovered(old(p)@.cur()) {
            old(p)@.cursor()
        } else {
            old(p)@.skipped()
        }).skipped().tokens == old(p)@.tokens && object_known((if single_token_recovered(old(p)@.cur()) {
            old(p)@.cursor()
        } else {
            old(p)@.skipped()
        }).skipped()) ==> {
            let u = if single_token_recovered(old(p)@.cur()) {
                old(p)@.cursor()
            } else {
                old(p)@.skipped()
            };
            &&& reached(
                final(p)@,
                member_value_after(u.skipped(), RunEnd::Assignment, DiagnosticKind::ExpectedObjectMember),
            )
            &&& final(p)@.events == old(p)@.events + ((if single_token_recovered(old(p)@.cur()) {
                Seq::<Event>::empty()
            } else {
                seq![
                    Event::Start { kind: SyntaxKind::JS_BOGUS },
                    Event::Token { kind: old(p)@.cur() },
                    Event::Finish,
                ]
            }) + seq![Event::Token { kind: SyntaxKind::COLON }] + member_value_events(
                u.skipped(),
                RunEnd::Assignment,
            ))
        },
    decreases old(p)@.tokens.len() - old(p)@.pos, 4int,
{
    let ghost s3 = p@;
    recover_single_token(p);
    let ghost s4 = p@;
    if p.eat(SyntaxKind::COLON) {
        let ghost s5 = p@;
        let value = parse_assignment_expression_or_higher(p);
        let ghost s6 = p@;
        let _ = or_add_diagnostic(p, value, DiagnosticKind::ExpectedObjectMember);
        let ghost s7 = p@;
        proof {
            lemma_bumped_grows(s4, SyntaxKind::COLON);
            lemma_parsed_grows(s5, s6, value);
            lemma_grows_trans(s3, s4, s5);
            lemma_grows_trans(s3, s5, s6);
            lemma_grows_trans(s3, s6, s7);
            let u = if single_token_recovered(s3.cur()) {
                s3.cursor()
            } else {
                s3.skipped()
            };
            assert(reached(s4, u));
            assert(reached(s5, u.skipped()));
            lemma_value_cursor(s5, u.skipped(), RunEnd::Assignment, DiagnosticKind::ExpectedObjectMember);
            if object_known(u.skipped()) {
                if u.skipped().cur() != SyntaxKind::L_CURLY {
                    assert(reached(s7, value_after(s5, RunEnd::Assignment, DiagnosticKind::ExpectedObjectMember)));
                    assert(expression_events(s5, RunEnd::Assignment) == expression_events(u.skipped(), RunEnd::Assignment));
                }
                assert(reached(s7, member_value_after(s5, RunEnd::Assignment, DiagnosticKind::ExpectedObjectMember)));
                assert(s7.events == s5.events + member_value_events(s5, RunEnd::Assignment));
                assert(s7.events =~= s3.events + ((if single_token_recovered(s3.cur()) {
                    Seq::<Event>::empty()
                } else {
                    seq![
                        Event::Start { kind: SyntaxKind::JS_BOGUS },
                        Event::Token { kind: s3.cur() },
                        Event::Finish,
                    ]
                }) + seq![Event::Token { kind: SyntaxKind::COLON }] + member_value_events(
                    u.skipped(),
                    RunEnd::Assignment,
                )));
            }
        }
        true
    } else {
        false
    }
}


/// `named_member_events` of a method after a name or a missing name.
proof fn lemma_named_method_events(s0: ParserState, s1: ParserState, s3: ParserState)
    requires
        reached(s1, s0),
        reached(s3, named_member_name_after(s0)),
        !shorthand_start(s0),
        s3.cur() == SyntaxKind::L_PAREN || s3.cur() == SyntaxKind::L_ANGLE,
    ensures
        named_member_events(s0) == seq![Event::Start { kind: SyntaxKind::JS_METHOD_OBJECT_MEMBER }]
            + (required_name_events(s1) + method_body_events(s3, plain())) + seq![Event::Finish],
        named_member_after(s0) == method_body_after(named_member_name_after(s0), plain()),
{
    reveal(named_member_events_at);
    reveal(named_member_after_at);
    let t = named_member_name_after(s0);
    assert(required_name_events(s1) == required_name_events(s0));
    assert(method_body_events(s3, plain()) == method_body_events(t, plain()));
    assert(named_member_events(s0) =~= seq![Event::Start { kind: SyntaxKind::JS_METHOD_OBJECT_MEMBER }]
        + (required_name_events(s0) + method_body_events(t, plain())) + seq![Event::Finish]);
}

/// `named_member_events` of a property after a name.
#[verifier::spinoff_prover]
#[verifier::rlimit(60)]
proof fn lemma_named_property_events(s0: ParserState, s1: ParserState, s3: ParserState, s4: ParserState)
    requires
        reached(s1, s0),
        reached(s3, named_member_name_after(s0)),
        reached(s4, s3.expected(SyntaxKind::COLON)),
        !shorthand_start(s0),
        member_name_start(s0.cur()),
        s3.cur() != SyntaxKind::L_PAREN && s3.cur() != SyntaxKind::L_ANGLE,
        s4.tokens == s0.tokens,
        s4.pos >= s0.pos,
    ensures
        named_member_events(s0) == seq![Event::Start { kind: SyntaxKind::JS_PROPERTY_OBJECT_MEMBER }]
            + (name_events(s1) + expected_events(s3, SyntaxKind::COLON) + member_value_events(
            s4,
            RunEnd::Assignment,
        )) + seq![Event::Finish],
        named_member_after(s0) == member_value_after(
            s4,
            RunEnd::Assignment,
            DiagnosticKind::ExpectedExpressionAssignment,
        ),
{
    reveal(named_member_events_at);
    reveal(named_member_after_at);
    let c = s0.cursor();
    let t = named_member_name_after(s0);
    let x = t.expected(SyntaxKind::COLON);
    assert(named_member_after(s0) == named_member_after_at(c));
    assert(named_member_events(s0) == named_member_events_at(c));
    assert(named_member_name_after(c) == t);
    assert(name_events(s1) == name_events(s0));
    assert(name_events(c) == name_events(s0));
    assert(expected_events(s3, SyntaxKind::COLON) == expected_events(t, SyntaxKind::COLON));
    lemma_value_cursor(s4, x, RunEnd::Assignment, DiagnosticKind::ExpectedExpressionAssignment);
    assert(member_value_events(s4, RunEnd::Assignment) == member_value_events(x, RunEnd::Assignment));
    assert(member_value_after(s4, RunEnd::Assignment, DiagnosticKind::ExpectedExpressionAssignment)
        == member_value_after(x, RunEnd::Assignment, DiagnosticKind::ExpectedExpressionAssignment));
    assert(named_member_events(s0) =~= seq![Event::Start { kind: SyntaxKind::JS_PROPERTY_OBJECT_MEMBER }]
        + (name_events(s0) + expected_events(t, SyntaxKind::COLON) + member_value_events(
        x,
        RunEnd::Assignment,
    )) + seq![Event::Finish]);
}

/// `named_member_events` of a property after a missing name.
#[verifier::spinoff_prover]
#[verifier::rlimit(60)]
proof fn lemma_named_recovered_events(s0: ParserState, s3: ParserState, s5: ParserState)
    requires
        reached(s3, named_member_name_after(s0)),
        reached(s5, recovered_value_start(s0)),
        !shorthand_start(s0),
        !member_name_start(s0.cur()),
        s3.cur() != SyntaxKind::L_PAREN && s3.cur() != SyntaxKind::L_ANGLE,
        s5.tokens == s0.tokens,
        s5.pos >= s0.pos,
    ensures
        named_member_events(s0) == seq![Event::Start { kind: SyntaxKind::JS_PROPERTY_OBJECT_MEMBER }]
            + ((if single_token_recovered(s3.cur()) {
            Seq::<Event>::empty()
        } else {
            seq![
                Event::Start { kind: SyntaxKind::JS_BOGUS },
                Event::Token { kind: s3.cur() },
                Event::Finish,
            ]
        }) + seq![Event::Token { kind: SyntaxKind::COLON }] + member_value_events(
            s5,
            RunEnd::Assignment,
        )) + seq![Event::Finish],
        named_member_after(s0) == member_value_after(
            s5,
            RunEnd::Assignment,
            DiagnosticKind::ExpectedObjectMember,
        ),
{
    reveal(named_member_events_at);
    reveal(named_member_after_at);
    let c = s0.cursor();
    let t = named_member_name_after(s0);
    let x = recovered_value_start(s0);
    assert(named_member_after(s0) == named_member_after_at(c));
    assert(named_member_events(s0) == named_member_events_at(c));
    assert(named_member_name_after(c) == t);
    assert(recovered_value_start(c) == x);
    assert(s3.cur() == t.cur());
    lemma_value_cursor(s5, x, RunEnd::Assignment, DiagnosticKind::ExpectedObjectMember);
    assert(member_value_events(s5, RunEnd::Assignment) == member_value_events(x, RunEnd::Assignment));
    assert(member_value_after(s5, RunEnd::Assignment, DiagnosticKind::ExpectedObjectMember)
        == member_value_after(x, RunEnd::Assignment, DiagnosticKind::ExpectedObjectMember));
    assert(named_member_events(s0) =~= seq![Event::Start { kind: SyntaxKind::JS_PROPERTY_OBJECT_MEMBER }]
        + ((if single_token_recovered(t.cur()) {
        Seq::<Event>::empty()
    } else {
        seq![
            Event::Start { kind: SyntaxKind::JS_BOGUS },
            Event::Token { kind: t.cur() },
            Event::Finish,
        ]
    }) + seq![Event::Token { kind: SyntaxKind::COLON }] + member_value_events(
        x,
        RunEnd::Assignment,
    )) + seq![Event::Finish]);
}

/// A value, read one step: the object literal at a `{`, the expression otherwise.
pub proof fn lemma_value_unfold(s: ParserState, mode: RunEnd, missing: DiagnosticKind)
    ensures
        member_value_after(s, mode, missing) == (if s.cur() == SyntaxKind::L_CURLY {
            object_after(s)
        } else {
            value_after(s, mode, missing)
        }),
        nested_expression_after(s, mode) == (if s.cur() == SyntaxKind::L_CURLY {
            object_after(s)
        } else {
            expression_after(s, mode)
        }),
        member_value_events(s, mode) == (if s.cur() == SyntaxKind::L_CURLY {
            object_expression_events(s)
        } else {
            expression_events(s, mode)
        }),
{
    lemma_value_cursor(s.cursor(), s, mode, missing);
    assert(object_after(s.cursor()) == object_after(s));
    assert(object_expression_events(s.cursor()) == object_expression_events(s));
}

/// `named_member_events` of a shorthand property with an initializer, from where
/// the initializer starts.
#[verifier::spinoff_prover]
#[verifier::rlimit(60)]
proof fn lemma_named_initializer_events(s0: ParserState, s4: ParserState)
    requires
        shorthand_start(s0),
        s0.nth(1) == SyntaxKind::EQ,
        reached(
            s4,
            s0.skipped().reported(DiagnosticKind::ShorthandPropertyInitializer).skipped(),
        ),
    ensures
        named_member_known(s0) == object_known(s4),
        named_member_after(s0) == nested_expression_after(s4, RunEnd::Assignment),
        named_member_events(s0) == seq![Event::Start { kind: SyntaxKind::JS_BOGUS_MEMBER }]
            + (seq![
            Event::Start { kind: SyntaxKind::JS_REFERENCE_IDENTIFIER },
            Event::Token { kind: SyntaxKind::IDENT },
            Event::Finish,
        ] + seq![Event::Token { kind: SyntaxKind::EQ }] + member_value_events(
            s4,
            RunEnd::Assignment,
        )) + seq![Event::Finish],
{
    reveal(named_member_events_at);
    reveal(named_member_after_at);
    let c = s0.cursor();
    let x = c.skipped().reported(DiagnosticKind::ShorthandPropertyInitializer).skipped();
    assert(x == s0.skipped().reported(DiagnosticKind::ShorthandPropertyInitializer).skipped());
    assert(named_member_after(s0) == named_member_after_at(c));
    assert(named_member_events(s0) == named_member_events_at(c));
    lemma_value_cursor(s4, x, RunEnd::Assignment, DiagnosticKind::ExpectedExpressionAssignment);
    assert(named_member_known(s0) == object_known(x));
    assert(named_member_events(s0) =~= seq![Event::Start { kind: SyntaxKind::JS_BOGUS_MEMBER }]
        + (seq![
        Event::Start { kind: SyntaxKind::JS_REFERENCE_IDENTIFIER },
        Event::Token { kind: SyntaxKind::IDENT },
        Event::Finish,
    ] + seq![Event::Token { kind: SyntaxKind::EQ }] + member_value_events(
        x,
        RunEnd::Assignment,
    )) + seq![Event::Finish]);
}

/// When the current token is none of `:`, `,`, `{`, `}` or the end of the stream,
/// wraps it in a `JS_BOGUS` node.
#[verifier::spinoff_prover]
#[verifier::rlimit(60)]
fn recover_single_token(p: &mut JsParser)
    requires
        old(p)@.wf(),
    ensures
        final(p)@.wf(),
        grows(old(p)@, final(p)@),
        final(p)@.diagnostics == old(p)@.diagnostics,
        single_token_recovered(old(p)@.cur()) ==> final(p)@ == old(p)@,
        !single_token_recovered(old(p)@.cur()) ==> final(p)@.pos == old(p)@.pos + 1
            && final(p)@.events == old(p)@.events + seq![
            Event::Start { kind: SyntaxKind::JS_BOGUS },
            Event::Token { kind: old(p)@.cur() },
            Event::Finish,
        ],
{
    proof {
        lemma_grows_refl(p@);
    }
    if !(p.at(SyntaxKind::COLON) || p.at(SyntaxKind::COMMA) || p.at(SyntaxKind::L_CURLY) || p.at(
        SyntaxKind::R_CURLY,
    ) || p.at(SyntaxKind::EOF)) {
        let ghost s0 = p@;
        let m = p.start();
        let ghost s1 = p@;
        p.bump_any();
        let ghost s2 = p@;
        proof {
            lemma_bumped_grows(s1, s1.cur());
        }
        let _ = p.complete(m, SyntaxKind::JS_BOGUS);
        proof {
            lemma_completed(s0, s1, s2, p@, SyntaxKind::JS_BOGUS);
            assert(p@.events =~= s0.events + seq![
                Event::Start { kind: SyntaxKind::JS_BOGUS },
                Event::Token { kind: s0.cur() },
                Event::Finish,
            ]);
        }
    }
}

/// A getter `{ get a() { return "a"; } }`; `Absent` when the current token is not
/// `get`.
#[verifier::spinoff_prover]
#[verifier::rlimit(40)]
pub fn parse_getter_object_member(p: &mut JsParser) -> (r: ParsedSyntax)
    requires
        old(p)@.wf(),
    ensures
        final(p)@.wf(),
        parsed(old(p)@, final(p)@, r),
        getter_post(old(p)@, final(p)@, r),
    decreases old(p)@.tokens.len() - old(p)@.pos, 5int,
{
    if !p.at(SyntaxKind::GET_KW) {
        return ParsedSyntax::Absent;
    }
    let ghost s0 = p@;
    let m = p.start();
    let ghost s1 = p@;
    p.expect(SyntaxKind::GET_KW);
    let ghost s2 = p@;
    accessor_head(p);
    let ghost s3 = p@;
    p.expect(SyntaxKind::L_PAREN);
    let ghost s4 = p@;
    p.expect(SyntaxKind::R_PAREN);
    let ghost s5 = p@;
    let annotation = parse_typescript_only(p, TsOnlySyntax::TypeAnnotation);
    let ghost s6 = p@;
    let body = parse_function_body(p, SignatureFlags::empty());
    let ghost s7 = p@;
    let _ = or_add_diagnostic(p, body, DiagnosticKind::ExpectedFunctionBody);
    let ghost s8 = p@;
    proof {
        lemma_parsed_grows(s5, s6, annotation);
        lemma_parsed_grows(s6, s7, body);
        lemma_grows_trans(s2, s3, s4);
        lemma_grows_trans(s2, s4, s5);
        lemma_grows_trans(s2, s5, s6);
        lemma_grows_trans(s2, s6, s7);
        lemma_grows_trans(s2, s7, s8);
        lemma_grows_trans(s1, s2, s8);
        lemma_grows_keeps(s1, s8, m.pos as int);
        lemma_grows_keeps(s2, s8, s1.events.len() as int);
        if name_known(s0.skipped()) {
            assert(reached(s2, s0.skipped()));
            assert(reached(s4, s3.expected(SyntaxKind::L_PAREN)));
            assert(reached(s5, s4.expected(SyntaxKind::R_PAREN)));
            assert(reached(s8, body_after(s6, plain())));
            lemma_getter_chain(s0, s2, s3, s4, s5, s6, s8);
        }
    }
    let cm = p.complete(m, SyntaxKind::JS_GETTER_OBJECT_MEMBER);
    proof {
        lemma_completed(s0, s1, s8, p@, SyntaxKind::JS_GETTER_OBJECT_MEMBER);
        if name_known(s0.skipped()) {
            assert(s2.events == s1.events.push(Event::Token { kind: SyntaxKind::GET_KW }));
            assert(s3.events == s2.events + accessor_head_events(s2));
            assert(s4.events == s3.events + expected_events(s3, SyntaxKind::L_PAREN));
            assert(s5.events == s4.events + expected_events(s4, SyntaxKind::R_PAREN));
            assert(s6.events == s5.events + ts_events(s5, TsOnlySyntax::TypeAnnotation));
            assert(s8.events == s6.events + body_events(s6));
            lemma_getter_events(s0, s1, s2, s3, s4, s5, s6, s8, p@);
        }
    }
    ParsedSyntax::Present(cm)
}

/// The steps of a getter make up `getter_events`.
#[verifier::spinoff_prover]
#[verifier::rlimit(100)]
proof fn lemma_getter_events(
    s0: ParserState,
    s1: ParserState,
    s2: ParserState,
    s3: ParserState,
    s4: ParserState,
    s5: ParserState,
    s6: ParserState,
    s8: ParserState,
    s9: ParserState,
)
    requires
        s1.events == s0.events.push(Event::Start { kind: SyntaxKind::TOMBSTONE }),
        s2.events == s1.events.push(Event::Token { kind: SyntaxKind::GET_KW }),
        s3.events == s2.events + accessor_head_events(s2),
        s4.events == s3.events + expected_events(s3, SyntaxKind::L_PAREN),
        s5.events == s4.events + expected_events(s4, SyntaxKind::R_PAREN),
        s6.events == s5.events + ts_events(s5, TsOnlySyntax::TypeAnnotation),
        s8.events == s6.events + body_events(s6),
        s9.events == s8.events.update(
            s0.events.len() as int,
            Event::Start { kind: SyntaxKind::JS_GETTER_OBJECT_MEMBER },
        ).push(Event::Finish),
        reached(s2, s0.skipped()),
        reached(s3, accessor_head_after(s2)),
        reached(s4, s3.expected(SyntaxKind::L_PAREN)),
        reached(s5, s4.expected(SyntaxKind::R_PAREN)),
        reached(s6, ts_after(s5, TsOnlySyntax::TypeAnnotation)),
    ensures
        s9.events == s0.events + getter_events(s0),
{
    let inner = seq![Event::Token { kind: SyntaxKind::GET_KW }] + accessor_head_events(s2)
        + expected_events(s3, SyntaxKind::L_PAREN) + expected_events(s4, SyntaxKind::R_PAREN)
        + ts_events(s5, TsOnlySyntax::TypeAnnotation) + body_events(s6);
    assert(s8.events =~= s1.events + inner);
    lemma_node_events(s0, s1, s8, s9, SyntaxKind::JS_GETTER_OBJECT_MEMBER, inner);
    assert(getter_events(s0) =~= seq![Event::Start { kind: SyntaxKind::JS_GETTER_OBJECT_MEMBER }]
        + inner + seq![Event::Finish]);
}

/// The steps of a getter make up `getter_after`.
proof fn lemma_getter_chain(
    s0: ParserState,
    s2: ParserState,
    s3: ParserState,
    s4: ParserState,
    s5: ParserState,
    s6: ParserState,
    s8: ParserState,
)
    requires
        reached(s2, s0.skipped()),
        reached(s3, accessor_head_after(s2)),
        reached(s4, s3.expected(SyntaxKind::L_PAREN)),
        reached(s5, s4.expected(SyntaxKind::R_PAREN)),
        reached(s6, ts_after(s5, TsOnlySyntax::TypeAnnotation)),
        reached(s8, body_after(s6, plain())),
    ensures
        reached(s8, getter_after(s0)),
{
}

/// The name of an accessor and the type parameters that an accessor may not have:
/// a missing name is reported, and so are type parameters.
#[verifier::spinoff_prover]
#[verifier::rlimit(60)]
fn accessor_head(p: &mut JsParser)
    requires
        old(p)@.wf(),
    ensures
        final(p)@.wf(),
        grows(old(p)@, final(p)@),
        member_name_start(old(p)@.cur()) ==> final(p)@.events.len() > old(p)@.events.len()
            && final(p)@.events[old(p)@.events.len() as int] == (Event::Start {
            kind: member_name_kind(old(p)@.cur()),
        }),
        name_known(old(p)@) ==> reached(final(p)@, accessor_head_after(old(p)@))
            && final(p)@.events == old(p)@.events + accessor_head_events(old(p)@),
    decreases old(p)@.tokens.len() - old(p)@.pos, 5int,
{
    let ghost s0 = p@;
    let name = parse_object_member_name(p);
    let ghost s1 = p@;
    let _ = or_add_diagnostic(p, name, DiagnosticKind::ExpectedObjectMemberName);
    let ghost s2 = p@;
    let start = p.cur_start();
    let type_parameters = parse_ts_type_parameters(p);
    let ghost s3 = p@;
    proof {
        lemma_parsed_grows(s0, s1, name);
        lemma_parsed_grows(s2, s3, type_parameters);
        lemma_grows_trans(s0, s1, s2);
        lemma_grows_trans(s0, s2, s3);
        lemma_grows_trans(s1, s2, s3);
    }
    if let ParsedSyntax::Present(_) = type_parameters {
        let end = p.cur_start();
        let d = ParseDiagnostic { kind: DiagnosticKind::TsAccessorTypeParameters, start, end };
        p.error(d);
        proof {
            lemma_diagnosed_grows(s3, d);
            lemma_grows_trans(s0, s3, p@);
        }
    }
    proof {
        if member_name_start(s0.cur()) {
            lemma_grows_trans(s1, s3, p@);
            lemma_grows_keeps(s1, p@, s0.events.len() as int);
        }
        if name_known(s0) {
            assert(s1.events == s0.events + required_name_events(s0));
            assert(s2.events == s1.events);
            assert(reached(s2, required_name_after(s0, DiagnosticKind::ExpectedObjectMemberName)));
            assert(s3.events == s2.events + accessor_type_parameters_events(s2));
            lemma_accessor_head_events(s0, s2, p@);
        }
    }
}

/// The steps of an accessor head make up `accessor_head_events`.
proof fn lemma_accessor_head_events(s0: ParserState, s2: ParserState, s3: ParserState)
    requires
        s2.events == s0.events + required_name_events(s0),
        reached(s2, required_name_after(s0, DiagnosticKind::ExpectedObjectMemberName)),
        s3.events == s2.events + accessor_type_parameters_events(s2),
    ensures
        s3.events == s0.events + accessor_head_events(s0),
{
    assert(s3.events =~= s0.events + accessor_head_events(s0));
}

/// A setter `{ set a(value) { .. } }`; `Absent` when the current token is not `set`.
#[verifier::spinoff_prover]
#[verifier::rlimit(40)]
pub fn parse_setter_object_member(p: &mut JsParser) -> (r: ParsedSyntax)
    requires
        old(p)@.wf(),
    ensures
        final(p)@.wf(),
        parsed(old(p)@, final(p)@, r),
        setter_post(old(p)@, final(p)@, r),
    decreases old(p)@.tokens.len() - old(p)@.pos, 5int,
{
    if !p.at(SyntaxKind::SET_KW) {
        return ParsedSyntax::Absent;
    }
    let ghost s0 = p@;
    let m = p.start();
    let ghost s1 = p@;
    p.expect(SyntaxKind::SET_KW);
    let ghost s2 = p@;
    accessor_head(p);
    let ghost s3 = p@;
    p.expect(SyntaxKind::L_PAREN);
    let ghost s4 = p@;
    setter_parameter(p);
    let ghost s5 = p@;
    p.expect(SyntaxKind::R_PAREN);
    let ghost s6 = p@;
    let start = p.cur_start();
    let return_type = parse_ts_return_type_annotation(p);
    let ghost s7 = p@;
    proof {
        lemma_parsed_grows(s6, s7, return_type);
    }
    if let ParsedSyntax::Present(_) = return_type {
        let end = p.cur_start();
        let d = ParseDiagnostic { kind: DiagnosticKind::TsSetAccessorReturnType, start, end };
        p.error(d);
        proof {
            lemma_diagnosed_grows(s7, d);
            lemma_grows_trans(s6, s7, p@);
        }
    }
    let ghost s8 = p@;
    let body = parse_function_body(p, SignatureFlags::empty());
    let ghost s9 = p@;
    let _ = or_add_diagnostic(p, body, DiagnosticKind::ExpectedFunctionBody);
    let ghost s10 = p@;
    proof {
        lemma_parsed_grows(s8, s9, body);
        lemma_grows_trans(s2, s3, s4);
        lemma_grows_trans(s2, s4, s5);
        lemma_grows_trans(s2, s5, s6);
        lemma_grows_trans(s2, s6, s8);
        lemma_grows_trans(s2, s8, s9);
        lemma_grows_trans(s2, s9, s10);
        lemma_grows_trans(s1, s2, s10);
        lemma_grows_keeps(s1, s10, m.pos as int);
        lemma_grows_keeps(s2, s10, s1.events.len() as int);
        if setter_known(s0) {
            assert(reached(s2, s0.skipped()));
            assert(reached(s4, s3.expected(SyntaxKind::L_PAREN)));
            lemma_setter_start(s0, s2, s3, s4);
            assert(reached(s6, s5.expected(SyntaxKind::R_PAREN)));
            assert(reached(s8, setter_return_type_after(s6)));
            assert(reached(s10, body_after(s8, plain())));
            lemma_setter_chain(s0, s4, s5, s6, s8, s10);
        }
    }
    let cm = p.complete(m, SyntaxKind::JS_SETTER_OBJECT_MEMBER);
    proof {
        lemma_completed(s0, s1, s10, p@, SyntaxKind::JS_SETTER_OBJECT_MEMBER);
        if setter_known(s0) {
            assert(s2.events == s1.events.push(Event::Token { kind: SyntaxKind::SET_KW }));
            assert(s3.events == s2.events + accessor_head_events(s2));
            assert(s4.events == s3.events + expected_events(s3, SyntaxKind::L_PAREN));
            assert(s5.events == s4.events + setter_parameter_events(s4));
            assert(s6.events == s5.events + expected_events(s5, SyntaxKind::R_PAREN));
            assert(s8.events == s6.events + setter_return_type_events(s6));
            assert(s10.events == s8.events + body_events(s8));
            lemma_setter_events(s0, s1, s2, s3, s4, s5, s6, s8, s10, p@);
        }
    }
    ParsedSyntax::Present(cm)
}

/// The steps of a setter make up `setter_events`.
#[verifier::spinoff_prover]
#[verifier::rlimit(100)]
proof fn lemma_setter_events(
    s0: ParserState,
    s1: ParserState,
    s2: ParserState,
    s3: ParserState,
    s4: ParserState,
    s5: ParserState,
    s6: ParserState,
    s8: ParserState,
    s10: ParserState,
    s11: ParserState,
)
    requires
        s1.events == s0.events.push(Event::Start { kind: SyntaxKind::TOMBSTONE }),
        s2.events == s1.events.push(Event::Token { kind: SyntaxKind::SET_KW }),
        s3.events == s2.events + accessor_head_events(s2),
        s4.events == s3.events + expected_events(s3, SyntaxKind::L_PAREN),
        s5.events == s4.events + setter_parameter_events(s4),
        s6.events == s5.events + expected_events(s5, SyntaxKind::R_PAREN),
        s8.events == s6.events + setter_return_type_events(s6),
        s10.events == s8.events + body_events(s8),
        s11.events == s10.events.update(
            s0.events.len() as int,
            Event::Start { kind: SyntaxKind::JS_SETTER_OBJECT_MEMBER },
        ).push(Event::Finish),
        reached(s2, s0.skipped()),
        reached(s3, accessor_head_after(s2)),
        reached(s4, setter_parameter_start(s0)),
        reached(s5, setter_parameter_after(s4)),
        reached(s6, s5.expected(SyntaxKind::R_PAREN)),
        reached(s8, setter_return_type_after(s6)),
    ensures
        s11.events == s0.events + setter_events(s0),
{
    let inner = seq![Event::Token { kind: SyntaxKind::SET_KW }] + accessor_head_events(s2)
        + expected_events(s3, SyntaxKind::L_PAREN) + setter_parameter_events(s4) + expected_events(
        s5,
        SyntaxKind::R_PAREN,
    ) + setter_return_type_events(s6) + body_events(s8);
    assert(s10.events =~= s1.events + inner);
    lemma_node_events(s0, s1, s10, s11, SyntaxKind::JS_SETTER_OBJECT_MEMBER, inner);
    lemma_setter_events_split(s0, s2, s3, s4, s5, s6, s8);
}

/// `setter_events` split at the steps of a setter.
#[verifier::spinoff_prover]
#[verifier::rlimit(100)]
proof fn lemma_setter_events_split(
    s0: ParserState,
    s2: ParserState,
    s3: ParserState,
    s4: ParserState,
    s5: ParserState,
    s6: ParserState,
    s8: ParserState,
)
    requires
        reached(s2, s0.skipped()),
        reached(s3, accessor_head_after(s2)),
        reached(s4, setter_parameter_start(s0)),
        reached(s5, setter_parameter_after(s4)),
        reached(s6, s5.expected(SyntaxKind::R_PAREN)),
        reached(s8, setter_return_type_after(s6)),
    ensures
        setter_events(s0) == seq![Event::Start { kind: SyntaxKind::JS_SETTER_OBJECT_MEMBER }] + (
        seq![Event::Token { kind: SyntaxKind::SET_KW }] + accessor_head_events(s2)
            + expected_events(s3, SyntaxKind::L_PAREN) + setter_parameter_events(s4)
            + expected_events(s5, SyntaxKind::R_PAREN) + setter_return_type_events(s6)
            + body_events(s8)) + seq![Event::Finish],
{
    let c = s0.cursor();
    let a = c.skipped();
    let h = accessor_head_after(a);
    let b = setter_parameter_start(c);
    let d = setter_parameter_after(b);
    let e = d.expected(SyntaxKind::R_PAREN);
    let f = setter_return_type_after(e);
    assert(accessor_head_events(s2) == accessor_head_events(a));
    assert(expected_events(s3, SyntaxKind::L_PAREN) == expected_events(h, SyntaxKind::L_PAREN));
    assert(setter_parameter_events(s4) == setter_parameter_events(b));
    assert(expected_events(s5, SyntaxKind::R_PAREN) == expected_events(d, SyntaxKind::R_PAREN));
    assert(setter_return_type_events(s6) == setter_return_type_events(e));
    assert(body_events(s8) == body_events(f));
    assert(setter_events(s0) =~= seq![Event::Start { kind: SyntaxKind::JS_SETTER_OBJECT_MEMBER }] + (
        seq![Event::Token { kind: SyntaxKind::SET_KW }] + accessor_head_events(a)
            + expected_events(h, SyntaxKind::L_PAREN) + setter_parameter_events(b)
            + expected_events(d, SyntaxKind::R_PAREN) + setter_return_type_events(e)
            + body_events(f)) + seq![Event::Finish]);
}

/// The steps of a setter up to its parameter make up `setter_parameter_start`.
proof fn lemma_setter_start(s0: ParserState, s2: ParserState, s3: ParserState, s4: ParserState)
    requires
        reached(s2, s0.skipped()),
        reached(s3, accessor_head_after(s2)),
        reached(s4, s3.expected(SyntaxKind::L_PAREN)),
    ensures
        reached(s4, setter_parameter_start(s0)),
        s4.cur() == setter_parameter_start(s0).cur(),
        name_known(s2) == name_known(s0.skipped()),
{
}

/// The steps of a setter from its parameter on make up `setter_after`.
proof fn lemma_setter_chain(
    s0: ParserState,
    s4: ParserState,
    s5: ParserState,
    s6: ParserState,
    s8: ParserState,
    s10: ParserState,
)
    requires
        reached(s4, setter_parameter_start(s0)),
        reached(s5, setter_parameter_after(s4)),
        reached(s6, s5.expected(SyntaxKind::R_PAREN)),
        reached(s8, setter_return_type_after(s6)),
        reached(s10, body_after(s8, plain())),
    ensures
        reached(s10, setter_after(s0)),
{
}

/// The one parameter of a setter: decorators, which are reported and turned into a
/// bogus node, the parameter, whose absence is reported, and an optional `,`.
#[verifier::spinoff_prover]
#[verifier::rlimit(60)]
fn setter_parameter(p: &mut JsParser)
    requires
        old(p)@.wf(),
    ensures
        final(p)@.wf(),
        grows(old(p)@, final(p)@),
        reached(final(p)@, setter_parameter_after(old(p)@)),
        final(p)@.events == old(p)@.events + setter_parameter_events(old(p)@),
{
    proof {
        reveal(setter_parameter_head);
        reveal(setter_decorator_events);
    }
    let ghost s0 = p@;
    let start = p.cur_start();
    let decorators = parse_decorators(p);
    let ghost s1 = p@;
    proof {
        lemma_parsed_grows(s0, s1, decorators);
    }
    if let ParsedSyntax::Present(list) = decorators {
        let end = p.cur_start();
        let d = ParseDiagnostic { kind: DiagnosticKind::DecoratorsNotAllowed, start, end };
        p.error(d);
        let ghost s2 = p@;
        p.change_to_bogus(&list);
        proof {
            assert(s2.diagnostics.take(s0.diagnostics.len() as int) =~= s0.diagnostics) by {
                assert(s2.diagnostics.take(s1.diagnostics.len() as int) =~= s1.diagnostics);
                assert(s1.diagnostics.take(s0.diagnostics.len() as int) =~= s0.diagnostics);
            }
            lemma_renamed_node(s0, s1, p@, list, crate::syntax_kind::bogus_of(s1.kind_of(list)));
            lemma_parsed_grows(s0, p@, decorators);
            assert(decorators_events(s0.cursor()) == decorators_events(s0));
            assert(decorators_after(s0.cursor()) == decorators_after(s0));
            assert(p@.events =~= s0.events + setter_decorator_events(s0.cursor()));
            assert(reached(p@, setter_parameter_head(s0.cursor())));
        }
    }
    let ghost s3 = p@;
    let parameter = parse_formal_parameter(p);
    let ghost s4 = p@;
    let _ = or_add_diagnostic(p, parameter, DiagnosticKind::ExpectedParameter);
    let ghost s5 = p@;
    proof {
        lemma_parsed_grows(s3, s4, parameter);
        lemma_grows_trans(s0, s3, s4);
        lemma_grows_trans(s0, s4, s5);
    }
    if p.at(SyntaxKind::COMMA) {
        p.bump_any();
        proof {
            lemma_bumped_grows(s5, SyntaxKind::COMMA);
            lemma_grows_trans(s0, s5, p@);
        }
    }
    proof {
        let h = setter_parameter_head(s0.cursor());
        if s0.cur() != SyntaxKind::AT {
            assert(s3 == s0);
            assert(s3.events =~= s0.events + setter_decorator_events(s0.cursor()));
        }
        assert(reached(s3, h));
        assert(s3.events == s0.events + setter_decorator_events(s0.cursor()));
        assert(formal_parameter_events(s3) == formal_parameter_events(h));
        assert(s5.events == s3.events + formal_parameter_events(h));
        assert(p@.events =~= s5.events + expected_events(s5, SyntaxKind::COMMA));
        assert(p@.events =~= s0.events + setter_parameter_events(s0));
    }
}

/// The name of an object member: computed, a metavariable or a literal.
#[verifier::spinoff_prover]
#[verifier::rlimit(60)]
pub fn parse_object_member_name(p: &mut JsParser) -> (r: ParsedSyntax)
    requires
        old(p)@.wf(),
    ensures
        final(p)@.wf(),
        parsed(old(p)@, final(p)@, r),
        r is Absent <==> !member_name_start(old(p)@.cur()),
        r matches ParsedSyntax::Present(m) ==> final(p)@.pos > old(p)@.pos && final(p)@.kind_of(m)
            == member_name_kind(old(p)@.cur()),
        r is Present && name_known(old(p)@) ==> reached(final(p)@, name_after(old(p)@))
            && final(p)@.events == old(p)@.events + name_events(old(p)@),
        old(p)@.cur() == SyntaxKind::L_BRACK ==> computed_name_post(old(p)@, final(p)@, r),
        old(p)@.cur() != SyntaxKind::L_BRACK ==> literal_name_post(old(p)@, final(p)@, r),
    decreases old(p)@.tokens.len() - old(p)@.pos, 4int,
{
    let k = p.cur();
    if k == SyntaxKind::L_BRACK {
        parse_computed_member_name(p)
    } else if k.is_metavariable() {
        parse_metavariable(p)
    } else {
        parse_literal_member_name(p)
    }
}

/// Whether the `offset`-th token from the current one starts the name of a type
/// member or an accessor.
pub fn is_nth_at_type_member_name(p: &JsParser, offset: usize) -> (r: bool)
    requires
        p@.wf(),
    ensures
        r == type_member_name_start(p@.nth(offset as int)),
{
    let nth = p.nth(offset);
    nth.is_keyword() || nth == SyntaxKind::JS_STRING_LITERAL || nth == SyntaxKind::JS_NUMBER_LITERAL
        || nth == SyntaxKind::IDENT || nth == SyntaxKind::AWAIT_KW || nth == SyntaxKind::YIELD_KW
        || nth == SyntaxKind::L_BRACK
}

/// Whether the current token starts the name of an object member.
pub fn is_at_object_member_name(p: &JsParser) -> (r: bool)
    requires
        p@.wf(),
    ensures
        r == type_member_name_start(p@.cur()),
{
    is_nth_at_type_member_name(p, 0)
}

/// A computed member name `[expression]`; `Absent` when the current token is not `[`.
#[verifier::spinoff_prover]
pub fn parse_computed_member_name(p: &mut JsParser) -> (r: ParsedSyntax)
    requires
        old(p)@.wf(),
    ensures
        final(p)@.wf(),
        parsed(old(p)@, final(p)@, r),
        computed_name_post(old(p)@, final(p)@, r),
    decreases old(p)@.tokens.len() - old(p)@.pos, 3int,
{
    if !p.at(SyntaxKind::L_BRACK) {
        return ParsedSyntax::Absent;
    }
    let ghost s0 = p@;
    let m = p.start();
    let ghost s1 = p@;
    p.expect(SyntaxKind::L_BRACK);
    let ghost s2 = p@;
    let expression = parse_expression(p);
    let ghost s3 = p@;
    let _ = or_add_diagnostic(p, expression, DiagnosticKind::ExpectedExpression);
    let ghost s4 = p@;
    p.expect(SyntaxKind::R_BRACK);
    let ghost s5 = p@;
    proof {
        lemma_parsed_grows(s2, s3, expression);
        lemma_grows_trans(s2, s3, s4);
        lemma_grows_trans(s2, s4, s5);
        lemma_grows_trans(s1, s2, s5);
        lemma_grows_keeps(s1, s5, m.pos as int);
        lemma_grows_keeps(s2, s5, s1.events.len() as int);
        if starts_expression(s2.cur()) {
            lemma_grows_trans(s3, s4, s5);
            lemma_grows_keeps(s3, s5, s2.events.len() as int);
        }
        assert(reached(s2, s0.skipped()));
        lemma_value_cursor(s2, s0.skipped(), RunEnd::Sequence, DiagnosticKind::ExpectedExpression);
        if object_known(s0.skipped()) {
            if s0.nth(1) != SyntaxKind::L_CURLY {
                assert(reached(s4, value_after(s0.skipped(), RunEnd::Sequence, DiagnosticKind::ExpectedExpression)));
                assert(s3.events == s2.events + expression_events(s2, RunEnd::Sequence));
            }
            assert(reached(s4, member_value_after(s2, RunEnd::Sequence, DiagnosticKind::ExpectedExpression)));
            assert(s3.events == s2.events + member_value_events(s2, RunEnd::Sequence));
        }
    }
    let cm = p.complete(m, SyntaxKind::JS_COMPUTED_MEMBER_NAME);
    proof {
        lemma_completed(s0, s1, s5, p@, SyntaxKind::JS_COMPUTED_MEMBER_NAME);
        if object_known(s0.skipped()) {
            assert(s4.events == s3.events);
            assert(s5.events == s4.events + expected_events(s4, SyntaxKind::R_BRACK));
            assert(reached(s2, s0.skipped()));
            lemma_computed_events(s0, s1, s2, s3, s4, s5, p@);
        }
    }
    ParsedSyntax::Present(cm)
}

/// The steps of a computed member name make up `computed_name_events`.
proof fn lemma_computed_events(
    s0: ParserState,
    s1: ParserState,
    s2: ParserState,
    s3: ParserState,
    s4: ParserState,
    s5: ParserState,
    s6: ParserState,
)
    requires
        s1.events == s0.events.push(Event::Start { kind: SyntaxKind::TOMBSTONE }),
        s2.events == s1.events.push(Event::Token { kind: SyntaxKind::L_BRACK }),
        s3.events == s2.events + member_value_events(s2, RunEnd::Sequence),
        s4.events == s3.events,
        s5.events == s4.events + expected_events(s4, SyntaxKind::R_BRACK),
        s6.events == s5.events.update(
            s0.events.len() as int,
            Event::Start { kind: SyntaxKind::JS_COMPUTED_MEMBER_NAME },
        ).push(Event::Finish),
        reached(s2, s0.skipped()),
        reached(s4, member_value_after(s2, RunEnd::Sequence, DiagnosticKind::ExpectedExpression)),
    ensures
        s6.events == s0.events + computed_name_events(s0),
{
    let a = s0.cursor().skipped();
    lemma_value_cursor(s2, a, RunEnd::Sequence, DiagnosticKind::ExpectedExpression);
    assert(member_value_events(s2, RunEnd::Sequence) == member_value_events(a, RunEnd::Sequence));
    assert(member_value_after(s2, RunEnd::Sequence, DiagnosticKind::ExpectedExpression)
        == member_value_after(a, RunEnd::Sequence, DiagnosticKind::ExpectedExpression));
    let inner = seq![Event::Token { kind: SyntaxKind::L_BRACK }] + member_value_events(
        s2,
        RunEnd::Sequence,
    ) + expected_events(s4, SyntaxKind::R_BRACK);
    assert(s5.events =~= s1.events + inner);
    lemma_node_events(s0, s1, s5, s6, SyntaxKind::JS_COMPUTED_MEMBER_NAME, inner);
    assert(computed_name_events(s0) =~= seq![Event::Start { kind: SyntaxKind::JS_COMPUTED_MEMBER_NAME }] + inner + seq![Event::Finish]);
}

/// Whether the `offset`-th token from the current one is a literal member name.
pub fn is_at_literal_member_name(p: &JsParser, offset: usize) -> (r: bool)
    requires
        p@.wf(),
    ensures
        r == literal_member_name_start(p@.nth(offset as int)),
{
    let nth = p.nth(offset);
    nth == SyntaxKind::JS_STRING_LITERAL || nth == SyntaxKind::JS_NUMBER_LITERAL || nth
        == SyntaxKind::IDENT || nth.is_keyword()
}

/// A literal member name: a string, a number or an identifier, or a keyword emitted
/// as an identifier, in a `JS_LITERAL_MEMBER_NAME` node; a metavariable in its own
/// node; `Absent` otherwise.
pub fn parse_literal_member_name(p: &mut JsParser) -> (r: ParsedSyntax)
    requires
        old(p)@.wf(),
    ensures
        final(p)@.wf(),
        parsed(old(p)@, final(p)@, r),
        literal_name_post(old(p)@, final(p)@, r),
{
    let ghost s0 = p@;
    let m = p.start();
    let ghost s1 = p@;
    let k = p.cur();
    if k == SyntaxKind::JS_STRING_LITERAL || k == SyntaxKind::JS_NUMBER_LITERAL || k
        == SyntaxKind::IDENT {
        p.bump_any();
    } else if k.is_keyword() {
        p.bump_remap(SyntaxKind::IDENT);
    } else if k.is_metavariable() {
        p.abandon(m);
        proof {
            assert(p@ =~= s0);
        }
        return parse_metavariable(p);
    } else {
        p.abandon(m);
        proof {
            assert(p@ =~= s0);
        }
        return ParsedSyntax::Absent;
    }
    let ghost s2 = p@;
    proof {
        lemma_bumped_grows(s1, literal_name_token(k));
    }
    let cm = p.complete(m, SyntaxKind::JS_LITERAL_MEMBER_NAME);
    proof {
        lemma_completed(s0, s1, s2, p@, SyntaxKind::JS_LITERAL_MEMBER_NAME);
        assert(p@ =~= s0.with_events(
            s0.events + seq![
                Event::Start { kind: member_name_kind(k) },
                Event::Token { kind: literal_name_token(k) },
                Event::Finish,
            ],
        ).bumped_silently());
    }
    ParsedSyntax::Present(cm)
}

/// A method `a() {}`, `async a() {}`, `*a() {}` or `async *a() {}`; `Absent` when
/// the current token starts none.
#[verifier::spinoff_prover]
#[verifier::rlimit(40)]
fn parse_method_object_member(p: &mut JsParser) -> (r: ParsedSyntax)
    requires
        old(p)@.wf(),
    ensures
        final(p)@.wf(),
        parsed(old(p)@, final(p)@, r),
        method_post(old(p)@, final(p)@, r),
    decreases old(p)@.tokens.len() - old(p)@.pos, 5int,
{
    let is_async = is_parser_at_async_method_member(p);
    if !is_async && !p.at(SyntaxKind::STAR) && !is_at_object_member_name(p) {
        return ParsedSyntax::Absent;
    }
    let ghost s0 = p@;
    let m = p.start();
    let ghost s1 = p@;
    let mut flags = SignatureFlags::empty();
    proof {
        lemma_grows_refl(s1);
    }
    if is_async {
        p.eat(SyntaxKind::ASYNC_KW);
        flags.is_async = true;
        proof {
            lemma_bumped_grows(s1, SyntaxKind::ASYNC_KW);
        }
    }
    let ghost s2 = p@;
    if p.eat(SyntaxKind::STAR) {
        flags.is_generator = true;
        proof {
            lemma_bumped_grows(s2, SyntaxKind::STAR);
        }
    } else {
        proof {
            lemma_grows_refl(s2);
        }
    }
    let ghost s3 = p@;
    let name = parse_object_member_name(p);
    let ghost s4 = p@;
    let _ = or_add_diagnostic(p, name, DiagnosticKind::ExpectedObjectMemberName);
    let ghost s5 = p@;
    parse_method_object_member_body(p, flags);
    let ghost s6 = p@;
    proof {
        lemma_parsed_grows(s3, s4, name);
        lemma_grows_trans(s1, s2, s3);
        lemma_grows_trans(s1, s3, s4);
        lemma_grows_trans(s1, s4, s5);
        lemma_grows_trans(s1, s5, s6);
        lemma_grows_keeps(s1, s6, m.pos as int);
        assert(reached(s3, method_name_start(s0)));
        assert(s3.events.len() == s0.events.len() + 1 + s3.pos - s0.pos);
        if member_name_start(s3.cur()) {
            lemma_grows_trans(s4, s5, s6);
            lemma_grows_keeps(s4, s6, s3.events.len() as int);
        }
        assert(flags == method_flags(s0));
        if name_known(s3) {
            assert(reached(
                s5,
                required_name_after(s3, DiagnosticKind::ExpectedObjectMemberName),
            ));
            lemma_method_chain(s0, s3, s5, s6);
        }
    }
    let cm = p.complete(m, SyntaxKind::JS_METHOD_OBJECT_MEMBER);
    proof {
        lemma_completed(s0, s1, s6, p@, SyntaxKind::JS_METHOD_OBJECT_MEMBER);
        if name_known(s3) {
            assert(s3.events =~= s1.events + method_prefix_events(s0));
            assert(s5.events == s3.events + required_name_events(s3));
            assert(s6.events == s5.events + method_body_events(s5, method_flags(s0)));
            lemma_method_events(s0, s1, s3, s5, s6, p@);
        }
    }
    ParsedSyntax::Present(cm)
}

/// The steps of a method make up `method_events`.
#[verifier::spinoff_prover]
proof fn lemma_method_events(
    s0: ParserState,
    s1: ParserState,
    s3: ParserState,
    s5: ParserState,
    s6: ParserState,
    s7: ParserState,
)
    requires
        s1.events == s0.events.push(Event::Start { kind: SyntaxKind::TOMBSTONE }),
        s3.events == s1.events + method_prefix_events(s0),
        s5.events == s3.events + required_name_events(s3),
        s6.events == s5.events + method_body_events(s5, method_flags(s0)),
        s7.events == s6.events.update(
            s0.events.len() as int,
            Event::Start { kind: SyntaxKind::JS_METHOD_OBJECT_MEMBER },
        ).push(Event::Finish),
        reached(s3, method_name_start(s0)),
        reached(s5, required_name_after(s3, DiagnosticKind::ExpectedObjectMemberName)),
    ensures
        s7.events == s0.events + method_events(s0),
{
    let inner = method_prefix_events(s0) + required_name_events(s3) + method_body_events(
        s5,
        method_flags(s0),
    );
    assert(s6.events =~= s1.events + inner);
    lemma_node_events(s0, s1, s6, s7, SyntaxKind::JS_METHOD_OBJECT_MEMBER, inner);
    lemma_method_events_split(s0, s3, s5);
}

/// `method_events` split at the steps of a method.
#[verifier::spinoff_prover]
#[verifier::rlimit(100)]
proof fn lemma_method_events_split(s0: ParserState, s3: ParserState, s5: ParserState)
    requires
        reached(s3, method_name_start(s0)),
        reached(s5, required_name_after(s3, DiagnosticKind::ExpectedObjectMemberName)),
    ensures
        method_events(s0) == seq![Event::Start { kind: SyntaxKind::JS_METHOD_OBJECT_MEMBER }] + (
        method_prefix_events(s0) + required_name_events(s3) + method_body_events(
            s5,
            method_flags(s0),
        )) + seq![Event::Finish],
{
    let n = method_name_start(s0.cursor());
    let t = required_name_after(n, DiagnosticKind::ExpectedObjectMemberName);
    assert(required_name_events(s3) == required_name_events(n));
    assert(method_body_events(s5, method_flags(s0)) == method_body_events(t, method_flags(s0)));
    assert(method_events(s0) =~= seq![Event::Start { kind: SyntaxKind::JS_METHOD_OBJECT_MEMBER }]
        + (method_prefix_events(s0) + required_name_events(n) + method_body_events(
        t,
        method_flags(s0),
    )) + seq![Event::Finish]);
}

/// The steps of a method make up `method_after`.
proof fn lemma_method_chain(s0: ParserState, s3: ParserState, s5: ParserState, s6: ParserState)
    requires
        reached(s3, method_name_start(s0)),
        reached(s5, required_name_after(s3, DiagnosticKind::ExpectedObjectMemberName)),
        reached(s6, method_body_after(s5, method_flags(s0))),
    ensures
        reached(s6, method_after(s0)),
{
}

/// The body of a method object member from right after the member name: type
/// parameters (TypeScript only), the parameter list, a return type annotation
/// (TypeScript only) and the function body; a missing parameter list or body is
/// reported.
#[verifier::spinoff_prover]
#[verifier::rlimit(60)]
pub fn parse_method_object_member_body(p: &mut JsParser, flags: SignatureFlags)
    requires
        old(p)@.wf(),
    ensures
        final(p)@.wf(),
        grows(old(p)@, final(p)@),
        old(p)@.cur() == SyntaxKind::L_PAREN || old(p)@.cur() == SyntaxKind::L_ANGLE ==> final(p)@.pos > old(p)@.pos,
        old(p)@.cur() == SyntaxKind::L_PAREN ==> final(p)@.events.len() > old(p)@.events.len()
            && final(p)@.events[old(p)@.events.len() as int] == (Event::Start {
            kind: SyntaxKind::JS_PARAMETERS,
        }),
        old(p)@.cur() != SyntaxKind::L_PAREN && old(p)@.cur() != SyntaxKind::L_ANGLE ==> prefix_of(
            old(p)@.diagnosed(
                ParseDiagnostic {
                    kind: DiagnosticKind::ExpectedParameters,
                    start: old(p)@.pos as usize,
                    end: old(p)@.cur_end() as usize,
                },
            ),
            final(p)@.diagnostics,
        ),
        reached(final(p)@, method_body_after(old(p)@, flags)),
        final(p)@.events == old(p)@.events + method_body_events(old(p)@, flags),
{
    let ghost s0 = p@;
    let type_parameters = parse_typescript_only(p, TsOnlySyntax::TypeParameters);
    let ghost s1 = p@;
    let parameters = parse_parameter_list(p, flags);
    let ghost s2 = p@;
    let _ = or_add_diagnostic(p, parameters, DiagnosticKind::ExpectedParameters);
    let ghost s3 = p@;
    let return_type = parse_typescript_only(p, TsOnlySyntax::ReturnTypeAnnotation);
    let ghost s4 = p@;
    let body = parse_function_body(p, flags);
    let ghost s5 = p@;
    let _ = or_add_diagnostic(p, body, DiagnosticKind::ExpectedFunctionBody);
    let ghost s6 = p@;
    proof {
        lemma_parsed_grows(s0, s1, type_parameters);
        lemma_parsed_grows(s1, s2, parameters);
        lemma_parsed_grows(s3, s4, return_type);
        lemma_parsed_grows(s4, s5, body);
        lemma_grows_trans(s3, s4, s5);
        lemma_grows_trans(s3, s5, s6);
        lemma_grows_trans(s1, s2, s3);
        lemma_grows_trans(s1, s3, s6);
        lemma_grows_trans(s0, s1, s6);
        if s0.cur() == SyntaxKind::L_PAREN {
            lemma_grows_trans(s2, s3, s6);
            lemma_grows_keeps(s2, s6, s0.events.len() as int);
        }
        assert(reached(s3, parameters_after(s1, flags)));
        assert(reached(s6, body_after(s4, flags)));
        lemma_method_body_chain(s0, s1, s3, s4, s6, flags);
        assert(s1.events == s0.events + ts_events(s0, TsOnlySyntax::TypeParameters));
        assert(s3.events == s1.events + parameters_events(s1));
        assert(s4.events == s3.events + ts_events(s3, TsOnlySyntax::ReturnTypeAnnotation));
        assert(s6.events == s4.events + body_events(s4));
        lemma_method_body_events(s0, s1, s3, s4, s6, flags);
    }
}

/// The steps of a method body make up `method_body_events`.
proof fn lemma_method_body_events(
    s0: ParserState,
    s1: ParserState,
    s3: ParserState,
    s4: ParserState,
    s6: ParserState,
    flags: SignatureFlags,
)
    requires
        s1.events == s0.events + ts_events(s0, TsOnlySyntax::TypeParameters),
        s3.events == s1.events + parameters_events(s1),
        s4.events == s3.events + ts_events(s3, TsOnlySyntax::ReturnTypeAnnotation),
        s6.events == s4.events + body_events(s4),
        reached(s1, ts_after(s0, TsOnlySyntax::TypeParameters)),
        reached(s3, parameters_after(s1, flags)),
        reached(s4, ts_after(s3, TsOnlySyntax::ReturnTypeAnnotation)),
    ensures
        s6.events == s0.events + method_body_events(s0, flags),
{
    let a = ts_after(s0, TsOnlySyntax::TypeParameters);
    let b = parameters_after(a, flags);
    let c = ts_after(b, TsOnlySyntax::ReturnTypeAnnotation);
    assert(parameters_events(s1) == parameters_events(a));
    assert(ts_events(s3, TsOnlySyntax::ReturnTypeAnnotation) == ts_events(
        b,
        TsOnlySyntax::ReturnTypeAnnotation,
    ));
    assert(body_events(s4) == body_events(c));
    assert(s6.events =~= s0.events + method_body_events(s0, flags));
}

/// The steps of a method body make up `method_body_after`.
proof fn lemma_method_body_chain(
    s0: ParserState,
    s1: ParserState,
    s3: ParserState,
    s4: ParserState,
    s6: ParserState,
    flags: SignatureFlags,
)
    requires
        s1.tokens == s0.tokens && s1.typescript == s0.typescript,
        s3.tokens == s0.tokens && s3.typescript == s0.typescript,
        s4.tokens == s0.tokens && s4.typescript == s0.typescript,
        reached(s1, ts_after(s0, TsOnlySyntax::TypeParameters)),
        reached(s3, parameters_after(s1, flags)),
        reached(s4, ts_after(s3, TsOnlySyntax::ReturnTypeAnnotation)),
        reached(s6, body_after(s4, flags)),
    ensures
        reached(s6, method_body_after(s0, flags)),
{
}

/// Whether the current token is an `async` that starts a method.
fn is_parser_at_async_method_member(p: &JsParser) -> (r: bool)
    requires
        p@.wf(),
    ensures
        r == async_method_start(p@),
{
    p.at(SyntaxKind::ASYNC_KW) && !p.has_nth_preceding_line_break(1) && (
    is_nth_at_type_member_name(p, 1) || p.nth_at(1, SyntaxKind::STAR))
}

/// Where `is_at_object_member_name` holds, `parse_object_member_name` finds a name.
pub proof fn law_object_member_name_found(k: SyntaxKind)
    ensures
        type_member_name_start(k) ==> member_name_start(k),
{
}

/// Where `is_at_literal_member_name` holds, `parse_literal_member_name` finds a name,
/// and so does `parse_object_member_name`.
pub proof fn law_literal_member_name_found(k: SyntaxKind)
    ensures
        literal_member_name_start(k) ==> member_name_start(k),
        literal_member_name_start(k) ==> member_name_kind(k) == SyntaxKind::JS_LITERAL_MEMBER_NAME,
{
}

} // verus!
