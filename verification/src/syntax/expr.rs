use vstd::prelude::*;

use crate::events::{start_kind, Event, LexedToken};
use crate::parser::{
    grows, lemma_bumped_grows, lemma_completed, lemma_diagnosed_grows, lemma_grows_keeps,
    lemma_grows_refl, lemma_grows_trans, lemma_parsed_grows, parsed, push_diagnostic, reached,
    CompletedMarker, DiagnosticKind, JsParser, ParseDiagnostic, ParsedSyntax, ParserState,
};
use crate::syntax::balanced::{
    closes, find_run_end, opens, run_end, run_end_from, run_stops_at, token_events, RunEnd,
};
use crate::syntax::object::{object_after, object_expression_events, object_known, parse_object_expression};
use crate::syntax_kind::{contextual_keyword, SyntaxKind};

verus! {

/// A name that may refer to a binding: an identifier or a contextual keyword.
pub open spec fn reference_identifier(k: SyntaxKind) -> bool {
    k == SyntaxKind::IDENT || contextual_keyword(k)
}

/// Tokens with which no expression starts.
pub open spec fn starts_expression(k: SyntaxKind) -> bool {
    !run_stops_at(RunEnd::Assignment, k) && k != SyntaxKind::COLON && k != SyntaxKind::EQ && k
        != SyntaxKind::FAT_ARROW && k != SyntaxKind::DOT3
}

/// The precedence of a binary operator; 0 for a token that is none.
pub open spec fn binary_precedence(k: SyntaxKind) -> int {
    if k == SyntaxKind::PIPE {
        3
    } else if k == SyntaxKind::AMP {
        5
    } else if k == SyntaxKind::IN_KW || k == SyntaxKind::INSTANCEOF_KW || k == SyntaxKind::L_ANGLE
        || k == SyntaxKind::R_ANGLE {
        7
    } else if k == SyntaxKind::PLUS || k == SyntaxKind::MINUS {
        9
    } else if k == SyntaxKind::STAR || k == SyntaxKind::SLASH {
        10
    } else {
        0
    }
}

/// The node of a binary expression whose operator is `k`.
pub open spec fn binary_node(k: SyntaxKind) -> SyntaxKind {
    if k == SyntaxKind::IN_KW {
        SyntaxKind::JS_IN_EXPRESSION
    } else if k == SyntaxKind::INSTANCEOF_KW {
        SyntaxKind::JS_INSTANCEOF_EXPRESSION
    } else {
        SyntaxKind::JS_BINARY_EXPRESSION
    }
}

/// Tokens that can end an operand, so that an operator after them is binary; after
/// any other token an operator is a prefix.
pub open spec fn ends_operand(k: SyntaxKind) -> bool {
    &&& binary_precedence(k) == 0
    &&& k != SyntaxKind::BANG && k != SyntaxKind::TYPEOF_KW && k != SyntaxKind::VOID_KW
    &&& k != SyntaxKind::DELETE_KW && k != SyntaxKind::AWAIT_KW && k != SyntaxKind::YIELD_KW
    &&& k != SyntaxKind::NEW_KW && k != SyntaxKind::DOT && k != SyntaxKind::DOT3
    &&& k != SyntaxKind::QUESTION && k != SyntaxKind::COLON && k != SyntaxKind::EQ
    &&& k != SyntaxKind::FAT_ARROW && k != SyntaxKind::COMMA && k != SyntaxKind::SEMICOLON
}

/// Tokens of syntax that binds less tightly than any binary operator: sequences,
/// conditionals, assignments and arrow functions.
pub open spec fn below_binary(k: SyntaxKind) -> bool {
    k == SyntaxKind::COMMA || k == SyntaxKind::QUESTION || k == SyntaxKind::COLON || k
        == SyntaxKind::EQ || k == SyntaxKind::FAT_ARROW
}

/// How a token changes the bracket depth.
pub open spec fn bracket_delta(k: SyntaxKind) -> int {
    if opens(RunEnd::Group, k) {
        1
    } else if closes(RunEnd::Group, k) {
        -1
    } else {
        0
    }
}

/// The bracket depth before the index `i`, counted from the index `from`.
pub open spec fn depth_from(toks: Seq<LexedToken>, from: int, i: int) -> int
    decreases i - from,
{
    if i <= from {
        0
    } else {
        depth_from(toks, from, i - 1) + bracket_delta(toks[i - 1].kind)
    }
}

/// Whether the token at the index `i` is a binary operator of the expression that
/// starts at the index `from`: outside brackets, after a token that ends an operand.
pub open spec fn splits_at(toks: Seq<LexedToken>, from: int, i: int) -> bool {
    &&& from < i < toks.len()
    &&& depth_from(toks, from, i) == 0
    &&& binary_precedence(toks[i].kind) > 0
    &&& ends_operand(toks[i - 1].kind)
}

/// Whether a token before the index `i`, from the index `from` on and outside
/// brackets, belongs to syntax that binds less tightly than a binary operator.
pub open spec fn has_lower(toks: Seq<LexedToken>, from: int, i: int) -> bool
    decreases i - from,
{
    if i <= from {
        false
    } else {
        has_lower(toks, from, i - 1) || (depth_from(toks, from, i - 1) == 0 && below_binary(
            toks[i - 1].kind,
        ))
    }
}

/// The operator at which the expression from the index `from` up to `i` splits: the
/// last of the binary operators of the lowest precedence, which makes binary
/// operators associate to the left; -1 when there is none.
pub open spec fn top_split(toks: Seq<LexedToken>, from: int, i: int) -> int
    decreases i - from,
{
    if i <= from {
        -1
    } else {
        let b = top_split(toks, from, i - 1);
        let j = i - 1;
        if splits_at(toks, from, j) && (b < 0 || binary_precedence(toks[j].kind)
            <= binary_precedence(toks[b].kind)) {
            j
        } else {
            b
        }
    }
}

/// The node of an operand that is one token, when it is a literal, `this` or a
/// name.
pub open spec fn operand_node(k: SyntaxKind) -> Option<SyntaxKind> {
    if reference_identifier(k) {
        Some(SyntaxKind::JS_IDENTIFIER_EXPRESSION)
    } else if k == SyntaxKind::JS_STRING_LITERAL {
        Some(SyntaxKind::JS_STRING_LITERAL_EXPRESSION)
    } else if k == SyntaxKind::JS_NUMBER_LITERAL {
        Some(SyntaxKind::JS_NUMBER_LITERAL_EXPRESSION)
    } else if k == SyntaxKind::JS_BIGINT_LITERAL {
        Some(SyntaxKind::JS_BIGINT_LITERAL_EXPRESSION)
    } else if k == SyntaxKind::TRUE_KW || k == SyntaxKind::FALSE_KW {
        Some(SyntaxKind::JS_BOOLEAN_LITERAL_EXPRESSION)
    } else if k == SyntaxKind::NULL_KW {
        Some(SyntaxKind::JS_NULL_LITERAL_EXPRESSION)
    } else if k == SyntaxKind::THIS_KW {
        Some(SyntaxKind::JS_THIS_EXPRESSION)
    } else {
        None
    }
}

/// The events of the empty object literal `{}`.
pub open spec fn empty_object_events() -> Seq<Event> {
    seq![
        Event::Start { kind: SyntaxKind::JS_OBJECT_EXPRESSION },
        Event::Token { kind: SyntaxKind::L_CURLY },
        Event::Start { kind: SyntaxKind::JS_OBJECT_MEMBER_LIST },
        Event::Finish,
        Event::Token { kind: SyntaxKind::R_CURLY },
        Event::Finish,
    ]
}

/// The events of an operand over the tokens from the index `from` up to `to`: the
/// empty object literal for `{}`, a literal, `this` or a name node for one such
/// token, a `JS_EXPRESSION` node over the tokens otherwise.
pub open spec fn operand_events(toks: Seq<LexedToken>, from: int, to: int) -> Seq<Event> {
    if to == from + 2 && toks[from].kind == SyntaxKind::L_CURLY && toks[from + 1].kind
        == SyntaxKind::R_CURLY {
        empty_object_events()
    } else if to == from + 1 && operand_node(toks[from].kind) is Some {
        let k = toks[from].kind;
        if reference_identifier(k) {
            seq![
                Event::Start { kind: SyntaxKind::JS_IDENTIFIER_EXPRESSION },
                Event::Start { kind: SyntaxKind::JS_REFERENCE_IDENTIFIER },
                Event::Token { kind: SyntaxKind::IDENT },
                Event::Finish,
                Event::Finish,
            ]
        } else {
            seq![
                Event::Start { kind: operand_node(k)->0 },
                Event::Token { kind: k },
                Event::Finish,
            ]
        }
    } else {
        seq![Event::Start { kind: SyntaxKind::JS_EXPRESSION }] + token_events(toks, from, to)
            + seq![Event::Finish]
    }
}

/// The events of the expression over the tokens from the index `from` up to `to`:
/// split at `top_split` into a binary node of its two sides, an operand when there
/// is no operator, and a `JS_EXPRESSION` node over the tokens when syntax that
/// binds less tightly than a binary operator stands in it.
pub open spec fn binary_events(toks: Seq<LexedToken>, from: int, to: int) -> Seq<Event>
    decreases to - from,
{
    if to <= from {
        Seq::empty()
    } else if has_lower(toks, from, to) {
        seq![Event::Start { kind: SyntaxKind::JS_EXPRESSION }] + token_events(toks, from, to)
            + seq![Event::Finish]
    } else {
        let j = top_split(toks, from, to);
        if from < j < to {
            seq![Event::Start { kind: binary_node(toks[j].kind) }] + binary_events(toks, from, j)
                + seq![Event::Token { kind: toks[j].kind }] + binary_events(toks, j + 1, to)
                + seq![Event::Finish]
        } else {
            operand_events(toks, from, to)
        }
    }
}

/// The diagnostics after the expression over the tokens from the index `from` up
/// to `to`, from `ds` on: an operator with nothing after it is reported.
pub open spec fn binary_diagnostics(
    ds: Seq<ParseDiagnostic>,
    toks: Seq<LexedToken>,
    from: int,
    to: int,
) -> Seq<ParseDiagnostic>
    decreases to - from,
{
    if to <= from || has_lower(toks, from, to) {
        ds
    } else {
        let j = top_split(toks, from, to);
        if from < j < to {
            let left = binary_diagnostics(ds, toks, from, j);
            if j + 1 < to {
                binary_diagnostics(left, toks, j + 1, to)
            } else {
                push_diagnostic(
                    left,
                    ParseDiagnostic {
                        kind: DiagnosticKind::ExpectedExpression,
                        start: to as usize,
                        end: (if to < toks.len() {
                            to + 1
                        } else {
                            to
                        }) as usize,
                    },
                )
            }
        } else {
            ds
        }
    }
}

/// The events of an expression that is not an object literal, at the current
/// token, the run of whose tokens `mode` bounds: the tree of its binary operators
/// over its operands; none when no expression starts here.
pub open spec fn expression_events(s: ParserState, mode: RunEnd) -> Seq<Event> {
    let s = s.cursor();
    if starts_expression(s.cur()) {
        binary_events(s.tokens, s.pos, run_end(s, s.pos, mode))
    } else {
        Seq::empty()
    }
}

/// Where the parser stands after an expression that is not an object literal, as
/// an element of a list when `mode` is `Assignment` and with commas in it when
/// `mode` is `Sequence`: after the run of its tokens, with a missing operand
/// reported, or where it was when no expression starts at the current token.
pub open spec fn expression_after(s: ParserState, mode: RunEnd) -> ParserState {
    let s = s.cursor();
    if starts_expression(s.cur()) {
        let e = run_end(s, s.pos, mode);
        s.moved(e, binary_diagnostics(s.diagnostics, s.tokens, s.pos, e))
    } else {
        s
    }
}

/// Where the parser stands after an expression, not an object literal, that a rule
/// requires: after it, or with a diagnostic of the kind `missing` when no expression
/// starts at the current token.
pub open spec fn value_after(s: ParserState, mode: RunEnd, missing: DiagnosticKind) -> ParserState {
    let s = s.cursor();
    if starts_expression(s.cur()) {
        expression_after(s, mode)
    } else {
        s.reported(missing)
    }
}

fn binary_precedence_exec(k: SyntaxKind) -> (r: u8)
    ensures
        r == binary_precedence(k),
{
    if k == SyntaxKind::PIPE {
        3
    } else if k == SyntaxKind::AMP {
        5
    } else if k == SyntaxKind::IN_KW || k == SyntaxKind::INSTANCEOF_KW || k == SyntaxKind::L_ANGLE
        || k == SyntaxKind::R_ANGLE {
        7
    } else if k == SyntaxKind::PLUS || k == SyntaxKind::MINUS {
        9
    } else if k == SyntaxKind::STAR || k == SyntaxKind::SLASH {
        10
    } else {
        0
    }
}

fn binary_node_exec(k: SyntaxKind) -> (r: SyntaxKind)
    ensures
        r == binary_node(k),
{
    if k == SyntaxKind::IN_KW {
        SyntaxKind::JS_IN_EXPRESSION
    } else if k == SyntaxKind::INSTANCEOF_KW {
        SyntaxKind::JS_INSTANCEOF_EXPRESSION
    } else {
        SyntaxKind::JS_BINARY_EXPRESSION
    }
}

fn ends_operand_exec(k: SyntaxKind) -> (r: bool)
    ensures
        r == ends_operand(k),
{
    binary_precedence_exec(k) == 0 && k != SyntaxKind::BANG && k != SyntaxKind::TYPEOF_KW && k
        != SyntaxKind::VOID_KW && k != SyntaxKind::DELETE_KW && k != SyntaxKind::AWAIT_KW && k
        != SyntaxKind::YIELD_KW && k != SyntaxKind::NEW_KW && k != SyntaxKind::DOT && k
        != SyntaxKind::DOT3 && k != SyntaxKind::QUESTION && k != SyntaxKind::COLON && k
        != SyntaxKind::EQ && k != SyntaxKind::FAT_ARROW && k != SyntaxKind::COMMA && k
        != SyntaxKind::SEMICOLON
}

fn below_binary_exec(k: SyntaxKind) -> (r: bool)
    ensures
        r == below_binary(k),
{
    k == SyntaxKind::COMMA || k == SyntaxKind::QUESTION || k == SyntaxKind::COLON || k
        == SyntaxKind::EQ || k == SyntaxKind::FAT_ARROW
}

fn bracket_delta_exec(k: SyntaxKind) -> (r: i8)
    ensures
        r == bracket_delta(k),
{
    if k == SyntaxKind::L_PAREN || k == SyntaxKind::L_BRACK || k == SyntaxKind::L_CURLY {
        1
    } else if k == SyntaxKind::R_PAREN || k == SyntaxKind::R_BRACK || k == SyntaxKind::R_CURLY {
        -1
    } else {
        0
    }
}

fn operand_node_exec(k: SyntaxKind) -> (r: Option<SyntaxKind>)
    ensures
        r == operand_node(k),
{
    if k == SyntaxKind::IDENT || k.is_contextual_keyword() {
        Some(SyntaxKind::JS_IDENTIFIER_EXPRESSION)
    } else if k == SyntaxKind::JS_STRING_LITERAL {
        Some(SyntaxKind::JS_STRING_LITERAL_EXPRESSION)
    } else if k == SyntaxKind::JS_NUMBER_LITERAL {
        Some(SyntaxKind::JS_NUMBER_LITERAL_EXPRESSION)
    } else if k == SyntaxKind::JS_BIGINT_LITERAL {
        Some(SyntaxKind::JS_BIGINT_LITERAL_EXPRESSION)
    } else if k == SyntaxKind::TRUE_KW || k == SyntaxKind::FALSE_KW {
        Some(SyntaxKind::JS_BOOLEAN_LITERAL_EXPRESSION)
    } else if k == SyntaxKind::NULL_KW {
        Some(SyntaxKind::JS_NULL_LITERAL_EXPRESSION)
    } else if k == SyntaxKind::THIS_KW {
        Some(SyntaxKind::JS_THIS_EXPRESSION)
    } else {
        None
    }
}

/// Looks through the tokens from the current one up to the index `to`: whether
/// syntax that binds less tightly than a binary operator stands in them, and the
/// operator at which they split.
fn scan_binary(p: &JsParser, to: usize) -> (r: (bool, Option<usize>))
    requires
        p@.wf(),
        p@.pos < to <= p@.tokens.len(),
    ensures
        r.0 == has_lower(p@.tokens, p@.pos, to as int),
        r.1 == (if top_split(p@.tokens, p@.pos, to as int) < 0 {
            None
        } else {
            Some(top_split(p@.tokens, p@.pos, to as int) as usize)
        }),
        r.1 matches Some(j) ==> splits_at(p@.tokens, p@.pos, j as int) && j < to && j as int
            == top_split(p@.tokens, p@.pos, to as int),
        r.1 is None ==> top_split(p@.tokens, p@.pos, to as int) < 0,
{
    let from = p.position();
    let ghost toks = p@.tokens;
    let mut i = from;
    let mut depth: i128 = 0;
    let mut lower = false;
    let mut best: Option<usize> = None;
    let mut best_prec: u8 = 0;
    while i < to
        invariant
            toks == p@.tokens,
            from == p@.pos,
            p@.wf(),
            from <= i <= to,
            to <= toks.len(),
            depth == depth_from(toks, from as int, i as int),
            -(i - from) <= depth <= i - from,
            lower == has_lower(toks, from as int, i as int),
            best == (if top_split(toks, from as int, i as int) < 0 {
                None
            } else {
                Some(top_split(toks, from as int, i as int) as usize)
            }),
            best matches Some(b) ==> splits_at(toks, from as int, b as int) && b < i
                && best_prec == binary_precedence(toks[b as int].kind),
            top_split(toks, from as int, i as int) < i,
        decreases to - i,
    {
        let k = p.kind_at_index(i);
        if depth == 0 && below_binary_exec(k) {
            lower = true;
        }
        let prec = binary_precedence_exec(k);
        if i > from && depth == 0 && prec > 0 && ends_operand_exec(p.kind_at_index(i - 1)) {
            let better = match best {
                None => true,
                Some(_) => prec <= best_prec,
            };
            if better {
                best = Some(i);
                best_prec = prec;
            }
        }
        depth = depth + bracket_delta_exec(k) as i128;
        i = i + 1;
    }
    (lower, best)
}

/// The empty object literal `{}` at the current token.
fn parse_empty_object(p: &mut JsParser) -> (r: CompletedMarker)
    requires
        old(p)@.wf(),
        old(p)@.cur() == SyntaxKind::L_CURLY,
        old(p)@.nth(1) == SyntaxKind::R_CURLY,
    ensures
        final(p)@.wf(),
        parsed(old(p)@, final(p)@, ParsedSyntax::Present(r)),
        final(p)@.pos == old(p)@.pos + 2,
        final(p)@.diagnostics == old(p)@.diagnostics,
        final(p)@.events == old(p)@.events + empty_object_events(),
{
    let ghost s0 = p@;
    let m = p.start();
    let ghost s1 = p@;
    p.bump(SyntaxKind::L_CURLY);
    let ghost s2 = p@;
    let list = p.start();
    let ghost s3 = p@;
    proof {
        lemma_grows_refl(s3);
    }
    let _ = p.complete(list, SyntaxKind::JS_OBJECT_MEMBER_LIST);
    let ghost s4 = p@;
    proof {
        lemma_completed(s2, s3, s3, s4, SyntaxKind::JS_OBJECT_MEMBER_LIST);
    }
    p.bump(SyntaxKind::R_CURLY);
    let ghost s5 = p@;
    proof {
        lemma_bumped_grows(s1, SyntaxKind::L_CURLY);
        lemma_bumped_grows(s4, SyntaxKind::R_CURLY);
        lemma_grows_trans(s1, s2, s4);
        lemma_grows_trans(s1, s4, s5);
        lemma_grows_keeps(s1, s5, m.pos as int);
    }
    let cm = p.complete(m, SyntaxKind::JS_OBJECT_EXPRESSION);
    proof {
        lemma_completed(s0, s1, s5, p@, SyntaxKind::JS_OBJECT_EXPRESSION);
        assert(p@.events =~= s0.events + empty_object_events());
    }
    cm
}

/// An operand over the tokens from the current one up to the index `to`: a literal,
/// `this` or a name node for one such token, a `JS_EXPRESSION` node over the
/// tokens otherwise.
fn parse_operand(p: &mut JsParser, to: usize) -> (r: CompletedMarker)
    requires
        old(p)@.wf(),
        old(p)@.pos < to <= old(p)@.tokens.len(),
    ensures
        final(p)@.wf(),
        parsed(old(p)@, final(p)@, ParsedSyntax::Present(r)),
        final(p)@.pos == to,
        final(p)@.diagnostics == old(p)@.diagnostics,
        final(p)@.events == old(p)@.events + operand_events(old(p)@.tokens, old(p)@.pos, to as int),
{
    let ghost s0 = p@;
    let k = p.cur();
    if to - p.position() == 2 && k == SyntaxKind::L_CURLY && p.nth_at(1, SyntaxKind::R_CURLY) {
        return parse_empty_object(p);
    }
    let m = p.start();
    let ghost s1 = p@;
    let node = operand_node_exec(k);
    if to == p.position() + 1 && node.is_some() {
        if k == SyntaxKind::IDENT || k.is_contextual_keyword() {
            let r = parse_reference_identifier(p);
            let ghost s2 = p@;
            proof {
                lemma_parsed_grows(s1, s2, r);
                lemma_grows_keeps(s1, s2, m.pos as int);
            }
            let cm = p.complete(m, SyntaxKind::JS_IDENTIFIER_EXPRESSION);
            proof {
                lemma_completed(s0, s1, s2, p@, SyntaxKind::JS_IDENTIFIER_EXPRESSION);
                assert(p@.events =~= s0.events + operand_events(s0.tokens, s0.pos, to as int));
            }
            return cm;
        }
        p.bump_any();
        let ghost s2 = p@;
        proof {
            lemma_bumped_grows(s1, k);
        }
        let cm = p.complete(m, node.unwrap());
        proof {
            lemma_completed(s0, s1, s2, p@, node.unwrap());
            assert(p@.events =~= s0.events + operand_events(s0.tokens, s0.pos, to as int));
        }
        return cm;
    }
    proof {
        lemma_grows_refl(s1);
        assert(s1.events =~= s1.events + token_events(s0.tokens, s0.pos, s1.pos));
    }
    while p.position() < to
        invariant
            p@.wf(),
            s1.wf(),
            grows(s1, p@),
            s1.pos <= p@.pos <= to,
            to <= p@.tokens.len(),
            p@.tokens == s0.tokens,
            s1.pos == s0.pos,
            p@.diagnostics == s0.diagnostics,
            p@.events == s1.events + token_events(s0.tokens, s0.pos, p@.pos),
        decreases to - p@.pos,
    {
        let ghost a = p@;
        p.bump_any();
        proof {
            lemma_bumped_grows(a, a.cur());
            lemma_grows_trans(s1, a, p@);
            assert(p@.events =~= s1.events + token_events(s0.tokens, s0.pos, p@.pos));
        }
    }
    let ghost s2 = p@;
    proof {
        lemma_grows_keeps(s1, s2, m.pos as int);
    }
    let cm = p.complete(m, SyntaxKind::JS_EXPRESSION);
    proof {
        lemma_completed(s0, s1, s2, p@, SyntaxKind::JS_EXPRESSION);
        assert(p@.events =~= s0.events + operand_events(s0.tokens, s0.pos, to as int));
    }
    cm
}

/// A node of the kind `kind` over the tokens from the current one up to the index
/// `to`.
fn parse_token_run(p: &mut JsParser, to: usize, kind: SyntaxKind) -> (r: CompletedMarker)
    requires
        old(p)@.wf(),
        old(p)@.pos < to <= old(p)@.tokens.len(),
    ensures
        final(p)@.wf(),
        parsed(old(p)@, final(p)@, ParsedSyntax::Present(r)),
        final(p)@.pos == to,
        final(p)@.diagnostics == old(p)@.diagnostics,
        final(p)@.events == old(p)@.events + (seq![Event::Start { kind }] + token_events(
            old(p)@.tokens,
            old(p)@.pos,
            to as int,
        ) + seq![Event::Finish]),
{
    let ghost s0 = p@;
    let m = p.start();
    let ghost s1 = p@;
    proof {
        lemma_grows_refl(s1);
        assert(s1.events =~= s1.events + token_events(s0.tokens, s0.pos, s1.pos));
    }
    while p.position() < to
        invariant
            p@.wf(),
            s1.wf(),
            grows(s1, p@),
            s1.pos <= p@.pos <= to,
            to <= p@.tokens.len(),
            p@.tokens == s0.tokens,
            s1.pos == s0.pos,
            p@.diagnostics == s0.diagnostics,
            p@.events == s1.events + token_events(s0.tokens, s0.pos, p@.pos),
        decreases to - p@.pos,
    {
        let ghost a = p@;
        p.bump_any();
        proof {
            lemma_bumped_grows(a, a.cur());
            lemma_grows_trans(s1, a, p@);
            assert(p@.events =~= s1.events + token_events(s0.tokens, s0.pos, p@.pos));
        }
    }
    let ghost s2 = p@;
    proof {
        lemma_grows_keeps(s1, s2, m.pos as int);
    }
    let cm = p.complete(m, kind);
    proof {
        lemma_completed(s0, s1, s2, p@, kind);
        assert(p@.events =~= s0.events + (seq![Event::Start { kind }] + token_events(
            s0.tokens,
            s0.pos,
            to as int,
        ) + seq![Event::Finish]));
    }
    cm
}

/// The expression over the tokens from the current one up to the index `to`: the
/// tree of its binary operators over its operands, as `binary_events` says; a
/// missing right operand is reported.
fn parse_binary_range(p: &mut JsParser, to: usize) -> (r: CompletedMarker)
    requires
        old(p)@.wf(),
        old(p)@.pos < to <= old(p)@.tokens.len(),
    ensures
        final(p)@.wf(),
        parsed(old(p)@, final(p)@, ParsedSyntax::Present(r)),
        final(p)@.pos == to,
        final(p)@.diagnostics == binary_diagnostics(
            old(p)@.diagnostics,
            old(p)@.tokens,
            old(p)@.pos,
            to as int,
        ),
        final(p)@.events == old(p)@.events + binary_events(old(p)@.tokens, old(p)@.pos, to as int),
    decreases to - old(p)@.pos, 1int,
{
    let ghost s0 = p@;
    let (lower, top) = scan_binary(p, to);
    if lower {
        return parse_token_run(p, to, SyntaxKind::JS_EXPRESSION);
    }
    match top {
        None => parse_operand(p, to),
        Some(j) => parse_binary_node(p, j, to),
    }
}

/// A binary expression over the tokens from the current one up to the index `to`
/// whose operator stands at the index `j`.
#[verifier::spinoff_prover]
#[verifier::rlimit(60)]
fn parse_binary_node(p: &mut JsParser, j: usize, to: usize) -> (r: CompletedMarker)
    requires
        old(p)@.wf(),
        old(p)@.pos < to <= old(p)@.tokens.len(),
        !has_lower(old(p)@.tokens, old(p)@.pos, to as int),
        j as int == top_split(old(p)@.tokens, old(p)@.pos, to as int),
        old(p)@.pos < j < to,
        splits_at(old(p)@.tokens, old(p)@.pos, j as int),
    ensures
        final(p)@.wf(),
        parsed(old(p)@, final(p)@, ParsedSyntax::Present(r)),
        final(p)@.pos == to,
        final(p)@.diagnostics == binary_diagnostics(
            old(p)@.diagnostics,
            old(p)@.tokens,
            old(p)@.pos,
            to as int,
        ),
        final(p)@.events == old(p)@.events + binary_events(old(p)@.tokens, old(p)@.pos, to as int),
    decreases to - old(p)@.pos, 0int,
{
    let ghost s0 = p@;
    let m = p.start();
    let ghost s1 = p@;
    let left = parse_binary_range(p, j);
    let ghost s2 = p@;
    let op = p.cur();
    p.bump_any();
    let ghost s3 = p@;
    proof {
        lemma_parsed_grows(s1, s2, ParsedSyntax::Present(left));
        lemma_bumped_grows(s2, op);
        lemma_grows_trans(s1, s2, s3);
    }
    if p.position() < to {
        let right = parse_binary_range(p, to);
        proof {
            lemma_parsed_grows(s3, p@, ParsedSyntax::Present(right));
            lemma_grows_trans(s1, s3, p@);
        }
    } else {
        let ghost d = ParseDiagnostic {
            kind: DiagnosticKind::ExpectedExpression,
            start: s3.pos as usize,
            end: s3.cur_end() as usize,
        };
        p.error_at_cur(DiagnosticKind::ExpectedExpression);
        proof {
            lemma_diagnosed_grows(s3, d);
            lemma_grows_trans(s1, s3, p@);
        }
    }
    let ghost s4 = p@;
    proof {
        lemma_grows_keeps(s1, s4, m.pos as int);
    }
    let kind = binary_node_exec(op);
    let cm = p.complete(m, kind);
    proof {
        lemma_completed(s0, s1, s4, p@, kind);
        let toks = s0.tokens;
        let right = binary_events(toks, j + 1, to as int);
        assert(s4.events =~= s1.events + binary_events(toks, s0.pos, j as int) + seq![Event::Token { kind: op }] + right);
        lemma_binary_split(toks, s0.pos, j as int, to as int);
        assert(p@.events =~= s0.events + binary_events(toks, s0.pos, to as int));
    }
    cm
}

/// An expression that splits at `j` is the binary node of its two sides.
proof fn lemma_binary_split(toks: Seq<LexedToken>, from: int, j: int, to: int)
    requires
        from < j < to,
        !has_lower(toks, from, to),
        j == top_split(toks, from, to),
    ensures
        binary_events(toks, from, to) == seq![Event::Start { kind: binary_node(toks[j].kind) }]
            + binary_events(toks, from, j) + seq![Event::Token { kind: toks[j].kind }]
            + binary_events(toks, j + 1, to) + seq![Event::Finish],
{
}

/// A run that starts at the index `i` stops at `i` or later.
proof fn lemma_run_end_from_after(toks: Seq<LexedToken>, i: int, depth: int, mode: RunEnd)
    requires
        0 <= i <= toks.len(),
    ensures
        run_end_from(toks, i, depth, mode) >= i,
    decreases toks.len() - i,
{
    if i < toks.len() {
        if depth <= 0 && crate::syntax::balanced::stops_before(toks, i, mode) {
        } else if opens(mode, toks[i].kind) {
            lemma_run_end_from_after(toks, i + 1, depth + 1, mode);
        } else if closes(mode, toks[i].kind) {
            lemma_run_end_from_after(toks, i + 1, depth - 1, mode);
        } else {
            lemma_run_end_from_after(toks, i + 1, depth, mode);
        }
    }
}

fn starts_expression_exec(k: SyntaxKind) -> (r: bool)
    ensures
        r == starts_expression(k),
{
    !(k == SyntaxKind::EOF || k == SyntaxKind::R_PAREN || k == SyntaxKind::R_BRACK || k
        == SyntaxKind::R_CURLY || k == SyntaxKind::COMMA || k == SyntaxKind::SEMICOLON || k
        == SyntaxKind::COLON || k == SyntaxKind::EQ || k == SyntaxKind::FAT_ARROW || k
        == SyntaxKind::DOT3)
}

/// Whether the `n`-th token from the current one is a reference identifier.
pub fn is_nth_at_reference_identifier(p: &JsParser, n: usize) -> (r: bool)
    requires
        p@.wf(),
    ensures
        r == reference_identifier(p@.nth(n as int)),
{
    let k = p.nth(n);
    k == SyntaxKind::IDENT || k.is_contextual_keyword()
}

/// A reference identifier, emitted as an `IDENT` in a `JS_REFERENCE_IDENTIFIER` node.
pub fn parse_reference_identifier(p: &mut JsParser) -> (r: ParsedSyntax)
    requires
        old(p)@.wf(),
    ensures
        final(p)@.wf(),
        parsed(old(p)@, final(p)@, r),
        r is Absent <==> !reference_identifier(old(p)@.cur()),
        r is Present ==> final(p)@ == old(p)@.with_events(
            old(p)@.events + seq![
                Event::Start { kind: SyntaxKind::JS_REFERENCE_IDENTIFIER },
                Event::Token { kind: SyntaxKind::IDENT },
                Event::Finish,
            ],
        ).bumped_silently(),
{
    if !is_nth_at_reference_identifier(p, 0) {
        return ParsedSyntax::Absent;
    }
    let ghost s0 = p@;
    let m = p.start();
    let ghost s1 = p@;
    p.bump_remap(SyntaxKind::IDENT);
    let ghost s2 = p@;
    proof {
        lemma_bumped_grows(s1, SyntaxKind::IDENT);
    }
    let cm = p.complete(m, SyntaxKind::JS_REFERENCE_IDENTIFIER);
    proof {
        lemma_completed(s0, s1, s2, p@, SyntaxKind::JS_REFERENCE_IDENTIFIER);
        assert(p@ =~= s0.with_events(
            s0.events + seq![
                Event::Start { kind: SyntaxKind::JS_REFERENCE_IDENTIFIER },
                Event::Token { kind: SyntaxKind::IDENT },
                Event::Finish,
            ],
        ).bumped_silently());
    }
    ParsedSyntax::Present(cm)
}

/// An expression that may stand as an element of a list: an object literal, or the
/// tokens up to a `,`, a `;` or a closing bracket outside of brackets, parsed into
/// the tree of their binary operators (`in` among them) over their operands.
pub fn parse_assignment_expression_or_higher(p: &mut JsParser) -> (r: ParsedSyntax)
    requires
        old(p)@.wf(),
    ensures
        final(p)@.wf(),
        parsed(old(p)@, final(p)@, r),
        r is Absent <==> !starts_expression(old(p)@.cur()),
        r matches ParsedSyntax::Present(m) ==> {
            &&& final(p)@.pos > old(p)@.pos
            &&& final(p)@.kind_of(m) == (if old(p)@.cur() == SyntaxKind::L_CURLY {
                SyntaxKind::JS_OBJECT_EXPRESSION
            } else {
                start_kind(expression_events(old(p)@, RunEnd::Assignment)[0])
            })
        },
        old(p)@.cur() != SyntaxKind::L_CURLY ==> reached(
            final(p)@,
            expression_after(old(p)@, RunEnd::Assignment),
        ) && final(p)@.events == old(p)@.events + expression_events(old(p)@, RunEnd::Assignment),
        old(p)@.cur() == SyntaxKind::L_CURLY && object_known(old(p)@) ==> reached(
            final(p)@,
            object_after(old(p)@),
        ) && final(p)@.events == old(p)@.events + object_expression_events(old(p)@),
    decreases old(p)@.tokens.len() - old(p)@.pos, 10int,
{
    if p.at(SyntaxKind::L_CURLY) {
        let ghost s0 = p@;
        let r = parse_object_expression(p);
        proof {
            assert(s0.cursor().skipped() == s0.skipped());
        }
        return r;
    }
    if !starts_expression_exec(p.cur()) {
        return ParsedSyntax::Absent;
    }
    let ghost s0 = p@;
    let e = find_run_end(p, p.position(), RunEnd::Assignment);
    proof {
        lemma_run_end_from_after(s0.tokens, s0.pos + 1, 0, RunEnd::Assignment);
        lemma_run_end_from_after(s0.tokens, s0.pos + 1, 1, RunEnd::Assignment);
    }
    let m = parse_binary_range(p, e);
    proof {
        assert(p@.events[s0.events.len() as int] == binary_events(s0.tokens, s0.pos, e as int)[0]);
    }
    ParsedSyntax::Present(m)
}

/// An expression that may hold commas: an object literal, or the tokens up to a `;`
/// or a closing bracket outside of brackets, parsed into the tree of their binary
/// operators (`in` among them) over their operands.
pub fn parse_expression(p: &mut JsParser) -> (r: ParsedSyntax)
    requires
        old(p)@.wf(),
    ensures
        final(p)@.wf(),
        parsed(old(p)@, final(p)@, r),
        r is Absent <==> !starts_expression(old(p)@.cur()),
        r matches ParsedSyntax::Present(m) ==> {
            &&& final(p)@.pos > old(p)@.pos
            &&& final(p)@.kind_of(m) == (if old(p)@.cur() == SyntaxKind::L_CURLY {
                SyntaxKind::JS_OBJECT_EXPRESSION
            } else {
                start_kind(expression_events(old(p)@, RunEnd::Sequence)[0])
            })
        },
        old(p)@.cur() != SyntaxKind::L_CURLY ==> reached(
            final(p)@,
            expression_after(old(p)@, RunEnd::Sequence),
        ) && final(p)@.events == old(p)@.events + expression_events(old(p)@, RunEnd::Sequence),
        old(p)@.cur() == SyntaxKind::L_CURLY && object_known(old(p)@) ==> reached(
            final(p)@,
            object_after(old(p)@),
        ) && final(p)@.events == old(p)@.events + object_expression_events(old(p)@),
    decreases old(p)@.tokens.len() - old(p)@.pos, 10int,
{
    if p.at(SyntaxKind::L_CURLY) {
        let ghost s0 = p@;
        let r = parse_object_expression(p);
        proof {
            assert(s0.cursor().skipped() == s0.skipped());
        }
        return r;
    }
    if !starts_expression_exec(p.cur()) {
        return ParsedSyntax::Absent;
    }
    let ghost s0 = p@;
    let e = find_run_end(p, p.position(), RunEnd::Sequence);
    proof {
        lemma_run_end_from_after(s0.tokens, s0.pos + 1, 0, RunEnd::Sequence);
        lemma_run_end_from_after(s0.tokens, s0.pos + 1, 1, RunEnd::Sequence);
    }
    let m = parse_binary_range(p, e);
    proof {
        assert(p@.events[s0.events.len() as int] == binary_events(s0.tokens, s0.pos, e as int)[0]);
    }
    ParsedSyntax::Present(m)
}

} // verus!
