use vstd::prelude::*;

use crate::events::Event;
use crate::parser::{
    grows, lemma_bumped_grows, lemma_completed, lemma_diagnosed_grows, lemma_grows_keeps,
    lemma_grows_refl, lemma_grows_trans, lemma_node_events, lemma_parsed_grows, parsed,
    push_diagnostic, reached,
    DiagnosticKind, JsParser, ParseDiagnostic, ParsedSyntax, ParserState,
};
use crate::syntax::balanced::{
    bracketed_events, closes, kind_at, parse_bracketed, parse_run, run_end, run_end_from,
    run_events, run_stops_at, token_events, RunEnd,
};
use crate::syntax::object::tokens_left;
use crate::syntax_kind::{keyword, SyntaxKind};

verus! {

/// Whether a token can stand as a name in a decorator: an identifier or a keyword.
pub open spec fn decorator_name(k: SyntaxKind) -> bool {
    k == SyntaxKind::IDENT || keyword(k)
}

/// Where the parser stands after the dotted name of a decorator from the current
/// token on: an optional name, then for each `.` the `.` and an optional name.
pub open spec fn dotted_after(s: ParserState) -> ParserState
    decreases tokens_left(s),
{
    let s = s.cursor();
    let t = if decorator_name(s.cur()) {
        s.skipped()
    } else {
        s
    };
    if t.cur() == SyntaxKind::DOT {
        dotted_after(t.skipped())
    } else {
        t
    }
}

/// The events of the dotted name of a decorator from the current token on: each
/// name as an identifier and each `.`.
pub open spec fn dotted_events(s: ParserState) -> Seq<Event>
    decreases tokens_left(s),
{
    let s = s.cursor();
    let t = if decorator_name(s.cur()) {
        s.skipped()
    } else {
        s
    };
    (if decorator_name(s.cur()) {
        seq![Event::Token { kind: SyntaxKind::IDENT }]
    } else {
        Seq::<Event>::empty()
    }) + (if t.cur() == SyntaxKind::DOT {
        seq![Event::Token { kind: SyntaxKind::DOT }] + dotted_events(t.skipped())
    } else {
        Seq::<Event>::empty()
    })
}

/// Where the parser stands after the decorator at the current `@`: the dotted name
/// and, at a `(`, the arguments up to the `)` that closes it.
pub open spec fn decorator_after(s: ParserState) -> ParserState {
    let a = dotted_after(s.cursor().skipped());
    if a.cur() == SyntaxKind::L_PAREN {
        crate::syntax::balanced::bracketed_after(a, RunEnd::Group, SyntaxKind::R_PAREN)
    } else {
        a
    }
}

/// The events of the decorator at the current `@`.
pub open spec fn decorator_events(s: ParserState) -> Seq<Event> {
    let a = dotted_after(s.cursor().skipped());
    seq![Event::Start { kind: SyntaxKind::JS_DECORATOR }, Event::Token { kind: SyntaxKind::AT }]
        + dotted_events(s.cursor().skipped()) + (if a.cur() == SyntaxKind::L_PAREN {
        bracketed_events(
            a,
            SyntaxKind::L_PAREN,
            RunEnd::Group,
            SyntaxKind::R_PAREN,
            SyntaxKind::JS_CALL_ARGUMENTS,
        )
    } else {
        Seq::<Event>::empty()
    }) + seq![Event::Finish]
}

/// Where the parser stands after the decorators from the current token on: one
/// after the other while a `@` follows.
pub open spec fn decorators_after(s: ParserState) -> ParserState
    decreases tokens_left(s),
{
    let s = s.cursor();
    if s.cur() == SyntaxKind::AT {
        let d = decorator_after(s);
        if d.tokens == s.tokens && d.pos > s.pos {
            decorators_after(d)
        } else {
            d
        }
    } else {
        s
    }
}

/// The events of the decorators from the current token on.
pub open spec fn decorators_events(s: ParserState) -> Seq<Event>
    decreases tokens_left(s),
{
    let s = s.cursor();
    if s.cur() == SyntaxKind::AT {
        let d = decorator_after(s);
        if d.tokens == s.tokens && d.pos > s.pos {
            decorator_events(s) + decorators_events(d)
        } else {
            decorator_events(s)
        }
    } else {
        Seq::empty()
    }
}

/// What kind of function a signature belongs to.
#[derive(Debug, Clone, Copy, PartialEq, Eq, Structural)]
pub struct SignatureFlags {
    pub is_async: bool,
    pub is_generator: bool,
}

/// The flags of a plain function: neither async nor a generator.
pub open spec fn plain() -> SignatureFlags {
    SignatureFlags { is_async: false, is_generator: false }
}

impl SignatureFlags {
    /// A plain function.
    pub fn empty() -> (r: SignatureFlags)
        ensures
            r == plain(),
    {
        SignatureFlags { is_async: false, is_generator: false }
    }
}

/// The diagnostic that a token gets in the parameters or the body of a function
/// with the flags `flags`: a `yield` outside a generator, an `await` outside an
/// async function.
pub open spec fn flagged(k: SyntaxKind, flags: SignatureFlags) -> Option<DiagnosticKind> {
    if k == SyntaxKind::YIELD_KW && !flags.is_generator {
        Some(DiagnosticKind::YieldOutsideGenerator)
    } else if k == SyntaxKind::AWAIT_KW && !flags.is_async {
        Some(DiagnosticKind::AwaitOutsideAsync)
    } else {
        None
    }
}

/// The diagnostics after the tokens from the current one up to the index `to`,
/// each reported over itself where `flagged` says.
pub open spec fn flagged_diagnostics(s: ParserState, flags: SignatureFlags, to: int) -> Seq<
    ParseDiagnostic,
>
    decreases to - s.pos,
{
    if to <= s.pos {
        s.diagnostics
    } else {
        let ds = flagged_diagnostics(s, flags, to - 1);
        match flagged(kind_at(s, to - 1), flags) {
            Some(kind) => push_diagnostic(
                ds,
                ParseDiagnostic { kind, start: (to - 1) as usize, end: to as usize },
            ),
            None => ds,
        }
    }
}

/// Where the parser stands after a group that starts at the current `open` in the
/// signature or the body of a function: after the tokens up to the `close` that
/// closes it, with each of them reported where `flagged` says, and after the
/// expected `close`.
pub open spec fn function_group_after(s: ParserState, close: SyntaxKind, flags: SignatureFlags) -> ParserState {
    let s = s.cursor();
    let e = run_end(s, s.pos + 1, RunEnd::Group);
    s.moved(e, flagged_diagnostics(s.skipped(), flags, e)).expected(close)
}

/// Where the parser stands after a function body that a rule requires: after the
/// body when the current token is `{`, and with the body reported as missing
/// otherwise.
pub open spec fn body_after(s: ParserState, flags: SignatureFlags) -> ParserState {
    let s = s.cursor();
    if s.cur() == SyntaxKind::L_CURLY {
        function_group_after(s, SyntaxKind::R_CURLY, flags)
    } else {
        s.reported(DiagnosticKind::ExpectedFunctionBody)
    }
}

/// Where the parser stands after a parameter list that a rule requires: after the
/// list when the current token is `(`, and with the list reported as missing
/// otherwise.
pub open spec fn parameters_after(s: ParserState, flags: SignatureFlags) -> ParserState {
    let s = s.cursor();
    if s.cur() == SyntaxKind::L_PAREN {
        function_group_after(s, SyntaxKind::R_PAREN, flags)
    } else {
        s.reported(DiagnosticKind::ExpectedParameters)
    }
}

/// The events of a function body at the current token: a `JS_FUNCTION_BODY` node
/// when it is `{`, none otherwise.
pub open spec fn body_events(s: ParserState) -> Seq<Event> {
    let s = s.cursor();
    if s.cur() == SyntaxKind::L_CURLY {
        bracketed_events(
            s,
            SyntaxKind::L_CURLY,
            RunEnd::Group,
            SyntaxKind::R_CURLY,
            SyntaxKind::JS_FUNCTION_BODY,
        )
    } else {
        Seq::empty()
    }
}

/// The events of a parameter list at the current token: a `JS_PARAMETERS` node when
/// it is `(`, none otherwise.
pub open spec fn parameters_events(s: ParserState) -> Seq<Event> {
    let s = s.cursor();
    if s.cur() == SyntaxKind::L_PAREN {
        bracketed_events(
            s,
            SyntaxKind::L_PAREN,
            RunEnd::Group,
            SyntaxKind::R_PAREN,
            SyntaxKind::JS_PARAMETERS,
        )
    } else {
        Seq::empty()
    }
}

/// The events of a formal parameter at the current token: a `JS_FORMAL_PARAMETER`
/// node over its run, none when there is none.
pub open spec fn formal_parameter_events(s: ParserState) -> Seq<Event> {
    let s = s.cursor();
    if run_stops_at(RunEnd::Parameter, s.cur()) {
        Seq::empty()
    } else {
        run_events(s, s.pos, RunEnd::Parameter, SyntaxKind::JS_FORMAL_PARAMETER)
    }
}

fn flagged_exec(k: SyntaxKind, flags: SignatureFlags) -> (r: Option<DiagnosticKind>)
    ensures
        r == flagged(k, flags),
{
    if k == SyntaxKind::YIELD_KW && !flags.is_generator {
        Some(DiagnosticKind::YieldOutsideGenerator)
    } else if k == SyntaxKind::AWAIT_KW && !flags.is_async {
        Some(DiagnosticKind::AwaitOutsideAsync)
    } else {
        None
    }
}

/// Emits the tokens up to the closing bracket of the enclosing group, brackets
/// included, and reports each token where `flagged` says.
fn bump_function_group(p: &mut JsParser, flags: SignatureFlags)
    requires
        old(p)@.wf(),
    ensures
        final(p)@.wf(),
        grows(old(p)@, final(p)@),
        final(p)@.pos == run_end(old(p)@, old(p)@.pos, RunEnd::Group),
        final(p)@.events == old(p)@.events + token_events(
            old(p)@.tokens,
            old(p)@.pos,
            final(p)@.pos,
        ),
        final(p)@.diagnostics == flagged_diagnostics(old(p)@.cursor(), flags, final(p)@.pos),
{
    let ghost s0 = p@;
    let mut depth: usize = 0;
    proof {
        lemma_grows_refl(s0);
    }
    loop
        invariant
            s0.wf(),
            p@.wf(),
            grows(s0, p@),
            s0.pos <= p@.pos,
            depth <= p@.pos - s0.pos,
            run_end_from(p@.tokens, p@.pos, depth as int, RunEnd::Group) == run_end(
                s0,
                s0.pos,
                RunEnd::Group,
            ),
            p@.events == s0.events + token_events(s0.tokens, s0.pos, p@.pos),
            p@.diagnostics == flagged_diagnostics(s0.cursor(), flags, p@.pos),
        ensures
            p@.wf(),
            grows(s0, p@),
            p@.pos == run_end(s0, s0.pos, RunEnd::Group),
            p@.events == s0.events + token_events(s0.tokens, s0.pos, p@.pos),
            p@.diagnostics == flagged_diagnostics(s0.cursor(), flags, p@.pos),
        decreases p@.tokens.len() - p@.pos,
    {
        let k = p.cur();
        if k == SyntaxKind::EOF {
            break;
        }
        if depth == 0 && (k == SyntaxKind::R_PAREN || k == SyntaxKind::R_BRACK || k
            == SyntaxKind::R_CURLY) {
            break;
        }
        assert(p@.pos < p@.tokens.len());
        if k == SyntaxKind::L_PAREN || k == SyntaxKind::L_BRACK || k == SyntaxKind::L_CURLY {
            depth = depth + 1;
        } else if k == SyntaxKind::R_PAREN || k == SyntaxKind::R_BRACK || k == SyntaxKind::R_CURLY {
            depth = depth - 1;
        }
        let ghost a = p@;
        match flagged_exec(k, flags) {
            Some(kind) => {
                let start = p.cur_start();
                let d = ParseDiagnostic { kind, start, end: start + 1 };
                p.error(d);
                proof {
                    lemma_diagnosed_grows(a, d);
                    lemma_grows_trans(s0, a, p@);
                }
            },
            None => {},
        }
        let ghost b = p@;
        p.bump_any();
        proof {
            lemma_bumped_grows(b, k);
            lemma_grows_trans(s0, b, p@);
            assert(p@.events =~= s0.events + token_events(s0.tokens, s0.pos, p@.pos));
            assert(kind_at(s0, p@.pos - 1) == k);
        }
    }
}

/// A group that starts at `open` in the signature or the body of a function, in a
/// node of the kind `kind`; `Absent` when the current token is not `open`.
#[verifier::spinoff_prover]
#[verifier::rlimit(80)]
fn parse_function_group(
    p: &mut JsParser,
    open: SyntaxKind,
    close: SyntaxKind,
    kind: SyntaxKind,
    flags: SignatureFlags,
) -> (r: ParsedSyntax)
    requires
        old(p)@.wf(),
        open != SyntaxKind::EOF,
        close != SyntaxKind::EOF,
        !closes(RunEnd::Group, open),
    ensures
        final(p)@.wf(),
        parsed(old(p)@, final(p)@, r),
        r is Absent <==> old(p)@.cur() != open,
        r matches ParsedSyntax::Present(m) ==> {
            &&& final(p)@.kind_of(m) == kind
            &&& final(p)@.pos > old(p)@.pos
            &&& reached(final(p)@, function_group_after(old(p)@, close, flags))
            &&& final(p)@.events == old(p)@.events + bracketed_events(old(p)@, open, RunEnd::Group, close, kind)
        },
{
    if !p.at(open) {
        return ParsedSyntax::Absent;
    }
    let ghost s0 = p@;
    let m = p.start();
    let ghost s1 = p@;
    p.bump(open);
    let ghost s2 = p@;
    bump_function_group(p, flags);
    let ghost s3 = p@;
    p.expect(close);
    let ghost s4 = p@;
    proof {
        lemma_bumped_grows(s1, open);
        lemma_grows_trans(s1, s2, s3);
        lemma_grows_trans(s1, s3, s4);
        lemma_grows_trans(s2, s3, s4);
        lemma_grows_keeps(s1, s4, m.pos as int);
        lemma_grows_keeps(s2, s4, s1.events.len() as int);
        assert(s2.cursor() == s0.skipped());
        assert(s3.pos == run_end(s0, s0.pos + 1, RunEnd::Group));
        assert(reached(s4, function_group_after(s0, close, flags)));
    }
    let cm = p.complete(m, kind);
    proof {
        lemma_completed(s0, s1, s4, p@, kind);
        let e = s3.pos;
        let tail = if kind_at(s0, e) == close {
            seq![Event::Token { kind: close }]
        } else {
            Seq::<Event>::empty()
        };
        assert(s4.events =~= s0.events + seq![Event::Start { kind: SyntaxKind::TOMBSTONE }, Event::Token { kind: open }] + token_events(s0.tokens, s0.pos + 1, e) + tail);
        assert(p@.events =~= s0.events + bracketed_events(s0, open, RunEnd::Group, close, kind));
    }
    ParsedSyntax::Present(cm)
}

/// A function body `{ ... }`: the tokens up to the `}` that closes the `{`, in a
/// `JS_FUNCTION_BODY` node, with each `yield` and `await` that the flags do not allow
/// reported.
pub fn parse_function_body(p: &mut JsParser, flags: SignatureFlags) -> (r: ParsedSyntax)
    requires
        old(p)@.wf(),
    ensures
        final(p)@.wf(),
        parsed(old(p)@, final(p)@, r),
        r is Absent <==> old(p)@.cur() != SyntaxKind::L_CURLY,
        r matches ParsedSyntax::Present(m) ==> final(p)@.kind_of(m) == SyntaxKind::JS_FUNCTION_BODY
            && final(p)@.pos > old(p)@.pos,
        r is Present ==> reached(final(p)@, body_after(old(p)@, flags)) && final(p)@.events
            == old(p)@.events + body_events(old(p)@),
{
    parse_function_group(
        p,
        SyntaxKind::L_CURLY,
        SyntaxKind::R_CURLY,
        SyntaxKind::JS_FUNCTION_BODY,
        flags,
    )
}

/// A parameter list `( ... )`: the tokens up to the `)` that closes the `(`, in a
/// `JS_PARAMETERS` node, with each `yield` and `await` that the flags do not allow
/// reported.
pub fn parse_parameter_list(p: &mut JsParser, flags: SignatureFlags) -> (r: ParsedSyntax)
    requires
        old(p)@.wf(),
    ensures
        final(p)@.wf(),
        parsed(old(p)@, final(p)@, r),
        r is Absent <==> old(p)@.cur() != SyntaxKind::L_PAREN,
        r matches ParsedSyntax::Present(m) ==> final(p)@.kind_of(m) == SyntaxKind::JS_PARAMETERS
            && final(p)@.pos > old(p)@.pos,
        r is Present ==> reached(final(p)@, parameters_after(old(p)@, flags)) && final(p)@.events
            == old(p)@.events + parameters_events(old(p)@),
{
    parse_function_group(
        p,
        SyntaxKind::L_PAREN,
        SyntaxKind::R_PAREN,
        SyntaxKind::JS_PARAMETERS,
        flags,
    )
}

/// A formal parameter: the tokens up to a `,` or a closing bracket outside of
/// brackets, in a `JS_FORMAL_PARAMETER` node; `Absent` when there is none.
pub fn parse_formal_parameter(p: &mut JsParser) -> (r: ParsedSyntax)
    requires
        old(p)@.wf(),
    ensures
        final(p)@.wf(),
        parsed(old(p)@, final(p)@, r),
        r is Absent <==> crate::syntax::balanced::run_stops_at(RunEnd::Parameter, old(p)@.cur()),
        r matches ParsedSyntax::Present(m) ==> final(p)@.kind_of(m)
            == SyntaxKind::JS_FORMAL_PARAMETER && final(p)@.pos > old(p)@.pos,
        r is Present ==> final(p)@.pos == run_end(old(p)@, old(p)@.pos, RunEnd::Parameter)
            && final(p)@.diagnostics == old(p)@.diagnostics,
        final(p)@.events == old(p)@.events + formal_parameter_events(old(p)@),
{
    parse_run(p, RunEnd::Parameter, SyntaxKind::JS_FORMAL_PARAMETER)
}

/// Emits the current token as an identifier when it is a name.
fn eat_name(p: &mut JsParser)
    requires
        old(p)@.wf(),
    ensures
        final(p)@.wf(),
        grows(old(p)@, final(p)@),
        final(p)@.diagnostics == old(p)@.diagnostics,
        final(p)@ == (if decorator_name(old(p)@.cur()) {
            old(p)@.bumped(SyntaxKind::IDENT)
        } else {
            old(p)@
        }),
{
    let k = p.cur();
    proof {
        lemma_grows_refl(p@);
    }
    if k == SyntaxKind::IDENT || k.is_keyword() {
        proof {
            lemma_bumped_grows(p@, SyntaxKind::IDENT);
        }
        p.bump_remap(SyntaxKind::IDENT);
    }
}

/// A decorator `@name`, `@name.name...` or either followed by call arguments, in a
/// `JS_DECORATOR` node.
#[verifier::spinoff_prover]
#[verifier::rlimit(60)]
fn parse_decorator(p: &mut JsParser) -> (r: ParsedSyntax)
    requires
        old(p)@.wf(),
    ensures
        final(p)@.wf(),
        parsed(old(p)@, final(p)@, r),
        r is Absent <==> old(p)@.cur() != SyntaxKind::AT,
        r matches ParsedSyntax::Present(m) ==> final(p)@.kind_of(m) == SyntaxKind::JS_DECORATOR
            && final(p)@.pos > old(p)@.pos,
        r is Present ==> reached(final(p)@, decorator_after(old(p)@)) && final(p)@.events
            == old(p)@.events + decorator_events(old(p)@),
{
    if !p.at(SyntaxKind::AT) {
        return ParsedSyntax::Absent;
    }
    let ghost s0 = p@;
    let m = p.start();
    let ghost s1 = p@;
    p.bump(SyntaxKind::AT);
    let ghost sa = p@;
    proof {
        lemma_bumped_grows(s1, SyntaxKind::AT);
    }
    eat_name(p);
    let ghost l = sa.events.len() as int;
    proof {
        lemma_grows_trans(s1, sa, p@);
        assert(reached(sa, s0.skipped()));
        assert(dotted_after(sa) == dotted_after(s0.skipped()));
        assert(dotted_events(sa) == dotted_events(s0.skipped()));
        lemma_dotted_step(sa, p@);
    }
    while p.at(SyntaxKind::DOT)
        invariant
            p@.wf(),
            grows(s1, p@),
            grows(sa, p@),
            p@.pos > s0.pos,
            s1.wf(),
            s0.wf(),
            l == sa.events.len(),
            dotted_after(s0.skipped()) == (if p@.cur() == SyntaxKind::DOT {
                dotted_after(p@.skipped())
            } else {
                p@.cursor()
            }),
            dotted_events(s0.skipped()) == p@.events.skip(l) + (if p@.cur() == SyntaxKind::DOT {
                seq![Event::Token { kind: SyntaxKind::DOT }] + dotted_events(p@.skipped())
            } else {
                Seq::<Event>::empty()
            }),
        decreases p@.tokens.len() - p@.pos,
    {
        let ghost a = p@;
        p.bump(SyntaxKind::DOT);
        let ghost b = p@;
        eat_name(p);
        proof {
            lemma_bumped_grows(a, SyntaxKind::DOT);
            lemma_grows_trans(a, b, p@);
            lemma_grows_trans(s1, a, p@);
            lemma_grows_trans(sa, a, p@);
            assert(reached(b, a.skipped()));
            assert(dotted_after(b) == dotted_after(a.skipped()));
            assert(dotted_events(b) == dotted_events(a.skipped()));
            lemma_dotted_step(b, p@);
            assert(p@.events.skip(l) =~= a.events.skip(l) + seq![Event::Token { kind: SyntaxKind::DOT }]
                + p@.events.skip(b.events.len() as int));
        }
    }
    let ghost a = p@;
    let args = parse_bracketed(
        p,
        SyntaxKind::L_PAREN,
        RunEnd::Group,
        SyntaxKind::R_PAREN,
        SyntaxKind::JS_CALL_ARGUMENTS,
    );
    proof {
        lemma_parsed_grows(a, p@, args);
        lemma_grows_trans(s1, a, p@);
        lemma_grows_keeps(s1, p@, m.pos as int);
    }
    let ghost s2 = p@;
    let cm = p.complete(m, SyntaxKind::JS_DECORATOR);
    proof {
        lemma_completed(s0, s1, s2, p@, SyntaxKind::JS_DECORATOR);
        assert(a.events.skip(l) == dotted_events(s0.skipped()));
        assert(dotted_after(s0.skipped()) == a.cursor());
        let args_events = if a.cur() == SyntaxKind::L_PAREN {
            bracketed_events(
                a,
                SyntaxKind::L_PAREN,
                RunEnd::Group,
                SyntaxKind::R_PAREN,
                SyntaxKind::JS_CALL_ARGUMENTS,
            )
        } else {
            Seq::<Event>::empty()
        };
        let inner = seq![Event::Token { kind: SyntaxKind::AT }] + dotted_events(s0.skipped())
            + args_events;
        assert(s2.events =~= s1.events + inner);
        lemma_node_events(s0, s1, s2, p@, SyntaxKind::JS_DECORATOR, inner);
        assert(s0.cursor().skipped() == s0.skipped());
        assert(bracketed_events(a, SyntaxKind::L_PAREN, RunEnd::Group, SyntaxKind::R_PAREN, SyntaxKind::JS_CALL_ARGUMENTS)
            == bracketed_events(a.cursor(), SyntaxKind::L_PAREN, RunEnd::Group, SyntaxKind::R_PAREN, SyntaxKind::JS_CALL_ARGUMENTS));
        assert(p@.events =~= s0.events + decorator_events(s0));
    }
    ParsedSyntax::Present(cm)
}

/// One step of a dotted name: the optional name at `b`, which leaves the parser at
/// `c`, and what follows it.
proof fn lemma_dotted_step(b: ParserState, c: ParserState)
    requires
        c == (if decorator_name(b.cur()) {
            b.bumped(SyntaxKind::IDENT)
        } else {
            b
        }),
    ensures
        dotted_after(b) == (if c.cur() == SyntaxKind::DOT {
            dotted_after(c.skipped())
        } else {
            c.cursor()
        }),
        dotted_events(b) == c.events.skip(b.events.len() as int) + (if c.cur() == SyntaxKind::DOT {
            seq![Event::Token { kind: SyntaxKind::DOT }] + dotted_events(c.skipped())
        } else {
            Seq::<Event>::empty()
        }),
{
    let t = if decorator_name(b.cur()) {
        b.cursor().skipped()
    } else {
        b.cursor()
    };
    assert(t.skipped() == c.skipped());
    assert(c.events.skip(b.events.len() as int) =~= (if decorator_name(b.cur()) {
        seq![Event::Token { kind: SyntaxKind::IDENT }]
    } else {
        Seq::<Event>::empty()
    }));
}

/// The decorators before a class member or parameter, in a `JS_DECORATOR_LIST`
/// node; `Absent` when there is none.
#[verifier::spinoff_prover]
#[verifier::rlimit(60)]
pub fn parse_decorators(p: &mut JsParser) -> (r: ParsedSyntax)
    requires
        old(p)@.wf(),
    ensures
        final(p)@.wf(),
        parsed(old(p)@, final(p)@, r),
        r is Absent <==> old(p)@.cur() != SyntaxKind::AT,
        r matches ParsedSyntax::Present(m) ==> final(p)@.kind_of(m)
            == SyntaxKind::JS_DECORATOR_LIST && final(p)@.pos > old(p)@.pos,
        r is Present ==> reached(final(p)@, decorators_after(old(p)@)) && final(p)@.events
            == old(p)@.events + (seq![Event::Start { kind: SyntaxKind::JS_DECORATOR_LIST }]
            + decorators_events(old(p)@) + seq![Event::Finish]),
{
    if !p.at(SyntaxKind::AT) {
        return ParsedSyntax::Absent;
    }
    let ghost s0 = p@;
    let m = p.start();
    let ghost s1 = p@;
    let ghost l = s1.events.len() as int;
    proof {
        lemma_grows_refl(s1);
        assert(s1.events.skip(l) =~= Seq::<Event>::empty());
        assert(decorators_after(s1) == decorators_after(s0));
        assert(decorators_events(s1) == decorators_events(s0));
    }
    while p.at(SyntaxKind::AT)
        invariant
            p@.wf(),
            s0.wf(),
            s1.wf(),
            grows(s1, p@),
            s1.pos == s0.pos,
            p@.pos == s0.pos ==> p@.cur() == SyntaxKind::AT,
            l == s1.events.len(),
            decorators_after(s0) == decorators_after(p@),
            decorators_events(s0) == p@.events.skip(l) + decorators_events(p@),
        decreases p@.tokens.len() - p@.pos,
    {
        let ghost a = p@;
        let d = parse_decorator(p);
        proof {
            lemma_parsed_grows(a, p@, d);
            lemma_grows_trans(s1, a, p@);
            let x = decorator_after(a);
            assert(decorator_after(a.cursor()) == x);
            assert(decorator_events(a.cursor()) == decorator_events(a));
            assert(x.tokens == a.tokens && x.pos > a.pos);
            assert(decorators_after(p@) == decorators_after(x));
            assert(decorators_events(p@) == decorators_events(x));
            assert(p@.events.skip(l) =~= a.events.skip(l) + decorator_events(a));
        }
    }
    let ghost s2 = p@;
    proof {
        lemma_grows_keeps(s1, s2, m.pos as int);
        assert(decorators_events(s2) =~= Seq::<Event>::empty());
    }
    let cm = p.complete(m, SyntaxKind::JS_DECORATOR_LIST);
    proof {
        lemma_completed(s0, s1, s2, p@, SyntaxKind::JS_DECORATOR_LIST);
        let inner = decorators_events(s0);
        assert(s2.events =~= s1.events + inner);
        lemma_node_events(s0, s1, s2, p@, SyntaxKind::JS_DECORATOR_LIST, inner);
    }
    ParsedSyntax::Present(cm)
}

} // verus!
