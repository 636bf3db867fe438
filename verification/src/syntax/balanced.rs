use vstd::prelude::*;

use crate::events::{Event, LexedToken};
use crate::parser::{
    grows, reached, lemma_bumped_grows, lemma_completed, lemma_grows_keeps, lemma_grows_refl,
    lemma_grows_trans, parsed, DiagnosticKind, JsParser, ParseDiagnostic, ParsedSyntax, ParserState,
};
use crate::syntax_kind::SyntaxKind;

verus! {

/// Where a run of tokens that is consumed without being looked into ends.
#[derive(Debug, Clone, Copy, PartialEq, Eq, Structural)]
pub enum RunEnd {
    /// Before a `,` or a `;` (an expression that is an element of a list).
    Assignment,
    /// Before a `;` (an expression that may hold commas).
    Sequence,
    /// Before a `,` (a parameter).
    Parameter,
    /// Before a `,`, a `;`, a `=` or a `{` (a type annotation).
    Type,
    /// Before a `>` (type parameters, whose `<` and `>` nest).
    TypeArguments,
    /// Only before the closing bracket of the enclosing group.
    Group,
}

/// Whether the run ends before `k` when no bracket is open.
pub open spec fn ends_run(mode: RunEnd, k: SyntaxKind) -> bool {
    match mode {
        RunEnd::Assignment => k == SyntaxKind::COMMA || k == SyntaxKind::SEMICOLON,
        RunEnd::Sequence => k == SyntaxKind::SEMICOLON,
        RunEnd::Parameter => k == SyntaxKind::COMMA,
        RunEnd::Type => k == SyntaxKind::COMMA || k == SyntaxKind::SEMICOLON || k
            == SyntaxKind::EQ || k == SyntaxKind::L_CURLY,
        RunEnd::TypeArguments => k == SyntaxKind::R_ANGLE,
        RunEnd::Group => false,
    }
}

/// Whether `k` opens a bracket in the run.
pub open spec fn opens(mode: RunEnd, k: SyntaxKind) -> bool {
    k == SyntaxKind::L_PAREN || k == SyntaxKind::L_BRACK || k == SyntaxKind::L_CURLY || (mode
        == RunEnd::TypeArguments && k == SyntaxKind::L_ANGLE)
}

/// Whether `k` closes a bracket in the run.
pub open spec fn closes(mode: RunEnd, k: SyntaxKind) -> bool {
    k == SyntaxKind::R_PAREN || k == SyntaxKind::R_BRACK || k == SyntaxKind::R_CURLY || (mode
        == RunEnd::TypeArguments && k == SyntaxKind::R_ANGLE)
}

/// Whether the run ends before `k`: the end of the stream, a closing bracket or a
/// token that ends the run, with no bracket open.
pub open spec fn run_stops_at(mode: RunEnd, k: SyntaxKind) -> bool {
    k == SyntaxKind::EOF || closes(mode, k) || ends_run(mode, k)
}

/// Tokens after which a type goes on, so that a `{` after them opens an object
/// type rather than ending the type.
pub open spec fn type_continues(k: SyntaxKind) -> bool {
    k == SyntaxKind::COLON || k == SyntaxKind::PIPE || k == SyntaxKind::AMP || k
        == SyntaxKind::COMMA || k == SyntaxKind::L_ANGLE || k == SyntaxKind::FAT_ARROW
}

/// Whether a run with no bracket open stops before the token at the index `i`: a
/// closing bracket, or a token that ends the run, but for a `{` that opens an
/// object type.
pub open spec fn stops_before(toks: Seq<LexedToken>, i: int, mode: RunEnd) -> bool {
    let k = toks[i].kind;
    closes(mode, k) || (ends_run(mode, k) && !(mode == RunEnd::Type && k == SyntaxKind::L_CURLY
        && i > 0 && type_continues(toks[i - 1].kind)))
}

/// Where a run that starts at the index `i`, inside `depth` open brackets, stops:
/// the index of the first token before which it stops with no bracket open, or the
/// end of the stream.
pub open spec fn run_end_from(toks: Seq<LexedToken>, i: int, depth: int, mode: RunEnd) -> int
    decreases toks.len() - i,
{
    if i >= toks.len() {
        toks.len() as int
    } else if depth <= 0 && stops_before(toks, i, mode) {
        i
    } else if opens(mode, toks[i].kind) {
        run_end_from(toks, i + 1, depth + 1, mode)
    } else if closes(mode, toks[i].kind) {
        run_end_from(toks, i + 1, depth - 1, mode)
    } else {
        run_end_from(toks, i + 1, depth, mode)
    }
}

/// Where a run that starts at the index `i` with no bracket open stops.
pub open spec fn run_end(s: ParserState, i: int, mode: RunEnd) -> int {
    run_end_from(s.tokens, i, 0, mode)
}

/// The kind of the token at the index `i`, `EOF` past the end.
pub open spec fn kind_at(s: ParserState, i: int) -> SyntaxKind {
    if 0 <= i < s.tokens.len() {
        s.tokens[i].kind
    } else {
        SyntaxKind::EOF
    }
}

/// The end of the range of the token at the index `i`.
pub open spec fn end_at(s: ParserState, i: int) -> int {
    if i < s.tokens.len() {
        i + 1
    } else {
        i
    }
}

/// A diagnostic of the kind `kind` over the token at the index `i`.
pub open spec fn diagnostic_at(s: ParserState, kind: DiagnosticKind, i: int) -> ParseDiagnostic {
    ParseDiagnostic { kind, start: i as usize, end: end_at(s, i) as usize }
}

/// The events of the tokens from the index `from` up to `to`, each with its own kind.
pub open spec fn token_events(toks: Seq<LexedToken>, from: int, to: int) -> Seq<Event> {
    Seq::new((to - from) as nat, |j: int| Event::Token { kind: toks[from + j].kind })
}

fn ends_run_exec(mode: RunEnd, k: SyntaxKind) -> (r: bool)
    ensures
        r == ends_run(mode, k),
{
    match mode {
        RunEnd::Assignment => k == SyntaxKind::COMMA || k == SyntaxKind::SEMICOLON,
        RunEnd::Sequence => k == SyntaxKind::SEMICOLON,
        RunEnd::Parameter => k == SyntaxKind::COMMA,
        RunEnd::Type => k == SyntaxKind::COMMA || k == SyntaxKind::SEMICOLON || k
            == SyntaxKind::EQ || k == SyntaxKind::L_CURLY,
        RunEnd::TypeArguments => k == SyntaxKind::R_ANGLE,
        RunEnd::Group => false,
    }
}

fn opens_exec(mode: RunEnd, k: SyntaxKind) -> (r: bool)
    ensures
        r == opens(mode, k),
{
    k == SyntaxKind::L_PAREN || k == SyntaxKind::L_BRACK || k == SyntaxKind::L_CURLY || (mode
        == RunEnd::TypeArguments && k == SyntaxKind::L_ANGLE)
}

fn closes_exec(mode: RunEnd, k: SyntaxKind) -> (r: bool)
    ensures
        r == closes(mode, k),
{
    k == SyntaxKind::R_PAREN || k == SyntaxKind::R_BRACK || k == SyntaxKind::R_CURLY || (mode
        == RunEnd::TypeArguments && k == SyntaxKind::R_ANGLE)
}

fn stops_before_exec(p: &JsParser, i: usize, mode: RunEnd) -> (r: bool)
    requires
        i < p@.tokens.len(),
    ensures
        r == stops_before(p@.tokens, i as int, mode),
{
    let k = p.kind_at_index(i);
    if closes_exec(mode, k) {
        return true;
    }
    if !ends_run_exec(mode, k) {
        return false;
    }
    if mode == RunEnd::Type && k == SyntaxKind::L_CURLY && i > 0 {
        let prev = p.kind_at_index(i - 1);
        !(prev == SyntaxKind::COLON || prev == SyntaxKind::PIPE || prev == SyntaxKind::AMP || prev
            == SyntaxKind::COMMA || prev == SyntaxKind::L_ANGLE || prev == SyntaxKind::FAT_ARROW)
    } else {
        true
    }
}

/// Where a run that starts at the index `from` with no bracket open stops.
pub fn find_run_end(p: &JsParser, from: usize, mode: RunEnd) -> (r: usize)
    requires
        p@.wf(),
        from <= p@.tokens.len(),
    ensures
        r == run_end_from(p@.tokens, from as int, 0, mode),
        from <= r <= p@.tokens.len(),
{
    let n = p.tokens_len();
    let mut i = from;
    let mut depth: usize = 0;
    while i < n
        invariant
            n == p@.tokens.len(),
            from <= i <= n,
            depth <= i - from,
            run_end_from(p@.tokens, i as int, depth as int, mode) == run_end_from(
                p@.tokens,
                from as int,
                0,
                mode,
            ),
        decreases n - i,
    {
        let k = p.kind_at_index(i);
        if depth == 0 && stops_before_exec(p, i, mode) {
            return i;
        }
        if opens_exec(mode, k) {
            depth = depth + 1;
        } else if closes_exec(mode, k) {
            depth = depth - 1;
        }
        i = i + 1;
    }
    i
}

/// Whether the run ends before the current token.
pub fn at_run_end(p: &JsParser, mode: RunEnd) -> (r: bool)
    requires
        p@.wf(),
    ensures
        r == run_stops_at(mode, p@.cur()),
{
    let k = p.cur();
    k == SyntaxKind::EOF || closes_exec(mode, k) || ends_run_exec(mode, k)
}

/// Emits the tokens of a run, brackets included, up to the first token before which
/// the run stops with no bracket open, or up to the end of the stream.
#[verifier::spinoff_prover]
#[verifier::rlimit(60)]
pub fn bump_run(p: &mut JsParser, mode: RunEnd)
    requires
        old(p)@.wf(),
    ensures
        final(p)@.wf(),
        grows(old(p)@, final(p)@),
        final(p)@.diagnostics == old(p)@.diagnostics,
        run_stops_at(mode, final(p)@.cur()),
        !run_stops_at(mode, old(p)@.cur()) ==> final(p)@.pos > old(p)@.pos,
        final(p)@.pos == run_end(old(p)@, old(p)@.pos, mode),
        final(p)@.events == old(p)@.events + token_events(
            old(p)@.tokens,
            old(p)@.pos,
            final(p)@.pos,
        ),
{
    let ghost s0 = p@;
    let mut depth: usize = 0;
    proof {
        lemma_grows_refl(s0);
    }
    loop
        invariant
            s0.wf(),
            p@.wf(),
            grows(s0, p@),
            p@.diagnostics == s0.diagnostics,
            depth <= p@.pos - s0.pos,
            !run_stops_at(mode, s0.cur()) && p@.pos == s0.pos ==> p@.cur() == s0.cur(),
            run_end_from(p@.tokens, p@.pos, depth as int, mode) == run_end(s0, s0.pos, mode),
            p@.events == s0.events + token_events(s0.tokens, s0.pos, p@.pos),
        ensures
            p@.wf(),
            grows(s0, p@),
            p@.diagnostics == s0.diagnostics,
            run_stops_at(mode, p@.cur()),
            !run_stops_at(mode, s0.cur()) ==> p@.pos > s0.pos,
            p@.pos == run_end(s0, s0.pos, mode),
            p@.events == s0.events + token_events(s0.tokens, s0.pos, p@.pos),
        decreases p@.tokens.len() - p@.pos,
    {
        let k = p.cur();
        if k == SyntaxKind::EOF {
            break;
        }
        assert(p@.pos < p@.tokens.len());
        if depth == 0 && stops_before_exec(p, p.position(), mode) {
            break;
        }
        if opens_exec(mode, k) {
            depth = depth + 1;
        } else if closes_exec(mode, k) {
            depth = depth - 1;
        }
        let ghost before = p@;
        p.bump_any();
        proof {
            lemma_bumped_grows(before, k);
            lemma_grows_trans(s0, before, p@);
            assert(p@.events =~= s0.events + token_events(s0.tokens, s0.pos, p@.pos));
        }
    }
}

/// After an opening token at the current position, a run as `mode` says and the
/// expected `close`: the parser stands after the `close`, with no diagnostic added,
/// or, when the run stops before another token, there, with that token reported.
pub open spec fn bracketed_after(s: ParserState, mode: RunEnd, close: SyntaxKind) -> ParserState {
    let s = s.cursor();
    s.moved(run_end(s, s.pos + 1, mode), s.diagnostics).expected(close)
}

/// The events of a node of the kind `kind` that holds `open` at the current
/// position, the run after it as `mode` says, and `close` when it follows the run.
pub open spec fn bracketed_events(
    s: ParserState,
    open: SyntaxKind,
    mode: RunEnd,
    close: SyntaxKind,
    kind: SyntaxKind,
) -> Seq<Event> {
    let s = s.cursor();
    let e = run_end(s, s.pos + 1, mode);
    seq![Event::Start { kind }, Event::Token { kind: open }] + token_events(s.tokens, s.pos + 1, e)
        + (if kind_at(s, e) == close {
        seq![Event::Token { kind: close }]
    } else {
        Seq::<Event>::empty()
    }) + seq![Event::Finish]
}

/// The events of a node of the kind `kind` that holds the run from the index `from`
/// on, as `mode` says, after the tokens from the current one up to `from`.
pub open spec fn run_events(s: ParserState, from: int, mode: RunEnd, kind: SyntaxKind) -> Seq<Event> {
    let s = s.cursor();
    seq![Event::Start { kind }] + token_events(s.tokens, s.pos, run_end(s, from, mode)) + seq![
        Event::Finish,
    ]
}

/// A node of the kind `kind` that holds `open`, a run that ends as `mode` says, and
/// the expected `close`; `Absent` when the current token is not `open`.
#[verifier::spinoff_prover]
#[verifier::rlimit(60)]
pub fn parse_bracketed(
    p: &mut JsParser,
    open: SyntaxKind,
    mode: RunEnd,
    close: SyntaxKind,
    kind: SyntaxKind,
) -> (r: ParsedSyntax)
    requires
        old(p)@.wf(),
        open != SyntaxKind::EOF,
        close != SyntaxKind::EOF,
    ensures
        final(p)@.wf(),
        parsed(old(p)@, final(p)@, r),
        r is Absent <==> old(p)@.cur() != open,
        r matches ParsedSyntax::Present(m) ==> {
            &&& final(p)@.kind_of(m) == kind
            &&& final(p)@.pos > old(p)@.pos
            &&& final(p)@.events[old(p)@.events.len() as int + 1] == (Event::Token { kind: open })
            &&& reached(final(p)@, bracketed_after(old(p)@, mode, close))
            &&& final(p)@.events == old(p)@.events + bracketed_events(old(p)@, open, mode, close, kind)
        },
{
    if !p.at(open) {
        return ParsedSyntax::Absent;
    }
    let ghost s0 = p@;
    let m = p.start();
    let ghost s1 = p@;
    p.bump(open);
    let ghost s2 = p@;
    bump_run(p, mode);
    let ghost s3 = p@;
    p.expect(close);
    let ghost s4 = p@;
    proof {
        lemma_bumped_grows(s1, open);
        lemma_grows_trans(s1, s2, s3);
        lemma_grows_trans(s1, s3, s4);
        lemma_grows_trans(s2, s3, s4);
        lemma_grows_keeps(s1, s4, m.pos as int);
        lemma_grows_keeps(s2, s4, s1.events.len() as int);
    }
    let cm = p.complete(m, kind);
    proof {
        lemma_completed(s0, s1, s4, p@, kind);
        let e = s3.pos;
        let tail = if kind_at(s0, e) == close {
            seq![Event::Token { kind: close }]
        } else {
            Seq::<Event>::empty()
        };
        assert(s4.events =~= s0.events + seq![
            Event::Start { kind: SyntaxKind::TOMBSTONE },
            Event::Token { kind: open },
        ] + token_events(s0.tokens, s0.pos + 1, e) + tail);
        assert(p@.events =~= s0.events + bracketed_events(s0, open, mode, close, kind));
    }
    ParsedSyntax::Present(cm)
}

/// A node of the kind `kind` that holds `lead` and the run after it; `Absent` when
/// the current token is not `lead`.
#[verifier::spinoff_prover]
#[verifier::rlimit(60)]
pub fn parse_led_run(p: &mut JsParser, lead: SyntaxKind, mode: RunEnd, kind: SyntaxKind) -> (r:
    ParsedSyntax)
    requires
        old(p)@.wf(),
        lead != SyntaxKind::EOF,
    ensures
        final(p)@.wf(),
        parsed(old(p)@, final(p)@, r),
        r is Absent <==> old(p)@.cur() != lead,
        r matches ParsedSyntax::Present(m) ==> {
            &&& final(p)@.kind_of(m) == kind
            &&& final(p)@.pos > old(p)@.pos
            &&& final(p)@.events[old(p)@.events.len() as int + 1] == (Event::Token { kind: lead })
            &&& run_stops_at(mode, final(p)@.cur())
            &&& final(p)@.pos == run_end(old(p)@, old(p)@.pos + 1, mode)
            &&& final(p)@.diagnostics == old(p)@.diagnostics
            &&& final(p)@.events == old(p)@.events + seq![Event::Start { kind }, Event::Token { kind: lead }]
                + token_events(old(p)@.tokens, old(p)@.pos + 1, final(p)@.pos) + seq![Event::Finish]
        },
{
    if !p.at(lead) {
        return ParsedSyntax::Absent;
    }
    let ghost s0 = p@;
    let m = p.start();
    let ghost s1 = p@;
    p.bump(lead);
    let ghost s2 = p@;
    bump_run(p, mode);
    let ghost s3 = p@;
    proof {
        lemma_bumped_grows(s1, lead);
        lemma_grows_trans(s1, s2, s3);
        lemma_grows_keeps(s1, s3, m.pos as int);
        lemma_grows_keeps(s2, s3, s1.events.len() as int);
    }
    let cm = p.complete(m, kind);
    proof {
        lemma_completed(s0, s1, s3, p@, kind);
        assert(p@.events =~= s0.events + seq![Event::Start { kind }, Event::Token { kind: lead }]
            + token_events(s0.tokens, s0.pos + 1, s3.pos) + seq![Event::Finish]);
    }
    ParsedSyntax::Present(cm)
}

/// A node of the kind `kind` that holds a run; `Absent` when the run would be empty.
#[verifier::spinoff_prover]
#[verifier::rlimit(60)]
pub fn parse_run(p: &mut JsParser, mode: RunEnd, kind: SyntaxKind) -> (r: ParsedSyntax)
    requires
        old(p)@.wf(),
    ensures
        final(p)@.wf(),
        parsed(old(p)@, final(p)@, r),
        r is Absent <==> run_stops_at(mode, old(p)@.cur()),
        r matches ParsedSyntax::Present(m) ==> {
            &&& final(p)@.kind_of(m) == kind
            &&& final(p)@.pos > old(p)@.pos
            &&& run_stops_at(mode, final(p)@.cur())
            &&& final(p)@.pos == run_end(old(p)@, old(p)@.pos, mode)
            &&& final(p)@.diagnostics == old(p)@.diagnostics
            &&& final(p)@.events == old(p)@.events + run_events(old(p)@, old(p)@.pos, mode, kind)
        },
{
    if at_run_end(p, mode) {
        return ParsedSyntax::Absent;
    }
    let ghost s0 = p@;
    let m = p.start();
    let ghost s1 = p@;
    bump_run(p, mode);
    let ghost s2 = p@;
    proof {
        lemma_grows_keeps(s1, s2, m.pos as int);
    }
    let cm = p.complete(m, kind);
    proof {
        lemma_completed(s0, s1, s2, p@, kind);
        assert(p@.events =~= s0.events + run_events(s0, s0.pos, mode, kind));
    }
    ParsedSyntax::Present(cm)
}

} // verus!
