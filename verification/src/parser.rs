use vstd::prelude::*;

use crate::events::{
    emitted, forest, lemma_forest_concat, lemma_forest_empty, lemma_forest_token, lemma_forest_update_start, lemma_forest_wrap,
    lemma_update_start, lossless, remaps_to, start_kind, Event, LexedToken,
};
use crate::syntax_kind::{bogus_of, token_kind, SyntaxKind};

verus! {

/// Syntax that only TypeScript files may hold.
#[derive(Debug, Clone, Copy, PartialEq, Eq, Structural)]
pub enum TsOnlySyntax {
    TypeAnnotation,
    TypeParameters,
    ReturnTypeAnnotation,
}

/// What a diagnostic of the parser reports.
#[derive(Debug, Clone, Copy, PartialEq, Eq, Structural)]
pub enum DiagnosticKind {
    /// A token of the given kind was expected.
    ExpectedToken { kind: SyntaxKind },
    ExpectedObjectMember,
    ExpectedObjectMemberName,
    ExpectedExpression,
    ExpectedExpressionAssignment,
    ExpectedFunctionBody,
    ExpectedParameter,
    ExpectedParameters,
    /// An `=` after a shorthand property outside of a destructuring pattern.
    ShorthandPropertyInitializer,
    DecoratorsNotAllowed,
    TsOnly { syntax: TsOnlySyntax },
    TsAccessorTypeParameters,
    TsSetAccessorReturnType,
    /// Type parameters `<>` with none between the brackets.
    ExpectedTypeParameter,
    /// A `yield` in the parameters or the body of a function that is not a generator.
    YieldOutsideGenerator,
    /// An `await` in the parameters or the body of a function that is not async.
    AwaitOutsideAsync,
}

/// A diagnostic over the token range `start..end` (token indices).
#[derive(Debug, Clone, Copy, PartialEq, Eq, Structural)]
pub struct ParseDiagnostic {
    pub kind: DiagnosticKind,
    pub start: usize,
    pub end: usize,
}

/// The start of a node that is still open: `pos` is the index of its `Start` event.
#[derive(Debug, Clone, Copy, PartialEq, Eq, Structural)]
pub struct Marker {
    pub pos: usize,
}

/// A completed node: the indices of its `Start` and `Finish` events.
#[derive(Debug, Clone, Copy, PartialEq, Eq, Structural)]
pub struct CompletedMarker {
    pub start_pos: usize,
    pub finish_pos: usize,
}

/// The result of a parse rule: the node it completed, or `Absent` when the
/// syntax is not there.
#[derive(Debug, Clone, Copy, PartialEq, Eq, Structural)]
pub enum ParsedSyntax {
    Absent,
    Present(CompletedMarker),
}

impl ParsedSyntax {
    pub fn is_absent(&self) -> (r: bool)
        ensures
            r == (*self is Absent),
    {
        match self {
            ParsedSyntax::Absent => true,
            ParsedSyntax::Present(_) => false,
        }
    }

    pub fn is_present(&self) -> (r: bool)
        ensures
            r == (*self is Present),
    {
        !self.is_absent()
    }
}

/// A point to which the parser can be rewound.
#[derive(Debug, Clone, Copy, PartialEq, Eq, Structural)]
pub struct Checkpoint {
    pub pos: usize,
    pub event_pos: usize,
    pub errors_pos: usize,
}

/// The mathematical state of a parser.
#[verifier::ext_equal]
pub struct ParserState {
    pub tokens: Seq<LexedToken>,
    pub pos: int,
    pub events: Seq<Event>,
    pub diagnostics: Seq<ParseDiagnostic>,
    pub typescript: bool,
}

impl ParserState {
    /// The position is inside the stream, the stream holds only token kinds, and the
    /// events emitted so far stand one for one for the tokens consumed so far.
    pub open spec fn wf(self) -> bool {
        &&& 0 <= self.pos <= self.tokens.len() <= usize::MAX
        &&& forall|i: int| 0 <= i < self.tokens.len() ==> token_kind(#[trigger] self.tokens[i].kind)
        &&& lossless(emitted(self.events), self.tokens.take(self.pos))
    }

    /// The kind of the `n`-th token from the current one, `EOF` past the end.
    pub open spec fn nth(self, n: int) -> SyntaxKind {
        if 0 <= self.pos + n < self.tokens.len() {
            self.tokens[self.pos + n].kind
        } else {
            SyntaxKind::EOF
        }
    }

    pub open spec fn cur(self) -> SyntaxKind {
        self.nth(0)
    }

    /// Whether a line break precedes the `n`-th token from the current one.
    pub open spec fn nth_line_break(self, n: int) -> bool {
        0 <= self.pos + n < self.tokens.len() && self.tokens[self.pos + n].has_preceding_line_break
    }

    /// The end of the range of the current token.
    pub open spec fn cur_end(self) -> int {
        if self.pos < self.tokens.len() {
            self.pos + 1
        } else {
            self.pos
        }
    }

    /// The diagnostics after reporting `d`: a diagnostic that starts where the last
    /// one starts is dropped.
    pub open spec fn diagnosed(self, d: ParseDiagnostic) -> Seq<ParseDiagnostic> {
        push_diagnostic(self.diagnostics, d)
    }

    pub open spec fn with_diagnostics(self, ds: Seq<ParseDiagnostic>) -> ParserState {
        ParserState { diagnostics: ds, ..self }
    }

    pub open spec fn with_events(self, es: Seq<Event>) -> ParserState {
        ParserState { events: es, ..self }
    }

    /// The state after the current token was emitted with the kind `k`.
    pub open spec fn bumped(self, k: SyntaxKind) -> ParserState {
        ParserState { pos: self.pos + 1, events: self.events.push(Event::Token { kind: k }), ..self }
    }

    /// The state with the position one token further and nothing else changed.
    pub open spec fn bumped_silently(self) -> ParserState {
        ParserState { pos: self.pos + 1, ..self }
    }

    /// The checkpoint of this state: the position, the index of the last event and
    /// the number of diagnostics.
    pub open spec fn checkpoint_of(self) -> Checkpoint {
        Checkpoint {
            pos: self.pos as usize,
            event_pos: (if self.events.len() == 0 {
                0
            } else {
                self.events.len() - 1
            }) as usize,
            errors_pos: self.diagnostics.len() as usize,
        }
    }

    /// The state after rewinding to `cp`: its position, the events up to and with
    /// its last one, and the diagnostics reported before it.
    pub open spec fn rewound(self, cp: Checkpoint) -> ParserState {
        ParserState {
            pos: cp.pos as int,
            events: self.events.take(cp.event_pos + 1),
            diagnostics: if cp.errors_pos <= self.diagnostics.len() {
                self.diagnostics.take(cp.errors_pos as int)
            } else {
                self.diagnostics
            },
            ..self
        }
    }

    /// The state with its events left out: what the rules below read of it.
    pub open spec fn cursor(self) -> ParserState {
        ParserState { events: Seq::empty(), ..self }
    }

    /// The state with the parser at `pos`, the diagnostics `ds` and its events left
    /// out.
    pub open spec fn moved(self, pos: int, ds: Seq<ParseDiagnostic>) -> ParserState {
        ParserState { pos, diagnostics: ds, events: Seq::empty(), ..self }
    }

    /// The state one token further, with no diagnostic added.
    pub open spec fn skipped(self) -> ParserState {
        self.moved(self.pos + 1, self.diagnostics)
    }

    /// The state after a diagnostic of the kind `kind` over the current token.
    pub open spec fn reported(self, kind: DiagnosticKind) -> ParserState {
        self.moved(
            self.pos,
            self.diagnosed(
                ParseDiagnostic { kind, start: self.pos as usize, end: self.cur_end() as usize },
            ),
        )
    }

    /// The state after expecting a token of the kind `k`: past it when it is the
    /// current one, and with it reported as expected otherwise.
    pub open spec fn expected(self, k: SyntaxKind) -> ParserState {
        if self.cur() == k {
            self.skipped()
        } else {
            self.reported(DiagnosticKind::ExpectedToken { kind: k })
        }
    }

    /// The kind of a completed node.
    pub open spec fn kind_of(self, m: CompletedMarker) -> SyntaxKind {
        start_kind(self.events[m.start_pos as int])
    }
}

pub open spec fn prefix_of<T>(a: Seq<T>, b: Seq<T>) -> bool {
    a.len() <= b.len() && b.take(a.len() as int) == a
}

/// The diagnostics `ds` after reporting `d`: a diagnostic that starts where the last
/// one starts is dropped.
pub open spec fn push_diagnostic(ds: Seq<ParseDiagnostic>, d: ParseDiagnostic) -> Seq<
    ParseDiagnostic,
> {
    if ds.len() > 0 && ds.last().start == d.start {
        ds
    } else {
        ds.push(d)
    }
}

/// The parser stands where `c` stands, over the same tokens, with the diagnostics
/// of `c`.
pub open spec fn reached(new: ParserState, c: ParserState) -> bool {
    new.cursor() == c.cursor()
}

/// `new` came from `old` by consuming tokens and appending complete nodes, tokens
/// and diagnostics.
pub open spec fn grows(old: ParserState, new: ParserState) -> bool {
    &&& new.tokens == old.tokens
    &&& new.typescript == old.typescript
    &&& old.pos <= new.pos
    &&& prefix_of(old.events, new.events)
    &&& prefix_of(old.diagnostics, new.diagnostics)
    &&& forest(new.events.skip(old.events.len() as int))
}

/// `new` came from `old` by appending exactly one complete node of the kind `kind`.
pub open spec fn grew_node(old: ParserState, new: ParserState, kind: SyntaxKind) -> bool {
    &&& grows(old, new)
    &&& new.events.len() >= old.events.len() + 2
    &&& new.events[old.events.len() as int] == (Event::Start { kind })
    &&& new.events.last() == Event::Finish
    &&& forest(new.events.subrange(old.events.len() as int + 1, new.events.len() as int - 1))
}

/// What a parse rule did: nothing at all when `Absent`, one complete node when `Present`.
pub open spec fn parsed(old: ParserState, new: ParserState, r: ParsedSyntax) -> bool {
    match r {
        ParsedSyntax::Absent => new == old,
        ParsedSyntax::Present(m) => {
            &&& m.start_pos == old.events.len()
            &&& m.finish_pos + 1 == new.events.len()
            &&& grew_node(old, new, new.kind_of(m))
        },
    }
}

/// The kind of the node that a rule completed; `TOMBSTONE` when it found nothing.
pub open spec fn result_kind(s: ParserState, r: ParsedSyntax) -> SyntaxKind {
    match r {
        ParsedSyntax::Present(m) => s.kind_of(m),
        ParsedSyntax::Absent => SyntaxKind::TOMBSTONE,
    }
}

pub proof fn lemma_grows_refl(s: ParserState)
    ensures
        grows(s, s),
{
    assert(s.events.skip(s.events.len() as int) =~= Seq::<Event>::empty());
    lemma_forest_empty();
    assert(s.events.take(s.events.len() as int) =~= s.events);
    assert(s.diagnostics.take(s.diagnostics.len() as int) =~= s.diagnostics);
}

pub proof fn lemma_grows_trans(a: ParserState, b: ParserState, c: ParserState)
    requires
        grows(a, b),
        grows(b, c),
    ensures
        grows(a, c),
{
    let la = a.events.len() as int;
    let lb = b.events.len() as int;
    assert(c.events.take(la) =~= c.events.take(lb).take(la));
    assert(c.diagnostics.take(a.diagnostics.len() as int) =~= c.diagnostics.take(
        b.diagnostics.len() as int,
    ).take(a.diagnostics.len() as int));
    assert(c.events.skip(la) =~= b.events.skip(la) + c.events.skip(lb)) by {
        assert(c.events.take(lb) =~= b.events);
    }
    lemma_forest_concat(b.events.skip(la), c.events.skip(lb));
}

pub proof fn lemma_parsed_grows(old: ParserState, new: ParserState, r: ParsedSyntax)
    requires
        parsed(old, new, r),
    ensures
        grows(old, new),
{
    if r is Absent {
        lemma_grows_refl(old);
    }
}

pub proof fn lemma_bumped_grows(s: ParserState, k: SyntaxKind)
    ensures
        grows(s, s.bumped(k)),
{
    let t = s.bumped(k);
    assert(t.events.skip(s.events.len() as int) =~= seq![Event::Token { kind: k }]);
    lemma_forest_token(k);
    assert(t.events.take(s.events.len() as int) =~= s.events);
    assert(s.diagnostics.take(s.diagnostics.len() as int) =~= s.diagnostics);
}

pub proof fn lemma_diagnosed_grows(s: ParserState, d: ParseDiagnostic)
    ensures
        grows(s, s.with_diagnostics(s.diagnosed(d))),
{
    lemma_grows_refl(s);
    assert(s.diagnosed(d).take(s.diagnostics.len() as int) =~= s.diagnostics);
}

/// Completing a marker that was started at `s0` around a growth `s1 -> s2` appends
/// one node.
pub proof fn lemma_completed(
    s0: ParserState,
    s1: ParserState,
    s2: ParserState,
    s3: ParserState,
    kind: SyntaxKind,
)
    requires
        s1 == s0.with_events(s0.events.push(Event::Start { kind: SyntaxKind::TOMBSTONE })),
        grows(s1, s2),
        s3 == s2.with_events(
            s2.events.update(s0.events.len() as int, Event::Start { kind }).push(Event::Finish),
        ),
    ensures
        grew_node(s0, s3, kind),
        grows(s0, s3),
{
    let l0 = s0.events.len() as int;
    let inner = s2.events.skip(l0 + 1);
    assert(s2.events.take(l0 + 1) =~= s1.events);
    assert(s3.events.subrange(l0 + 1, s3.events.len() - 1) =~= inner);
    assert(s3.events.skip(l0) =~= seq![Event::Start { kind }] + inner + seq![Event::Finish]);
    lemma_forest_wrap(kind, inner);
    assert(s1.events.take(l0) =~= s0.events);
    assert(s3.events.take(l0) =~= s2.events.take(l0 + 1).take(l0));
    assert(s3.diagnostics.take(s0.diagnostics.len() as int) =~= s2.diagnostics.take(
        s1.diagnostics.len() as int,
    ));
}

/// A node completed around the events `inner` that a rule appended after its start.
pub proof fn lemma_node_events(
    s0: ParserState,
    s1: ParserState,
    s2: ParserState,
    s3: ParserState,
    kind: SyntaxKind,
    inner: Seq<Event>,
)
    requires
        s1.events == s0.events.push(Event::Start { kind: SyntaxKind::TOMBSTONE }),
        s2.events == s1.events + inner,
        s3.events == s2.events.update(s0.events.len() as int, Event::Start { kind }).push(
            Event::Finish,
        ),
    ensures
        s3.events == s0.events + (seq![Event::Start { kind }] + inner + seq![Event::Finish]),
{
    assert(s3.events =~= s0.events + (seq![Event::Start { kind }] + inner + seq![Event::Finish]));
}

/// The events before the end of `a` stay as they were while the parser grows.
pub proof fn lemma_grows_keeps(a: ParserState, b: ParserState, i: int)
    requires
        grows(a, b),
        0 <= i < a.events.len(),
    ensures
        i < b.events.len(),
        b.events[i] == a.events[i],
{
    assert(b.events.take(a.events.len() as int)[i] == b.events[i]);
}

/// Reporting a diagnostic after a rule appended a node keeps it the one node appended.
pub proof fn lemma_diagnosed_node(old: ParserState, mid: ParserState, new: ParserState, r: ParsedSyntax)
    requires
        parsed(old, mid, r),
        r is Present,
        grows(mid, new),
        new.events == mid.events,
        new.pos == mid.pos,
    ensures
        parsed(old, new, r),
{
    lemma_grows_trans(old, mid, new);
}

/// Giving a node that a rule appended another kind keeps it the one node appended.
pub proof fn lemma_renamed_node(
    old: ParserState,
    mid: ParserState,
    new: ParserState,
    m: CompletedMarker,
    k: SyntaxKind,
)
    requires
        parsed(old, mid, ParsedSyntax::Present(m)),
        new.events == mid.events.update(m.start_pos as int, Event::Start { kind: k }),
        new.tokens == mid.tokens,
        new.pos == mid.pos,
        new.typescript == mid.typescript,
        prefix_of(old.diagnostics, new.diagnostics),
    ensures
        parsed(old, new, ParsedSyntax::Present(m)),
        new.kind_of(m) == k,
{
    let l = old.events.len() as int;
    let n = mid.events.len() as int;
    assert(new.events.take(l) =~= mid.events.take(l));
    assert(new.events.skip(l) =~= mid.events.skip(l).update(0, Event::Start { kind: k }));
    lemma_forest_update_start(mid.events.skip(l), 0, k);
    assert(new.events.subrange(l + 1, n - 1) =~= mid.events.subrange(l + 1, n - 1));
}

/// Rewinding to the checkpoint of a state with at least one event, after any growth,
/// gives back that state.
pub proof fn law_rewind_restores(s: ParserState, t: ParserState)
    requires
        s.wf(),
        0 < s.events.len() <= usize::MAX,
        s.diagnostics.len() <= usize::MAX,
        grows(s, t),
    ensures
        t.rewound(s.checkpoint_of()) == s,
{
    let cp = s.checkpoint_of();
    assert(t.events.take(cp.event_pos + 1) =~= s.events);
    assert(t.diagnostics.take(cp.errors_pos as int) =~= s.diagnostics);
    assert(t.rewound(cp) =~= s);
}

/// A node that a rule completes on a parser with no events yet is the whole event
/// stream: one well-nested tree whose tokens stand one for one for the consumed
/// tokens.
pub proof fn law_fresh_node_is_tree(old: ParserState, new: ParserState, m: CompletedMarker)
    requires
        old.wf(),
        new.wf(),
        old.events.len() == 0,
        parsed(old, new, ParsedSyntax::Present(m)),
    ensures
        forest(new.events),
        new.events[0] == (Event::Start { kind: new.kind_of(m) }),
        new.events.last() == Event::Finish,
        forest(new.events.subrange(1, new.events.len() - 1)),
        lossless(emitted(new.events), new.tokens.take(new.pos)),
{
    assert(new.events.skip(0) =~= new.events);
}

/// A parser over a stream of lexed tokens that records what it recognises as events.
pub struct JsParser {
    tokens: Vec<LexedToken>,
    pos: usize,
    events: Vec<Event>,
    diagnostics: Vec<ParseDiagnostic>,
    typescript: bool,
}

impl View for JsParser {
    type V = ParserState;

    closed spec fn view(&self) -> ParserState {
        ParserState {
            tokens: self.tokens@,
            pos: self.pos as int,
            events: self.events@,
            diagnostics: self.diagnostics@,
            typescript: self.typescript,
        }
    }
}

impl JsParser {
    /// A parser at the start of `tokens`; `None` when a kind in `tokens` is not a
    /// token kind.
    pub fn new(tokens: Vec<LexedToken>, typescript: bool) -> (r: Option<JsParser>)
        ensures
            r is Some <==> (forall|i: int|
                0 <= i < tokens@.len() ==> token_kind(#[trigger] tokens@[i].kind)),
            r matches Some(p) ==> {
                &&& p@.wf()
                &&& p@.tokens == tokens@
                &&& p@.pos == 0
                &&& p@.events.len() == 0
                &&& p@.diagnostics.len() == 0
                &&& p@.typescript == typescript
            },
    {
        let n = tokens.len();
        let mut i: usize = 0;
        while i < n
            invariant
                n == tokens@.len(),
                0 <= i <= n,
                forall|j: int| 0 <= j < i ==> token_kind(#[trigger] tokens@[j].kind),
            decreases n - i,
        {
            if !tokens[i].kind.is_token() {
                return None;
            }
            i = i + 1;
        }
        let p = JsParser {
            tokens,
            pos: 0,
            events: Vec::new(),
            diagnostics: Vec::new(),
            typescript,
        };
        assert(emitted(p.events@) =~= Seq::<SyntaxKind>::empty());
        assert(p.tokens@.take(0) =~= Seq::<LexedToken>::empty());
        Some(p)
    }

    /// The events recorded so far.
    pub fn events(&self) -> (r: &Vec<Event>)
        ensures
            r@ == self@.events,
    {
        &self.events
    }

    /// The diagnostics reported so far.
    pub fn diagnostics(&self) -> (r: &Vec<ParseDiagnostic>)
        ensures
            r@ == self@.diagnostics,
    {
        &self.diagnostics
    }

    /// The index of the current token.
    pub fn position(&self) -> (r: usize)
        ensures
            r == self@.pos,
    {
        self.pos
    }

    /// Whether the file is TypeScript.
    pub fn is_typescript(&self) -> (r: bool)
        ensures
            r == self@.typescript,
    {
        self.typescript
    }

    /// The number of tokens in the stream.
    pub fn tokens_len(&self) -> (r: usize)
        ensures
            r == self@.tokens.len(),
    {
        self.tokens.len()
    }

    /// The kind of the token at the index `i`, `EOF` past the end.
    pub fn kind_at_index(&self, i: usize) -> (r: SyntaxKind)
        ensures
            r == (if i < self@.tokens.len() {
                self@.tokens[i as int].kind
            } else {
                SyntaxKind::EOF
            }),
    {
        if i < self.tokens.len() {
            self.tokens[i].kind
        } else {
            SyntaxKind::EOF
        }
    }

    /// The kind of the `n`-th token from the current one.
    pub fn nth(&self, n: usize) -> (r: SyntaxKind)
        requires
            self@.wf(),
        ensures
            r == self@.nth(n as int),
    {
        if n < self.tokens.len() - self.pos {
            self.tokens[self.pos + n].kind
        } else {
            SyntaxKind::EOF
        }
    }

    pub fn cur(&self) -> (r: SyntaxKind)
        requires
            self@.wf(),
        ensures
            r == self@.cur(),
    {
        self.nth(0)
    }

    pub fn at(&self, kind: SyntaxKind) -> (r: bool)
        requires
            self@.wf(),
        ensures
            r == (self@.cur() == kind),
    {
        self.cur() == kind
    }

    pub fn nth_at(&self, n: usize, kind: SyntaxKind) -> (r: bool)
        requires
            self@.wf(),
        ensures
            r == (self@.nth(n as int) == kind),
    {
        self.nth(n) == kind
    }

    pub fn has_nth_preceding_line_break(&self, n: usize) -> (r: bool)
        requires
            self@.wf(),
        ensures
            r == self@.nth_line_break(n as int),
    {
        if n < self.tokens.len() - self.pos {
            self.tokens[self.pos + n].has_preceding_line_break
        } else {
            false
        }
    }

    pub fn has_preceding_line_break(&self) -> (r: bool)
        requires
            self@.wf(),
        ensures
            r == self@.nth_line_break(0),
    {
        self.has_nth_preceding_line_break(0)
    }

    /// The start of the range of the current token.
    pub fn cur_start(&self) -> (r: usize)
        ensures
            r == self@.pos,
    {
        self.pos
    }

    /// The end of the range of the current token.
    pub fn cur_end(&self) -> (r: usize)
        requires
            self@.wf(),
        ensures
            r == self@.cur_end(),
    {
        if self.pos < self.tokens.len() {
            self.pos + 1
        } else {
            self.pos
        }
    }

    /// Emits the current token with the kind `kind` and moves to the next one.
    fn do_bump(&mut self, kind: SyntaxKind)
        requires
            old(self)@.wf(),
            old(self)@.pos < old(self)@.tokens.len(),
            remaps_to(old(self)@.tokens[old(self)@.pos].kind, kind),
        ensures
            final(self)@ == old(self)@.bumped(kind),
            final(self)@.wf(),
    {
        let ghost s = self@;
        let _n = self.tokens.len();
        self.events.push(Event::Token { kind });
        self.pos = self.pos + 1;
        proof {
            let t = self@;
            assert(t.events.drop_last() =~= s.events);
            assert(t.tokens.take(t.pos) =~= s.tokens.take(s.pos).push(s.tokens[s.pos]));
            assert(t =~= s.bumped(kind));
        }
    }

    /// Emits the current token, which must not be the end of the stream.
    pub fn bump_any(&mut self)
        requires
            old(self)@.wf(),
            old(self)@.cur() != SyntaxKind::EOF,
        ensures
            final(self)@ == old(self)@.bumped(old(self)@.cur()),
            final(self)@.wf(),
    {
        let kind = self.cur();
        self.do_bump(kind);
    }

    /// Emits the current token, which must be of the kind `kind`.
    pub fn bump(&mut self, kind: SyntaxKind)
        requires
            old(self)@.wf(),
            old(self)@.cur() == kind,
            kind != SyntaxKind::EOF,
        ensures
            final(self)@ == old(self)@.bumped(kind),
            final(self)@.wf(),
    {
        self.do_bump(kind);
    }

    /// Emits the current token with the kind `kind` in place of its own: a keyword
    /// as an identifier.
    pub fn bump_remap(&mut self, kind: SyntaxKind)
        requires
            old(self)@.wf(),
            old(self)@.cur() != SyntaxKind::EOF,
            remaps_to(old(self)@.cur(), kind),
        ensures
            final(self)@ == old(self)@.bumped(kind),
            final(self)@.wf(),
    {
        self.do_bump(kind);
    }

    /// Emits the current token when it is of the kind `kind`.
    pub fn eat(&mut self, kind: SyntaxKind) -> (r: bool)
        requires
            old(self)@.wf(),
            kind != SyntaxKind::EOF,
        ensures
            r == (old(self)@.cur() == kind),
            r ==> final(self)@ == old(self)@.bumped(kind),
            !r ==> final(self)@ == old(self)@,
            final(self)@.wf(),
    {
        if !self.at(kind) {
            return false;
        }
        self.do_bump(kind);
        true
    }

    /// Reports `d`, unless the last diagnostic starts where `d` starts.
    pub fn error(&mut self, d: ParseDiagnostic)
        requires
            old(self)@.wf(),
        ensures
            final(self)@ == old(self)@.with_diagnostics(old(self)@.diagnosed(d)),
            final(self)@.wf(),
    {
        let n = self.diagnostics.len();
        if n > 0 && self.diagnostics[n - 1].start == d.start {
            proof {
                assert(self@ =~= self@.with_diagnostics(self@.diagnosed(d)));
            }
            return;
        }
        self.diagnostics.push(d);
    }

    /// Reports a diagnostic of the kind `kind` over the current token.
    pub fn error_at_cur(&mut self, kind: DiagnosticKind)
        requires
            old(self)@.wf(),
        ensures
            final(self)@ == old(self)@.with_diagnostics(
                old(self)@.diagnosed(
                    ParseDiagnostic {
                        kind,
                        start: old(self)@.pos as usize,
                        end: old(self)@.cur_end() as usize,
                    },
                ),
            ),
            final(self)@.wf(),
    {
        let d = ParseDiagnostic { kind, start: self.cur_start(), end: self.cur_end() };
        self.error(d);
    }

    /// Emits the current token when it is of the kind `kind`, and reports that it
    /// was expected otherwise.
    pub fn expect(&mut self, kind: SyntaxKind) -> (r: bool)
        requires
            old(self)@.wf(),
            kind != SyntaxKind::EOF,
        ensures
            r == (old(self)@.cur() == kind),
            r ==> final(self)@ == old(self)@.bumped(kind),
            !r ==> final(self)@ == old(self)@.with_diagnostics(
                old(self)@.diagnosed(
                    ParseDiagnostic {
                        kind: DiagnosticKind::ExpectedToken { kind },
                        start: old(self)@.pos as usize,
                        end: old(self)@.cur_end() as usize,
                    },
                ),
            ),
            grows(old(self)@, final(self)@),
            final(self)@.wf(),
    {
        proof {
            lemma_bumped_grows(self@, kind);
            lemma_diagnosed_grows(
                self@,
                ParseDiagnostic {
                    kind: DiagnosticKind::ExpectedToken { kind },
                    start: self@.pos as usize,
                    end: self@.cur_end() as usize,
                },
            );
        }
        if self.eat(kind) {
            true
        } else {
            self.error_at_cur(DiagnosticKind::ExpectedToken { kind });
            false
        }
    }

    /// Opens a node.
    pub fn start(&mut self) -> (m: Marker)
        requires
            old(self)@.wf(),
        ensures
            m.pos == old(self)@.events.len(),
            final(self)@ == old(self)@.with_events(
                old(self)@.events.push(Event::Start { kind: SyntaxKind::TOMBSTONE }),
            ),
            final(self)@.wf(),
    {
        let pos = self.events.len();
        let ghost s = self@;
        self.events.push(Event::Start { kind: SyntaxKind::TOMBSTONE });
        proof {
            assert(self@.events.drop_last() =~= s.events);
            assert(self@ =~= s.with_events(s.events.push(Event::Start { kind: SyntaxKind::TOMBSTONE })));
        }
        Marker { pos }
    }

    /// Closes the node that `m` opened and gives it the kind `kind`.
    pub fn complete(&mut self, m: Marker, kind: SyntaxKind) -> (r: CompletedMarker)
        requires
            old(self)@.wf(),
            m.pos < old(self)@.events.len(),
            old(self)@.events[m.pos as int] is Start,
        ensures
            r.start_pos == m.pos,
            r.finish_pos == old(self)@.events.len(),
            final(self)@ == old(self)@.with_events(
                old(self)@.events.update(m.pos as int, Event::Start { kind }).push(Event::Finish),
            ),
            final(self)@.wf(),
    {
        let ghost s = self@;
        self.events.set(m.pos, Event::Start { kind });
        let finish_pos = self.events.len();
        self.events.push(Event::Finish);
        proof {
            lemma_update_start(s.events, m.pos as int, kind);
            assert(self@.events.drop_last() =~= s.events.update(m.pos as int, Event::Start { kind }));
            assert(self@ =~= s.with_events(
                s.events.update(m.pos as int, Event::Start { kind }).push(Event::Finish),
            ));
        }
        CompletedMarker { start_pos: m.pos, finish_pos }
    }

    /// Drops the node that `m` opened; its children go to its parent.
    pub fn abandon(&mut self, m: Marker)
        requires
            old(self)@.wf(),
            m.pos < old(self)@.events.len(),
            old(self)@.events[m.pos as int] == (Event::Start { kind: SyntaxKind::TOMBSTONE }),
        ensures
            m.pos == old(self)@.events.len() - 1 ==> final(self)@ == old(self)@.with_events(
                old(self)@.events.drop_last(),
            ),
            m.pos != old(self)@.events.len() - 1 ==> final(self)@ == old(self)@,
            final(self)@.wf(),
    {
        let ghost s = self@;
        if m.pos == self.events.len() - 1 {
            let _ = self.events.pop();
            proof {
                assert(self@ =~= s.with_events(s.events.drop_last()));
            }
        }
    }

    /// The kind of a completed node.
    pub fn kind(&self, m: &CompletedMarker) -> (r: SyntaxKind)
        requires
            m.start_pos < self@.events.len(),
        ensures
            r == self@.kind_of(*m),
    {
        match self.events[m.start_pos] {
            Event::Start { kind } => kind,
            _ => SyntaxKind::TOMBSTONE,
        }
    }

    /// Turns a completed node into the bogus node of its kind.
    pub fn change_to_bogus(&mut self, m: &CompletedMarker)
        requires
            old(self)@.wf(),
            m.start_pos < old(self)@.events.len(),
            old(self)@.events[m.start_pos as int] is Start,
        ensures
            final(self)@ == old(self)@.with_events(
                old(self)@.events.update(
                    m.start_pos as int,
                    Event::Start { kind: bogus_of(old(self)@.kind_of(*m)) },
                ),
            ),
            final(self)@.wf(),
    {
        let ghost s = self@;
        let kind = self.kind(m).to_bogus();
        self.events.set(m.start_pos, Event::Start { kind });
        proof {
            lemma_update_start(s.events, m.start_pos as int, kind);
            assert(self@ =~= s.with_events(
                s.events.update(m.start_pos as int, Event::Start { kind }),
            ));
        }
    }

    /// A point to which the parser can be rewound.
    pub fn checkpoint(&self) -> (r: Checkpoint)
        ensures
            r == self@.checkpoint_of(),
            self@.events.len() <= usize::MAX,
            self@.diagnostics.len() <= usize::MAX,
    {
        let n = self.events.len();
        Checkpoint {
            pos: self.pos,
            event_pos: if n == 0 {
                0
            } else {
                n - 1
            },
            errors_pos: self.diagnostics.len(),
        }
    }

    /// Rewinds to a checkpoint: the events after it and the diagnostics reported
    /// since are dropped.
    pub fn rewind(&mut self, cp: Checkpoint)
        requires
            old(self)@.wf(),
            cp.event_pos < old(self)@.events.len(),
            cp.pos <= old(self)@.tokens.len(),
            lossless(
                emitted(old(self)@.events.take(cp.event_pos + 1)),
                old(self)@.tokens.take(cp.pos as int),
            ),
        ensures
            final(self)@ == old(self)@.rewound(cp),
            final(self)@.wf(),
    {
        let ghost s = self@;
        let _n = self.events.len();
        self.pos = cp.pos;
        self.events.truncate(cp.event_pos + 1);
        self.diagnostics.truncate(cp.errors_pos);
        proof {
            assert(self@ =~= s.rewound(cp));
        }
    }

    /// Drops the diagnostics after the first `n`.
    pub fn truncate_diagnostics(&mut self, n: usize)
        requires
            old(self)@.wf(),
        ensures
            final(self)@ == old(self)@.with_diagnostics(
                if n <= old(self)@.diagnostics.len() {
                    old(self)@.diagnostics.take(n as int)
                } else {
                    old(self)@.diagnostics
                },
            ),
            final(self)@.wf(),
    {
        let ghost s = self@;
        self.diagnostics.truncate(n);
        proof {
            assert(self@ =~= s.with_diagnostics(
                if n <= s.diagnostics.len() {
                    s.diagnostics.take(n as int)
                } else {
                    s.diagnostics
                },
            ));
        }
    }

    /// Hands out the events and the diagnostics.
    pub fn finish(self) -> (r: (Vec<Event>, Vec<ParseDiagnostic>))
        ensures
            r.0@ == self@.events,
            r.1@ == self@.diagnostics,
    {
        (self.events, self.diagnostics)
    }
}

/// Reports a diagnostic of the kind `kind` over the current token when the rule
/// found nothing; hands out the node when it found one.
pub fn or_add_diagnostic(p: &mut JsParser, r: ParsedSyntax, kind: DiagnosticKind) -> (o: Option<
    CompletedMarker,
>)
    requires
        old(p)@.wf(),
    ensures
        final(p)@.wf(),
        grows(old(p)@, final(p)@),
        r matches ParsedSyntax::Present(m) ==> o == Some(m) && final(p)@ == old(p)@,
        r is Absent ==> o is None && final(p)@ == old(p)@.with_diagnostics(
            old(p)@.diagnosed(
                ParseDiagnostic {
                    kind,
                    start: old(p)@.pos as usize,
                    end: old(p)@.cur_end() as usize,
                },
            ),
        ),
{
    proof {
        lemma_grows_refl(p@);
        lemma_diagnosed_grows(
            p@,
            ParseDiagnostic { kind, start: p@.pos as usize, end: p@.cur_end() as usize },
        );
    }
    match r {
        ParsedSyntax::Present(m) => Some(m),
        ParsedSyntax::Absent => {
            p.error_at_cur(kind);
            None
        },
    }
}

} // verus!
