use vstd::prelude::*;

use crate::syntax_kind::{keyword, SyntaxKind};

verus! {

/// A token as the lexer hands it to the parser.
#[derive(Debug, Clone, Copy, PartialEq, Eq, Structural)]
pub struct LexedToken {
    pub kind: SyntaxKind,
    /// Whether trivia with a line break stands between this token and the previous one.
    pub has_preceding_line_break: bool,
}

/// An event of the parser, later turned into a syntax tree: every token between a
/// `Start` and its `Finish` is a child of the node that the `Start` opens.
#[derive(Debug, Clone, Copy, PartialEq, Eq, Structural)]
pub enum Event {
    Start { kind: SyntaxKind },
    Finish,
    Token { kind: SyntaxKind },
}

/// How an event changes the nesting depth.
pub open spec fn delta(e: Event) -> int {
    match e {
        Event::Start { .. } => 1,
        Event::Finish => -1,
        Event::Token { .. } => 0,
    }
}

/// The nesting depth after a sequence of events.
pub open spec fn net(s: Seq<Event>) -> int
    decreases s.len(),
{
    if s.len() == 0 {
        0
    } else {
        net(s.drop_last()) + delta(s.last())
    }
}

/// A sequence of complete nodes and tokens: every `Finish` closes an earlier `Start`
/// and every `Start` is closed.
pub open spec fn forest(s: Seq<Event>) -> bool {
    &&& net(s) == 0
    &&& forall|i: int| 0 <= i <= s.len() ==> net(#[trigger] s.take(i)) >= 0
}

/// The kinds of the tokens that a sequence of events emits, in order.
pub open spec fn emitted(s: Seq<Event>) -> Seq<SyntaxKind>
    decreases s.len(),
{
    if s.len() == 0 {
        Seq::empty()
    } else {
        match s.last() {
            Event::Token { kind } => emitted(s.drop_last()).push(kind),
            _ => emitted(s.drop_last()),
        }
    }
}

/// The kind that an emitted token may carry for a source token: its own, or
/// `IDENT` when a keyword is used as a name.
pub open spec fn remaps_to(src: SyntaxKind, out: SyntaxKind) -> bool {
    out == src || (keyword(src) && out == SyntaxKind::IDENT)
}

/// The emitted kinds stand one for one for the source tokens.
pub open spec fn lossless(out: Seq<SyntaxKind>, src: Seq<LexedToken>) -> bool {
    &&& out.len() == src.len()
    &&& forall|i: int| 0 <= i < out.len() ==> remaps_to(#[trigger] src[i].kind, out[i])
}

/// The kind of a `Start` event.
pub open spec fn start_kind(e: Event) -> SyntaxKind {
    match e {
        Event::Start { kind } => kind,
        _ => SyntaxKind::TOMBSTONE,
    }
}

pub proof fn lemma_net_concat(a: Seq<Event>, b: Seq<Event>)
    ensures
        net(a + b) == net(a) + net(b),
    decreases b.len(),
{
    if b.len() == 0 {
        assert(a + b =~= a);
    } else {
        assert((a + b).drop_last() =~= a + b.drop_last());
        lemma_net_concat(a, b.drop_last());
    }
}

pub proof fn lemma_forest_empty()
    ensures
        forest(Seq::<Event>::empty()),
{
    assert forall|i: int| 0 <= i <= 0 implies net(#[trigger] Seq::<Event>::empty().take(i))
        >= 0 by {
        assert(Seq::<Event>::empty().take(i) =~= Seq::<Event>::empty());
    }
}

pub proof fn lemma_forest_concat(a: Seq<Event>, b: Seq<Event>)
    requires
        forest(a),
        forest(b),
    ensures
        forest(a + b),
{
    lemma_net_concat(a, b);
    assert forall|i: int| 0 <= i <= (a + b).len() implies net(#[trigger] (a + b).take(i)) >= 0 by {
        if i <= a.len() {
            assert((a + b).take(i) =~= a.take(i));
        } else {
            assert((a + b).take(i) =~= a + b.take(i - a.len()));
            lemma_net_concat(a, b.take(i - a.len()));
            assert(net(b.take(i - a.len())) >= 0);
        }
    }
}

pub proof fn lemma_forest_token(k: SyntaxKind)
    ensures
        forest(seq![Event::Token { kind: k }]),
{
    let s = seq![Event::Token { kind: k }];
    assert(s.drop_last() =~= Seq::<Event>::empty());
    assert(net(Seq::<Event>::empty()) == 0);
    assert(net(s) == 0);
    assert forall|i: int| 0 <= i <= s.len() implies net(#[trigger] s.take(i)) >= 0 by {
        if i == 0 {
            assert(s.take(i) =~= Seq::<Event>::empty());
        } else {
            assert(s.take(i) =~= s);
        }
    }
}

/// A forest wrapped by a `Start` and a `Finish` is a forest.
pub proof fn lemma_forest_wrap(k: SyntaxKind, a: Seq<Event>)
    requires
        forest(a),
    ensures
        forest(seq![Event::Start { kind: k }] + a + seq![Event::Finish]),
{
    let st = seq![Event::Start { kind: k }];
    let fin = seq![Event::Finish];
    let s = st + a + fin;
    assert(st.drop_last() =~= Seq::<Event>::empty());
    assert(fin.drop_last() =~= Seq::<Event>::empty());
    assert(net(Seq::<Event>::empty()) == 0);
    assert(net(st) == 1);
    assert(net(fin) == -1);
    lemma_net_concat(st, a);
    lemma_net_concat(st + a, fin);
    assert forall|i: int| 0 <= i <= s.len() implies net(#[trigger] s.take(i)) >= 0 by {
        if i == 0 {
            assert(s.take(i) =~= Seq::<Event>::empty());
        } else if i <= a.len() + 1 {
            assert(net(a.take(i - 1)) >= 0);
            assert(s.take(i) =~= st + a.take(i - 1));
            lemma_net_concat(st, a.take(i - 1));
        } else {
            assert(s.take(i) =~= s);
        }
    }
}

/// Changing the kind of a `Start` event changes neither the nesting nor the tokens.
pub proof fn lemma_update_start(s: Seq<Event>, i: int, k: SyntaxKind)
    requires
        0 <= i < s.len(),
        s[i] is Start,
    ensures
        emitted(s.update(i, Event::Start { kind: k })) == emitted(s),
        net(s.update(i, Event::Start { kind: k })) == net(s),
    decreases s.len(),
{
    let u = s.update(i, Event::Start { kind: k });
    if i == s.len() - 1 {
        assert(u.drop_last() =~= s.drop_last());
    } else {
        assert(u.drop_last() =~= s.drop_last().update(i, Event::Start { kind: k }));
        lemma_update_start(s.drop_last(), i, k);
    }
}

/// Changing the kind of a `Start` event keeps a forest a forest.
pub proof fn lemma_forest_update_start(s: Seq<Event>, i: int, k: SyntaxKind)
    requires
        0 <= i < s.len(),
        s[i] is Start,
        forest(s),
    ensures
        forest(s.update(i, Event::Start { kind: k })),
{
    let u = s.update(i, Event::Start { kind: k });
    lemma_update_start(s, i, k);
    assert forall|j: int| 0 <= j <= u.len() implies net(#[trigger] u.take(j)) >= 0 by {
        if j <= i {
            assert(u.take(j) =~= s.take(j));
        } else {
            assert(u.take(j) =~= s.take(j).update(i, Event::Start { kind: k }));
            lemma_update_start(s.take(j), i, k);
            assert(net(s.take(j)) >= 0);
        }
    }
}

} // verus!
