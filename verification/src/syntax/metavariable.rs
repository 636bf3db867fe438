use vstd::prelude::*;

use crate::events::Event;
use crate::parser::{lemma_bumped_grows, lemma_completed, parsed, JsParser, ParsedSyntax};
use crate::syntax_kind::SyntaxKind;

verus! {

/// A GritQL metavariable: one `GRIT_METAVARIABLE` token in a `JS_METAVARIABLE` node.
pub fn parse_metavariable(p: &mut JsParser) -> (r: ParsedSyntax)
    requires
        old(p)@.wf(),
    ensures
        final(p)@.wf(),
        parsed(old(p)@, final(p)@, r),
        r is Absent <==> old(p)@.cur() != SyntaxKind::GRIT_METAVARIABLE,
        r is Present ==> final(p)@ == old(p)@.with_events(
            old(p)@.events + seq![
                Event::Start { kind: SyntaxKind::JS_METAVARIABLE },
                Event::Token { kind: SyntaxKind::GRIT_METAVARIABLE },
                Event::Finish,
            ],
        ).bumped_silently(),
{
    if !p.at(SyntaxKind::GRIT_METAVARIABLE) {
        return ParsedSyntax::Absent;
    }
    let ghost s0 = p@;
    let m = p.start();
    let ghost s1 = p@;
    p.bump(SyntaxKind::GRIT_METAVARIABLE);
    let ghost s2 = p@;
    proof {
        lemma_bumped_grows(s1, SyntaxKind::GRIT_METAVARIABLE);
    }
    let cm = p.complete(m, SyntaxKind::JS_METAVARIABLE);
    proof {
        lemma_completed(s0, s1, s2, p@, SyntaxKind::JS_METAVARIABLE);
        assert(p@ =~= s0.with_events(
            s0.events + seq![
                Event::Start { kind: SyntaxKind::JS_METAVARIABLE },
                Event::Token { kind: SyntaxKind::GRIT_METAVARIABLE },
                Event::Finish,
            ],
        ).bumped_silently());
    }
    ParsedSyntax::Present(cm)
}

} // verus!
