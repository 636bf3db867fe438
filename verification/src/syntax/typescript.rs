use vstd::prelude::*;

use crate::parser::{
    lemma_renamed_node, parsed, reached, DiagnosticKind, JsParser, ParseDiagnostic, ParsedSyntax,
    ParserState, TsOnlySyntax,
};
use crate::events::Event;
use crate::syntax::balanced::{
    bracketed_events, diagnostic_at, kind_at, parse_bracketed, parse_led_run, run_end,
    token_events, RunEnd,
};
use crate::syntax_kind::{bogus_of, SyntaxKind};

verus! {

/// The token that starts a TypeScript-only syntax.
pub open spec fn ts_lead(syntax: TsOnlySyntax) -> SyntaxKind {
    match syntax {
        TsOnlySyntax::TypeParameters => SyntaxKind::L_ANGLE,
        _ => SyntaxKind::COLON,
    }
}

/// The node kind of a TypeScript-only syntax.
pub open spec fn ts_node(syntax: TsOnlySyntax) -> SyntaxKind {
    match syntax {
        TsOnlySyntax::TypeParameters => SyntaxKind::TS_TYPE_PARAMETERS,
        TsOnlySyntax::TypeAnnotation => SyntaxKind::TS_TYPE_ANNOTATION,
        TsOnlySyntax::ReturnTypeAnnotation => SyntaxKind::TS_RETURN_TYPE_ANNOTATION,
    }
}

/// Where the syntax that starts at the current token ends.
pub open spec fn ts_end(s: ParserState, syntax: TsOnlySyntax) -> int {
    match syntax {
        TsOnlySyntax::TypeParameters => {
            let e = run_end(s, s.pos + 1, RunEnd::TypeArguments);
            if kind_at(s, e) == SyntaxKind::R_ANGLE {
                e + 1
            } else {
                e
            }
        },
        _ => run_end(s, s.pos + 1, RunEnd::Type),
    }
}

/// The diagnostics after parsing the syntax that starts at the current token: a
/// missing `>` and an empty `<>` are reported; a type annotation reports nothing.
pub open spec fn ts_diagnostics(s: ParserState, syntax: TsOnlySyntax) -> Seq<ParseDiagnostic> {
    match syntax {
        TsOnlySyntax::TypeParameters => {
            let e = run_end(s, s.pos + 1, RunEnd::TypeArguments);
            if s.nth(1) == SyntaxKind::R_ANGLE {
                s.diagnosed(diagnostic_at(s, DiagnosticKind::ExpectedTypeParameter, s.pos + 1))
            } else if kind_at(s, e) == SyntaxKind::R_ANGLE {
                s.diagnostics
            } else {
                s.diagnosed(
                    diagnostic_at(s, DiagnosticKind::ExpectedToken { kind: SyntaxKind::R_ANGLE }, e),
                )
            }
        },
        _ => s.diagnostics,
    }
}

/// The events of the syntax that starts at the current token, in a node of the kind
/// `kind`: the `<` or `:` and the tokens up to where the syntax ends, with the `>`
/// of type parameters.
pub open spec fn ts_node_events(s: ParserState, syntax: TsOnlySyntax, kind: SyntaxKind) -> Seq<Event> {
    let s = s.cursor();
    match syntax {
        TsOnlySyntax::TypeParameters => bracketed_events(
            s,
            SyntaxKind::L_ANGLE,
            RunEnd::TypeArguments,
            SyntaxKind::R_ANGLE,
            kind,
        ),
        _ => seq![Event::Start { kind }, Event::Token { kind: SyntaxKind::COLON }] + token_events(
            s.tokens,
            s.pos + 1,
            ts_end(s, syntax),
        ) + seq![Event::Finish],
    }
}

/// The events of a syntax that only TypeScript allows, at the current token: its
/// node, bogus in any file but a TypeScript one; none when it does not start here.
pub open spec fn ts_events(s: ParserState, syntax: TsOnlySyntax) -> Seq<Event> {
    let s = s.cursor();
    if s.cur() != ts_lead(syntax) {
        Seq::empty()
    } else if s.typescript {
        ts_node_events(s, syntax, ts_node(syntax))
    } else {
        ts_node_events(s, syntax, bogus_of(ts_node(syntax)))
    }
}

/// Giving the node of a syntax another kind gives the events of that kind.
proof fn lemma_ts_node_renamed(s: ParserState, syntax: TsOnlySyntax, k1: SyntaxKind, k2: SyntaxKind)
    ensures
        ts_node_events(s, syntax, k1).update(0, Event::Start { kind: k2 }) =~= ts_node_events(
            s,
            syntax,
            k2,
        ),
{
}

/// Where the parser stands after a syntax that only TypeScript allows, when it
/// starts at the current token: after it, with its own diagnostics in a TypeScript
/// file and with one diagnostic over it in any other file.
pub open spec fn ts_after(s: ParserState, syntax: TsOnlySyntax) -> ParserState {
    let s = s.cursor();
    if s.cur() != ts_lead(syntax) {
        s
    } else if s.typescript {
        s.moved(ts_end(s, syntax), ts_diagnostics(s, syntax))
    } else {
        s.moved(
            ts_end(s, syntax),
            s.diagnosed(
                ParseDiagnostic {
                    kind: DiagnosticKind::TsOnly { syntax },
                    start: s.pos as usize,
                    end: ts_end(s, syntax) as usize,
                },
            ),
        )
    }
}

/// Type parameters `<...>`: the tokens up to the `>` that closes the `<`, in a
/// `TS_TYPE_PARAMETERS` node; an empty list is reported.
pub fn parse_ts_type_parameters(p: &mut JsParser) -> (r: ParsedSyntax)
    requires
        old(p)@.wf(),
    ensures
        final(p)@.wf(),
        parsed(old(p)@, final(p)@, r),
        r is Absent <==> old(p)@.cur() != SyntaxKind::L_ANGLE,
        r matches ParsedSyntax::Present(m) ==> final(p)@.kind_of(m) == SyntaxKind::TS_TYPE_PARAMETERS
            && final(p)@.pos > old(p)@.pos,
        r is Present ==> final(p)@.pos == ts_end(old(p)@, TsOnlySyntax::TypeParameters)
            && final(p)@.diagnostics == ts_diagnostics(old(p)@, TsOnlySyntax::TypeParameters)
            && final(p)@.events == old(p)@.events + ts_node_events(
            old(p)@,
            TsOnlySyntax::TypeParameters,
            SyntaxKind::TS_TYPE_PARAMETERS,
        ),
{
    let ghost s0 = p@;
    let empty = p.nth_at(1, SyntaxKind::R_ANGLE);
    let r = parse_bracketed(
        p,
        SyntaxKind::L_ANGLE,
        RunEnd::TypeArguments,
        SyntaxKind::R_ANGLE,
        SyntaxKind::TS_TYPE_PARAMETERS,
    );
    if r.is_present() && empty {
        let ghost s1 = p@;
        let start = p.cur_start() - 1;
        let d = ParseDiagnostic { kind: DiagnosticKind::ExpectedTypeParameter, start, end: start + 1 };
        proof {
            reveal_with_fuel(crate::syntax::balanced::run_end_from, 2);
            assert(run_end(s0, s0.pos + 1, RunEnd::TypeArguments) == s0.pos + 1);
            assert(d == diagnostic_at(s0, DiagnosticKind::ExpectedTypeParameter, s0.pos + 1));
        }
        p.error(d);
        proof {
            crate::parser::lemma_diagnosed_grows(s1, d);
            assert(crate::parser::parsed(s0, p@, r)) by {
                crate::parser::lemma_diagnosed_node(s0, s1, p@, r);
            }
        }
    }
    r
}

/// A type annotation `: T`: the `:` and the type after it, up to a `,`, `;`, `=`,
/// `{` or closing bracket outside of brackets, in a `TS_TYPE_ANNOTATION` node.
pub fn parse_ts_type_annotation(p: &mut JsParser) -> (r: ParsedSyntax)
    requires
        old(p)@.wf(),
    ensures
        final(p)@.wf(),
        parsed(old(p)@, final(p)@, r),
        r is Absent <==> old(p)@.cur() != SyntaxKind::COLON,
        r matches ParsedSyntax::Present(m) ==> final(p)@.kind_of(m) == SyntaxKind::TS_TYPE_ANNOTATION
            && final(p)@.pos > old(p)@.pos,
        r is Present ==> final(p)@.pos == ts_end(old(p)@, TsOnlySyntax::TypeAnnotation)
            && final(p)@.diagnostics == old(p)@.diagnostics && final(p)@.events == old(p)@.events
            + ts_node_events(old(p)@, TsOnlySyntax::TypeAnnotation, SyntaxKind::TS_TYPE_ANNOTATION),
{
    parse_led_run(p, SyntaxKind::COLON, RunEnd::Type, SyntaxKind::TS_TYPE_ANNOTATION)
}

/// A return type annotation `: T`, as a type annotation but in a
/// `TS_RETURN_TYPE_ANNOTATION` node.
pub fn parse_ts_return_type_annotation(p: &mut JsParser) -> (r: ParsedSyntax)
    requires
        old(p)@.wf(),
    ensures
        final(p)@.wf(),
        parsed(old(p)@, final(p)@, r),
        r is Absent <==> old(p)@.cur() != SyntaxKind::COLON,
        r matches ParsedSyntax::Present(m) ==> final(p)@.kind_of(m)
            == SyntaxKind::TS_RETURN_TYPE_ANNOTATION && final(p)@.pos > old(p)@.pos,
        r is Present ==> final(p)@.pos == ts_end(old(p)@, TsOnlySyntax::ReturnTypeAnnotation)
            && final(p)@.diagnostics == old(p)@.diagnostics && final(p)@.events == old(p)@.events
            + ts_node_events(old(p)@, TsOnlySyntax::ReturnTypeAnnotation, SyntaxKind::TS_RETURN_TYPE_ANNOTATION),
{
    parse_led_run(p, SyntaxKind::COLON, RunEnd::Type, SyntaxKind::TS_RETURN_TYPE_ANNOTATION)
}

fn parse_ts_syntax(p: &mut JsParser, syntax: TsOnlySyntax) -> (r: ParsedSyntax)
    requires
        old(p)@.wf(),
    ensures
        final(p)@.wf(),
        parsed(old(p)@, final(p)@, r),
        r is Absent <==> old(p)@.cur() != ts_lead(syntax),
        r matches ParsedSyntax::Present(m) ==> final(p)@.kind_of(m) == ts_node(syntax)
            && final(p)@.pos > old(p)@.pos,
        r is Present ==> final(p)@.pos == ts_end(old(p)@, syntax) && final(p)@.diagnostics
            == ts_diagnostics(old(p)@, syntax) && final(p)@.events == old(p)@.events
            + ts_node_events(old(p)@, syntax, ts_node(syntax)),
{
    match syntax {
        TsOnlySyntax::TypeParameters => parse_ts_type_parameters(p),
        TsOnlySyntax::TypeAnnotation => parse_ts_type_annotation(p),
        TsOnlySyntax::ReturnTypeAnnotation => parse_ts_return_type_annotation(p),
    }
}

/// Parses a syntax that only TypeScript allows. In a TypeScript file it is parsed
/// as it is; in any other file the diagnostics of its parse are dropped, one
/// diagnostic over its tokens says that only TypeScript allows it, and it becomes a
/// bogus node.
#[verifier::spinoff_prover]
pub fn parse_typescript_only(p: &mut JsParser, syntax: TsOnlySyntax) -> (r: ParsedSyntax)
    requires
        old(p)@.wf(),
    ensures
        final(p)@.wf(),
        parsed(old(p)@, final(p)@, r),
        r is Absent <==> old(p)@.cur() != ts_lead(syntax),
        r matches ParsedSyntax::Present(m) ==> {
            &&& final(p)@.pos > old(p)@.pos
            &&& final(p)@.kind_of(m) == (if old(p)@.typescript {
                ts_node(syntax)
            } else {
                bogus_of(ts_node(syntax))
            })
            &&& final(p)@.pos == ts_end(old(p)@, syntax)
            &&& old(p)@.typescript ==> final(p)@.diagnostics == ts_diagnostics(old(p)@, syntax)
            &&& !old(p)@.typescript ==> final(p)@.diagnostics == old(p)@.diagnosed(
                ParseDiagnostic {
                    kind: DiagnosticKind::TsOnly { syntax },
                    start: old(p)@.pos as usize,
                    end: final(p)@.pos as usize,
                },
            )
        },
        reached(final(p)@, ts_after(old(p)@, syntax)),
        final(p)@.events == old(p)@.events + ts_events(old(p)@, syntax),
{
    if p.is_typescript() {
        return parse_ts_syntax(p, syntax);
    }
    let ghost s0 = p@;
    let diagnostics_checkpoint = p.diagnostics().len();
    let start = p.cur_start();
    let parsed_syntax = parse_ts_syntax(p, syntax);
    let ghost s1 = p@;
    p.truncate_diagnostics(diagnostics_checkpoint);
    match parsed_syntax {
        ParsedSyntax::Present(m) => {
            let end = p.cur_start();
            proof {
                assert(p@.diagnostics =~= s0.diagnostics);
            }
            p.error(
                ParseDiagnostic { kind: DiagnosticKind::TsOnly { syntax }, start, end },
            );
            let ghost s2 = p@;
            p.change_to_bogus(&m);
            proof {
                assert(s2.diagnostics.take(s0.diagnostics.len() as int) =~= s0.diagnostics);
                lemma_renamed_node(s0, s1, p@, m, bogus_of(ts_node(syntax)));
                lemma_ts_node_renamed(s0, syntax, ts_node(syntax), bogus_of(ts_node(syntax)));
                let x = ts_node_events(s0, syntax, ts_node(syntax));
                assert(p@.events =~= s0.events + x.update(0, Event::Start { kind: bogus_of(ts_node(syntax)) }));
            }
            ParsedSyntax::Present(m)
        },
        ParsedSyntax::Absent => {
            proof {
                assert(p@ =~= s0);
            }
            ParsedSyntax::Absent
        },
    }
}

} // verus!
