//! The laws the library states about itself, proved once and for all:
//! anchoring of compiled patterns, content-addressed identity of
//! service keys, uniqueness of compiled services, the fail-closed
//! restart bound, and strict rule order.

use vstd::prelude::*;

use crate::builder::{BuildCache, LoadedService};
use crate::config_types::{OnMatch, Service, ServiceRef};
use crate::encode::{enc_service, sha256_hex};
use crate::builder::CompiledRouterMatch;
use crate::matcher::match_model;
use crate::ops::{ops_result, OpsOut};
use crate::parse::{
    cache_has_key_v, dep_from_ref, import_mapped, target_present, ParseCache, ServiceDep,
};
use crate::paths::canon_model;
use crate::pattern_compile::build_model;
use crate::pattern_types::CtxKind;
use crate::route::{arena_wf, loop_detected_model, rules_walk, RouteOut};
use crate::router_ctx::CtxModel;

verus! {

/// Every pattern the compiler accepts is fully anchored: its regex
/// source starts with the start anchor and ends with the end anchor,
/// so the engine can only ever match the whole subject, never a
/// substring.
pub proof fn lemma_patterns_anchored(kind: CtxKind, s: Seq<char>)
    ensures
        build_model(kind, s) matches Ok(m) ==> m.0.len() >= 2 && m.0.first() == '^'
            && m.0.last() == '$',
{
    reveal_strlit("^");
    reveal_strlit("$");
    match crate::pattern_compile::build_at(kind, s, 0, Seq::empty(), false) {
        Ok(p) => {
            let full = "^"@ + p.0 + "$"@;
            assert(full.first() == '^');
            assert(full.last() == '$');
        },
        Err(_) => {},
    }
}

/// Two structurally equal inline definitions at canonically equal base
/// directories produce the same service key; canonically distinct base
/// directories always produce distinct keys, whatever the content.
pub proof fn lemma_service_key_identity(s1: Service, s2: Service, b1: Seq<char>, b2: Seq<char>)
    ensures
        s1 == s2 ==> sha256_hex(enc_service(s1)) == sha256_hex(enc_service(s2)),
        s1 == s2 && canon_model(b1) == canon_model(b2) ==> (
        canon_model(b1),
        sha256_hex(enc_service(s1)),
        ) == (canon_model(b2), sha256_hex(enc_service(s2))),
        canon_model(b1) != canon_model(b2) ==> (
        canon_model(b1),
        sha256_hex(enc_service(s1)),
        ).0 != (canon_model(b2), sha256_hex(enc_service(s2))).0,
{
}

/// The parsed graph is closed: in a well-formed cache, a dependency
/// recorded for a service reference resolves to a parsed node — an
/// import path stands in the import index and its resolved key names
/// a parsed entry, and an inline key names a parsed entry directly.
pub proof fn lemma_graph_closure(d: ServiceDep, s: ServiceRef, base: Seq<char>, c: ParseCache)
    requires
        c.wf(),
        dep_from_ref(d, s, base, c),
    ensures
        match d {
            ServiceDep::ImportPath(p) => exists|j: int|
                0 <= j < c.import_to_key@.len() && (#[trigger] c.import_to_key@[j]).0@ == p@
                    && target_present(c.key_to_parsed@, c.import_to_key@[j].1),
            ServiceDep::Inline(k) => cache_has_key_v(c, k.base_dir@, k.hash@),
        },
{
    match d {
        ServiceDep::ImportPath(p) => {
            assert(import_mapped(c, p@));
            let j = choose|j: int|
                0 <= j < c.import_to_key@.len() && (#[trigger] c.import_to_key@[j]).0@ == p@;
            assert(target_present(c.key_to_parsed@, c.import_to_key@[j].1));
        },
        ServiceDep::Inline(_) => {},
    }
}

/// A build cache never holds two compiled services under one key:
/// however often a key is referenced — as a `next`, through `Use`, or
/// both — it compiles to exactly one arena entry.
pub proof fn lemma_one_service_per_key(bc: BuildCache, i: int, j: int)
    requires
        bc.wf(),
        0 <= i < j < bc.keys@.len(),
    ensures
        !bc.keys@[i].key_eq(bc.keys@[j]),
{
}

/// A match clause with nothing in it accepts every request and leaves
/// the context unchanged.
pub proof fn lemma_empty_match_accepts(cm: CompiledRouterMatch, m: CtxModel)
    requires
        crate::builder::match_all(cm),
    ensures
        match_model(cm, m) == (true, m),
{
    reveal(crate::matcher::match_model);
}

/// The fail-closed restart guard: in a router whose every rule
/// matches everything, runs no operations and restarts, the walk can
/// only count steps, and after exactly `max_steps` restarts it ends
/// in the loop-detected response — for every context and any starting
/// step count within the bound.
pub proof fn lemma_restart_terminates(
    arena: Seq<LoadedService>,
    idx: int,
    m: CtxModel,
    step: int,
)
    requires
        0 <= idx < arena.len(),
        arena_wf(arena),
        arena[idx] is Router,
        arena[idx]->Router_0.rules@.len() >= 1,
        forall|j: int|
            0 <= j < arena[idx]->Router_0.rules@.len() ==> crate::builder::match_all(
                (#[trigger] arena[idx]->Router_0.rules@[j]).when,
            ) && arena[idx]->Router_0.rules@[j].ops@.len() == 0
                && arena[idx]->Router_0.rules@[j].on_match == OnMatch::Restart,
        0 <= step <= arena[idx]->Router_0.max_steps,
    ensures
        rules_walk(arena, idx, m, 0, step) == RouteOut::Resp(loop_detected_model()),
    decreases arena[idx]->Router_0.max_steps - step,
{
    reveal(crate::route::rules_walk);
    reveal(crate::ops::ops_result);
    let rt = arena[idx]->Router_0;
    if step >= rt.max_steps {
    } else {
        lemma_empty_match_accepts(rt.rules@[0].when, m);
        assert(rt.rules@[0].ops@.len() == 0);
        assert(ops_result(rt.rules@[0].ops@, m) == OpsOut::Fallthrough(m));
        lemma_restart_terminates(arena, idx, m, step + 1);
    }
}

/// Rule evaluation is strictly sequential and the first matching rule
/// wins: a rule that does not match only passes its accumulated
/// captures on to the next rule; a matching rule that produces a
/// response ends the walk right there, whatever rules follow; and
/// only a fall-through with `Continue` moves past a matched rule.
pub proof fn lemma_rule_order(
    arena: Seq<LoadedService>,
    idx: int,
    m: CtxModel,
    ri: int,
    step: int,
)
    requires
        0 <= idx < arena.len(),
        arena_wf(arena),
        arena[idx] is Router,
        0 <= step < arena[idx]->Router_0.max_steps,
        0 <= ri < arena[idx]->Router_0.rules@.len(),
    ensures
        !match_model(arena[idx]->Router_0.rules@[ri].when, m).0 ==> rules_walk(
            arena,
            idx,
            m,
            ri,
            step,
        ) == rules_walk(
            arena,
            idx,
            match_model(arena[idx]->Router_0.rules@[ri].when, m).1,
            ri + 1,
            step,
        ),
        match_model(arena[idx]->Router_0.rules@[ri].when, m).0 ==> (match ops_result(
            arena[idx]->Router_0.rules@[ri].ops@,
            match_model(arena[idx]->Router_0.rules@[ri].when, m).1,
        ) {
            OpsOut::Respond(resp, _) => rules_walk(arena, idx, m, ri, step) == RouteOut::Resp(
                resp,
            ),
            OpsOut::Fallthrough(m3) => arena[idx]->Router_0.rules@[ri].on_match
                == OnMatch::Continue ==> rules_walk(arena, idx, m, ri, step) == rules_walk(
                arena,
                idx,
                m3,
                ri + 1,
                step,
            ),
            _ => true,
        }),
{
    reveal(crate::route::rules_walk);
}

} // verus!
