//! The per-request interpreter: walk a router's rules with a
//! (rule-index, step-count) cursor over the mutable context, bounded
//! by `max_steps`, and produce a terminal response or a dispatch to a
//! static or forward service in the arena.  Dispatch to another
//! router re-enters it with the context flushed and rebuilt, exactly
//! as a fresh request would see it.

use vstd::prelude::*;

use crate::builder::{op_wf, ops_wf, svc_wf, BuildCache, LoadedOp, LoadedRouter, LoadedService};
use crate::httptypes::{make_error_resp, HttpResponse, RespModel};
use crate::kvlist::{mm_set_s, mv_get, MultiMap, StrMap};
use crate::matcher::{match_model, matches_rule, MatchResult};
use crate::config_types::OnMatch;
use crate::ops::{ops_result, outcome_model, run_ops, OpOutcome, OpsOut};
use crate::router_ctx::{
    host_port_model, parse_cookies, parse_cookies_s, parse_host_header, parse_query,
    parse_query_s, CtxModel, RouterCtx,
};

verus! {

/// What handling one request produces: a finished response, or a
/// dispatch of the flushed context to a non-router service.
#[derive(Debug)]
pub enum RouteOutcome {
    Response(HttpResponse),
    Dispatch(usize, RouterCtx),
}

/// Mathematical image of a route outcome.
pub enum RouteOut {
    Resp(RespModel),
    Dispatch(int, CtxModel),
}

pub open spec fn route_out_model(r: RouteOutcome) -> RouteOut {
    match r {
        RouteOutcome::Response(resp) => RouteOut::Resp(resp.model()),
        RouteOutcome::Dispatch(i, c) => RouteOut::Dispatch(i as int, c.model()),
    }
}

/// Every service in the arena refers only below itself.
pub open spec fn arena_wf(arena: Seq<LoadedService>) -> bool {
    forall|p: int| 0 <= p < arena.len() ==> svc_wf(#[trigger] arena[p], p)
}

/// The rendered `k=v` parts of one entry.
pub open spec fn rq_entry(k: Seq<char>, vs: Seq<Seq<char>>) -> Seq<Seq<char>>
    decreases vs.len(),
{
    if vs.len() == 0 {
        Seq::empty()
    } else {
        rq_entry(k, vs.drop_last()).push(k + "="@ + vs.last())
    }
}

/// The rendered parts of the whole query map, in entry order.
pub open spec fn rq_parts(q: Seq<(Seq<char>, Seq<Seq<char>>)>) -> Seq<Seq<char>>
    decreases q.len(),
{
    if q.len() == 0 {
        Seq::empty()
    } else {
        rq_parts(q.drop_last()) + rq_entry(q.last().0, q.last().1)
    }
}

/// Parts joined with ampersands.
pub open spec fn join_amp(parts: Seq<Seq<char>>) -> Seq<char>
    decreases parts.len(),
{
    if parts.len() == 0 {
        Seq::empty()
    } else if parts.len() == 1 {
        parts.last()
    } else {
        join_amp(parts.drop_last()) + "&"@ + parts.last()
    }
}

/// The rebuilt query string of a context.
pub open spec fn render_query_model(q: Seq<(Seq<char>, Seq<Seq<char>>)>) -> Seq<char> {
    join_amp(rq_parts(q))
}

/// Render the context's query map back into a query string.
pub fn render_query(q: &MultiMap) -> (r: String)
    ensures
        r@ == render_query_model(q.model()),
{
    let mut out = String::new();
    let mut first = true;
    let ghost qm = q.model();
    let mut i: usize = 0;
    proof {
        assert(rq_parts(qm.take(0)) =~= Seq::<Seq<char>>::empty());
        assert(out@ =~= join_amp(rq_parts(qm.take(0))));
    }
    while i < q.entries.len()
        invariant
            i <= q.entries@.len(),
            qm == q.model(),
            qm.len() == q.entries@.len(),
            out@ == join_amp(rq_parts(qm.take(i as int))),
            first == (rq_parts(qm.take(i as int)).len() == 0),
        decreases q.entries@.len() - i,
    {
        let ghost gk = qm[i as int].0;
        let ghost gvs = qm[i as int].1;
        let vs = &q.entries[i].1;
        let mut j: usize = 0;
        proof {
            assert(gvs == vs.deep_view());
            let te = qm.take(i as int + 1);
            assert(te.drop_last() =~= qm.take(i as int));
            assert(te.last() == qm[i as int]);
            assert(rq_entry(gk, gvs.take(0)) =~= Seq::<Seq<char>>::empty());
            assert(rq_parts(qm.take(i as int)) + rq_entry(gk, gvs.take(0)) =~= rq_parts(
                qm.take(i as int),
            ));
        }
        while j < vs.len()
            invariant
                j <= vs@.len(),
                gvs == vs.deep_view(),
                gvs.len() == vs@.len(),
                qm == q.model(),
                i < qm.len(),
                gk == qm[i as int].0,
                i < q.entries@.len(),
                vs == &q.entries@[i as int].1,
                out@ == join_amp(
                    rq_parts(qm.take(i as int)) + rq_entry(gk, gvs.take(j as int)),
                ),
                first == ((rq_parts(qm.take(i as int)) + rq_entry(gk, gvs.take(j as int))).len()
                    == 0),
            decreases vs@.len() - j,
        {
            let ghost sofar = rq_parts(qm.take(i as int)) + rq_entry(gk, gvs.take(j as int));
            let ghost piece = gk + "="@ + gvs[j as int];
            if !first {
                out.append("&");
            }
            out.append(q.entries[i].0.as_str());
            out.append("=");
            out.append(vs[j].as_str());
            first = false;
            proof {
                let tv = gvs.take(j as int + 1);
                assert(tv.drop_last() =~= gvs.take(j as int));
                assert(tv.last() == gvs[j as int]);
                assert(rq_entry(gk, tv) == rq_entry(gk, gvs.take(j as int)).push(piece));
                let now = rq_parts(qm.take(i as int)) + rq_entry(gk, tv);
                assert(now =~= sofar.push(piece));
                assert(now.last() == piece);
                assert(now.drop_last() =~= sofar);
                if sofar.len() == 0 {
                    assert(join_amp(now) == piece);
                    assert(out@ =~= piece);
                } else {
                    assert(join_amp(now) == join_amp(sofar) + "&"@ + piece);
                    assert(out@ =~= join_amp(sofar) + "&"@ + piece);
                }
            }
            j += 1;
        }
        proof {
            assert(gvs.take(gvs.len() as int) =~= gvs);
            let te = qm.take(i as int + 1);
            assert(rq_parts(te) == rq_parts(qm.take(i as int)) + rq_entry(gk, gvs));
        }
        i += 1;
    }
    proof {
        assert(qm.take(qm.len() as int) =~= qm);
    }
    out
}

/// The context a dispatched service sees: the current host written
/// into the headers, host and port re-read from that header, the
/// query string rebuilt and re-parsed, cookies re-read, captures
/// cleared, the scheme gone with the relative request line.
pub open spec fn reenter_model(m: CtxModel) -> CtxModel {
    let headers = if m.host.len() > 0 {
        mm_set_s(m.headers, "host"@, m.host)
    } else {
        m.headers
    };
    let hp = match mv_get(headers, "host"@) {
        Some(vs) => if vs.len() > 0 {
            host_port_model(vs.first())
        } else {
            (Seq::empty(), None::<u16>)
        },
        None => (Seq::empty(), None::<u16>),
    };
    let cookies = match mv_get(headers, "cookie"@) {
        Some(vs) => parse_cookies_s(vs),
        None => Seq::empty(),
    };
    CtxModel {
        method: m.method,
        scheme: None,
        host: hp.0,
        port: hp.1,
        path: m.path,
        query: parse_query_s(render_query_model(m.query)),
        headers,
        cookies,
        captures: Seq::empty(),
    }
}

/// Flush the context and rebuild it, as the dispatched service's own
/// request parsing would.
pub fn reenter_ctx(ctx: &RouterCtx) -> (r: RouterCtx)
    ensures
        r.model() == reenter_model(ctx.model()),
{
    let mut headers = ctx.headers.duplicate();
    if ctx.host.unicode_len() > 0 {
        headers.set(("host").to_owned(), ctx.host.clone());
    }
    let hp: (String, Option<u16>) = match headers.get_first("host") {
        Some(v) => {
            let hv = v.clone();
            parse_host_header(hv.as_str())
        },
        None => (String::new(), None),
    };
    proof {
        match mv_get(headers.model(), "host"@) {
            Some(vs) => {
                if vs.len() > 0 {
                } else {
                    assert(hp.0@ =~= Seq::<char>::empty());
                }
            },
            None => {
                assert(hp.0@ =~= Seq::<char>::empty());
            },
        }
    }
    let empty_vals: Vec<String> = Vec::new();
    let cookie_raws: &Vec<String> = match headers.get_all("cookie") {
        Some(vs) => vs,
        None => &empty_vals,
    };
    let cookies = parse_cookies(cookie_raws);
    proof {
        assert(empty_vals.deep_view() =~= Seq::<Seq<char>>::empty());
        match mv_get(headers.model(), "cookie"@) {
            Some(vs) => {},
            None => {
                assert(parse_cookies_s(Seq::<Seq<char>>::empty()) =~= Seq::<
                    (Seq<char>, Seq<char>),
                >::empty());
                assert(cookies.model() =~= Seq::<(Seq<char>, Seq<char>)>::empty());
            },
        }
    }
    let qs = render_query(&ctx.query);
    let query = parse_query(qs.as_str());
    let r = RouterCtx {
        method: ctx.method,
        scheme: None,
        host: hp.0,
        port: hp.1,
        path: ctx.path.clone(),
        query,
        headers,
        cookies,
        captures: StrMap::new(),
    };
    proof {
        assert(r.model().captures =~= Seq::<(Seq<char>, Seq<char>)>::empty());
    }
    r
}

/// The response for a router that ran out of steps.
pub open spec fn loop_detected_model() -> RespModel {
    RespModel { status: 508, headers: Seq::empty(), body: "router steps exceeded"@ }
}

/// The response for a router with no matching rule and no `next`.
pub open spec fn not_found_model() -> RespModel {
    RespModel { status: 404, headers: Seq::empty(), body: "no route matched"@ }
}

/// The response for a dispatch to an index the arena cannot hold.
pub open spec fn bad_dispatch_model() -> RespModel {
    RespModel { status: 500, headers: Seq::empty(), body: "service graph corrupt"@ }
}

/// What handling a request at arena index `idx` produces: non-router
/// services take the context as it stands; a router walks its rules.
pub open spec fn route_model(arena: Seq<LoadedService>, idx: int, m: CtxModel) -> RouteOut
    decreases 2 * idx + 1, 0nat, 0nat,
    when 0 <= idx < arena.len() && arena_wf(arena)
{
    match arena[idx] {
        LoadedService::Router(rt) => rules_walk(arena, idx, m, 0, 0),
        _ => RouteOut::Dispatch(idx, m),
    }
}

/// One interpreter state: rule index `ri`, restart count `step`.
/// Exceeding `max_steps` fails closed; running past the last rule
/// dispatches to `next` or answers not-found; a matching rule's
/// operations decide what happens next, and their fall-through applies
/// the rule's on-match policy.
#[verifier::opaque]
pub open spec fn rules_walk(
    arena: Seq<LoadedService>,
    idx: int,
    m: CtxModel,
    ri: int,
    step: int,
) -> RouteOut
    decreases 2 * idx, (arena[idx]->Router_0.max_steps - step) as nat, (arena[idx]->Router_0.rules@.len() - ri) as nat,
    when 0 <= idx < arena.len() && arena[idx] is Router && arena_wf(arena) && 0 <= ri && 0 <= step
    via rules_walk_dec
{
    let rt = arena[idx]->Router_0;
    if step >= rt.max_steps {
        RouteOut::Resp(loop_detected_model())
    } else if ri >= rt.rules@.len() {
        match rt.next {
            Some(n) => route_model(arena, n as int, reenter_model(m)),
            None => RouteOut::Resp(not_found_model()),
        }
    } else {
        let mm = match_model(rt.rules@[ri].when, m);
        if !mm.0 {
            rules_walk(arena, idx, mm.1, ri + 1, step)
        } else {
            match ops_result(rt.rules@[ri].ops@, mm.1) {
                OpsOut::Respond(resp, _) => RouteOut::Resp(resp),
                OpsOut::Restart(m3) => rules_walk(arena, idx, m3, 0, step + 1),
                OpsOut::Use(u, m3) => {
                    if 0 <= u < idx {
                        route_model(arena, u, reenter_model(m3))
                    } else {
                        RouteOut::Resp(bad_dispatch_model())
                    }
                },
                OpsOut::Fallthrough(m3) => match rt.rules@[ri].on_match {
                    OnMatch::Stop => match rt.next {
                        Some(n) => route_model(arena, n as int, reenter_model(m3)),
                        None => RouteOut::Resp(not_found_model()),
                    },
                    OnMatch::Continue => rules_walk(arena, idx, m3, ri + 1, step),
                    OnMatch::Restart => rules_walk(arena, idx, m3, 0, step + 1),
                },
            }
        }
    }
}

#[via_fn]
proof fn rules_walk_dec(arena: Seq<LoadedService>, idx: int, m: CtxModel, ri: int, step: int) {
    if 0 <= idx < arena.len() && arena[idx] is Router && arena_wf(arena) {
        assert(svc_wf(arena[idx], idx));
    }
}

/// Well-formed operations only ever dispatch below the bound.
pub proof fn lemma_ops_result_use_bound(ops: Seq<LoadedOp>, m: CtxModel, bound: int)
    requires
        ops_wf(ops, bound),
    ensures
        ops_result(ops, m) matches OpsOut::Use(u, _) ==> 0 <= u < bound,
    decreases ops, 1int,
{
    reveal(crate::ops::ops_result);
    if ops.len() > 0 {
        match ops.first() {
            LoadedOp::Branch(c, t, e) => {
                assert(op_wf(ops.first(), bound));
                let chosen = if crate::ops::cond_model(c, m) {
                    t@
                } else {
                    e@
                };
                assert(decreases_to!(ops => ops.first()));
                assert(decreases_to!(ops.first() => ops.first()->Branch_1));
                assert(decreases_to!(ops.first()->Branch_1 => ops.first()->Branch_1@));
                assert(decreases_to!(ops.first() => ops.first()->Branch_2));
                assert(decreases_to!(ops.first()->Branch_2 => ops.first()->Branch_2@));
                lemma_ops_result_use_bound(chosen, m, bound);
                match crate::ops::ops_result(chosen, m) {
                    OpsOut::Fallthrough(m2) => {
                        lemma_ops_result_use_bound(ops.drop_first(), m2, bound);
                    },
                    _ => {},
                }
            },
            op => {
                assert(op_wf(ops.first(), bound));
                match crate::ops::op_step(op, m) {
                    Ok(m2) => {
                        lemma_ops_result_use_bound(ops.drop_first(), m2, bound);
                    },
                    Err(_) => {},
                }
            },
        }
    }
}

/// What one interpreter step decided.
pub enum StepDir {
    /// A terminal response.
    Resp(HttpResponse),
    /// Dispatch to this arena index after flushing the context.
    Go(usize),
    /// Keep walking this router's rules.
    Again,
}

/// One step of the rule cursor: evaluate the guard, then the current
/// rule, and advance the cursor or decide the request.
#[verifier::rlimit(100)]
#[verifier::spinoff_prover]
fn router_step(
    rt: &LoadedRouter,
    ctx: &mut RouterCtx,
    ri: &mut usize,
    step: &mut u32,
    Ghost(arena): Ghost<Seq<LoadedService>>,
    Ghost(idx): Ghost<int>,
) -> (r: StepDir)
    requires
        0 <= idx < arena.len(),
        arena_wf(arena),
        arena[idx] is Router,
        arena[idx]->Router_0 == *rt,
        *old(ri) <= rt.rules@.len(),
        *old(step) <= rt.max_steps,
    ensures
        *final(ri) <= rt.rules@.len(),
        *final(step) <= rt.max_steps,
        match r {
            StepDir::Again => {
                &&& rules_walk(
                    arena,
                    idx,
                    final(ctx).model(),
                    (*final(ri)) as int,
                    (*final(step)) as int,
                ) == rules_walk(
                    arena,
                    idx,
                    old(ctx).model(),
                    (*old(ri)) as int,
                    (*old(step)) as int,
                )
                &&& (*final(step) > *old(step) || (*final(step) == *old(step) && *final(ri) > *old(ri)))
            },
            StepDir::Resp(resp) => rules_walk(
                arena,
                idx,
                old(ctx).model(),
                (*old(ri)) as int,
                (*old(step)) as int,
            ) == RouteOut::Resp(resp.model()),
            StepDir::Go(u) => (u as int) < idx && rules_walk(
                arena,
                idx,
                old(ctx).model(),
                (*old(ri)) as int,
                (*old(step)) as int,
            ) == route_model(arena, u as int, reenter_model(final(ctx).model())),
        },
{
    proof {
        reveal(crate::route::rules_walk);
    }
    if *step >= rt.max_steps {
        let resp = make_error_resp(508, "router steps exceeded");
        proof {
            assert(resp.model() =~~= loop_detected_model());
        }
        return StepDir::Resp(resp);
    }
    if *ri >= rt.rules.len() {
        match &rt.next {
            Some(n) => {
                proof {
                    assert(svc_wf(arena[idx], idx));
                }
                return StepDir::Go(*n);
            },
            None => {
                let resp = make_error_resp(404, "no route matched");
                proof {
                    assert(resp.model() =~~= not_found_model());
                }
                return StepDir::Resp(resp);
            },
        }
    }
    let rule = &rt.rules[*ri];
    proof {
        assert(rt.rules@[(*old(ri)) as int] == *rule);
    }
    let ghost m_before = ctx.model();
    let mr = matches_rule(&rule.when, ctx);
    match mr {
        MatchResult::NoMatch => {
            *ri = *ri + 1;
            StepDir::Again
        },
        MatchResult::Match => {
            let ghost m_matched = ctx.model();
            let out = run_ops(&rule.ops, ctx);
            proof {
                assert(ops_result(rule.ops@, m_matched) == outcome_model(out, ctx.model()));
            }
            match out {
                OpOutcome::Respond(resp) => StepDir::Resp(resp),
                OpOutcome::Restart => {
                    *step = *step + 1;
                    *ri = 0;
                    StepDir::Again
                },
                OpOutcome::UseService(u) => {
                    proof {
                        assert(svc_wf(arena[idx], idx));
                        assert(ops_wf(rt.rules@[(*old(ri)) as int].ops@, idx));
                        lemma_ops_result_use_bound(
                            rt.rules@[(*old(ri)) as int].ops@,
                            m_matched,
                            idx,
                        );
                    }
                    StepDir::Go(u)
                },
                OpOutcome::Fallthrough => {
                    match rule.on_match {
                        OnMatch::Stop => {
                            match &rt.next {
                                Some(n) => {
                                    proof {
                                        assert(svc_wf(arena[idx], idx));
                                    }
                                    StepDir::Go(*n)
                                },
                                None => {
                                    let resp = make_error_resp(404, "no route matched");
                                    proof {
                                        assert(resp.model() =~~= not_found_model());
                                    }
                                    StepDir::Resp(resp)
                                },
                            }
                        },
                        OnMatch::Continue => {
                            *ri = *ri + 1;
                            StepDir::Again
                        },
                        OnMatch::Restart => {
                            *step = *step + 1;
                            *ri = 0;
                            StepDir::Again
                        },
                    }
                },
            }
        },
    }
}

/// Handle one request at an arena index: exactly `route_model`.
#[verifier::rlimit(100)]
#[verifier::spinoff_prover]
pub fn route_request(bc: &BuildCache, idx: usize, ctx: RouterCtx) -> (r: RouteOutcome)
    requires
        bc.wf(),
        idx < bc.services@.len(),
    ensures
        route_out_model(r) == route_model(bc.services@, idx as int, ctx.model()),
    decreases idx,
{
    let ghost arena = bc.services@;
    let ghost m_entry = ctx.model();
    match &bc.services[idx] {
        LoadedService::Router(rt) => {
            proof {
                assert(arena_wf(arena));
                assert(arena[idx as int] is Router);
                assert(arena[idx as int]->Router_0 == *rt);
            }
            let mut cur = ctx;
            let mut ri: usize = 0;
            let mut step: u32 = 0;
            proof {
                assert(cur.model() == m_entry);
                assert(route_model(arena, idx as int, m_entry) == rules_walk(
                    arena,
                    idx as int,
                    m_entry,
                    0,
                    0,
                ));
            }
            loop
                invariant
                    m_entry == ctx.model(),
                    bc.wf(),
                    idx < bc.services@.len(),
                    arena == bc.services@,
                    arena_wf(arena),
                    arena[idx as int] is Router,
                    arena[idx as int]->Router_0 == *rt,
                    step <= rt.max_steps,
                    ri <= rt.rules@.len(),
                    rules_walk(arena, idx as int, cur.model(), ri as int, step as int)
                        == route_model(arena, idx as int, m_entry),
                decreases (rt.max_steps - step) as int, (rt.rules@.len() - ri) as int,
            {
                let dir = router_step(
                    rt,
                    &mut cur,
                    &mut ri,
                    &mut step,
                    Ghost(arena),
                    Ghost(idx as int),
                );
                match dir {
                    StepDir::Again => {},
                    StepDir::Resp(resp) => {
                        return RouteOutcome::Response(resp);
                    },
                    StepDir::Go(u) => {
                        let newctx = reenter_ctx(&cur);
                        return route_request(bc, u, newctx);
                    },
                }
            }
        },
        _ => {
            proof {
                assert(route_model(arena, idx as int, m_entry) == RouteOut::Dispatch(
                    idx as int,
                    m_entry,
                ));
            }
            RouteOutcome::Dispatch(idx, ctx)
        },
    }
}

} // verus!
