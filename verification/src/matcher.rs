//! Evaluating a compiled match clause against the request context.
//! Sub-conditions run in order; a matching sub-condition writes its
//! named captures into the context even when a later one fails — the
//! accumulation is best effort and never rolled back.

use vstd::prelude::*;

use crate::builder::{
    CompiledCookieCond, CompiledHeaderCond, CompiledQueryCond, CompiledRouterMatch,
};
use crate::httptypes::{HttpMethod, Scheme};
use crate::kvlist::{mv_get, sv_extend_s, sv_get};
use crate::pattern_match::{captures_model, regex_is_match, CaptureMap};
use crate::router_ctx::{CtxModel, RouterCtx};

verus! {

/// Whether a rule matched.
#[derive(Debug, PartialEq, Eq, Structural)]
pub enum MatchResult {
    Match,
    NoMatch,
}

/// The context with its capture map replaced.
pub open spec fn ctx_with_caps(m: CtxModel, caps: Seq<(Seq<char>, Seq<char>)>) -> CtxModel {
    CtxModel {
        method: m.method,
        scheme: m.scheme,
        host: m.host,
        port: m.port,
        path: m.path,
        query: m.query,
        headers: m.headers,
        cookies: m.cookies,
        captures: caps,
    }
}

/// One pattern test against a single subject: on a match, merge its
/// captures into the context.
pub open spec fn pat_step(src: Seq<char>, names: Seq<Seq<char>>, subject: Seq<char>, m: CtxModel) -> Result<
    CtxModel,
    CtxModel,
> {
    if regex_is_match(src, subject) {
        Ok(ctx_with_caps(m, sv_extend_s(m.captures, captures_model(src, names, subject))))
    } else {
        Err(m)
    }
}

/// The host condition.
pub open spec fn host_step(cm: CompiledRouterMatch, m: CtxModel) -> Result<CtxModel, CtxModel> {
    match cm.host {
        None => Ok(m),
        Some(p) => pat_step(p.src(), p.names_view(), m.host, m),
    }
}

/// The path condition.
pub open spec fn path_step(cm: CompiledRouterMatch, m: CtxModel) -> Result<CtxModel, CtxModel> {
    match cm.path {
        None => Ok(m),
        Some(p) => pat_step(p.src(), p.names_view(), m.path, m),
    }
}

/// The scheme condition: the request's scheme text must equal the
/// required scheme's name (an absent scheme counts as empty).
pub open spec fn scheme_step(cm: CompiledRouterMatch, m: CtxModel) -> Result<CtxModel, CtxModel> {
    match cm.scheme {
        None => Ok(m),
        Some(sch) => {
            let s = match m.scheme {
                Some(x) => x,
                None => Seq::empty(),
            };
            if s == sch.spec_name() {
                Ok(m)
            } else {
                Err(m)
            }
        },
    }
}

/// The method condition: with a non-empty method list, the request
/// method must be known and listed.
pub open spec fn methods_step(cm: CompiledRouterMatch, m: CtxModel) -> Result<CtxModel, CtxModel> {
    if cm.methods@.len() == 0 {
        Ok(m)
    } else {
        match m.method {
            Some(mm) => if cm.methods@.contains(mm) {
                Ok(m)
            } else {
                Err(m)
            },
            None => Err(m),
        }
    }
}

/// Some value in the list matches the pattern.
pub open spec fn any_match(src: Seq<char>, vals: Seq<Seq<char>>) -> bool {
    exists|i: int| 0 <= i < vals.len() && regex_is_match(src, #[trigger] vals[i])
}

/// One header condition: some value must match (or none, if negated);
/// a matching first value contributes its captures.
pub open spec fn header_step(hc: CompiledHeaderCond, m: CtxModel) -> Result<CtxModel, CtxModel> {
    let vals = match mv_get(m.headers, hc.name@) {
        Some(vs) => vs,
        None => Seq::empty(),
    };
    let matched = any_match(hc.pattern.src(), vals);
    let ok = if hc.not {
        !matched
    } else {
        matched
    };
    if !ok {
        Err(m)
    } else if vals.len() > 0 && regex_is_match(hc.pattern.src(), vals.first()) {
        Ok(
            ctx_with_caps(
                m,
                sv_extend_s(
                    m.captures,
                    captures_model(hc.pattern.src(), hc.pattern.names_view(), vals.first()),
                ),
            ),
        )
    } else {
        Ok(m)
    }
}

/// The header conditions, in order.
pub open spec fn headers_fold(conds: Seq<CompiledHeaderCond>, m: CtxModel) -> Result<
    CtxModel,
    CtxModel,
>
    decreases conds.len(),
{
    if conds.len() == 0 {
        Ok(m)
    } else {
        match header_step(conds.first(), m) {
            Ok(m2) => headers_fold(conds.drop_first(), m2),
            Err(m2) => Err(m2),
        }
    }
}

/// One query condition, like a header condition but case-sensitive.
pub open spec fn query_step(qc: CompiledQueryCond, m: CtxModel) -> Result<CtxModel, CtxModel> {
    let vals = match mv_get(m.query, qc.key@) {
        Some(vs) => vs,
        None => Seq::empty(),
    };
    let matched = any_match(qc.pattern.src(), vals);
    let ok = if qc.not {
        !matched
    } else {
        matched
    };
    if !ok {
        Err(m)
    } else if vals.len() > 0 && regex_is_match(qc.pattern.src(), vals.first()) {
        Ok(
            ctx_with_caps(
                m,
                sv_extend_s(
                    m.captures,
                    captures_model(qc.pattern.src(), qc.pattern.names_view(), vals.first()),
                ),
            ),
        )
    } else {
        Ok(m)
    }
}

pub open spec fn queries_fold(conds: Seq<CompiledQueryCond>, m: CtxModel) -> Result<
    CtxModel,
    CtxModel,
>
    decreases conds.len(),
{
    if conds.len() == 0 {
        Ok(m)
    } else {
        match query_step(conds.first(), m) {
            Ok(m2) => queries_fold(conds.drop_first(), m2),
            Err(m2) => Err(m2),
        }
    }
}

/// One cookie condition: the cookie's value (or empty) must match.
pub open spec fn cookie_step(cc: CompiledCookieCond, m: CtxModel) -> Result<CtxModel, CtxModel> {
    let val = match sv_get(m.cookies, cc.name@) {
        Some(v) => v,
        None => Seq::empty(),
    };
    let matched = regex_is_match(cc.pattern.src(), val);
    let ok = if cc.not {
        !matched
    } else {
        matched
    };
    if !ok {
        Err(m)
    } else if regex_is_match(cc.pattern.src(), val) {
        Ok(
            ctx_with_caps(
                m,
                sv_extend_s(
                    m.captures,
                    captures_model(cc.pattern.src(), cc.pattern.names_view(), val),
                ),
            ),
        )
    } else {
        Ok(m)
    }
}

pub open spec fn cookies_fold(conds: Seq<CompiledCookieCond>, m: CtxModel) -> Result<
    CtxModel,
    CtxModel,
>
    decreases conds.len(),
{
    if conds.len() == 0 {
        Ok(m)
    } else {
        match cookie_step(conds.first(), m) {
            Ok(m2) => cookies_fold(conds.drop_first(), m2),
            Err(m2) => Err(m2),
        }
    }
}

/// The whole match clause against a context: host, path, scheme,
/// methods, then the header, query and cookie conditions in order.
/// The context carries whatever captures accumulated up to the first
/// failure.
#[verifier::opaque]
pub open spec fn match_model(cm: CompiledRouterMatch, m: CtxModel) -> (bool, CtxModel) {
    match host_step(cm, m) {
        Err(m2) => (false, m2),
        Ok(m2) => match path_step(cm, m2) {
            Err(m3) => (false, m3),
            Ok(m3) => match scheme_step(cm, m3) {
                Err(m4) => (false, m4),
                Ok(m4) => match methods_step(cm, m4) {
                    Err(m5) => (false, m5),
                    Ok(m5) => match headers_fold(cm.headers@, m5) {
                        Err(m6) => (false, m6),
                        Ok(m6) => match queries_fold(cm.queries@, m6) {
                            Err(m7) => (false, m7),
                            Ok(m7) => match cookies_fold(cm.cookies@, m7) {
                                Err(m8) => (false, m8),
                                Ok(m8) => (true, m8),
                            },
                        },
                    },
                },
            },
        },
    }
}

/// Merge a capture map into the context's captures.
fn extend_captures(ctx: &mut RouterCtx, caps: &CaptureMap)
    ensures
        final(ctx).model() == ctx_with_caps(
            old(ctx).model(),
            sv_extend_s(old(ctx).model().captures, caps.pairs.deep_view()),
        ),
{
    ctx.captures.extend_pairs(&caps.pairs);
}


/// Evaluate one header condition, mutating captures on a match.
fn do_header_step(hc: &CompiledHeaderCond, ctx: &mut RouterCtx) -> (r: bool)
    ensures
        r ==> header_step(*hc, old(ctx).model()) == Ok::<CtxModel, CtxModel>(final(ctx).model()),
        !r ==> header_step(*hc, old(ctx).model()) == Err::<CtxModel, CtxModel>(
            final(ctx).model(),
        ),
{
    let ghost cur = ctx.model();
    let ghost svals: Seq<Seq<char>> = match mv_get(cur.headers, hc.name@) {
        Some(vs) => vs,
        None => Seq::empty(),
    };
    let empty_vals: Vec<String> = Vec::new();
    proof {
        assert(empty_vals.deep_view() =~= Seq::<Seq<char>>::empty());
    }
    let found = ctx.headers.get_all(hc.name.as_str());
    let vals: &Vec<String> = match found {
        Some(vs) => vs,
        None => &empty_vals,
    };
    proof {
        assert(svals == vals.deep_view());
    }
    let mut matched = false;
    let mut vi: usize = 0;
    while vi < vals.len()
        invariant
            vi <= vals@.len(),
            svals == vals.deep_view(),
            svals.len() == vals@.len(),
            matched == exists|i: int|
                0 <= i < vi && regex_is_match(hc.pattern.src(), #[trigger] svals[i]),
        decreases vals@.len() - vi,
    {
        if hc.pattern.is_match(vals[vi].as_str()) {
            proof {
                assert(regex_is_match(hc.pattern.src(), svals[vi as int]));
            }
            matched = true;
        }
        vi += 1;
    }
    proof {
        assert(matched == any_match(hc.pattern.src(), svals));
    }
    let ok = if hc.not {
        !matched
    } else {
        matched
    };
    if !ok {
        proof {
            assert(cur == old(ctx).model());
            assert(ctx.model() == cur);
            assert(header_step(*hc, cur) == Err::<CtxModel, CtxModel>(cur));
        }
        return false;
    }
    if vals.len() > 0 {
        let subject = vals[0].clone();
        match hc.pattern.captures_map(subject.as_str()) {
            Some(caps) => {
                proof {
                    assert(regex_is_match(hc.pattern.src(), svals.first()));
                    assert(caps.pairs.deep_view() == captures_model(
                        hc.pattern.src(),
                        hc.pattern.names_view(),
                        svals.first(),
                    ));
                }
                extend_captures(ctx, &caps);
            },
            None => {
                proof {
                    assert(!regex_is_match(hc.pattern.src(), svals.first()));
                }
            },
        }
    }
    true
}

/// Evaluate one query condition, mutating captures on a match.
fn do_query_step(qc: &CompiledQueryCond, ctx: &mut RouterCtx) -> (r: bool)
    ensures
        r ==> query_step(*qc, old(ctx).model()) == Ok::<CtxModel, CtxModel>(final(ctx).model()),
        !r ==> query_step(*qc, old(ctx).model()) == Err::<CtxModel, CtxModel>(final(ctx).model()),
{
    let ghost cur = ctx.model();
    let ghost svals: Seq<Seq<char>> = match mv_get(cur.query, qc.key@) {
        Some(vs) => vs,
        None => Seq::empty(),
    };
    let empty_vals: Vec<String> = Vec::new();
    proof {
        assert(empty_vals.deep_view() =~= Seq::<Seq<char>>::empty());
    }
    let found = ctx.query.get_all(qc.key.as_str());
    let vals: &Vec<String> = match found {
        Some(vs) => vs,
        None => &empty_vals,
    };
    proof {
        assert(svals == vals.deep_view());
    }
    let mut matched = false;
    let mut vi: usize = 0;
    while vi < vals.len()
        invariant
            vi <= vals@.len(),
            svals == vals.deep_view(),
            svals.len() == vals@.len(),
            matched == exists|i: int|
                0 <= i < vi && regex_is_match(qc.pattern.src(), #[trigger] svals[i]),
        decreases vals@.len() - vi,
    {
        if qc.pattern.is_match(vals[vi].as_str()) {
            proof {
                assert(regex_is_match(qc.pattern.src(), svals[vi as int]));
            }
            matched = true;
        }
        vi += 1;
    }
    proof {
        assert(matched == any_match(qc.pattern.src(), svals));
    }
    let ok = if qc.not {
        !matched
    } else {
        matched
    };
    if !ok {
        return false;
    }
    if vals.len() > 0 {
        let subject = vals[0].clone();
        match qc.pattern.captures_map(subject.as_str()) {
            Some(caps) => {
                proof {
                    assert(regex_is_match(qc.pattern.src(), svals.first()));
                    assert(caps.pairs.deep_view() == captures_model(
                        qc.pattern.src(),
                        qc.pattern.names_view(),
                        svals.first(),
                    ));
                }
                extend_captures(ctx, &caps);
            },
            None => {
                proof {
                    assert(!regex_is_match(qc.pattern.src(), svals.first()));
                }
            },
        }
    }
    true
}

/// Evaluate one cookie condition, mutating captures on a match.
fn do_cookie_step(cc: &CompiledCookieCond, ctx: &mut RouterCtx) -> (r: bool)
    ensures
        r ==> cookie_step(*cc, old(ctx).model()) == Ok::<CtxModel, CtxModel>(final(ctx).model()),
        !r ==> cookie_step(*cc, old(ctx).model()) == Err::<CtxModel, CtxModel>(
            final(ctx).model(),
        ),
{
    let ghost cur = ctx.model();
    let ghost sval: Seq<char> = match sv_get(cur.cookies, cc.name@) {
        Some(v) => v,
        None => Seq::empty(),
    };
    let val: String = match ctx.cookies.get(cc.name.as_str()) {
        Some(v) => v.clone(),
        None => String::new(),
    };
    proof {
        assert(sval =~= val@);
    }
    let matched = cc.pattern.is_match(val.as_str());
    let ok = if cc.not {
        !matched
    } else {
        matched
    };
    if !ok {
        return false;
    }
    match cc.pattern.captures_map(val.as_str()) {
        Some(caps) => {
            proof {
                assert(regex_is_match(cc.pattern.src(), sval));
                assert(caps.pairs.deep_view() == captures_model(
                    cc.pattern.src(),
                    cc.pattern.names_view(),
                    sval,
                ));
            }
            extend_captures(ctx, &caps);
        },
        None => {
            proof {
                assert(!regex_is_match(cc.pattern.src(), sval));
            }
        },
    }
    true
}

/// Is the request method one of the listed ones?
fn method_listed(methods: &Vec<HttpMethod>, m: HttpMethod) -> (r: bool)
    ensures
        r == methods@.contains(m),
{
    let mut i: usize = 0;
    while i < methods.len()
        invariant
            i <= methods@.len(),
            forall|j: int| 0 <= j < i ==> methods@[j] != m,
        decreases methods@.len() - i,
    {
        if methods[i] == m {
            assert(methods@[i as int] == m);
            return true;
        }
        i += 1;
    }
    false
}

/// Evaluate a compiled match clause, accumulating captures into the
/// context exactly as `match_model` says.
#[verifier::rlimit(100)]
pub fn matches_rule(m: &CompiledRouterMatch, ctx: &mut RouterCtx) -> (r: MatchResult)
    ensures
        match r {
            MatchResult::Match => match_model(*m, old(ctx).model()) == (
                true,
                final(ctx).model(),
            ),
            MatchResult::NoMatch => match_model(*m, old(ctx).model()) == (
                false,
                final(ctx).model(),
            ),
        },
{
    proof {
        reveal(crate::matcher::match_model);
    }
    match &m.host {
        Some(pat) => {
            match pat.captures_map(ctx.host.clone().as_str()) {
                Some(caps) => {
                    extend_captures(ctx, &caps);
                },
                None => {
                    return MatchResult::NoMatch;
                },
            }
        },
        None => {},
    }
    match &m.path {
        Some(pat) => {
            match pat.captures_map(ctx.path.clone().as_str()) {
                Some(caps) => {
                    extend_captures(ctx, &caps);
                },
                None => {
                    return MatchResult::NoMatch;
                },
            }
        },
        None => {},
    }
    match &m.scheme {
        Some(sch) => {
            let s: String = match &ctx.scheme {
                Some(x) => x.clone(),
                None => String::new(),
            };
            if !crate::strutil::str_eq(s.as_str(), sch.name()) {
                return MatchResult::NoMatch;
            }
        },
        None => {},
    }
    if m.methods.len() > 0 {
        match ctx.method {
            Some(mm) => {
                if !method_listed(&m.methods, mm) {
                    return MatchResult::NoMatch;
                }
            },
            None => {
                return MatchResult::NoMatch;
            },
        }
    }
    let ghost m5 = ctx.model();
    let mut hi: usize = 0;
    proof {
        assert(m.headers@.skip(0) =~= m.headers@);
    }
    while hi < m.headers.len()
        invariant
            hi <= m.headers@.len(),
            headers_fold(m.headers@, m5) == headers_fold(
                m.headers@.skip(hi as int),
                ctx.model(),
            ),
            match_model(*m, old(ctx).model()) == match headers_fold(m.headers@, m5) {
                Err(mx) => (false, mx),
                Ok(mx) => match queries_fold(m.queries@, mx) {
                    Err(my) => (false, my),
                    Ok(my) => match cookies_fold(m.cookies@, my) {
                        Err(mz) => (false, mz),
                        Ok(mz) => (true, mz),
                    },
                },
            },
        decreases m.headers@.len() - hi,
    {
        let ghost rem = m.headers@.skip(hi as int);
        proof {
            assert(rem.first() == m.headers@[hi as int]);
            assert(rem.drop_first() =~= m.headers@.skip(hi as int + 1));
        }
        let ok = do_header_step(&m.headers[hi], ctx);
        if !ok {
            return MatchResult::NoMatch;
        }
        hi += 1;
    }
    let ghost m6 = ctx.model();
    let mut qi: usize = 0;
    proof {
        assert(m.queries@.skip(0) =~= m.queries@);
    }
    while qi < m.queries.len()
        invariant
            qi <= m.queries@.len(),
            queries_fold(m.queries@, m6) == queries_fold(
                m.queries@.skip(qi as int),
                ctx.model(),
            ),
            match_model(*m, old(ctx).model()) == match queries_fold(m.queries@, m6) {
                Err(my) => (false, my),
                Ok(my) => match cookies_fold(m.cookies@, my) {
                    Err(mz) => (false, mz),
                    Ok(mz) => (true, mz),
                },
            },
        decreases m.queries@.len() - qi,
    {
        let ghost rem = m.queries@.skip(qi as int);
        proof {
            assert(rem.first() == m.queries@[qi as int]);
            assert(rem.drop_first() =~= m.queries@.skip(qi as int + 1));
        }
        let ok = do_query_step(&m.queries[qi], ctx);
        if !ok {
            return MatchResult::NoMatch;
        }
        qi += 1;
    }
    let ghost m7 = ctx.model();
    let mut ci: usize = 0;
    proof {
        assert(m.cookies@.skip(0) =~= m.cookies@);
    }
    while ci < m.cookies.len()
        invariant
            ci <= m.cookies@.len(),
            cookies_fold(m.cookies@, m7) == cookies_fold(
                m.cookies@.skip(ci as int),
                ctx.model(),
            ),
            match_model(*m, old(ctx).model()) == match cookies_fold(m.cookies@, m7) {
                Err(mz) => (false, mz),
                Ok(mz) => (true, mz),
            },
        decreases m.cookies@.len() - ci,
    {
        let ghost rem = m.cookies@.skip(ci as int);
        proof {
            assert(rem.first() == m.cookies@[ci as int]);
            assert(rem.drop_first() =~= m.cookies@.skip(ci as int + 1));
        }
        let ok = do_cookie_step(&m.cookies[ci], ctx);
        if !ok {
            return MatchResult::NoMatch;
        }
        ci += 1;
    }
    proof {
        assert(m.headers@.skip(m.headers@.len() as int).len() == 0);
        assert(m.queries@.skip(m.queries@.len() as int).len() == 0);
        assert(m.cookies@.skip(m.cookies@.len() as int).len() == 0);
    }
    MatchResult::Match
}

} // verus!
