//! Executing a matched rule's compiled operations.  Branch nesting is
//! walked with an explicit work stack of (operation-list, position)
//! frames, so interpreter call depth never grows with nesting; the
//! meaning of a list is the recursive `ops_result`.

use vstd::prelude::*;

use crate::builder::{CompiledBasicCond, CompiledCondNode, CompiledTestCond, LoadedOp};
use crate::config_types::CondValue;
use crate::httptypes::{make_error_resp, HttpResponse, RespModel};
use crate::kvlist::{mm_add_s, mm_set_s, remove_key_model};
use crate::router_ctx::{value_model, value_of, CtxModel, RouterCtx};
use crate::strutil::{ascii_lower, lower_seq, str_eq};
use crate::template::{expand_template, render_parts, CompiledTemplate};

verus! {

/// Does the comparison value equal this request value?  Only a
/// string-valued comparand can ever match.
pub open spec fn cv_matches(cv: CondValue, x: Seq<char>) -> bool {
    match cv {
        CondValue::Str(s) => s@ == x,
        CondValue::Other => false,
    }
}

/// Is the request value one of the listed comparison values?
pub open spec fn in_list(vals: Seq<CondValue>, x: Seq<char>) -> bool
    decreases vals.len(),
{
    if vals.len() == 0 {
        false
    } else {
        cv_matches(vals.first(), x) || in_list(vals.drop_first(), x)
    }
}

/// One elementary test against the context.
pub open spec fn test_model(t: CompiledTestCond, m: CtxModel) -> bool {
    let v = value_model(m, t.var@);
    match t.cond {
        CompiledBasicCond::Equals(is) => match v {
            Some(x) => cv_matches(is, x),
            None => false,
        },
        CompiledBasicCond::In(vals) => match v {
            Some(x) => in_list(vals@, x),
            None => false,
        },
        CompiledBasicCond::Present(p) => (v is Some) == p,
        CompiledBasicCond::Pattern(pat) => match v {
            Some(x) => crate::pattern_match::regex_is_match(pat.src(), x),
            None => false,
        },
    }
}

/// A condition tree against the context: `All` of none is true, `Any`
/// of none is false.
pub open spec fn cond_model(c: CompiledCondNode, m: CtxModel) -> bool
    decreases c,
{
    match c {
        CompiledCondNode::All(xs) => all_model(xs@, m),
        CompiledCondNode::Any(xs) => any_model(xs@, m),
        CompiledCondNode::Not(x) => !cond_model(*x, m),
        CompiledCondNode::Test(t) => test_model(t, m),
    }
}

pub open spec fn all_model(xs: Seq<CompiledCondNode>, m: CtxModel) -> bool
    decreases xs,
{
    if xs.len() == 0 {
        true
    } else {
        cond_model(xs.first(), m) && all_model(xs.drop_first(), m)
    }
}

pub open spec fn any_model(xs: Seq<CompiledCondNode>, m: CtxModel) -> bool
    decreases xs,
{
    if xs.len() == 0 {
        false
    } else {
        cond_model(xs.first(), m) || any_model(xs.drop_first(), m)
    }
}

/// Test whether the value is one of the listed comparison values.
fn in_list_exec(vals: &Vec<CondValue>, x: &str) -> (r: bool)
    ensures
        r == in_list(vals@, x@),
{
    let mut i: usize = 0;
    proof {
        assert(vals@.skip(0) =~= vals@);
    }
    while i < vals.len()
        invariant
            i <= vals@.len(),
            in_list(vals@, x@) == in_list(vals@.skip(i as int), x@),
        decreases vals@.len() - i,
    {
        let ghost rem = vals@.skip(i as int);
        proof {
            assert(rem.first() == vals@[i as int]);
            assert(rem.drop_first() =~= vals@.skip(i as int + 1));
        }
        match &vals[i] {
            CondValue::Str(s) => {
                if str_eq(s.as_str(), x) {
                    return true;
                }
            },
            CondValue::Other => {},
        }
        i += 1;
    }
    proof {
        assert(vals@.skip(vals@.len() as int).len() == 0);
    }
    false
}

/// Evaluate a condition tree against the context.
pub fn eval_cond(c: &CompiledCondNode, ctx: &RouterCtx) -> (r: bool)
    ensures
        r == cond_model(*c, ctx.model()),
    decreases *c,
{
    match c {
        CompiledCondNode::All(xs) => {
            let mut i: usize = 0;
            proof {
                assert(xs@.skip(0) =~= xs@);
            }
            while i < xs.len()
                invariant
                    i <= xs@.len(),
                    *c matches CompiledCondNode::All(x2) && x2 == *xs,
                    all_model(xs@, ctx.model()) == all_model(xs@.skip(i as int), ctx.model()),
                decreases xs@.len() - i,
            {
                let ghost rem = xs@.skip(i as int);
                proof {
                    assert(rem.first() == xs@[i as int]);
                    assert(rem.drop_first() =~= xs@.skip(i as int + 1));
                    assert(c->All_0 == *xs);
                    assert(decreases_to!(*c => c->All_0));
                    assert(decreases_to!(c->All_0 => c->All_0@));
                    assert(decreases_to!(c->All_0@ => c->All_0@[i as int]));
                }
                if !eval_cond(&xs[i], ctx) {
                    return false;
                }
                i += 1;
            }
            proof {
                assert(xs@.skip(xs@.len() as int).len() == 0);
            }
            true
        },
        CompiledCondNode::Any(xs) => {
            let mut i: usize = 0;
            proof {
                assert(xs@.skip(0) =~= xs@);
            }
            while i < xs.len()
                invariant
                    i <= xs@.len(),
                    *c matches CompiledCondNode::Any(x2) && x2 == *xs,
                    any_model(xs@, ctx.model()) == any_model(xs@.skip(i as int), ctx.model()),
                decreases xs@.len() - i,
            {
                let ghost rem = xs@.skip(i as int);
                proof {
                    assert(rem.first() == xs@[i as int]);
                    assert(rem.drop_first() =~= xs@.skip(i as int + 1));
                    assert(c->Any_0 == *xs);
                    assert(decreases_to!(*c => c->Any_0));
                    assert(decreases_to!(c->Any_0 => c->Any_0@));
                    assert(decreases_to!(c->Any_0@ => c->Any_0@[i as int]));
                }
                if eval_cond(&xs[i], ctx) {
                    return true;
                }
                i += 1;
            }
            proof {
                assert(xs@.skip(xs@.len() as int).len() == 0);
            }
            false
        },
        CompiledCondNode::Not(x) => !eval_cond(x, ctx),
        CompiledCondNode::Test(t) => {
            let v = value_of(ctx, t.var.as_str());
            match &t.cond {
                CompiledBasicCond::Equals(is) => match (&v, is) {
                    (Some(x), CondValue::Str(s)) => str_eq(s.as_str(), x.as_str()),
                    _ => false,
                },
                CompiledBasicCond::In(vals) => match &v {
                    Some(x) => in_list_exec(vals, x.as_str()),
                    None => false,
                },
                CompiledBasicCond::Present(p) => {
                    let has = match &v {
                        Some(_) => true,
                        None => false,
                    };
                    has == *p
                },
                CompiledBasicCond::Pattern(pat) => match &v {
                    Some(x) => pat.is_match(x.as_str()),
                    None => false,
                },
            }
        },
    }
}

/// What a run of operations produces.
pub enum OpsOut {
    /// The list ran out; the rule's on-match policy applies.
    Fallthrough(CtxModel),
    /// An internal rewrite: restart at the first rule.
    Restart(CtxModel),
    /// A terminal response.
    Respond(RespModel, CtxModel),
    /// Dispatch to the service at this arena index.
    Use(int, CtxModel),
}

/// The context with its header map replaced.
pub open spec fn with_headers(m: CtxModel, h: Seq<(Seq<char>, Seq<Seq<char>>)>) -> CtxModel {
    CtxModel { headers: h, ..m }
}

/// The context with its query map replaced.
pub open spec fn with_query(m: CtxModel, q: Seq<(Seq<char>, Seq<Seq<char>>)>) -> CtxModel {
    CtxModel { query: q, ..m }
}

/// The context after one setter operation, or the terminal outcome.
pub open spec fn op_step(op: LoadedOp, m: CtxModel) -> Result<CtxModel, OpsOut> {
    match op {
        LoadedOp::SetScheme(s) => Ok(
            CtxModel { scheme: Some(s.spec_name()), ..m },
        ),
        LoadedOp::SetHost(t) => Ok(CtxModel { host: render_parts(t.model(), m), ..m }),
        LoadedOp::SetPort(p) => Ok(CtxModel { port: Some(p), ..m }),
        LoadedOp::SetPath(t) => {
            let v = render_parts(t.model(), m);
            if v.len() > 0 && v.first() == '/' {
                Ok(CtxModel { path: v, ..m })
            } else {
                Err(
                    OpsOut::Respond(
                        RespModel {
                            status: 400,
                            headers: Seq::empty(),
                            body: "path must start with '/'"@,
                        },
                        m,
                    ),
                )
            }
        },
        LoadedOp::HeaderSet(pairs) => Ok(
            CtxModel { headers: hdr_set_fold(pairs@, m), ..m },
        ),
        LoadedOp::HeaderAdd(pairs) => Ok(
            CtxModel { headers: hdr_add_fold(pairs@, m), ..m },
        ),
        LoadedOp::HeaderDelete(keys) => Ok(
            CtxModel { headers: hdr_delete_fold(keys@, m.headers), ..m },
        ),
        LoadedOp::HeaderClear => Ok(CtxModel { headers: Seq::empty(), ..m }),
        LoadedOp::QuerySet(pairs) => Ok(CtxModel { query: qry_set_fold(pairs@, m), ..m }),
        LoadedOp::QueryAdd(pairs) => Ok(CtxModel { query: qry_add_fold(pairs@, m), ..m }),
        LoadedOp::QueryDelete(keys) => Ok(
            CtxModel { query: qry_delete_fold(keys@, m.query), ..m },
        ),
        LoadedOp::QueryClear => Ok(CtxModel { query: Seq::empty(), ..m }),
        LoadedOp::InternalRewrite => Err(OpsOut::Restart(m)),
        LoadedOp::Redirect { status, location } => Err(
            OpsOut::Respond(
                RespModel {
                    status: status.spec_status(),
                    headers: seq![("location"@, render_parts(location.model(), m))],
                    body: Seq::empty(),
                },
                m,
            ),
        ),
        LoadedOp::Respond { status, body, headers } => {
            let b = match body {
                Some(t) => render_parts(t.model(), m),
                None => Seq::empty(),
            };
            if 100 <= status <= 999 {
                Err(
                    OpsOut::Respond(
                        RespModel { status, headers: resp_headers(headers@, m), body: b },
                        m,
                    ),
                )
            } else {
                Err(
                    OpsOut::Respond(
                        RespModel {
                            status: 500,
                            headers: Seq::empty(),
                            body: "respond build failed"@,
                        },
                        m,
                    ),
                )
            }
        },
        LoadedOp::Use(i) => Err(OpsOut::Use(i as int, m)),
        LoadedOp::Branch(_, _, _) => Ok(m),  // branches are handled by ops_result
    }
}

/// Header `set` operations, applied in order; every template sees the
/// context as the operation found it.
pub open spec fn hdr_set_fold(pairs: Seq<(String, CompiledTemplate)>, m: CtxModel) -> Seq<
    (Seq<char>, Seq<Seq<char>>),
>
    decreases pairs.len(),
{
    if pairs.len() == 0 {
        m.headers
    } else {
        let prev = hdr_set_fold(pairs.drop_last(), m);
        mm_set_s(
            prev,
            lower_seq(pairs.last().0@),
            render_parts(pairs.last().1.model(), CtxModel { headers: prev, ..m }),
        )
    }
}

pub open spec fn hdr_add_fold(pairs: Seq<(String, CompiledTemplate)>, m: CtxModel) -> Seq<
    (Seq<char>, Seq<Seq<char>>),
>
    decreases pairs.len(),
{
    if pairs.len() == 0 {
        m.headers
    } else {
        let prev = hdr_add_fold(pairs.drop_last(), m);
        mm_add_s(
            prev,
            lower_seq(pairs.last().0@),
            render_parts(pairs.last().1.model(), CtxModel { headers: prev, ..m }),
        )
    }
}

pub open spec fn hdr_delete_fold(
    keys: Seq<String>,
    headers: Seq<(Seq<char>, Seq<Seq<char>>)>,
) -> Seq<(Seq<char>, Seq<Seq<char>>)>
    decreases keys.len(),
{
    if keys.len() == 0 {
        headers
    } else {
        remove_key_model(hdr_delete_fold(keys.drop_last(), headers), lower_seq(keys.last()@))
    }
}

pub open spec fn qry_set_fold(pairs: Seq<(String, CompiledTemplate)>, m: CtxModel) -> Seq<
    (Seq<char>, Seq<Seq<char>>),
>
    decreases pairs.len(),
{
    if pairs.len() == 0 {
        m.query
    } else {
        let prev = qry_set_fold(pairs.drop_last(), m);
        mm_set_s(
            prev,
            pairs.last().0@,
            render_parts(pairs.last().1.model(), CtxModel { query: prev, ..m }),
        )
    }
}

pub open spec fn qry_add_fold(pairs: Seq<(String, CompiledTemplate)>, m: CtxModel) -> Seq<
    (Seq<char>, Seq<Seq<char>>),
>
    decreases pairs.len(),
{
    if pairs.len() == 0 {
        m.query
    } else {
        let prev = qry_add_fold(pairs.drop_last(), m);
        mm_add_s(
            prev,
            pairs.last().0@,
            render_parts(pairs.last().1.model(), CtxModel { query: prev, ..m }),
        )
    }
}

pub open spec fn qry_delete_fold(
    keys: Seq<String>,
    query: Seq<(Seq<char>, Seq<Seq<char>>)>,
) -> Seq<(Seq<char>, Seq<Seq<char>>)>
    decreases keys.len(),
{
    if keys.len() == 0 {
        query
    } else {
        remove_key_model(qry_delete_fold(keys.drop_last(), query), keys.last()@)
    }
}

/// The rendered headers of a `Respond`, in order.
pub open spec fn resp_headers(pairs: Seq<(String, CompiledTemplate)>, m: CtxModel) -> Seq<
    (Seq<char>, Seq<char>),
>
    decreases pairs.len(),
{
    if pairs.len() == 0 {
        Seq::empty()
    } else {
        resp_headers(pairs.drop_last(), m).push(
            (pairs.last().0@, render_parts(pairs.last().1.model(), m)),
        )
    }
}

/// The meaning of an operation list: setters thread the context,
/// terminals end the run, a branch runs one arm and then the rest.
#[verifier::opaque]
pub open spec fn ops_result(ops: Seq<LoadedOp>, m: CtxModel) -> OpsOut
    decreases ops, 1int,
    via ops_result_dec
{
    if ops.len() == 0 {
        OpsOut::Fallthrough(m)
    } else {
        match ops.first() {
            LoadedOp::Branch(c, t, e) => {
                let chosen = if cond_model(c, m) {
                    t@
                } else {
                    e@
                };
                match ops_result(chosen, m) {
                    OpsOut::Fallthrough(m2) => ops_result(ops.drop_first(), m2),
                    other => other,
                }
            },
            op => match op_step(op, m) {
                Ok(m2) => ops_result(ops.drop_first(), m2),
                Err(out) => out,
            },
        }
    }
}

#[via_fn]
proof fn ops_result_dec(ops: Seq<LoadedOp>, m: CtxModel) {
    if ops.len() > 0 {
        match ops.first() {
            LoadedOp::Branch(c, t, e) => {
                assert(decreases_to!(ops => ops.first()));
                assert(decreases_to!(ops.first() => ops.first()->Branch_1));
                assert(decreases_to!(ops.first()->Branch_1 => ops.first()->Branch_1@));
                assert(decreases_to!(ops.first() => ops.first()->Branch_2));
                assert(decreases_to!(ops.first()->Branch_2 => ops.first()->Branch_2@));
            },
            _ => {},
        }
    }
}

/// The exec-side outcome of a run.
#[derive(Debug)]
pub enum OpOutcome {
    Restart,
    Respond(HttpResponse),
    UseService(usize),
    Fallthrough,
}

/// The outcome an exec value stands for, at a given context.
pub open spec fn outcome_model(o: OpOutcome, m: CtxModel) -> OpsOut {
    match o {
        OpOutcome::Restart => OpsOut::Restart(m),
        OpOutcome::Respond(r) => OpsOut::Respond(r.model(), m),
        OpOutcome::UseService(i) => OpsOut::Use(i as int, m),
        OpOutcome::Fallthrough => OpsOut::Fallthrough(m),
    }
}

/// Weight of one operation: branches weigh their arms.
pub open spec fn lop_size(op: LoadedOp) -> nat
    decreases op,
{
    match op {
        LoadedOp::Branch(_, t, e) => 1 + lops_size(t@) + lops_size(e@),
        _ => 1,
    }
}

pub open spec fn lops_size(ops: Seq<LoadedOp>) -> nat
    decreases ops,
{
    if ops.len() == 0 {
        0
    } else {
        1 + lop_size(ops.first()) + lops_size(ops.drop_first())
    }
}

proof fn lemma_lops_skip(s: Seq<LoadedOp>, i: int)
    requires
        0 <= i < s.len(),
    ensures
        lops_size(s.skip(i)) == 1 + lop_size(s[i]) + lops_size(s.skip(i + 1)),
{
    assert(s.skip(i).first() == s[i]);
    assert(s.skip(i).drop_first() =~= s.skip(i + 1));
}

/// Total weight of the remaining frames.
pub open spec fn stack_weight(frames: Seq<Seq<LoadedOp>>) -> nat
    decreases frames.len(),
{
    if frames.len() == 0 {
        0
    } else {
        stack_weight(frames.drop_last()) + lops_size(frames.last())
    }
}

/// What the frame stack computes: the top frame runs first; its
/// fall-through continues in the frame below.
pub open spec fn stack_result(frames: Seq<Seq<LoadedOp>>, m: CtxModel) -> OpsOut
    decreases frames.len(),
{
    if frames.len() == 0 {
        OpsOut::Fallthrough(m)
    } else {
        match ops_result(frames.last(), m) {
            OpsOut::Fallthrough(m2) => stack_result(frames.drop_last(), m2),
            other => other,
        }
    }
}

/// Apply one non-branch operation to the context.
#[verifier::rlimit(100)]
fn apply_op(op: &LoadedOp, ctx: &mut RouterCtx) -> (r: Option<OpOutcome>)
    requires
        !(op is Branch),
    ensures
        match r {
            None => op_step(*op, old(ctx).model()) == Ok::<CtxModel, OpsOut>(final(ctx).model()),
            Some(out) => final(ctx).model() == old(ctx).model() && op_step(*op, old(ctx).model())
                == Err::<CtxModel, OpsOut>(outcome_model(out, old(ctx).model())),
        },
{
    let ghost m0 = ctx.model();
    match op {
        LoadedOp::SetScheme(sch) => {
            ctx.scheme = Some(sch.name().to_owned());
            proof {
                assert(op_step(*op, m0) == Ok::<CtxModel, OpsOut>(ctx.model()));
            }
            None
        },
        LoadedOp::SetHost(t) => {
            let v = expand_template(t, ctx);
            ctx.host = v;
            proof {
                assert(op_step(*op, m0) == Ok::<CtxModel, OpsOut>(ctx.model()));
            }
            None
        },
        LoadedOp::SetPort(p) => {
            ctx.port = Some(*p);
            proof {
                assert(op_step(*op, m0) == Ok::<CtxModel, OpsOut>(ctx.model()));
            }
            None
        },
        LoadedOp::SetPath(t) => {
            let v = expand_template(t, ctx);
            let n = v.unicode_len();
            if n > 0 && v.as_str().get_char(0) == '/' {
                ctx.path = v;
                proof {
                    assert(op_step(*op, m0) == Ok::<CtxModel, OpsOut>(ctx.model()));
                }
                None
            } else {
                Some(OpOutcome::Respond(make_error_resp(400, "path must start with '/'")))
            }
        },
        LoadedOp::HeaderSet(pairs) => {
            let mut i: usize = 0;
            proof {
                assert(hdr_set_fold(pairs@.take(0), m0) == m0.headers);
                assert(ctx.model() == with_headers(m0, hdr_set_fold(pairs@.take(0), m0)));
            }
            while i < pairs.len()
                invariant
                    i <= pairs@.len(),
                    ctx.model() == with_headers(m0, hdr_set_fold(pairs@.take(i as int), m0)),
                decreases pairs@.len() - i,
            {
                let ghost cur = ctx.model();
                let v = expand_template(&pairs[i].1, ctx);
                let k = ascii_lower(pairs[i].0.as_str());
                ctx.headers.set(k, v);
                proof {
                    let t = pairs@.take(i as int + 1);
                    assert(t.drop_last() =~= pairs@.take(i as int));
                    assert(t.last() == pairs@[i as int]);
                    assert(ctx.model() == with_headers(m0, hdr_set_fold(t, m0)));
                }
                i += 1;
            }
            proof {
                assert(pairs@.take(pairs@.len() as int) =~= pairs@);
                assert(op_step(*op, m0) == Ok::<CtxModel, OpsOut>(ctx.model()));
            }
            None
        },
        LoadedOp::HeaderAdd(pairs) => {
            let mut i: usize = 0;
            proof {
                assert(hdr_add_fold(pairs@.take(0), m0) == m0.headers);
                assert(ctx.model() == with_headers(m0, hdr_add_fold(pairs@.take(0), m0)));
            }
            while i < pairs.len()
                invariant
                    i <= pairs@.len(),
                    ctx.model() == with_headers(m0, hdr_add_fold(pairs@.take(i as int), m0)),
                decreases pairs@.len() - i,
            {
                let v = expand_template(&pairs[i].1, ctx);
                let k = ascii_lower(pairs[i].0.as_str());
                ctx.headers.add(k, v);
                proof {
                    let t = pairs@.take(i as int + 1);
                    assert(t.drop_last() =~= pairs@.take(i as int));
                    assert(t.last() == pairs@[i as int]);
                    assert(ctx.model() == with_headers(m0, hdr_add_fold(t, m0)));
                }
                i += 1;
            }
            proof {
                assert(pairs@.take(pairs@.len() as int) =~= pairs@);
                assert(op_step(*op, m0) == Ok::<CtxModel, OpsOut>(ctx.model()));
            }
            None
        },
        LoadedOp::HeaderDelete(keys) => {
            let mut i: usize = 0;
            proof {
                assert(hdr_delete_fold(keys@.take(0), m0.headers) == m0.headers);
                assert(ctx.model() == with_headers(
                    m0,
                    hdr_delete_fold(keys@.take(0), m0.headers),
                ));
            }
            while i < keys.len()
                invariant
                    i <= keys@.len(),
                    ctx.model() == with_headers(
                        m0,
                        hdr_delete_fold(keys@.take(i as int), m0.headers),
                    ),
                decreases keys@.len() - i,
            {
                let k = ascii_lower(keys[i].as_str());
                ctx.headers.remove(k.as_str());
                proof {
                    let t = keys@.take(i as int + 1);
                    assert(t.drop_last() =~= keys@.take(i as int));
                    assert(t.last() == keys@[i as int]);
                    assert(ctx.model() == with_headers(m0, hdr_delete_fold(t, m0.headers)));
                }
                i += 1;
            }
            proof {
                assert(keys@.take(keys@.len() as int) =~= keys@);
                assert(op_step(*op, m0) == Ok::<CtxModel, OpsOut>(ctx.model()));
            }
            None
        },
        LoadedOp::HeaderClear => {
            ctx.headers.clear();
            proof {
                assert(op_step(*op, m0) == Ok::<CtxModel, OpsOut>(ctx.model()));
            }
            None
        },
        LoadedOp::QuerySet(pairs) => {
            let mut i: usize = 0;
            proof {
                assert(qry_set_fold(pairs@.take(0), m0) == m0.query);
                assert(ctx.model() == with_query(m0, qry_set_fold(pairs@.take(0), m0)));
            }
            while i < pairs.len()
                invariant
                    i <= pairs@.len(),
                    ctx.model() == with_query(m0, qry_set_fold(pairs@.take(i as int), m0)),
                decreases pairs@.len() - i,
            {
                let v = expand_template(&pairs[i].1, ctx);
                let k = pairs[i].0.clone();
                ctx.query.set(k, v);
                proof {
                    let t = pairs@.take(i as int + 1);
                    assert(t.drop_last() =~= pairs@.take(i as int));
                    assert(t.last() == pairs@[i as int]);
                    assert(ctx.model() == with_query(m0, qry_set_fold(t, m0)));
                }
                i += 1;
            }
            proof {
                assert(pairs@.take(pairs@.len() as int) =~= pairs@);
                assert(op_step(*op, m0) == Ok::<CtxModel, OpsOut>(ctx.model()));
            }
            None
        },
        LoadedOp::QueryAdd(pairs) => {
            let mut i: usize = 0;
            proof {
                assert(qry_add_fold(pairs@.take(0), m0) == m0.query);
                assert(ctx.model() == with_query(m0, qry_add_fold(pairs@.take(0), m0)));
            }
            while i < pairs.len()
                invariant
                    i <= pairs@.len(),
                    ctx.model() == with_query(m0, qry_add_fold(pairs@.take(i as int), m0)),
                decreases pairs@.len() - i,
            {
                let v = expand_template(&pairs[i].1, ctx);
                let k = pairs[i].0.clone();
                ctx.query.add(k, v);
                proof {
                    let t = pairs@.take(i as int + 1);
                    assert(t.drop_last() =~= pairs@.take(i as int));
                    assert(t.last() == pairs@[i as int]);
                    assert(ctx.model() == with_query(m0, qry_add_fold(t, m0)));
                }
                i += 1;
            }
            proof {
                assert(pairs@.take(pairs@.len() as int) =~= pairs@);
                assert(op_step(*op, m0) == Ok::<CtxModel, OpsOut>(ctx.model()));
            }
            None
        },
        LoadedOp::QueryDelete(keys) => {
            let mut i: usize = 0;
            proof {
                assert(qry_delete_fold(keys@.take(0), m0.query) == m0.query);
                assert(ctx.model() == with_query(
                    m0,
                    qry_delete_fold(keys@.take(0), m0.query),
                ));
            }
            while i < keys.len()
                invariant
                    i <= keys@.len(),
                    ctx.model() == with_query(
                        m0,
                        qry_delete_fold(keys@.take(i as int), m0.query),
                    ),
                decreases keys@.len() - i,
            {
                ctx.query.remove(keys[i].as_str());
                proof {
                    let t = keys@.take(i as int + 1);
                    assert(t.drop_last() =~= keys@.take(i as int));
                    assert(t.last() == keys@[i as int]);
                    assert(ctx.model() == with_query(m0, qry_delete_fold(t, m0.query)));
                }
                i += 1;
            }
            proof {
                assert(keys@.take(keys@.len() as int) =~= keys@);
                assert(op_step(*op, m0) == Ok::<CtxModel, OpsOut>(ctx.model()));
            }
            None
        },
        LoadedOp::QueryClear => {
            ctx.query.clear();
            proof {
                assert(op_step(*op, m0) == Ok::<CtxModel, OpsOut>(ctx.model()));
            }
            None
        },
        LoadedOp::InternalRewrite => Some(OpOutcome::Restart),
        LoadedOp::Redirect { status, location } => {
            let loc = expand_template(location, ctx);
            let mut hs: Vec<(String, String)> = Vec::new();
            hs.push((("location").to_owned(), loc));
            let resp = HttpResponse { status: status.status(), headers: hs, body: String::new() };
            proof {
                assert(resp.model().headers =~= seq![
                    ("location"@, render_parts(op->Redirect_location.model(), m0)),
                ]);
            }
            Some(OpOutcome::Respond(resp))
        },
        LoadedOp::Respond { status, body, headers } => {
            let mut hs: Vec<(String, String)> = Vec::new();
            let mut i: usize = 0;
            proof {
                assert(hs.deep_view() =~= resp_headers(headers@.take(0), m0));
            }
            while i < headers.len()
                invariant
                    i <= headers@.len(),
                    ctx.model() == m0,
                    hs.deep_view() == resp_headers(headers@.take(i as int), m0),
                decreases headers@.len() - i,
            {
                let ghost h0 = hs.deep_view();
                let v = expand_template(&headers[i].1, ctx);
                hs.push((headers[i].0.clone(), v));
                proof {
                    let t = headers@.take(i as int + 1);
                    assert(t.drop_last() =~= headers@.take(i as int));
                    assert(t.last() == headers@[i as int]);
                    assert(hs.deep_view() =~= h0.push(
                        (headers@[i as int].0@, render_parts(headers@[i as int].1.model(), m0)),
                    ));
                }
                i += 1;
            }
            proof {
                assert(headers@.take(headers@.len() as int) =~= headers@);
            }
            let b = match body {
                Some(t) => expand_template(t, ctx),
                None => String::new(),
            };
            if 100 <= *status && *status <= 999 {
                let resp = HttpResponse { status: *status, headers: hs, body: b };
                Some(OpOutcome::Respond(resp))
            } else {
                Some(OpOutcome::Respond(make_error_resp(500, "respond build failed")))
            }
        },
        LoadedOp::Use(i) => Some(OpOutcome::UseService(*i)),
        LoadedOp::Branch(_, _, _) => None,
    }
}

/// The frame stack as remaining operation lists.
pub open spec fn frames_model(st: Seq<(&Vec<LoadedOp>, usize)>) -> Seq<Seq<LoadedOp>> {
    Seq::new(st.len(), |i: int| st[i].0@.skip(st[i].1 as int))
}

/// Run a rule's operations with an explicit frame stack: the result
/// is exactly `ops_result` of the list against the starting context.
#[verifier::rlimit(100)]
#[verifier::spinoff_prover]
pub fn run_ops<'a>(ops: &'a Vec<LoadedOp>, ctx: &mut RouterCtx) -> (r: OpOutcome)
    ensures
        ops_result(ops@, old(ctx).model()) == outcome_model(r, final(ctx).model()),
{
    let ghost m0 = ctx.model();
    let mut stack: Vec<(&'a Vec<LoadedOp>, usize)> = Vec::new();
    stack.push((ops, 0));
    proof {
        reveal(crate::ops::ops_result);
        let f = frames_model(stack@);
        assert(f.len() == 1);
        assert(f.last() == ops@.skip(0));
        assert(ops@.skip(0) =~= ops@);
        assert(f.drop_last() =~= Seq::<Seq<LoadedOp>>::empty());
        match ops_result(ops@, m0) {
            OpsOut::Fallthrough(m2) => {
                assert(stack_result(f.drop_last(), m2) == OpsOut::Fallthrough(m2));
            },
            _ => {},
        }
        assert(stack_result(f, m0) == ops_result(ops@, m0));
    }
    while stack.len() > 0
        invariant
            m0 == old(ctx).model(),
            forall|i: int|
                0 <= i < stack@.len() ==> (#[trigger] stack@[i]).1 <= stack@[i].0@.len(),
            stack_result(frames_model(stack@), ctx.model()) == ops_result(ops@, m0),
        decreases stack_weight(frames_model(stack@)), stack@.len(),
    {
        proof {
            reveal(crate::ops::ops_result);
        }
        let ghost st0 = stack@;
        let ghost fr0 = frames_model(stack@);
        let ghost mcur = ctx.model();
        let top = stack.pop().unwrap();
        let slice = top.0;
        let idx = top.1;
        let ghost rem = slice@.skip(idx as int);
        proof {
            assert(top == st0.last());
            assert(fr0.last() == st0.last().0@.skip(st0.last().1 as int));
            assert(fr0.last() == rem);
            assert(frames_model(stack@) =~= fr0.drop_last());
            assert(idx <= slice@.len());
        }
        if idx >= slice.len() {
            proof {
                assert(rem.len() == 0);
                assert(ops_result(rem, mcur) == OpsOut::Fallthrough(mcur));
                assert(stack_result(fr0, mcur) == stack_result(fr0.drop_last(), mcur));
            }
        } else {
            let op = &slice[idx];
            proof {
                assert(rem.first() == slice@[idx as int]);
                assert(rem.drop_first() =~= slice@.skip(idx as int + 1));
                lemma_lops_skip(slice@, idx as int);
            }
            match op {
                LoadedOp::Branch(c, t, e) => {
                    let cond_holds = eval_cond(c, ctx);
                    let chosen: &'a Vec<LoadedOp> = if cond_holds {
                        t
                    } else {
                        e
                    };
                    stack.push((slice, idx + 1));
                    stack.push((chosen, 0));
                    proof {
                        let f2 = frames_model(stack@);
                        let fmid = f2.drop_last();
                        assert(f2.len() == fr0.len() + 1);
                        assert(f2.last() == chosen@.skip(0));
                        assert(chosen@.skip(0) =~= chosen@);
                        assert(fmid =~= fr0.drop_last().push(slice@.skip(idx as int + 1)));
                        assert(fmid.last() == slice@.skip(idx as int + 1));
                        assert(fmid.drop_last() =~= fr0.drop_last());
                        assert(lops_size(chosen@) <= lop_size(rem.first()));
                        assert(stack_weight(f2) == stack_weight(fmid) + lops_size(chosen@));
                        assert(stack_weight(fmid) == stack_weight(fr0.drop_last()) + lops_size(
                            slice@.skip(idx as int + 1),
                        ));
                        assert(stack_weight(fr0) == stack_weight(fr0.drop_last()) + lops_size(
                            rem,
                        ));
                        assert(stack_weight(f2) < stack_weight(fr0));
                        assert(ops_result(rem, mcur) == (match ops_result(chosen@, mcur) {
                            OpsOut::Fallthrough(m2) => ops_result(slice@.skip(idx as int + 1), m2),
                            other => other,
                        }));
                        let r1 = ops_result(chosen@, mcur);
                        assert(stack_result(f2, mcur) == (match r1 {
                            OpsOut::Fallthrough(m2) => stack_result(fmid, m2),
                            other => other,
                        }));
                        match r1 {
                            OpsOut::Fallthrough(m2) => {
                                assert(stack_result(fmid, m2) == (match ops_result(
                                    slice@.skip(idx as int + 1),
                                    m2,
                                ) {
                                    OpsOut::Fallthrough(m3) => stack_result(fr0.drop_last(), m3),
                                    other => other,
                                }));
                            },
                            _ => {},
                        }
                        assert(stack_result(fr0, mcur) == (match ops_result(rem, mcur) {
                            OpsOut::Fallthrough(m2) => stack_result(fr0.drop_last(), m2),
                            other => other,
                        }));
                        assert(stack_result(f2, mcur) == stack_result(fr0, mcur));
                    }
                },
                _ => {
                    let ghost gop = slice@[idx as int];
                    let step = apply_op(op, ctx);
                    match step {
                        None => {
                            stack.push((slice, idx + 1));
                            proof {
                                let f2 = frames_model(stack@);
                                assert(f2.last() == slice@.skip(idx as int + 1));
                                assert(f2.drop_last() =~= fr0.drop_last());
                                assert(ops_result(rem, mcur) == ops_result(
                                    slice@.skip(idx as int + 1),
                                    ctx.model(),
                                ));
                                assert(stack_weight(f2) == stack_weight(fr0.drop_last())
                                    + lops_size(slice@.skip(idx as int + 1)));
                                assert(stack_weight(fr0) == stack_weight(fr0.drop_last())
                                    + lops_size(rem));
                                assert(stack_weight(f2) < stack_weight(fr0));
                                assert(stack_result(f2, ctx.model()) == (match ops_result(
                                    slice@.skip(idx as int + 1),
                                    ctx.model(),
                                ) {
                                    OpsOut::Fallthrough(m2) => stack_result(fr0.drop_last(), m2),
                                    other => other,
                                }));
                                assert(stack_result(fr0, mcur) == (match ops_result(rem, mcur) {
                                    OpsOut::Fallthrough(m2) => stack_result(fr0.drop_last(), m2),
                                    other => other,
                                }));
                                assert(stack_result(f2, ctx.model()) == stack_result(fr0, mcur));
                            }
                        },
                        Some(out) => {
                            proof {
                                assert(ops_result(rem, mcur) == outcome_model(out, mcur));
                                assert(!(outcome_model(out, mcur) is Fallthrough));
                                assert(stack_result(fr0, mcur) == (match ops_result(rem, mcur) {
                                    OpsOut::Fallthrough(m2) => stack_result(fr0.drop_last(), m2),
                                    other => other,
                                }));
                                assert(stack_result(fr0, mcur) == outcome_model(out, mcur));
                            }
                            return out;
                        },
                    }
                },
            }
        }
    }
    proof {
        assert(frames_model(stack@).len() == 0);
    }
    OpOutcome::Fallthrough
}

} // verus!
