//! Compiling the parsed service graph into its executable form: a
//! flat arena of loaded services addressed by index, with every child
//! reference pointing strictly below its referrer, so shared
//! sub-graphs compile exactly once and the interpreter can walk the
//! arena without ever looping through it.

use vstd::prelude::*;

use crate::config_types::{
    copy_forward_cfg, copy_static_cfg, forward_equiv, static_equiv, BasicCond, CondNode,
    CondValue, ForwardService, OnMatch, PatternCtxHint, RedirectCode, RouterMatch, StaticService,
    DEFAULT_MAX_STEPS,
};
use crate::encode::ServiceKey;
use crate::httptypes::{HttpMethod, Scheme};
use crate::parse::{
    ConfigError, ParseCache, ParsedBranchOp, ParsedRouter, ParsedRouterOp, ParsedRouterRule,
    ParsedService, ServiceDep,
};
use crate::pattern_compile::build_model;
use crate::pattern_match::{compile, regex_valid, CompiledPattern};
use crate::pattern_types::CtxKind;
use crate::strutil::{ascii_lower, lower_seq, str_eq};
use crate::template::{compile_template, tpl_at, CompiledTemplate};

verus! {

/// A compiled static service.
#[derive(Debug)]
pub struct LoadedStatic {
    pub config: StaticService,
}

/// A compiled forward service.
#[derive(Debug)]
pub struct LoadedForward {
    pub config: ForwardService,
}

/// A compiled router: rules, the arena index of its `next`, and the
/// restart bound.
#[derive(Debug)]
pub struct LoadedRouter {
    pub rules: Vec<LoadedRule>,
    pub next: Option<usize>,
    pub max_steps: u32,
}

/// A compiled service of any kind.
#[derive(Debug)]
pub enum LoadedService {
    Static(LoadedStatic),
    Router(LoadedRouter),
    Forward(LoadedForward),
}

/// One compiled rule.
#[derive(Debug)]
pub struct LoadedRule {
    pub when: CompiledRouterMatch,
    pub ops: Vec<LoadedOp>,
    pub on_match: OnMatch,
}

/// A compiled match clause.
#[derive(Debug)]
pub struct CompiledRouterMatch {
    pub host: Option<CompiledPattern>,
    pub path: Option<CompiledPattern>,
    pub methods: Vec<HttpMethod>,
    pub headers: Vec<CompiledHeaderCond>,
    pub queries: Vec<CompiledQueryCond>,
    pub cookies: Vec<CompiledCookieCond>,
    pub scheme: Option<Scheme>,
}

/// A compiled header condition; the name is case-folded at compile
/// time.
#[derive(Debug)]
pub struct CompiledHeaderCond {
    pub name: String,
    pub pattern: CompiledPattern,
    pub not: bool,
}

#[derive(Debug)]
pub struct CompiledQueryCond {
    pub key: String,
    pub pattern: CompiledPattern,
    pub not: bool,
}

#[derive(Debug)]
pub struct CompiledCookieCond {
    pub name: String,
    pub pattern: CompiledPattern,
    pub not: bool,
}

/// A compiled condition tree.
#[derive(Debug)]
pub enum CompiledCondNode {
    All(Vec<CompiledCondNode>),
    Any(Vec<CompiledCondNode>),
    Not(Box<CompiledCondNode>),
    Test(CompiledTestCond),
}

/// A compiled elementary test.
#[derive(Debug)]
pub enum CompiledBasicCond {
    Equals(CondValue),
    In(Vec<CondValue>),
    Present(bool),
    Pattern(CompiledPattern),
}

#[derive(Debug)]
pub struct CompiledTestCond {
    pub var: String,
    pub cond: CompiledBasicCond,
}

/// One compiled operation; `Use` holds the arena index of its target.
#[derive(Debug)]
pub enum LoadedOp {
    Branch(CompiledCondNode, Vec<LoadedOp>, Vec<LoadedOp>),
    SetScheme(Scheme),
    SetHost(CompiledTemplate),
    SetPort(u16),
    SetPath(CompiledTemplate),
    HeaderSet(Vec<(String, CompiledTemplate)>),
    HeaderAdd(Vec<(String, CompiledTemplate)>),
    HeaderDelete(Vec<String>),
    HeaderClear,
    QuerySet(Vec<(String, CompiledTemplate)>),
    QueryAdd(Vec<(String, CompiledTemplate)>),
    QueryDelete(Vec<String>),
    QueryClear,
    InternalRewrite,
    Redirect { status: RedirectCode, location: CompiledTemplate },
    Respond { status: u16, body: Option<CompiledTemplate>, headers: Vec<(String, CompiledTemplate)> },
    Use(usize),
}

/// The pattern was compiled from `raw` in context `kind` and the
/// engine accepted it.
pub open spec fn pat_ok(p: CompiledPattern, kind: CtxKind, raw: Seq<char>) -> bool {
    &&& p.raw_view() == raw
    &&& build_model(kind, raw) matches Ok(m) && p.src() == m.0 && p.names_view() == m.1
        && regex_valid(m.0)
}

/// The raw pattern compiles in this context.
pub open spec fn pat_compilable(kind: CtxKind, raw: Seq<char>) -> bool {
    build_model(kind, raw) matches Ok(m) && regex_valid(m.0)
}

/// The template was compiled from `raw`.
pub open spec fn tpl_ok(t: CompiledTemplate, raw: Seq<char>) -> bool {
    tpl_at(raw, 0) == Ok::<_, crate::template::TemplateError>(t.model()) && t.raw@ == raw
}

/// The raw template compiles.
pub open spec fn tpl_compilable(raw: Seq<char>) -> bool {
    tpl_at(raw, 0) is Ok
}

/// Every reference inside an operation points below `bound`.
pub open spec fn op_wf(op: LoadedOp, bound: int) -> bool
    decreases op,
{
    match op {
        LoadedOp::Branch(_, t, e) => ops_wf(t@, bound) && ops_wf(e@, bound),
        LoadedOp::Use(i) => (i as int) < bound,
        _ => true,
    }
}

pub open spec fn ops_wf(ops: Seq<LoadedOp>, bound: int) -> bool
    decreases ops,
{
    if ops.len() == 0 {
        true
    } else {
        op_wf(ops.first(), bound) && ops_wf(ops.drop_first(), bound)
    }
}

/// Every reference inside a service points below `bound`.
pub open spec fn svc_wf(s: LoadedService, bound: int) -> bool {
    match s {
        LoadedService::Router(rt) => {
            &&& match rt.next {
                Some(i) => (i as int) < bound,
                None => true,
            }
            &&& forall|j: int| 0 <= j < rt.rules@.len() ==> ops_wf(#[trigger] rt.rules@[j].ops@, bound)
        },
        _ => true,
    }
}


/// Size measures over parsed routers, for termination of the builder.
pub open spec fn pop_size(op: ParsedRouterOp) -> nat
    decreases op,
{
    match op {
        ParsedRouterOp::Branch(b) => 1 + pops_size(b.then_ops@) + pops_size(b.else_ops@),
        _ => 1,
    }
}

pub open spec fn pops_size(ops: Seq<ParsedRouterOp>) -> nat
    decreases ops,
{
    if ops.len() == 0 {
        0
    } else {
        1 + pop_size(ops.first()) + pops_size(ops.drop_first())
    }
}

pub open spec fn prules_size(rules: Seq<ParsedRouterRule>) -> nat
    decreases rules,
{
    if rules.len() == 0 {
        0
    } else {
        1 + pops_size(rules.first().ops@) + prules_size(rules.drop_first())
    }
}

/// An element's operations weigh less than the whole rule list.
proof fn lemma_prules_elem(rules: Seq<ParsedRouterRule>, i: int)
    requires
        0 <= i < rules.len(),
    ensures
        pops_size(rules[i].ops@) < prules_size(rules),
    decreases rules.len(),
{
    if i == 0 {
    } else {
        lemma_prules_elem(rules.drop_first(), i - 1);
        assert(rules.drop_first()[i - 1] == rules[i]);
    }
}

/// An element weighs less than the whole operation list.
proof fn lemma_pops_elem(ops: Seq<ParsedRouterOp>, i: int)
    requires
        0 <= i < ops.len(),
    ensures
        pop_size(ops[i]) < pops_size(ops),
    decreases ops.len(),
{
    if i == 0 {
    } else {
        lemma_pops_elem(ops.drop_first(), i - 1);
        assert(ops.drop_first()[i - 1] == ops[i]);
    }
}


/// The compiled operation corresponds to the parsed one: every
/// template compiled from its text, every condition tree mirrored,
/// every key list kept.
pub open spec fn op_from(o: LoadedOp, p: ParsedRouterOp) -> bool
    decreases p,
{
    match (o, p) {
        (LoadedOp::Branch(c, t, e), ParsedRouterOp::Branch(b)) => cond_ok(c, b.cond) && ops_from(
            t@,
            b.then_ops@,
        ) && ops_from(e@, b.else_ops@),
        (LoadedOp::SetScheme(a), ParsedRouterOp::SetScheme(b)) => a == b,
        (LoadedOp::SetHost(t), ParsedRouterOp::SetHost(src)) => tpl_ok(t, src@),
        (LoadedOp::SetPort(a), ParsedRouterOp::SetPort(b)) => a == b,
        (LoadedOp::SetPath(t), ParsedRouterOp::SetPath(src)) => tpl_ok(t, src@),
        (LoadedOp::HeaderSet(tp), ParsedRouterOp::HeaderSet(sp)) => tpl_pairs_ok(tp@, sp@),
        (LoadedOp::HeaderAdd(tp), ParsedRouterOp::HeaderAdd(sp)) => tpl_pairs_ok(tp@, sp@),
        (LoadedOp::HeaderDelete(a), ParsedRouterOp::HeaderDelete(b)) => a@ == b@,
        (LoadedOp::HeaderClear, ParsedRouterOp::HeaderClear) => true,
        (LoadedOp::QuerySet(tp), ParsedRouterOp::QuerySet(sp)) => tpl_pairs_ok(tp@, sp@),
        (LoadedOp::QueryAdd(tp), ParsedRouterOp::QueryAdd(sp)) => tpl_pairs_ok(tp@, sp@),
        (LoadedOp::QueryDelete(a), ParsedRouterOp::QueryDelete(b)) => a@ == b@,
        (LoadedOp::QueryClear, ParsedRouterOp::QueryClear) => true,
        (LoadedOp::InternalRewrite, ParsedRouterOp::InternalRewrite) => true,
        (
            LoadedOp::Redirect { status: a, location: t },
            ParsedRouterOp::Redirect { status: b, location: src },
        ) => a == b && tpl_ok(t, src@),
        (
            LoadedOp::Respond { status: a, body: tb, headers: th },
            ParsedRouterOp::Respond { status: b, body: sb, headers: sh },
        ) => a == b && tpl_pairs_ok(th@, sh@) && match (tb, sb) {
            (Some(t), Some(src)) => tpl_ok(t, src@),
            (None, None) => true,
            _ => false,
        },
        (LoadedOp::Use(_), ParsedRouterOp::Use(_)) => true,
        _ => false,
    }
}

pub open spec fn ops_from(os: Seq<LoadedOp>, ps: Seq<ParsedRouterOp>) -> bool
    decreases ps,
{
    if ps.len() == 0 {
        os.len() == 0
    } else {
        os.len() == ps.len() && op_from(os.first(), ps.first()) && ops_from(
            os.drop_first(),
            ps.drop_first(),
        )
    }
}

/// `ops_from` holds exactly when it holds pointwise.
pub proof fn lemma_ops_from_pointwise(os: Seq<LoadedOp>, ps: Seq<ParsedRouterOp>)
    requires
        os.len() == ps.len(),
        forall|i: int| 0 <= i < ps.len() ==> op_from(#[trigger] os[i], ps[i]),
    ensures
        ops_from(os, ps),
    decreases ps.len(),
{
    if ps.len() > 0 {
        assert(op_from(os[0], ps[0]));
        assert forall|i: int|
            0 <= i < ps.drop_first().len() implies op_from(
            #[trigger] os.drop_first()[i],
            ps.drop_first()[i],
        ) by {
            assert(os.drop_first()[i] == os[i + 1]);
            assert(ps.drop_first()[i] == ps[i + 1]);
        }
        lemma_ops_from_pointwise(os.drop_first(), ps.drop_first());
    }
}

/// The arena key an operation's dependency denotes: the inline key
/// itself, or the key its canonical import path resolved to.
pub open spec fn dep_key_at(dep: ServiceDep, cache: ParseCache, k: ServiceKey) -> bool {
    match dep {
        ServiceDep::Inline(kk) => k.key_eq(kk),
        ServiceDep::ImportPath(p) => exists|j: int|
            0 <= j < cache.import_to_key@.len() && (#[trigger] cache.import_to_key@[j]).0@ == p@
                && k.key_eq(cache.import_to_key@[j].1),
    }
}

/// The operation dispatches to no other service, not even inside a
/// branch.
pub open spec fn op_use_free(op: ParsedRouterOp) -> bool
    decreases op,
{
    match op {
        ParsedRouterOp::Branch(b) => (forall|i: int|
            0 <= i < b.then_ops@.len() ==> op_use_free(#[trigger] b.then_ops@[i])) && (forall|
            i: int,
        |
            0 <= i < b.else_ops@.len() ==> op_use_free(#[trigger] b.else_ops@[i])),
        ParsedRouterOp::Use(_) => false,
        _ => true,
    }
}

pub open spec fn ops_use_free(ops: Seq<ParsedRouterOp>) -> bool {
    forall|i: int| 0 <= i < ops.len() ==> op_use_free(#[trigger] ops[i])
}

/// Every template and condition pattern inside the operation
/// compiles.
pub open spec fn op_compilable(op: ParsedRouterOp) -> bool
    decreases op,
{
    match op {
        ParsedRouterOp::Branch(b) => cond_compilable(b.cond) && (forall|i: int|
            0 <= i < b.then_ops@.len() ==> op_compilable(#[trigger] b.then_ops@[i])) && (forall|
            i: int,
        |
            0 <= i < b.else_ops@.len() ==> op_compilable(#[trigger] b.else_ops@[i])),
        ParsedRouterOp::SetHost(src) => tpl_compilable(src@),
        ParsedRouterOp::SetPath(src) => tpl_compilable(src@),
        ParsedRouterOp::HeaderSet(sp) => pairs_compilable(sp@),
        ParsedRouterOp::HeaderAdd(sp) => pairs_compilable(sp@),
        ParsedRouterOp::QuerySet(sp) => pairs_compilable(sp@),
        ParsedRouterOp::QueryAdd(sp) => pairs_compilable(sp@),
        ParsedRouterOp::Redirect { status: _, location } => tpl_compilable(location@),
        ParsedRouterOp::Respond { status: _, body, headers } => pairs_compilable(headers@)
            && match body {
            Some(b) => tpl_compilable(b@),
            None => true,
        },
        _ => true,
    }
}

pub open spec fn pairs_compilable(sp: Seq<(String, String)>) -> bool {
    forall|i: int| 0 <= i < sp.len() ==> tpl_compilable((#[trigger] sp[i]).1@)
}

pub open spec fn ops_compilable(ops: Seq<ParsedRouterOp>) -> bool {
    forall|i: int| 0 <= i < ops.len() ==> op_compilable(#[trigger] ops[i])
}

/// A rule's clause and operations all compile.
pub open spec fn rule_compilable(r: ParsedRouterRule) -> bool {
    &&& match r.when {
        Some(m) => match_compilable(m),
        None => true,
    }
    &&& ops_compilable(r.ops@)
}

pub open spec fn rules_compilable(rs: Seq<ParsedRouterRule>) -> bool {
    forall|i: int| 0 <= i < rs.len() ==> rule_compilable(#[trigger] rs[i])
}

pub open spec fn rules_use_free(rs: Seq<ParsedRouterRule>) -> bool {
    forall|i: int| 0 <= i < rs.len() ==> ops_use_free((#[trigger] rs[i]).ops@)
}

/// A match clause that accepts every request.
pub open spec fn match_all(cm: CompiledRouterMatch) -> bool {
    &&& cm.host is None
    &&& cm.path is None
    &&& cm.scheme is None
    &&& cm.methods@.len() == 0
    &&& cm.headers@.len() == 0
    &&& cm.queries@.len() == 0
    &&& cm.cookies@.len() == 0
}

/// The compiled rule corresponds to the parsed one; an absent `when`
/// compiles to the match-everything clause.
pub open spec fn rule_from(lr: LoadedRule, pr: ParsedRouterRule) -> bool {
    &&& match pr.when {
        Some(m) => match_ok(lr.when, m),
        None => match_all(lr.when),
    }
    &&& ops_from(lr.ops@, pr.ops@)
    &&& lr.on_match == pr.on_match
}

/// The compiled arena: one service per distinct key, each referring
/// only to earlier entries.
#[derive(Debug)]
pub struct BuildCache {
    pub keys: Vec<ServiceKey>,
    pub services: Vec<LoadedService>,
}

impl BuildCache {
    /// Keys and services aligned, keys unique, references acyclic by
    /// construction: every child index is strictly below its owner.
    pub open spec fn wf(&self) -> bool {
        &&& self.keys@.len() == self.services@.len()
        &&& forall|i: int, j: int|
            0 <= i < j < self.keys@.len() ==> !(#[trigger] self.keys@[i].key_eq(
                #[trigger] self.keys@[j],
            ))
        &&& forall|p: int| 0 <= p < self.services@.len() ==> svc_wf(#[trigger] self.services@[p], p)
    }

    pub fn new() -> (r: BuildCache)
        ensures
            r.wf(),
            r.keys@.len() == 0,
    {
        BuildCache { keys: Vec::new(), services: Vec::new() }
    }

    /// How many services have been compiled.
    pub fn len(&self) -> (r: usize)
        ensures
            r == self.keys@.len(),
    {
        self.keys.len()
    }

    /// Index of the compiled service for `k`, if it was compiled.
    pub fn find(&self, k: &ServiceKey) -> (r: Option<usize>)
        ensures
            match r {
                Some(i) => i < self.keys@.len() && self.keys@[i as int].key_eq(*k),
                None => forall|j: int|
                    0 <= j < self.keys@.len() ==> !(#[trigger] self.keys@[j].key_eq(*k)),
            },
    {
        let mut i: usize = 0;
        while i < self.keys.len()
            invariant
                i <= self.keys@.len(),
                forall|j: int| 0 <= j < i ==> !(#[trigger] self.keys@[j].key_eq(*k)),
            decreases self.keys@.len() - i,
        {
            if str_eq(self.keys[i].base_dir.as_str(), k.base_dir.as_str()) && str_eq(
                self.keys[i].hash.as_str(),
                k.hash.as_str(),
            ) {
                return Some(i);
            }
            i += 1;
        }
        None
    }
}

/// Old arena entries survive every build step: keys and compiled
/// services alike.
pub open spec fn arena_preserved(old_c: BuildCache, new_c: BuildCache) -> bool {
    &&& new_c.keys@.len() >= old_c.keys@.len()
    &&& new_c.services@.len() >= old_c.services@.len()
    &&& forall|i: int| 0 <= i < old_c.keys@.len() ==> #[trigger] new_c.keys@[i] == old_c.keys@[i]
    &&& forall|i: int|
        0 <= i < old_c.services@.len() ==> #[trigger] new_c.services@[i] == old_c.services@[i]
}

/// The arena already holds an entry for this key.
pub open spec fn bc_has_key(bc: BuildCache, k: ServiceKey) -> bool {
    exists|j: int| 0 <= j < bc.keys@.len() && (#[trigger] bc.keys@[j]).key_eq(k)
}

/// The compiled service was built from this parsed service: configs
/// content-equal, router rules compiled in order, the restart bound
/// defaulted, `next` present on both sides or neither.
pub open spec fn svc_from(ls: LoadedService, ps: ParsedService) -> bool {
    match (ls, ps) {
        (LoadedService::Static(l), ParsedService::Static(p)) => static_equiv(l.config, p.config),
        (LoadedService::Forward(l), ParsedService::Forward(p)) => forward_equiv(
            l.config,
            p.config,
        ),
        (LoadedService::Router(l), ParsedService::Router(p)) => {
            &&& l.rules@.len() == p.rules@.len()
            &&& forall|j: int|
                0 <= j < p.rules@.len() ==> rule_from(#[trigger] l.rules@[j], p.rules@[j])
            &&& l.max_steps == (match p.max_steps {
                Some(v) => v,
                None => DEFAULT_MAX_STEPS,
            })
            &&& (l.next is Some <==> p.next is Some)
        },
        _ => false,
    }
}

/// Arena entry `i` was built from a parsed service that the parse
/// cache holds under a matching key.
pub open spec fn bc_entry_matches(bc: BuildCache, cache: ParseCache, i: int) -> bool {
    exists|j: int|
        0 <= j < cache.key_to_parsed@.len() && (#[trigger] cache.key_to_parsed@[j]).0.key_eq(
            bc.keys@[i],
        ) && svc_from(bc.services@[i], cache.key_to_parsed@[j].1)
}

/// Every arena entry was built from a parsed service that the parse
/// cache holds under a matching key.
pub open spec fn bc_matches(bc: BuildCache, cache: ParseCache) -> bool {
    forall|i: int| 0 <= i < bc.services@.len() ==> #[trigger] bc_entry_matches(bc, cache, i)
}

/// The parse cache holds a non-router service under this key.
pub open spec fn cache_nonrouter_at(cache: ParseCache, k: ServiceKey) -> bool {
    exists|j: int|
        0 <= j < cache.key_to_parsed@.len() && (#[trigger] cache.key_to_parsed@[j]).0.key_eq(k)
            && !(cache.key_to_parsed@[j].1 is Router)
}

/// In a well-formed parse cache a key names at most one entry.
proof fn lemma_cache_key_unique(cache: ParseCache, i: int, j: int, k: ServiceKey)
    requires
        cache.wf(),
        0 <= i < cache.key_to_parsed@.len(),
        0 <= j < cache.key_to_parsed@.len(),
        cache.key_to_parsed@[i].0.key_eq(k),
        cache.key_to_parsed@[j].0.key_eq(k),
    ensures
        i == j,
{
    if i < j {
        assert(cache.key_to_parsed@[i].0.key_eq(cache.key_to_parsed@[j].0));
    }
    if j < i {
        assert(cache.key_to_parsed@[j].0.key_eq(cache.key_to_parsed@[i].0));
    }
}

/// Compile the parsed graph from its root: the returned index names
/// the root's compiled service in the arena; each distinct key is
/// compiled at most once, whatever it is referenced by.
pub fn build_from_parsed(cache: &ParseCache, root: &ServiceKey, bc: &mut BuildCache) -> (r: Result<
    usize,
    ConfigError,
>)
    requires
        old(bc).wf(),
        cache.wf(),
        bc_matches(*old(bc), *cache),
    ensures
        final(bc).wf(),
        bc_matches(*final(bc), *cache),
        arena_preserved(*old(bc), *final(bc)),
        r matches Ok(i) ==> i < final(bc).keys@.len() && final(bc).keys@[i as int].key_eq(*root),
        bc_has_key(*old(bc), *root) ==> r is Ok && *final(bc) == *old(bc),
        cache_nonrouter_at(*cache, *root) ==> r is Ok,
{
    let fuel = if cache.key_to_parsed.len() < 65535 {
        (cache.key_to_parsed.len() + 1) as u32
    } else {
        65535u32
    };
    compile_key(root, cache, bc, fuel)
}

/// Compile one key, reusing the arena entry when it exists.
pub fn compile_key(key: &ServiceKey, cache: &ParseCache, bc: &mut BuildCache, fuel: u32) -> (r:
    Result<usize, ConfigError>)
    requires
        old(bc).wf(),
        cache.wf(),
        bc_matches(*old(bc), *cache),
    ensures
        final(bc).wf(),
        bc_matches(*final(bc), *cache),
        arena_preserved(*old(bc), *final(bc)),
        r matches Ok(i) ==> i < final(bc).keys@.len() && final(bc).keys@[i as int].key_eq(*key),
        bc_has_key(*old(bc), *key) ==> r is Ok && *final(bc) == *old(bc),
        fuel >= 1 && cache_nonrouter_at(*cache, *key) ==> r is Ok,
    decreases fuel, 1int, 0nat,
{
    match bc.find(key) {
        Some(i) => {
            return Ok(i);
        },
        None => {},
    }
    proof {
        assert(!bc_has_key(*old(bc), *key));
    }
    if fuel == 0 {
        return Err(ConfigError::Invalid(("service graph too deep").to_owned()));
    }
    let pi = match cache.find_key(key) {
        Some(i) => i,
        None => {
            proof {
                assert(!cache_nonrouter_at(*cache, *key));
            }
            return Err(ConfigError::Invalid(("missing parsed service").to_owned()));
        },
    };
    let built: LoadedService = match &cache.key_to_parsed[pi].1 {
        ParsedService::Static(st) => LoadedService::Static(
            LoadedStatic { config: copy_static_cfg(&st.config) },
        ),
        ParsedService::Forward(fw) => LoadedService::Forward(
            LoadedForward { config: copy_forward_cfg(&fw.config) },
        ),
        ParsedService::Router(rt) => {
            match build_router(rt, cache, bc, fuel) {
                Ok(s) => s,
                Err(e) => {
                    proof {
                        if cache_nonrouter_at(*cache, *key) {
                            let w = choose|j: int|
                                0 <= j < cache.key_to_parsed@.len() && (
                                #[trigger] cache.key_to_parsed@[j]).0.key_eq(*key) && !(
                                cache.key_to_parsed@[j].1 is Router);
                            lemma_cache_key_unique(*cache, w, pi as int, *key);
                            assert(false);
                        }
                    }
                    return Err(e);
                },
            }
        },
    };
    let ghost gbuilt = built;
    let ghost bmid2 = *bc;
    // the key may have been compiled while compiling children
    match bc.find(key) {
        Some(i) => Ok(i),
        None => {
            let ghost k0 = bc.keys@;
            let ghost s0 = bc.services@;
            let idx = bc.keys.len();
            bc.keys.push(key.clone());
            bc.services.push(built);
            proof {
                assert forall|i: int, j: int|
                    0 <= i < j < bc.keys@.len() implies !(#[trigger] bc.keys@[i].key_eq(
                    #[trigger] bc.keys@[j],
                )) by {
                    if j < bc.keys@.len() - 1 {
                    } else {
                        assert(!k0[i].key_eq(*key));
                    }
                }
                assert forall|p: int|
                    0 <= p < bc.services@.len() implies svc_wf(#[trigger] bc.services@[p], p) by {
                    if p < bc.services@.len() - 1 {
                        assert(bc.services@[p] == s0[p]);
                    } else {
                        lemma_svc_wf_weaken(bc.services@[p], k0.len() as int, p);
                    }
                }
                assert(svc_from(gbuilt, cache.key_to_parsed@[pi as int].1));
                assert forall|i2: int|
                    0 <= i2 < bc.services@.len() implies #[trigger] bc_entry_matches(
                    *bc,
                    *cache,
                    i2,
                ) by {
                    if i2 < bc.services@.len() - 1 {
                        assert(bc.services@[i2] == bmid2.services@[i2]);
                        assert(bc.keys@[i2] == bmid2.keys@[i2]);
                        assert(bc_entry_matches(bmid2, *cache, i2));
                        let j0 = choose|j: int|
                            0 <= j < cache.key_to_parsed@.len() && (
                            #[trigger] cache.key_to_parsed@[j]).0.key_eq(bmid2.keys@[i2])
                                && svc_from(bmid2.services@[i2], cache.key_to_parsed@[j].1);
                        assert(cache.key_to_parsed@[j0].0.key_eq(bc.keys@[i2]) && svc_from(
                            bc.services@[i2],
                            cache.key_to_parsed@[j0].1,
                        ));
                    } else {
                        assert(bc.keys@[i2] == *key);
                        assert(cache.key_to_parsed@[pi as int].0.key_eq(bc.keys@[i2])
                            && svc_from(bc.services@[i2], cache.key_to_parsed@[pi as int].1));
                    }
                }
            }
            Ok(idx)
        },
    }
}

/// Well-formedness below a bound holds below any larger bound.
proof fn lemma_svc_wf_weaken(s: LoadedService, b1: int, b2: int)
    requires
        svc_wf(s, b1),
        b1 <= b2,
    ensures
        svc_wf(s, b2),
{
    match s {
        LoadedService::Router(rt) => {
            assert forall|j: int| 0 <= j < rt.rules@.len() implies ops_wf(
                #[trigger] rt.rules@[j].ops@,
                b2,
            ) by {
                lemma_ops_wf_weaken(rt.rules@[j].ops@, b1, b2);
            }
        },
        _ => {},
    }
}

proof fn lemma_ops_wf_weaken(ops: Seq<LoadedOp>, b1: int, b2: int)
    requires
        ops_wf(ops, b1),
        b1 <= b2,
    ensures
        ops_wf(ops, b2),
    decreases ops,
{
    if ops.len() > 0 {
        lemma_op_wf_weaken(ops.first(), b1, b2);
        lemma_ops_wf_weaken(ops.drop_first(), b1, b2);
    }
}

proof fn lemma_op_wf_weaken(op: LoadedOp, b1: int, b2: int)
    requires
        op_wf(op, b1),
        b1 <= b2,
    ensures
        op_wf(op, b2),
    decreases op,
{
    match op {
        LoadedOp::Branch(_, t, e) => {
            lemma_ops_wf_weaken(t@, b1, b2);
            lemma_ops_wf_weaken(e@, b1, b2);
        },
        _ => {},
    }
}

/// Compile a parsed router: resolve `next`, compile the rules.
fn build_router(rt: &ParsedRouter, cache: &ParseCache, bc: &mut BuildCache, fuel: u32) -> (r:
    Result<LoadedService, ConfigError>)
    requires
        old(bc).wf(),
        cache.wf(),
        bc_matches(*old(bc), *cache),
        fuel >= 1,
    ensures
        final(bc).wf(),
        bc_matches(*final(bc), *cache),
        arena_preserved(*old(bc), *final(bc)),
        r matches Ok(s) ==> svc_wf(s, final(bc).keys@.len() as int) && s is Router
            && s->Router_0.rules@.len() == rt.rules@.len() && (forall|j: int|
            0 <= j < rt.rules@.len() ==> rule_from(#[trigger] s->Router_0.rules@[j], rt.rules@[j]))
            && s->Router_0.max_steps == (match rt.max_steps {
            Some(v) => v,
            None => DEFAULT_MAX_STEPS,
        }) && (match (s->Router_0.next, rt.next) {
            (Some(n), Some(dep)) => (n as int) < final(bc).keys@.len() && dep_key_at(
                dep,
                *cache,
                final(bc).keys@[n as int],
            ),
            (None, None) => true,
            _ => false,
        }),
        rt.next is None && rules_use_free(rt.rules@) && rules_compilable(rt.rules@) ==> r is Ok,
    decreases fuel, 0int, prules_size(rt.rules@) + 1,
{
    let next: Option<usize> = match &rt.next {
        Some(dep) => {
            match resolve_dep(dep, cache, bc, fuel) {
                Ok(i) => Some(i),
                Err(e) => {
                    return Err(e);
                },
            }
        },
        None => None,
    };
    let max_steps = match rt.max_steps {
        Some(v) => v,
        None => DEFAULT_MAX_STEPS,
    };
    let ghost bmid = *bc;
    let rules = match compile_parsed_rules(&rt.rules, cache, bc, fuel) {
        Ok(rs) => rs,
        Err(e) => {
            proof {
                lemma_arena_trans(*old(bc), bmid, *bc);
            }
            return Err(e);
        },
    };
    proof {
        lemma_arena_trans(*old(bc), bmid, *bc);
        assert forall|j: int|
            0 <= j < rt.rules@.len() implies rule_from(#[trigger] rules@[j], rt.rules@[j]) by {
            assert(ops_wf(rules@[j].ops@, bc.keys@.len() as int));
        }
    }
    Ok(LoadedService::Router(LoadedRouter { rules, next, max_steps }))
}

/// Preserved arenas compose.
proof fn lemma_arena_trans(a: BuildCache, b: BuildCache, c: BuildCache)
    requires
        arena_preserved(a, b),
        arena_preserved(b, c),
    ensures
        arena_preserved(a, c),
{
    assert forall|i: int| 0 <= i < a.keys@.len() implies #[trigger] c.keys@[i] == a.keys@[i] by {
        assert(b.keys@[i] == a.keys@[i]);
    }
    assert forall|i: int|
        0 <= i < a.services@.len() implies #[trigger] c.services@[i] == a.services@[i] by {
        assert(b.services@[i] == a.services@[i]);
    }
}

/// Resolve a dependency to the arena index of its compiled service.
fn resolve_dep(dep: &ServiceDep, cache: &ParseCache, bc: &mut BuildCache, fuel: u32) -> (r: Result<
    usize,
    ConfigError,
>)
    requires
        old(bc).wf(),
        cache.wf(),
        bc_matches(*old(bc), *cache),
        fuel >= 1,
    ensures
        final(bc).wf(),
        bc_matches(*final(bc), *cache),
        arena_preserved(*old(bc), *final(bc)),
        r matches Ok(i) ==> i < final(bc).keys@.len() && dep_key_at(
            *dep,
            *cache,
            final(bc).keys@[i as int],
        ),
    decreases fuel, 0int, 0nat,
{
    match dep {
        ServiceDep::Inline(k) => compile_key(k, cache, bc, fuel - 1),
        ServiceDep::ImportPath(p) => {
            match cache.find_import(p.as_str()) {
                Some(i) => {
                    let ghost gi = i as int;
                    let k = cache.import_to_key[i].1.clone();
                    let r = compile_key(&k, cache, bc, fuel - 1);
                    proof {
                        match r {
                            Ok(u) => {
                                assert(cache.import_to_key@[gi].0@ == p@);
                                assert(bc.keys@[u as int].key_eq(cache.import_to_key@[gi].1));
                            },
                            Err(_) => {},
                        }
                    }
                    r
                },
                None => {
                    let mut m = ("missing import mapping for ").to_owned();
                    m.append(p.as_str());
                    Err(ConfigError::Invalid(m))
                },
            }
        },
    }
}

fn compile_parsed_rules(
    rules: &Vec<ParsedRouterRule>,
    cache: &ParseCache,
    bc: &mut BuildCache,
    fuel: u32,
) -> (r: Result<Vec<LoadedRule>, ConfigError>)
    requires
        old(bc).wf(),
        cache.wf(),
        bc_matches(*old(bc), *cache),
        fuel >= 1,
    ensures
        final(bc).wf(),
        bc_matches(*final(bc), *cache),
        arena_preserved(*old(bc), *final(bc)),
        r matches Ok(rs) ==> rs@.len() == rules@.len() && forall|j: int|
            0 <= j < rs@.len() ==> ops_wf(#[trigger] rs@[j].ops@, final(bc).keys@.len() as int)
                && rule_from(rs@[j], rules@[j]),
        r is Ok ==> rules_compilable(rules@),
        rules_use_free(rules@) && rules_compilable(rules@) ==> r is Ok,
    decreases fuel, 0int, prules_size(rules@),
{
    let mut out: Vec<LoadedRule> = Vec::new();
    let mut i: usize = 0;
    let ghost b0 = *bc;
    proof {
        assert(b0 == *old(bc));
    }
    while i < rules.len()
        invariant
            i <= rules@.len(),
            out@.len() == i,
            bc.wf(),
            cache.wf(),
            bc_matches(*bc, *cache),
            fuel >= 1,
            b0 == *old(bc),
            arena_preserved(b0, *bc),
            forall|j: int| 0 <= j < i ==> rule_compilable(#[trigger] rules@[j]),
            forall|j: int|
                0 <= j < out@.len() ==> ops_wf(#[trigger] out@[j].ops@, bc.keys@.len() as int)
                    && rule_from(out@[j], rules@[j]),
        decreases rules@.len() - i,
    {
        let rule = &rules[i];
        proof {
            assert(rules@[i as int] == *rule);
            lemma_prules_elem(rules@, i as int);
        }
        let when = match &rule.when {
            Some(m) => {
                match compile_match(m) {
                    Ok(cm) => cm,
                    Err(e) => {
                        proof {
                            assert(!rule_compilable(rules@[i as int]));
                        }
                        return Err(e);
                    },
                }
            },
            None => {
                let empty = RouterMatch::default();
                match compile_match(&empty) {
                    Ok(cm) => {
                        proof {
                            assert(match_all(cm));
                        }
                        cm
                    },
                    Err(e) => {
                        return Err(e);
                    },
                }
            },
        };
        let ghost bprev = *bc;
        let ops = match compile_parsed_ops(&rule.ops, cache, bc, fuel) {
            Ok(o) => o,
            Err(e) => {
                proof {
                    lemma_arena_trans(b0, bprev, *bc);
                    assert(!(ops_use_free(rules@[i as int].ops@) && ops_compilable(
                        rules@[i as int].ops@,
                    )));
                    assert(!(rules_use_free(rules@) && rules_compilable(rules@)));
                }
                return Err(e);
            },
        };
        proof {
            lemma_arena_trans(b0, bprev, *bc);
        }
        let ghost outlen0 = out@.len();
        out.push(LoadedRule { when, ops, on_match: rule.on_match });
        proof {
            assert forall|j: int|
                0 <= j < out@.len() implies ops_wf(
                #[trigger] out@[j].ops@,
                bc.keys@.len() as int,
            ) by {
                if j < outlen0 {
                    lemma_ops_wf_weaken(out@[j].ops@, bprev.keys@.len() as int, bc.keys@.len() as int);
                }
            }
        }
        i += 1;
    }
    Ok(out)
}

fn compile_parsed_ops(
    ops: &Vec<ParsedRouterOp>,
    cache: &ParseCache,
    bc: &mut BuildCache,
    fuel: u32,
) -> (r: Result<Vec<LoadedOp>, ConfigError>)
    requires
        old(bc).wf(),
        cache.wf(),
        bc_matches(*old(bc), *cache),
        fuel >= 1,
    ensures
        final(bc).wf(),
        bc_matches(*final(bc), *cache),
        arena_preserved(*old(bc), *final(bc)),
        r matches Ok(os) ==> ops_wf(os@, final(bc).keys@.len() as int) && ops_from(os@, ops@),
        r is Ok ==> ops_compilable(ops@),
        ops_use_free(ops@) && ops_compilable(ops@) ==> r is Ok,
    decreases fuel, 0int, pops_size(ops@),
{
    let mut out: Vec<LoadedOp> = Vec::new();
    let mut i: usize = 0;
    let ghost b0 = *bc;
    proof {
        assert(b0 == *old(bc));
        assert(ops_wf(out@, bc.keys@.len() as int));
    }
    while i < ops.len()
        invariant
            i <= ops@.len(),
            out@.len() == i,
            bc.wf(),
            cache.wf(),
            bc_matches(*bc, *cache),
            fuel >= 1,
            b0 == *old(bc),
            arena_preserved(b0, *bc),
            ops_wf(out@, bc.keys@.len() as int),
            forall|j: int| 0 <= j < i ==> op_compilable(#[trigger] ops@[j]),
            forall|j: int| 0 <= j < i ==> op_from(#[trigger] out@[j], ops@[j]),
        decreases ops@.len() - i,
    {
        let op = &ops[i];
        proof {
            assert(ops@[i as int] == *op);
            lemma_pops_elem(ops@, i as int);
        }
        let ghost bprev = *bc;
        let compiled = match compile_parsed_op(op, cache, bc, fuel) {
            Ok(c) => c,
            Err(e) => {
                proof {
                    lemma_arena_trans(b0, bprev, *bc);
                    assert(!(op_use_free(ops@[i as int]) && op_compilable(ops@[i as int])));
                }
                return Err(e);
            },
        };
        proof {
            lemma_arena_trans(b0, bprev, *bc);
        }
        let ghost out0 = out@;
        out.push(compiled);
        proof {
            lemma_ops_wf_weaken(out0, bprev.keys@.len() as int, bc.keys@.len() as int);
            lemma_ops_wf_push(out0, compiled, bc.keys@.len() as int);
        }
        i += 1;
    }
    proof {
        lemma_ops_from_pointwise(out@, ops@);
    }
    Ok(out)
}

/// Pushing a well-formed operation keeps the list well formed.
proof fn lemma_ops_wf_push(ops: Seq<LoadedOp>, op: LoadedOp, bound: int)
    requires
        ops_wf(ops, bound),
        op_wf(op, bound),
    ensures
        ops_wf(ops.push(op), bound),
    decreases ops,
{
    if ops.len() == 0 {
        assert(ops.push(op).first() == op);
        assert(ops.push(op).drop_first() =~= Seq::<LoadedOp>::empty());
        assert(ops_wf(ops.push(op).drop_first(), bound));
        assert(ops_wf(ops.push(op), bound));
    } else {
        assert(ops.push(op).first() == ops.first());
        assert(ops.push(op).drop_first() =~= ops.drop_first().push(op));
        lemma_ops_wf_push(ops.drop_first(), op, bound);
        assert(ops_wf(ops.push(op), bound));
    }
}

fn compile_parsed_op(op: &ParsedRouterOp, cache: &ParseCache, bc: &mut BuildCache, fuel: u32) -> (r:
    Result<LoadedOp, ConfigError>)
    requires
        old(bc).wf(),
        cache.wf(),
        bc_matches(*old(bc), *cache),
        fuel >= 1,
    ensures
        final(bc).wf(),
        bc_matches(*final(bc), *cache),
        arena_preserved(*old(bc), *final(bc)),
        r matches Ok(o) ==> op_wf(o, final(bc).keys@.len() as int) && op_from(o, *op),
        r is Ok ==> op_compilable(*op),
        op_use_free(*op) && op_compilable(*op) ==> r is Ok,
        r matches Ok(o) ==> (match (o, op) {
            (LoadedOp::Use(u), ParsedRouterOp::Use(dep)) => (u as int) < final(bc).keys@.len()
                && dep_key_at(*dep, *cache, final(bc).keys@[u as int]),
            _ => true,
        }),
    decreases fuel, 0int, pop_size(*op),
{
    match op {
        ParsedRouterOp::Branch(b) => {
            let cond = match compile_cond(&b.cond) {
                Ok(c) => c,
                Err(e) => {
                    return Err(e);
                },
            };
            let then_ops = match compile_parsed_ops(&b.then_ops, cache, bc, fuel) {
                Ok(o) => o,
                Err(e) => {
                    return Err(e);
                },
            };
            let ghost bmid = *bc;
            let else_ops = match compile_parsed_ops(&b.else_ops, cache, bc, fuel) {
                Ok(o) => o,
                Err(e) => {
                    proof {
                        lemma_arena_trans(*old(bc), bmid, *bc);
                    }
                    return Err(e);
                },
            };
            proof {
                lemma_arena_trans(*old(bc), bmid, *bc);
                lemma_ops_wf_weaken(then_ops@, bmid.keys@.len() as int, bc.keys@.len() as int);
                assert(op->Branch_0 == *b);
            }
            Ok(LoadedOp::Branch(cond, then_ops, else_ops))
        },
        ParsedRouterOp::SetScheme(s) => Ok(LoadedOp::SetScheme(*s)),
        ParsedRouterOp::SetHost(h) => {
            match compile_tpl(h) {
                Ok(t) => Ok(LoadedOp::SetHost(t)),
                Err(e) => Err(e),
            }
        },
        ParsedRouterOp::SetPort(p) => Ok(LoadedOp::SetPort(*p)),
        ParsedRouterOp::SetPath(p) => {
            match compile_tpl(p) {
                Ok(t) => Ok(LoadedOp::SetPath(t)),
                Err(e) => Err(e),
            }
        },
        ParsedRouterOp::HeaderSet(m) => {
            match compile_tpl_pairs(m) {
                Ok(t) => Ok(LoadedOp::HeaderSet(t)),
                Err(e) => Err(e),
            }
        },
        ParsedRouterOp::HeaderAdd(m) => {
            match compile_tpl_pairs(m) {
                Ok(t) => Ok(LoadedOp::HeaderAdd(t)),
                Err(e) => Err(e),
            }
        },
        ParsedRouterOp::HeaderDelete(v) => Ok(LoadedOp::HeaderDelete(crate::parse::copy_names(v))),
        ParsedRouterOp::HeaderClear => Ok(LoadedOp::HeaderClear),
        ParsedRouterOp::QuerySet(m) => {
            match compile_tpl_pairs(m) {
                Ok(t) => Ok(LoadedOp::QuerySet(t)),
                Err(e) => Err(e),
            }
        },
        ParsedRouterOp::QueryAdd(m) => {
            match compile_tpl_pairs(m) {
                Ok(t) => Ok(LoadedOp::QueryAdd(t)),
                Err(e) => Err(e),
            }
        },
        ParsedRouterOp::QueryDelete(v) => Ok(LoadedOp::QueryDelete(crate::parse::copy_names(v))),
        ParsedRouterOp::QueryClear => Ok(LoadedOp::QueryClear),
        ParsedRouterOp::InternalRewrite => Ok(LoadedOp::InternalRewrite),
        ParsedRouterOp::Redirect { status, location } => {
            match compile_tpl(location) {
                Ok(t) => Ok(LoadedOp::Redirect { status: *status, location: t }),
                Err(e) => Err(e),
            }
        },
        ParsedRouterOp::Respond { status, body, headers } => {
            let body2 = match body {
                Some(b) => {
                    match compile_tpl(b) {
                        Ok(t) => Some(t),
                        Err(e) => {
                            return Err(e);
                        },
                    }
                },
                None => None,
            };
            let headers2 = match compile_tpl_pairs(headers) {
                Ok(t) => t,
                Err(e) => {
                    return Err(e);
                },
            };
            Ok(LoadedOp::Respond { status: *status, body: body2, headers: headers2 })
        },
        ParsedRouterOp::Use(dep) => {
            match resolve_dep(dep, cache, bc, fuel) {
                Ok(i) => Ok(LoadedOp::Use(i)),
                Err(e) => Err(e),
            }
        },
    }
}

/// Compile one template, or fail the build.
fn compile_tpl(raw: &String) -> (r: Result<CompiledTemplate, ConfigError>)
    ensures
        r is Ok <==> tpl_compilable(raw@),
        r matches Ok(t) ==> tpl_ok(t, raw@),
{
    match compile_template(raw.as_str()) {
        Ok(t) => Ok(t),
        Err(_) => {
            let mut m = ("template does not compile: ").to_owned();
            m.append(raw.as_str());
            Err(ConfigError::Invalid(m))
        },
    }
}

/// Templates of a name-to-template list, all compiled.
pub open spec fn tpl_pairs_ok(r: Seq<(String, CompiledTemplate)>, src: Seq<(String, String)>) -> bool {
    &&& r.len() == src.len()
    &&& forall|i: int|
        0 <= i < r.len() ==> (#[trigger] r[i]).0@ == src[i].0@ && tpl_ok(r[i].1, src[i].1@)
}

fn compile_tpl_pairs(src: &Vec<(String, String)>) -> (r: Result<
    Vec<(String, CompiledTemplate)>,
    ConfigError,
>)
    ensures
        r matches Ok(t) ==> tpl_pairs_ok(t@, src@),
        r is Ok <==> pairs_compilable(src@),
{
    let mut out: Vec<(String, CompiledTemplate)> = Vec::new();
    let mut i: usize = 0;
    while i < src.len()
        invariant
            i <= src@.len(),
            out@.len() == i,
            forall|j: int|
                0 <= j < i ==> (#[trigger] out@[j]).0@ == src@[j].0@ && tpl_ok(out@[j].1, src@[j].1@),
            forall|j: int| 0 <= j < i ==> tpl_compilable((#[trigger] src@[j]).1@),
        decreases src@.len() - i,
    {
        let t = match compile_tpl(&src[i].1) {
            Ok(t) => t,
            Err(e) => {
                return Err(e);
            },
        };
        out.push((src[i].0.clone(), t));
        i += 1;
    }
    Ok(out)
}

/// Every pattern of the clause compiles in its context.
pub open spec fn match_compilable(m: RouterMatch) -> bool {
    &&& match m.host {
        Some(raw) => pat_compilable(CtxKind::Host, raw@),
        None => true,
    }
    &&& match m.path {
        Some(raw) => pat_compilable(CtxKind::Path, raw@),
        None => true,
    }
    &&& forall|i: int|
        0 <= i < m.headers@.len() ==> pat_compilable(
            CtxKind::Value,
            (#[trigger] m.headers@[i]).pattern@,
        )
    &&& forall|i: int|
        0 <= i < m.queries@.len() ==> pat_compilable(
            CtxKind::Value,
            (#[trigger] m.queries@[i]).pattern@,
        )
    &&& forall|i: int|
        0 <= i < m.cookies@.len() ==> pat_compilable(
            CtxKind::Value,
            (#[trigger] m.cookies@[i]).pattern@,
        )
}

/// The compiled match corresponds to its clause: same pieces, each
/// pattern compiled in its context, header names case-folded.
pub open spec fn match_ok(cm: CompiledRouterMatch, m: RouterMatch) -> bool {
    &&& match (cm.host, m.host) {
        (Some(p), Some(raw)) => pat_ok(p, CtxKind::Host, raw@),
        (None, None) => true,
        _ => false,
    }
    &&& match (cm.path, m.path) {
        (Some(p), Some(raw)) => pat_ok(p, CtxKind::Path, raw@),
        (None, None) => true,
        _ => false,
    }
    &&& cm.methods@ == m.methods@
    &&& cm.headers@.len() == m.headers@.len()
    &&& forall|i: int|
        0 <= i < cm.headers@.len() ==> (#[trigger] cm.headers@[i]).name@ == lower_seq(
            m.headers@[i].name@,
        ) && pat_ok(cm.headers@[i].pattern, CtxKind::Value, m.headers@[i].pattern@)
            && cm.headers@[i].not == m.headers@[i].not
    &&& cm.queries@.len() == m.queries@.len()
    &&& forall|i: int|
        0 <= i < cm.queries@.len() ==> (#[trigger] cm.queries@[i]).key@ == m.queries@[i].key@
            && pat_ok(cm.queries@[i].pattern, CtxKind::Value, m.queries@[i].pattern@)
            && cm.queries@[i].not == m.queries@[i].not
    &&& cm.cookies@.len() == m.cookies@.len()
    &&& forall|i: int|
        0 <= i < cm.cookies@.len() ==> (#[trigger] cm.cookies@[i]).name@ == m.cookies@[i].name@
            && pat_ok(cm.cookies@[i].pattern, CtxKind::Value, m.cookies@[i].pattern@)
            && cm.cookies@[i].not == m.cookies@[i].not
    &&& cm.scheme == m.scheme
}

/// Compile a match clause: it succeeds exactly when every pattern
/// compiles in its context.
pub fn compile_match(m: &RouterMatch) -> (r: Result<CompiledRouterMatch, ConfigError>)
    ensures
        r is Ok <==> match_compilable(*m),
        r matches Ok(cm) ==> match_ok(cm, *m),
{
    let host = match &m.host {
        Some(raw) => {
            match compile_pat(raw, CtxKind::Host) {
                Ok(p) => Some(p),
                Err(e) => {
                    return Err(e);
                },
            }
        },
        None => None,
    };
    let path = match &m.path {
        Some(raw) => {
            match compile_pat(raw, CtxKind::Path) {
                Ok(p) => Some(p),
                Err(e) => {
                    return Err(e);
                },
            }
        },
        None => None,
    };
    let mut methods: Vec<HttpMethod> = Vec::new();
    let mut mi: usize = 0;
    while mi < m.methods.len()
        invariant
            mi <= m.methods@.len(),
            methods@ == m.methods@.take(mi as int),
        decreases m.methods@.len() - mi,
    {
        methods.push(m.methods[mi]);
        proof {
            assert(methods@ =~= m.methods@.take(mi as int + 1));
        }
        mi += 1;
    }
    proof {
        assert(m.methods@.take(m.methods@.len() as int) =~= m.methods@);
    }
    let mut headers: Vec<CompiledHeaderCond> = Vec::new();
    let mut hi: usize = 0;
    while hi < m.headers.len()
        invariant
            hi <= m.headers@.len(),
            headers@.len() == hi,
            forall|i: int|
                0 <= i < hi ==> pat_compilable(CtxKind::Value, (#[trigger] m.headers@[i]).pattern@),
            forall|i: int|
                0 <= i < hi ==> (#[trigger] headers@[i]).name@ == lower_seq(m.headers@[i].name@)
                    && pat_ok(headers@[i].pattern, CtxKind::Value, m.headers@[i].pattern@)
                    && headers@[i].not == m.headers@[i].not,
        decreases m.headers@.len() - hi,
    {
        let hc = &m.headers[hi];
        let p = match compile_pat(&hc.pattern, CtxKind::Value) {
            Ok(p) => p,
            Err(e) => {
                proof {
                    assert(!pat_compilable(CtxKind::Value, m.headers@[hi as int].pattern@));
                }
                return Err(e);
            },
        };
        headers.push(
            CompiledHeaderCond { name: ascii_lower(hc.name.as_str()), pattern: p, not: hc.not },
        );
        hi += 1;
    }
    let mut queries: Vec<CompiledQueryCond> = Vec::new();
    let mut qi: usize = 0;
    while qi < m.queries.len()
        invariant
            qi <= m.queries@.len(),
            queries@.len() == qi,
            forall|i: int|
                0 <= i < qi ==> pat_compilable(CtxKind::Value, (#[trigger] m.queries@[i]).pattern@),
            forall|i: int|
                0 <= i < qi ==> (#[trigger] queries@[i]).key@ == m.queries@[i].key@ && pat_ok(
                    queries@[i].pattern,
                    CtxKind::Value,
                    m.queries@[i].pattern@,
                ) && queries@[i].not == m.queries@[i].not,
        decreases m.queries@.len() - qi,
    {
        let qc = &m.queries[qi];
        let p = match compile_pat(&qc.pattern, CtxKind::Value) {
            Ok(p) => p,
            Err(e) => {
                proof {
                    assert(!pat_compilable(CtxKind::Value, m.queries@[qi as int].pattern@));
                }
                return Err(e);
            },
        };
        queries.push(CompiledQueryCond { key: qc.key.clone(), pattern: p, not: qc.not });
        qi += 1;
    }
    let mut cookies: Vec<CompiledCookieCond> = Vec::new();
    let mut ci: usize = 0;
    while ci < m.cookies.len()
        invariant
            ci <= m.cookies@.len(),
            cookies@.len() == ci,
            forall|i: int|
                0 <= i < ci ==> pat_compilable(CtxKind::Value, (#[trigger] m.cookies@[i]).pattern@),
            forall|i: int|
                0 <= i < ci ==> (#[trigger] cookies@[i]).name@ == m.cookies@[i].name@ && pat_ok(
                    cookies@[i].pattern,
                    CtxKind::Value,
                    m.cookies@[i].pattern@,
                ) && cookies@[i].not == m.cookies@[i].not,
        decreases m.cookies@.len() - ci,
    {
        let cc = &m.cookies[ci];
        let p = match compile_pat(&cc.pattern, CtxKind::Value) {
            Ok(p) => p,
            Err(e) => {
                proof {
                    assert(!pat_compilable(CtxKind::Value, m.cookies@[ci as int].pattern@));
                }
                return Err(e);
            },
        };
        cookies.push(CompiledCookieCond { name: cc.name.clone(), pattern: p, not: cc.not });
        ci += 1;
    }
    Ok(CompiledRouterMatch { host, path, methods, headers, queries, cookies, scheme: m.scheme })
}

/// Compile one pattern, or fail the build.
fn compile_pat(raw: &String, kind: CtxKind) -> (r: Result<CompiledPattern, ConfigError>)
    ensures
        r is Ok <==> pat_compilable(kind, raw@),
        r matches Ok(p) ==> pat_ok(p, kind, raw@),
{
    match compile(raw.as_str(), kind) {
        Ok(p) => Ok(p),
        Err(_) => {
            let mut m = ("pattern does not compile: ").to_owned();
            m.append(raw.as_str());
            Err(ConfigError::Invalid(m))
        },
    }
}

/// Which context a condition's pattern uses: the hint wins, else the
/// variable name decides.
pub open spec fn spec_select_ctx(var: Seq<char>, hint: Option<PatternCtxHint>) -> CtxKind {
    match hint {
        Some(PatternCtxHint::Host) => CtxKind::Host,
        Some(PatternCtxHint::Path) => CtxKind::Path,
        Some(PatternCtxHint::Value) => CtxKind::Value,
        None => if var == "host"@ {
            CtxKind::Host
        } else if var == "path"@ {
            CtxKind::Path
        } else {
            CtxKind::Value
        },
    }
}

/// Pick the pattern context for a condition variable.
pub fn select_pattern_ctx(var: &str, hint: &Option<PatternCtxHint>) -> (r: CtxKind)
    ensures
        r == spec_select_ctx(var@, *hint),
{
    match hint {
        Some(PatternCtxHint::Host) => CtxKind::Host,
        Some(PatternCtxHint::Path) => CtxKind::Path,
        Some(PatternCtxHint::Value) => CtxKind::Value,
        None => {
            if str_eq(var, "host") {
                CtxKind::Host
            } else if str_eq(var, "path") {
                CtxKind::Path
            } else {
                CtxKind::Value
            }
        },
    }
}

/// Every pattern inside the condition tree compiles in its inferred
/// context.
pub open spec fn cond_compilable(c: CondNode) -> bool
    decreases c,
{
    match c {
        CondNode::All { all } => forall|i: int|
            0 <= i < all@.len() ==> cond_compilable(#[trigger] all@[i]),
        CondNode::Any { any } => forall|i: int|
            0 <= i < any@.len() ==> cond_compilable(#[trigger] any@[i]),
        CondNode::Not { not } => cond_compilable(*not),
        CondNode::Test(t) => match t.cond {
            BasicCond::Pattern { pattern, ctx } => pat_compilable(
                spec_select_ctx(t.var@, ctx),
                pattern@,
            ),
            _ => true,
        },
    }
}

/// The compiled condition corresponds to its tree.
pub open spec fn cond_ok(cc: CompiledCondNode, c: CondNode) -> bool
    decreases c,
{
    match (cc, c) {
        (CompiledCondNode::All(xs), CondNode::All { all }) => xs@.len() == all@.len() && forall|
            i: int,
        |
            0 <= i < xs@.len() ==> cond_ok(#[trigger] xs@[i], all@[i]),
        (CompiledCondNode::Any(xs), CondNode::Any { any }) => xs@.len() == any@.len() && forall|
            i: int,
        |
            0 <= i < xs@.len() ==> cond_ok(#[trigger] xs@[i], any@[i]),
        (CompiledCondNode::Not(x), CondNode::Not { not }) => cond_ok(*x, *not),
        (CompiledCondNode::Test(tc), CondNode::Test(t)) => {
            &&& tc.var@ == t.var@
            &&& match (tc.cond, t.cond) {
                (CompiledBasicCond::Equals(a), BasicCond::Equals { is }) => crate::parse::cv_equiv(
                    a,
                    is,
                ),
                (CompiledBasicCond::In(xs), BasicCond::In { values }) => xs@.len()
                    == values@.len() && forall|i: int|
                    0 <= i < xs@.len() ==> crate::parse::cv_equiv(#[trigger] xs@[i], values@[i]),
                (CompiledBasicCond::Present(a), BasicCond::Present { present }) => a == present,
                (CompiledBasicCond::Pattern(p), BasicCond::Pattern { pattern, ctx }) => pat_ok(
                    p,
                    spec_select_ctx(t.var@, ctx),
                    pattern@,
                ),
                _ => false,
            }
        },
        _ => false,
    }
}

/// Compile a condition tree: it succeeds exactly when every pattern
/// in it compiles.
pub fn compile_cond(c: &CondNode) -> (r: Result<CompiledCondNode, ConfigError>)
    ensures
        r is Ok <==> cond_compilable(*c),
        r matches Ok(cc) ==> cond_ok(cc, *c),
    decreases *c,
{
    match c {
        CondNode::All { all } => {
            let mut out: Vec<CompiledCondNode> = Vec::new();
            let mut i: usize = 0;
            while i < all.len()
                invariant
                    i <= all@.len(),
                    out@.len() == i,
                    *c matches CondNode::All { all: a2 } && a2 == *all,
                    forall|j: int| 0 <= j < i ==> cond_compilable(#[trigger] all@[j]),
                    forall|j: int| 0 <= j < i ==> cond_ok(#[trigger] out@[j], all@[j]),
                decreases all@.len() - i,
            {
                proof {
                    assert(c->all == *all);
                    assert(decreases_to!(*c => c->all));
                    assert(decreases_to!(c->all => c->all@));
                    assert(decreases_to!(c->all@ => c->all@[i as int]));
                }
                let cc = match compile_cond(&all[i]) {
                    Ok(cc) => cc,
                    Err(e) => {
                        proof {
                            assert(!cond_compilable(all@[i as int]));
                        }
                        return Err(e);
                    },
                };
                out.push(cc);
                i += 1;
            }
            Ok(CompiledCondNode::All(out))
        },
        CondNode::Any { any } => {
            let mut out: Vec<CompiledCondNode> = Vec::new();
            let mut i: usize = 0;
            while i < any.len()
                invariant
                    i <= any@.len(),
                    out@.len() == i,
                    *c matches CondNode::Any { any: a2 } && a2 == *any,
                    forall|j: int| 0 <= j < i ==> cond_compilable(#[trigger] any@[j]),
                    forall|j: int| 0 <= j < i ==> cond_ok(#[trigger] out@[j], any@[j]),
                decreases any@.len() - i,
            {
                proof {
                    assert(c->any == *any);
                    assert(decreases_to!(*c => c->any));
                    assert(decreases_to!(c->any => c->any@));
                    assert(decreases_to!(c->any@ => c->any@[i as int]));
                }
                let cc = match compile_cond(&any[i]) {
                    Ok(cc) => cc,
                    Err(e) => {
                        proof {
                            assert(!cond_compilable(any@[i as int]));
                        }
                        return Err(e);
                    },
                };
                out.push(cc);
                i += 1;
            }
            Ok(CompiledCondNode::Any(out))
        },
        CondNode::Not { not } => {
            match compile_cond(not) {
                Ok(cc) => Ok(CompiledCondNode::Not(Box::new(cc))),
                Err(e) => Err(e),
            }
        },
        CondNode::Test(t) => {
            let cond = match &t.cond {
                BasicCond::Equals { is } => CompiledBasicCond::Equals(copy_cv(is)),
                BasicCond::In { values } => {
                    let mut out: Vec<CondValue> = Vec::new();
                    let mut i: usize = 0;
                    while i < values.len()
                        invariant
                            i <= values@.len(),
                            out@.len() == i,
                            forall|j: int|
                                0 <= j < i ==> crate::parse::cv_equiv(
                                    #[trigger] out@[j],
                                    values@[j],
                                ),
                        decreases values@.len() - i,
                    {
                        out.push(copy_cv(&values[i]));
                        i += 1;
                    }
                    CompiledBasicCond::In(out)
                },
                BasicCond::Present { present } => CompiledBasicCond::Present(*present),
                BasicCond::Pattern { pattern, ctx } => {
                    let kind = select_pattern_ctx(t.var.as_str(), ctx);
                    let p = match compile_pat(pattern, kind) {
                        Ok(p) => p,
                        Err(e) => {
                            return Err(e);
                        },
                    };
                    CompiledBasicCond::Pattern(p)
                },
            };
            Ok(CompiledCondNode::Test(CompiledTestCond { var: t.var.clone(), cond }))
        },
    }
}

/// A content-equal copy of a condition value.
fn copy_cv(v: &CondValue) -> (r: CondValue)
    ensures
        crate::parse::cv_equiv(r, *v),
{
    match v {
        CondValue::Str(s) => CondValue::Str(s.clone()),
        CondValue::Other => CondValue::Other,
    }
}

} // verus!
