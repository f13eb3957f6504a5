//! The service-graph parser: resolving inline and imported service
//! references into a flat, content-addressed collection of parsed
//! nodes, with cycle detection over the import stack and dedup by
//! `ServiceKey`.  Files are read by the caller: the parser asks for a
//! missing document with `ConfigError::NeedsFile`, so resolution
//! itself is pure.

use vstd::prelude::*;

use crate::config_types::{
    BasicCond, BranchOp, CondNode, CondValue, CookieCond, ForwardService, HeaderCond, QueryCond,
    RouterMatch, RouterOp, RouterRule, RouterService, Service, ServiceRef, StaticService,
};
use crate::encode::{enc_service, service_hash, sha256_hex, ServiceKey};
use crate::paths::{canon_model, canonicalize, join_model, join_path};
use crate::strutil::str_eq;

verus! {

/// Why a build cannot proceed.
#[derive(Debug, Clone)]
pub enum ConfigError {
    /// The document at this canonical path must be loaded first.
    NeedsFile(String),
    /// An import chain re-entered this canonical path.
    ImportCycle(String),
    /// A malformed construct, with a description.
    Invalid(String),
}

impl ConfigError {
    /// A human-readable description of the error.
    pub fn message(&self) -> (r: String)
        ensures
            true,
    {
        match self {
            ConfigError::NeedsFile(p) => {
                let mut m = ("missing service document: ").to_owned();
                m.append(p.as_str());
                m
            },
            ConfigError::ImportCycle(p) => {
                let mut m = ("service import cycle at ").to_owned();
                m.append(p.as_str());
                m
            },
            ConfigError::Invalid(d) => {
                let mut m = ("invalid: ").to_owned();
                m.append(d.as_str());
                m
            },
        }
    }
}

impl Clone for ServiceKey {
    /// An identical key.
    fn clone(&self) -> (r: Self)
        ensures
            r == *self,
    {
        ServiceKey { base_dir: self.base_dir.clone(), hash: self.hash.clone() }
    }
}

/// How a router refers to a child service.
#[derive(Debug)]
pub enum ServiceDep {
    ImportPath(String),
    Inline(ServiceKey),
}

impl ServiceDep {
    /// Equality of dependencies, by content.
    pub open spec fn dep_eq(self, other: ServiceDep) -> bool {
        match (self, other) {
            (ServiceDep::ImportPath(a), ServiceDep::ImportPath(b)) => a@ == b@,
            (ServiceDep::Inline(a), ServiceDep::Inline(b)) => a.key_eq(b),
            _ => false,
        }
    }
}

/// Content-equality test for dependencies.
pub fn dep_eq_fn(a: &ServiceDep, b: &ServiceDep) -> (r: bool)
    ensures
        r == a.dep_eq(*b),
{
    match (a, b) {
        (ServiceDep::ImportPath(x), ServiceDep::ImportPath(y)) => str_eq(x.as_str(), y.as_str()),
        (ServiceDep::Inline(x), ServiceDep::Inline(y)) => str_eq(
            x.base_dir.as_str(),
            y.base_dir.as_str(),
        ) && str_eq(x.hash.as_str(), y.hash.as_str()),
        _ => false,
    }
}

/// A parsed static service.
#[derive(Debug)]
pub struct ParsedStatic {
    pub base_dir: String,
    pub config: StaticService,
}

/// A parsed forward service.
#[derive(Debug)]
pub struct ParsedForward {
    pub base_dir: String,
    pub config: ForwardService,
}

/// A parsed router: its rules with child references resolved to
/// dependencies, plus its bookkeeping.
#[derive(Debug)]
pub struct ParsedRouter {
    pub base_dir: String,
    pub rules: Vec<ParsedRouterRule>,
    pub next: Option<ServiceDep>,
    pub deps: Vec<ServiceDep>,
    pub max_steps: Option<u32>,
}

/// One parsed rule.
#[derive(Debug)]
pub struct ParsedRouterRule {
    pub when: Option<RouterMatch>,
    pub ops: Vec<ParsedRouterOp>,
    pub on_match: crate::config_types::OnMatch,
}

/// One parsed operation; `Use` now points at a dependency.
#[derive(Debug)]
pub enum ParsedRouterOp {
    Branch(ParsedBranchOp),
    SetScheme(crate::httptypes::Scheme),
    SetHost(String),
    SetPort(u16),
    SetPath(String),
    HeaderSet(Vec<(String, String)>),
    HeaderAdd(Vec<(String, String)>),
    HeaderDelete(Vec<String>),
    HeaderClear,
    QuerySet(Vec<(String, String)>),
    QueryAdd(Vec<(String, String)>),
    QueryDelete(Vec<String>),
    QueryClear,
    InternalRewrite,
    Redirect { status: crate::config_types::RedirectCode, location: String },
    Respond { status: u16, body: Option<String>, headers: Vec<(String, String)> },
    Use(ServiceDep),
}

/// A parsed conditional operation.
#[derive(Debug)]
pub struct ParsedBranchOp {
    pub cond: CondNode,
    pub then_ops: Vec<ParsedRouterOp>,
    pub else_ops: Vec<ParsedRouterOp>,
}

/// A parsed service of any kind.
#[derive(Debug)]
pub enum ParsedService {
    Static(ParsedStatic),
    Forward(ParsedForward),
    Router(ParsedRouter),
}

/// The documents imports resolve against: canonical path to content.
#[derive(Debug)]
pub struct DocStore {
    pub docs: Vec<(String, ServiceRef)>,
}

impl DocStore {
    pub fn new() -> (r: DocStore)
        ensures
            r.docs@.len() == 0,
    {
        DocStore { docs: Vec::new() }
    }

    /// Index of the first document at this path.
    pub fn find(&self, path: &str) -> (r: Option<usize>)
        ensures
            match r {
                Some(i) => i < self.docs@.len() && self.docs@[i as int].0@ == path@,
                None => forall|j: int| 0 <= j < self.docs@.len() ==> self.docs@[j].0@ != path@,
            },
    {
        let mut i: usize = 0;
        while i < self.docs.len()
            invariant
                i <= self.docs@.len(),
                forall|j: int| 0 <= j < i ==> self.docs@[j].0@ != path@,
            decreases self.docs@.len() - i,
        {
            if str_eq(self.docs[i].0.as_str(), path) {
                return Some(i);
            }
            i += 1;
        }
        None
    }
}

/// The build-scoped parse state: parsed nodes by key, plus the import
/// and file indexes.
#[derive(Debug)]
pub struct ParseCache {
    pub key_to_parsed: Vec<(ServiceKey, ParsedService)>,
    pub import_to_key: Vec<(String, ServiceKey)>,
    pub file_to_keys: Vec<(String, Vec<ServiceKey>)>,
}

/// No two entries carry the same key.
pub open spec fn cache_keys_unique(entries: Seq<(ServiceKey, ParsedService)>) -> bool {
    forall|i: int, j: int|
        0 <= i < j < entries.len() ==> !(#[trigger] entries[i].0.key_eq(#[trigger] entries[j].0))
}

impl ParseCache {
    pub fn new() -> (r: ParseCache)
        ensures
            r.key_to_parsed@.len() == 0,
            r.import_to_key@.len() == 0,
            r.file_to_keys@.len() == 0,
            r.wf(),
    {
        ParseCache {
            key_to_parsed: Vec::new(),
            import_to_key: Vec::new(),
            file_to_keys: Vec::new(),
        }
    }

    /// The cache never holds two parsed nodes under one key, and
    /// every import-resolved key names a parsed node.
    pub open spec fn wf(&self) -> bool {
        &&& cache_keys_unique(self.key_to_parsed@)
        &&& import_targets_present(self.key_to_parsed@, self.import_to_key@)
    }

    /// Index of the entry for `k`, if one exists.
    pub fn find_key(&self, k: &ServiceKey) -> (r: Option<usize>)
        ensures
            match r {
                Some(i) => i < self.key_to_parsed@.len() && self.key_to_parsed@[i as int].0.key_eq(
                    *k,
                ),
                None => forall|j: int|
                    0 <= j < self.key_to_parsed@.len() ==> !(#[trigger] self.key_to_parsed@[j].0.key_eq(
                        *k,
                    )),
            },
    {
        let mut i: usize = 0;
        while i < self.key_to_parsed.len()
            invariant
                i <= self.key_to_parsed@.len(),
                forall|j: int|
                    0 <= j < i ==> !(#[trigger] self.key_to_parsed@[j].0.key_eq(*k)),
            decreases self.key_to_parsed@.len() - i,
        {
            if str_eq(self.key_to_parsed[i].0.base_dir.as_str(), k.base_dir.as_str()) && str_eq(
                self.key_to_parsed[i].0.hash.as_str(),
                k.hash.as_str(),
            ) {
                return Some(i);
            }
            i += 1;
        }
        None
    }

    /// The key an import path resolved to, if it was resolved.
    pub fn find_import(&self, path: &str) -> (r: Option<usize>)
        ensures
            match r {
                Some(i) => i < self.import_to_key@.len() && self.import_to_key@[i as int].0@
                    == path@,
                None => forall|j: int|
                    0 <= j < self.import_to_key@.len() ==> self.import_to_key@[j].0@ != path@,
            },
    {
        let mut i: usize = 0;
        while i < self.import_to_key.len()
            invariant
                i <= self.import_to_key@.len(),
                forall|j: int| 0 <= j < i ==> self.import_to_key@[j].0@ != path@,
            decreases self.import_to_key@.len() - i,
        {
            if str_eq(self.import_to_key[i].0.as_str(), path) {
                return Some(i);
            }
            i += 1;
        }
        None
    }
}

/// The cache already holds a parsed node under this inline identity.
pub open spec fn cache_has_key_v(c: ParseCache, b: Seq<char>, h: Seq<char>) -> bool {
    exists|j: int|
        0 <= j < c.key_to_parsed@.len() && (#[trigger] c.key_to_parsed@[j]).0.base_dir@ == b
            && c.key_to_parsed@[j].0.hash@ == h
}

/// The import index already resolves this canonical path.
pub open spec fn import_mapped(c: ParseCache, p: Seq<char>) -> bool {
    exists|j: int| 0 <= j < c.import_to_key@.len() && (#[trigger] c.import_to_key@[j]).0@ == p
}

/// Some parsed entry carries this key.
pub open spec fn target_present(ktp: Seq<(ServiceKey, ParsedService)>, k: ServiceKey) -> bool {
    exists|i: int| 0 <= i < ktp.len() && (#[trigger] ktp[i]).0.key_eq(k)
}

/// Every import-resolved key names a parsed node.
pub open spec fn import_targets_present(
    ktp: Seq<(ServiceKey, ParsedService)>,
    itk: Seq<(String, ServiceKey)>,
) -> bool {
    forall|j: int| 0 <= j < itk.len() ==> target_present(ktp, (#[trigger] itk[j]).1)
}

/// Import targets stay present when keys are preserved pointwise.
proof fn lemma_targets_keys_preserved(
    a_ktp: Seq<(ServiceKey, ParsedService)>,
    itk: Seq<(String, ServiceKey)>,
    b_ktp: Seq<(ServiceKey, ParsedService)>,
)
    requires
        import_targets_present(a_ktp, itk),
        b_ktp.len() >= a_ktp.len(),
        forall|i: int| 0 <= i < a_ktp.len() ==> (#[trigger] b_ktp[i]).0 == a_ktp[i].0,
    ensures
        import_targets_present(b_ktp, itk),
{
    assert forall|j: int| 0 <= j < itk.len() implies target_present(
        b_ktp,
        (#[trigger] itk[j]).1,
    ) by {
        assert(target_present(a_ktp, itk[j].1));
        let w = choose|i: int|
            0 <= i < a_ktp.len() && (#[trigger] a_ktp[i]).0.key_eq(itk[j].1);
        assert(b_ktp[w].0.key_eq(itk[j].1));
    }
}

/// Import targets stay present when a mapping whose key is already
/// parsed is appended.
proof fn lemma_targets_push_mapping(
    ktp: Seq<(ServiceKey, ParsedService)>,
    itk: Seq<(String, ServiceKey)>,
    pair: (String, ServiceKey),
)
    requires
        import_targets_present(ktp, itk),
        target_present(ktp, pair.1),
    ensures
        import_targets_present(ktp, itk.push(pair)),
{
    let itk2 = itk.push(pair);
    assert forall|j: int| 0 <= j < itk2.len() implies target_present(
        ktp,
        (#[trigger] itk2[j]).1,
    ) by {
        if j < itk.len() {
            assert(itk2[j] == itk[j]);
            assert(target_present(ktp, itk[j].1));
        } else {
            assert(itk2[j] == pair);
        }
    }
}

/// No document is stored under this canonical path.
pub open spec fn doc_absent(docs: DocStore, p: Seq<char>) -> bool {
    forall|j: int| 0 <= j < docs.docs@.len() ==> (#[trigger] docs.docs@[j]).0@ != p
}

/// Keys of existing entries and import resolutions survive every
/// parser step.
pub open spec fn cache_keys_preserved(old_c: ParseCache, new_c: ParseCache) -> bool {
    &&& new_c.key_to_parsed@.len() >= old_c.key_to_parsed@.len()
    &&& forall|i: int|
        0 <= i < old_c.key_to_parsed@.len() ==> #[trigger] new_c.key_to_parsed@[i].0
            == old_c.key_to_parsed@[i].0
    &&& new_c.import_to_key@.len() >= old_c.import_to_key@.len()
    &&& forall|i: int|
        0 <= i < old_c.import_to_key@.len() ==> #[trigger] new_c.import_to_key@[i]
            == old_c.import_to_key@[i]
}

/// A resolved import stays resolved as the cache grows.
proof fn lemma_import_mapped_mono(c1: ParseCache, c2: ParseCache, p: Seq<char>)
    requires
        import_mapped(c1, p),
        cache_keys_preserved(c1, c2),
    ensures
        import_mapped(c2, p),
{
    let w = choose|j: int|
        0 <= j < c1.import_to_key@.len() && (#[trigger] c1.import_to_key@[j]).0@ == p;
    assert(c2.import_to_key@[w] == c1.import_to_key@[w]);
    assert((c2.import_to_key@[w]).0@ == p);
}

/// Preserved keys compose across two steps.
proof fn lemma_keys_preserved_trans(a: ParseCache, b: ParseCache, c: ParseCache)
    requires
        cache_keys_preserved(a, b),
        cache_keys_preserved(b, c),
    ensures
        cache_keys_preserved(a, c),
{
    assert forall|i: int|
        0 <= i < a.key_to_parsed@.len() implies #[trigger] c.key_to_parsed@[i].0
        == a.key_to_parsed@[i].0 by {
        assert(b.key_to_parsed@[i].0 == a.key_to_parsed@[i].0);
    }
}

/// Is `path` on the import stack?
fn stack_contains(stack: &Vec<String>, path: &str) -> (r: bool)
    ensures
        r == stack.deep_view().contains(path@),
{
    let mut i: usize = 0;
    while i < stack.len()
        invariant
            i <= stack@.len(),
            forall|j: int| 0 <= j < i ==> stack.deep_view()[j] != path@,
        decreases stack@.len() - i,
    {
        if str_eq(stack[i].as_str(), path) {
            assert(stack.deep_view()[i as int] == path@);
            return true;
        }
        i += 1;
    }
    false
}

/// The directory part of a canonical path: everything before the last
/// slash, or the fallback when there is none.
fn parent_dir(p: &str, fallback: &str) -> (r: String)
    ensures
        true,
{
    let n = p.unicode_len();
    let mut last_slash: Option<usize> = None;
    let mut i: usize = 0;
    while i < n
        invariant
            i <= n,
            n == p@.len(),
            match last_slash {
                Some(x) => x < i && p@[x as int] == '/',
                None => true,
            },
        decreases n - i,
    {
        if p.get_char(i) == '/' {
            last_slash = Some(i);
        }
        i += 1;
    }
    match last_slash {
        Some(x) => p.substring_char(0, x).to_owned(),
        None => fallback.to_owned(),
    }
}

/// Resolve a service reference into the cache: the result names the
/// parsed node, every inline definition is keyed by its base
/// directory and content hash, and existing entries are reused, never
/// duplicated.
#[verifier::rlimit(100)]
#[verifier::spinoff_prover]
pub fn parse_service_ref(
    svc: &ServiceRef,
    base_dir: &str,
    cache: &mut ParseCache,
    docs: &DocStore,
) -> (r: Result<ServiceKey, ConfigError>)
    requires
        old(cache).wf(),
    ensures
        final(cache).wf(),
        cache_keys_preserved(*old(cache), *final(cache)),
        match r {
            Ok(key) => match svc {
                ServiceRef::Inline(s) => key.base_dir@ == canon_model(base_dir@) && key.hash@
                    == sha256_hex(enc_service(*s)),
                ServiceRef::Import { .. } => true,
            },
            Err(_) => true,
        },
        r matches Ok(key) ==> cache_has_key_v(*final(cache), key.base_dir@, key.hash@),
        (match svc {
            ServiceRef::Inline(s) => cache_has_key_v(
                *old(cache),
                canon_model(base_dir@),
                sha256_hex(enc_service(*s)),
            ),
            ServiceRef::Import { .. } => false,
        }) ==> r is Ok && *final(cache) == *old(cache),
        (match svc {
            ServiceRef::Import { import } => import_mapped(
                *old(cache),
                canon_model(join_model(base_dir@, import@)),
            ),
            ServiceRef::Inline(_) => false,
        }) ==> r is Ok && *final(cache) == *old(cache),
        (match svc {
            ServiceRef::Inline(s) => !(s is Router),
            ServiceRef::Import { .. } => false,
        }) ==> final(cache).key_to_parsed@.len() <= old(cache).key_to_parsed@.len() + 1,
        r matches Err(e) ==> (e matches ConfigError::NeedsFile(p) ==> doc_absent(*docs, p@)),
        match svc {
            ServiceRef::Import { import } => r is Ok ==> import_mapped(
                *final(cache),
                canon_model(join_model(base_dir@, import@)),
            ),
            ServiceRef::Inline(_) => true,
        },
        match svc {
            ServiceRef::Inline(s) => (!cache_has_key_v(
                *old(cache),
                canon_model(base_dir@),
                sha256_hex(enc_service(*s)),
            ) && r is Ok) ==> exists|i: int|
                0 <= i < final(cache).key_to_parsed@.len() && (
                #[trigger] final(cache).key_to_parsed@[i]).0.base_dir@ == canon_model(base_dir@)
                    && final(cache).key_to_parsed@[i].0.hash@ == sha256_hex(enc_service(*s))
                    && psvc_from(
                    final(cache).key_to_parsed@[i].1,
                    *s,
                    canon_model(base_dir@),
                    *final(cache),
                ),
            ServiceRef::Import { .. } => true,
        },
        sref_import_free(*svc) ==> r is Ok,
{
    let mut stack: Vec<String> = Vec::new();
    let fuel = if docs.docs.len() < 65535 {
        (docs.docs.len() + 1) as u32
    } else {
        65535u32
    };
    parse_service_ref_inner(svc, base_dir, cache, docs, &mut stack, fuel)
}

/// The recursion behind `parse_service_ref`.
#[verifier::rlimit(100)]
#[verifier::spinoff_prover]
pub fn parse_service_ref_inner(
    svc: &ServiceRef,
    base_dir: &str,
    cache: &mut ParseCache,
    docs: &DocStore,
    stack: &mut Vec<String>,
    fuel: u32,
) -> (r: Result<ServiceKey, ConfigError>)
    requires
        old(cache).wf(),
    ensures
        final(cache).wf(),
        cache_keys_preserved(*old(cache), *final(cache)),
        match r {
            Ok(key) => match svc {
                ServiceRef::Inline(s) => key.base_dir@ == canon_model(base_dir@) && key.hash@
                    == sha256_hex(enc_service(*s)),
                ServiceRef::Import { .. } => true,
            },
            Err(_) => true,
        },
        r matches Ok(key) ==> cache_has_key_v(*final(cache), key.base_dir@, key.hash@),
        (match svc {
            ServiceRef::Inline(s) => cache_has_key_v(
                *old(cache),
                canon_model(base_dir@),
                sha256_hex(enc_service(*s)),
            ),
            ServiceRef::Import { .. } => false,
        }) ==> r is Ok && *final(cache) == *old(cache),
        (match svc {
            ServiceRef::Import { import } => fuel >= 1 && import_mapped(
                *old(cache),
                canon_model(join_model(base_dir@, import@)),
            ),
            ServiceRef::Inline(_) => false,
        }) ==> r is Ok && *final(cache) == *old(cache),
        (match svc {
            ServiceRef::Inline(s) => !(s is Router),
            ServiceRef::Import { .. } => false,
        }) ==> final(cache).key_to_parsed@.len() <= old(cache).key_to_parsed@.len() + 1,
        r matches Err(e) ==> (e matches ConfigError::NeedsFile(p) ==> doc_absent(*docs, p@)),
        match svc {
            ServiceRef::Import { import } => (fuel >= 1 && old(stack).deep_view().contains(
                canon_model(join_model(base_dir@, import@)),
            ) && !import_mapped(*old(cache), canon_model(join_model(base_dir@, import@))))
                ==> (r matches Err(e) && e matches ConfigError::ImportCycle(pp) && pp@
                == canon_model(join_model(base_dir@, import@))),
            ServiceRef::Inline(_) => true,
        },
        match svc {
            ServiceRef::Import { import } => r is Ok ==> import_mapped(
                *final(cache),
                canon_model(join_model(base_dir@, import@)),
            ),
            ServiceRef::Inline(_) => true,
        },
        match svc {
            ServiceRef::Inline(s) => (!cache_has_key_v(
                *old(cache),
                canon_model(base_dir@),
                sha256_hex(enc_service(*s)),
            ) && r is Ok) ==> exists|i: int|
                0 <= i < final(cache).key_to_parsed@.len() && (
                #[trigger] final(cache).key_to_parsed@[i]).0.base_dir@ == canon_model(base_dir@)
                    && final(cache).key_to_parsed@[i].0.hash@ == sha256_hex(enc_service(*s))
                    && psvc_from(
                    final(cache).key_to_parsed@[i].1,
                    *s,
                    canon_model(base_dir@),
                    *final(cache),
                ),
            ServiceRef::Import { .. } => true,
        },
        sref_import_free(*svc) ==> r is Ok,
    decreases fuel, *svc,
{
    match svc {
        ServiceRef::Inline(s) => {
            let base = canonicalize(base_dir);
            let hash = service_hash(s);
            let key = ServiceKey { base_dir: base, hash };
            match cache.find_key(&key) {
                Some(i) => {
                    proof {
                        assert(cache.key_to_parsed@[i as int].0.base_dir@ == key.base_dir@
                            && cache.key_to_parsed@[i as int].0.hash@ == key.hash@);
                        assert(cache_has_key_v(*cache, key.base_dir@, key.hash@));
                    }
                    return Ok(key);
                },
                None => {
                    proof {
                        assert forall|j: int|
                            0 <= j < cache.key_to_parsed@.len() implies !((
                        #[trigger] cache.key_to_parsed@[j]).0.base_dir@ == key.base_dir@
                            && cache.key_to_parsed@[j].0.hash@ == key.hash@) by {
                            assert(!cache.key_to_parsed@[j].0.key_eq(key));
                        }
                        assert(!cache_has_key_v(
                            *cache,
                            canon_model(base_dir@),
                            sha256_hex(enc_service(*s)),
                        ));
                    }
                },
            }
            {
                    let parsed = match s {
                        Service::Static(st) => ParsedService::Static(
                            ParsedStatic {
                                base_dir: key.base_dir.clone(),
                                config: crate::config_types::copy_static_cfg(st),
                            },
                        ),
                        Service::Forward(fw) => ParsedService::Forward(
                            ParsedForward {
                                base_dir: key.base_dir.clone(),
                                config: crate::config_types::copy_forward_cfg(fw),
                            },
                        ),
                        Service::Router(rt) => {
                            let pr = parse_router(
                                rt,
                                key.base_dir.as_str(),
                                cache,
                                docs,
                                stack,
                                fuel,
                            );
                            match pr {
                                Ok(p) => ParsedService::Router(p),
                                Err(e) => {
                                    return Err(e);
                                },
                            }
                        },
                    };
                    let ghost cmid = *cache;
                    let ghost c0 = cache.key_to_parsed@;
                    proof {
                        assert(psvc_from(parsed, *s, canon_model(base_dir@), cmid));
                    }
                    // the key may have appeared while parsing children;
                    // replace that entry's node with the one just parsed
                    match cache.find_key(&key) {
                        Some(i2) => {
                            let entry = cache.key_to_parsed.remove(i2);
                            let (k2, _) = entry;
                            cache.key_to_parsed.insert(i2, (k2, parsed));
                            proof {
                                let ghost mid = cmid.key_to_parsed@.remove(i2 as int);
                                assert(cache.key_to_parsed@.len() == cmid.key_to_parsed@.len());
                                assert forall|i: int|
                                    0 <= i < cmid.key_to_parsed@.len() implies #[trigger] cache.key_to_parsed@[i].0
                                    == cmid.key_to_parsed@[i].0 by {
                                    if i < i2 as int {
                                        assert(cache.key_to_parsed@[i] == mid[i]);
                                        assert(mid[i] == cmid.key_to_parsed@[i]);
                                    } else if i == i2 as int {
                                    } else {
                                        assert(cache.key_to_parsed@[i] == mid[i - 1]);
                                        assert(mid[i - 1] == cmid.key_to_parsed@[i]);
                                    }
                                }
                                assert(cache_keys_preserved(cmid, *cache));
                                lemma_keys_preserved_trans(*old(cache), cmid, *cache);
                                assert(cache_keys_unique(cache.key_to_parsed@)) by {
                                    assert forall|i: int, j: int|
                                        0 <= i < j < cache.key_to_parsed@.len() implies !(
                                    #[trigger] cache.key_to_parsed@[i].0.key_eq(
                                        #[trigger] cache.key_to_parsed@[j].0,
                                    )) by {
                                        assert(cache.key_to_parsed@[i].0
                                            == cmid.key_to_parsed@[i].0);
                                        assert(cache.key_to_parsed@[j].0
                                            == cmid.key_to_parsed@[j].0);
                                        assert(!cmid.key_to_parsed@[i].0.key_eq(
                                            cmid.key_to_parsed@[j].0,
                                        ));
                                    }
                                }
                                assert(cache.import_to_key@ == cmid.import_to_key@);
                                lemma_targets_keys_preserved(
                                    cmid.key_to_parsed@,
                                    cmid.import_to_key@,
                                    cache.key_to_parsed@,
                                );
                                assert(cache.key_to_parsed@[i2 as int].0.base_dir@
                                    == key.base_dir@ && cache.key_to_parsed@[i2 as int].0.hash@
                                    == key.hash@);
                                assert(cache_has_key_v(*cache, key.base_dir@, key.hash@));
                                assert(cache.key_to_parsed@[i2 as int].1 == parsed);
                                lemma_psvc_from_mono(
                                    parsed,
                                    *s,
                                    canon_model(base_dir@),
                                    cmid,
                                    *cache,
                                );
                            }
                            Ok(key)
                        },
                        None => {
                            cache.key_to_parsed.push((key.clone(), parsed));
                            proof {
                                assert(cache_keys_preserved(cmid, *cache)) by {
                                    assert forall|i: int|
                                        0 <= i < cmid.key_to_parsed@.len() implies #[trigger] cache.key_to_parsed@[i].0
                                        == cmid.key_to_parsed@[i].0 by {
                                        assert(cache.key_to_parsed@[i] == c0[i]);
                                    }
                                }
                                lemma_keys_preserved_trans(*old(cache), cmid, *cache);
                                assert forall|i: int, j: int|
                                    0 <= i < j < cache.key_to_parsed@.len() implies !(
                                #[trigger] cache.key_to_parsed@[i].0.key_eq(
                                    #[trigger] cache.key_to_parsed@[j].0,
                                )) by {
                                    if j < cache.key_to_parsed@.len() - 1 {
                                    } else {
                                        assert(!cache.key_to_parsed@[i].0.key_eq(key));
                                        assert(cache.key_to_parsed@[j].0.key_eq(key)
                                            ==> !cache.key_to_parsed@[i].0.key_eq(
                                            cache.key_to_parsed@[j].0,
                                        ));
                                    }
                                }
                                let ghost nn = cache.key_to_parsed@.len() - 1;
                                assert(cache.key_to_parsed@[nn].0.base_dir@ == key.base_dir@
                                    && cache.key_to_parsed@[nn].0.hash@ == key.hash@);
                                assert(cache_has_key_v(*cache, key.base_dir@, key.hash@));
                                assert(cache.import_to_key@ == cmid.import_to_key@);
                                lemma_targets_keys_preserved(
                                    cmid.key_to_parsed@,
                                    cmid.import_to_key@,
                                    cache.key_to_parsed@,
                                );
                                assert(cache.key_to_parsed@[nn].1 == parsed);
                                lemma_psvc_from_mono(
                                    parsed,
                                    *s,
                                    canon_model(base_dir@),
                                    cmid,
                                    *cache,
                                );
                            }
                            Ok(key)
                        },
                    }
            }
        },
        ServiceRef::Import { import } => {
            if fuel == 0 {
                return Err(ConfigError::Invalid(("import nesting too deep").to_owned()));
            }
            let path = join_path(base_dir, import.as_str());
            let canon = canonicalize(path.as_str());
            match cache.find_import(canon.as_str()) {
                Some(i) => {
                    let mapped = cache.import_to_key[i].1.clone();
                    proof {
                        assert(target_present(
                            cache.key_to_parsed@,
                            cache.import_to_key@[i as int].1,
                        ));
                        let w = choose|i3: int|
                            0 <= i3 < cache.key_to_parsed@.len() && (
                            #[trigger] cache.key_to_parsed@[i3]).0.key_eq(
                            cache.import_to_key@[i as int].1,
                        );
                        assert(cache.key_to_parsed@[w].0.base_dir@ == mapped.base_dir@
                            && cache.key_to_parsed@[w].0.hash@ == mapped.hash@);
                        assert(cache_has_key_v(*cache, mapped.base_dir@, mapped.hash@));
                        assert((cache.import_to_key@[i as int]).0@ == canon@);
                        assert(import_mapped(*cache, canon@));
                    }
                    return Ok(mapped);
                },
                None => {
                    proof {
                        assert forall|j: int|
                            0 <= j < cache.import_to_key@.len() implies (
                        #[trigger] cache.import_to_key@[j]).0@ != canon@ by {}
                        assert(!import_mapped(*cache, canon_model(join_model(base_dir@, import@))));
                    }
                },
            }
            if stack_contains(stack, canon.as_str()) {
                return Err(ConfigError::ImportCycle(canon));
            }
            let di = match docs.find(canon.as_str()) {
                Some(i) => i,
                None => {
                    proof {
                        assert(doc_absent(*docs, canon@));
                    }
                    return Err(ConfigError::NeedsFile(canon));
                },
            };
            stack.push(canon.clone());
            let nested_base = parent_dir(canon.as_str(), base_dir);
            let nested = &docs.docs[di].1;
            let key = match parse_service_ref_inner(
                nested,
                nested_base.as_str(),
                cache,
                docs,
                stack,
                fuel - 1,
            ) {
                Ok(k) => k,
                Err(e) => {
                    return Err(e);
                },
            };
            stack.pop();
            let ghost ca = *cache;
            match cache.find_import(canon.as_str()) {
                Some(i2) => {
                    proof {
                        assert((cache.import_to_key@[i2 as int]).0@ == canon@);
                        assert(import_mapped(*cache, canon@));
                    }
                },
                None => {
                    cache.import_to_key.push((canon.clone(), key.clone()));
                    proof {
                        assert(cache.key_to_parsed@ == ca.key_to_parsed@);
                        let pr = cache.import_to_key@.last();
                        assert(cache.import_to_key@ == ca.import_to_key@.push(pr));
                        assert(pr.1.base_dir@ == key.base_dir@ && pr.1.hash@ == key.hash@);
                        assert(target_present(ca.key_to_parsed@, pr.1)) by {
                            let w = choose|i3: int|
                                0 <= i3 < ca.key_to_parsed@.len() && (
                                #[trigger] ca.key_to_parsed@[i3]).0.base_dir@ == key.base_dir@
                                    && ca.key_to_parsed@[i3].0.hash@ == key.hash@;
                            assert(ca.key_to_parsed@[w].0.key_eq(pr.1));
                        }
                        lemma_targets_push_mapping(
                            ca.key_to_parsed@,
                            ca.import_to_key@,
                            pr,
                        );
                        assert(pr.0@ == canon@);
                        assert((cache.import_to_key@[cache.import_to_key@.len() - 1]).0@
                            == canon@);
                        assert(import_mapped(*cache, canon@));
                    }
                },
            }
            proof {
                assert(cache.key_to_parsed@ == ca.key_to_parsed@);
                assert(cache_keys_preserved(ca, *cache));
                lemma_keys_preserved_trans(*old(cache), ca, *cache);
                assert(cache_has_key_v(*cache, key.base_dir@, key.hash@)) by {
                    let w = choose|i3: int|
                        0 <= i3 < ca.key_to_parsed@.len() && (
                        #[trigger] ca.key_to_parsed@[i3]).0.base_dir@ == key.base_dir@
                            && ca.key_to_parsed@[i3].0.hash@ == key.hash@;
                    assert(cache.key_to_parsed@[w].0.base_dir@ == key.base_dir@
                        && cache.key_to_parsed@[w].0.hash@ == key.hash@);
                }
            }
            let ghost cb = *cache;
            record_file_key(cache, &canon, &key);
            proof {
                lemma_keys_preserved_trans(*old(cache), cb, *cache);
                lemma_import_mapped_mono(cb, *cache, canon@);
                assert(cache_has_key_v(*cache, key.base_dir@, key.hash@)) by {
                    let w = choose|i3: int|
                        0 <= i3 < cb.key_to_parsed@.len() && (
                        #[trigger] cb.key_to_parsed@[i3]).0.base_dir@ == key.base_dir@
                            && cb.key_to_parsed@[i3].0.hash@ == key.hash@;
                    assert(cache.key_to_parsed@[w].0 == cb.key_to_parsed@[w].0);
                }
            }
            let ghost cc = *cache;
            record_import_dep(cache, &key, &canon);
            proof {
                lemma_keys_preserved_trans(*old(cache), cc, *cache);
                lemma_import_mapped_mono(cc, *cache, canon@);
                assert(import_mapped(*cache, canon_model(join_model(base_dir@, import@))));
                assert(cache_has_key_v(*cache, key.base_dir@, key.hash@)) by {
                    let w = choose|i3: int|
                        0 <= i3 < cc.key_to_parsed@.len() && (
                        #[trigger] cc.key_to_parsed@[i3]).0.base_dir@ == key.base_dir@
                            && cc.key_to_parsed@[i3].0.hash@ == key.hash@;
                    assert(cache.key_to_parsed@[w].0 == cc.key_to_parsed@[w].0);
                }
            }
            Ok(key)
        },
    }
}

/// Note that this file produced this key.
fn record_file_key(cache: &mut ParseCache, canon: &String, key: &ServiceKey)
    requires
        old(cache).wf(),
    ensures
        final(cache).wf(),
        cache_keys_preserved(*old(cache), *final(cache)),
{
    let mut i: usize = 0;
    let n = cache.file_to_keys.len();
    while i < n
        invariant
            i <= n,
            n == cache.file_to_keys@.len(),
            cache.wf(),
            cache == old(cache),
        decreases n - i,
    {
        if str_eq(cache.file_to_keys[i].0.as_str(), canon.as_str()) {
            let mut entry = cache.file_to_keys.remove(i);
            let mut seen = false;
            let mut j: usize = 0;
            while j < entry.1.len()
                invariant
                    j <= entry.1@.len(),
                decreases entry.1@.len() - j,
            {
                if str_eq(entry.1[j].base_dir.as_str(), key.base_dir.as_str()) && str_eq(
                    entry.1[j].hash.as_str(),
                    key.hash.as_str(),
                ) {
                    seen = true;
                }
                j += 1;
            }
            if !seen {
                entry.1.push(key.clone());
            }
            cache.file_to_keys.insert(i, entry);
            proof {
                assert(cache.key_to_parsed@ == old(cache).key_to_parsed@);
                assert(cache.import_to_key@ == old(cache).import_to_key@);
            }
            return ;
        }
        i += 1;
    }
    let mut keys: Vec<ServiceKey> = Vec::new();
    keys.push(key.clone());
    cache.file_to_keys.push((canon.clone(), keys));
    proof {
        assert(cache.key_to_parsed@ == old(cache).key_to_parsed@);
        assert(cache.import_to_key@ == old(cache).import_to_key@);
    }
}

/// Record this import path as a dependency on the router it resolved
/// to, if it resolved to a router.
fn record_import_dep(cache: &mut ParseCache, key: &ServiceKey, canon: &String)
    requires
        old(cache).wf(),
    ensures
        final(cache).wf(),
        cache_keys_preserved(*old(cache), *final(cache)),
{
    let idx = match cache.find_key(key) {
        Some(i) => i,
        None => {
            return ;
        },
    };
    let ghost c0 = cache.key_to_parsed@;
    let entry = cache.key_to_parsed.remove(idx);
    let (k, p) = entry;
    match p {
        ParsedService::Router(mut r) => {
            let dep = ServiceDep::ImportPath(canon.clone());
            let mut present = false;
            let mut j: usize = 0;
            while j < r.deps.len()
                invariant
                    j <= r.deps@.len(),
                decreases r.deps@.len() - j,
            {
                if dep_eq_fn(&r.deps[j], &dep) {
                    present = true;
                }
                j += 1;
            }
            if !present {
                r.deps.push(dep);
            }
            cache.key_to_parsed.insert(idx, (k, ParsedService::Router(r)));
        },
        other => {
            cache.key_to_parsed.insert(idx, (k, other));
        },
    }
    proof {
        assert(cache.key_to_parsed@.len() == c0.len());
        assert forall|i: int|
            0 <= i < c0.len() implies #[trigger] cache.key_to_parsed@[i].0 == c0[i].0 by {
            if i < idx as int {
                assert(cache.key_to_parsed@[i] == c0.remove(idx as int)[i]);
                assert(c0.remove(idx as int)[i] == c0[i]);
            } else if i == idx as int {
            } else {
                assert(cache.key_to_parsed@[i] == c0.remove(idx as int)[i - 1]);
                assert(c0.remove(idx as int)[i - 1] == c0[i]);
            }
        }
        assert(cache.import_to_key@ == old(cache).import_to_key@);
        lemma_targets_keys_preserved(
            old(cache).key_to_parsed@,
            old(cache).import_to_key@,
            cache.key_to_parsed@,
        );
    }
}

/// A parsed match clause carries every field of the source clause.
pub open spec fn rmatch_equiv(a: RouterMatch, b: RouterMatch) -> bool {
    &&& a.host == b.host
    &&& a.path == b.path
    &&& a.methods@ == b.methods@
    &&& a.headers@ == b.headers@
    &&& a.queries@ == b.queries@
    &&& a.cookies@ == b.cookies@
    &&& a.scheme == b.scheme
}

/// The dependency recorded for a service reference: an import becomes
/// its canonical path, an inline definition a key the cache holds.
pub open spec fn dep_from_ref(d: ServiceDep, s: ServiceRef, base: Seq<char>, c: ParseCache) -> bool {
    match (d, s) {
        (ServiceDep::ImportPath(p), ServiceRef::Import { import }) => p@ == canon_model(
            join_model(base, import@),
        ) && import_mapped(c, p@),
        (ServiceDep::Inline(k), ServiceRef::Inline(_)) => cache_has_key_v(c, k.base_dir@, k.hash@),
        _ => false,
    }
}

/// The parsed operation mirrors the source operation: the same
/// variant with the same payloads, branches parsed pointwise, and
/// `Use` resolved to a dependency of its reference.
pub open spec fn pop_from(p: ParsedRouterOp, o: RouterOp, base: Seq<char>, c: ParseCache) -> bool
    decreases o,
{
    match (p, o) {
        (ParsedRouterOp::Branch(pb), RouterOp::Branch(b)) => cond_equiv(pb.cond, b.cond)
            && pb.then_ops@.len() == b.then_ops@.len() && pb.else_ops@.len()
            == b.else_ops@.len() && (forall|i: int|
            0 <= i < b.then_ops@.len() ==> pop_from(
                pb.then_ops@[i],
                #[trigger] b.then_ops@[i],
                base,
                c,
            )) && (forall|i: int|
            0 <= i < b.else_ops@.len() ==> pop_from(
                pb.else_ops@[i],
                #[trigger] b.else_ops@[i],
                base,
                c,
            )),
        (ParsedRouterOp::SetScheme(a), RouterOp::SetScheme(x)) => a == x,
        (ParsedRouterOp::SetHost(a), RouterOp::SetHost(x)) => a@ == x@,
        (ParsedRouterOp::SetPort(a), RouterOp::SetPort(x)) => a == x,
        (ParsedRouterOp::SetPath(a), RouterOp::SetPath(x)) => a@ == x@,
        (ParsedRouterOp::HeaderSet(a), RouterOp::HeaderSet(x)) => a@ == x@,
        (ParsedRouterOp::HeaderAdd(a), RouterOp::HeaderAdd(x)) => a@ == x@,
        (ParsedRouterOp::HeaderDelete(a), RouterOp::HeaderDelete(x)) => a@ == x@,
        (ParsedRouterOp::HeaderClear, RouterOp::HeaderClear) => true,
        (ParsedRouterOp::QuerySet(a), RouterOp::QuerySet(x)) => a@ == x@,
        (ParsedRouterOp::QueryAdd(a), RouterOp::QueryAdd(x)) => a@ == x@,
        (ParsedRouterOp::QueryDelete(a), RouterOp::QueryDelete(x)) => a@ == x@,
        (ParsedRouterOp::QueryClear, RouterOp::QueryClear) => true,
        (ParsedRouterOp::InternalRewrite, RouterOp::InternalRewrite) => true,
        (
            ParsedRouterOp::Redirect { status: a, location: l },
            RouterOp::Redirect { status: x, location: m },
        ) => a == x && l@ == m@,
        (
            ParsedRouterOp::Respond { status: a, body: ab, headers: ah },
            RouterOp::Respond { status: x, body: xb, headers: xh },
        ) => a == x && ah@ == xh@ && (match (ab, xb) {
            (Some(b1), Some(b2)) => b1@ == b2@,
            (None, None) => true,
            _ => false,
        }),
        (ParsedRouterOp::Use(d), RouterOp::Use(sref)) => dep_from_ref(d, *sref, base, c),
        _ => false,
    }
}

/// Pointwise operation correspondence.
pub open spec fn pops_from(
    ps: Seq<ParsedRouterOp>,
    os: Seq<RouterOp>,
    base: Seq<char>,
    c: ParseCache,
) -> bool {
    ps.len() == os.len() && forall|i: int|
        0 <= i < os.len() ==> pop_from(ps[i], #[trigger] os[i], base, c)
}

/// The parsed rule mirrors the source rule.
pub open spec fn prule_from(p: ParsedRouterRule, r: RouterRule, base: Seq<char>, c: ParseCache) -> bool {
    &&& match (p.when, r.when) {
        (Some(a), Some(b)) => rmatch_equiv(a, b),
        (None, None) => true,
        _ => false,
    }
    &&& p.on_match == r.on_match
    &&& pops_from(p.ops@, r.ops@, base, c)
}

/// Key presence survives every parser step.
proof fn lemma_has_key_mono(c1: ParseCache, c2: ParseCache, b: Seq<char>, h: Seq<char>)
    requires
        cache_has_key_v(c1, b, h),
        cache_keys_preserved(c1, c2),
    ensures
        cache_has_key_v(c2, b, h),
{
    let w = choose|i: int|
        0 <= i < c1.key_to_parsed@.len() && (#[trigger] c1.key_to_parsed@[i]).0.base_dir@ == b
            && c1.key_to_parsed@[i].0.hash@ == h;
    assert(c2.key_to_parsed@[w].0 == c1.key_to_parsed@[w].0);
    assert(c2.key_to_parsed@[w].0.base_dir@ == b && c2.key_to_parsed@[w].0.hash@ == h);
}

/// Operation correspondence survives every parser step.
proof fn lemma_pop_from_mono(
    p: ParsedRouterOp,
    o: RouterOp,
    base: Seq<char>,
    c1: ParseCache,
    c2: ParseCache,
)
    requires
        pop_from(p, o, base, c1),
        cache_keys_preserved(c1, c2),
    ensures
        pop_from(p, o, base, c2),
    decreases o,
{
    match (p, o) {
        (ParsedRouterOp::Branch(pb), RouterOp::Branch(b)) => {
            assert forall|i: int| 0 <= i < b.then_ops@.len() implies pop_from(
                pb.then_ops@[i],
                #[trigger] b.then_ops@[i],
                base,
                c2,
            ) by {
                lemma_pop_from_mono(pb.then_ops@[i], b.then_ops@[i], base, c1, c2);
            }
            assert forall|i: int| 0 <= i < b.else_ops@.len() implies pop_from(
                pb.else_ops@[i],
                #[trigger] b.else_ops@[i],
                base,
                c2,
            ) by {
                lemma_pop_from_mono(pb.else_ops@[i], b.else_ops@[i], base, c1, c2);
            }
        },
        (ParsedRouterOp::Use(d), RouterOp::Use(sref)) => {
            match (d, *sref) {
                (ServiceDep::Inline(k), ServiceRef::Inline(_)) => {
                    lemma_has_key_mono(c1, c2, k.base_dir@, k.hash@);
                },
                (ServiceDep::ImportPath(p), ServiceRef::Import { .. }) => {
                    lemma_import_mapped_mono(c1, c2, p@);
                },
                _ => {},
            }
        },
        _ => {},
    }
}

/// Pointwise correspondence survives every parser step.
proof fn lemma_pops_from_mono(
    ps: Seq<ParsedRouterOp>,
    os: Seq<RouterOp>,
    base: Seq<char>,
    c1: ParseCache,
    c2: ParseCache,
)
    requires
        pops_from(ps, os, base, c1),
        cache_keys_preserved(c1, c2),
    ensures
        pops_from(ps, os, base, c2),
{
    assert forall|i: int| 0 <= i < os.len() implies pop_from(
        ps[i],
        #[trigger] os[i],
        base,
        c2,
    ) by {
        lemma_pop_from_mono(ps[i], os[i], base, c1, c2);
    }
}

/// Rule correspondence survives every parser step.
proof fn lemma_prule_from_mono(
    p: ParsedRouterRule,
    r: RouterRule,
    base: Seq<char>,
    c1: ParseCache,
    c2: ParseCache,
)
    requires
        prule_from(p, r, base, c1),
        cache_keys_preserved(c1, c2),
    ensures
        prule_from(p, r, base, c2),
{
    lemma_pops_from_mono(p.ops@, r.ops@, base, c1, c2);
}

/// Dependency correspondence survives every parser step.
proof fn lemma_dep_from_ref_mono(
    d: ServiceDep,
    s: ServiceRef,
    base: Seq<char>,
    c1: ParseCache,
    c2: ParseCache,
)
    requires
        dep_from_ref(d, s, base, c1),
        cache_keys_preserved(c1, c2),
    ensures
        dep_from_ref(d, s, base, c2),
{
    match (d, s) {
        (ServiceDep::Inline(k), ServiceRef::Inline(_)) => {
            lemma_has_key_mono(c1, c2, k.base_dir@, k.hash@);
        },
        (ServiceDep::ImportPath(p), ServiceRef::Import { .. }) => {
            lemma_import_mapped_mono(c1, c2, p@);
        },
        _ => {},
    }
}

/// The reference contains no import anywhere: parsing it needs no
/// document and cannot fail.
pub open spec fn sref_import_free(s: ServiceRef) -> bool
    decreases s,
{
    match s {
        ServiceRef::Import { .. } => false,
        ServiceRef::Inline(sv) => svc_import_free(sv),
    }
}

/// The service definition contains no import anywhere.
pub open spec fn svc_import_free(s: Service) -> bool
    decreases s,
{
    match s {
        Service::Static(_) => true,
        Service::Forward(_) => true,
        Service::Router(rt) => (match rt.next {
            Some(b) => sref_import_free(*b),
            None => true,
        }) && (forall|i: int|
            0 <= i < rt.rules@.len() ==> rule_import_free(#[trigger] rt.rules@[i])),
    }
}

/// The rule contains no import anywhere.
pub open spec fn rule_import_free(r: RouterRule) -> bool
    decreases r,
{
    forall|i: int| 0 <= i < r.ops@.len() ==> op_import_free(#[trigger] r.ops@[i])
}

/// The operation contains no import anywhere.
pub open spec fn op_import_free(o: RouterOp) -> bool
    decreases o,
{
    match o {
        RouterOp::Branch(b) => (forall|i: int|
            0 <= i < b.then_ops@.len() ==> op_import_free(#[trigger] b.then_ops@[i])) && (forall|
            i: int,
        |
            0 <= i < b.else_ops@.len() ==> op_import_free(#[trigger] b.else_ops@[i])),
        RouterOp::Use(sref) => sref_import_free(*sref),
        _ => true,
    }
}

/// Every operation of the list is import-free.
pub open spec fn ops_import_free(ops: Seq<RouterOp>) -> bool {
    forall|i: int| 0 <= i < ops.len() ==> op_import_free(#[trigger] ops[i])
}

/// Every rule of the list is import-free.
pub open spec fn rules_import_free(rs: Seq<RouterRule>) -> bool {
    forall|i: int| 0 <= i < rs.len() ==> rule_import_free(#[trigger] rs[i])
}

/// The parsed node mirrors the source service definition: the
/// canonical base directory, the configuration fields, and for a
/// router its rules, `next` and dependency, all resolved against the
/// cache.  `cb` is the canonical base directory.
pub open spec fn psvc_from(p: ParsedService, s: Service, cb: Seq<char>, c: ParseCache) -> bool {
    match (p, s) {
        (ParsedService::Static(ps), Service::Static(st)) => ps.base_dir@ == cb
            && crate::config_types::static_equiv(ps.config, st),
        (ParsedService::Forward(pf), Service::Forward(fw)) => pf.base_dir@ == cb
            && crate::config_types::forward_equiv(pf.config, fw),
        (ParsedService::Router(pr), Service::Router(rt)) => pr.base_dir@ == cb && pr.max_steps
            == rt.max_steps && pr.rules@.len() == rt.rules@.len() && (forall|i: int|
            0 <= i < rt.rules@.len() ==> prule_from(pr.rules@[i], #[trigger] rt.rules@[i], cb, c))
            && (match (pr.next, rt.next) {
            (Some(d), Some(b)) => dep_from_ref(d, *b, cb, c) && pr.deps@.len() == 1
                && dep_from_ref(pr.deps@[0], *b, cb, c),
            (None, None) => pr.deps@.len() == 0,
            _ => false,
        }),
        _ => false,
    }
}

/// Node correspondence survives every parser step.
proof fn lemma_psvc_from_mono(
    p: ParsedService,
    s: Service,
    cb: Seq<char>,
    c1: ParseCache,
    c2: ParseCache,
)
    requires
        psvc_from(p, s, cb, c1),
        cache_keys_preserved(c1, c2),
    ensures
        psvc_from(p, s, cb, c2),
{
    match (p, s) {
        (ParsedService::Router(pr), Service::Router(rt)) => {
            assert forall|i: int| 0 <= i < rt.rules@.len() implies prule_from(
                pr.rules@[i],
                #[trigger] rt.rules@[i],
                cb,
                c2,
            ) by {
                lemma_prule_from_mono(pr.rules@[i], rt.rules@[i], cb, c1, c2);
            }
            if pr.next is Some && rt.next is Some {
                lemma_dep_from_ref_mono(pr.next.unwrap(), *rt.next.unwrap(), cb, c1, c2);
                lemma_dep_from_ref_mono(pr.deps@[0], *rt.next.unwrap(), cb, c1, c2);
            }
        },
        _ => {},
    }
}

/// Parse a router's rules and child references.
pub fn parse_router(
    rt: &RouterService,
    base_dir: &str,
    cache: &mut ParseCache,
    docs: &DocStore,
    stack: &mut Vec<String>,
    fuel: u32,
) -> (r: Result<ParsedRouter, ConfigError>)
    requires
        old(cache).wf(),
    ensures
        final(cache).wf(),
        cache_keys_preserved(*old(cache), *final(cache)),
        r matches Err(e) ==> (e matches ConfigError::NeedsFile(p) ==> doc_absent(*docs, p@)),
        r matches Ok(p) ==> p.base_dir@ == base_dir@ && p.max_steps == rt.max_steps,
        r matches Ok(p) ==> p.rules@.len() == rt.rules@.len() && forall|i: int|
            0 <= i < rt.rules@.len() ==> prule_from(
                p.rules@[i],
                #[trigger] rt.rules@[i],
                base_dir@,
                *final(cache),
            ),
        r matches Ok(p) ==> (match (p.next, rt.next) {
            (Some(d), Some(b)) => dep_from_ref(d, *b, base_dir@, *final(cache))
                && p.deps@.len() == 1 && dep_from_ref(p.deps@[0], *b, base_dir@, *final(cache)),
            (None, None) => p.deps@.len() == 0,
            _ => false,
        }),
        svc_import_free(Service::Router(*rt)) ==> r is Ok,
    decreases fuel, *rt,
{
    let deps_next = match collect_deps_from_router(rt, base_dir, cache, docs, stack, fuel) {
        Ok(p) => p,
        Err(e) => {
            return Err(e);
        },
    };
    let (deps, next) = deps_next;
    let ghost cmid = *cache;
    let rules = match parse_router_rules(&rt.rules, base_dir, cache, docs, stack, fuel) {
        Ok(rs) => rs,
        Err(e) => {
            proof {
                lemma_keys_preserved_trans(*old(cache), cmid, *cache);
            }
            return Err(e);
        },
    };
    proof {
        lemma_keys_preserved_trans(*old(cache), cmid, *cache);
        if next is Some && rt.next is Some {
            lemma_dep_from_ref_mono(next.unwrap(), *rt.next.unwrap(), base_dir@, cmid, *cache);
            lemma_dep_from_ref_mono(deps@[0], *rt.next.unwrap(), base_dir@, cmid, *cache);
        }
    }
    Ok(
        ParsedRouter {
            base_dir: base_dir.to_owned(),
            rules,
            next,
            deps,
            max_steps: rt.max_steps,
        },
    )
}

fn parse_router_rules(
    rules: &Vec<RouterRule>,
    base_dir: &str,
    cache: &mut ParseCache,
    docs: &DocStore,
    stack: &mut Vec<String>,
    fuel: u32,
) -> (r: Result<Vec<ParsedRouterRule>, ConfigError>)
    requires
        old(cache).wf(),
    ensures
        final(cache).wf(),
        cache_keys_preserved(*old(cache), *final(cache)),
        r matches Err(e) ==> (e matches ConfigError::NeedsFile(p) ==> doc_absent(*docs, p@)),
        r matches Ok(rs) ==> rs@.len() == rules@.len() && forall|i: int|
            0 <= i < rules@.len() ==> prule_from(rs@[i], #[trigger] rules@[i], base_dir@, *final(cache)),
        rules_import_free(rules@) ==> r is Ok,
    decreases fuel, rules@,
{
    let mut out: Vec<ParsedRouterRule> = Vec::new();
    let mut i: usize = 0;
    let ghost c0 = *cache;
    proof {
        assert(c0 == *old(cache));
    }
    while i < rules.len()
        invariant
            i <= rules@.len(),
            cache.wf(),
            c0 == *old(cache),
            cache_keys_preserved(c0, *cache),
            out@.len() == i,
            forall|j: int|
                0 <= j < i ==> prule_from(out@[j], #[trigger] rules@[j], base_dir@, *cache),
        decreases rules@.len() - i,
    {
        let rule = &rules[i];
        proof {
            assert(rules@[i as int].ops == rule.ops);
            assert(decreases_to!(rules@ => rules@[i as int]));
        }
        let ghost cprev = *cache;
        let ops = match parse_ops(&rule.ops, base_dir, cache, docs, stack, fuel) {
            Ok(o) => o,
            Err(e) => {
                proof {
                    lemma_keys_preserved_trans(c0, cprev, *cache);
                }
                return Err(e);
            },
        };
        proof {
            lemma_keys_preserved_trans(c0, cprev, *cache);
            assert forall|j: int| 0 <= j < i implies prule_from(
                out@[j],
                #[trigger] rules@[j],
                base_dir@,
                *cache,
            ) by {
                lemma_prule_from_mono(out@[j], rules@[j], base_dir@, cprev, *cache);
            }
        }
        let when = match &rule.when {
            Some(m) => Some(copy_match(m)),
            None => None,
        };
        out.push(ParsedRouterRule { when, ops, on_match: rule.on_match });
        i += 1;
    }
    Ok(out)
}

fn parse_ops(
    ops: &Vec<RouterOp>,
    base_dir: &str,
    cache: &mut ParseCache,
    docs: &DocStore,
    stack: &mut Vec<String>,
    fuel: u32,
) -> (r: Result<Vec<ParsedRouterOp>, ConfigError>)
    requires
        old(cache).wf(),
    ensures
        final(cache).wf(),
        cache_keys_preserved(*old(cache), *final(cache)),
        r matches Err(e) ==> (e matches ConfigError::NeedsFile(p) ==> doc_absent(*docs, p@)),
        r matches Ok(v) ==> pops_from(v@, ops@, base_dir@, *final(cache)),
        ops_import_free(ops@) ==> r is Ok,
    decreases fuel, ops@,
{
    let mut out: Vec<ParsedRouterOp> = Vec::new();
    let mut i: usize = 0;
    let ghost c0 = *cache;
    proof {
        assert(c0 == *old(cache));
    }
    while i < ops.len()
        invariant
            i <= ops@.len(),
            cache.wf(),
            c0 == *old(cache),
            cache_keys_preserved(c0, *cache),
            out@.len() == i,
            forall|j: int|
                0 <= j < i ==> pop_from(out@[j], #[trigger] ops@[j], base_dir@, *cache),
        decreases ops@.len() - i,
    {
        let op = &ops[i];
        proof {
            assert(ops@[i as int] == *op);
            assert(decreases_to!(ops@ => ops@[i as int]));
        }
        let ghost cprev = *cache;
        let parsed = match parse_op(op, base_dir, cache, docs, stack, fuel) {
            Ok(p) => p,
            Err(e) => {
                proof {
                    lemma_keys_preserved_trans(c0, cprev, *cache);
                }
                return Err(e);
            },
        };
        proof {
            lemma_keys_preserved_trans(c0, cprev, *cache);
            assert forall|j: int| 0 <= j < i implies pop_from(
                out@[j],
                #[trigger] ops@[j],
                base_dir@,
                *cache,
            ) by {
                lemma_pop_from_mono(out@[j], ops@[j], base_dir@, cprev, *cache);
            }
        }
        out.push(parsed);
        i += 1;
    }
    Ok(out)
}

fn parse_op(
    op: &RouterOp,
    base_dir: &str,
    cache: &mut ParseCache,
    docs: &DocStore,
    stack: &mut Vec<String>,
    fuel: u32,
) -> (r: Result<ParsedRouterOp, ConfigError>)
    requires
        old(cache).wf(),
    ensures
        final(cache).wf(),
        cache_keys_preserved(*old(cache), *final(cache)),
        r matches Err(e) ==> (e matches ConfigError::NeedsFile(p) ==> doc_absent(*docs, p@)),
        r matches Ok(p) ==> pop_from(p, *op, base_dir@, *final(cache)),
        op_import_free(*op) ==> r is Ok,
    decreases fuel, *op,
{
    match op {
        RouterOp::Branch(b) => {
            let then_ops = match parse_ops(&b.then_ops, base_dir, cache, docs, stack, fuel) {
                Ok(o) => o,
                Err(e) => {
                    return Err(e);
                },
            };
            let ghost cmid = *cache;
            let else_ops = match parse_ops(&b.else_ops, base_dir, cache, docs, stack, fuel) {
                Ok(o) => o,
                Err(e) => {
                    proof {
                        lemma_keys_preserved_trans(*old(cache), cmid, *cache);
                    }
                    return Err(e);
                },
            };
            proof {
                lemma_keys_preserved_trans(*old(cache), cmid, *cache);
                lemma_pops_from_mono(then_ops@, b.then_ops@, base_dir@, cmid, *cache);
            }
            Ok(
                ParsedRouterOp::Branch(
                    ParsedBranchOp { cond: copy_cond(&b.cond), then_ops, else_ops },
                ),
            )
        },
        RouterOp::SetScheme(s) => Ok(ParsedRouterOp::SetScheme(*s)),
        RouterOp::SetHost(h) => Ok(ParsedRouterOp::SetHost(h.clone())),
        RouterOp::SetPort(p) => Ok(ParsedRouterOp::SetPort(*p)),
        RouterOp::SetPath(p) => Ok(ParsedRouterOp::SetPath(p.clone())),
        RouterOp::HeaderSet(m) => Ok(ParsedRouterOp::HeaderSet(copy_pairs(m))),
        RouterOp::HeaderAdd(m) => Ok(ParsedRouterOp::HeaderAdd(copy_pairs(m))),
        RouterOp::HeaderDelete(v) => Ok(ParsedRouterOp::HeaderDelete(copy_names(v))),
        RouterOp::HeaderClear => Ok(ParsedRouterOp::HeaderClear),
        RouterOp::QuerySet(m) => Ok(ParsedRouterOp::QuerySet(copy_pairs(m))),
        RouterOp::QueryAdd(m) => Ok(ParsedRouterOp::QueryAdd(copy_pairs(m))),
        RouterOp::QueryDelete(v) => Ok(ParsedRouterOp::QueryDelete(copy_names(v))),
        RouterOp::QueryClear => Ok(ParsedRouterOp::QueryClear),
        RouterOp::InternalRewrite => Ok(ParsedRouterOp::InternalRewrite),
        RouterOp::Redirect { status, location } => Ok(
            ParsedRouterOp::Redirect { status: *status, location: location.clone() },
        ),
        RouterOp::Respond { status, body, headers } => {
            let body2 = match body {
                Some(b) => Some(b.clone()),
                None => None,
            };
            Ok(ParsedRouterOp::Respond { status: *status, body: body2, headers: copy_pairs(headers) })
        },
        RouterOp::Use(sref) => {
            let key = match parse_service_ref_inner(sref, base_dir, cache, docs, stack, fuel) {
                Ok(k) => k,
                Err(e) => {
                    return Err(e);
                },
            };
            let dep = match &**sref {
                ServiceRef::Import { import } => {
                    let path = join_path(base_dir, import.as_str());
                    ServiceDep::ImportPath(canonicalize(path.as_str()))
                },
                ServiceRef::Inline(_) => ServiceDep::Inline(key),
            };
            Ok(ParsedRouterOp::Use(dep))
        },
    }
}

fn collect_deps_from_router(
    rt: &RouterService,
    base_dir: &str,
    cache: &mut ParseCache,
    docs: &DocStore,
    stack: &mut Vec<String>,
    fuel: u32,
) -> (r: Result<(Vec<ServiceDep>, Option<ServiceDep>), ConfigError>)
    requires
        old(cache).wf(),
    ensures
        final(cache).wf(),
        cache_keys_preserved(*old(cache), *final(cache)),
        r matches Err(e) ==> (e matches ConfigError::NeedsFile(p) ==> doc_absent(*docs, p@)),
        r matches Ok(dn) ==> (match (dn.1, rt.next) {
            (Some(d), Some(b)) => dep_from_ref(d, *b, base_dir@, *final(cache))
                && dn.0@.len() == 1 && dep_from_ref(dn.0@[0], *b, base_dir@, *final(cache)),
            (None, None) => dn.0@.len() == 0,
            _ => false,
        }),
        (match rt.next {
            Some(b) => sref_import_free(*b),
            None => true,
        }) ==> r is Ok,
    decreases fuel, *rt, 0int,
{
    match &rt.next {
        Some(next_ref) => {
            let child_key = match parse_service_ref_inner(
                next_ref,
                base_dir,
                cache,
                docs,
                stack,
                fuel,
            ) {
                Ok(k) => k,
                Err(e) => {
                    return Err(e);
                },
            };
            let dep = match &**next_ref {
                ServiceRef::Import { import } => {
                    let path = join_path(base_dir, import.as_str());
                    ServiceDep::ImportPath(canonicalize(path.as_str()))
                },
                ServiceRef::Inline(_) => ServiceDep::Inline(child_key),
            };
            let dep2 = match &dep {
                ServiceDep::ImportPath(p) => ServiceDep::ImportPath(p.clone()),
                ServiceDep::Inline(k) => ServiceDep::Inline(k.clone()),
            };
            let mut deps: Vec<ServiceDep> = Vec::new();
            deps.push(dep2);
            Ok((deps, Some(dep)))
        },
        None => Ok((Vec::new(), None)),
    }
}

/// `d` occurs in `s`, up to content equality.
pub open spec fn dep_in(s: Seq<ServiceDep>, d: ServiceDep) -> bool {
    exists|i: int| 0 <= i < s.len() && (#[trigger] s[i]).dep_eq(d)
}

/// The first-occurrence dedup of a dependency list: an element stays
/// exactly when nothing content-equal precedes it, in input order.
pub open spec fn dedup_model(deps: Seq<ServiceDep>) -> Seq<ServiceDep>
    decreases deps.len(),
{
    if deps.len() == 0 {
        Seq::empty()
    } else {
        let rest = dedup_model(deps.drop_last());
        if dep_in(deps.drop_last(), deps.last()) {
            rest
        } else {
            rest.push(deps.last())
        }
    }
}

/// Content equality of dependencies is reflexive.
proof fn lemma_dep_eq_refl(a: ServiceDep)
    ensures
        a.dep_eq(a),
{
}

/// Content equality of dependencies is transitive.
proof fn lemma_dep_eq_trans(a: ServiceDep, b: ServiceDep, c: ServiceDep)
    requires
        a.dep_eq(b),
        b.dep_eq(c),
    ensures
        a.dep_eq(c),
{
}

/// Dedup keeps exactly the members of the input.
proof fn lemma_dedup_membership(s: Seq<ServiceDep>, d: ServiceDep)
    ensures
        dep_in(dedup_model(s), d) == dep_in(s, d),
    decreases s.len(),
{
    if s.len() > 0 {
        let prefix = s.drop_last();
        lemma_dedup_membership(prefix, d);
        if dep_in(prefix, s.last()) {
            // the last element is a repeat: membership is unchanged
            if s.last().dep_eq(d) {
                let w = choose|i: int| 0 <= i < prefix.len() && (#[trigger] prefix[i]).dep_eq(
                    s.last(),
                );
                lemma_dep_eq_trans(prefix[w], s.last(), d);
                assert(dep_in(prefix, d));
            }
            assert forall|i: int|
                0 <= i < s.len() && (#[trigger] s[i]).dep_eq(d) implies dep_in(prefix, d)
                || s.last().dep_eq(d) by {
                if i < s.len() - 1 {
                    assert(prefix[i].dep_eq(d));
                }
            }
        } else {
            let r = dedup_model(s);
            assert(r == dedup_model(prefix).push(s.last()));
            assert forall|i: int|
                0 <= i < r.len() && (#[trigger] r[i]).dep_eq(d) implies dep_in(prefix, d)
                || s.last().dep_eq(d) by {
                if i < r.len() - 1 {
                    assert(dedup_model(prefix)[i].dep_eq(d));
                    assert(dep_in(dedup_model(prefix), d));
                }
            }
            assert forall|i: int|
                0 <= i < s.len() && (#[trigger] s[i]).dep_eq(d) implies dep_in(r, d) by {
                if i < s.len() - 1 {
                    assert(prefix[i].dep_eq(d));
                    assert(dep_in(dedup_model(prefix), d));
                    let w = choose|k: int|
                        0 <= k < dedup_model(prefix).len() && (#[trigger] dedup_model(
                            prefix,
                        )[k]).dep_eq(d);
                    assert(r[w].dep_eq(d));
                } else {
                    assert(r.last().dep_eq(d));
                }
            }
        }
    }
}

/// Dedup never grows the list.
proof fn lemma_dedup_len(s: Seq<ServiceDep>)
    ensures
        dedup_model(s).len() <= s.len(),
    decreases s.len(),
{
    if s.len() > 0 {
        lemma_dedup_len(s.drop_last());
    }
}

/// Dedup holds no two content-equal entries.
proof fn lemma_dedup_distinct(s: Seq<ServiceDep>)
    ensures
        forall|i: int, j: int|
            0 <= i < j < dedup_model(s).len() ==> !(#[trigger] dedup_model(s)[i].dep_eq(
                #[trigger] dedup_model(s)[j],
            )),
    decreases s.len(),
{
    if s.len() > 0 {
        let prefix = s.drop_last();
        lemma_dedup_distinct(prefix);
        if !dep_in(prefix, s.last()) {
            lemma_dedup_membership(prefix, s.last());
            let r = dedup_model(s);
            assert forall|i: int, j: int|
                0 <= i < j < r.len() implies !(#[trigger] r[i].dep_eq(#[trigger] r[j])) by {
                if j == r.len() - 1 {
                    assert(r[j] == s.last());
                    assert(r[i] == dedup_model(prefix)[i]);
                    if r[i].dep_eq(s.last()) {
                        assert(dep_in(dedup_model(prefix), s.last()));
                    }
                } else {
                    assert(r[i] == dedup_model(prefix)[i]);
                    assert(r[j] == dedup_model(prefix)[j]);
                }
            }
        }
    }
}

/// Drop duplicate dependencies: exactly the first occurrences, in
/// input order, nothing else, and no two content-equal entries.
pub fn dedup_deps(deps: Vec<ServiceDep>) -> (r: Vec<ServiceDep>)
    ensures
        r@ == dedup_model(deps@),
        r@.len() <= deps@.len(),
        forall|i: int| 0 <= i < deps@.len() ==> dep_in(r@, #[trigger] deps@[i]),
        forall|j: int| 0 <= j < r@.len() ==> dep_in(deps@, #[trigger] r@[j]),
        forall|i: int, j: int|
            0 <= i < j < r@.len() ==> !(#[trigger] r@[i].dep_eq(#[trigger] r@[j])),
{
    let mut out: Vec<ServiceDep> = Vec::new();
    let mut i: usize = 0;
    proof {
        assert(out@ =~= dedup_model(deps@.take(0)));
    }
    while i < deps.len()
        invariant
            i <= deps@.len(),
            out@ == dedup_model(deps@.take(i as int)),
        decreases deps@.len() - i,
    {
        let d = &deps[i];
        let mut seen = false;
        let mut j: usize = 0;
        while j < out.len()
            invariant
                j <= out@.len(),
                i < deps@.len(),
                *d == deps@[i as int],
                seen == dep_in(out@.take(j as int), deps@[i as int]),
            decreases out@.len() - j,
        {
            if dep_eq_fn(&out[j], d) {
                proof {
                    assert(out@.take(j as int + 1)[j as int].dep_eq(deps@[i as int]));
                }
                seen = true;
            }
            proof {
                if seen {
                    if !dep_in(out@.take(j as int), deps@[i as int]) && !out@[j as int].dep_eq(
                        deps@[i as int],
                    ) {
                        assert(false);
                    }
                    if out@[j as int].dep_eq(deps@[i as int]) {
                        assert(out@.take(j as int + 1)[j as int].dep_eq(deps@[i as int]));
                    } else {
                        let w = choose|k: int|
                            0 <= k < out@.take(j as int).len() && (#[trigger] out@.take(
                                j as int,
                            )[k]).dep_eq(deps@[i as int]);
                        assert(out@.take(j as int + 1)[w].dep_eq(deps@[i as int]));
                    }
                } else {
                    assert forall|k: int|
                        0 <= k < j as int + 1 implies !(#[trigger] out@.take(j as int + 1)[k]).dep_eq(
                        deps@[i as int],
                    ) by {
                        if k < j as int {
                            assert(out@.take(j as int)[k] == out@.take(j as int + 1)[k]);
                        }
                    }
                }
            }
            j += 1;
        }
        proof {
            assert(out@.take(out@.len() as int) =~= out@);
            let t = deps@.take(i as int + 1);
            assert(t.drop_last() =~= deps@.take(i as int));
            assert(t.last() == deps@[i as int]);
            lemma_dedup_membership(deps@.take(i as int), deps@[i as int]);
        }
        if !seen {
            let copy = match d {
                ServiceDep::ImportPath(p) => ServiceDep::ImportPath(p.clone()),
                ServiceDep::Inline(k) => ServiceDep::Inline(k.clone()),
            };
            proof {
                assert(copy == deps@[i as int]);
            }
            out.push(copy);
        }
        i += 1;
    }
    proof {
        assert(deps@.take(deps@.len() as int) =~= deps@);
        lemma_dedup_len(deps@);
        lemma_dedup_distinct(deps@);
        assert forall|i: int|
            0 <= i < deps@.len() implies dep_in(out@, #[trigger] deps@[i]) by {
            lemma_dep_eq_refl(deps@[i]);
            assert(dep_in(deps@, deps@[i]));
            lemma_dedup_membership(deps@, deps@[i]);
        }
        assert forall|j: int|
            0 <= j < out@.len() implies dep_in(deps@, #[trigger] out@[j]) by {
            lemma_dep_eq_refl(out@[j]);
            assert(dep_in(out@, out@[j]));
            lemma_dedup_membership(deps@, out@[j]);
        }
    }
    out
}

/// A structurally identical copy of a match clause.
fn copy_match(m: &RouterMatch) -> (r: RouterMatch)
    ensures
        r.host == m.host,
        r.path == m.path,
        r.methods@ == m.methods@,
        r.headers@ == m.headers@,
        r.queries@ == m.queries@,
        r.cookies@ == m.cookies@,
        r.scheme == m.scheme,
{
    let host = match &m.host {
        Some(h) => Some(h.clone()),
        None => None,
    };
    let path = match &m.path {
        Some(p) => Some(p.clone()),
        None => None,
    };
    let mut methods: Vec<crate::httptypes::HttpMethod> = Vec::new();
    let mut i: usize = 0;
    while i < m.methods.len()
        invariant
            i <= m.methods@.len(),
            methods@ == m.methods@.take(i as int),
        decreases m.methods@.len() - i,
    {
        methods.push(m.methods[i]);
        proof {
            assert(methods@ =~= m.methods@.take(i as int + 1));
        }
        i += 1;
    }
    proof {
        assert(m.methods@.take(m.methods@.len() as int) =~= m.methods@);
    }
    let mut headers: Vec<HeaderCond> = Vec::new();
    let mut j: usize = 0;
    while j < m.headers.len()
        invariant
            j <= m.headers@.len(),
            headers@ == m.headers@.take(j as int),
        decreases m.headers@.len() - j,
    {
        let h = &m.headers[j];
        headers.push(HeaderCond { name: h.name.clone(), pattern: h.pattern.clone(), not: h.not });
        proof {
            assert(headers@ =~= m.headers@.take(j as int + 1));
        }
        j += 1;
    }
    proof {
        assert(m.headers@.take(m.headers@.len() as int) =~= m.headers@);
    }
    let mut queries: Vec<QueryCond> = Vec::new();
    let mut q: usize = 0;
    while q < m.queries.len()
        invariant
            q <= m.queries@.len(),
            queries@ == m.queries@.take(q as int),
        decreases m.queries@.len() - q,
    {
        let h = &m.queries[q];
        queries.push(QueryCond { key: h.key.clone(), pattern: h.pattern.clone(), not: h.not });
        proof {
            assert(queries@ =~= m.queries@.take(q as int + 1));
        }
        q += 1;
    }
    proof {
        assert(m.queries@.take(m.queries@.len() as int) =~= m.queries@);
    }
    let mut cookies: Vec<CookieCond> = Vec::new();
    let mut c: usize = 0;
    while c < m.cookies.len()
        invariant
            c <= m.cookies@.len(),
            cookies@ == m.cookies@.take(c as int),
        decreases m.cookies@.len() - c,
    {
        let h = &m.cookies[c];
        cookies.push(CookieCond { name: h.name.clone(), pattern: h.pattern.clone(), not: h.not });
        proof {
            assert(cookies@ =~= m.cookies@.take(c as int + 1));
        }
        c += 1;
    }
    proof {
        assert(m.cookies@.take(m.cookies@.len() as int) =~= m.cookies@);
    }
    let r = RouterMatch { host, path, methods, headers, queries, cookies, scheme: m.scheme };
    r
}

/// A structurally equivalent copy of a condition value.
fn copy_cond_value(v: &CondValue) -> (r: CondValue)
    ensures
        cv_equiv(r, *v),
{
    match v {
        CondValue::Str(s) => CondValue::Str(s.clone()),
        CondValue::Other => CondValue::Other,
    }
}

/// Structural equivalence of condition values, by content.
pub open spec fn cv_equiv(a: CondValue, b: CondValue) -> bool {
    match (a, b) {
        (CondValue::Str(x), CondValue::Str(y)) => x@ == y@,
        (CondValue::Other, CondValue::Other) => true,
        _ => false,
    }
}

/// Structural equivalence of elementary conditions.
pub open spec fn basic_equiv(a: BasicCond, b: BasicCond) -> bool {
    match (a, b) {
        (BasicCond::Equals { is: x }, BasicCond::Equals { is: y }) => cv_equiv(x, y),
        (BasicCond::In { values: x }, BasicCond::In { values: y }) => x@.len() == y@.len()
            && forall|i: int| 0 <= i < x@.len() ==> cv_equiv(#[trigger] x@[i], y@[i]),
        (BasicCond::Present { present: x }, BasicCond::Present { present: y }) => x == y,
        (
            BasicCond::Pattern { pattern: x, ctx: cx },
            BasicCond::Pattern { pattern: y, ctx: cy },
        ) => x@ == y@ && cx == cy,
        _ => false,
    }
}

/// Structural equivalence of condition trees.
pub open spec fn cond_equiv(a: CondNode, b: CondNode) -> bool
    decreases a,
{
    match (a, b) {
        (CondNode::All { all: x }, CondNode::All { all: y }) => x@.len() == y@.len() && forall|
            i: int,
        |
            0 <= i < x@.len() ==> cond_equiv(#[trigger] x@[i], y@[i]),
        (CondNode::Any { any: x }, CondNode::Any { any: y }) => x@.len() == y@.len() && forall|
            i: int,
        |
            0 <= i < x@.len() ==> cond_equiv(#[trigger] x@[i], y@[i]),
        (CondNode::Not { not: x }, CondNode::Not { not: y }) => cond_equiv(*x, *y),
        (CondNode::Test(x), CondNode::Test(y)) => x.var@ == y.var@ && basic_equiv(x.cond, y.cond),
        _ => false,
    }
}

/// A structurally equivalent copy of a condition tree.
fn copy_cond(c: &CondNode) -> (r: CondNode)
    ensures
        cond_equiv(r, *c),
    decreases *c,
{
    match c {
        CondNode::All { all } => {
            let mut out: Vec<CondNode> = Vec::new();
            let mut i: usize = 0;
            while i < all.len()
                invariant
                    i <= all@.len(),
                    out@.len() == i,
                    forall|j: int| 0 <= j < i ==> cond_equiv(#[trigger] out@[j], all@[j]),
                    *c matches CondNode::All { all: a2 } && a2 == *all,
                decreases all@.len() - i,
            {
                proof {
                    assert(c->all == *all);
                    assert(decreases_to!(*c => c->all));
                    assert(decreases_to!(c->all => c->all@));
                    assert(decreases_to!(c->all@ => c->all@[i as int]));
                }
                out.push(copy_cond(&all[i]));
                i += 1;
            }
            CondNode::All { all: out }
        },
        CondNode::Any { any } => {
            let mut out: Vec<CondNode> = Vec::new();
            let mut i: usize = 0;
            while i < any.len()
                invariant
                    i <= any@.len(),
                    out@.len() == i,
                    forall|j: int| 0 <= j < i ==> cond_equiv(#[trigger] out@[j], any@[j]),
                    *c matches CondNode::Any { any: a2 } && a2 == *any,
                decreases any@.len() - i,
            {
                proof {
                    assert(c->any == *any);
                    assert(decreases_to!(*c => c->any));
                    assert(decreases_to!(c->any => c->any@));
                    assert(decreases_to!(c->any@ => c->any@[i as int]));
                }
                out.push(copy_cond(&any[i]));
                i += 1;
            }
            CondNode::Any { any: out }
        },
        CondNode::Not { not } => CondNode::Not { not: Box::new(copy_cond(not)) },
        CondNode::Test(t) => {
            let cond = match &t.cond {
                BasicCond::Equals { is } => BasicCond::Equals { is: copy_cond_value(is) },
                BasicCond::In { values } => {
                    let mut out: Vec<CondValue> = Vec::new();
                    let mut i: usize = 0;
                    while i < values.len()
                        invariant
                            i <= values@.len(),
                            out@.len() == i,
                            forall|j: int|
                                0 <= j < i ==> cv_equiv(#[trigger] out@[j], values@[j]),
                        decreases values@.len() - i,
                    {
                        out.push(copy_cond_value(&values[i]));
                        i += 1;
                    }
                    BasicCond::In { values: out }
                },
                BasicCond::Present { present } => BasicCond::Present { present: *present },
                BasicCond::Pattern { pattern, ctx } => BasicCond::Pattern {
                    pattern: pattern.clone(),
                    ctx: *ctx,
                },
            };
            CondNode::Test(crate::config_types::TestCond { var: t.var.clone(), cond })
        },
    }
}

/// A copy of a name-to-text pair list.
fn copy_pairs(v: &Vec<(String, String)>) -> (r: Vec<(String, String)>)
    ensures
        r@ == v@,
{
    let mut out: Vec<(String, String)> = Vec::new();
    let mut i: usize = 0;
    while i < v.len()
        invariant
            i <= v@.len(),
            out@ == v@.take(i as int),
        decreases v@.len() - i,
    {
        out.push((v[i].0.clone(), v[i].1.clone()));
        proof {
            assert(out@ =~= v@.take(i as int + 1));
        }
        i += 1;
    }
    proof {
        assert(v@.take(v@.len() as int) =~= v@);
    }
    out
}

/// A copy of a name list.
pub fn copy_names(v: &Vec<String>) -> (r: Vec<String>)
    ensures
        r@ == v@,
{
    let mut out: Vec<String> = Vec::new();
    let mut i: usize = 0;
    while i < v.len()
        invariant
            i <= v@.len(),
            out@ == v@.take(i as int),
        decreases v@.len() - i,
    {
        out.push(v[i].clone());
        proof {
            assert(out@ =~= v@.take(i as int + 1));
        }
        i += 1;
    }
    proof {
        assert(v@.take(v@.len() as int) =~= v@);
    }
    out
}

} // verus!
