//! The declarative configuration model: services, router rules,
//! match conditions and operations, exactly as a configuration
//! document describes them, plus the structural validation that runs
//! before a build.

use vstd::prelude::*;

use crate::httptypes::{HttpMethod, Scheme};

verus! {

/// How deep a router may restart before the interpreter gives up.
pub const DEFAULT_MAX_STEPS: u32 = 16;

/// A static-files service, as configured.
#[derive(Debug, Clone)]
pub struct StaticService {
    pub source_dir: String,
    pub file_index: String,
    pub file_404: String,
    pub file_500: String,
    pub index_strategy: IndexStrategy,
    pub evil_dir_strategy: EvilDirStrategy,
}

/// The default index file name.
pub fn default_file_index() -> (r: String)
    ensures
        r@ == "index.html"@,
{
    ("index.html").to_owned()
}

/// The default not-found page name.
pub fn default_file_404() -> (r: String)
    ensures
        r@ == "404.html"@,
{
    ("404.html").to_owned()
}

/// The default error page name.
pub fn default_file_500() -> (r: String)
    ensures
        r@ == "500.html"@,
{
    ("500.html").to_owned()
}

/// The default redirect status for directory redirects.
pub fn default_redirect_code() -> (r: u16)
    ensures
        r == 308,
{
    308
}

/// What to do when the index file itself is requested by name.
#[derive(Debug, Clone, Copy)]
pub enum IndexStrategy {
    ServeIndex,
    Redirect { code: u16 },
    NotFound,
}

/// The default index strategy: redirect to the directory.
pub fn default_index_strategy() -> (r: IndexStrategy)
    ensures
        r matches IndexStrategy::Redirect { code } && code == 308,
{
    IndexStrategy::Redirect { code: 308 }
}

/// What to do when a directory is requested without a trailing slash
/// and its index file exists.
#[derive(Debug, Clone, Copy)]
pub enum EvilDirStrategyIndexExists {
    ServeIndex,
    Redirect { code: u16 },
    NotFound,
}

/// The same, when the index file is missing.
#[derive(Debug, Clone, Copy)]
pub enum EvilDirStrategyIndexMissing {
    Redirect { code: u16 },
    NotFound,
}

/// The two directory strategies together.
#[derive(Debug, Clone, Copy)]
pub struct EvilDirStrategy {
    pub if_index_exists: EvilDirStrategyIndexExists,
    pub if_index_missing: EvilDirStrategyIndexMissing,
}

impl Default for EvilDirStrategy {
    /// Redirect when the index exists, not-found when it is missing.
    fn default() -> (r: Self)
        ensures
            r.if_index_exists matches EvilDirStrategyIndexExists::Redirect { code } && code == 308,
            r.if_index_missing is NotFound,
    {
        EvilDirStrategy {
            if_index_exists: EvilDirStrategyIndexExists::Redirect { code: 308 },
            if_index_missing: EvilDirStrategyIndexMissing::NotFound,
        }
    }
}

/// Always-true serde default.
pub fn default_true() -> (r: bool)
    ensures
        r,
{
    true
}

/// Supported HTTP versions for an upstream connection.
#[derive(Debug, Clone, Copy, PartialEq, Eq, Structural)]
pub enum HttpVersion {
    V1_1,
    V2,
}

/// The default upstream HTTP version.
pub fn default_http_version() -> (r: HttpVersion)
    ensures
        r == HttpVersion::V1_1,
{
    HttpVersion::V1_1
}

/// ALPN protocol names for TLS negotiation.
#[derive(Debug, Clone, Copy, PartialEq, Eq, Structural)]
pub enum AlpnProto {
    Http1_1,
    Http2,
}

/// The default ALPN list.
pub fn default_alpn() -> (r: Vec<AlpnProto>)
    ensures
        r@.len() == 1,
        r@[0] == AlpnProto::Http1_1,
{
    let mut v: Vec<AlpnProto> = Vec::new();
    v.push(AlpnProto::Http1_1);
    v
}

/// TLS protocol versions.
#[derive(Debug, Clone, Copy, PartialEq, Eq, PartialOrd, Ord, Structural)]
pub enum TlsVersion {
    V12,
    V13,
}

/// The lowest TLS version accepted by default.
pub fn default_min_tls() -> (r: TlsVersion)
    ensures
        r == TlsVersion::V12,
{
    TlsVersion::V12
}

/// The highest TLS version accepted by default.
pub fn default_max_tls() -> (r: TlsVersion)
    ensures
        r == TlsVersion::V13,
{
    TlsVersion::V13
}

/// TLS settings towards an upstream.
#[derive(Debug, Clone)]
pub struct TlsUpstream {
    pub enabled: bool,
    pub sni: Option<String>,
    pub alpn: Vec<AlpnProto>,
    pub use_system_roots: bool,
    pub ca_file: Option<String>,
    pub ca_files: Option<Vec<String>>,
    pub ca_inline: Option<String>,
    pub allow_invalid_hostnames: bool,
    pub insecure_skip_verify: bool,
    pub client_cert_file: Option<String>,
    pub client_key_file: Option<String>,
    pub min_tls: TlsVersion,
    pub max_tls: TlsVersion,
    pub cipher_suites: Option<Vec<String>>,
    pub handshake_timeout_ms: Option<u32>,
}

/// TLS settings of a listening server.
#[derive(Debug, Clone)]
pub struct TlsConfig {
    pub enabled: bool,
    pub cert_file: String,
    pub key_file: String,
    pub alpn: Vec<AlpnProto>,
}

/// Where a forward service sends its traffic.
#[derive(Debug, Clone)]
pub struct ForwardTarget {
    pub scheme: Scheme,
    pub host: String,
    pub port: u16,
    pub path_prefix: String,
}

/// Which host header the upstream request carries.
#[derive(Debug, Clone)]
pub enum PassHost {
    Mode(PassHostMode),
    Custom { custom: String },
}

#[derive(Debug, Clone, Copy, PartialEq, Eq, Structural)]
pub enum PassHostMode {
    Incoming,
    Target,
}

impl Default for PassHost {
    /// Pass the incoming host header on.
    fn default() -> (r: Self)
        ensures
            r matches PassHost::Mode(m) && m == PassHostMode::Incoming,
    {
        PassHost::Mode(PassHostMode::Incoming)
    }
}

/// Upstream timeouts, all optional.
#[derive(Debug, Clone, Copy)]
pub struct Timeouts {
    pub connect_ms: Option<u32>,
    pub read_ms: Option<u32>,
    pub write_ms: Option<u32>,
}

impl Default for Timeouts {
    fn default() -> (r: Self)
        ensures
            r.connect_ms is None,
            r.read_ms is None,
            r.write_ms is None,
    {
        Timeouts { connect_ms: None, read_ms: None, write_ms: None }
    }
}

/// A forwarding (reverse-proxy) service, as configured.
#[derive(Debug, Clone)]
pub struct ForwardService {
    pub target: ForwardTarget,
    pub pass_host: PassHost,
    pub x_forwarded: bool,
    pub timeouts: Timeouts,
    pub http_version: HttpVersion,
    pub tls: Option<TlsUpstream>,
}

/// What happens after a matched rule's operations fall through.
#[derive(Debug, Clone, Copy, PartialEq, Eq, Structural)]
pub enum OnMatch {
    Stop,
    Continue,
    Restart,
}

impl Default for OnMatch {
    fn default() -> (r: Self)
        ensures
            r == OnMatch::Stop,
    {
        OnMatch::Stop
    }
}

/// The redirect statuses a rule may produce.
#[derive(Debug, Clone, Copy, PartialEq, Eq, Structural)]
pub enum RedirectCode {
    Moved301,
    Found302,
    Temporary307,
    Permanent308,
}

impl RedirectCode {
    /// The numeric status this code stands for.
    pub fn status(&self) -> (r: u16)
        ensures
            r == self.spec_status(),
    {
        match self {
            RedirectCode::Moved301 => 301,
            RedirectCode::Found302 => 302,
            RedirectCode::Temporary307 => 307,
            RedirectCode::Permanent308 => 308,
        }
    }

    pub open spec fn spec_status(self) -> u16 {
        match self {
            RedirectCode::Moved301 => 301u16,
            RedirectCode::Found302 => 302u16,
            RedirectCode::Temporary307 => 307u16,
            RedirectCode::Permanent308 => 308u16,
        }
    }
}

/// A match condition on one header value (name is case-insensitive).
#[derive(Debug, Clone)]
pub struct HeaderCond {
    pub name: String,
    pub pattern: String,
    pub not: bool,
}

/// A match condition on one query parameter (key is case-sensitive).
#[derive(Debug, Clone)]
pub struct QueryCond {
    pub key: String,
    pub pattern: String,
    pub not: bool,
}

/// A match condition on one cookie (name is case-sensitive).
#[derive(Debug, Clone)]
pub struct CookieCond {
    pub name: String,
    pub pattern: String,
    pub not: bool,
}

/// The `when` clause of a rule; every absent part matches everything.
#[derive(Debug, Clone)]
pub struct RouterMatch {
    pub host: Option<String>,
    pub path: Option<String>,
    pub methods: Vec<HttpMethod>,
    pub headers: Vec<HeaderCond>,
    pub queries: Vec<QueryCond>,
    pub cookies: Vec<CookieCond>,
    pub scheme: Option<Scheme>,
}

impl RouterMatch {
    /// Whether this clause constrains nothing and accepts every
    /// request.
    pub fn is_empty(&self) -> (r: bool)
        ensures
            r == (self.host is None && self.path is None && self.scheme is None
                && self.methods@.len() == 0 && self.headers@.len() == 0 && self.queries@.len()
                == 0 && self.cookies@.len() == 0),
    {
        let no_host = match &self.host {
            Some(_) => false,
            None => true,
        };
        let no_path = match &self.path {
            Some(_) => false,
            None => true,
        };
        let no_scheme = match &self.scheme {
            Some(_) => false,
            None => true,
        };
        no_host && no_path && no_scheme && self.methods.len() == 0 && self.headers.len() == 0
            && self.queries.len() == 0 && self.cookies.len() == 0
    }
}

impl Default for RouterMatch {
    /// The empty match: it accepts every request.
    fn default() -> (r: Self)
        ensures
            r.host is None,
            r.path is None,
            r.methods@.len() == 0,
            r.headers@.len() == 0,
            r.queries@.len() == 0,
            r.cookies@.len() == 0,
            r.scheme is None,
    {
        RouterMatch {
            host: None,
            path: None,
            methods: Vec::new(),
            headers: Vec::new(),
            queries: Vec::new(),
            cookies: Vec::new(),
            scheme: None,
        }
    }
}

/// A comparison value in a condition: only string-valued comparands
/// can ever equal a request value; anything else never matches.
#[derive(Debug)]
pub enum CondValue {
    Str(String),
    Other,
}

/// A pattern-context hint on a condition.
#[derive(Debug, Clone, Copy, PartialEq, Eq, Structural)]
pub enum PatternCtxHint {
    Path,
    Host,
    Value,
}

/// An elementary test against one variable.
#[derive(Debug)]
pub enum BasicCond {
    Equals { is: CondValue },
    In { values: Vec<CondValue> },
    Present { present: bool },
    Pattern { pattern: String, ctx: Option<PatternCtxHint> },
}

/// One variable with its elementary test.
#[derive(Debug)]
pub struct TestCond {
    pub var: String,
    pub cond: BasicCond,
}

/// A boolean tree of conditions.
#[derive(Debug)]
pub enum CondNode {
    All { all: Vec<CondNode> },
    Any { any: Vec<CondNode> },
    Not { not: Box<CondNode> },
    Test(TestCond),
}

/// One rewrite or terminal operation of a rule.
#[derive(Debug)]
pub enum RouterOp {
    Branch(BranchOp),
    SetScheme(Scheme),
    SetHost(String),
    SetPort(u16),
    SetPath(String),
    HeaderSet(Vec<(String, String)>),
    HeaderAdd(Vec<(String, String)>),
    HeaderDelete(Vec<String>),
    HeaderClear,
    QuerySet(Vec<(String, String)>),
    QueryAdd(Vec<(String, String)>),
    QueryDelete(Vec<String>),
    QueryClear,
    InternalRewrite,
    Redirect { status: RedirectCode, location: String },
    Respond { status: u16, body: Option<String>, headers: Vec<(String, String)> },
    Use(Box<ServiceRef>),
}

/// A conditional operation: one of two operation lists runs.
#[derive(Debug)]
pub struct BranchOp {
    pub cond: CondNode,
    pub then_ops: Vec<RouterOp>,
    pub else_ops: Vec<RouterOp>,
}

/// One router rule: match, operations, and fall-through policy.
#[derive(Debug)]
pub struct RouterRule {
    pub when: Option<RouterMatch>,
    pub ops: Vec<RouterOp>,
    pub on_match: OnMatch,
}

/// A rule-evaluating service, as configured.
#[derive(Debug)]
pub struct RouterService {
    pub rules: Vec<RouterRule>,
    pub next: Option<Box<ServiceRef>>,
    pub max_steps: Option<u32>,
}

/// A request-handling unit of any of the three kinds.
#[derive(Debug)]
pub enum Service {
    Static(StaticService),
    Router(RouterService),
    Forward(ForwardService),
}

/// A reference to a service: written in place, or imported by path.
#[derive(Debug)]
pub enum ServiceRef {
    Inline(Service),
    Import { import: String },
}

/// One listening server with its service.
#[derive(Debug)]
pub struct HttpServer {
    pub name: Option<String>,
    pub bind: String,
    pub tls: Option<TlsConfig>,
    pub service: ServiceRef,
    pub base_dir: Option<String>,
}

/// A configuration file holding several servers.
#[derive(Debug)]
pub struct ServersFile {
    pub servers: Vec<HttpServer>,
}

/// View equality of optional strings.
pub open spec fn opt_str_equiv(a: Option<String>, b: Option<String>) -> bool {
    match (a, b) {
        (Some(x), Some(y)) => x@ == y@,
        (None, None) => true,
        _ => false,
    }
}

/// View equality of optional string lists.
pub open spec fn opt_strs_equiv(a: Option<Vec<String>>, b: Option<Vec<String>>) -> bool {
    match (a, b) {
        (Some(x), Some(y)) => x.deep_view() == y.deep_view(),
        (None, None) => true,
        _ => false,
    }
}

/// Content equality of static-service configurations.
pub open spec fn static_equiv(a: StaticService, b: StaticService) -> bool {
    &&& a.source_dir@ == b.source_dir@
    &&& a.file_index@ == b.file_index@
    &&& a.file_404@ == b.file_404@
    &&& a.file_500@ == b.file_500@
    &&& a.index_strategy == b.index_strategy
    &&& a.evil_dir_strategy == b.evil_dir_strategy
}

/// Content equality of upstream TLS settings.
pub open spec fn tls_up_equiv(a: TlsUpstream, b: TlsUpstream) -> bool {
    &&& a.enabled == b.enabled
    &&& opt_str_equiv(a.sni, b.sni)
    &&& a.alpn@ == b.alpn@
    &&& a.use_system_roots == b.use_system_roots
    &&& opt_str_equiv(a.ca_file, b.ca_file)
    &&& opt_strs_equiv(a.ca_files, b.ca_files)
    &&& opt_str_equiv(a.ca_inline, b.ca_inline)
    &&& a.allow_invalid_hostnames == b.allow_invalid_hostnames
    &&& a.insecure_skip_verify == b.insecure_skip_verify
    &&& opt_str_equiv(a.client_cert_file, b.client_cert_file)
    &&& opt_str_equiv(a.client_key_file, b.client_key_file)
    &&& a.min_tls == b.min_tls
    &&& a.max_tls == b.max_tls
    &&& opt_strs_equiv(a.cipher_suites, b.cipher_suites)
    &&& a.handshake_timeout_ms == b.handshake_timeout_ms
}

/// Content equality of forward-service configurations.
pub open spec fn forward_equiv(a: ForwardService, b: ForwardService) -> bool {
    &&& a.target.scheme == b.target.scheme
    &&& a.target.host@ == b.target.host@
    &&& a.target.port == b.target.port
    &&& a.target.path_prefix@ == b.target.path_prefix@
    &&& match (a.pass_host, b.pass_host) {
        (PassHost::Mode(x), PassHost::Mode(y)) => x == y,
        (PassHost::Custom { custom: x }, PassHost::Custom { custom: y }) => x@ == y@,
        _ => false,
    }
    &&& a.x_forwarded == b.x_forwarded
    &&& a.timeouts == b.timeouts
    &&& a.http_version == b.http_version
    &&& match (a.tls, b.tls) {
        (Some(x), Some(y)) => tls_up_equiv(x, y),
        (None, None) => true,
        _ => false,
    }
}

fn copy_opt_string(o: &Option<String>) -> (r: Option<String>)
    ensures
        opt_str_equiv(r, *o),
{
    match o {
        Some(x) => Some(x.clone()),
        None => None,
    }
}

fn copy_opt_strings(o: &Option<Vec<String>>) -> (r: Option<Vec<String>>)
    ensures
        opt_strs_equiv(r, *o),
{
    match o {
        Some(v) => Some(crate::kvlist::clone_string_values(v)),
        None => None,
    }
}

/// A content-equal copy of a static configuration.
pub fn copy_static_cfg(st: &StaticService) -> (r: StaticService)
    ensures
        static_equiv(r, *st),
{
    StaticService {
        source_dir: st.source_dir.clone(),
        file_index: st.file_index.clone(),
        file_404: st.file_404.clone(),
        file_500: st.file_500.clone(),
        index_strategy: st.index_strategy,
        evil_dir_strategy: st.evil_dir_strategy,
    }
}

/// A content-equal copy of a forward configuration.
pub fn copy_forward_cfg(fw: &ForwardService) -> (r: ForwardService)
    ensures
        forward_equiv(r, *fw),
{
    ForwardService {
        target: ForwardTarget {
            scheme: fw.target.scheme,
            host: fw.target.host.clone(),
            port: fw.target.port,
            path_prefix: fw.target.path_prefix.clone(),
        },
        pass_host: match &fw.pass_host {
            PassHost::Mode(m) => PassHost::Mode(*m),
            PassHost::Custom { custom } => PassHost::Custom { custom: custom.clone() },
        },
        x_forwarded: fw.x_forwarded,
        timeouts: fw.timeouts,
        http_version: fw.http_version,
        tls: match &fw.tls {
            Some(t) => Some(copy_tls_up(t)),
            None => None,
        },
    }
}

fn copy_tls_up(t: &TlsUpstream) -> (r: TlsUpstream)
    ensures
        tls_up_equiv(r, *t),
{
    TlsUpstream {
        enabled: t.enabled,
        sni: copy_opt_string(&t.sni),
        alpn: copy_alpn(&t.alpn),
        use_system_roots: t.use_system_roots,
        ca_file: copy_opt_string(&t.ca_file),
        ca_files: copy_opt_strings(&t.ca_files),
        ca_inline: copy_opt_string(&t.ca_inline),
        allow_invalid_hostnames: t.allow_invalid_hostnames,
        insecure_skip_verify: t.insecure_skip_verify,
        client_cert_file: copy_opt_string(&t.client_cert_file),
        client_key_file: copy_opt_string(&t.client_key_file),
        min_tls: t.min_tls,
        max_tls: t.max_tls,
        cipher_suites: copy_opt_strings(&t.cipher_suites),
        handshake_timeout_ms: t.handshake_timeout_ms,
    }
}

fn copy_alpn(v: &Vec<AlpnProto>) -> (r: Vec<AlpnProto>)
    ensures
        r@ == v@,
{
    let mut out: Vec<AlpnProto> = Vec::new();
    let mut i: usize = 0;
    while i < v.len()
        invariant
            i <= v@.len(),
            out@ == v@.take(i as int),
        decreases v@.len() - i,
    {
        out.push(v[i]);
        proof {
            assert(out@ =~= v@.take(i as int + 1));
        }
        i += 1;
    }
    proof {
        assert(v@.take(v@.len() as int) =~= v@);
    }
    out
}

/// Structural validity of a service definition: a static service
/// names a source directory, a forward service names a host, a router
/// has at least one rule and a valid inline `next` (imported
/// references are checked once they are resolved).
pub open spec fn svc_valid(s: Service) -> bool
    decreases s,
{
    match s {
        Service::Static(st) => crate::pattern_types::trim_model(st.source_dir@).len() > 0,
        Service::Forward(fw) => crate::pattern_types::trim_model(fw.target.host@).len() > 0,
        Service::Router(rt) => rt.rules@.len() > 0 && match rt.next {
            Some(b) => match *b {
                ServiceRef::Inline(inner) => svc_valid(inner),
                ServiceRef::Import { .. } => true,
            },
            None => true,
        },
    }
}

/// Check a service definition before a build: `None` exactly when it
/// is structurally valid, otherwise a description of the first fault.
pub fn validate_service(s: &Service) -> (r: Option<String>)
    ensures
        r is None <==> svc_valid(*s),
    decreases *s,
{
    match s {
        Service::Static(st) => {
            let t = crate::pattern_types::trim_str(st.source_dir.as_str());
            if t.unicode_len() == 0 {
                Some(("`static.source_dir` cannot be empty").to_owned())
            } else {
                None
            }
        },
        Service::Forward(fw) => {
            let t = crate::pattern_types::trim_str(fw.target.host.as_str());
            if t.unicode_len() == 0 {
                Some(("`forward.target.host` cannot be empty").to_owned())
            } else {
                None
            }
        },
        Service::Router(rt) => {
            if rt.rules.len() == 0 {
                return Some(("`router.rules` cannot be empty").to_owned());
            }
            match &rt.next {
                Some(b) => match &**b {
                    ServiceRef::Inline(inner) => validate_service(inner),
                    ServiceRef::Import { .. } => None,
                },
                None => None,
            }
        },
    }
}

} // verus!
