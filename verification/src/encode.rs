//! A canonical, deterministic structural encoding of service
//! definitions, and the content key built from it.  Two structurally
//! equal services always encode to the same text, so their keys agree;
//! the hash itself is the digest the `sha2` crate computes.

use vstd::prelude::*;

use crate::config_types::{
    AlpnProto, BasicCond, BranchOp, CondNode, CondValue, CookieCond, EvilDirStrategy,
    EvilDirStrategyIndexExists, EvilDirStrategyIndexMissing, ForwardService, ForwardTarget,
    HeaderCond, HttpVersion, IndexStrategy, OnMatch, PassHost, PassHostMode, PatternCtxHint,
    QueryCond, RedirectCode, RouterMatch, RouterOp, RouterRule, RouterService, Service,
    ServiceRef, StaticService, Timeouts, TlsUpstream, TlsVersion,
};
use crate::httptypes::{HttpMethod, Scheme};
use crate::strutil::{dec_str, str_eq, u64_dec};

verus! {

/// A length-prefixed string: its length in decimal, a colon, the text.
pub open spec fn enc_str(s: Seq<char>) -> Seq<char> {
    dec_str(s.len() as nat) + ":"@ + s
}

/// A number in decimal with a trailing separator.
pub open spec fn enc_num(n: nat) -> Seq<char> {
    "#"@ + dec_str(n) + ";"@
}

pub open spec fn enc_bool(b: bool) -> Seq<char> {
    if b {
        "t"@
    } else {
        "f"@
    }
}

pub open spec fn enc_opt_str(o: Option<String>) -> Seq<char> {
    match o {
        None => "n"@,
        Some(s) => "s"@ + enc_str(s@),
    }
}

pub open spec fn enc_opt_num(o: Option<u32>) -> Seq<char> {
    match o {
        None => "n"@,
        Some(v) => "s"@ + enc_num(v as nat),
    }
}

pub open spec fn enc_str_list(l: Seq<Seq<char>>) -> Seq<char>
    decreases l.len(),
{
    if l.len() == 0 {
        Seq::empty()
    } else {
        enc_str_list(l.drop_last()) + enc_str(l.last())
    }
}

pub open spec fn enc_pair_list(l: Seq<(Seq<char>, Seq<char>)>) -> Seq<char>
    decreases l.len(),
{
    if l.len() == 0 {
        Seq::empty()
    } else {
        enc_pair_list(l.drop_last()) + enc_str(l.last().0) + enc_str(l.last().1)
    }
}

pub open spec fn enc_method(m: HttpMethod) -> Seq<char> {
    match m {
        HttpMethod::Get => "A"@,
        HttpMethod::Post => "B"@,
        HttpMethod::Put => "C"@,
        HttpMethod::Patch => "D"@,
        HttpMethod::Delete => "E"@,
        HttpMethod::Head => "F"@,
        HttpMethod::Options => "G"@,
    }
}

pub open spec fn enc_methods(l: Seq<HttpMethod>) -> Seq<char>
    decreases l.len(),
{
    if l.len() == 0 {
        Seq::empty()
    } else {
        enc_methods(l.drop_last()) + enc_method(l.last())
    }
}

pub open spec fn enc_scheme(s: Scheme) -> Seq<char> {
    match s {
        Scheme::Http => "h"@,
        Scheme::Https => "H"@,
    }
}

pub open spec fn enc_opt_scheme(o: Option<Scheme>) -> Seq<char> {
    match o {
        None => "n"@,
        Some(s) => "s"@ + enc_scheme(s),
    }
}

pub open spec fn enc_http_version(v: HttpVersion) -> Seq<char> {
    match v {
        HttpVersion::V1_1 => "1"@,
        HttpVersion::V2 => "2"@,
    }
}

pub open spec fn enc_alpn(a: AlpnProto) -> Seq<char> {
    match a {
        AlpnProto::Http1_1 => "1"@,
        AlpnProto::Http2 => "2"@,
    }
}

pub open spec fn enc_alpns(l: Seq<AlpnProto>) -> Seq<char>
    decreases l.len(),
{
    if l.len() == 0 {
        Seq::empty()
    } else {
        enc_alpns(l.drop_last()) + enc_alpn(l.last())
    }
}

pub open spec fn enc_tls_version(v: TlsVersion) -> Seq<char> {
    match v {
        TlsVersion::V12 => "2"@,
        TlsVersion::V13 => "3"@,
    }
}

pub open spec fn enc_on_match(m: OnMatch) -> Seq<char> {
    match m {
        OnMatch::Stop => "S"@,
        OnMatch::Continue => "C"@,
        OnMatch::Restart => "R"@,
    }
}

pub open spec fn enc_redirect(c: RedirectCode) -> Seq<char> {
    match c {
        RedirectCode::Moved301 => "1"@,
        RedirectCode::Found302 => "2"@,
        RedirectCode::Temporary307 => "7"@,
        RedirectCode::Permanent308 => "8"@,
    }
}

pub open spec fn enc_hint(h: Option<PatternCtxHint>) -> Seq<char> {
    match h {
        None => "n"@,
        Some(PatternCtxHint::Path) => "p"@,
        Some(PatternCtxHint::Host) => "h"@,
        Some(PatternCtxHint::Value) => "v"@,
    }
}

pub open spec fn enc_index_strategy(s: IndexStrategy) -> Seq<char> {
    match s {
        IndexStrategy::ServeIndex => "S"@,
        IndexStrategy::Redirect { code } => "R"@ + enc_num(code as nat),
        IndexStrategy::NotFound => "N"@,
    }
}

pub open spec fn enc_evil_exists(s: EvilDirStrategyIndexExists) -> Seq<char> {
    match s {
        EvilDirStrategyIndexExists::ServeIndex => "S"@,
        EvilDirStrategyIndexExists::Redirect { code } => "R"@ + enc_num(code as nat),
        EvilDirStrategyIndexExists::NotFound => "N"@,
    }
}

pub open spec fn enc_evil_missing(s: EvilDirStrategyIndexMissing) -> Seq<char> {
    match s {
        EvilDirStrategyIndexMissing::Redirect { code } => "R"@ + enc_num(code as nat),
        EvilDirStrategyIndexMissing::NotFound => "N"@,
    }
}

pub open spec fn enc_static(s: StaticService) -> Seq<char> {
    "st("@ + enc_str(s.source_dir@) + enc_str(s.file_index@) + enc_str(s.file_404@) + enc_str(
        s.file_500@,
    ) + enc_index_strategy(s.index_strategy) + enc_evil_exists(s.evil_dir_strategy.if_index_exists)
        + enc_evil_missing(s.evil_dir_strategy.if_index_missing) + ")"@
}

pub open spec fn enc_opt_str_list(o: Option<Vec<String>>) -> Seq<char> {
    match o {
        None => "n"@,
        Some(l) => "s("@ + enc_str_list(l.deep_view()) + ")"@,
    }
}

pub open spec fn enc_tls_upstream(t: TlsUpstream) -> Seq<char> {
    "tu("@ + enc_bool(t.enabled) + enc_opt_str(t.sni) + enc_alpns(t.alpn@) + enc_bool(
        t.use_system_roots,
    ) + enc_opt_str(t.ca_file) + enc_opt_str_list(t.ca_files) + enc_opt_str(t.ca_inline)
        + enc_bool(t.allow_invalid_hostnames) + enc_bool(t.insecure_skip_verify) + enc_opt_str(
        t.client_cert_file,
    ) + enc_opt_str(t.client_key_file) + enc_tls_version(t.min_tls) + enc_tls_version(t.max_tls)
        + enc_opt_str_list(t.cipher_suites) + enc_opt_num(t.handshake_timeout_ms) + ")"@
}

pub open spec fn enc_pass_host(p: PassHost) -> Seq<char> {
    match p {
        PassHost::Mode(PassHostMode::Incoming) => "i"@,
        PassHost::Mode(PassHostMode::Target) => "t"@,
        PassHost::Custom { custom } => "c"@ + enc_str(custom@),
    }
}

pub open spec fn enc_timeouts(t: Timeouts) -> Seq<char> {
    enc_opt_num(t.connect_ms) + enc_opt_num(t.read_ms) + enc_opt_num(t.write_ms)
}

pub open spec fn enc_forward(f: ForwardService) -> Seq<char> {
    "fw("@ + enc_scheme(f.target.scheme) + enc_str(f.target.host@) + enc_num(f.target.port as nat)
        + enc_str(f.target.path_prefix@) + enc_pass_host(f.pass_host) + enc_bool(f.x_forwarded)
        + enc_timeouts(f.timeouts) + enc_http_version(f.http_version) + (match f.tls {
        None => "n"@,
        Some(t) => "s"@ + enc_tls_upstream(t),
    }) + ")"@
}

pub open spec fn enc_cond_value(v: CondValue) -> Seq<char> {
    match v {
        CondValue::Str(s) => "s"@ + enc_str(s@),
        CondValue::Other => "o"@,
    }
}

pub open spec fn enc_cond_values(l: Seq<CondValue>) -> Seq<char>
    decreases l.len(),
{
    if l.len() == 0 {
        Seq::empty()
    } else {
        enc_cond_values(l.drop_last()) + enc_cond_value(l.last())
    }
}

pub open spec fn enc_basic(b: BasicCond) -> Seq<char> {
    match b {
        BasicCond::Equals { is } => "e("@ + enc_cond_value(is) + ")"@,
        BasicCond::In { values } => "i("@ + enc_cond_values(values@) + ")"@,
        BasicCond::Present { present } => "p"@ + enc_bool(present),
        BasicCond::Pattern { pattern, ctx } => "m("@ + enc_str(pattern@) + enc_hint(ctx) + ")"@,
    }
}

pub open spec fn enc_cond(c: CondNode) -> Seq<char>
    decreases c,
{
    match c {
        CondNode::All { all } => "A("@ + enc_conds(all@) + ")"@,
        CondNode::Any { any } => "O("@ + enc_conds(any@) + ")"@,
        CondNode::Not { not } => "N("@ + enc_cond(*not) + ")"@,
        CondNode::Test(t) => "T("@ + enc_str(t.var@) + enc_basic(t.cond) + ")"@,
    }
}

pub open spec fn enc_conds(l: Seq<CondNode>) -> Seq<char>
    decreases l,
{
    if l.len() == 0 {
        Seq::empty()
    } else {
        enc_conds(l.drop_last()) + enc_cond(l.last())
    }
}

pub open spec fn enc_header_conds(l: Seq<HeaderCond>) -> Seq<char>
    decreases l.len(),
{
    if l.len() == 0 {
        Seq::empty()
    } else {
        enc_header_conds(l.drop_last()) + enc_str(l.last().name@) + enc_str(l.last().pattern@)
            + enc_bool(l.last().not)
    }
}

pub open spec fn enc_query_conds(l: Seq<QueryCond>) -> Seq<char>
    decreases l.len(),
{
    if l.len() == 0 {
        Seq::empty()
    } else {
        enc_query_conds(l.drop_last()) + enc_str(l.last().key@) + enc_str(l.last().pattern@)
            + enc_bool(l.last().not)
    }
}

pub open spec fn enc_cookie_conds(l: Seq<CookieCond>) -> Seq<char>
    decreases l.len(),
{
    if l.len() == 0 {
        Seq::empty()
    } else {
        enc_cookie_conds(l.drop_last()) + enc_str(l.last().name@) + enc_str(l.last().pattern@)
            + enc_bool(l.last().not)
    }
}

pub open spec fn enc_match(m: RouterMatch) -> Seq<char> {
    "wh("@ + enc_opt_str(m.host) + enc_opt_str(m.path) + enc_methods(m.methods@) + "("@
        + enc_header_conds(m.headers@) + ")("@ + enc_query_conds(m.queries@) + ")("@
        + enc_cookie_conds(m.cookies@) + ")"@ + enc_opt_scheme(m.scheme) + ")"@
}

pub open spec fn enc_opt_match(m: Option<RouterMatch>) -> Seq<char> {
    match m {
        None => "n"@,
        Some(x) => "s"@ + enc_match(x),
    }
}

pub open spec fn enc_pairs_vec(l: Seq<(String, String)>) -> Seq<char>
    decreases l.len(),
{
    if l.len() == 0 {
        Seq::empty()
    } else {
        enc_pairs_vec(l.drop_last()) + enc_str(l.last().0@) + enc_str(l.last().1@)
    }
}

pub open spec fn enc_names_vec(l: Seq<String>) -> Seq<char>
    decreases l.len(),
{
    if l.len() == 0 {
        Seq::empty()
    } else {
        enc_names_vec(l.drop_last()) + enc_str(l.last()@)
    }
}

pub open spec fn enc_op(op: RouterOp) -> Seq<char>
    decreases op,
{
    match op {
        RouterOp::Branch(b) => "b("@ + enc_cond(b.cond) + "("@ + enc_ops(b.then_ops@) + ")("@
            + enc_ops(b.else_ops@) + "))"@,
        RouterOp::SetScheme(s) => "c("@ + enc_scheme(s) + ")"@,
        RouterOp::SetHost(h) => "h("@ + enc_str(h@) + ")"@,
        RouterOp::SetPort(p) => "o("@ + enc_num(p as nat) + ")"@,
        RouterOp::SetPath(p) => "a("@ + enc_str(p@) + ")"@,
        RouterOp::HeaderSet(m) => "H("@ + enc_pairs_vec(m@) + ")"@,
        RouterOp::HeaderAdd(m) => "I("@ + enc_pairs_vec(m@) + ")"@,
        RouterOp::HeaderDelete(v) => "J("@ + enc_names_vec(v@) + ")"@,
        RouterOp::HeaderClear => "K"@,
        RouterOp::QuerySet(m) => "Q("@ + enc_pairs_vec(m@) + ")"@,
        RouterOp::QueryAdd(m) => "W("@ + enc_pairs_vec(m@) + ")"@,
        RouterOp::QueryDelete(v) => "X("@ + enc_names_vec(v@) + ")"@,
        RouterOp::QueryClear => "Y"@,
        RouterOp::InternalRewrite => "Z"@,
        RouterOp::Redirect { status, location } => "r("@ + enc_redirect(status) + enc_str(
            location@,
        ) + ")"@,
        RouterOp::Respond { status, body, headers } => "p("@ + enc_num(status as nat)
            + enc_opt_str(body) + enc_pairs_vec(headers@) + ")"@,
        RouterOp::Use(sref) => "u("@ + enc_service_ref(*sref) + ")"@,
    }
}

pub open spec fn enc_ops(l: Seq<RouterOp>) -> Seq<char>
    decreases l,
{
    if l.len() == 0 {
        Seq::empty()
    } else {
        enc_ops(l.drop_last()) + enc_op(l.last())
    }
}

pub open spec fn enc_rule(r: RouterRule) -> Seq<char>
    decreases r,
{
    "rl("@ + enc_opt_match(r.when) + "("@ + enc_ops(r.ops@) + ")"@ + enc_on_match(r.on_match)
        + ")"@
}

pub open spec fn enc_rules(l: Seq<RouterRule>) -> Seq<char>
    decreases l,
{
    if l.len() == 0 {
        Seq::empty()
    } else {
        enc_rules(l.drop_last()) + enc_rule(l.last())
    }
}

pub open spec fn enc_router(rt: RouterService) -> Seq<char>
    decreases rt,
{
    "rt("@ + enc_rules(rt.rules@) + (match rt.next {
        None => "n"@,
        Some(b) => "s"@ + enc_service_ref(*b),
    }) + (match rt.max_steps {
        None => "n"@,
        Some(v) => "s"@ + enc_num(v as nat),
    }) + ")"@
}

pub open spec fn enc_service(s: Service) -> Seq<char>
    decreases s,
{
    match s {
        Service::Static(st) => "S("@ + enc_static(st) + ")"@,
        Service::Router(rt) => "R("@ + enc_router(rt) + ")"@,
        Service::Forward(fw) => "F("@ + enc_forward(fw) + ")"@,
    }
}

pub open spec fn enc_service_ref(s: ServiceRef) -> Seq<char>
    decreases s,
{
    match s {
        ServiceRef::Inline(svc) => "I("@ + enc_service(svc) + ")"@,
        ServiceRef::Import { import } => "M("@ + enc_str(import@) + ")"@,
    }
}

// The executable encoders, one per spec function, all appending into
// one output buffer.
fn enc_str_into(s: &str, out: &mut String)
    ensures
        final(out)@ == old(out)@ + enc_str(s@),
{
    let ghost o0 = out@;
    let n = u64_dec(s.unicode_len() as u64);
    out.append(n.as_str());
    out.append(":");
    out.append(s);
    proof {
        assert(out@ =~= o0 + enc_str(s@));
    }
}

fn enc_num_into(n: u64, out: &mut String)
    ensures
        final(out)@ == old(out)@ + enc_num(n as nat),
{
    let ghost o0 = out@;
    out.append("#");
    let d = u64_dec(n);
    out.append(d.as_str());
    out.append(";");
    proof {
        assert(out@ =~= o0 + enc_num(n as nat));
    }
}

fn enc_bool_into(b: bool, out: &mut String)
    ensures
        final(out)@ == old(out)@ + enc_bool(b),
{
    if b {
        out.append("t");
    } else {
        out.append("f");
    }
}

fn enc_opt_str_into(o: &Option<String>, out: &mut String)
    ensures
        final(out)@ == old(out)@ + enc_opt_str(*o),
{
    let ghost o0 = out@;
    match o {
        None => {
            out.append("n");
        },
        Some(s) => {
            out.append("s");
            enc_str_into(s.as_str(), out);
            proof {
                assert(out@ =~= o0 + enc_opt_str(*o));
            }
        },
    }
}

fn enc_opt_num_into(o: &Option<u32>, out: &mut String)
    ensures
        final(out)@ == old(out)@ + enc_opt_num(*o),
{
    let ghost o0 = out@;
    match o {
        None => {
            out.append("n");
        },
        Some(v) => {
            out.append("s");
            enc_num_into(*v as u64, out);
            proof {
                assert(out@ =~= o0 + enc_opt_num(*o));
            }
        },
    }
}

fn enc_str_list_into(l: &Vec<String>, out: &mut String)
    ensures
        final(out)@ == old(out)@ + enc_str_list(l.deep_view()),
{
    let ghost o0 = out@;
    let mut i: usize = 0;
    proof {
        assert(o0 + enc_str_list(l.deep_view().take(0)) =~= o0);
    }
    while i < l.len()
        invariant
            i <= l@.len(),
            l.deep_view().len() == l@.len(),
            out@ == o0 + enc_str_list(l.deep_view().take(i as int)),
        decreases l@.len() - i,
    {
        enc_str_into(l[i].as_str(), out);
        proof {
            let t = l.deep_view().take(i as int + 1);
            assert(t.drop_last() =~= l.deep_view().take(i as int));
            assert(t.last() == l.deep_view()[i as int]);
            assert(out@ =~= o0 + enc_str_list(t));
        }
        i += 1;
    }
    proof {
        assert(l.deep_view().take(l.deep_view().len() as int) =~= l.deep_view());
    }
}

fn enc_pairs_vec_into(l: &Vec<(String, String)>, out: &mut String)
    ensures
        final(out)@ == old(out)@ + enc_pairs_vec(l@),
{
    let ghost o0 = out@;
    let mut i: usize = 0;
    proof {
        assert(o0 + enc_pairs_vec(l@.take(0)) =~= o0);
    }
    while i < l.len()
        invariant
            i <= l@.len(),
            out@ == o0 + enc_pairs_vec(l@.take(i as int)),
        decreases l@.len() - i,
    {
        enc_str_into(l[i].0.as_str(), out);
        enc_str_into(l[i].1.as_str(), out);
        proof {
            let t = l@.take(i as int + 1);
            assert(t.drop_last() =~= l@.take(i as int));
            assert(t.last() == l@[i as int]);
            assert(out@ =~= o0 + enc_pairs_vec(t));
        }
        i += 1;
    }
    proof {
        assert(l@.take(l@.len() as int) =~= l@);
    }
}

fn enc_names_vec_into(l: &Vec<String>, out: &mut String)
    ensures
        final(out)@ == old(out)@ + enc_names_vec(l@),
{
    let ghost o0 = out@;
    let mut i: usize = 0;
    proof {
        assert(o0 + enc_names_vec(l@.take(0)) =~= o0);
    }
    while i < l.len()
        invariant
            i <= l@.len(),
            out@ == o0 + enc_names_vec(l@.take(i as int)),
        decreases l@.len() - i,
    {
        enc_str_into(l[i].as_str(), out);
        proof {
            let t = l@.take(i as int + 1);
            assert(t.drop_last() =~= l@.take(i as int));
            assert(t.last() == l@[i as int]);
            assert(out@ =~= o0 + enc_names_vec(t));
        }
        i += 1;
    }
    proof {
        assert(l@.take(l@.len() as int) =~= l@);
    }
}

fn enc_method_into(m: &HttpMethod, out: &mut String)
    ensures
        final(out)@ == old(out)@ + enc_method(*m),
{
    match m {
        HttpMethod::Get => out.append("A"),
        HttpMethod::Post => out.append("B"),
        HttpMethod::Put => out.append("C"),
        HttpMethod::Patch => out.append("D"),
        HttpMethod::Delete => out.append("E"),
        HttpMethod::Head => out.append("F"),
        HttpMethod::Options => out.append("G"),
    }
}

fn enc_methods_into(l: &Vec<HttpMethod>, out: &mut String)
    ensures
        final(out)@ == old(out)@ + enc_methods(l@),
{
    let ghost o0 = out@;
    let mut i: usize = 0;
    proof {
        assert(o0 + enc_methods(l@.take(0)) =~= o0);
    }
    while i < l.len()
        invariant
            i <= l@.len(),
            out@ == o0 + enc_methods(l@.take(i as int)),
        decreases l@.len() - i,
    {
        enc_method_into(&l[i], out);
        proof {
            let t = l@.take(i as int + 1);
            assert(t.drop_last() =~= l@.take(i as int));
            assert(t.last() == l@[i as int]);
            assert(out@ =~= o0 + enc_methods(t));
        }
        i += 1;
    }
    proof {
        assert(l@.take(l@.len() as int) =~= l@);
    }
}

fn enc_scheme_into(s: &Scheme, out: &mut String)
    ensures
        final(out)@ == old(out)@ + enc_scheme(*s),
{
    match s {
        Scheme::Http => out.append("h"),
        Scheme::Https => out.append("H"),
    }
}

fn enc_alpns_into(l: &Vec<AlpnProto>, out: &mut String)
    ensures
        final(out)@ == old(out)@ + enc_alpns(l@),
{
    let ghost o0 = out@;
    let mut i: usize = 0;
    proof {
        assert(o0 + enc_alpns(l@.take(0)) =~= o0);
    }
    while i < l.len()
        invariant
            i <= l@.len(),
            out@ == o0 + enc_alpns(l@.take(i as int)),
        decreases l@.len() - i,
    {
        match l[i] {
            AlpnProto::Http1_1 => out.append("1"),
            AlpnProto::Http2 => out.append("2"),
        }
        proof {
            let t = l@.take(i as int + 1);
            assert(t.drop_last() =~= l@.take(i as int));
            assert(t.last() == l@[i as int]);
            assert(out@ =~= o0 + enc_alpns(t));
        }
        i += 1;
    }
    proof {
        assert(l@.take(l@.len() as int) =~= l@);
    }
}


fn enc_index_strategy_into(x: &IndexStrategy, out: &mut String)
    ensures
        final(out)@ == old(out)@ + enc_index_strategy(*x),
{
    let ghost o0 = out@;
    match x {
        IndexStrategy::ServeIndex => out.append("S"),
        IndexStrategy::Redirect { code } => {
            out.append("R");
            enc_num_into(*code as u64, out);
            proof {
                assert(out@ =~= o0 + enc_index_strategy(*x));
            }
        },
        IndexStrategy::NotFound => out.append("N"),
    }
}

fn enc_evil_exists_into(x: &EvilDirStrategyIndexExists, out: &mut String)
    ensures
        final(out)@ == old(out)@ + enc_evil_exists(*x),
{
    let ghost o0 = out@;
    match x {
        EvilDirStrategyIndexExists::ServeIndex => out.append("S"),
        EvilDirStrategyIndexExists::Redirect { code } => {
            out.append("R");
            enc_num_into(*code as u64, out);
            proof {
                assert(out@ =~= o0 + enc_evil_exists(*x));
            }
        },
        EvilDirStrategyIndexExists::NotFound => out.append("N"),
    }
}

fn enc_evil_missing_into(x: &EvilDirStrategyIndexMissing, out: &mut String)
    ensures
        final(out)@ == old(out)@ + enc_evil_missing(*x),
{
    let ghost o0 = out@;
    match x {
        EvilDirStrategyIndexMissing::Redirect { code } => {
            out.append("R");
            enc_num_into(*code as u64, out);
            proof {
                assert(out@ =~= o0 + enc_evil_missing(*x));
            }
        },
        EvilDirStrategyIndexMissing::NotFound => out.append("N"),
    }
}

fn enc_tls_version_into(x: &TlsVersion, out: &mut String)
    ensures
        final(out)@ == old(out)@ + enc_tls_version(*x),
{
    match x {
        TlsVersion::V12 => out.append("2"),
        TlsVersion::V13 => out.append("3"),
    }
}

fn enc_http_version_into(x: &HttpVersion, out: &mut String)
    ensures
        final(out)@ == old(out)@ + enc_http_version(*x),
{
    match x {
        HttpVersion::V1_1 => out.append("1"),
        HttpVersion::V2 => out.append("2"),
    }
}

fn enc_pass_host_into(x: &PassHost, out: &mut String)
    ensures
        final(out)@ == old(out)@ + enc_pass_host(*x),
{
    let ghost o0 = out@;
    match x {
        PassHost::Mode(PassHostMode::Incoming) => out.append("i"),
        PassHost::Mode(PassHostMode::Target) => out.append("t"),
        PassHost::Custom { custom } => {
            out.append("c");
            enc_str_into(custom.as_str(), out);
            proof {
                assert(out@ =~= o0 + enc_pass_host(*x));
            }
        },
    }
}

fn enc_opt_tls_into(x: &Option<TlsUpstream>, out: &mut String)
    ensures
        final(out)@ == old(out)@ + (match *x {
            None => "n"@,
            Some(t) => "s"@ + enc_tls_upstream(t),
        }),
{
    let ghost o0 = out@;
    match x {
        None => out.append("n"),
        Some(t) => {
            out.append("s");
            enc_tls_upstream_into(t, out);
            proof {
                assert(out@ =~= o0 + ("s"@ + enc_tls_upstream(*t)));
            }
        },
    }
}

/// Chain one more piece onto an accumulated concatenation.
proof fn lemma_chain(o: Seq<char>, acc: Seq<char>, piece: Seq<char>)
    ensures
        (o + acc) + piece == o + (acc + piece),
{
    vstd::seq_lib::lemma_concat_associative(o, acc, piece);
}

#[verifier::rlimit(50)]
fn enc_static_into(s: &StaticService, out: &mut String)
    ensures
        final(out)@ == old(out)@ + enc_static(*s),
{
    let ghost o0 = out@;
    out.append("st(");
    let ghost a1: Seq<char> = "st("@;
    enc_str_into(s.source_dir.as_str(), out);
    let ghost a2 = a1 + enc_str(s.source_dir@);
    proof {
        lemma_chain(o0, a1, enc_str(s.source_dir@));
    }
    enc_str_into(s.file_index.as_str(), out);
    let ghost a3 = a2 + enc_str(s.file_index@);
    proof {
        lemma_chain(o0, a2, enc_str(s.file_index@));
    }
    enc_str_into(s.file_404.as_str(), out);
    let ghost a4 = a3 + enc_str(s.file_404@);
    proof {
        lemma_chain(o0, a3, enc_str(s.file_404@));
    }
    enc_str_into(s.file_500.as_str(), out);
    let ghost a5 = a4 + enc_str(s.file_500@);
    proof {
        lemma_chain(o0, a4, enc_str(s.file_500@));
    }
    enc_index_strategy_into(&s.index_strategy, out);
    let ghost a6 = a5 + enc_index_strategy(s.index_strategy);
    proof {
        lemma_chain(o0, a5, enc_index_strategy(s.index_strategy));
    }
    enc_evil_exists_into(&s.evil_dir_strategy.if_index_exists, out);
    let ghost a7 = a6 + enc_evil_exists(s.evil_dir_strategy.if_index_exists);
    proof {
        lemma_chain(o0, a6, enc_evil_exists(s.evil_dir_strategy.if_index_exists));
    }
    enc_evil_missing_into(&s.evil_dir_strategy.if_index_missing, out);
    let ghost a8 = a7 + enc_evil_missing(s.evil_dir_strategy.if_index_missing);
    proof {
        lemma_chain(o0, a7, enc_evil_missing(s.evil_dir_strategy.if_index_missing));
    }
    out.append(")");
    proof {
        lemma_chain(o0, a8, ")"@);
        assert(out@ == o0 + enc_static(*s));
    }
}

fn enc_opt_str_list_into(o: &Option<Vec<String>>, out: &mut String)
    ensures
        final(out)@ == old(out)@ + enc_opt_str_list(*o),
{
    let ghost o0 = out@;
    match o {
        None => {
            out.append("n");
        },
        Some(l) => {
            out.append("s(");
            enc_str_list_into(l, out);
            out.append(")");
            proof {
                assert(out@ =~= o0 + enc_opt_str_list(*o));
            }
        },
    }
}

#[verifier::rlimit(50)]
fn enc_tls_upstream_into(t: &TlsUpstream, out: &mut String)
    ensures
        final(out)@ == old(out)@ + enc_tls_upstream(*t),
{
    let ghost o0 = out@;
    out.append("tu(");
    let ghost a1: Seq<char> = "tu("@;
    enc_bool_into(t.enabled, out);
    let ghost a2 = a1 + enc_bool(t.enabled);
    proof {
        lemma_chain(o0, a1, enc_bool(t.enabled));
    }
    enc_opt_str_into(&t.sni, out);
    let ghost a3 = a2 + enc_opt_str(t.sni);
    proof {
        lemma_chain(o0, a2, enc_opt_str(t.sni));
    }
    enc_alpns_into(&t.alpn, out);
    let ghost a4 = a3 + enc_alpns(t.alpn@);
    proof {
        lemma_chain(o0, a3, enc_alpns(t.alpn@));
    }
    enc_bool_into(t.use_system_roots, out);
    let ghost a5 = a4 + enc_bool(t.use_system_roots);
    proof {
        lemma_chain(o0, a4, enc_bool(t.use_system_roots));
    }
    enc_opt_str_into(&t.ca_file, out);
    let ghost a6 = a5 + enc_opt_str(t.ca_file);
    proof {
        lemma_chain(o0, a5, enc_opt_str(t.ca_file));
    }
    enc_opt_str_list_into(&t.ca_files, out);
    let ghost a7 = a6 + enc_opt_str_list(t.ca_files);
    proof {
        lemma_chain(o0, a6, enc_opt_str_list(t.ca_files));
    }
    enc_opt_str_into(&t.ca_inline, out);
    let ghost a8 = a7 + enc_opt_str(t.ca_inline);
    proof {
        lemma_chain(o0, a7, enc_opt_str(t.ca_inline));
    }
    enc_bool_into(t.allow_invalid_hostnames, out);
    let ghost a9 = a8 + enc_bool(t.allow_invalid_hostnames);
    proof {
        lemma_chain(o0, a8, enc_bool(t.allow_invalid_hostnames));
    }
    enc_bool_into(t.insecure_skip_verify, out);
    let ghost a10 = a9 + enc_bool(t.insecure_skip_verify);
    proof {
        lemma_chain(o0, a9, enc_bool(t.insecure_skip_verify));
    }
    enc_opt_str_into(&t.client_cert_file, out);
    let ghost a11 = a10 + enc_opt_str(t.client_cert_file);
    proof {
        lemma_chain(o0, a10, enc_opt_str(t.client_cert_file));
    }
    enc_opt_str_into(&t.client_key_file, out);
    let ghost a12 = a11 + enc_opt_str(t.client_key_file);
    proof {
        lemma_chain(o0, a11, enc_opt_str(t.client_key_file));
    }
    enc_tls_version_into(&t.min_tls, out);
    let ghost a13 = a12 + enc_tls_version(t.min_tls);
    proof {
        lemma_chain(o0, a12, enc_tls_version(t.min_tls));
    }
    enc_tls_version_into(&t.max_tls, out);
    let ghost a14 = a13 + enc_tls_version(t.max_tls);
    proof {
        lemma_chain(o0, a13, enc_tls_version(t.max_tls));
    }
    enc_opt_str_list_into(&t.cipher_suites, out);
    let ghost a15 = a14 + enc_opt_str_list(t.cipher_suites);
    proof {
        lemma_chain(o0, a14, enc_opt_str_list(t.cipher_suites));
    }
    enc_opt_num_into(&t.handshake_timeout_ms, out);
    let ghost a16 = a15 + enc_opt_num(t.handshake_timeout_ms);
    proof {
        lemma_chain(o0, a15, enc_opt_num(t.handshake_timeout_ms));
    }
    out.append(")");
    proof {
        lemma_chain(o0, a16, ")"@);
        assert(out@ == o0 + enc_tls_upstream(*t));
    }
}

#[verifier::rlimit(50)]
fn enc_forward_into(f: &ForwardService, out: &mut String)
    ensures
        final(out)@ == old(out)@ + enc_forward(*f),
{
    let ghost o0 = out@;
    out.append("fw(");
    let ghost a1: Seq<char> = "fw("@;
    enc_scheme_into(&f.target.scheme, out);
    let ghost a2 = a1 + enc_scheme(f.target.scheme);
    proof {
        lemma_chain(o0, a1, enc_scheme(f.target.scheme));
    }
    enc_str_into(f.target.host.as_str(), out);
    let ghost a3 = a2 + enc_str(f.target.host@);
    proof {
        lemma_chain(o0, a2, enc_str(f.target.host@));
    }
    enc_num_into(f.target.port as u64, out);
    let ghost a4 = a3 + enc_num(f.target.port as nat);
    proof {
        lemma_chain(o0, a3, enc_num(f.target.port as nat));
    }
    enc_str_into(f.target.path_prefix.as_str(), out);
    let ghost a5 = a4 + enc_str(f.target.path_prefix@);
    proof {
        lemma_chain(o0, a4, enc_str(f.target.path_prefix@));
    }
    enc_pass_host_into(&f.pass_host, out);
    let ghost a6 = a5 + enc_pass_host(f.pass_host);
    proof {
        lemma_chain(o0, a5, enc_pass_host(f.pass_host));
    }
    enc_bool_into(f.x_forwarded, out);
    let ghost a7 = a6 + enc_bool(f.x_forwarded);
    proof {
        lemma_chain(o0, a6, enc_bool(f.x_forwarded));
    }
    enc_opt_num_into(&f.timeouts.connect_ms, out);
    let ghost a8 = a7 + enc_opt_num(f.timeouts.connect_ms);
    proof {
        lemma_chain(o0, a7, enc_opt_num(f.timeouts.connect_ms));
    }
    enc_opt_num_into(&f.timeouts.read_ms, out);
    let ghost a9 = a8 + enc_opt_num(f.timeouts.read_ms);
    proof {
        lemma_chain(o0, a8, enc_opt_num(f.timeouts.read_ms));
    }
    enc_opt_num_into(&f.timeouts.write_ms, out);
    let ghost a10 = a9 + enc_opt_num(f.timeouts.write_ms);
    proof {
        lemma_chain(o0, a9, enc_opt_num(f.timeouts.write_ms));
    }
    enc_http_version_into(&f.http_version, out);
    let ghost a11 = a10 + enc_http_version(f.http_version);
    proof {
        lemma_chain(o0, a10, enc_http_version(f.http_version));
    }
    enc_opt_tls_into(&f.tls, out);
    let ghost tlsp: Seq<char> = match &f.tls {
        None => "n"@,
        Some(t) => "s"@ + enc_tls_upstream(*t),
    };
    let ghost a12 = a11 + tlsp;
    proof {
        lemma_chain(o0, a11, tlsp);
    }
    out.append(")");
    proof {
        lemma_chain(o0, a12, ")"@);
        assert(a10 == ((a7 + enc_opt_num(f.timeouts.connect_ms)) + enc_opt_num(
            f.timeouts.read_ms,
        )) + enc_opt_num(f.timeouts.write_ms));
        lemma_chain(a7, enc_opt_num(f.timeouts.connect_ms), enc_opt_num(f.timeouts.read_ms));
        lemma_chain(
            a7,
            enc_opt_num(f.timeouts.connect_ms) + enc_opt_num(f.timeouts.read_ms),
            enc_opt_num(f.timeouts.write_ms),
        );
        assert(a10 == a7 + enc_timeouts(f.timeouts));
        assert(out@ == o0 + enc_forward(*f));
    }
}

fn enc_cond_value_into(v: &CondValue, out: &mut String)
    ensures
        final(out)@ == old(out)@ + enc_cond_value(*v),
{
    let ghost o0 = out@;
    match v {
        CondValue::Str(s) => {
            out.append("s");
            enc_str_into(s.as_str(), out);
            proof {
                assert(out@ =~= o0 + enc_cond_value(*v));
            }
        },
        CondValue::Other => {
            out.append("o");
        },
    }
}

fn enc_cond_values_into(l: &Vec<CondValue>, out: &mut String)
    ensures
        final(out)@ == old(out)@ + enc_cond_values(l@),
{
    let ghost o0 = out@;
    let mut i: usize = 0;
    proof {
        assert(o0 + enc_cond_values(l@.take(0)) =~= o0);
    }
    while i < l.len()
        invariant
            i <= l@.len(),
            out@ == o0 + enc_cond_values(l@.take(i as int)),
        decreases l@.len() - i,
    {
        enc_cond_value_into(&l[i], out);
        proof {
            let t = l@.take(i as int + 1);
            assert(t.drop_last() =~= l@.take(i as int));
            assert(t.last() == l@[i as int]);
            assert(out@ =~= o0 + enc_cond_values(t));
        }
        i += 1;
    }
    proof {
        assert(l@.take(l@.len() as int) =~= l@);
    }
}

fn enc_basic_into(b: &BasicCond, out: &mut String)
    ensures
        final(out)@ == old(out)@ + enc_basic(*b),
{
    let ghost o0 = out@;
    match b {
        BasicCond::Equals { is } => {
            out.append("e(");
            enc_cond_value_into(is, out);
            out.append(")");
        },
        BasicCond::In { values } => {
            out.append("i(");
            enc_cond_values_into(values, out);
            out.append(")");
        },
        BasicCond::Present { present } => {
            out.append("p");
            enc_bool_into(*present, out);
        },
        BasicCond::Pattern { pattern, ctx } => {
            out.append("m(");
            enc_str_into(pattern.as_str(), out);
            match ctx {
                None => out.append("n"),
                Some(PatternCtxHint::Path) => out.append("p"),
                Some(PatternCtxHint::Host) => out.append("h"),
                Some(PatternCtxHint::Value) => out.append("v"),
            }
            out.append(")");
        },
    }
    proof {
        assert(out@ =~= o0 + enc_basic(*b));
    }
}

fn enc_cond_into(c: &CondNode, out: &mut String)
    ensures
        final(out)@ == old(out)@ + enc_cond(*c),
    decreases *c,
{
    let ghost o0 = out@;
    match c {
        CondNode::All { all } => {
            out.append("A(");
            enc_conds_into(all, out);
            out.append(")");
        },
        CondNode::Any { any } => {
            out.append("O(");
            enc_conds_into(any, out);
            out.append(")");
        },
        CondNode::Not { not } => {
            out.append("N(");
            enc_cond_into(not, out);
            out.append(")");
        },
        CondNode::Test(t) => {
            out.append("T(");
            enc_str_into(t.var.as_str(), out);
            enc_basic_into(&t.cond, out);
            out.append(")");
        },
    }
    proof {
        assert(out@ =~= o0 + enc_cond(*c));
    }
}

fn enc_conds_into(l: &Vec<CondNode>, out: &mut String)
    ensures
        final(out)@ == old(out)@ + enc_conds(l@),
    decreases l@,
{
    let ghost o0 = out@;
    let mut i: usize = 0;
    proof {
        assert(o0 + enc_conds(l@.take(0)) =~= o0);
    }
    while i < l.len()
        invariant
            i <= l@.len(),
            out@ == o0 + enc_conds(l@.take(i as int)),
        decreases l@.len() - i,
    {
        enc_cond_into(&l[i], out);
        proof {
            let t = l@.take(i as int + 1);
            assert(t.drop_last() =~= l@.take(i as int));
            assert(t.last() == l@[i as int]);
            lemma_enc_conds_step(t);
            assert(out@ =~= o0 + enc_conds(t));
        }
        i += 1;
    }
    proof {
        assert(l@.take(l@.len() as int) =~= l@);
    }
}

fn enc_header_conds_into(l: &Vec<HeaderCond>, out: &mut String)
    ensures
        final(out)@ == old(out)@ + enc_header_conds(l@),
{
    let ghost o0 = out@;
    let mut i: usize = 0;
    proof {
        assert(o0 + enc_header_conds(l@.take(0)) =~= o0);
    }
    while i < l.len()
        invariant
            i <= l@.len(),
            out@ == o0 + enc_header_conds(l@.take(i as int)),
        decreases l@.len() - i,
    {
        enc_str_into(l[i].name.as_str(), out);
        enc_str_into(l[i].pattern.as_str(), out);
        enc_bool_into(l[i].not, out);
        proof {
            let t = l@.take(i as int + 1);
            assert(t.drop_last() =~= l@.take(i as int));
            assert(t.last() == l@[i as int]);
            assert(out@ =~= o0 + enc_header_conds(t));
        }
        i += 1;
    }
    proof {
        assert(l@.take(l@.len() as int) =~= l@);
    }
}

fn enc_query_conds_into(l: &Vec<QueryCond>, out: &mut String)
    ensures
        final(out)@ == old(out)@ + enc_query_conds(l@),
{
    let ghost o0 = out@;
    let mut i: usize = 0;
    proof {
        assert(o0 + enc_query_conds(l@.take(0)) =~= o0);
    }
    while i < l.len()
        invariant
            i <= l@.len(),
            out@ == o0 + enc_query_conds(l@.take(i as int)),
        decreases l@.len() - i,
    {
        enc_str_into(l[i].key.as_str(), out);
        enc_str_into(l[i].pattern.as_str(), out);
        enc_bool_into(l[i].not, out);
        proof {
            let t = l@.take(i as int + 1);
            assert(t.drop_last() =~= l@.take(i as int));
            assert(t.last() == l@[i as int]);
            assert(out@ =~= o0 + enc_query_conds(t));
        }
        i += 1;
    }
    proof {
        assert(l@.take(l@.len() as int) =~= l@);
    }
}

fn enc_cookie_conds_into(l: &Vec<CookieCond>, out: &mut String)
    ensures
        final(out)@ == old(out)@ + enc_cookie_conds(l@),
{
    let ghost o0 = out@;
    let mut i: usize = 0;
    proof {
        assert(o0 + enc_cookie_conds(l@.take(0)) =~= o0);
    }
    while i < l.len()
        invariant
            i <= l@.len(),
            out@ == o0 + enc_cookie_conds(l@.take(i as int)),
        decreases l@.len() - i,
    {
        enc_str_into(l[i].name.as_str(), out);
        enc_str_into(l[i].pattern.as_str(), out);
        enc_bool_into(l[i].not, out);
        proof {
            let t = l@.take(i as int + 1);
            assert(t.drop_last() =~= l@.take(i as int));
            assert(t.last() == l@[i as int]);
            assert(out@ =~= o0 + enc_cookie_conds(t));
        }
        i += 1;
    }
    proof {
        assert(l@.take(l@.len() as int) =~= l@);
    }
}

#[verifier::rlimit(100)]
#[verifier::spinoff_prover]
fn enc_match_into(m: &RouterMatch, out: &mut String)
    ensures
        final(out)@ == old(out)@ + enc_match(*m),
{
    let ghost o0 = out@;
    out.append("wh(");
    enc_opt_str_into(&m.host, out);
    enc_opt_str_into(&m.path, out);
    enc_methods_into(&m.methods, out);
    out.append("(");
    enc_header_conds_into(&m.headers, out);
    out.append(")(");
    enc_query_conds_into(&m.queries, out);
    out.append(")(");
    enc_cookie_conds_into(&m.cookies, out);
    out.append(")");
    match &m.scheme {
        None => out.append("n"),
        Some(s) => {
            out.append("s");
            enc_scheme_into(s, out);
        },
    }
    out.append(")");
    proof {
        assert(out@ =~= o0 + enc_match(*m));
    }
}

#[verifier::rlimit(100)]
#[verifier::spinoff_prover]
fn enc_op_into(op: &RouterOp, out: &mut String)
    ensures
        final(out)@ == old(out)@ + enc_op(*op),
    decreases *op,
{
    let ghost o0 = out@;
    match op {
        RouterOp::Branch(b) => {
            out.append("b(");
            enc_cond_into(&b.cond, out);
            out.append("(");
            enc_ops_into(&b.then_ops, out);
            out.append(")(");
            enc_ops_into(&b.else_ops, out);
            out.append("))");
        },
        RouterOp::SetScheme(s) => {
            out.append("c(");
            enc_scheme_into(s, out);
            out.append(")");
        },
        RouterOp::SetHost(h) => {
            out.append("h(");
            enc_str_into(h.as_str(), out);
            out.append(")");
        },
        RouterOp::SetPort(p) => {
            out.append("o(");
            enc_num_into(*p as u64, out);
            out.append(")");
        },
        RouterOp::SetPath(p) => {
            out.append("a(");
            enc_str_into(p.as_str(), out);
            out.append(")");
        },
        RouterOp::HeaderSet(m) => {
            out.append("H(");
            enc_pairs_vec_into(m, out);
            out.append(")");
        },
        RouterOp::HeaderAdd(m) => {
            out.append("I(");
            enc_pairs_vec_into(m, out);
            out.append(")");
        },
        RouterOp::HeaderDelete(v) => {
            out.append("J(");
            enc_names_vec_into(v, out);
            out.append(")");
        },
        RouterOp::HeaderClear => {
            out.append("K");
        },
        RouterOp::QuerySet(m) => {
            out.append("Q(");
            enc_pairs_vec_into(m, out);
            out.append(")");
        },
        RouterOp::QueryAdd(m) => {
            out.append("W(");
            enc_pairs_vec_into(m, out);
            out.append(")");
        },
        RouterOp::QueryDelete(v) => {
            out.append("X(");
            enc_names_vec_into(v, out);
            out.append(")");
        },
        RouterOp::QueryClear => {
            out.append("Y");
        },
        RouterOp::InternalRewrite => {
            out.append("Z");
        },
        RouterOp::Redirect { status, location } => {
            out.append("r(");
            match status {
                RedirectCode::Moved301 => out.append("1"),
                RedirectCode::Found302 => out.append("2"),
                RedirectCode::Temporary307 => out.append("7"),
                RedirectCode::Permanent308 => out.append("8"),
            }
            enc_str_into(location.as_str(), out);
            out.append(")");
        },
        RouterOp::Respond { status, body, headers } => {
            out.append("p(");
            enc_num_into(*status as u64, out);
            enc_opt_str_into(body, out);
            enc_pairs_vec_into(headers, out);
            out.append(")");
        },
        RouterOp::Use(sref) => {
            out.append("u(");
            enc_service_ref_into(sref, out);
            out.append(")");
        },
    }
    proof {
        assert(out@ =~= o0 + enc_op(*op));
    }
}

fn enc_ops_into(l: &Vec<RouterOp>, out: &mut String)
    ensures
        final(out)@ == old(out)@ + enc_ops(l@),
    decreases l@,
{
    let ghost o0 = out@;
    let mut i: usize = 0;
    proof {
        assert(o0 + enc_ops(l@.take(0)) =~= o0);
    }
    while i < l.len()
        invariant
            i <= l@.len(),
            out@ == o0 + enc_ops(l@.take(i as int)),
        decreases l@.len() - i,
    {
        enc_op_into(&l[i], out);
        proof {
            let t = l@.take(i as int + 1);
            assert(t.drop_last() =~= l@.take(i as int));
            assert(t.last() == l@[i as int]);
            lemma_enc_ops_step(t);
            assert(out@ =~= o0 + enc_ops(t));
        }
        i += 1;
    }
    proof {
        assert(l@.take(l@.len() as int) =~= l@);
    }
}

#[verifier::rlimit(100)]
#[verifier::spinoff_prover]
fn enc_rule_into(r: &RouterRule, out: &mut String)
    ensures
        final(out)@ == old(out)@ + enc_rule(*r),
    decreases *r,
{
    let ghost o0 = out@;
    out.append("rl(");
    match &r.when {
        None => out.append("n"),
        Some(m) => {
            out.append("s");
            enc_match_into(m, out);
        },
    }
    out.append("(");
    enc_ops_into(&r.ops, out);
    out.append(")");
    match r.on_match {
        OnMatch::Stop => out.append("S"),
        OnMatch::Continue => out.append("C"),
        OnMatch::Restart => out.append("R"),
    }
    out.append(")");
    proof {
        assert(out@ =~= o0 + enc_rule(*r));
    }
}

fn enc_rules_into(l: &Vec<RouterRule>, out: &mut String)
    ensures
        final(out)@ == old(out)@ + enc_rules(l@),
    decreases l@,
{
    let ghost o0 = out@;
    let mut i: usize = 0;
    proof {
        assert(o0 + enc_rules(l@.take(0)) =~= o0);
    }
    while i < l.len()
        invariant
            i <= l@.len(),
            out@ == o0 + enc_rules(l@.take(i as int)),
        decreases l@.len() - i,
    {
        enc_rule_into(&l[i], out);
        proof {
            let t = l@.take(i as int + 1);
            assert(t.drop_last() =~= l@.take(i as int));
            assert(t.last() == l@[i as int]);
            lemma_enc_rules_step(t);
            assert(out@ =~= o0 + enc_rules(t));
        }
        i += 1;
    }
    proof {
        assert(l@.take(l@.len() as int) =~= l@);
    }
}

#[verifier::rlimit(100)]
#[verifier::spinoff_prover]
fn enc_router_into(rt: &RouterService, out: &mut String)
    ensures
        final(out)@ == old(out)@ + enc_router(*rt),
    decreases *rt,
{
    let ghost o0 = out@;
    out.append("rt(");
    enc_rules_into(&rt.rules, out);
    match &rt.next {
        None => out.append("n"),
        Some(b) => {
            out.append("s");
            enc_service_ref_into(b, out);
        },
    }
    match rt.max_steps {
        None => out.append("n"),
        Some(v) => {
            out.append("s");
            enc_num_into(v as u64, out);
        },
    }
    out.append(")");
    proof {
        assert(out@ =~= o0 + enc_router(*rt));
    }
}

/// Append the canonical encoding of a service.
pub fn enc_service_into(s: &Service, out: &mut String)
    ensures
        final(out)@ == old(out)@ + enc_service(*s),
    decreases *s,
{
    let ghost o0 = out@;
    match s {
        Service::Static(st) => {
            out.append("S(");
            enc_static_into(st, out);
            out.append(")");
            proof {
                lemma_chain(o0, "S("@, enc_static(*st));
                lemma_chain(o0, "S("@ + enc_static(*st), ")"@);
                assert(out@ == o0 + enc_service(*s));
            }
        },
        Service::Router(rt) => {
            out.append("R(");
            enc_router_into(rt, out);
            out.append(")");
            proof {
                lemma_chain(o0, "R("@, enc_router(*rt));
                lemma_chain(o0, "R("@ + enc_router(*rt), ")"@);
                assert(out@ == o0 + enc_service(*s));
            }
        },
        Service::Forward(fw) => {
            out.append("F(");
            enc_forward_into(fw, out);
            out.append(")");
            proof {
                lemma_chain(o0, "F("@, enc_forward(*fw));
                lemma_chain(o0, "F("@ + enc_forward(*fw), ")"@);
                assert(out@ == o0 + enc_service(*s));
            }
        },
    }
}

/// Append the canonical encoding of a service reference.
pub fn enc_service_ref_into(s: &ServiceRef, out: &mut String)
    ensures
        final(out)@ == old(out)@ + enc_service_ref(*s),
    decreases *s,
{
    let ghost o0 = out@;
    match s {
        ServiceRef::Inline(svc) => {
            out.append("I(");
            enc_service_into(svc, out);
            out.append(")");
        },
        ServiceRef::Import { import } => {
            out.append("M(");
            enc_str_into(import.as_str(), out);
            out.append(")");
        },
    }
    proof {
        assert(out@ =~= o0 + enc_service_ref(*s));
    }
}

/// One unfolding of `enc_conds` for a non-empty list.
proof fn lemma_enc_conds_step(l: Seq<CondNode>)
    requires
        l.len() > 0,
    ensures
        enc_conds(l) == enc_conds(l.drop_last()) + enc_cond(l.last()),
{
}

/// One unfolding of `enc_ops` for a non-empty list.
proof fn lemma_enc_ops_step(l: Seq<RouterOp>)
    requires
        l.len() > 0,
    ensures
        enc_ops(l) == enc_ops(l.drop_last()) + enc_op(l.last()),
{
}

/// One unfolding of `enc_rules` for a non-empty list.
proof fn lemma_enc_rules_step(l: Seq<RouterRule>)
    requires
        l.len() > 0,
    ensures
        enc_rules(l) == enc_rules(l.drop_last()) + enc_rule(l.last()),
{
}

/// What the digest makes of a text.  Relies on `sha2::Sha256` and its
/// hex formatting: the digest depends on the input characters alone,
/// and prints as sixty-four hex digits.
pub uninterp spec fn sha256_hex(data: Seq<char>) -> Seq<char>;

/// A lower-case hexadecimal digit.
pub open spec fn is_lower_hex(c: char) -> bool {
    ('0' <= c && c <= '9') || ('a' <= c && c <= 'f')
}

/// Relies on `sha2::Sha256::digest` and the hex formatting of its
/// output: a pure function of the input; thirty-two digest bytes
/// print as two lower-case hex digits each.
#[verifier::external_body]
fn sha256_hex_of(data: &str) -> (r: String)
    ensures
        r@ == sha256_hex(data@),
        r@.len() == 64,
        forall|i: int| 0 <= i < r@.len() ==> is_lower_hex(#[trigger] r@[i]),
{
    format!("{:x}", <sha2::Sha256 as sha2::Digest>::digest(data.as_bytes()))
}

/// The dedup identity of a parsed service: where it lives and what it
/// contains.
#[derive(Debug)]
pub struct ServiceKey {
    pub base_dir: String,
    pub hash: String,
}

impl PartialEq for ServiceKey {
    fn eq(&self, other: &Self) -> (r: bool) {
        str_eq(self.base_dir.as_str(), other.base_dir.as_str()) && str_eq(
            self.hash.as_str(),
            other.hash.as_str(),
        )
    }
}

impl vstd::std_specs::cmp::PartialEqSpecImpl for ServiceKey {
    open spec fn obeys_eq_spec() -> bool {
        true
    }

    open spec fn eq_spec(&self, other: &Self) -> bool {
        self.base_dir@ == other.base_dir@ && self.hash@ == other.hash@
    }
}

impl ServiceKey {
    /// Key equality is equality of both views.
    pub open spec fn key_eq(self, other: ServiceKey) -> bool {
        self.base_dir@ == other.base_dir@ && self.hash@ == other.hash@
    }
}

/// The content hash of a service definition: the digest of its
/// canonical encoding.  Structurally equal definitions get equal
/// hashes.
pub fn service_hash(svc: &Service) -> (r: String)
    ensures
        r@ == sha256_hex(enc_service(*svc)),
        r@.len() == 64,
        forall|i: int| 0 <= i < r@.len() ==> is_lower_hex(#[trigger] r@[i]),
{
    let mut out = String::new();
    enc_service_into(svc, &mut out);
    proof {
        assert(out@ =~= enc_service(*svc));
    }
    sha256_hex_of(out.as_str())
}

} // verus!
