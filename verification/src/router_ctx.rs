//! The per-request mutable state the rule interpreter works on, and
//! the parsers that build it from plain request data: query strings,
//! cookie headers, and the host header.

use vstd::prelude::*;

use crate::httptypes::HttpMethod;
use crate::kvlist::{mm_add_s, mv_get, sv_get, sv_get_last, sv_set_s, MultiMap, StrMap};
use crate::pattern_types::{trim_model, trim_str};
use crate::strutil::{
    all_digits, ascii_lower, dec_str, dec_val, find_char, find_first, is_prefix, lower_seq,
    parse_u16, split_char, split_on, starts_with, str_eq, u16_dec,
};

verus! {

/// What percent-decoding makes of a string.  Relies on
/// `percent_encoding::percent_decode_str`: the result is a function of
/// the input characters alone; a string with no percent sign decodes
/// to itself.
pub uninterp spec fn percent_decoded(s: Seq<char>) -> Seq<char>;

/// Relies on `percent_encoding::percent_decode_str`: every `%XX` hex
/// triple becomes the byte `XX`; the result is read back as UTF-8,
/// lossily.
#[verifier::external_body]
pub fn percent_decode(s: &str) -> (r: String)
    ensures
        r@ == percent_decoded(s@),
{
    percent_encoding::percent_decode_str(s).decode_utf8_lossy().to_string()
}

/// Per-request mutable state: what the rules match on and rewrite.
#[derive(Debug, Clone)]
pub struct RouterCtx {
    pub method: Option<HttpMethod>,
    pub scheme: Option<String>,
    pub host: String,
    pub port: Option<u16>,
    pub path: String,
    pub query: MultiMap,
    pub headers: MultiMap,
    pub cookies: StrMap,
    pub captures: StrMap,
}

/// Mathematical image of a `RouterCtx`.
pub struct CtxModel {
    pub method: Option<HttpMethod>,
    pub scheme: Option<Seq<char>>,
    pub host: Seq<char>,
    pub port: Option<u16>,
    pub path: Seq<char>,
    pub query: Seq<(Seq<char>, Seq<Seq<char>>)>,
    pub headers: Seq<(Seq<char>, Seq<Seq<char>>)>,
    pub cookies: Seq<(Seq<char>, Seq<char>)>,
    pub captures: Seq<(Seq<char>, Seq<char>)>,
}

impl RouterCtx {
    pub open spec fn model(&self) -> CtxModel {
        CtxModel {
            method: self.method,
            scheme: match self.scheme {
                Some(ref s) => Some(s@),
                None => None,
            },
            host: self.host@,
            port: self.port,
            path: self.path@,
            query: self.query.model(),
            headers: self.headers.model(),
            cookies: self.cookies.model(),
            captures: self.captures.model(),
        }
    }
}

/// The value a variable name denotes against a request context:
/// the request line parts by their fixed names, `header.<name>`
/// (case-folded, first value), `query.<key>`, `cookie.<name>`, and
/// otherwise the named capture.
pub open spec fn value_model(m: CtxModel, var: Seq<char>) -> Option<Seq<char>> {
    if var == "method"@ {
        match m.method {
            Some(x) => Some(x.spec_name()),
            None => None,
        }
    } else if var == "scheme"@ {
        m.scheme
    } else if var == "host"@ {
        Some(m.host)
    } else if var == "port"@ {
        match m.port {
            Some(p) => Some(dec_str(p as nat)),
            None => None,
        }
    } else if var == "path"@ {
        Some(m.path)
    } else if is_prefix("header."@, var) {
        let k = lower_seq(var.skip("header."@.len() as int));
        match mv_get(m.headers, k) {
            Some(vs) => if vs.len() > 0 {
                Some(vs.first())
            } else {
                None
            },
            None => None,
        }
    } else if is_prefix("query."@, var) {
        let k = var.skip("query."@.len() as int);
        match mv_get(m.query, k) {
            Some(vs) => if vs.len() > 0 {
                Some(vs.first())
            } else {
                None
            },
            None => None,
        }
    } else if is_prefix("cookie."@, var) {
        sv_get(m.cookies, var.skip("cookie."@.len() as int))
    } else {
        sv_get(m.captures, var)
    }
}

/// Resolve a variable name against the context.
pub fn value_of(ctx: &RouterCtx, var: &str) -> (r: Option<String>)
    ensures
        match r {
            Some(v) => value_model(ctx.model(), var@) == Some(v@),
            None => value_model(ctx.model(), var@) is None,
        },
{
    if str_eq(var, "method") {
        return match &ctx.method {
            Some(m) => Some(m.name().to_owned()),
            None => None,
        };
    }
    if str_eq(var, "scheme") {
        return match &ctx.scheme {
            Some(s) => Some(s.clone()),
            None => None,
        };
    }
    if str_eq(var, "host") {
        return Some(ctx.host.clone());
    }
    if str_eq(var, "port") {
        return match ctx.port {
            Some(p) => Some(u16_dec(p)),
            None => None,
        };
    }
    if str_eq(var, "path") {
        return Some(ctx.path.clone());
    }
    let n = var.unicode_len();
    if starts_with(var, "header.") {
        proof {
            reveal_strlit("header.");
        }
        let key = ascii_lower(var.substring_char(7, n));
        return match ctx.headers.get_first(key.as_str()) {
            Some(v) => Some(v.clone()),
            None => None,
        };
    }
    if starts_with(var, "query.") {
        proof {
            reveal_strlit("query.");
        }
        let key = var.substring_char(6, n);
        return match ctx.query.get_first(key) {
            Some(v) => Some(v.clone()),
            None => None,
        };
    }
    if starts_with(var, "cookie.") {
        proof {
            reveal_strlit("cookie.");
        }
        let key = var.substring_char(7, n);
        return match ctx.cookies.get(key) {
            Some(v) => Some(v.clone()),
            None => None,
        };
    }
    match ctx.captures.get(var) {
        Some(v) => Some(v.clone()),
        None => None,
    }
}

/// Key and value of one `k=v` query component; everything before the
/// first `=` is the key, a missing `=` leaves the value empty.
pub open spec fn query_pair(part: Seq<char>) -> (Seq<char>, Seq<char>) {
    match find_first(part, '=') {
        None => (part, Seq::empty()),
        Some(i) => (part.take(i), part.skip(i + 1)),
    }
}

/// The values the query string gives to key `k`, in order; empty
/// components contribute nothing.
pub open spec fn query_vals(parts: Seq<Seq<char>>, k: Seq<char>) -> Seq<Seq<char>>
    decreases parts.len(),
{
    if parts.len() == 0 {
        Seq::empty()
    } else {
        let rest = query_vals(parts.drop_last(), k);
        let part = parts.last();
        if part.len() == 0 {
            rest
        } else if query_pair(part).0 == k {
            rest.push(query_pair(part).1)
        } else {
            rest
        }
    }
}

/// The query map a part list builds, adding each valid part in order.
pub open spec fn parse_query_s_parts(
    parts: Seq<Seq<char>>,
    acc: Seq<(Seq<char>, Seq<Seq<char>>)>,
) -> Seq<(Seq<char>, Seq<Seq<char>>)>
    decreases parts.len(),
{
    if parts.len() == 0 {
        acc
    } else {
        let part = parts.first();
        let acc2 = if part.len() == 0 {
            acc
        } else {
            mm_add_s(acc, query_pair(part).0, query_pair(part).1)
        };
        parse_query_s_parts(parts.drop_first(), acc2)
    }
}

/// The query map of a raw query string.
pub open spec fn parse_query_s(q: Seq<char>) -> Seq<(Seq<char>, Seq<Seq<char>>)> {
    parse_query_s_parts(split_on(q, '&'), Seq::empty())
}

/// Parse a raw query string into its multi-valued key map: every key
/// holds exactly the values its `k=v` components give it, in order.
pub fn parse_query(q: &str) -> (r: MultiMap)
    ensures
        r.model() == parse_query_s(q@),
        forall|k: Seq<char>| #[trigger]
            r.spec_get(k) == if query_vals(split_on(q@, '&'), k).len() == 0 {
                None::<Seq<Seq<char>>>
            } else {
                Some(query_vals(split_on(q@, '&'), k))
            },
{
    let parts = split_char(q, '&');
    let mut out = MultiMap::new();
    let mut i: usize = 0;
    proof {
        assert(parts.deep_view().take(0) =~= Seq::<Seq<char>>::empty());
        assert(parts.deep_view().skip(0) =~= parts.deep_view());
        assert(out.model() =~= Seq::<(Seq<char>, Seq<Seq<char>>)>::empty());
    }
    while i < parts.len()
        invariant
            i <= parts@.len(),
            parts.deep_view() == split_on(q@, '&'),
            parts.deep_view().len() == parts@.len(),
            parse_query_s_parts(parts.deep_view().skip(i as int), out.model())
                == parse_query_s(q@),
            forall|k: Seq<char>| #[trigger]
                mv_get(out.model(), k) == if query_vals(
                    parts.deep_view().take(i as int),
                    k,
                ).len() == 0 {
                    None::<Seq<Seq<char>>>
                } else {
                    Some(query_vals(parts.deep_view().take(i as int), k))
                },
        decreases parts@.len() - i,
    {
        let part = &parts[i];
        let pn = part.unicode_len();
        let ghost gpart = parts.deep_view()[i as int];
        proof {
            let t = parts.deep_view().take(i as int + 1);
            assert(t.drop_last() =~= parts.deep_view().take(i as int));
            assert(t.last() == gpart);
            let remp = parts.deep_view().skip(i as int);
            assert(remp.first() == gpart);
            assert(remp.drop_first() =~= parts.deep_view().skip(i as int + 1));
        }
        if pn > 0 {
            let eq_pos = find_char(part.as_str(), '=');
            let key: String;
            let val: String;
            match eq_pos {
                Some(e) => {
                    key = part.substring_char(0, e).to_owned();
                    val = part.substring_char(e + 1, pn).to_owned();
                    proof {
                        crate::strutil::lemma_find_first(gpart, '=');
                        match find_first(gpart, '=') {
                            Some(fi) => {
                                assert(gpart[fi] == '=');
                                if fi < e as int {
                                    assert(gpart[fi] != '=');
                                }
                                if fi > e as int {
                                    assert(gpart[e as int] != '=');
                                }
                                assert(fi == e as int);
                            },
                            None => {
                                assert(gpart[e as int] == '=');
                            },
                        }
                        assert(query_pair(gpart).0 == key@);
                        assert(query_pair(gpart).1 == val@);
                    }
                },
                None => {
                    key = part.clone();
                    val = String::new();
                    proof {
                        crate::strutil::lemma_find_first(gpart, '=');
                        match find_first(gpart, '=') {
                            Some(fi) => {
                                assert(gpart[fi] != '=');
                            },
                            None => {},
                        }
                        assert(query_pair(gpart).0 == key@);
                        assert(query_pair(gpart).1 == val@);
                    }
                },
            }
            proof {
                assert(gpart == parts@[i as int]@);
                assert(gpart.len() > 0);
            }
            let ghost mm0 = out.model();
            out.add(key, val);
            proof {
                let prevv = parts.deep_view().take(i as int);
                let noww = parts.deep_view().take(i as int + 1);
                assert(noww.len() > 0);
                assert(noww.last() == gpart);
                assert(noww.drop_last() == prevv);
                assert(query_pair(gpart).0 == key@);
                assert(query_pair(gpart).1 == val@);
                assert(query_vals(noww, key@) == query_vals(prevv, key@).push(val@));
                assert forall|k: Seq<char>| #[trigger]
                    mv_get(out.model(), k) == (if query_vals(noww, k).len() == 0 {
                        None::<Seq<Seq<char>>>
                    } else {
                        Some(query_vals(noww, k))
                    }) by {
                    assert(mv_get(out.model(), k) == (if k == key@ {
                        match mv_get(mm0, k) {
                            Some(vs) => Some(vs.push(val@)),
                            None => Some(seq![val@]),
                        }
                    } else {
                        mv_get(mm0, k)
                    }));
                    assert(mv_get(mm0, k) == (if query_vals(prevv, k).len() == 0 {
                        None::<Seq<Seq<char>>>
                    } else {
                        Some(query_vals(prevv, k))
                    }));
                    if k == key@ {
                        if query_vals(prevv, k).len() == 0 {
                            assert(query_vals(noww, k) =~= seq![val@]);
                        }
                    } else {
                        assert(query_vals(noww, k) == query_vals(prevv, k));
                    }
                }
            }
        } else {
            proof {
                assert(gpart == parts@[i as int]@);
                assert(gpart.len() == 0);
                let prevv = parts.deep_view().take(i as int);
                let noww = parts.deep_view().take(i as int + 1);
                assert forall|k: Seq<char>| #[trigger]
                    mv_get(out.model(), k) == (if query_vals(noww, k).len() == 0 {
                        None::<Seq<Seq<char>>>
                    } else {
                        Some(query_vals(noww, k))
                    }) by {
                    assert(query_vals(noww, k) == query_vals(prevv, k));
                }
            }
        }
        i += 1;
    }
    proof {
        assert(parts.deep_view().take(parts.deep_view().len() as int) =~= parts.deep_view());
    }
    out
}

/// Key and decoded value of one cookie component, if it is well formed.
pub open spec fn cookie_pair(part: Seq<char>) -> Option<(Seq<char>, Seq<char>)> {
    let t = trim_model(part);
    if t.len() == 0 {
        None
    } else {
        match find_first(t, '=') {
            None => None,
            Some(i) => Some(
                (trim_model(t.take(i)), percent_decoded(trim_model(t.skip(i + 1)))),
            ),
        }
    }
}

/// The cookie pairs one header value contributes, in order.
pub open spec fn cookie_pairs_parts(parts: Seq<Seq<char>>) -> Seq<(Seq<char>, Seq<char>)>
    decreases parts.len(),
{
    if parts.len() == 0 {
        Seq::empty()
    } else {
        let rest = cookie_pairs_parts(parts.drop_last());
        match cookie_pair(parts.last()) {
            Some(p) => rest.push(p),
            None => rest,
        }
    }
}

/// The cookie pairs of all cookie header values, in order.
pub open spec fn cookie_pairs_all(raws: Seq<Seq<char>>) -> Seq<(Seq<char>, Seq<char>)>
    decreases raws.len(),
{
    if raws.len() == 0 {
        Seq::empty()
    } else {
        cookie_pairs_all(raws.drop_last()) + cookie_pairs_parts(
            split_on(raws.last(), ';'),
        )
    }
}

/// `sv_get_last` over a concatenation: the right part answers first.
proof fn lemma_sv_get_last_concat(
    a: Seq<(Seq<char>, Seq<char>)>,
    b: Seq<(Seq<char>, Seq<char>)>,
    k: Seq<char>,
)
    ensures
        sv_get_last(a + b, k) == match sv_get_last(b, k) {
            Some(v) => Some(v),
            None => sv_get_last(a, k),
        },
    decreases b.len(),
{
    if b.len() == 0 {
        assert(a + b =~= a);
    } else {
        assert((a + b).last() == b.last());
        assert((a + b).drop_last() =~= a + b.drop_last());
        lemma_sv_get_last_concat(a, b.drop_last(), k);
    }
}

/// The cookie map a part list builds over an accumulator.
pub open spec fn parse_cookies_s_parts(
    parts: Seq<Seq<char>>,
    acc: Seq<(Seq<char>, Seq<char>)>,
) -> Seq<(Seq<char>, Seq<char>)>
    decreases parts.len(),
{
    if parts.len() == 0 {
        acc
    } else {
        let acc2 = match cookie_pair(parts.first()) {
            Some(p) => sv_set_s(acc, p.0, p.1),
            None => acc,
        };
        parse_cookies_s_parts(parts.drop_first(), acc2)
    }
}

/// The cookie map of a list of raw header values.
pub open spec fn parse_cookies_s_raws(
    raws: Seq<Seq<char>>,
    acc: Seq<(Seq<char>, Seq<char>)>,
) -> Seq<(Seq<char>, Seq<char>)>
    decreases raws.len(),
{
    if raws.len() == 0 {
        acc
    } else {
        parse_cookies_s_raws(
            raws.drop_first(),
            parse_cookies_s_parts(split_on(raws.first(), ';'), acc),
        )
    }
}

pub open spec fn parse_cookies_s(raws: Seq<Seq<char>>) -> Seq<(Seq<char>, Seq<char>)> {
    parse_cookies_s_raws(raws, Seq::empty())
}

/// Parse the cookie header values into a name-to-value map: each name
/// holds the last well-formed binding any header value gives it.
pub fn parse_cookies(raws: &Vec<String>) -> (r: StrMap)
    ensures
        r.model() == parse_cookies_s(raws.deep_view()),
        forall|k: Seq<char>| #[trigger]
            r.spec_get(k) == sv_get_last(cookie_pairs_all(raws.deep_view()), k),
{
    let mut out = StrMap::new();
    let mut ri: usize = 0;
    proof {
        assert(raws.deep_view().take(0) =~= Seq::<Seq<char>>::empty());
        assert(raws.deep_view().skip(0) =~= raws.deep_view());
        assert(out.model() =~= Seq::<(Seq<char>, Seq<char>)>::empty());
    }
    while ri < raws.len()
        invariant
            ri <= raws@.len(),
            raws.deep_view().len() == raws@.len(),
            parse_cookies_s_raws(raws.deep_view().skip(ri as int), out.model())
                == parse_cookies_s(raws.deep_view()),
            forall|k: Seq<char>| #[trigger]
                sv_get(out.model(), k) == sv_get_last(
                    cookie_pairs_all(raws.deep_view().take(ri as int)),
                    k,
                ),
        decreases raws@.len() - ri,
    {
        let raw = &raws[ri];
        let parts = split_char(raw.as_str(), ';');
        let ghost graw = raws.deep_view()[ri as int];
        let ghost base = cookie_pairs_all(raws.deep_view().take(ri as int));
        let ghost out_entry = out.model();
        let mut pi: usize = 0;
        proof {
            let remr = raws.deep_view().skip(ri as int);
            assert(remr.first() == graw);
            assert(remr.drop_first() =~= raws.deep_view().skip(ri as int + 1));
            assert(parts.deep_view() == split_on(graw, ';'));
            assert(parts.deep_view().skip(0) =~= parts.deep_view());
            assert(parts.deep_view().take(0) =~= Seq::<Seq<char>>::empty());
            assert(base + cookie_pairs_parts(parts.deep_view().take(0)) =~= base);
            assert forall|k: Seq<char>| #[trigger]
                sv_get(out.model(), k) == sv_get_last(
                    base + cookie_pairs_parts(parts.deep_view().take(0)),
                    k,
                ) by {
                lemma_sv_get_last_concat(base, cookie_pairs_parts(parts.deep_view().take(0)), k);
            }
        }
        while pi < parts.len()
            invariant
                pi <= parts@.len(),
                parts.deep_view().len() == parts@.len(),
                parse_cookies_s_parts(parts.deep_view().skip(pi as int), out.model())
                    == parse_cookies_s_parts(parts.deep_view(), out_entry),
                forall|k: Seq<char>| #[trigger]
                    sv_get(out.model(), k) == sv_get_last(
                        base + cookie_pairs_parts(parts.deep_view().take(pi as int)),
                        k,
                    ),
            decreases parts@.len() - pi,
        {
            let ghost gpart = parts.deep_view()[pi as int];
            proof {
                let t = parts.deep_view().take(pi as int + 1);
                assert(t.drop_last() =~= parts.deep_view().take(pi as int));
                assert(t.last() == gpart);
                let remp = parts.deep_view().skip(pi as int);
                assert(remp.first() == gpart);
                assert(remp.drop_first() =~= parts.deep_view().skip(pi as int + 1));
            }
            let trimmed = trim_str(parts[pi].as_str());
            let tn = trimmed.unicode_len();
            if tn > 0 {
                let eq_pos = find_char(trimmed, '=');
                match eq_pos {
                    Some(e) => {
                        let key = trim_str(trimmed.substring_char(0, e)).to_owned();
                        let val = percent_decode(trim_str(trimmed.substring_char(e + 1, tn)));
                        proof {
                            crate::strutil::lemma_find_first(trim_model(gpart), '=');
                            match find_first(trim_model(gpart), '=') {
                                Some(fi) => {
                                    assert(trim_model(gpart)[fi] == '=');
                                    if fi < e as int {
                                        assert(trim_model(gpart)[fi] != '=');
                                    }
                                    if fi > e as int {
                                        assert(trim_model(gpart)[e as int] != '=');
                                    }
                                    assert(fi == e as int);
                                },
                                None => {
                                    assert(trim_model(gpart)[e as int] == '=');
                                },
                            }
                            assert(cookie_pair(gpart) == Some((key@, val@)));
                        }
                        let ghost sm0 = out.model();
                        out.set(key, val);
                        proof {
                            let prev = base + cookie_pairs_parts(
                                parts.deep_view().take(pi as int),
                            );
                            let t = parts.deep_view().take(pi as int + 1);
                            let now = base + cookie_pairs_parts(t);
                            assert(t.len() > 0);
                            assert(t.last() == gpart);
                            assert(cookie_pair(t.last()) == Some((key@, val@)));
                            assert(cookie_pairs_parts(t) == cookie_pairs_parts(
                                t.drop_last(),
                            ).push((key@, val@)));
                            assert(t.drop_last() =~= parts.deep_view().take(pi as int));
                            assert(cookie_pairs_parts(t.drop_last()) == cookie_pairs_parts(
                                parts.deep_view().take(pi as int),
                            ));
                            assert(now =~= prev.push((key@, val@)));
                            assert forall|k: Seq<char>| #[trigger]
                                sv_get(out.model(), k) == sv_get_last(now, k) by {
                                assert(now.len() > 0);
                                assert(now.last() == (key@, val@));
                                assert(now.drop_last() =~= prev);
                                assert(sv_get(out.model(), k) == (if k == key@ {
                                    Some(val@)
                                } else {
                                    sv_get(sm0, k)
                                }));
                                assert(sv_get(sm0, k) == sv_get_last(prev, k));
                            }
                        }
                    },
                    None => {
                        proof {
                            crate::strutil::lemma_find_first(trim_model(gpart), '=');
                            match find_first(trim_model(gpart), '=') {
                                Some(fi) => {
                                    assert(trim_model(gpart)[fi] != '=');
                                },
                                None => {},
                            }
                            assert(cookie_pair(gpart) is None);
                            assert(cookie_pairs_parts(parts.deep_view().take(pi as int + 1))
                                =~= cookie_pairs_parts(parts.deep_view().take(pi as int)));
                        }
                    },
                }
            } else {
                proof {
                    assert(cookie_pair(gpart) is None);
                    assert(cookie_pairs_parts(parts.deep_view().take(pi as int + 1))
                        =~= cookie_pairs_parts(parts.deep_view().take(pi as int)));
                }
            }
            pi += 1;
        }
        proof {
            assert(parts.deep_view().take(parts.deep_view().len() as int) =~= parts.deep_view());
            assert(parts.deep_view().skip(parts.deep_view().len() as int).len() == 0);
            let t2 = raws.deep_view().take(ri as int + 1);
            assert(t2.drop_last() =~= raws.deep_view().take(ri as int));
            assert(t2.last() == graw);
            assert(cookie_pairs_all(t2) =~= base + cookie_pairs_parts(split_on(graw, ';')));
            assert(out.model() == parse_cookies_s_parts(parts.deep_view(), out_entry));
        }
        ri += 1;
    }
    proof {
        assert(raws.deep_view().take(raws.deep_view().len() as int) =~= raws.deep_view());
    }
    out
}

/// The host and port a host header value denotes: everything after
/// the first colon is the port when it is a valid decimal port
/// number, otherwise the whole value stands as the host.
pub open spec fn host_port_model(hs: Seq<char>) -> (Seq<char>, Option<u16>) {
    match find_first(hs, ':') {
        Some(i) => {
            let ps = hs.skip(i + 1);
            if ps.len() > 0 && all_digits(ps) && dec_val(ps) <= u16::MAX {
                (hs.take(i), Some((dec_val(ps) as u16)))
            } else {
                (hs, None::<u16>)
            }
        },
        None => (hs, None::<u16>),
    }
}

/// Split a host header value into host and port.
pub fn parse_host_header(hs: &str) -> (r: (String, Option<u16>))
    ensures
        r.0@ == host_port_model(hs@).0,
        r.1 == host_port_model(hs@).1,
{
    let n = hs.unicode_len();
    proof {
        crate::strutil::lemma_find_first(hs@, ':');
    }
    match find_char(hs, ':') {
        Some(i) => {
            proof {
                match find_first(hs@, ':') {
                    Some(fi) => {
                        if fi < i as int {
                            assert(hs@[fi] != ':');
                        }
                        if fi > i as int {
                            assert(hs@[i as int] != ':');
                        }
                        assert(fi == i as int);
                    },
                    None => {
                        assert(hs@[i as int] == ':');
                    },
                }
            }
            let ps = hs.substring_char(i + 1, n);
            match parse_u16(ps) {
                Some(p) => (hs.substring_char(0, i).to_owned(), Some(p)),
                None => (hs.to_owned(), None),
            }
        },
        None => {
            proof {
                match find_first(hs@, ':') {
                    Some(fi) => {
                        assert(hs@[fi] != ':');
                    },
                    None => {},
                }
            }
            (hs.to_owned(), None)
        },
    }
}

} // verus!
