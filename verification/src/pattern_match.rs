//! Compiled patterns: the trusted boundary to the regex engine.
//!
//! A `CompiledPattern` couples the regex source produced by
//! `build_regex_source` with the engine's compiled form.  What the
//! engine decides is named, never restated: `regex_is_match` and
//! `regex_capture` are functions of the source text and the subject
//! alone, and every contract speaks through them.

use vstd::prelude::*;

use crate::pattern_compile::{build_model, build_regex_source};
use crate::pattern_types::{CtxKind, PatErr, PatternError};
use crate::strutil::str_eq;

verus! {

#[verifier::external_type_specification]
#[verifier::external_body]
pub struct ExRegex(regex::Regex);

/// Whether the regex engine accepts `src` as a pattern.
pub uninterp spec fn regex_valid(src: Seq<char>) -> bool;

/// Whether the pattern `src` matches the whole subject `s` (all our
/// sources are anchored).
pub uninterp spec fn regex_is_match(src: Seq<char>, s: Seq<char>) -> bool;

/// The text captured by named group `name` of pattern `src` on `s`.
pub uninterp spec fn regex_capture(src: Seq<char>, name: Seq<char>, s: Seq<char>) -> Option<
    Seq<char>,
>;

/// An anchored matcher for one pattern: the engine's compiled regex,
/// the source it was built from, and the capture names in order.
#[derive(Debug)]
pub struct CompiledPattern {
    re: regex::Regex,
    source: String,
    names: Vec<String>,
    /// The pattern text as written in the configuration.
    pub raw: String,
}

/// Relies on `regex::Regex::clone`: the clone matches exactly as the
/// original, so it still belongs to the same source text.
#[verifier::external_body]
fn clone_regex(re: &regex::Regex) -> regex::Regex {
    re.clone()
}

/// Element-wise copy of a string vector.
fn clone_string_vec(v: &Vec<String>) -> (r: Vec<String>)
    ensures
        r.deep_view() == v.deep_view(),
{
    let mut out: Vec<String> = Vec::new();
    let mut i: usize = 0;
    proof {
        assert(out.deep_view() =~= v.deep_view().take(0));
    }
    while i < v.len()
        invariant
            i <= v@.len(),
            out@.len() == i,
            out.deep_view() == v.deep_view().take(i as int),
        decreases v@.len() - i,
    {
        let ghost vec0 = out@;
        let ghost dv0 = out.deep_view();
        out.push(v[i].clone());
        proof {
            assert forall|j: int| 0 <= j < i as int + 1 implies out.deep_view()[j]
                == v.deep_view().take(i as int + 1)[j] by {
                if j < i as int {
                    assert(out@[j] == vec0[j]);
                    assert(out.deep_view()[j] == dv0[j]);
                } else {
                    assert(out@[j] == v@[i as int]);
                }
            }
            assert(out.deep_view() =~= v.deep_view().take(i as int + 1));
        }
        i += 1;
    }
    proof {
        assert(v.deep_view().take(v@.len() as int) =~= v.deep_view());
    }
    out
}

impl Clone for CompiledPattern {
    /// A copy that matches exactly as the original.
    fn clone(&self) -> (r: Self)
        ensures
            r.src() == self.src(),
            r.names_view() == self.names_view(),
            r.raw_view() == self.raw_view(),
    {
        CompiledPattern {
            re: clone_regex(&self.re),
            source: self.source.clone(),
            names: clone_string_vec(&self.names),
            raw: self.raw.clone(),
        }
    }
}

impl CompiledPattern {
    /// The regex source this matcher was compiled from.
    pub closed spec fn src(&self) -> Seq<char> {
        self.source@
    }

    /// The capture names, in order of appearance.
    pub closed spec fn names_view(&self) -> Seq<Seq<char>> {
        self.names.deep_view()
    }

    /// The original pattern text.
    pub closed spec fn raw_view(&self) -> Seq<char> {
        self.raw@
    }

    /// Relies on `regex::Regex::new`: it returns `Ok` exactly for
    /// sources the engine accepts, and the compiled value matches per
    /// that source.  This is the only constructor, so `re` always
    /// belongs to `source`.
    #[verifier::external_body]
    fn make(source: String, names: Vec<String>, raw: String) -> (r: Result<CompiledPattern, String>)
        ensures
            r is Ok <==> regex_valid(source@),
            r matches Ok(p) ==> p.src() == source@ && p.names_view() == names.deep_view()
                && p.raw_view() == raw@,
    {
        match regex::Regex::new(&source) {
            Ok(re) => Ok(CompiledPattern { re, source, names, raw }),
            Err(e) => Err(e.to_string()),
        }
    }

    /// Relies on `regex::Regex::is_match`, applied to the regex built
    /// from `src()`.
    #[verifier::external_body]
    pub fn is_match(&self, s: &str) -> (r: bool)
        ensures
            r == regex_is_match(self.src(), s@),
    {
        self.re.is_match(s)
    }

    /// Relies on `regex::Regex::captures` and `Captures::name`:
    /// captures exist exactly when the regex matches, and each named
    /// group holds the text it captured, a function of pattern and
    /// subject alone.  The result is aligned with `names_view()`.
    #[verifier::external_body]
    fn captures_aligned(&self, s: &str) -> (r: Option<Vec<Option<String>>>)
        ensures
            r is Some <==> regex_is_match(self.src(), s@),
            r matches Some(v) ==> v.deep_view().len() == self.names_view().len() && forall|i: int|
                0 <= i < v.deep_view().len() ==> v.deep_view()[i] == regex_capture(
                    self.src(),
                    self.names_view()[i],
                    s@,
                ),
    {
        match self.re.captures(s) {
            None => None,
            Some(caps) => {
                let mut out: Vec<Option<String>> = Vec::new();
                for n in self.names.iter() {
                    out.push(caps.name(n).map(|m| m.as_str().to_string()));
                }
                Some(out)
            },
        }
    }

    /// The named captures of a full match, in order of appearance;
    /// `None` exactly when the pattern does not match.  Unnamed
    /// placeholders never appear here.
    pub fn captures_map(&self, s: &str) -> (r: Option<CaptureMap>)
        ensures
            r is Some <==> regex_is_match(self.src(), s@),
            r matches Some(m) ==> m.pairs.deep_view() == captures_model(
                self.src(),
                self.names_view(),
                s@,
            ),
    {
        let aligned = match self.captures_aligned(s) {
            None => {
                return None;
            },
            Some(v) => v,
        };
        let mut pairs: Vec<(String, String)> = Vec::new();
        let n = self.names.len();
        proof {
            assert(aligned.deep_view().len() == self.names_view().len());
            assert(self.names_view().len() == self.names@.len());
            assert(pairs.deep_view() =~= captures_model(
                self.src(),
                self.names_view().take(0),
                s@,
            ));
        }
        let mut i: usize = 0;
        while i < n
            invariant
                i <= n,
                n == self.names@.len(),
                aligned.deep_view().len() == self.names_view().len(),
                forall|j: int| 0 <= j < n ==> aligned.deep_view()[j] == regex_capture(
                    self.src(),
                    self.names_view()[j],
                    s@,
                ),
                pairs.deep_view() == captures_model(self.src(), self.names_view().take(i as int), s@),
            decreases n - i,
        {
            let ghost pv0 = pairs.deep_view();
            match &aligned[i] {
                Some(v) => {
                    pairs.push((self.names[i].clone(), v.clone()));
                    proof {
                        assert(pairs.deep_view() =~= pv0 + seq![
                            (self.names_view()[i as int], v@),
                        ]);
                    }
                },
                None => {},
            }
            proof {
                let t = self.names_view().take(i as int + 1);
                assert(t.drop_last() =~= self.names_view().take(i as int));
                assert(t.last() == self.names_view()[i as int]);
                assert(aligned.deep_view()[i as int] == regex_capture(
                    self.src(),
                    self.names_view()[i as int],
                    s@,
                ));
                match regex_capture(self.src(), self.names_view()[i as int], s@) {
                    Some(_) => {},
                    None => {
                        assert(pairs.deep_view() =~= pv0);
                    },
                }
            }
            i += 1;
        }
        proof {
            assert(self.names_view().take(n as int) =~= self.names_view());
        }
        Some(CaptureMap { pairs })
    }
}

/// The name-to-text pairs a match produces: every name of the pattern
/// that captured, with its text, in order of appearance.
pub open spec fn captures_model(src: Seq<char>, names: Seq<Seq<char>>, s: Seq<char>) -> Seq<
    (Seq<char>, Seq<char>),
>
    decreases names.len(),
{
    if names.len() == 0 {
        Seq::empty()
    } else {
        let rest = captures_model(src, names.drop_last(), s);
        match regex_capture(src, names.last(), s) {
            Some(v) => rest + seq![(names.last(), v)],
            None => rest,
        }
    }
}

/// Named captures of one match, looked up by name.
#[derive(Debug, Clone)]
pub struct CaptureMap {
    pub pairs: Vec<(String, String)>,
}

/// First value bound to `k` in an association list.
pub open spec fn assoc_get(pairs: Seq<(Seq<char>, Seq<char>)>, k: Seq<char>) -> Option<Seq<char>>
    decreases pairs.len(),
{
    if pairs.len() == 0 {
        None
    } else if pairs.first().0 == k {
        Some(pairs.first().1)
    } else {
        assoc_get(pairs.drop_first(), k)
    }
}

impl CaptureMap {
    /// The text captured under `name`, if any.
    pub fn get(&self, name: &str) -> (r: Option<&String>)
        ensures
            match r {
                Some(v) => assoc_get(self.pairs.deep_view(), name@) == Some(v@),
                None => assoc_get(self.pairs.deep_view(), name@) is None,
            },
    {
        let mut i: usize = 0;
        proof {
            assert(self.pairs.deep_view().skip(0) =~= self.pairs.deep_view());
        }
        while i < self.pairs.len()
            invariant
                i <= self.pairs@.len(),
                assoc_get(self.pairs.deep_view(), name@) == assoc_get(
                    self.pairs.deep_view().skip(i as int),
                    name@,
                ),
            decreases self.pairs@.len() - i,
        {
            let ghost rest = self.pairs.deep_view().skip(i as int);
            proof {
                assert(rest.first() == self.pairs.deep_view()[i as int]);
                assert(rest.drop_first() =~= self.pairs.deep_view().skip(i as int + 1));
            }
            if str_eq(self.pairs[i].0.as_str(), name) {
                return Some(&self.pairs[i].1);
            }
            i += 1;
        }
        proof {
            assert(self.pairs.deep_view().skip(i as int).len() == 0);
        }
        None
    }

    /// Whether the match produced no named captures.
    pub fn is_empty(&self) -> (r: bool)
        ensures
            r == (self.pairs.deep_view().len() == 0),
    {
        self.pairs.len() == 0
    }

    /// How many named captures the match produced.
    pub fn len(&self) -> (r: usize)
        ensures
            r == self.pairs.deep_view().len(),
    {
        self.pairs.len()
    }
}

/// Compile a pattern for a context: `Ok` exactly when the grammar
/// accepts it and the regex engine accepts the assembled source.
pub fn compile(input: &str, kind: CtxKind) -> (r: Result<CompiledPattern, PatternError>)
    ensures
        r is Ok <==> (build_model(kind, input@) matches Ok(m) && regex_valid(m.0)),
        r matches Ok(p) ==> build_model(kind, input@) matches Ok(m) && p.src() == m.0
            && p.names_view() == m.1 && p.raw_view() == input@,
        r matches Err(e) ==> (build_model(kind, input@) matches Err(m) && e.model() == m) || (
        build_model(kind, input@) matches Ok(m) && !regex_valid(m.0) && e.model() matches
            PatErr::Regex(_)),
{
    match build_regex_source(input, kind) {
        Err(e) => Err(e),
        Ok(pair) => {
            let src = pair.0;
            let names = pair.1;
            match CompiledPattern::make(src, names, input.to_owned()) {
                Ok(p) => Ok(p),
                Err(msg) => Err(PatternError::Regex(msg)),
            }
        },
    }
}

/// Compile in path context.
pub fn compile_path(input: &str) -> (r: Result<CompiledPattern, PatternError>)
    ensures
        r is Ok <==> (build_model(CtxKind::Path, input@) matches Ok(m) && regex_valid(m.0)),
        r matches Ok(p) ==> build_model(CtxKind::Path, input@) matches Ok(m) && p.src() == m.0
            && p.names_view() == m.1 && p.raw_view() == input@,
        r matches Err(e) ==> (build_model(CtxKind::Path, input@) matches Err(m) && e.model() == m)
            || (build_model(CtxKind::Path, input@) matches Ok(m) && !regex_valid(m.0) && e.model()
            matches PatErr::Regex(_)),
{
    compile(input, CtxKind::Path)
}

/// Compile in host context.
pub fn compile_host(input: &str) -> (r: Result<CompiledPattern, PatternError>)
    ensures
        r is Ok <==> (build_model(CtxKind::Host, input@) matches Ok(m) && regex_valid(m.0)),
        r matches Ok(p) ==> build_model(CtxKind::Host, input@) matches Ok(m) && p.src() == m.0
            && p.names_view() == m.1 && p.raw_view() == input@,
        r matches Err(e) ==> (build_model(CtxKind::Host, input@) matches Err(m) && e.model() == m)
            || (build_model(CtxKind::Host, input@) matches Ok(m) && !regex_valid(m.0) && e.model()
            matches PatErr::Regex(_)),
{
    compile(input, CtxKind::Host)
}

/// Compile in value context.
pub fn compile_value(input: &str) -> (r: Result<CompiledPattern, PatternError>)
    ensures
        r is Ok <==> (build_model(CtxKind::Value, input@) matches Ok(m) && regex_valid(m.0)),
        r matches Ok(p) ==> build_model(CtxKind::Value, input@) matches Ok(m) && p.src() == m.0
            && p.names_view() == m.1 && p.raw_view() == input@,
        r matches Err(e) ==> (build_model(CtxKind::Value, input@) matches Err(m) && e.model() == m)
            || (build_model(CtxKind::Value, input@) matches Ok(m) && !regex_valid(m.0) && e.model()
            matches PatErr::Regex(_)),
{
    compile(input, CtxKind::Value)
}

} // verus!
