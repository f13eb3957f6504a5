//! Assembling a placeholder pattern into an anchored regex source.
//!
//! `build_at` is the mathematical definition of the pattern language:
//! literal characters are regex-escaped, `\x` makes `x` literal, and
//! `<name?:type>` placeholders expand per context, with capture groups
//! for named placeholders.  `build_regex_source` computes exactly that.

use vstd::prelude::*;

use crate::pattern_types::{
    expand, expand_model, parse_placeholder, parse_placeholder_model, ty_name, CtxKind, PatErr,
    PatternError,
};
use crate::strutil::str_eq;

verus! {

/// The characters the regex engine treats specially; a literal
/// occurrence of one must be escaped.
pub open spec fn is_meta(c: char) -> bool {
    c == '\\' || c == '.' || c == '+' || c == '*' || c == '?' || c == '(' || c == ')' || c == '|'
        || c == '[' || c == ']' || c == '{' || c == '}' || c == '^' || c == '$' || c == '#'
        || c == '&' || c == '-' || c == '~'
}

/// One literal character as regex source.
pub open spec fn escape_char(c: char) -> Seq<char> {
    if is_meta(c) {
        seq!['\\', c]
    } else {
        seq![c]
    }
}

fn is_meta_exec(c: char) -> (r: bool)
    ensures
        r == is_meta(c),
{
    c == '\\' || c == '.' || c == '+' || c == '*' || c == '?' || c == '(' || c == ')' || c == '|'
        || c == '[' || c == ']' || c == '{' || c == '}' || c == '^' || c == '$' || c == '#'
        || c == '&' || c == '-' || c == '~'
}

/// Scan a placeholder body from position `i` (just after `<`) to its
/// closing `>`, honouring backslash escapes.  Returns the body and the
/// position just after the `>`, or an error when the input ends first.
pub open spec fn scan_ph_at(s: Seq<char>, i: int) -> Result<(Seq<char>, int), ()>
    decreases s.len() - i,
    when 0 <= i <= s.len()
{
    if i >= s.len() {
        Err(())
    } else if s[i] == '\\' {
        if i + 1 >= s.len() {
            Err(())
        } else {
            match scan_ph_at(s, i + 2) {
                Ok(p) => Ok((seq![s[i + 1]] + p.0, p.1)),
                Err(u) => Err(u),
            }
        }
    } else if s[i] == '>' {
        Ok((Seq::empty(), i + 1))
    } else {
        match scan_ph_at(s, i + 1) {
            Ok(p) => Ok((seq![s[i]] + p.0, p.1)),
            Err(u) => Err(u),
        }
    }
}

/// A successful placeholder scan always advances and stays in bounds.
pub proof fn lemma_scan_bounds(s: Seq<char>, i: int)
    requires
        0 <= i <= s.len(),
    ensures
        scan_ph_at(s, i) matches Ok(p) ==> i < p.1 <= s.len(),
    decreases s.len() - i,
{
    if i < s.len() {
        if s[i] == '\\' {
            if i + 1 < s.len() {
                lemma_scan_bounds(s, i + 2);
            }
        } else if s[i] == '>' {
        } else {
            lemma_scan_bounds(s, i + 1);
        }
    }
}

/// The capture-group wrapper around one placeholder expansion.
pub open spec fn ph_group(name: Option<Seq<char>>, src: Seq<char>) -> Seq<char> {
    match name {
        Some(n) => "(?P<"@ + n + ">"@ + src + ")"@,
        None => "(?:"@ + src + ")"@,
    }
}

/// The meaning of the pattern text from position `i` on: the regex
/// source it denotes and the capture names it introduces, or the first
/// compile error.  `names` are the capture names already taken and
/// `tail` records whether a tail-only placeholder has been passed.
pub open spec fn build_at(
    kind: CtxKind,
    s: Seq<char>,
    i: int,
    names: Seq<Seq<char>>,
    tail: bool,
) -> Result<(Seq<char>, Seq<Seq<char>>), PatErr>
    decreases s.len() - i,
    when 0 <= i <= s.len()
    via build_at_dec
{
    if i >= s.len() {
        Ok((Seq::empty(), Seq::empty()))
    } else if tail {
        Err(PatErr::TailOnlyMustBeLast)
    } else if s[i] == '\\' {
        if i + 1 >= s.len() {
            Ok((Seq::empty(), Seq::empty()))
        } else {
            match build_at(kind, s, i + 2, names, tail) {
                Ok(p) => Ok((escape_char(s[i + 1]) + p.0, p.1)),
                Err(e) => Err(e),
            }
        }
    } else if s[i] == '<' {
        match scan_ph_at(s, i + 1) {
            Err(_) => Err(PatErr::Unclosed),
            Ok(sc) => {
                if sc.0.len() == 0 {
                    Err(PatErr::Empty)
                } else {
                    match parse_placeholder_model(sc.0, kind) {
                        Err(e) => Err(e),
                        Ok(ph) => match expand_model(kind, ph.1, sc.1 >= s.len()) {
                            None => Err(PatErr::BadTypeForCtx(ty_name(ph.1))),
                            Some(ex) => match ph.0 {
                                Some(n) => {
                                    if names.contains(n) {
                                        Err(PatErr::DupName(n))
                                    } else {
                                        match build_at(kind, s, sc.1, names.push(n), ex.1) {
                                            Ok(p) => Ok(
                                                (ph_group(Some(n), ex.0) + p.0, seq![n] + p.1),
                                            ),
                                            Err(e) => Err(e),
                                        }
                                    }
                                },
                                None => match build_at(kind, s, sc.1, names, ex.1) {
                                    Ok(p) => Ok((ph_group(None, ex.0) + p.0, p.1)),
                                    Err(e) => Err(e),
                                },
                            },
                        },
                    }
                }
            },
        }
    } else {
        match build_at(kind, s, i + 1, names, tail) {
            Ok(p) => Ok((escape_char(s[i]) + p.0, p.1)),
            Err(e) => Err(e),
        }
    }
}

#[via_fn]
proof fn build_at_dec(kind: CtxKind, s: Seq<char>, i: int, names: Seq<Seq<char>>, tail: bool) {
    if 0 <= i < s.len() && !tail && s[i] != '\\' && s[i] == '<' {
        lemma_scan_bounds(s, i + 1);
    }
}

/// The whole compiled source: the body anchored on both sides.
pub open spec fn build_model(kind: CtxKind, s: Seq<char>) -> Result<
    (Seq<char>, Seq<Seq<char>>),
    PatErr,
> {
    match build_at(kind, s, 0, Seq::empty(), false) {
        Ok(p) => Ok(("^"@ + p.0 + "$"@, p.1)),
        Err(e) => Err(e),
    }
}

/// Scan a placeholder body starting just after its `<`.
fn scan_placeholder(s: &str, start: usize) -> (r: Result<(String, usize), PatternError>)
    requires
        start <= s@.len(),
    ensures
        match r {
            Ok(p) => scan_ph_at(s@, start as int) == Ok::<_, ()>((p.0@, p.1 as int)) && start
                < p.1 <= s@.len(),
            Err(e) => scan_ph_at(s@, start as int) is Err && e.model() == PatErr::Unclosed,
        },
{
    let n = s.unicode_len();
    let mut buf = String::new();
    let mut j: usize = start;
    while j < n
        invariant
            start <= j <= n,
            n == s@.len(),
            match scan_ph_at(s@, j as int) {
                Ok(p) => scan_ph_at(s@, start as int) == Ok::<_, ()>((buf@ + p.0, p.1)),
                Err(u) => scan_ph_at(s@, start as int) == Err::<(Seq<char>, int), _>(u),
            },
        decreases n - j,
    {
        let ghost buf0 = buf@;
        let c = s.get_char(j);
        if c == '\\' {
            if j + 1 >= n {
                return Err(PatternError::Unclosed);
            }
            let piece = s.substring_char(j + 1, j + 2);
            buf.append(piece);
            proof {
                assert(piece@ =~= seq![s@[j as int + 1]]);
                let r2 = scan_ph_at(s@, j as int + 2);
                match r2 {
                    Ok(p) => {
                        assert(buf@ + p.0 =~= buf0 + (seq![s@[j as int + 1]] + p.0));
                    },
                    Err(_) => {},
                }
            }
            j += 2;
        } else if c == '>' {
            proof {
                assert(scan_ph_at(s@, j as int) == Ok::<_, ()>(
                    (Seq::<char>::empty(), j + 1 as int),
                ));
                assert(buf@ + Seq::<char>::empty() =~= buf@);
            }
            return Ok((buf, j + 1));
        } else {
            let piece = s.substring_char(j, j + 1);
            buf.append(piece);
            proof {
                assert(piece@ =~= seq![s@[j as int]]);
                let r2 = scan_ph_at(s@, j as int + 1);
                match r2 {
                    Ok(p) => {
                        assert(buf@ + p.0 =~= buf0 + (seq![s@[j as int]] + p.0));
                    },
                    Err(_) => {},
                }
            }
            j += 1;
        }
    }
    Err(PatternError::Unclosed)
}

/// Is `n` one of the names already taken?
fn names_contain(names: &Vec<String>, n: &str) -> (r: bool)
    ensures
        r == names.deep_view().contains(n@),
{
    let mut k: usize = 0;
    while k < names.len()
        invariant
            k <= names.len(),
            forall|j: int| 0 <= j < k ==> names.deep_view()[j] != n@,
        decreases names.len() - k,
    {
        if str_eq(names[k].as_str(), n) {
            assert(names.deep_view()[k as int] == n@);
            return true;
        }
        k += 1;
    }
    false
}

/// Append the escaped form of `s[idx]` to `out`.
fn push_escaped(out: &mut String, s: &str, idx: usize)
    requires
        idx < s@.len(),
        idx < usize::MAX,
    ensures
        final(out)@ == old(out)@ + escape_char(s@[idx as int]),
{
    let c = s.get_char(idx);
    if is_meta_exec(c) {
        out.append("\\");
    }
    let piece = s.substring_char(idx, idx + 1);
    out.append(piece);
    proof {
        reveal_strlit("\\");
        assert(piece@ =~= seq![s@[idx as int]]);
        if is_meta(s@[idx as int]) {
            assert(out@ =~= old(out)@ + escape_char(s@[idx as int]));
        } else {
            assert(out@ =~= old(out)@ + escape_char(s@[idx as int]));
        }
    }
}

/// The capture group for a named placeholder, with the rest appended.
fn group_named(name: &String, src: &String, rest: &String) -> (r: String)
    ensures
        r@ == ph_group(Some(name@), src@) + rest@,
{
    let mut s = String::new();
    s.append("(?P<");
    s.append(name.as_str());
    s.append(">");
    s.append(src.as_str());
    s.append(")");
    s.append(rest.as_str());
    proof {
        assert(s@ =~= ph_group(Some(name@), src@) + rest@);
    }
    s
}

/// The non-capturing group for an anonymous placeholder, with the
/// rest appended.
fn group_anon(src: &String, rest: &String) -> (r: String)
    ensures
        r@ == ph_group(None, src@) + rest@,
{
    let mut s = String::new();
    s.append("(?:");
    s.append(src.as_str());
    s.append(")");
    s.append(rest.as_str());
    proof {
        assert(s@ =~= ph_group(None, src@) + rest@);
    }
    s
}

/// Compile the pattern body from position `i` on, appending the capture

/// names it introduces to `names`: exactly the value of `build_at`.
#[verifier::rlimit(100)]
#[verifier::spinoff_prover]
fn build_from(input: &str, kind: CtxKind, i: usize, names: &mut Vec<String>, tail: bool) -> (r:
    Result<String, PatternError>)
    requires
        i <= input@.len(),
    ensures
        match r {
            Ok(src) => match build_at(kind, input@, i as int, old(names).deep_view(), tail) {
                Ok(p) => src@ == p.0 && final(names).deep_view() == old(names).deep_view() + p.1,
                Err(_) => false,
            },
            Err(e) => build_at(kind, input@, i as int, old(names).deep_view(), tail) == Err::<
                (Seq<char>, Seq<Seq<char>>),
                _,
            >(e.model()),
        },
    decreases input@.len() - i, 1int,
{
    let n = input.unicode_len();
    if i >= n {
        proof {
            assert(names.deep_view() + Seq::<Seq<char>>::empty() =~= names.deep_view());
        }
        return Ok(String::new());
    }
    let c = input.get_char(i);
    if tail {
        return Err(PatternError::TailOnlyMustBeLast);
    }
    if c == '\\' {
        if i + 1 >= n {
            proof {
                assert(names.deep_view() + Seq::<Seq<char>>::empty() =~= names.deep_view());
            }
            return Ok(String::new());
        }
        let mut piece = String::new();
        push_escaped(&mut piece, input, i + 1);
        match build_from(input, kind, i + 2, names, tail) {
            Ok(rest) => {
                piece.append(rest.as_str());
                Ok(piece)
            },
            Err(e) => Err(e),
        }
    } else if c == '<' {
        build_placeholder(input, kind, i, names, tail)
    } else {
        let mut piece = String::new();
        push_escaped(&mut piece, input, i);
        match build_from(input, kind, i + 1, names, tail) {
            Ok(rest) => {
                piece.append(rest.as_str());
                Ok(piece)
            },
            Err(e) => Err(e),
        }
    }
}

/// Compile a pattern into regex source and its capture names, per the
/// grammar of `build_model`: `Ok` exactly when the pattern is
/// well-formed for the context, and then the anchored source and the
/// capture names in order of appearance.
pub fn build_regex_source(input: &str, kind: CtxKind) -> (r: Result<
    (String, Vec<String>),
    PatternError,
>)
    ensures
        match r {
            Ok(p) => build_model(kind, input@) == Ok::<_, PatErr>((p.0@, p.1.deep_view())),
            Err(e) => build_model(kind, input@) == Err::<(Seq<char>, Seq<Seq<char>>), _>(
                e.model(),
            ),
        },
{
    let mut names: Vec<String> = Vec::new();
    proof {
        assert(names.deep_view() =~= Seq::<Seq<char>>::empty());
    }
    match build_from(input, kind, 0, &mut names, false) {
        Ok(src) => {
            let mut out = String::new();
            out.append("^");
            out.append(src.as_str());
            out.append("$");
            proof {
                assert(out@ =~= "^"@ + src@ + "$"@);
                let p = build_at(kind, input@, 0, Seq::empty(), false)->Ok_0;
                assert(names.deep_view() =~= p.1);
            }
            Ok((out, names))
        },
        Err(e) => Err(e),
    }
}

/// Compile one placeholder at position `i` (which holds `<`) and the
/// rest of the pattern after it.
#[verifier::rlimit(100)]
#[verifier::spinoff_prover]
fn build_placeholder(
    input: &str,
    kind: CtxKind,
    i: usize,
    names: &mut Vec<String>,
    tail: bool,
) -> (r: Result<String, PatternError>)
    requires
        i < input@.len(),
        input@[i as int] == '<',
        !tail,
    ensures
        match r {
            Ok(src) => match build_at(kind, input@, i as int, old(names).deep_view(), tail) {
                Ok(p) => src@ == p.0 && final(names).deep_view() == old(names).deep_view() + p.1,
                Err(_) => false,
            },
            Err(e) => build_at(kind, input@, i as int, old(names).deep_view(), tail) == Err::<
                (Seq<char>, Seq<Seq<char>>),
                _,
            >(e.model()),
        },
    decreases input@.len() - i, 0int,
{
    let n = input.unicode_len();
        match scan_placeholder(input, i + 1) {
            Err(e) => Err(e),
            Ok(pair) => {
                let buf = pair.0;
                let end = pair.1;
                if buf.unicode_len() == 0 {
                    return Err(PatternError::Empty);
                }
                let ph = match parse_placeholder(buf.as_str(), kind) {
                    Ok(ph) => ph,
                    Err(e) => {
                        return Err(e);
                    },
                };
                let ex = match expand(kind, &ph.ty, end >= n) {
                    Ok(ex) => ex,
                    Err(e) => {
                        return Err(e);
                    },
                };
                match ph.name {
                    Some(name) => {
                        if names_contain(names, name.as_str()) {
                            return Err(PatternError::DupName(name));
                        }
                        let ghost gname = name@;
                        let ghost names0 = names.deep_view();
                        let name_text = name.clone();
                        names.push(name);
                        proof {
                            assert(names.deep_view() =~= names0.push(gname));
                        }
                        match build_from(input, kind, end, names, tail || ex.tail_only) {
                            Ok(rest) => {
                                let src = group_named(&name_text, &ex.src, &rest);
                                proof {
                                    let p = build_at(
                                        kind,
                                        input@,
                                        end as int,
                                        names0.push(gname),
                                        tail || ex.tail_only,
                                    )->Ok_0;
                                    assert(src@ == ph_group(Some(gname), ex.src@) + p.0);
                                    assert(names.deep_view() =~= names0 + (seq![gname] + p.1));
                                }
                                Ok(src)
                            },
                            Err(e) => Err(e),
                        }
                    },
                    None => {
                        match build_from(input, kind, end, names, tail || ex.tail_only) {
                            Ok(rest) => {
                                let src = group_anon(&ex.src, &rest);
                                proof {
                                    let p = build_at(
                                        kind,
                                        input@,
                                        end as int,
                                        old(names).deep_view(),
                                        tail || ex.tail_only,
                                    )->Ok_0;
                                    assert(src@ == ph_group(None, ex.src@) + p.0);
                                }
                                Ok(src)
                            },
                            Err(e) => Err(e),
                        }
                    },
                }
            },
        }
}

} // verus!
