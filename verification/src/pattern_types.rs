//! The typed-placeholder vocabulary of the pattern language: contexts,
//! placeholder types, their regex expansions, and the parsers for the
//! `<name?:type>` placeholder body.

use vstd::prelude::*;

use crate::strutil::{find_char, is_prefix, starts_with, str_eq};

verus! {

/// Placeholder types as written in a pattern.
#[derive(Debug, Clone)]
pub enum TypeSpec {
    Segment,
    Slug,
    Int,
    Hex,
    Alnum,
    Uuid,
    Path,
    Label,
    Labels,
    Any,
    Regex(String),
    RegexPath(String),
    RegexLabels(String),
}

/// Mathematical image of a `TypeSpec`: the same tags over character
/// sequences.
pub enum TyModel {
    Segment,
    Slug,
    Int,
    Hex,
    Alnum,
    Uuid,
    Path,
    Label,
    Labels,
    Any,
    Regex(Seq<char>),
    RegexPath(Seq<char>),
    RegexLabels(Seq<char>),
}

impl TypeSpec {
    pub open spec fn model(&self) -> TyModel {
        match self {
            TypeSpec::Segment => TyModel::Segment,
            TypeSpec::Slug => TyModel::Slug,
            TypeSpec::Int => TyModel::Int,
            TypeSpec::Hex => TyModel::Hex,
            TypeSpec::Alnum => TyModel::Alnum,
            TypeSpec::Uuid => TyModel::Uuid,
            TypeSpec::Path => TyModel::Path,
            TypeSpec::Label => TyModel::Label,
            TypeSpec::Labels => TyModel::Labels,
            TypeSpec::Any => TyModel::Any,
            TypeSpec::Regex(s) => TyModel::Regex(s@),
            TypeSpec::RegexPath(s) => TyModel::RegexPath(s@),
            TypeSpec::RegexLabels(s) => TyModel::RegexLabels(s@),
        }
    }
}

/// The matching contexts a pattern can be compiled for.
#[derive(Debug, Clone, Copy, PartialEq, Eq, Structural)]
pub enum CtxKind {
    Path,
    Host,
    Value,
}

/// Marker for path-context compilation.
#[derive(Debug, Clone, Copy)]
pub struct PathCtx;

/// Marker for host-context compilation.
#[derive(Debug, Clone, Copy)]
pub struct HostCtx;

/// Marker for value-context compilation.
#[derive(Debug, Clone, Copy)]
pub struct ValueCtx;

impl PathCtx {
    pub fn kind(&self) -> (r: CtxKind)
        ensures
            r == CtxKind::Path,
    {
        CtxKind::Path
    }
}

impl HostCtx {
    pub fn kind(&self) -> (r: CtxKind)
        ensures
            r == CtxKind::Host,
    {
        CtxKind::Host
    }
}

impl ValueCtx {
    pub fn kind(&self) -> (r: CtxKind)
        ensures
            r == CtxKind::Value,
    {
        CtxKind::Value
    }
}

/// Why a pattern failed to compile.
#[derive(Debug, Clone)]
pub enum PatternError {
    /// A placeholder was opened and never closed.
    Unclosed,
    /// A placeholder with an empty body.
    Empty,
    /// An unrecognized placeholder type token.
    BadPlaceholder(String),
    /// Two placeholders capture under the same name.
    DupName(String),
    /// The type is not allowed in this context.
    BadTypeForCtx(String),
    /// A tail-only placeholder was followed by further components.
    TailOnlyMustBeLast,
    /// The assembled expression was rejected by the regex engine.
    Regex(String),
}

/// Mathematical image of a `PatternError`.
pub enum PatErr {
    Unclosed,
    Empty,
    BadPlaceholder(Seq<char>),
    DupName(Seq<char>),
    BadTypeForCtx(Seq<char>),
    TailOnlyMustBeLast,
    Regex(Seq<char>),
}

impl PatternError {
    pub open spec fn model(&self) -> PatErr {
        match self {
            PatternError::Unclosed => PatErr::Unclosed,
            PatternError::Empty => PatErr::Empty,
            PatternError::BadPlaceholder(s) => PatErr::BadPlaceholder(s@),
            PatternError::DupName(s) => PatErr::DupName(s@),
            PatternError::BadTypeForCtx(s) => PatErr::BadTypeForCtx(s@),
            PatternError::TailOnlyMustBeLast => PatErr::TailOnlyMustBeLast,
            PatternError::Regex(s) => PatErr::Regex(s@),
        }
    }
}

/// One placeholder, parsed: an optional capture name and a type.
#[derive(Debug, Clone)]
pub struct Placeholder {
    pub name: Option<String>,
    pub ty: TypeSpec,
}

/// The regex expansion of one placeholder type: its source text and
/// whether it swallows the rest of the subject (tail-only).
#[derive(Debug, Clone)]
pub struct Expand {
    pub src: String,
    pub tail_only: bool,
}

/// The context's default placeholder type.
pub open spec fn default_ty(kind: CtxKind) -> TyModel {
    TyModel::Segment
}

/// What `<:*>` stands for in each context.
pub open spec fn asterisk_ty(kind: CtxKind) -> TyModel {
    match kind {
        CtxKind::Path => TyModel::Path,
        CtxKind::Host => TyModel::Labels,
        CtxKind::Value => TyModel::Any,
    }
}

/// The token that names a type in an error message.
pub open spec fn ty_name(ty: TyModel) -> Seq<char> {
    match ty {
        TyModel::Segment => "segment"@,
        TyModel::Slug => "slug"@,
        TyModel::Int => "int"@,
        TyModel::Hex => "hex"@,
        TyModel::Alnum => "alnum"@,
        TyModel::Uuid => "uuid"@,
        TyModel::Path => "path"@,
        TyModel::Label => "label"@,
        TyModel::Labels => "labels"@,
        TyModel::Any => "any"@,
        TyModel::Regex(_) => "regex"@,
        TyModel::RegexPath(_) => "regex_path"@,
        TyModel::RegexLabels(_) => "regex_labels"@,
    }
}

/// The regex source and tail-only flag a type expands to in a context;
/// `None` where the type is illegal there.
pub open spec fn expand_model(kind: CtxKind, ty: TyModel, is_last: bool) -> Option<
    (Seq<char>, bool),
> {
    match kind {
        CtxKind::Path => match ty {
            TyModel::Segment => Some(("[^/]+"@, false)),
            TyModel::Slug => Some(("[A-Za-z0-9_-]+"@, false)),
            TyModel::Int => Some(("\\d+"@, false)),
            TyModel::Hex => Some(("[0-9a-fA-F]+"@, false)),
            TyModel::Alnum => Some(("[A-Za-z0-9]+"@, false)),
            TyModel::Uuid => Some(
                ("[0-9a-fA-F]{8}(?:-[0-9a-fA-F]{4}){3}-[0-9a-fA-F]{12}"@, false),
            ),
            TyModel::Path => Some((".+"@, true)),
            TyModel::Regex(s) => Some(("(?:"@ + s + ")"@, false)),
            TyModel::RegexPath(s) => Some(("(?:"@ + s + ")"@, true)),
            _ => None,
        },
        CtxKind::Host => match ty {
            TyModel::Segment => Some(("[^.]+"@, false)),
            TyModel::Slug => Some(("[A-Za-z0-9_-]+"@, false)),
            TyModel::Int => Some(("\\d+"@, false)),
            TyModel::Hex => Some(("[0-9a-fA-F]+"@, false)),
            TyModel::Alnum => Some(("[A-Za-z0-9]+"@, false)),
            TyModel::Uuid => Some(
                ("[0-9a-fA-F]{8}(?:-[0-9a-fA-F]{4}){3}-[0-9a-fA-F]{12}"@, false),
            ),
            TyModel::Label => Some(("[a-z0-9-]+"@, false)),
            TyModel::Labels => Some(("(?:[a-z0-9-]+(?:\\.[a-z0-9-]+)*)"@, false)),
            TyModel::Regex(s) => Some(("(?:"@ + s + ")"@, false)),
            TyModel::RegexLabels(s) => Some(("(?:"@ + s + ")"@, false)),
            _ => None,
        },
        CtxKind::Value => match ty {
            TyModel::Segment => Some((if is_last { ".+"@ } else { ".+?"@ }, false)),
            TyModel::Any => Some((if is_last { ".*"@ } else { ".*?"@ }, false)),
            TyModel::Slug => Some(("[A-Za-z0-9_-]+"@, false)),
            TyModel::Int => Some(("\\d+"@, false)),
            TyModel::Hex => Some(("[0-9a-fA-F]+"@, false)),
            TyModel::Alnum => Some(("[A-Za-z0-9]+"@, false)),
            TyModel::Uuid => Some(
                ("[0-9a-fA-F]{8}(?:-[0-9a-fA-F]{4}){3}-[0-9a-fA-F]{12}"@, false),
            ),
            TyModel::Regex(s) => Some(("(?:"@ + s + ")"@, false)),
            _ => None,
        },
    }
}

/// Expand a placeholder type in a context, or report it illegal there.
pub fn expand(kind: CtxKind, ty: &TypeSpec, is_last: bool) -> (r: Result<Expand, PatternError>)
    ensures
        match expand_model(kind, ty.model(), is_last) {
            Some(p) => r is Ok && r->Ok_0.src@ == p.0 && r->Ok_0.tail_only == p.1,
            None => r is Err && r->Err_0.model() == PatErr::BadTypeForCtx(ty_name(ty.model())),
        },
{
    match kind {
        CtxKind::Path => match ty {
            TypeSpec::Segment => Ok(plain("[^/]+")),
            TypeSpec::Slug => Ok(plain("[A-Za-z0-9_-]+")),
            TypeSpec::Int => Ok(plain("\\d+")),
            TypeSpec::Hex => Ok(plain("[0-9a-fA-F]+")),
            TypeSpec::Alnum => Ok(plain("[A-Za-z0-9]+")),
            TypeSpec::Uuid => Ok(plain("[0-9a-fA-F]{8}(?:-[0-9a-fA-F]{4}){3}-[0-9a-fA-F]{12}")),
            TypeSpec::Path => Ok(tail(".+")),
            TypeSpec::Regex(s) => Ok(grouped(s, false)),
            TypeSpec::RegexPath(s) => Ok(grouped(s, true)),
            _ => Err(bad_type(ty)),
        },
        CtxKind::Host => match ty {
            TypeSpec::Segment => Ok(plain("[^.]+")),
            TypeSpec::Slug => Ok(plain("[A-Za-z0-9_-]+")),
            TypeSpec::Int => Ok(plain("\\d+")),
            TypeSpec::Hex => Ok(plain("[0-9a-fA-F]+")),
            TypeSpec::Alnum => Ok(plain("[A-Za-z0-9]+")),
            TypeSpec::Uuid => Ok(plain("[0-9a-fA-F]{8}(?:-[0-9a-fA-F]{4}){3}-[0-9a-fA-F]{12}")),
            TypeSpec::Label => Ok(plain("[a-z0-9-]+")),
            TypeSpec::Labels => Ok(plain("(?:[a-z0-9-]+(?:\\.[a-z0-9-]+)*)")),
            TypeSpec::Regex(s) => Ok(grouped(s, false)),
            TypeSpec::RegexLabels(s) => Ok(grouped(s, false)),
            _ => Err(bad_type(ty)),
        },
        CtxKind::Value => match ty {
            TypeSpec::Segment => Ok(
                if is_last {
                    plain(".+")
                } else {
                    plain(".+?")
                },
            ),
            TypeSpec::Any => Ok(
                if is_last {
                    plain(".*")
                } else {
                    plain(".*?")
                },
            ),
            TypeSpec::Slug => Ok(plain("[A-Za-z0-9_-]+")),
            TypeSpec::Int => Ok(plain("\\d+")),
            TypeSpec::Hex => Ok(plain("[0-9a-fA-F]+")),
            TypeSpec::Alnum => Ok(plain("[A-Za-z0-9]+")),
            TypeSpec::Uuid => Ok(plain("[0-9a-fA-F]{8}(?:-[0-9a-fA-F]{4}){3}-[0-9a-fA-F]{12}")),
            TypeSpec::Regex(s) => Ok(grouped(s, false)),
            _ => Err(bad_type(ty)),
        },
    }
}

fn plain(s: &str) -> (r: Expand)
    ensures
        r.src@ == s@,
        !r.tail_only,
{
    Expand { src: s.to_owned(), tail_only: false }
}

fn tail(s: &str) -> (r: Expand)
    ensures
        r.src@ == s@,
        r.tail_only,
{
    Expand { src: s.to_owned(), tail_only: true }
}

fn grouped(s: &String, tail_only: bool) -> (r: Expand)
    ensures
        r.src@ == "(?:"@ + s@ + ")"@,
        r.tail_only == tail_only,
{
    let mut out = ("(?:").to_owned();
    out.append(s.as_str());
    out.append(")");
    Expand { src: out, tail_only }
}

fn bad_type(ty: &TypeSpec) -> (r: PatternError)
    ensures
        r.model() == PatErr::BadTypeForCtx(ty_name(ty.model())),
{
    let name: &str = match ty {
        TypeSpec::Segment => "segment",
        TypeSpec::Slug => "slug",
        TypeSpec::Int => "int",
        TypeSpec::Hex => "hex",
        TypeSpec::Alnum => "alnum",
        TypeSpec::Uuid => "uuid",
        TypeSpec::Path => "path",
        TypeSpec::Label => "label",
        TypeSpec::Labels => "labels",
        TypeSpec::Any => "any",
        TypeSpec::Regex(_) => "regex",
        TypeSpec::RegexPath(_) => "regex_path",
        TypeSpec::RegexLabels(_) => "regex_labels",
    };
    PatternError::BadTypeForCtx(name.to_owned())
}

/// Is this an ASCII whitespace character?
pub open spec fn is_space(c: char) -> bool {
    c == ' ' || c == '\t' || c == '\n' || c == '\r'
}

/// `s` with ASCII whitespace removed from both ends.
pub open spec fn trim_model(s: Seq<char>) -> Seq<char>
    decreases s.len(),
{
    if s.len() == 0 {
        s
    } else if is_space(s.first()) {
        trim_model(s.drop_first())
    } else if is_space(s.last()) {
        trim_model(s.drop_last())
    } else {
        s
    }
}

fn is_space_exec(c: char) -> (r: bool)
    ensures
        r == is_space(c),
{
    c == ' ' || c == '\t' || c == '\n' || c == '\r'
}

/// Remove ASCII whitespace from both ends of a string.
pub fn trim_str(s: &str) -> (r: &str)
    ensures
        r@ == trim_model(s@),
{
    let n = s.unicode_len();
    proof {
        assert(s@.subrange(0, n as int) =~= s@);
    }
    let mut lo: usize = 0;
    while lo < n && is_space_exec(s.get_char(lo))
        invariant
            lo <= n,
            n == s@.len(),
            forall|j: int| 0 <= j < lo ==> is_space(s@[j]),
            trim_model(s@) == trim_model(s@.subrange(lo as int, n as int)),
        decreases n - lo,
    {
        proof {
            assert(s@.subrange(lo as int, n as int).drop_first() =~= s@.subrange(
                lo as int + 1,
                n as int,
            ));
        }
        lo += 1;
    }
    let mut hi: usize = n;
    while hi > lo && is_space_exec(s.get_char(hi - 1))
        invariant
            lo <= hi <= n,
            n == s@.len(),
            trim_model(s@) == trim_model(s@.subrange(lo as int, hi as int)),
            hi > lo ==> !is_space(s@[lo as int]),
        decreases hi,
    {
        proof {
            assert(s@.subrange(lo as int, hi as int).drop_last() =~= s@.subrange(
                lo as int,
                hi as int - 1,
            ));
        }
        hi -= 1;
    }
    let r = s.substring_char(lo, hi);
    proof {
        if hi > lo {
            assert(!is_space(s@.subrange(lo as int, hi as int).first()));
            assert(!is_space(s@.subrange(lo as int, hi as int).last()));
        }
        assert(trim_model(s@.subrange(lo as int, hi as int)) == s@.subrange(
            lo as int,
            hi as int,
        ));
    }
    r
}

/// Unescaping inside a quoted regex argument: only `\"` and `\\` are
/// escapes; any other backslash stays literal.
pub open spec fn unescape_model(s: Seq<char>) -> Seq<char>
    decreases s.len(),
{
    if s.len() == 0 {
        Seq::empty()
    } else if s.first() == '\\' && s.len() >= 2 && (s[1] == '"' || s[1] == '\\') {
        seq![s[1]] + unescape_model(s.skip(2))
    } else {
        seq![s.first()] + unescape_model(s.skip(1))
    }
}

/// What `parse_arg` accepts: `fname("...")` with `\"` and `\\` escapes
/// inside the quotes.
pub open spec fn parse_arg_model(s: Seq<char>, fname: Seq<char>) -> Option<Seq<char>> {
    let head = fname + "("@;
    if is_prefix(head, s) && s.len() > 0 && s.last() == ')' {
        let inner = s.subrange(head.len() as int, s.len() - 1);
        if inner.len() >= 2 && inner.first() == '"' && inner.last() == '"' {
            Some(unescape_model(inner.subrange(1, inner.len() - 1)))
        } else {
            None
        }
    } else {
        None
    }
}

/// Parse `fname("...")`, returning the unescaped quoted argument.
pub fn parse_arg(s: &str, fname: &str) -> (r: Option<String>)
    ensures
        match r {
            Some(v) => parse_arg_model(s@, fname@) == Some(v@),
            None => parse_arg_model(s@, fname@) is None,
        },
{
    let ns = s.unicode_len();
    let nf = fname.unicode_len();
    let ghost head = fname@ + "("@;
    proof {
        reveal_strlit("(");
    }
    if ns <= nf {
        assert(!is_prefix(head, s@));
        return None;
    }
    let head_len = nf + 1;
    if !starts_with_paren(s, fname) {
        return None;
    }
    if s.get_char(ns - 1) != ')' {
        assert(s@.last() != ')');
        return None;
    }
    proof {
        assert(s@.last() == ')');
    }
    if ns - head_len < 3 {
        proof {
            if ns == head_len {
                assert(s@.subrange(0, head.len() as int) =~= s@);
                assert(s@.last() == head.last());
                assert(head.last() == '(');
            } else {
                let inner0 = s@.subrange(head.len() as int, s@.len() - 1);
                assert(inner0.len() < 2);
            }
        }
        return None;
    }
    let inner_lo = head_len;
    let inner_hi = ns - 1;
    let ghost inner = s@.subrange(inner_lo as int, inner_hi as int);
    if s.get_char(inner_lo) != '"' || s.get_char(inner_hi - 1) != '"' {
        proof {
            assert(inner.first() == s@[inner_lo as int]);
            assert(inner.last() == s@[inner_hi as int - 1]);
        }
        return None;
    }
    proof {
        assert(inner.first() == s@[inner_lo as int]);
        assert(inner.last() == s@[inner_hi as int - 1]);
    }
    let body_lo = inner_lo + 1;
    let body_hi = inner_hi - 1;
    let ghost body = s@.subrange(body_lo as int, body_hi as int);
    proof {
        assert(body =~= inner.subrange(1, inner.len() - 1));
    }
    let mut out = String::new();
    let mut i: usize = body_lo;
    while i < body_hi
        invariant
            body_lo <= i <= body_hi,
            body_hi <= s@.len(),
            body == s@.subrange(body_lo as int, body_hi as int),
            unescape_model(body) == out@ + unescape_model(
                s@.subrange(i as int, body_hi as int),
            ),
        decreases body_hi - i,
    {
        let ghost rest = s@.subrange(i as int, body_hi as int);
        let c = s.get_char(i);
        proof {
            assert(rest.first() == s@[i as int]);
        }
        if c == '\\' && i + 1 < body_hi && (s.get_char(i + 1) == '"' || s.get_char(i + 1)
            == '\\') {
            let piece = s.substring_char(i + 1, i + 2);
            out.append(piece);
            proof {
                assert(rest[1] == s@[i as int + 1]);
                assert(rest.skip(2) =~= s@.subrange(i as int + 2, body_hi as int));
                assert(piece@ =~= seq![rest[1]]);
            }
            i += 2;
        } else {
            let piece = s.substring_char(i, i + 1);
            out.append(piece);
            proof {
                assert(rest.skip(1) =~= s@.subrange(i as int + 1, body_hi as int));
                assert(piece@ =~= seq![rest.first()]);
            }
            i += 1;
        }
    }
    proof {
        assert(s@.subrange(i as int, body_hi as int).len() == 0);
        assert(unescape_model(s@.subrange(i as int, body_hi as int)) =~= Seq::<char>::empty());
        assert(out@ =~= unescape_model(body));
        assert(parse_arg_model(s@, fname@) == Some(out@)) by {
            assert(is_prefix(head, s@));
        }
    }
    Some(out)
}

/// Does `s` start with `fname` followed by an opening parenthesis?
fn starts_with_paren(s: &str, fname: &str) -> (r: bool)
    ensures
        r == is_prefix(fname@ + "("@, s@),
{
    let nf = fname.unicode_len();
    let ns = s.unicode_len();
    proof {
        reveal_strlit("(");
    }
    if ns <= nf {
        assert(!is_prefix(fname@ + "("@, s@));
        return false;
    }
    let head = s.substring_char(0, nf);
    if !str_eq(head, fname) {
        assert(is_prefix(fname@ + "("@, s@) ==> s@.subrange(0, nf as int) =~= fname@);
        return false;
    }
    let r = s.get_char(nf) == '(';
    proof {
        let full = fname@ + "("@;
        if r {
            assert(s@.subrange(0, full.len() as int) =~= full);
        } else {
            assert(is_prefix(full, s@) ==> s@[nf as int] == full[nf as int]);
        }
    }
    r
}

/// What a type token inside a placeholder means.
pub open spec fn parse_type_model(raw: Seq<char>, kind: CtxKind) -> Result<TyModel, PatErr> {
    let t = trim_model(raw);
    if t == Seq::<char>::empty() {
        Ok(default_ty(kind))
    } else if t == "*"@ {
        Ok(asterisk_ty(kind))
    } else if t == "segment"@ {
        Ok(TyModel::Segment)
    } else if t == "slug"@ {
        Ok(TyModel::Slug)
    } else if t == "int"@ {
        Ok(TyModel::Int)
    } else if t == "hex"@ {
        Ok(TyModel::Hex)
    } else if t == "alnum"@ {
        Ok(TyModel::Alnum)
    } else if t == "uuid"@ {
        Ok(TyModel::Uuid)
    } else if t == "path"@ {
        Ok(TyModel::Path)
    } else if t == "label"@ {
        Ok(TyModel::Label)
    } else if t == "labels"@ {
        Ok(TyModel::Labels)
    } else if t == "any"@ {
        Ok(TyModel::Any)
    } else if parse_arg_model(t, "regex"@) is Some {
        Ok(TyModel::Regex(parse_arg_model(t, "regex"@).unwrap()))
    } else if parse_arg_model(t, "regex_path"@) is Some {
        Ok(TyModel::RegexPath(parse_arg_model(t, "regex_path"@).unwrap()))
    } else if parse_arg_model(t, "regex_labels"@) is Some {
        Ok(TyModel::RegexLabels(parse_arg_model(t, "regex_labels"@).unwrap()))
    } else {
        Err(PatErr::BadPlaceholder(t))
    }
}

/// Parse the type token of a placeholder.
pub fn parse_type_spec(s: &str, kind: CtxKind) -> (r: Result<TypeSpec, PatternError>)
    ensures
        match r {
            Ok(ty) => parse_type_model(s@, kind) == Ok::<TyModel, PatErr>(ty.model()),
            Err(e) => parse_type_model(s@, kind) == Err::<TyModel, PatErr>(e.model()),
        },
{
    let t = trim_str(s);
    if t.unicode_len() == 0 {
        proof {
            assert(trim_model(s@) =~= Seq::<char>::empty());
        }
        return Ok(TypeSpec::Segment);
    }
    if str_eq(t, "*") {
        return Ok(
            match kind {
                CtxKind::Path => TypeSpec::Path,
                CtxKind::Host => TypeSpec::Labels,
                CtxKind::Value => TypeSpec::Any,
            },
        );
    }
    if str_eq(t, "segment") {
        return Ok(TypeSpec::Segment);
    }
    if str_eq(t, "slug") {
        return Ok(TypeSpec::Slug);
    }
    if str_eq(t, "int") {
        return Ok(TypeSpec::Int);
    }
    if str_eq(t, "hex") {
        return Ok(TypeSpec::Hex);
    }
    if str_eq(t, "alnum") {
        return Ok(TypeSpec::Alnum);
    }
    if str_eq(t, "uuid") {
        return Ok(TypeSpec::Uuid);
    }
    if str_eq(t, "path") {
        return Ok(TypeSpec::Path);
    }
    if str_eq(t, "label") {
        return Ok(TypeSpec::Label);
    }
    if str_eq(t, "labels") {
        return Ok(TypeSpec::Labels);
    }
    if str_eq(t, "any") {
        return Ok(TypeSpec::Any);
    }
    if let Some(arg) = parse_arg(t, "regex") {
        return Ok(TypeSpec::Regex(arg));
    }
    if let Some(arg) = parse_arg(t, "regex_path") {
        return Ok(TypeSpec::RegexPath(arg));
    }
    if let Some(arg) = parse_arg(t, "regex_labels") {
        return Ok(TypeSpec::RegexLabels(arg));
    }
    Err(PatternError::BadPlaceholder(t.to_owned()))
}

/// What a whole placeholder body means: optional name before the first
/// colon, type after it.
pub open spec fn parse_placeholder_model(buf: Seq<char>, kind: CtxKind) -> Result<
    (Option<Seq<char>>, TyModel),
    PatErr,
> {
    let colon: Option<int> = if exists|i: int| 0 <= i < buf.len() && buf[i] == ':' {
        Some(
            choose|i: int|
                0 <= i < buf.len() && buf[i] == ':' && forall|j: int| 0 <= j < i ==> buf[j] != ':',
        )
    } else {
        None
    };
    let lhs = match colon {
        Some(i) => buf.subrange(0, i),
        None => buf,
    };
    let name: Option<Seq<char>> = if lhs.len() == 0 {
        None
    } else {
        Some(lhs)
    };
    match colon {
        None => Ok((name, default_ty(kind))),
        Some(i) => match parse_type_model(buf.subrange(i + 1, buf.len() as int), kind) {
            Ok(ty) => Ok((name, ty)),
            Err(e) => Err(e),
        },
    }
}

/// Parse a placeholder body `name?:type?`.
pub fn parse_placeholder(buf: &str, kind: CtxKind) -> (r: Result<Placeholder, PatternError>)
    ensures
        match r {
            Ok(ph) => parse_placeholder_model(buf@, kind) == Ok::<_, PatErr>(
                (
                    match ph.name {
                        Some(n) => Some(n@),
                        None => None::<Seq<char>>,
                    },
                    ph.ty.model(),
                ),
            ),
            Err(e) => parse_placeholder_model(buf@, kind) == Err::<(Option<Seq<char>>, TyModel), _>(
                e.model(),
            ),
        },
{
    let n = buf.unicode_len();
    let colon = find_char(buf, ':');
    match colon {
        None => {
            let name: Option<String> = if n == 0 {
                None
            } else {
                Some(buf.to_owned())
            };
            Ok(Placeholder { name, ty: TypeSpec::Segment })
        },
        Some(i) => {
            let lhs = buf.substring_char(0, i);
            let rhs = buf.substring_char(i + 1, n);
            let name: Option<String> = if lhs.unicode_len() == 0 {
                None
            } else {
                Some(lhs.to_owned())
            };
            proof {
                let ci = choose|k: int|
                    0 <= k < buf@.len() && buf@[k] == ':' && forall|j: int|
                        0 <= j < k ==> buf@[j] != ':';
                assert(buf@[i as int] == ':');
                if ci != i as int {
                    if ci < i as int {
                        assert(buf@[ci] != ':');
                    } else {
                        assert(buf@[i as int] != ':');
                    }
                }
                assert(ci == i as int);
            }
            match parse_type_spec(rhs, kind) {
                Ok(ty) => Ok(Placeholder { name, ty }),
                Err(e) => Err(e),
            }
        },
    }
}

} // verus!
