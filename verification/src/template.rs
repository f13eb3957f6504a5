//! The interpolation-template language: literal text with `{variable}`
//! references, compiled once and rendered per request against a
//! `RouterCtx`.  A backslash escapes the next character; a missing
//! variable renders as the empty string, a fixed policy rewrite
//! operations can rely on.

use vstd::prelude::*;

use crate::router_ctx::{value_model, value_of, CtxModel, RouterCtx};
use crate::strutil::{find_first, lemma_find_first};

verus! {

/// Why a template failed to compile.
#[derive(Debug, Clone, Copy, PartialEq, Eq, Structural)]
pub enum TemplateError {
    /// A `{` was never closed.
    Unclosed,
    /// A `{}` with nothing inside.
    EmptyVar,
}

/// One compiled piece: literal text or a variable reference.
#[derive(Debug)]
pub enum TplPart {
    Lit(String),
    Var(String),
}

/// Mathematical image of a `TplPart`.
pub enum TplPartModel {
    Lit(Seq<char>),
    Var(Seq<char>),
}

pub open spec fn part_model(p: TplPart) -> TplPartModel {
    match p {
        TplPart::Lit(s) => TplPartModel::Lit(s@),
        TplPart::Var(s) => TplPartModel::Var(s@),
    }
}

/// A compiled interpolation template.
#[derive(Debug)]
pub struct CompiledTemplate {
    pub parts: Vec<TplPart>,
    /// The template text as written in the configuration.
    pub raw: String,
}

impl CompiledTemplate {
    pub open spec fn model(&self) -> Seq<TplPartModel> {
        Seq::new(self.parts@.len(), |i: int| part_model(self.parts@[i]))
    }
}

/// The parts the template text denotes from position `i` on: each
/// escaped or plain character a literal, each `{name}` a variable.
pub open spec fn tpl_at(s: Seq<char>, i: int) -> Result<Seq<TplPartModel>, TemplateError>
    decreases s.len() - i,
    when 0 <= i <= s.len()
    via tpl_at_dec
{
    if i >= s.len() {
        Ok(Seq::empty())
    } else if s[i] == '\\' {
        if i + 1 >= s.len() {
            Ok(Seq::empty())
        } else {
            match tpl_at(s, i + 2) {
                Ok(rest) => Ok(seq![TplPartModel::Lit(seq![s[i + 1]])] + rest),
                Err(e) => Err(e),
            }
        }
    } else if s[i] == '{' {
        match find_first(s.skip(i + 1), '}') {
            None => Err(TemplateError::Unclosed),
            Some(d) => {
                if d == 0 {
                    Err(TemplateError::EmptyVar)
                } else {
                    match tpl_at(s, i + 1 + d + 1) {
                        Ok(rest) => Ok(
                            seq![TplPartModel::Var(s.subrange(i + 1, i + 1 + d))] + rest,
                        ),
                        Err(e) => Err(e),
                    }
                }
            },
        }
    } else {
        match tpl_at(s, i + 1) {
            Ok(rest) => Ok(seq![TplPartModel::Lit(seq![s[i]])] + rest),
            Err(e) => Err(e),
        }
    }
}

#[via_fn]
proof fn tpl_at_dec(s: Seq<char>, i: int) {
    if 0 <= i < s.len() && s[i] != '\\' && s[i] == '{' {
        lemma_find_first(s.skip(i + 1), '}');
    }
}

/// What a part list renders to: literals as themselves, variables by
/// lookup, absent variables as nothing.
pub open spec fn render_parts(parts: Seq<TplPartModel>, m: CtxModel) -> Seq<char>
    decreases parts.len(),
{
    if parts.len() == 0 {
        Seq::empty()
    } else {
        render_parts(parts.drop_last(), m) + match parts.last() {
            TplPartModel::Lit(l) => l,
            TplPartModel::Var(v) => match value_model(m, v) {
                Some(x) => x,
                None => Seq::empty(),
            },
        }
    }
}

/// Compile the template text from position `i` on, appending the
/// parts: exactly the value of `tpl_at`.
fn tpl_from(input: &str, i: usize, parts: &mut Vec<TplPart>) -> (r: Result<(), TemplateError>)
    requires
        i <= input@.len(),
    ensures
        match r {
            Ok(_) => tpl_at(input@, i as int) matches Ok(ps) && final(parts)@.len() == old(
                parts,
            )@.len() + ps.len() && parts_deep_model(final(parts)@) == parts_deep_model(old(parts)@) + ps,
            Err(e) => tpl_at(input@, i as int) == Err::<Seq<TplPartModel>, _>(e),
        },
    decreases input@.len() - i,
{
    let n = input.unicode_len();
    if i >= n {
        proof {
            assert(parts_deep_model(parts@) + Seq::<TplPartModel>::empty() =~= parts_deep_model(parts@));
        }
        return Ok(());
    }
    let c = input.get_char(i);
    if c == '\\' {
        if i + 1 >= n {
            proof {
                assert(parts_deep_model(parts@) + Seq::<TplPartModel>::empty() =~= parts_deep_model(parts@));
            }
            return Ok(());
        }
        let ghost before = parts_deep_model(parts@);
        let piece = input.substring_char(i + 1, i + 2);
        parts.push(TplPart::Lit(piece.to_owned()));
        proof {
            assert(piece@ =~= seq![input@[i as int + 1]]);
            assert(parts_deep_model(parts@) =~= before + seq![
                TplPartModel::Lit(seq![input@[i as int + 1]]),
            ]);
        }
        let r = tpl_from(input, i + 2, parts);
        proof {
            if r is Ok {
                let rest = tpl_at(input@, i as int + 2)->Ok_0;
                assert(before + (seq![TplPartModel::Lit(seq![input@[i as int + 1]])] + rest)
                    =~= (before + seq![TplPartModel::Lit(seq![input@[i as int + 1]])]) + rest);
            }
        }
        r
    } else if c == '{' {
        let ghost rem = input@.skip(i as int + 1);
        let mut j: usize = i + 1;
        while j < n && input.get_char(j) != '}'
            invariant
                i + 1 <= j <= n,
                n == input@.len(),
                forall|t: int| i + 1 <= t < j ==> input@[t] != '}',
            decreases n - j,
        {
            j += 1;
        }
        proof {
            lemma_find_first(rem, '}');
            assert forall|t: int| 0 <= t < j - (i + 1) implies rem[t] != '}' by {
                assert(rem[t] == input@[i + 1 + t]);
            }
        }
        if j >= n {
            proof {
                match find_first(rem, '}') {
                    Some(x) => {
                        assert(rem[x] == input@[i + 1 + x]);
                        assert(false);
                    },
                    None => {},
                }
            }
            return Err(TemplateError::Unclosed);
        }
        proof {
            assert(rem[j - (i + 1) as int] == input@[j as int]);
            match find_first(rem, '}') {
                None => {
                    assert(false);
                },
                Some(x) => {
                    if x < j - (i + 1) as int {
                        assert(rem[x] != '}');
                    }
                    if x > j - (i + 1) as int {
                        assert(rem[j - (i + 1) as int] != '}');
                    }
                    assert(x == j - (i + 1) as int);
                },
            }
        }
        if j == i + 1 {
            return Err(TemplateError::EmptyVar);
        }
        let ghost before = parts_deep_model(parts@);
        let name = input.substring_char(i + 1, j);
        parts.push(TplPart::Var(name.to_owned()));
        proof {
            assert(parts_deep_model(parts@) =~= before + seq![
                TplPartModel::Var(input@.subrange(i as int + 1, j as int)),
            ]);
        }
        let r = tpl_from(input, j + 1, parts);
        proof {
            if r is Ok {
                let rest = tpl_at(input@, j as int + 1)->Ok_0;
                let var = seq![TplPartModel::Var(input@.subrange(i as int + 1, j as int))];
                assert(before + (var + rest) =~= (before + var) + rest);
            }
        }
        r
    } else {
        let ghost before = parts_deep_model(parts@);
        let piece = input.substring_char(i, i + 1);
        parts.push(TplPart::Lit(piece.to_owned()));
        proof {
            assert(piece@ =~= seq![input@[i as int]]);
            assert(parts_deep_model(parts@) =~= before + seq![
                TplPartModel::Lit(seq![input@[i as int]]),
            ]);
        }
        let r = tpl_from(input, i + 1, parts);
        proof {
            if r is Ok {
                let rest = tpl_at(input@, i as int + 1)->Ok_0;
                assert(before + (seq![TplPartModel::Lit(seq![input@[i as int]])] + rest)
                    =~= (before + seq![TplPartModel::Lit(seq![input@[i as int]])]) + rest);
            }
        }
        r
    }
}

/// The model of a part vector.
pub open spec fn parts_deep_model(parts: Seq<TplPart>) -> Seq<TplPartModel> {
    Seq::new(parts.len(), |i: int| part_model(parts[i]))
}

/// Compile an interpolation template: `Ok` exactly when every brace
/// is closed and no variable reference is empty.
pub fn compile_template(input: &str) -> (r: Result<CompiledTemplate, TemplateError>)
    ensures
        match r {
            Ok(t) => tpl_at(input@, 0) == Ok::<_, TemplateError>(t.model()) && t.raw@ == input@,
            Err(e) => tpl_at(input@, 0) == Err::<Seq<TplPartModel>, _>(e),
        },
{
    let mut parts: Vec<TplPart> = Vec::new();
    proof {
        assert(parts_deep_model(parts@) =~= Seq::<TplPartModel>::empty());
    }
    match tpl_from(input, 0, &mut parts) {
        Ok(_) => {
            let t = CompiledTemplate { parts, raw: input.to_owned() };
            proof {
                let ps = tpl_at(input@, 0)->Ok_0;
                assert(t.model() =~= Seq::<TplPartModel>::empty() + ps);
                assert(Seq::<TplPartModel>::empty() + ps =~= ps);
            }
            Ok(t)
        },
        Err(e) => Err(e),
    }
}

/// Render a compiled template against the request context.
pub fn expand_template(t: &CompiledTemplate, ctx: &RouterCtx) -> (r: String)
    ensures
        r@ == render_parts(t.model(), ctx.model()),
{
    let mut out = String::new();
    let mut i: usize = 0;
    proof {
        assert(t.model().take(0) =~= Seq::<TplPartModel>::empty());
    }
    while i < t.parts.len()
        invariant
            i <= t.parts@.len(),
            out@ == render_parts(t.model().take(i as int), ctx.model()),
        decreases t.parts@.len() - i,
    {
        proof {
            let tk = t.model().take(i as int + 1);
            assert(tk.drop_last() =~= t.model().take(i as int));
            assert(tk.last() == t.model()[i as int]);
        }
        match &t.parts[i] {
            TplPart::Lit(l) => {
                out.append(l.as_str());
            },
            TplPart::Var(v) => {
                match value_of(ctx, v.as_str()) {
                    Some(x) => {
                        out.append(x.as_str());
                    },
                    None => {
                        proof {
                            assert(out@ + Seq::<char>::empty() =~= out@);
                        }
                    },
                }
            },
        }
        i += 1;
    }
    proof {
        assert(t.model().take(t.parts@.len() as int) =~= t.model());
    }
    out
}

} // verus!
