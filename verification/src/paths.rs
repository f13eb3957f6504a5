//! Lexical path handling: joining an import path onto its base
//! directory and normalizing the result.  The canonical form of a path
//! is purely textual — `.` and empty segments vanish, `..` pops — so
//! the same file spelled the same way always gets the same key.

use vstd::prelude::*;

use crate::strutil::{split_char, split_on, str_eq};

verus! {

/// One normalization step: how a segment changes the segment stack.
pub open spec fn seg_step(acc: Seq<Seq<char>>, seg: Seq<char>, absolute: bool) -> Seq<Seq<char>> {
    if seg.len() == 0 || seg == "."@ {
        acc
    } else if seg == ".."@ {
        if acc.len() > 0 && acc.last() != ".."@ {
            acc.drop_last()
        } else if absolute {
            acc
        } else {
            acc.push(seg)
        }
    } else {
        acc.push(seg)
    }
}

/// The normalized segment stack of a segment list.
pub open spec fn norm_segs(segs: Seq<Seq<char>>, absolute: bool) -> Seq<Seq<char>>
    decreases segs.len(),
{
    if segs.len() == 0 {
        Seq::empty()
    } else {
        seg_step(norm_segs(segs.drop_last(), absolute), segs.last(), absolute)
    }
}

/// Segments joined with slashes.
pub open spec fn join_segs(segs: Seq<Seq<char>>) -> Seq<char>
    decreases segs.len(),
{
    if segs.len() == 0 {
        Seq::empty()
    } else if segs.len() == 1 {
        segs.last()
    } else {
        join_segs(segs.drop_last()) + "/"@ + segs.last()
    }
}

/// Normalized segment stacks never hold empty segments.
proof fn lemma_norm_segs_nonempty(segs: Seq<Seq<char>>, absolute: bool)
    ensures
        forall|i: int|
            0 <= i < norm_segs(segs, absolute).len() ==> #[trigger] norm_segs(
                segs,
                absolute,
            )[i].len() > 0,
    decreases segs.len(),
{
    reveal_strlit(".");
    reveal_strlit("..");
    if segs.len() > 0 {
        lemma_norm_segs_nonempty(segs.drop_last(), absolute);
        let prev = norm_segs(segs.drop_last(), absolute);
        let cur = norm_segs(segs, absolute);
        assert forall|i: int| 0 <= i < cur.len() implies #[trigger] cur[i].len() > 0 by {
            if segs.last().len() == 0 || segs.last() == "."@ {
            } else if segs.last() == ".."@ {
                if prev.len() > 0 && prev.last() != ".."@ {
                } else if absolute {
                } else {
                    if i < prev.len() {
                    } else {
                        assert(cur[i] == ".."@);
                    }
                }
            } else {
                if i < prev.len() {
                } else {
                    assert(cur[i] == segs.last());
                }
            }
        }
    }
}

/// Joining a non-empty stack of non-empty segments is non-empty.
proof fn lemma_join_segs_nonempty(segs: Seq<Seq<char>>)
    requires
        segs.len() > 0,
        forall|i: int| 0 <= i < segs.len() ==> #[trigger] segs[i].len() > 0,
    ensures
        join_segs(segs).len() > 0,
    decreases segs.len(),
{
    if segs.len() > 1 {
        assert(segs.last().len() > 0);
    } else {
        assert(join_segs(segs) == segs.last());
        assert(segs.last() == segs[0]);
    }
}

/// The canonical form of a path.
pub open spec fn canon_model(p: Seq<char>) -> Seq<char> {
    let absolute = p.len() > 0 && p.first() == '/';
    let body = join_segs(norm_segs(split_on(p, '/'), absolute));
    if absolute {
        "/"@ + body
    } else if body.len() == 0 {
        "."@
    } else {
        body
    }
}

/// Normalize a path textually: drop `.` and empty segments, resolve
/// `..` against the stack (keeping it only where nothing is left to
/// pop on a relative path), and rejoin.
pub fn canonicalize(p: &str) -> (r: String)
    ensures
        r@ == canon_model(p@),
{
    let n = p.unicode_len();
    let absolute = n > 0 && p.get_char(0) == '/';
    let segs = split_char(p, '/');
    let mut stack: Vec<String> = Vec::new();
    let mut i: usize = 0;
    proof {
        assert(segs.deep_view().take(0) =~= Seq::<Seq<char>>::empty());
        assert(stack.deep_view() =~= norm_segs(segs.deep_view().take(0), absolute));
    }
    while i < segs.len()
        invariant
            i <= segs@.len(),
            segs.deep_view().len() == segs@.len(),
            stack.deep_view() == norm_segs(segs.deep_view().take(i as int), absolute),
        decreases segs@.len() - i,
    {
        let ghost st0 = stack.deep_view();
        let ghost gseg = segs.deep_view()[i as int];
        proof {
            let t = segs.deep_view().take(i as int + 1);
            assert(t.drop_last() =~= segs.deep_view().take(i as int));
            assert(t.last() == gseg);
        }
        let seg = &segs[i];
        let sn = seg.unicode_len();
        if sn == 0 || str_eq(seg.as_str(), ".") {
        } else if str_eq(seg.as_str(), "..") {
            let top_is_dots = if stack.len() > 0 {
                str_eq(stack[stack.len() - 1].as_str(), "..")
            } else {
                false
            };
            if stack.len() > 0 && !top_is_dots {
                stack.pop();
                proof {
                    assert(stack.deep_view() =~= st0.drop_last());
                }
            } else if absolute {
            } else {
                stack.push(seg.clone());
                proof {
                    assert(stack.deep_view() =~= st0.push(gseg));
                }
            }
        } else {
            stack.push(seg.clone());
            proof {
                assert(stack.deep_view() =~= st0.push(gseg));
            }
        }
        proof {
            if stack@.len() > 0 {
                assert(stack.deep_view().last() == stack@[stack@.len() - 1]@);
            }
        }
        i += 1;
    }
    proof {
        assert(segs.deep_view().take(segs.deep_view().len() as int) =~= segs.deep_view());
    }
    let mut out = String::new();
    if absolute {
        out.append("/");
    }
    let ghost sv = stack.deep_view();
    let mut j: usize = 0;
    proof {
        assert(sv.take(0) =~= Seq::<Seq<char>>::empty());
        if absolute {
            reveal_strlit("/");
            assert(out@ =~= "/"@ + join_segs(sv.take(0)));
        } else {
            assert(out@ =~= join_segs(sv.take(0)));
        }
    }
    while j < stack.len()
        invariant
            j <= stack@.len(),
            sv == stack.deep_view(),
            sv.len() == stack@.len(),
            absolute ==> out@ == "/"@ + join_segs(sv.take(j as int)),
            !absolute ==> out@ == join_segs(sv.take(j as int)),
        decreases stack@.len() - j,
    {
        if j > 0 {
            out.append("/");
        }
        out.append(stack[j].as_str());
        proof {
            let t = sv.take(j as int + 1);
            assert(t.drop_last() =~= sv.take(j as int));
            assert(t.last() == sv[j as int]);
            if j == 0 {
                assert(join_segs(t) == sv[0]);
            }
        }
        j += 1;
    }
    proof {
        assert(sv.take(sv.len() as int) =~= sv);
    }
    if !absolute && stack.len() == 0 {
        let dot = (".").to_owned();
        proof {
            assert(canon_model(p@) == "."@);
        }
        return dot;
    }
    proof {
        if !absolute {
            lemma_norm_segs_nonempty(segs.deep_view(), absolute);
            lemma_join_segs_nonempty(sv);
        }
    }
    out
}

/// An import reference joined onto its base directory: an absolute
/// reference stands alone, a relative one is appended.
pub open spec fn join_model(base: Seq<char>, rel: Seq<char>) -> Seq<char> {
    if rel.len() > 0 && rel.first() == '/' {
        rel
    } else {
        base + "/"@ + rel
    }
}

/// Join an import reference onto its base directory.
pub fn join_path(base: &str, rel: &str) -> (r: String)
    ensures
        r@ == join_model(base@, rel@),
{
    let rn = rel.unicode_len();
    if rn > 0 && rel.get_char(0) == '/' {
        rel.to_owned()
    } else {
        let mut out = base.to_owned();
        out.append("/");
        out.append(rel);
        out
    }
}

} // verus!
