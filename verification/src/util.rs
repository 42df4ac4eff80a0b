//! Joining paths, on a plain-string path model.
//!
//! A path is a string; its components are the non-empty pieces between
//! slashes other than `.`, and a path is absolute when it starts with a
//! slash.  Joining walks the second path's pieces: an absolute path
//! replaces the base outright, `..` drops the base's last component, and
//! a normal component is appended.  The result is rendered canonically,
//! with single slashes between components.

use vstd::prelude::*;

use crate::text::{spec_split, split_str, str_eq};

verus! {

/// A path is absolute when it starts with a slash.
pub open spec fn path_is_abs(s: Seq<char>) -> bool {
    s.len() > 0 && s[0] == '/'
}

/// The pieces of a split path that count as components.
pub open spec fn keep_comp(c: Seq<char>) -> bool {
    c.len() > 0 && c != "."@
}

/// The pieces that count, as a predicate value.
pub open spec fn comp_pred() -> spec_fn(Seq<char>) -> bool {
    |c: Seq<char>| keep_comp(c)
}

/// The components of a path.
pub open spec fn path_comps(s: Seq<char>) -> Seq<Seq<char>> {
    spec_split(s, '/').filter(comp_pred())
}

/// The component list after walking the pieces of the joined path: `..`
/// drops the last component, other components are appended, empty and
/// `.` pieces pass.
pub open spec fn join_comps(base: Seq<Seq<char>>, segs: Seq<Seq<char>>) -> Seq<Seq<char>>
    decreases segs.len(),
{
    if segs.len() == 0 {
        base
    } else if !keep_comp(segs[0]) {
        join_comps(base, segs.skip(1))
    } else if segs[0] == ".."@ {
        join_comps(
            if base.len() > 0 {
                base.drop_last()
            } else {
                base
            },
            segs.skip(1),
        )
    } else {
        join_comps(base.push(segs[0]), segs.skip(1))
    }
}

/// Components joined with single slashes.
pub open spec fn joined(cs: Seq<Seq<char>>) -> Seq<char>
    decreases cs.len(),
{
    if cs.len() == 0 {
        Seq::<char>::empty()
    } else if cs.len() == 1 {
        cs[0]
    } else {
        cs[0] + "/"@ + joined(cs.skip(1))
    }
}

/// The canonical text of a component list, absolute or relative.
pub open spec fn spec_render(abs: bool, cs: Seq<Seq<char>>) -> Seq<char> {
    if abs {
        "/"@ + joined(cs)
    } else {
        joined(cs)
    }
}

/// The result of joining `dir` onto `base`: an absolute `dir` replaces
/// the base, anything else reshapes the base's components.
pub open spec fn spec_join(base: Seq<char>, dir: Seq<char>) -> Seq<char> {
    if path_is_abs(dir) {
        dir
    } else {
        spec_render(path_is_abs(base), join_comps(path_comps(base), spec_split(dir, '/')))
    }
}

proof fn lemma_joined_push(cs: Seq<Seq<char>>, x: Seq<char>)
    ensures
        joined(cs.push(x)) == if cs.len() == 0 {
            x
        } else {
            joined(cs) + "/"@ + x
        },
    decreases cs.len(),
{
    let p = cs.push(x);
    if cs.len() == 0 {
        assert(p.len() == 1);
        assert(p[0] == x);
    } else {
        assert(p[0] == cs[0]);
        assert(p.skip(1) =~= cs.skip(1).push(x));
        lemma_joined_push(cs.skip(1), x);
        if cs.len() == 1 {
            assert(cs.skip(1).len() == 0);
            assert(joined(p) == cs[0] + "/"@ + x);
            assert(joined(cs) == cs[0]);
        } else {
            assert(cs[0] + "/"@ + (joined(cs.skip(1)) + "/"@ + x) =~= (cs[0] + "/"@ + joined(
                cs.skip(1),
            )) + "/"@ + x);
        }
    }
}

proof fn lemma_join_comps_push(base: Seq<Seq<char>>, segs: Seq<Seq<char>>, x: Seq<char>)
    ensures
        join_comps(base, segs.push(x)) == ({
            let b = join_comps(base, segs);
            if !keep_comp(x) {
                b
            } else if x == ".."@ {
                if b.len() > 0 {
                    b.drop_last()
                } else {
                    b
                }
            } else {
                b.push(x)
            }
        }),
    decreases segs.len(),
{
    let p = segs.push(x);
    if segs.len() == 0 {
        assert(p.skip(1) =~= Seq::<Seq<char>>::empty());
        assert(p[0] == x);
        if !keep_comp(x) {
            assert(join_comps(base, p) == join_comps(base, p.skip(1)));
            assert(join_comps(base, p.skip(1)) == base);
        } else if x == ".."@ {
            let b2 = if base.len() > 0 {
                base.drop_last()
            } else {
                base
            };
            assert(join_comps(base, p) == join_comps(b2, p.skip(1)));
            assert(join_comps(b2, p.skip(1)) == b2);
        } else {
            assert(join_comps(base, p) == join_comps(base.push(x), p.skip(1)));
            assert(join_comps(base.push(x), p.skip(1)) == base.push(x));
        }
    } else {
        assert(p[0] == segs[0]);
        assert(p.skip(1) =~= segs.skip(1).push(x));
        if !keep_comp(segs[0]) {
            lemma_join_comps_push(base, segs.skip(1), x);
        } else if segs[0] == ".."@ {
            lemma_join_comps_push(
                if base.len() > 0 {
                    base.drop_last()
                } else {
                    base
                },
                segs.skip(1),
                x,
            );
        } else {
            lemma_join_comps_push(base.push(segs[0]), segs.skip(1), x);
        }
    }
}

/// Join `dir` onto `base` in place.
pub fn join(base: &mut String, dir: &str)
    ensures
        final(base)@ == spec_join(old(base)@, dir@),
{
    let ghost base0 = base@;
    let dlen = dir.unicode_len();
    if dlen > 0 && dir.get_char(0) == '/' {
        *base = dir.to_owned();
        return ;
    }
    let blen = base.as_str().unicode_len();
    let abs = blen > 0 && base.as_str().get_char(0) == '/';
    let parts = split_str(base.as_str(), '/');
    let pn = parts.len();
    let mut comps: Vec<String> = Vec::new();
    let ghost pv = parts@.map_values(|p: String| p@);
    let mut i: usize = 0;
    proof {
        reveal(Seq::filter);
        assert(pv.take(0) =~= Seq::<Seq<char>>::empty());
        assert(comps@.map_values(|p: String| p@) =~= pv.take(0).filter(comp_pred()));
    }
    while i < pn
        invariant
            0 <= i <= pn,
            pn == parts@.len(),
            pv == parts@.map_values(|p: String| p@),
            pv == spec_split(base0, '/'),
            comps@.map_values(|p: String| p@) == pv.take(i as int).filter(comp_pred()),
        decreases pn - i,
    {
        let keep = parts[i].as_str().unicode_len() > 0 && !str_eq(parts[i].as_str(), ".");
        proof {
            reveal_strlit(".");
            reveal(Seq::filter);
            assert(pv.take(i + 1).drop_last() =~= pv.take(i as int));
            assert(pv.take(i + 1).last() == pv[i as int]);
            assert(parts@[i as int]@ == pv[i as int]);
            assert(pv.take(i + 1).filter(comp_pred()) == if comp_pred()(pv[i as int]) {
                pv.take(i as int).filter(comp_pred()).push(pv[i as int])
            } else {
                pv.take(i as int).filter(comp_pred())
            });
            assert(keep == comp_pred()(pv[i as int]));
        }
        if keep {
            let c = parts[i].clone();
            proof {
                assert((comps@.push(c)).map_values(|p: String| p@) =~= comps@.map_values(
                    |p: String| p@,
                ).push(c@));
            }
            comps.push(c);
        }
        i = i + 1;
    }
    proof {
        assert(pv.take(pn as int) =~= pv);
    }
    let segs = split_str(dir, '/');
    let sn = segs.len();
    let ghost sv = segs@.map_values(|p: String| p@);
    let ghost bcomps = path_comps(base0);
    let mut j: usize = 0;
    proof {
        assert(join_comps(bcomps, sv.take(0)) =~= bcomps);
    }
    while j < sn
        invariant
            0 <= j <= sn,
            sn == segs@.len(),
            sv == segs@.map_values(|p: String| p@),
            sv == spec_split(dir@, '/'),
            comps@.map_values(|p: String| p@) == join_comps(bcomps, sv.take(j as int)),
        decreases sn - j,
    {
        let seg = segs[j].as_str();
        proof {
            reveal_strlit(".");
            reveal_strlit("..");
            assert(sv.take(j + 1).drop_last() =~= sv.take(j as int));
            assert(sv.take(j + 1) =~= sv.take(j as int).push(sv[j as int]));
            assert(segs@[j as int]@ == sv[j as int]);
            lemma_join_comps_push(bcomps, sv.take(j as int), sv[j as int]);
        }
        if seg.unicode_len() == 0 || str_eq(seg, ".") {
            // an empty piece or `.` changes nothing
        } else if str_eq(seg, "..") {
            let ghost cv = comps@.map_values(|p: String| p@);
            let popped = comps.pop();
            proof {
                if cv.len() > 0 {
                    assert(comps@.map_values(|p: String| p@) =~= cv.drop_last());
                } else {
                    assert(comps@.map_values(|p: String| p@) =~= cv);
                }
            }
        } else {
            let c = segs[j].clone();
            proof {
                assert((comps@.push(c)).map_values(|p: String| p@) =~= comps@.map_values(
                    |p: String| p@,
                ).push(c@));
            }
            comps.push(c);
        }
        j = j + 1;
    }
    proof {
        assert(sv.take(sn as int) =~= sv);
    }
    let mut out: String = if abs {
        "/".to_owned()
    } else {
        String::new()
    };
    let cn = comps.len();
    let ghost cv = comps@.map_values(|p: String| p@);
    let mut k: usize = 0;
    proof {
        reveal_strlit("/");
        assert(out@ =~= spec_render(abs, cv.take(0)));
    }
    while k < cn
        invariant
            0 <= k <= cn,
            cn == comps@.len(),
            cv == comps@.map_values(|p: String| p@),
            out@ == spec_render(abs, cv.take(k as int)),
        decreases cn - k,
    {
        if k > 0 {
            out.append("/");
        }
        out.append(comps[k].as_str());
        proof {
            reveal_strlit("/");
            assert(cv.take(k + 1) =~= cv.take(k as int).push(cv[k as int]));
            assert(comps@[k as int]@ == cv[k as int]);
            lemma_joined_push(cv.take(k as int), cv[k as int]);
            assert(out@ =~= spec_render(abs, cv.take(k + 1)));
        }
        k = k + 1;
    }
    proof {
        assert(cv.take(cn as int) =~= cv);
        assert(path_is_abs(base0) == abs);
    }
    *base = out;
}

} // verus!
