//! Path text utilities: slash normalization and project-layout helpers.

use vstd::prelude::*;
use crate::text::{last_index_of, lemma_last_index_of, line_views, push_char, split_at_char,
    split_char};

verus! {

pub open spec fn slashed(s: Seq<char>) -> Seq<char> {
    s.map_values(|c: char| if c == '\\' {
        '/'
    } else {
        c
    })
}

/// Replaces every backslash with a forward slash.
#[verifier::loop_isolation(false)]
pub fn to_unix_string(p: &str) -> (r: String)
    ensures
        r@ == slashed(p@),
{
    let n = p.unicode_len();
    let mut out = String::new();
    let mut i: usize = 0;
    proof {
        assert(out@ =~= slashed(p@.subrange(0, 0)));
    }
    while i < n
        invariant
            n == p@.len(),
            0 <= i <= n,
            out@ == slashed(p@.subrange(0, i as int)),
        decreases n - i,
    {
        let c = p.get_char(i);
        if c == '\\' {
            push_char(&mut out, '/');
        } else {
            push_char(&mut out, c);
        }
        proof {
            assert(slashed(p@.subrange(0, i + 1)) =~= slashed(p@.subrange(0, i as int)).push(
                if p@[i as int] == '\\' {
                    '/'
                } else {
                    p@[i as int]
                },
            ));
        }
        i = i + 1;
    }
    proof {
        assert(p@.subrange(0, n as int) =~= p@);
    }
    out
}

/// Directory names that never take part in discovery or submission.
pub fn is_ignored_component(name: &str) -> (r: bool)
    ensures
        r == (name@ == "node_modules"@ || name@ == ".git"@ || name@ == "target"@ || name@
            == "dist"@ || name@ == "build"@ || name@ == "out"@),
{
    let s = name.to_owned();
    s == String::from_str("node_modules") || s == String::from_str(".git") || s == String::from_str(
        "target",
    ) || s == String::from_str("dist") || s == String::from_str("build") || s == String::from_str(
        "out",
    )
}

/// The path components kept by normalization: non-empty and not `.`.
pub open spec fn kept_segs(parts: Seq<Seq<char>>) -> Seq<Seq<char>>
    decreases parts.len(),
{
    if parts.len() == 0 {
        Seq::empty()
    } else {
        (if parts[0].len() > 0 && parts[0] != seq!['.'] {
            seq![parts[0]]
        } else {
            Seq::<Seq<char>>::empty()
        }) + kept_segs(parts.drop_first())
    }
}

/// Segments joined with `/`.
pub open spec fn join_slash(parts: Seq<Seq<char>>) -> Seq<char>
    decreases parts.len(),
{
    if parts.len() == 0 {
        Seq::empty()
    } else if parts.len() == 1 {
        parts[0]
    } else {
        parts[0] + seq!['/'] + join_slash(parts.drop_first())
    }
}

pub proof fn lemma_join_slash_push(parts: Seq<Seq<char>>, x: Seq<char>)
    ensures
        parts.len() == 0 ==> join_slash(parts.push(x)) == x,
        parts.len() > 0 ==> join_slash(parts.push(x)) == join_slash(parts) + seq!['/'] + x,
    decreases parts.len(),
{
    if parts.len() == 0 {
        assert(parts.push(x)[0] == x);
    } else if parts.len() == 1 {
        assert(parts.push(x).drop_first() =~= seq![x]);
        assert(join_slash(seq![x]) == x);
        assert(parts.push(x)[0] == parts[0]);
    } else {
        assert(parts.push(x).drop_first() =~= parts.drop_first().push(x));
        lemma_join_slash_push(parts.drop_first(), x);
        assert((parts[0] + seq!['/'] + (join_slash(parts.drop_first()) + seq!['/'] + x)) =~= (
        parts[0] + seq!['/'] + join_slash(parts.drop_first())) + seq!['/'] + x);
    }
}

/// The normalized form of a slash path: redundant separators and inner
/// `.` segments removed, a leading root or `./` kept, backslashes turned
/// into slashes.
pub open spec fn norm_of(s: Seq<char>) -> Seq<char> {
    let t = slashed(s);
    let parts = split_at_char(t, '/');
    let kept = kept_segs(parts);
    if t.len() > 0 && t[0] == '/' {
        seq!['/'] + join_slash(kept)
    } else if parts[0] == seq!['.'] {
        if kept.len() == 0 {
            seq!['.']
        } else {
            seq!['.', '/'] + join_slash(kept)
        }
    } else {
        join_slash(kept)
    }
}

/// Normalizes a path to forward slashes without redundant components.
#[verifier::loop_isolation(false)]
pub fn normalize_path(path: &str) -> (r: String)
    ensures
        r@ == norm_of(path@),
{
    let t = to_unix_string(path);
    let parts = split_char(t.as_str(), '/');
    let ghost pv = line_views(parts@);
    let pn = parts.len();
    proof {
        crate::text::lemma_split_len(t@, '/');
    }
    let mut kept: Vec<String> = Vec::new();
    let mut i: usize = 0;
    proof {
        assert(pv.skip(0) =~= pv);
        assert(line_views(kept@) =~= Seq::<Seq<char>>::empty());
        assert(Seq::<Seq<char>>::empty() + kept_segs(pv) =~= kept_segs(pv));
        reveal_strlit(".");
        assert("."@ =~= seq!['.']);
    }
    while i < pn
        invariant
            pn == pv.len(),
            0 <= i <= pn,
            kept_segs(pv) == line_views(kept@) + kept_segs(pv.skip(i as int)),
        decreases pn - i,
    {
        proof {
            assert(pv.skip(i as int)[0] == pv[i as int]);
            assert(pv.skip(i as int).drop_first() =~= pv.skip(i + 1));
        }
        let dot = String::from_str(".");
        if parts[i].unicode_len() > 0 && !(parts[i] == dot) {
            let ghost prev = line_views(kept@);
            let piece = parts[i].clone();
            kept.push(piece);
            proof {
                assert(line_views(kept@) =~= prev.push(pv[i as int]));
                assert(prev + (seq![pv[i as int]] + kept_segs(pv.skip(i + 1))) =~= line_views(
                    kept@,
                ) + kept_segs(pv.skip(i + 1)));
            }
        } else {
            proof {
                assert(line_views(kept@) + (Seq::<Seq<char>>::empty() + kept_segs(pv.skip(i + 1)))
                    =~= line_views(kept@) + kept_segs(pv.skip(i + 1)));
            }
        }
        i = i + 1;
    }
    proof {
        assert(kept_segs(pv.skip(pn as int)) =~= Seq::<Seq<char>>::empty());
        assert(line_views(kept@) + Seq::<Seq<char>>::empty() =~= line_views(kept@));
    }
    // join the kept segments
    let kn = kept.len();
    let mut body = String::new();
    let mut j: usize = 0;
    proof {
        assert(body@ =~= join_slash(line_views(kept@).take(0)));
    }
    while j < kn
        invariant
            kn == kept@.len(),
            0 <= j <= kn,
            body@ == join_slash(line_views(kept@).take(j as int)),
        decreases kn - j,
    {
        if j > 0 {
            body.append("/");
            proof {
                reveal_strlit("/");
            }
        }
        body.append(kept[j].as_str());
        proof {
            let pre = line_views(kept@).take(j as int);
            lemma_join_slash_push(pre, kept@[j as int]@);
            assert(line_views(kept@).take(j + 1) =~= pre.push(kept@[j as int]@));
        }
        j = j + 1;
    }
    proof {
        assert(line_views(kept@).take(kn as int) =~= line_views(kept@));
    }
    let tn = t.unicode_len();
    if tn > 0 && t.as_str().get_char(0) == '/' {
        let mut out = String::from_str("/");
        out.append(body.as_str());
        proof {
            reveal_strlit("/");
            assert(out@ =~= seq!['/'] + body@);
        }
        out
    } else {
        let dot = String::from_str(".");
        let first_dot = parts[0] == dot;
        if first_dot {
            if kn == 0 {
                proof {
                    assert(dot@ == seq!['.']);
                }
                dot
            } else {
                let mut out = String::from_str("./");
                out.append(body.as_str());
                proof {
                    reveal_strlit("./");
                    assert(out@ =~= seq!['.', '/'] + body@);
                }
                out
            }
        } else {
            body
        }
    }
}

/// The directory part of a slash path: the text before its last slash, a
/// bare `/` for a top-level absolute path, or nothing.
pub open spec fn parent_of(s: Seq<char>) -> Seq<char> {
    let k = last_index_of(s, '/');
    if k < 0 {
        Seq::empty()
    } else if k == 0 {
        seq!['/']
    } else {
        s.subrange(0, k)
    }
}

/// Resolves a relative import against a base path and normalizes the
/// result; an absolute import stands alone.
pub fn resolve_relative_path(base: &str, import: &str) -> (r: String)
    ensures
        r@ == norm_of(
            if import@.len() > 0 && import@[0] == '/' {
                import@
            } else if parent_of(base@).len() == 0 {
                import@
            } else {
                parent_of(base@) + seq!['/'] + import@
            },
        ),
{
    let bs = base.to_owned();
    let cut = crate::text::rfind_char(&bs, '/');
    proof {
        lemma_last_index_of(bs@, '/');
    }
    let inn = import.unicode_len();
    if inn > 0 && import.get_char(0) == '/' {
        return normalize_path(import);
    }
    if cut == 0 {
        return normalize_path(import);
    }
    let mut joined = if cut == 1 {
        let s = String::from_str("/");
        proof {
            reveal_strlit("/");
            assert(s@ =~= parent_of(bs@));
        }
        s
    } else {
        let s = bs.as_str().substring_char(0, cut - 1).to_owned();
        proof {
            assert(s@ =~= parent_of(bs@));
        }
        s
    };
    joined.append("/");
    joined.append(import);
    proof {
        reveal_strlit("/");
        assert(joined@ =~= parent_of(bs@) + seq!['/'] + import@);
    }
    normalize_path(joined.as_str())
}

/// The slash-separated components of a path: empty segments collapse,
/// other segments — including `.` — stand as written.
pub open spec fn nonempty_segs(parts: Seq<Seq<char>>) -> Seq<Seq<char>>
    decreases parts.len(),
{
    if parts.len() == 0 {
        Seq::empty()
    } else {
        (if parts[0].len() > 0 {
            seq![parts[0]]
        } else {
            Seq::<Seq<char>>::empty()
        }) + nonempty_segs(parts.drop_first())
    }
}

pub open spec fn path_segs(s: Seq<char>) -> Seq<Seq<char>> {
    nonempty_segs(split_at_char(s, '/'))
}

/// Splits a path into its non-empty slash components.
#[verifier::loop_isolation(false)]
fn segs_exec(p: &str) -> (r: Vec<String>)
    ensures
        line_views(r@) == path_segs(p@),
{
    let parts = split_char(p, '/');
    let ghost pv = line_views(parts@);
    let n = parts.len();
    let mut out: Vec<String> = Vec::new();
    let mut i: usize = 0;
    proof {
        assert(pv.skip(0) =~= pv);
        assert(line_views(out@) =~= Seq::<Seq<char>>::empty());
        assert(Seq::<Seq<char>>::empty() + nonempty_segs(pv) =~= nonempty_segs(pv));
    }
    while i < n
        invariant
            n == pv.len(),
            0 <= i <= n,
            nonempty_segs(pv) == line_views(out@) + nonempty_segs(pv.skip(i as int)),
        decreases n - i,
    {
        proof {
            assert(pv.skip(i as int)[0] == pv[i as int]);
            assert(pv.skip(i as int).drop_first() =~= pv.skip(i + 1));
        }
        if parts[i].unicode_len() > 0 {
            let ghost prev = line_views(out@);
            out.push(parts[i].clone());
            proof {
                assert(line_views(out@) =~= prev.push(pv[i as int]));
                assert(prev + (seq![pv[i as int]] + nonempty_segs(pv.skip(i + 1))) =~= line_views(
                    out@,
                ) + nonempty_segs(pv.skip(i + 1)));
            }
        } else {
            proof {
                assert(line_views(out@) + (Seq::<Seq<char>>::empty() + nonempty_segs(
                    pv.skip(i + 1),
                )) =~= line_views(out@) + nonempty_segs(pv.skip(i + 1)));
            }
        }
        i = i + 1;
    }
    proof {
        assert(nonempty_segs(pv.skip(n as int)) =~= Seq::<Seq<char>>::empty());
        assert(line_views(out@) + Seq::<Seq<char>>::empty() =~= line_views(out@));
    }
    out
}

/// Joins the components from position `from` with slashes.
#[verifier::loop_isolation(false)]
fn join_segs_from(v: &Vec<String>, from: usize) -> (r: String)
    requires
        from <= v@.len(),
    ensures
        r@ == join_slash(line_views(v@).skip(from as int)),
{
    let ghost tailv = line_views(v@).skip(from as int);
    let n = v.len();
    let mut out = String::new();
    let mut j: usize = from;
    proof {
        assert(tailv.take(0) =~= Seq::<Seq<char>>::empty());
    }
    while j < n
        invariant
            n == v@.len(),
            from <= j <= n,
            tailv == line_views(v@).skip(from as int),
            out@ == join_slash(tailv.take(j - from)),
        decreases n - j,
    {
        if j > from {
            out.append("/");
            proof {
                reveal_strlit("/");
            }
        }
        out.append(v[j].as_str());
        proof {
            let pre = tailv.take(j - from);
            lemma_join_slash_push(pre, v@[j as int]@);
            assert(tailv[j - from] == v@[j as int]@);
            assert(tailv.take(j + 1 - from) =~= pre.push(v@[j as int]@));
        }
        j = j + 1;
    }
    proof {
        assert(tailv.take(n - from) =~= tailv);
    }
    out
}

/// The relative form of a path under a base directory, as component-wise
/// prefix removal: when every component of the base matches the path's
/// components in order, the remaining components joined with slashes —
/// empty for equal paths — and nothing otherwise.  Empty segments from
/// doubled or trailing separators do not count as components.
#[verifier::loop_isolation(false)]
pub fn path_relative_to(path: &str, base: &str) -> (r: Option<String>)
    ensures
        match r {
            Some(rel) => path_segs(base@).is_prefix_of(path_segs(path@)) && rel@ == join_slash(
                path_segs(path@).skip(path_segs(base@).len() as int),
            ),
            None => !path_segs(base@).is_prefix_of(path_segs(path@)),
        },
{
    let psegs = segs_exec(path);
    let bsegs = segs_exec(base);
    let pn = psegs.len();
    let bn = bsegs.len();
    if bn > pn {
        return None;
    }
    let mut k: usize = 0;
    while k < bn
        invariant
            pn == path_segs(path@).len(),
            bn == path_segs(base@).len(),
            line_views(psegs@) == path_segs(path@),
            line_views(bsegs@) == path_segs(base@),
            bn <= pn,
            0 <= k <= bn,
            forall|j: int| 0 <= j < k ==> path_segs(base@)[j] == path_segs(path@)[j],
        decreases bn - k,
    {
        if !(psegs[k] == bsegs[k]) {
            proof {
                assert(path_segs(base@)[k as int] != path_segs(path@)[k as int]);
                assert(!path_segs(base@).is_prefix_of(path_segs(path@))) by {
                    if path_segs(base@).is_prefix_of(path_segs(path@)) {
                        assert(path_segs(base@)[k as int] == path_segs(path@).subrange(
                            0,
                            bn as int,
                        )[k as int]);
                    }
                }
            }
            return None;
        }
        k = k + 1;
    }
    proof {
        assert(path_segs(base@) =~= path_segs(path@).subrange(0, bn as int));
    }
    Some(join_segs_from(&psegs, bn))
}

} // verus!
