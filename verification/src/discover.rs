//! Asset discovery and deterministic name disambiguation.
//!
//! A bank's triggers are discovered from the relative paths of its audio
//! files: files with a known audio extension become candidate triggers
//! named after their stem, sorted by path.  Merging against an existing
//! manifest reuses each path's curated name and assigns every new path a
//! name that collides with no other, preferring directory prefixes over
//! numeric suffixes.

use vstd::prelude::*;
use crate::semver::{ascii_lower, dec_of, lower_token, u64_to_dec};
use crate::text::{last_index_of, lemma_last_index_of, line_views, rfind_char, split_at_char,
    split_char};

verus! {

/// One trigger: the name exposed to the scripting language and the asset
/// path it refers to, relative to the asset root and prefixed `./`.
pub struct TriggerEntry {
    pub name: String,
    pub path: String,
}

impl Clone for TriggerEntry {
    fn clone(&self) -> (r: Self)
        ensures
            r.name@ == self.name@ && r.path@ == self.path@,
    {
        TriggerEntry { name: self.name.clone(), path: self.path.clone() }
    }
}

/// View of a trigger vector as (name, path) character-sequence pairs.
pub open spec fn trig_views(s: Seq<TriggerEntry>) -> Seq<(Seq<char>, Seq<char>)> {
    s.map_values(|t: TriggerEntry| (t.name@, t.path@))
}

/// The last path component.
pub open spec fn filename_of(p: Seq<char>) -> Seq<char> {
    p.subrange(last_index_of(p, '/') + 1, p.len() as int)
}

/// The extension of a file name: what follows its last dot, when that dot
/// is neither first nor absent.
pub open spec fn ext_of(name: Seq<char>) -> Option<Seq<char>> {
    let d = last_index_of(name, '.');
    if d > 0 {
        Some(name.subrange(d + 1, name.len() as int))
    } else {
        None
    }
}

/// The stem of a file name: what precedes its last dot, or the whole name.
pub open spec fn stem_of(name: Seq<char>) -> Seq<char> {
    let d = last_index_of(name, '.');
    if d > 0 {
        name.subrange(0, d)
    } else {
        name
    }
}

pub open spec fn wav_ext() -> Seq<char> {
    seq!['w', 'a', 'v']
}

pub open spec fn mp3_ext() -> Seq<char> {
    seq!['m', 'p', '3']
}

pub open spec fn ogg_ext() -> Seq<char> {
    seq!['o', 'g', 'g']
}

pub open spec fn aif_ext() -> Seq<char> {
    seq!['a', 'i', 'f']
}

pub open spec fn aiff_ext() -> Seq<char> {
    seq!['a', 'i', 'f', 'f']
}

pub open spec fn flac_ext() -> Seq<char> {
    seq!['f', 'l', 'a', 'c']
}

/// Whether a relative path names an audio asset: its extension, compared
/// case-insensitively, is one of the supported audio formats.
pub open spec fn is_audio_path(p: Seq<char>) -> bool {
    match ext_of(filename_of(p)) {
        Some(e) => {
            let le = ascii_lower(e);
            le == wav_ext() || le == mp3_ext() || le == ogg_ext() || le == aif_ext() || le
                == aiff_ext() || le == flac_ext()
        },
        None => false,
    }
}

/// The candidate trigger of an audio path: its stem and `./` + path.
pub open spec fn trigger_of(p: Seq<char>) -> (Seq<char>, Seq<char>) {
    (stem_of(filename_of(p)), seq!['.', '/'] + p)
}

/// The candidate triggers of a path list, in input order.
pub open spec fn candidates_of(paths: Seq<Seq<char>>) -> Seq<(Seq<char>, Seq<char>)>
    decreases paths.len(),
{
    if paths.len() == 0 {
        Seq::empty()
    } else {
        (if is_audio_path(paths[0]) {
            seq![trigger_of(paths[0])]
        } else {
            Seq::<(Seq<char>, Seq<char>)>::empty()
        }) + candidates_of(paths.drop_first())
    }
}

/// Strict lexicographic order on character sequences, by scalar value.
pub open spec fn lex_lt(a: Seq<char>, b: Seq<char>) -> bool
    decreases a.len(),
{
    if b.len() == 0 {
        false
    } else if a.len() == 0 {
        true
    } else if (a[0] as u32) < (b[0] as u32) {
        true
    } else if (a[0] as u32) > (b[0] as u32) {
        false
    } else {
        lex_lt(a.drop_first(), b.drop_first())
    }
}

/// Stable insertion by path: the entry goes before the first entry whose
/// path is strictly greater.
pub open spec fn insert_by_path(
    x: (Seq<char>, Seq<char>),
    s: Seq<(Seq<char>, Seq<char>)>,
) -> Seq<(Seq<char>, Seq<char>)>
    decreases s.len(),
{
    if s.len() == 0 {
        seq![x]
    } else if lex_lt(x.1, s[0].1) {
        seq![x] + s
    } else {
        seq![s[0]] + insert_by_path(x, s.drop_first())
    }
}

/// Stable sort by path.
pub open spec fn sort_by_path(s: Seq<(Seq<char>, Seq<char>)>) -> Seq<(Seq<char>, Seq<char>)>
    decreases s.len(),
{
    if s.len() == 0 {
        Seq::empty()
    } else {
        insert_by_path(s.last(), sort_by_path(s.drop_last()))
    }
}

/// The discovered triggers of an asset tree, sorted by path.
pub open spec fn discover_spec(paths: Seq<Seq<char>>) -> Seq<(Seq<char>, Seq<char>)> {
    sort_by_path(candidates_of(paths))
}

/// Compares two strings in strict lexicographic order.
#[verifier::loop_isolation(false)]
pub(crate) fn lex_lt_names(a: &String, b: &String) -> (r: bool)
    ensures
        r == lex_lt(a@, b@),
{
    let an = a.unicode_len();
    let bn = b.unicode_len();
    let mut i: usize = 0;
    proof {
        assert(a@.skip(0) =~= a@);
        assert(b@.skip(0) =~= b@);
    }
    while i < an && i < bn
        invariant
            an == a@.len(),
            bn == b@.len(),
            0 <= i <= an,
            0 <= i <= bn,
            lex_lt(a@, b@) == lex_lt(a@.skip(i as int), b@.skip(i as int)),
        decreases an - i,
    {
        let ca = a.as_str().get_char(i);
        let cb = b.as_str().get_char(i);
        proof {
            assert(a@.skip(i as int)[0] == a@[i as int]);
            assert(b@.skip(i as int)[0] == b@[i as int]);
            assert(a@.skip(i as int).drop_first() =~= a@.skip(i + 1));
            assert(b@.skip(i as int).drop_first() =~= b@.skip(i + 1));
        }
        if (ca as u32) < (cb as u32) {
            return true;
        }
        if (ca as u32) > (cb as u32) {
            return false;
        }
        i = i + 1;
    }
    proof {
        if i >= bn {
            assert(b@.skip(i as int).len() == 0);
        } else {
            assert(a@.skip(i as int).len() == 0);
            assert(b@.skip(i as int).len() > 0);
        }
    }
    i < bn
}

proof fn lemma_insert_by_path_at(
    x: (Seq<char>, Seq<char>),
    s: Seq<(Seq<char>, Seq<char>)>,
    j: int,
)
    requires
        0 <= j <= s.len(),
        forall|i: int| 0 <= i < j ==> !lex_lt(x.1, #[trigger] s[i].1),
        j < s.len() ==> lex_lt(x.1, s[j].1),
    ensures
        insert_by_path(x, s) == s.subrange(0, j) + seq![x] + s.subrange(j, s.len() as int),
    decreases j,
{
    if s.len() == 0 {
        assert(s.subrange(0, 0) =~= Seq::<(Seq<char>, Seq<char>)>::empty());
        assert(Seq::<(Seq<char>, Seq<char>)>::empty() + seq![x] + Seq::<
            (Seq<char>, Seq<char>),
        >::empty() =~= seq![x]);
    } else if j == 0 {
        assert(s.subrange(0, 0) =~= Seq::<(Seq<char>, Seq<char>)>::empty());
        assert(s.subrange(0, s.len() as int) =~= s);
        assert(Seq::<(Seq<char>, Seq<char>)>::empty() + seq![x] + s =~= seq![x] + s);
    } else {
        let t = s.drop_first();
        assert(forall|i: int| 0 <= i < j - 1 ==> !lex_lt(x.1, #[trigger] t[i].1));
        lemma_insert_by_path_at(x, t, j - 1);
        assert(t.subrange(0, j - 1) =~= s.subrange(1, j));
        assert(t.subrange(j - 1, t.len() as int) =~= s.subrange(j, s.len() as int));
        assert(seq![s[0]] + (s.subrange(1, j) + seq![x] + s.subrange(j, s.len() as int)) =~= (
        s.subrange(0, j) + seq![x] + s.subrange(j, s.len() as int)));
    }
}

/// Inserts one trigger into a path-sorted vector, keeping the order.
#[verifier::loop_isolation(false)]
fn insert_by_path_exec(x: TriggerEntry, acc: &mut Vec<TriggerEntry>)
    ensures
        trig_views(final (acc)@) == insert_by_path((x.name@, x.path@), trig_views(old(acc)@)),
{
    let ghost sv = trig_views(acc@);
    let n = acc.len();
    let mut j: usize = 0;
    while j < n && !lex_lt_names(&x.path, &acc[j].path)
        invariant
            n == acc@.len(),
            acc@ == old(acc)@,
            0 <= j <= n,
            forall|i: int| 0 <= i < j ==> !lex_lt(x.path@, #[trigger] trig_views(acc@)[i].1),
        decreases n - j,
    {
        j = j + 1;
    }
    proof {
        lemma_insert_by_path_at((x.name@, x.path@), sv, j as int);
    }
    acc.insert(j, x);
    proof {
        assert(trig_views(acc@) =~= sv.subrange(0, j as int) + seq![
            (trig_views(acc@)[j as int].0, trig_views(acc@)[j as int].1),
        ] + sv.subrange(j as int, sv.len() as int));
        assert(trig_views(acc@) =~= sv.subrange(0, j as int) + seq![(x.name@, x.path@)]
            + sv.subrange(j as int, sv.len() as int));
    }
}

/// Sorts triggers by path.
#[verifier::loop_isolation(false)]
pub fn sort_triggers(mut v: Vec<TriggerEntry>) -> (r: Vec<TriggerEntry>)
    ensures
        trig_views(r@) == sort_by_path(trig_views(v@)),
{
    let ghost orig = trig_views(v@);
    let n = v.len();
    let mut out: Vec<TriggerEntry> = Vec::new();
    let mut i: usize = 0;
    proof {
        assert(orig.take(0) =~= Seq::<(Seq<char>, Seq<char>)>::empty());
        assert(trig_views(out@) =~= sort_by_path(orig.take(0)));
    }
    for i in 0..n
        invariant
            n == v@.len(),
            orig == trig_views(v@),
            trig_views(out@) == sort_by_path(orig.take(i as int)),
    {
        let x = v[i].clone();
        proof {
            assert((x.name@, x.path@) == orig[i as int]);
        }
        insert_by_path_exec(x, &mut out);
        proof {
            assert(orig.take(i + 1).drop_last() =~= orig.take(i as int));
            assert(orig.take(i + 1).last() == orig[i as int]);
        }
    }
    proof {
        assert(orig.take(n as int) =~= orig);
    }
    out
}

} // verus!

use vstd::prelude::*;

verus! {

/// Returns the last path component.
fn filename_exec(p: &String) -> (r: String)
    ensures
        r@ == filename_of(p@),
{
    let cut = rfind_char(p, '/');
    let n = p.unicode_len();
    proof {
        lemma_last_index_of(p@, '/');
    }
    p.as_str().substring_char(cut, n).to_owned()
}

/// Splits a file name into its stem and extension.
fn split_stem_ext(name: &String) -> (r: (String, Option<String>))
    ensures
        r.0@ == stem_of(name@),
        match r.1 {
            Some(e) => ext_of(name@) == Some(e@),
            None => ext_of(name@) is None,
        },
{
    let cut = rfind_char(name, '.');
    let n = name.unicode_len();
    proof {
        lemma_last_index_of(name@, '.');
    }
    if cut > 1 {
        let stem = name.as_str().substring_char(0, cut - 1).to_owned();
        let ext = name.as_str().substring_char(cut, n).to_owned();
        (stem, Some(ext))
    } else {
        (name.clone(), None)
    }
}

/// Checks whether a relative path names an audio asset.
pub fn is_audio_path_exec(p: &String) -> (r: bool)
    ensures
        r == is_audio_path(p@),
{
    let name = filename_exec(p);
    let (_, ext) = split_stem_ext(&name);
    match ext {
        None => false,
        Some(e) => {
            let le = lower_token(e.as_str());
            proof {
                reveal_strlit("wav");
                reveal_strlit("mp3");
                reveal_strlit("ogg");
                reveal_strlit("aif");
                reveal_strlit("aiff");
                reveal_strlit("flac");
                assert("wav"@ =~= wav_ext());
                assert("mp3"@ =~= mp3_ext());
                assert("ogg"@ =~= ogg_ext());
                assert("aif"@ =~= aif_ext());
                assert("aiff"@ =~= aiff_ext());
                assert("flac"@ =~= flac_ext());
            }
            let w = String::from_str("wav");
            let m = String::from_str("mp3");
            let o = String::from_str("ogg");
            let a1 = String::from_str("aif");
            let a2 = String::from_str("aiff");
            let f = String::from_str("flac");
            le == w || le == m || le == o || le == a1 || le == a2 || le == f
        },
    }
}

/// Builds the candidate trigger of an audio path.
fn trigger_of_exec(p: &String) -> (r: TriggerEntry)
    ensures
        (r.name@, r.path@) == trigger_of(p@),
{
    let name = filename_exec(p);
    let (stem, _) = split_stem_ext(&name);
    proof {
        reveal_strlit("./");
    }
    let mut dotted = String::from_str("./");
    dotted.append(p.as_str());
    proof {
        assert(dotted@ =~= seq!['.', '/'] + p@);
    }
    TriggerEntry { name: stem, path: dotted }
}

/// Discovers the triggers of an asset tree from its relative audio paths:
/// files with a supported audio extension, named after their stem, with
/// `./`-prefixed slash paths, sorted by path.
#[verifier::loop_isolation(false)]
pub fn discover_triggers(rel_paths: &Vec<String>) -> (r: Vec<TriggerEntry>)
    ensures
        trig_views(r@) == discover_spec(line_views(rel_paths@)),
{
    let ghost pv = line_views(rel_paths@);
    let n = rel_paths.len();
    let mut cand: Vec<TriggerEntry> = Vec::new();
    let mut i: usize = 0;
    proof {
        assert(pv.skip(0) =~= pv);
        assert(trig_views(cand@) =~= Seq::<(Seq<char>, Seq<char>)>::empty());
        assert(Seq::<(Seq<char>, Seq<char>)>::empty() + candidates_of(pv) =~= candidates_of(pv));
    }
    while i < n
        invariant
            n == pv.len(),
            0 <= i <= n,
            candidates_of(pv) == trig_views(cand@) + candidates_of(pv.skip(i as int)),
        decreases n - i,
    {
        proof {
            assert(pv.skip(i as int)[0] == pv[i as int]);
            assert(pv.skip(i as int).drop_first() =~= pv.skip(i + 1));
        }
        if is_audio_path_exec(&rel_paths[i]) {
            let t = trigger_of_exec(&rel_paths[i]);
            let ghost prev = trig_views(cand@);
            cand.push(t);
            proof {
                assert(trig_views(cand@) =~= prev.push(trigger_of(pv[i as int])));
                assert(prev + (seq![trigger_of(pv[i as int])] + candidates_of(pv.skip(i + 1)))
                    =~= trig_views(cand@) + candidates_of(pv.skip(i + 1)));
            }
        }
        i = i + 1;
    }
    proof {
        assert(candidates_of(pv.skip(n as int)) =~= Seq::<(Seq<char>, Seq<char>)>::empty());
        assert(trig_views(cand@) + Seq::<(Seq<char>, Seq<char>)>::empty() =~= trig_views(cand@));
    }
    sort_triggers(cand)
}

} // verus!

use vstd::prelude::*;

verus! {

/// A relative path with every leading `./` removed.
pub open spec fn strip_dot_slash(p: Seq<char>) -> Seq<char>
    decreases p.len(),
{
    if p.len() >= 2 && p[0] == '.' && p[1] == '/' {
        strip_dot_slash(p.subrange(2, p.len() as int))
    } else {
        p
    }
}

/// Directory components joined with dots.
pub open spec fn join_dots(parts: Seq<Seq<char>>) -> Seq<char>
    decreases parts.len(),
{
    if parts.len() == 0 {
        Seq::empty()
    } else if parts.len() == 1 {
        parts[0]
    } else {
        parts[0] + seq!['.'] + join_dots(parts.drop_first())
    }
}

pub proof fn lemma_join_dots_push(parts: Seq<Seq<char>>, x: Seq<char>)
    ensures
        parts.len() == 0 ==> join_dots(parts.push(x)) == x,
        parts.len() > 0 ==> join_dots(parts.push(x)) == join_dots(parts) + seq!['.'] + x,
    decreases parts.len(),
{
    if parts.len() == 0 {
        assert(parts.push(x)[0] == x);
    } else if parts.len() == 1 {
        assert(parts.push(x).drop_first() =~= seq![x]);
        assert(join_dots(seq![x]) == x);
        assert(parts.push(x)[0] == parts[0]);
    } else {
        assert(parts.push(x).drop_first() =~= parts.drop_first().push(x));
        lemma_join_dots_push(parts.drop_first(), x);
        assert((parts[0] + seq!['.'] + (join_dots(parts.drop_first()) + seq!['.'] + x)) =~= (
        parts[0] + seq!['.'] + join_dots(parts.drop_first())) + seq!['.'] + x);
    }
}

/// Directory components joined with dots, then a dot and the base name.
pub open spec fn dotted(dirs: Seq<Seq<char>>, base: Seq<char>) -> Seq<char> {
    join_dots(dirs) + seq!['.'] + base
}

/// `base_i`, a numbered fallback candidate.
pub open spec fn cand_of(base: Seq<char>, i: int) -> Seq<char> {
    base + seq!['_'] + dec_of(i as nat)
}

/// The first free numbered candidate, `base_2` onward.  The search space
/// is one candidate wider than the used-name list, so a free candidate
/// always exists within it.
pub open spec fn numeric_suffix(base: Seq<char>, used: Seq<Seq<char>>, i: int) -> Seq<char>
    decreases used.len() + 2 - i when 2 <= i <= used.len() + 2
{
    let c = cand_of(base, i);
    if !used.contains(c) {
        c
    } else if i >= used.len() + 2 {
        c
    } else {
        numeric_suffix(base, used, i + 1)
    }
}

/// The first free directory-prefixed candidate, nearest directory first,
/// falling back to numbered candidates.
pub open spec fn suffix_try(
    dirs: Seq<Seq<char>>,
    base: Seq<char>,
    used: Seq<Seq<char>>,
    k: int,
) -> Seq<char>
    decreases dirs.len() - k when 1 <= k <= dirs.len()
{
    let name = dotted(dirs.subrange(dirs.len() - k, dirs.len() as int), base);
    if !used.contains(name) {
        name
    } else if k >= dirs.len() {
        numeric_suffix(base, used, 2)
    } else {
        suffix_try(dirs, base, used, k + 1)
    }
}

/// The name assigned to a fresh asset: its bare stem when free, else the
/// stem qualified by all its directories, else by its nearest directories
/// in turn, else the first free numbered candidate.
pub open spec fn disambiguate_spec(
    base: Seq<char>,
    path: Seq<char>,
    used: Seq<Seq<char>>,
) -> Seq<char> {
    if base.len() > 0 && !used.contains(base) {
        base
    } else {
        let rel = strip_dot_slash(path);
        let parts = split_at_char(rel, '/');
        if parts.len() > 1 {
            let dirs = parts.drop_last();
            let joined = dotted(dirs, base);
            if !used.contains(joined) {
                joined
            } else {
                suffix_try(dirs, base, used, 1)
            }
        } else {
            numeric_suffix(base, used, 2)
        }
    }
}

/// Checks whether a name is in the used list.
#[verifier::loop_isolation(false)]
pub(crate) fn contains_name(used: &Vec<String>, cand: &String) -> (r: bool)
    ensures
        r == line_views(used@).contains(cand@),
{
    let n = used.len();
    let mut i: usize = 0;
    while i < n
        invariant
            n == used@.len(),
            0 <= i <= n,
            forall|j: int| 0 <= j < i ==> line_views(used@)[j] != cand@,
        decreases n - i,
    {
        if used[i] == *cand {
            proof {
                assert(line_views(used@)[i as int] == cand@);
            }
            return true;
        }
        i = i + 1;
    }
    proof {
        assert(forall|j: int| 0 <= j < n ==> line_views(used@)[j] != cand@);
    }
    false
}

/// Builds the dotted name of some directory components and a base name.
#[verifier::loop_isolation(false)]
fn dotted_exec(dirs: &Vec<String>, from: usize, base: &str) -> (r: String)
    requires
        from <= dirs@.len(),
    ensures
        r@ == dotted(line_views(dirs@).subrange(from as int, dirs@.len() as int), base@),
{
    proof {
        reveal_strlit(".");
    }
    let n = dirs.len();
    let mut out = String::new();
    let mut i: usize = from;
    proof {
        assert(line_views(dirs@).subrange(from as int, from as int) =~= Seq::<Seq<char>>::empty());
    }
    while i < n
        invariant
            n == dirs@.len(),
            from <= i <= n,
            out@ == join_dots(line_views(dirs@).subrange(from as int, i as int)),
        decreases n - i,
    {
        if i > from {
            out.append(".");
        }
        out.append(dirs[i].as_str());
        proof {
            let pre = line_views(dirs@).subrange(from as int, i as int);
            lemma_join_dots_push(pre, dirs@[i as int]@);
            assert(line_views(dirs@).subrange(from as int, i + 1) =~= pre.push(dirs@[i as int]@));
        }
        i = i + 1;
    }
    out.append(".");
    out.append(base);
    proof {
        assert(out@ =~= dotted(
            line_views(dirs@).subrange(from as int, dirs@.len() as int),
            base@,
        ));
    }
    out
}

/// Builds the numbered candidate `base_i`.
fn cand_exec(base: &str, i: usize) -> (r: String)
    ensures
        r@ == cand_of(base@, i as int),
{
    proof {
        reveal_strlit("_");
    }
    let mut c = String::from_str(base);
    c.append("_");
    let d = u64_to_dec(i as u64);
    c.append(d.as_str());
    proof {
        assert(c@ =~= cand_of(base@, i as int));
    }
    c
}

/// Assigns a collision-free name for a fresh asset path and records it in
/// the used-name list.
#[verifier::loop_isolation(false)]
pub fn disambiguate_name(base: &str, rel_path_with_dot: &str, used: &mut Vec<String>) -> (r: String)
    requires
        old(used)@.len() < usize::MAX - 2,
    ensures
        r@ == disambiguate_spec(base@, rel_path_with_dot@, line_views(old(used)@)),
        final (used)@ == old(used)@.push(r),
{
    let ghost uv = line_views(used@);
    let base_s = String::from_str(base);
    if base.unicode_len() > 0 && !contains_name(used, &base_s) {
        used.push(base_s.clone());
        return base_s;
    }
    // strip every leading ./
    let mut rel = String::from_str(rel_path_with_dot);
    loop
        invariant
            strip_dot_slash(rel_path_with_dot@) == strip_dot_slash(rel@),
        decreases rel@.len(),
    {
        let rn = rel.unicode_len();
        if rn >= 2 && rel.as_str().get_char(0) == '.' && rel.as_str().get_char(1) == '/' {
            rel = rel.as_str().substring_char(2, rn).to_owned();
        } else {
            break ;
        }
    }
    proof {
        assert(strip_dot_slash(rel@) == rel@);
    }
    let parts = split_char(rel.as_str(), '/');
    let pn = parts.len();
    proof {
        crate::text::lemma_split_len(rel@, '/');
    }
    if pn > 1 {
        let ghost dirs = line_views(parts@).drop_last();
        proof {
            assert(dirs =~= line_views(parts@).subrange(0, pn - 1));
            assert(dirs.subrange(0, dirs.len() as int) =~= dirs);
        }
        let mut dv: Vec<String> = Vec::new();
        let mut di: usize = 0;
        while di < pn - 1
            invariant
                pn == parts@.len(),
                pn >= 1,
                0 <= di <= pn - 1,
                dirs == line_views(parts@).subrange(0, pn - 1),
                line_views(dv@) =~= dirs.subrange(0, di as int),
            decreases pn - 1 - di,
        {
            dv.push(parts[di].clone());
            proof {
                assert(line_views(dv@) =~= dirs.subrange(0, di + 1));
            }
            di = di + 1;
        }
        proof {
            assert(line_views(dv@) =~= dirs);
        }
        let joined = dotted_exec(&dv, 0, base);
        proof {
            assert(line_views(dv@).subrange(0, dv@.len() as int) =~= dirs);
        }
        if !contains_name(used, &joined) {
            used.push(joined.clone());
            return joined;
        }
        // nearest directories first
        let dn = dv.len();
        let mut k: usize = 1;
        while k < dn
            invariant
                dn == dv@.len(),
                dn >= 1,
                1 <= k <= dn,
                line_views(dv@) == dirs,
                used@ == old(used)@,
                uv == line_views(used@),
                suffix_try(dirs, base@, uv, 1) == suffix_try(dirs, base@, uv, k as int),
            decreases dn - k,
        {
            let name = dotted_exec(&dv, dn - k, base);
            if !contains_name(used, &name) {
                used.push(name.clone());
                return name;
            }
            k = k + 1;
        }
        let last_name = dotted_exec(&dv, 0, base);
        if !contains_name(used, &last_name) {
            used.push(last_name.clone());
            return last_name;
        }
        // numbered fallback
        let mut i: usize = 2;
        loop
            invariant
                used@ == old(used)@,
                uv == line_views(used@),
                2 <= i,
                i - 2 <= uv.len(),
                suffix_try(dirs, base@, uv, dn as int) == numeric_suffix(base@, uv, i as int),
            decreases uv.len() + 2 - i,
        {
            let c = cand_exec(base, i);
            if !contains_name(used, &c) {
                used.push(c.clone());
                return c;
            }
            if i - 2 >= used.len() {
                used.push(c.clone());
                return c;
            }
            i = i + 1;
        }
    } else {
        let mut i: usize = 2;
        loop
            invariant
                used@ == old(used)@,
                uv == line_views(used@),
                2 <= i,
                i - 2 <= uv.len(),
                numeric_suffix(base@, uv, 2) == numeric_suffix(base@, uv, i as int),
            decreases uv.len() + 2 - i,
        {
            let c = cand_exec(base, i);
            if !contains_name(used, &c) {
                used.push(c.clone());
                return c;
            }
            if i - 2 >= used.len() {
                used.push(c.clone());
                return c;
            }
            i = i + 1;
        }
    }
}

} // verus!

use vstd::prelude::*;

verus! {

/// The curated name an existing manifest gives a path: the name of the
/// last entry carrying that path, since a later entry overrides an
/// earlier one.
pub open spec fn lookup_path(
    s: Seq<(Seq<char>, Seq<char>)>,
    p: Seq<char>,
) -> Option<Seq<char>>
    decreases s.len(),
{
    if s.len() == 0 {
        None
    } else if s.last().1 == p {
        Some(s.last().0)
    } else {
        lookup_path(s.drop_last(), p)
    }
}

pub open spec fn contains_path(s: Seq<(Seq<char>, Seq<char>)>, p: Seq<char>) -> bool {
    exists|i: int| 0 <= i < s.len() && s[i].1 == p
}

/// The names an existing manifest still maps to: the name of each entry
/// whose path no later entry overrides.
pub open spec fn live_names(s: Seq<(Seq<char>, Seq<char>)>) -> Seq<Seq<char>>
    decreases s.len(),
{
    if s.len() == 0 {
        Seq::empty()
    } else {
        (if contains_path(s.drop_first(), s[0].1) {
            Seq::<Seq<char>>::empty()
        } else {
            seq![s[0].0]
        }) + live_names(s.drop_first())
    }
}

/// The merged triggers before sorting: each discovered path keeps its
/// curated name when the manifest already maps it, and is otherwise given
/// a fresh disambiguated name, which immediately counts as used.
pub open spec fn merge_loop(
    discovered: Seq<(Seq<char>, Seq<char>)>,
    existing: Seq<(Seq<char>, Seq<char>)>,
    used: Seq<Seq<char>>,
) -> Seq<(Seq<char>, Seq<char>)>
    decreases discovered.len(),
{
    if discovered.len() == 0 {
        Seq::empty()
    } else {
        let d = discovered[0];
        match lookup_path(existing, d.1) {
            Some(nm) => seq![(nm, d.1)] + merge_loop(discovered.drop_first(), existing, used),
            None => {
                let nm = disambiguate_spec(d.0, d.1, used);
                seq![(nm, d.1)] + merge_loop(discovered.drop_first(), existing, used.push(nm))
            },
        }
    }
}

/// The merged trigger list: discovered paths with curated or fresh names,
/// sorted by path.
pub open spec fn merge_spec(
    existing: Seq<(Seq<char>, Seq<char>)>,
    discovered: Seq<(Seq<char>, Seq<char>)>,
) -> Seq<(Seq<char>, Seq<char>)> {
    sort_by_path(merge_loop(discovered, existing, live_names(existing)))
}

/// Looks up the curated name of a path.
#[verifier::loop_isolation(false)]
fn lookup_path_exec(existing: &Vec<TriggerEntry>, p: &String) -> (r: Option<String>)
    ensures
        match r {
            Some(nm) => lookup_path(trig_views(existing@), p@) == Some(nm@),
            None => lookup_path(trig_views(existing@), p@) is None,
        },
{
    let ghost ev = trig_views(existing@);
    let n = existing.len();
    let mut i: usize = n;
    proof {
        assert(ev.take(n as int) =~= ev);
    }
    while i > 0
        invariant
            n == ev.len(),
            0 <= i <= n,
            lookup_path(ev, p@) == lookup_path(ev.take(i as int), p@),
        decreases i,
    {
        proof {
            assert(ev.take(i as int).last() == ev[i - 1]);
            assert(ev.take(i as int).drop_last() =~= ev.take(i - 1));
        }
        if existing[i - 1].path == *p {
            return Some(existing[i - 1].name.clone());
        }
        i = i - 1;
    }
    proof {
        assert(ev.take(0) =~= Seq::<(Seq<char>, Seq<char>)>::empty());
    }
    None
}

/// Checks whether any entry at or after `from` carries the path.
#[verifier::loop_isolation(false)]
fn path_in_suffix(v: &Vec<TriggerEntry>, from: usize, p: &String) -> (r: bool)
    requires
        from <= v@.len(),
    ensures
        r == contains_path(trig_views(v@).skip(from as int), p@),
{
    let ghost sv = trig_views(v@).skip(from as int);
    let n = v.len();
    let mut i: usize = from;
    while i < n
        invariant
            n == v@.len(),
            from <= i <= n,
            sv == trig_views(v@).skip(from as int),
            forall|j: int| 0 <= j < i - from ==> sv[j].1 != p@,
        decreases n - i,
    {
        proof {
            assert(sv[i - from] == trig_views(v@)[i as int]);
        }
        if v[i].path == *p {
            return true;
        }
        i = i + 1;
    }
    false
}

/// Collects the names the existing manifest still maps to.
#[verifier::loop_isolation(false)]
fn live_names_exec(existing: &Vec<TriggerEntry>) -> (r: Vec<String>)
    ensures
        line_views(r@) == live_names(trig_views(existing@)),
{
    let ghost ev = trig_views(existing@);
    let n = existing.len();
    let mut out: Vec<String> = Vec::new();
    let mut i: usize = 0;
    proof {
        assert(ev.skip(0) =~= ev);
        assert(line_views(out@) =~= Seq::<Seq<char>>::empty());
        assert(Seq::<Seq<char>>::empty() + live_names(ev) =~= live_names(ev));
    }
    while i < n
        invariant
            n == ev.len(),
            0 <= i <= n,
            live_names(ev) == line_views(out@) + live_names(ev.skip(i as int)),
        decreases n - i,
    {
        proof {
            assert(ev.skip(i as int)[0] == ev[i as int]);
            assert(ev.skip(i as int).drop_first() =~= ev.skip(i + 1));
        }
        let overridden = path_in_suffix(existing, i + 1, &existing[i].path);
        if !overridden {
            let ghost prev = out@;
            out.push(existing[i].name.clone());
            proof {
                assert(line_views(out@) =~= line_views(prev).push(ev[i as int].0));
                assert(line_views(prev) + (seq![ev[i as int].0] + live_names(ev.skip(i + 1)))
                    =~= line_views(out@) + live_names(ev.skip(i + 1)));
            }
        } else {
            proof {
                assert(line_views(out@) + (Seq::<Seq<char>>::empty() + live_names(ev.skip(i + 1)))
                    =~= line_views(out@) + live_names(ev.skip(i + 1)));
            }
        }
        i = i + 1;
    }
    proof {
        assert(live_names(ev.skip(n as int)) =~= Seq::<Seq<char>>::empty());
        assert(line_views(out@) + Seq::<Seq<char>>::empty() =~= line_views(out@));
    }
    out
}

/// Merges discovered triggers with an existing manifest's triggers: paths
/// the manifest knows keep their curated names, fresh paths get fresh
/// disambiguated names, and the result is sorted by path.
#[verifier::loop_isolation(false)]
pub fn merge_triggers(existing: Vec<TriggerEntry>, discovered: Vec<TriggerEntry>) -> (r: Vec<
    TriggerEntry,
>)
    requires
        existing@.len() + discovered@.len() < usize::MAX - 2,
    ensures
        trig_views(r@) == merge_spec(trig_views(existing@), trig_views(discovered@)),
{
    let ghost ev = trig_views(existing@);
    let ghost dv = trig_views(discovered@);
    let mut used = live_names_exec(&existing);
    proof {
        lemma_live_names_len(ev);
    }
    let mut out: Vec<TriggerEntry> = Vec::new();
    let n = discovered.len();
    let mut i: usize = 0;
    proof {
        assert(dv.skip(0) =~= dv);
        assert(trig_views(out@) =~= Seq::<(Seq<char>, Seq<char>)>::empty());
        assert(Seq::<(Seq<char>, Seq<char>)>::empty() + merge_loop(dv, ev, line_views(used@))
            =~= merge_loop(dv, ev, line_views(used@)));
    }
    while i < n
        invariant
            n == dv.len(),
            0 <= i <= n,
            used@.len() <= existing@.len() + i,
            existing@.len() + n < usize::MAX - 2,
            merge_loop(dv, ev, live_names(ev)) == trig_views(out@) + merge_loop(
                dv.skip(i as int),
                ev,
                line_views(used@),
            ),
        decreases n - i,
    {
        proof {
            assert(dv.skip(i as int)[0] == dv[i as int]);
            assert(dv.skip(i as int).drop_first() =~= dv.skip(i + 1));
        }
        let d = discovered[i].clone();
        match lookup_path_exec(&existing, &d.path) {
            Some(nm) => {
                let ghost prev = trig_views(out@);
                out.push(TriggerEntry { name: nm, path: d.path });
                proof {
                    assert(trig_views(out@) =~= prev.push(
                        (lookup_path(ev, dv[i as int].1)->Some_0, dv[i as int].1),
                    ));
                    assert(prev + (seq![(lookup_path(ev, dv[i as int].1)->Some_0, dv[i as int].1)]
                        + merge_loop(dv.skip(i + 1), ev, line_views(used@))) =~= trig_views(out@)
                        + merge_loop(dv.skip(i + 1), ev, line_views(used@)));
                }
            },
            None => {
                let ghost uv = line_views(used@);
                let nm = disambiguate_name(d.name.as_str(), d.path.as_str(), &mut used);
                let ghost nmv = disambiguate_spec(dv[i as int].0, dv[i as int].1, uv);
                proof {
                    assert(line_views(used@) =~= uv.push(nmv));
                }
                let ghost prev = trig_views(out@);
                out.push(TriggerEntry { name: nm, path: d.path });
                proof {
                    assert(trig_views(out@) =~= prev.push((nmv, dv[i as int].1)));
                    assert(prev + (seq![(nmv, dv[i as int].1)] + merge_loop(
                        dv.skip(i + 1),
                        ev,
                        uv.push(nmv),
                    )) =~= trig_views(out@) + merge_loop(dv.skip(i + 1), ev, uv.push(nmv)));
                }
            },
        }
        i = i + 1;
    }
    proof {
        assert(merge_loop(dv.skip(n as int), ev, line_views(used@)) =~= Seq::<
            (Seq<char>, Seq<char>),
        >::empty());
        assert(trig_views(out@) + Seq::<(Seq<char>, Seq<char>)>::empty() =~= trig_views(out@));
    }
    sort_triggers(out)
}

pub proof fn lemma_live_names_len(s: Seq<(Seq<char>, Seq<char>)>)
    ensures
        live_names(s).len() <= s.len(),
    decreases s.len(),
{
    if s.len() > 0 {
        lemma_live_names_len(s.drop_first());
    }
}

} // verus!

use vstd::prelude::*;

verus! {

proof fn lemma_dec_len(n: nat)
    ensures
        dec_of(n).len() >= 1,
    decreases n,
{
    if n >= 10 {
        lemma_dec_len(n / 10);
    }
}

proof fn lemma_dec_injective(a: nat, b: nat)
    requires
        dec_of(a) == dec_of(b),
    ensures
        a == b,
    decreases a + b,
{
    if a < 10 && b < 10 {
        assert(dec_of(a)[0] == crate::semver::digit_char(a));
        assert(dec_of(b)[0] == crate::semver::digit_char(b));
    } else if a < 10 && b >= 10 {
        lemma_dec_len(b / 10);
        assert(dec_of(b).len() >= 2);
        assert(dec_of(a).len() == 1);
    } else if a >= 10 && b < 10 {
        lemma_dec_len(a / 10);
        assert(dec_of(a).len() >= 2);
        assert(dec_of(b).len() == 1);
    } else {
        assert(dec_of(a).last() == crate::semver::digit_char(a % 10));
        assert(dec_of(b).last() == crate::semver::digit_char(b % 10));
        assert(a % 10 == b % 10);
        assert(dec_of(a).drop_last() =~= dec_of(a / 10));
        assert(dec_of(b).drop_last() =~= dec_of(b / 10));
        lemma_dec_injective(a / 10, b / 10);
    }
}

proof fn lemma_cand_injective(base: Seq<char>, i: int, j: int)
    requires
        i >= 0,
        j >= 0,
        cand_of(base, i) == cand_of(base, j),
    ensures
        i == j,
{
    let ci = cand_of(base, i);
    let cj = cand_of(base, j);
    assert(ci.subrange(base.len() as int + 1, ci.len() as int) =~= dec_of(i as nat));
    assert(cj.subrange(base.len() as int + 1, cj.len() as int) =~= dec_of(j as nat));
    lemma_dec_injective(i as nat, j as nat);
}

proof fn lemma_numeric_fresh(base: Seq<char>, used: Seq<Seq<char>>, i: int)
    requires
        2 <= i <= used.len() + 2,
        forall|j: int| 2 <= j < i ==> used.contains(#[trigger] cand_of(base, j)),
    ensures
        !used.contains(numeric_suffix(base, used, i)),
    decreases used.len() + 2 - i,
{
    broadcast use vstd::seq_lib::seq_to_set_is_finite;

    let c = cand_of(base, i);
    if !used.contains(c) {
    } else if i >= used.len() + 2 {
        // all of the candidates would sit in a strictly smaller set
        let ln = used.len() as int;
        let cands = Seq::new((ln + 1) as nat, |k: int| cand_of(base, k + 2));
        assert forall|x: Seq<char>| cands.to_set().contains(x) implies used.to_set().contains(
            x,
        ) by {
            let k = choose|k: int| 0 <= k < cands.len() && cands[k] == x;
            assert(used.contains(cand_of(base, k + 2)));
        }
        assert(cands.to_set() <= used.to_set());
        assert(cands.no_duplicates()) by {
            assert forall|p: int, q: int|
                0 <= p < cands.len() && 0 <= q < cands.len() && p != q implies cands[p]
                != cands[q] by {
                if cands[p] == cands[q] {
                    lemma_cand_injective(base, p + 2, q + 2);
                }
            }
        }
        cands.unique_seq_to_set();
        used.lemma_cardinality_of_set();
        vstd::set_lib::lemma_len_subset(cands.to_set(), used.to_set());
        assert(false);
    } else {
        lemma_numeric_fresh(base, used, i + 1);
    }
}

proof fn lemma_suffix_try_fresh(
    dirs: Seq<Seq<char>>,
    base: Seq<char>,
    used: Seq<Seq<char>>,
    k: int,
)
    requires
        1 <= k <= dirs.len(),
    ensures
        !used.contains(suffix_try(dirs, base, used, k)),
    decreases dirs.len() - k,
{
    let name = dotted(dirs.subrange(dirs.len() - k, dirs.len() as int), base);
    if !used.contains(name) {
    } else if k >= dirs.len() {
        lemma_numeric_fresh(base, used, 2);
    } else {
        lemma_suffix_try_fresh(dirs, base, used, k + 1);
    }
}

/// A disambiguated name never collides: whatever the base name, the path
/// and the used-name list, the assigned name is not in the list.
pub proof fn lemma_disambiguate_fresh(base: Seq<char>, path: Seq<char>, used: Seq<Seq<char>>)
    ensures
        !used.contains(disambiguate_spec(base, path, used)),
{
    if base.len() > 0 && !used.contains(base) {
    } else {
        let rel = strip_dot_slash(path);
        let parts = split_at_char(rel, '/');
        crate::text::lemma_split_len(rel, '/');
        if parts.len() > 1 {
            let dirs = parts.drop_last();
            let joined = dotted(dirs, base);
            if !used.contains(joined) {
            } else {
                lemma_suffix_try_fresh(dirs, base, used, 1);
            }
        } else {
            lemma_numeric_fresh(base, used, 2);
        }
    }
}

proof fn lemma_merge_loop_fresh(
    discovered: Seq<(Seq<char>, Seq<char>)>,
    existing: Seq<(Seq<char>, Seq<char>)>,
    used: Seq<Seq<char>>,
    base_used: Seq<Seq<char>>,
)
    requires
        forall|n: Seq<char>| base_used.contains(n) ==> used.contains(n),
    ensures
        forall|k: int|
            0 <= k < merge_loop(discovered, existing, used).len() && lookup_path(
                existing,
                #[trigger] merge_loop(discovered, existing, used)[k].1,
            ) is None ==> !base_used.contains(merge_loop(discovered, existing, used)[k].0),
    decreases discovered.len(),
{
    if discovered.len() > 0 {
        let d = discovered[0];
        let out = merge_loop(discovered, existing, used);
        match lookup_path(existing, d.1) {
            Some(nm) => {
                lemma_merge_loop_fresh(discovered.drop_first(), existing, used, base_used);
                let rest = merge_loop(discovered.drop_first(), existing, used);
                assert forall|k: int|
                    0 <= k < out.len() && lookup_path(existing, #[trigger] out[k].1)
                        is None implies !base_used.contains(out[k].0) by {
                    assert(k > 0);
                    assert(out[k] == rest[k - 1]);
                }
            },
            None => {
                let nm = disambiguate_spec(d.0, d.1, used);
                lemma_disambiguate_fresh(d.0, d.1, used);
                assert forall|n: Seq<char>| base_used.contains(n) implies used.push(nm).contains(
                    n,
                ) by {
                    assert(used.contains(n));
                    let kk = choose|kk: int| 0 <= kk < used.len() && used[kk] == n;
                    assert(used.push(nm)[kk] == n);
                }
                lemma_merge_loop_fresh(
                    discovered.drop_first(),
                    existing,
                    used.push(nm),
                    base_used,
                );
                let rest = merge_loop(discovered.drop_first(), existing, used.push(nm));
                assert forall|k: int|
                    0 <= k < out.len() && lookup_path(existing, #[trigger] out[k].1)
                        is None implies !base_used.contains(out[k].0) by {
                    if k == 0 {
                        if base_used.contains(nm) {
                            assert(used.contains(nm));
                        }
                    } else {
                        assert(out[k] == rest[k - 1]);
                    }
                }
            },
        }
    }
}

proof fn lemma_insert_by_path_contains(
    x: (Seq<char>, Seq<char>),
    s: Seq<(Seq<char>, Seq<char>)>,
    y: (Seq<char>, Seq<char>),
)
    ensures
        insert_by_path(x, s).contains(y) <==> (y == x || s.contains(y)),
    decreases s.len(),
{
    if s.len() == 0 {
        assert(insert_by_path(x, s)[0] == x);
    } else if lex_lt(x.1, s[0].1) {
        let out = seq![x] + s;
        assert(out.contains(y) <==> (y == x || s.contains(y))) by {
            if out.contains(y) {
                let k = choose|k: int| 0 <= k < out.len() && out[k] == y;
                if k == 0 {
                } else {
                    assert(s[k - 1] == y);
                }
            }
            if y == x {
                assert(out[0] == y);
            }
            if s.contains(y) {
                let k = choose|k: int| 0 <= k < s.len() && s[k] == y;
                assert(out[k + 1] == y);
            }
        }
    } else {
        lemma_insert_by_path_contains(x, s.drop_first(), y);
        let rest = insert_by_path(x, s.drop_first());
        let out = seq![s[0]] + rest;
        assert(out.contains(y) <==> (y == s[0] || rest.contains(y))) by {
            if out.contains(y) {
                let k = choose|k: int| 0 <= k < out.len() && out[k] == y;
                if k == 0 {
                } else {
                    assert(rest[k - 1] == y);
                }
            }
            if y == s[0] {
                assert(out[0] == y);
            }
            if rest.contains(y) {
                let k = choose|k: int| 0 <= k < rest.len() && rest[k] == y;
                assert(out[k + 1] == y);
            }
        }
        assert(s.contains(y) <==> (y == s[0] || s.drop_first().contains(y))) by {
            if s.contains(y) {
                let k = choose|k: int| 0 <= k < s.len() && s[k] == y;
                if k == 0 {
                } else {
                    assert(s.drop_first()[k - 1] == y);
                }
            }
            if s.drop_first().contains(y) {
                let k = choose|k: int| 0 <= k < s.drop_first().len() && s.drop_first()[k] == y;
                assert(s[k + 1] == y);
            }
        }
    }
}

proof fn lemma_sort_contains(s: Seq<(Seq<char>, Seq<char>)>, y: (Seq<char>, Seq<char>))
    ensures
        sort_by_path(s).contains(y) <==> s.contains(y),
    decreases s.len(),
{
    if s.len() > 0 {
        lemma_sort_contains(s.drop_last(), y);
        lemma_insert_by_path_contains(s.last(), sort_by_path(s.drop_last()), y);
        assert(s.contains(y) <==> (y == s.last() || s.drop_last().contains(y))) by {
            if s.contains(y) {
                let k = choose|k: int| 0 <= k < s.len() && s[k] == y;
                if k == s.len() - 1 {
                } else {
                    assert(s.drop_last()[k] == y);
                }
            }
            if s.drop_last().contains(y) {
                let k = choose|k: int| 0 <= k < s.drop_last().len() && s.drop_last()[k] == y;
                assert(s[k] == y);
            }
        }
    }
}

/// Law: a renamed asset does not reuse its old trigger name.  Every entry
/// of the merged list whose path the existing manifest does not map — in
/// particular a file moved to a new path — carries a name that none of
/// the manifest's current triggers carries.
pub proof fn lemma_merge_assigns_fresh_names(
    existing: Seq<(Seq<char>, Seq<char>)>,
    discovered: Seq<(Seq<char>, Seq<char>)>,
)
    ensures
        forall|y: (Seq<char>, Seq<char>)|
            merge_spec(existing, discovered).contains(y) && lookup_path(existing, y.1)
                is None ==> !live_names(existing).contains(y.0),
{
    let pre = merge_loop(discovered, existing, live_names(existing));
    lemma_merge_loop_fresh(discovered, existing, live_names(existing), live_names(existing));
    assert forall|y: (Seq<char>, Seq<char>)|
        merge_spec(existing, discovered).contains(y) && lookup_path(existing, y.1)
            is None implies !live_names(existing).contains(y.0) by {
        lemma_sort_contains(pre, y);
        let k = choose|k: int| 0 <= k < pre.len() && pre[k] == y;
        assert(lookup_path(existing, pre[k].1) is None);
    }
}

} // verus!

use vstd::prelude::*;

verus! {

proof fn lemma_merge_loop_paths(
    discovered: Seq<(Seq<char>, Seq<char>)>,
    existing: Seq<(Seq<char>, Seq<char>)>,
    used: Seq<Seq<char>>,
)
    ensures
        merge_loop(discovered, existing, used).len() == discovered.len(),
        forall|k: int|
            0 <= k < discovered.len() ==> #[trigger] merge_loop(discovered, existing, used)[k].1
                == discovered[k].1,
    decreases discovered.len(),
{
    if discovered.len() > 0 {
        let d = discovered[0];
        match lookup_path(existing, d.1) {
            Some(nm) => {
                lemma_merge_loop_paths(discovered.drop_first(), existing, used);
            },
            None => {
                let nm = disambiguate_spec(d.0, d.1, used);
                lemma_merge_loop_paths(discovered.drop_first(), existing, used.push(nm));
            },
        }
    }
}

proof fn lemma_lookup_contains(s: Seq<(Seq<char>, Seq<char>)>, p: Seq<char>)
    ensures
        lookup_path(s, p) is Some <==> contains_path(s, p),
        lookup_path(s, p) matches Some(n) ==> s.contains((n, p)),
    decreases s.len(),
{
    if s.len() > 0 {
        lemma_lookup_contains(s.drop_last(), p);
        if s.last().1 == p {
            assert(s.contains((s.last().0, p))) by {
                assert(s[s.len() - 1] == (s.last().0, p));
            }
            assert(contains_path(s, p)) by {
                assert(s[s.len() - 1].1 == p);
            }
        } else {
            if contains_path(s.drop_last(), p) {
                let k = choose|k: int| 0 <= k < s.len() - 1 && s.drop_last()[k].1 == p;
                assert(s[k].1 == p);
            }
            if contains_path(s, p) {
                let k = choose|k: int| 0 <= k < s.len() && s[k].1 == p;
                assert(k < s.len() - 1);
                assert(s.drop_last()[k].1 == p);
            }
            match lookup_path(s.drop_last(), p) {
                Some(n) => {
                    assert(s.drop_last().contains((n, p)));
                    let k = choose|k: int| 0 <= k < s.len() - 1 && s.drop_last()[k] == (n, p);
                    assert(s[k] == (n, p));
                },
                None => {},
            }
        }
    }
}

proof fn lemma_merge_loop_all_reuse(
    discovered: Seq<(Seq<char>, Seq<char>)>,
    m: Seq<(Seq<char>, Seq<char>)>,
    used: Seq<Seq<char>>,
)
    requires
        forall|k: int| 0 <= k < discovered.len() ==> lookup_path(m, #[trigger] discovered[k].1)
            is Some,
    ensures
        merge_loop(discovered, m, used).len() == discovered.len(),
        forall|k: int|
            0 <= k < discovered.len() ==> #[trigger] merge_loop(discovered, m, used)[k] == (
                lookup_path(m, discovered[k].1)->Some_0,
                discovered[k].1,
            ),
    decreases discovered.len(),
{
    if discovered.len() > 0 {
        assert(lookup_path(m, discovered[0].1) is Some);
        assert(forall|k: int|
            0 <= k < discovered.drop_first().len() ==> lookup_path(
                m,
                #[trigger] discovered.drop_first()[k].1,
            ) is Some) by {
            assert(forall|k: int|
                0 <= k < discovered.drop_first().len() ==> #[trigger] discovered.drop_first()[k]
                    == discovered[k + 1]);
        }
        lemma_merge_loop_all_reuse(discovered.drop_first(), m, used);
    }
}

/// Law: rediscovery of an unchanged asset tree changes nothing.  Merging
/// the same discovered triggers against the trigger list the first merge
/// produced yields that list again, so a second build writes an identical
/// manifest trigger table.
pub proof fn lemma_merge_idempotent(
    existing: Seq<(Seq<char>, Seq<char>)>,
    discovered: Seq<(Seq<char>, Seq<char>)>,
)
    requires
        forall|i: int, j: int|
            0 <= i < j < discovered.len() ==> (#[trigger] discovered[i]).1 != (
            #[trigger] discovered[j]).1,
    ensures
        merge_spec(merge_spec(existing, discovered), discovered) == merge_spec(
            existing,
            discovered,
        ),
{
    let out1 = merge_loop(discovered, existing, live_names(existing));
    let m = sort_by_path(out1);
    lemma_merge_loop_paths(discovered, existing, live_names(existing));
    // every discovered path is in the merged list
    assert forall|k: int| 0 <= k < discovered.len() implies lookup_path(
        m,
        #[trigger] discovered[k].1,
    ) is Some by {
        assert(out1[k].1 == discovered[k].1);
        assert(out1.contains(out1[k]));
        lemma_sort_contains(out1, out1[k]);
        assert(m.contains(out1[k]));
        let kk = choose|kk: int| 0 <= kk < m.len() && m[kk] == out1[k];
        assert(contains_path(m, discovered[k].1)) by {
            assert(m[kk].1 == discovered[k].1);
        }
        lemma_lookup_contains(m, discovered[k].1);
    }
    lemma_merge_loop_all_reuse(discovered, m, live_names(m));
    let out2 = merge_loop(discovered, m, live_names(m));
    // the reused names are exactly the names the first merge assigned
    assert forall|k: int| 0 <= k < discovered.len() implies out2[k] == out1[k] by {
        let p = discovered[k].1;
        lemma_lookup_contains(m, p);
        let n = lookup_path(m, p)->Some_0;
        assert(m.contains((n, p)));
        lemma_sort_contains(out1, (n, p));
        assert(out1.contains((n, p)));
        let j = choose|j: int| 0 <= j < out1.len() && out1[j] == (n, p);
        assert(out1[j].1 == discovered[j].1);
        assert(discovered[j].1 == p);
        assert(j == k) by {
            if j < k {
                assert(discovered[j].1 != discovered[k].1);
            } else if k < j {
                assert(discovered[k].1 != discovered[j].1);
            }
        }
        assert(out1[k] == (n, p));
    }
    assert(out2 =~= out1);
}

} // verus!
