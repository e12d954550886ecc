//! Plugin export discovery.
//!
//! A plugin's exports come from two sources: a textual scan of its Rust
//! sources for the export-declaration macros, and the function export
//! table of its compiled module.  The final set is the module's function
//! exports whose name follows the setter convention or was declared in
//! source, deduplicated and sorted.

use vstd::prelude::*;
use crate::discover::lex_lt;
use crate::text::{line_views, trim_of};

verus! {

/// `export_plugin`, the stem of every export-declaration macro.
pub open spec fn marker() -> Seq<char> {
    seq!['e', 'x', 'p', 'o', 'r', 't', '_', 'p', 'l', 'u', 'g', 'i', 'n']
}

pub open spec fn variant_bang() -> Seq<char> {
    seq!['!']
}

pub open spec fn variant_ext() -> Seq<char> {
    seq!['_', 'e', 'x', 't', '!']
}

pub open spec fn variant_state() -> Seq<char> {
    seq!['_', 'w', 'i', 't', 'h', '_', 's', 't', 'a', 't', 'e', '!']
}

/// `set_`, the prefix of setter exports kept without a declaration.
pub open spec fn set_prefix() -> Seq<char> {
    seq!['s', 'e', 't', '_']
}

pub open spec fn starts_at(s: Seq<char>, i: int, pat: Seq<char>) -> bool {
    0 <= i && i + pat.len() <= s.len() && s.subrange(i, i + pat.len() as int) == pat
}

/// One of the accepted macro variants follows the marker stem.
pub open spec fn variant_at(s: Seq<char>, j: int) -> bool {
    starts_at(s, j, variant_bang()) || starts_at(s, j, variant_ext()) || starts_at(
        s,
        j,
        variant_state(),
    )
}

/// First index at or after `lo` holding `c`, or the length.
pub open spec fn cfind(s: Seq<char>, lo: int, c: char) -> int
    decreases s.len() - lo when 0 <= lo <= s.len()
{
    if lo >= s.len() {
        s.len() as int
    } else if s[lo] == c {
        lo
    } else {
        cfind(s, lo + 1, c)
    }
}

pub proof fn lemma_cfind_bounds(s: Seq<char>, lo: int, c: char)
    requires
        0 <= lo <= s.len(),
    ensures
        lo <= cfind(s, lo, c) <= s.len(),
        cfind(s, lo, c) < s.len() ==> s[cfind(s, lo, c)] == c,
        forall|j: int| lo <= j < cfind(s, lo, c) ==> s[j] != c,
    decreases s.len() - lo,
{
    if lo < s.len() && s[lo] != c {
        lemma_cfind_bounds(s, lo + 1, c);
    }
}

pub proof fn lemma_cfind_is(s: Seq<char>, lo: int, k: int, c: char)
    requires
        0 <= lo <= k <= s.len(),
        forall|j: int| lo <= j < k ==> s[j] != c,
        k < s.len() ==> s[k] == c,
    ensures
        cfind(s, lo, c) == k,
    decreases k - lo,
{
    if lo < k {
        lemma_cfind_is(s, lo + 1, k, c);
    }
}

/// The export names the source text declares: for each occurrence of an
/// export-declaration macro, the trimmed text between its opening
/// parenthesis and the following comma, when non-empty.
pub open spec fn scan_markers(s: Seq<char>, i: int) -> Seq<Seq<char>>
    decreases s.len() - i when 0 <= i <= s.len() via scan_markers_decreases
{
    if i + 13 > s.len() {
        Seq::empty()
    } else if starts_at(s, i, marker()) {
        let j = i + 13;
        if variant_at(s, j) {
            let p = cfind(s, j, '(');
            if p == s.len() {
                Seq::empty()
            } else {
                let q = cfind(s, p + 1, ',');
                if q == s.len() {
                    Seq::empty()
                } else {
                    let nm = trim_of(s.subrange(p + 1, q));
                    (if nm.len() > 0 {
                        seq![nm]
                    } else {
                        Seq::<Seq<char>>::empty()
                    }) + scan_markers(s, q)
                }
            }
        } else {
            scan_markers(s, i + 13)
        }
    } else {
        scan_markers(s, i + 1)
    }
}

#[via_fn]
proof fn scan_markers_decreases(s: Seq<char>, i: int) {
    if 0 <= i && i + 13 <= s.len() && starts_at(s, i, marker()) && variant_at(s, i + 13) {
        lemma_cfind_bounds(s, i + 13, '(');
        let p = cfind(s, i + 13, '(');
        if p < s.len() {
            lemma_cfind_bounds(s, p + 1, ',');
        }
    }
}

/// Checks whether `pat` occurs at position `i` of `t`.
#[verifier::loop_isolation(false)]
fn str_starts_at(t: &String, i: usize, pat: &str) -> (r: bool)
    requires
        i <= t@.len(),
    ensures
        r == starts_at(t@, i as int, pat@),
{
    let tn = t.unicode_len();
    let pn = pat.unicode_len();
    if tn - i < pn {
        return false;
    }
    let mut k: usize = 0;
    while k < pn
        invariant
            tn == t@.len(),
            pn == pat@.len(),
            i + pn <= tn,
            0 <= k <= pn,
            forall|j: int| 0 <= j < k ==> t@[i + j] == pat@[j],
        decreases pn - k,
    {
        if t.as_str().get_char(i + k) != pat.get_char(k) {
            proof {
                assert(t@.subrange(i as int, i + pn)[k as int] != pat@[k as int]);
            }
            return false;
        }
        k = k + 1;
    }
    proof {
        assert(t@.subrange(i as int, i + pn) =~= pat@);
    }
    true
}

/// Finds the first occurrence of `c` at or after `lo`.
#[verifier::loop_isolation(false)]
fn cfind_exec(t: &String, lo: usize, c: char) -> (r: usize)
    requires
        lo <= t@.len(),
    ensures
        r == cfind(t@, lo as int, c),
        lo <= r <= t@.len(),
{
    let n = t.unicode_len();
    let mut i: usize = lo;
    while i < n
        invariant
            n == t@.len(),
            lo <= i <= n,
            forall|j: int| lo <= j < i ==> t@[j] != c,
        decreases n - i,
    {
        if t.as_str().get_char(i) == c {
            proof {
                lemma_cfind_is(t@, lo as int, i as int, c);
            }
            return i;
        }
        i = i + 1;
    }
    proof {
        lemma_cfind_is(t@, lo as int, n as int, c);
    }
    n
}

/// Scans a source text for export-declaration macros and collects the
/// declared names, in order of occurrence.
#[verifier::loop_isolation(false)]
pub fn scan_export_markers(source: &str) -> (r: Vec<String>)
    ensures
        line_views(r@) == scan_markers(source@, 0),
{
    let t = source.to_owned();
    let n = t.unicode_len();
    let mut out: Vec<String> = Vec::new();
    let mut i: usize = 0;
    proof {
        assert(line_views(out@) =~= Seq::<Seq<char>>::empty());
        assert(Seq::<Seq<char>>::empty() + scan_markers(t@, 0) =~= scan_markers(t@, 0));
    }
    while n >= 13 && i <= n - 13
        invariant
            n == t@.len(),
            t@ == source@,
            0 <= i <= n,
            scan_markers(t@, 0) == line_views(out@) + scan_markers(t@, i as int),
        decreases n - i,
    {
        proof {
            reveal_strlit("export_plugin");
            reveal_strlit("!");
            reveal_strlit("_ext!");
            reveal_strlit("_with_state!");
            assert("export_plugin"@ =~= marker());
            assert("!"@ =~= variant_bang());
            assert("_ext!"@ =~= variant_ext());
            assert("_with_state!"@ =~= variant_state());
        }
        if str_starts_at(&t, i, "export_plugin") {
            let j = i + 13;
            let v1 = str_starts_at(&t, j, "!");
            let v2 = str_starts_at(&t, j, "_ext!");
            let v3 = str_starts_at(&t, j, "_with_state!");
            if v1 || v2 || v3 {
                let p = cfind_exec(&t, j, '(');
                if p == n {
                    proof {
                        assert(scan_markers(t@, i as int) =~= Seq::<Seq<char>>::empty());
                        assert(line_views(out@) + Seq::<Seq<char>>::empty() =~= line_views(out@));
                    }
                    return out;
                }
                let q = cfind_exec(&t, p + 1, ',');
                if q == n {
                    proof {
                        assert(scan_markers(t@, i as int) =~= Seq::<Seq<char>>::empty());
                        assert(line_views(out@) + Seq::<Seq<char>>::empty() =~= line_views(out@));
                    }
                    return out;
                }
                let raw = t.as_str().substring_char(p + 1, q).to_owned();
                let nm = crate::text::trim_line(raw.as_str());
                if nm.unicode_len() > 0 {
                    let ghost prev = line_views(out@);
                    out.push(nm);
                    proof {
                        assert(line_views(out@) =~= prev.push(
                            trim_of(t@.subrange(p + 1, q as int)),
                        ));
                        assert(prev + (seq![trim_of(t@.subrange(p + 1, q as int))] + scan_markers(
                            t@,
                            q as int,
                        )) =~= line_views(out@) + scan_markers(t@, q as int));
                    }
                } else {
                    proof {
                        assert(line_views(out@) + (Seq::<Seq<char>>::empty() + scan_markers(
                            t@,
                            q as int,
                        )) =~= line_views(out@) + scan_markers(t@, q as int));
                    }
                }
                i = q;
            } else {
                i = i + 13;
            }
        } else {
            i = i + 1;
        }
    }
    proof {
        assert(scan_markers(t@, i as int) =~= Seq::<Seq<char>>::empty());
        assert(line_views(out@) + Seq::<Seq<char>>::empty() =~= line_views(out@));
    }
    out
}

/// The function export names wasmparser reads from a module's export
/// table; a function of the module bytes alone.
pub uninterp spec fn wasm_func_exports(bytes: Seq<u8>) -> Seq<Seq<char>>;

/// Relies on wasmparser's Parser and export-section reader: collects the
/// names of the module's function exports, in table order, ignoring
/// malformed sections.
#[verifier::external_body]
pub fn wasm_func_export_names(bytes: &Vec<u8>) -> (r: Vec<String>)
    ensures
        line_views(r@) == wasm_func_exports(bytes@),
{
    let mut out: Vec<String> = Vec::new();
    for payload in wasmparser::Parser::new(0).parse_all(bytes.as_slice()).flatten() {
        if let wasmparser::Payload::ExportSection(reader) = payload {
            for exp in reader.into_iter().flatten() {
                if exp.kind == wasmparser::ExternalKind::Func {
                    out.push(exp.name.to_string());
                }
            }
        }
    }
    out
}

/// Whether an export is kept: it follows the setter convention or was
/// declared in source.
pub open spec fn export_kept(name: Seq<char>, declared: Seq<Seq<char>>) -> bool {
    starts_at(name, 0, set_prefix()) || declared.contains(name)
}

pub open spec fn filter_exports(names: Seq<Seq<char>>, declared: Seq<Seq<char>>) -> Seq<Seq<char>>
    decreases names.len(),
{
    if names.len() == 0 {
        Seq::empty()
    } else {
        (if export_kept(names[0], declared) {
            seq![names[0]]
        } else {
            Seq::<Seq<char>>::empty()
        }) + filter_exports(names.drop_first(), declared)
    }
}

/// Stable insertion into a sorted name list.
pub open spec fn insert_name(x: Seq<char>, s: Seq<Seq<char>>) -> Seq<Seq<char>>
    decreases s.len(),
{
    if s.len() == 0 {
        seq![x]
    } else if lex_lt(x, s[0]) {
        seq![x] + s
    } else {
        seq![s[0]] + insert_name(x, s.drop_first())
    }
}

pub open spec fn sort_names(s: Seq<Seq<char>>) -> Seq<Seq<char>>
    decreases s.len(),
{
    if s.len() == 0 {
        Seq::empty()
    } else {
        insert_name(s.last(), sort_names(s.drop_last()))
    }
}

/// Adjacent duplicates removed.
pub open spec fn dedup_adjacent(s: Seq<Seq<char>>) -> Seq<Seq<char>>
    decreases s.len(),
{
    if s.len() <= 1 {
        s
    } else if s[0] == s[1] {
        dedup_adjacent(s.drop_first())
    } else {
        seq![s[0]] + dedup_adjacent(s.drop_first())
    }
}

/// The final export set: the module's function exports that are kept,
/// sorted, with duplicates removed.
pub open spec fn select_spec(names: Seq<Seq<char>>, declared: Seq<Seq<char>>) -> Seq<Seq<char>> {
    dedup_adjacent(sort_names(filter_exports(names, declared)))
}

} // verus!

use vstd::prelude::*;

verus! {

/// Checks whether an export is kept.
fn export_kept_exec(name: &String, declared: &Vec<String>) -> (r: bool)
    ensures
        r == export_kept(name@, line_views(declared@)),
{
    proof {
        reveal_strlit("set_");
        assert("set_"@ =~= set_prefix());
    }
    if str_starts_at(name, 0, "set_") {
        return true;
    }
    crate::discover::contains_name(declared, name)
}

/// Inserts one name into a sorted list, keeping the order.
#[verifier::loop_isolation(false)]
fn insert_name_exec(x: String, acc: &mut Vec<String>)
    ensures
        line_views(final (acc)@) == insert_name(x@, line_views(old(acc)@)),
{
    let ghost sv = line_views(acc@);
    let n = acc.len();
    let mut j: usize = 0;
    while j < n && !crate::discover::lex_lt_names(&x, &acc[j])
        invariant
            n == acc@.len(),
            acc@ == old(acc)@,
            0 <= j <= n,
            forall|i: int| 0 <= i < j ==> !lex_lt(x@, #[trigger] line_views(acc@)[i]),
        decreases n - j,
    {
        j = j + 1;
    }
    proof {
        lemma_insert_name_at(x@, sv, j as int);
    }
    acc.insert(j, x);
    proof {
        assert(line_views(acc@) =~= sv.subrange(0, j as int) + seq![line_views(acc@)[j as int]]
            + sv.subrange(j as int, sv.len() as int));
        assert(line_views(acc@)[j as int] == x@);
        assert(line_views(acc@) =~= sv.subrange(0, j as int) + seq![x@] + sv.subrange(
            j as int,
            sv.len() as int,
        ));
    }
}

proof fn lemma_insert_name_at(x: Seq<char>, s: Seq<Seq<char>>, j: int)
    requires
        0 <= j <= s.len(),
        forall|i: int| 0 <= i < j ==> !lex_lt(x, #[trigger] s[i]),
        j < s.len() ==> lex_lt(x, s[j]),
    ensures
        insert_name(x, s) == s.subrange(0, j) + seq![x] + s.subrange(j, s.len() as int),
    decreases j,
{
    if s.len() == 0 {
        assert(s.subrange(0, 0) =~= Seq::<Seq<char>>::empty());
        assert(Seq::<Seq<char>>::empty() + seq![x] + Seq::<Seq<char>>::empty() =~= seq![x]);
    } else if j == 0 {
        assert(s.subrange(0, 0) =~= Seq::<Seq<char>>::empty());
        assert(s.subrange(0, s.len() as int) =~= s);
        assert(Seq::<Seq<char>>::empty() + seq![x] + s =~= seq![x] + s);
    } else {
        let t = s.drop_first();
        assert(forall|i: int| 0 <= i < j - 1 ==> !lex_lt(x, #[trigger] t[i]));
        lemma_insert_name_at(x, t, j - 1);
        assert(t.subrange(0, j - 1) =~= s.subrange(1, j));
        assert(t.subrange(j - 1, t.len() as int) =~= s.subrange(j, s.len() as int));
        assert(seq![s[0]] + (s.subrange(1, j) + seq![x] + s.subrange(j, s.len() as int)) =~= (
        s.subrange(0, j) + seq![x] + s.subrange(j, s.len() as int)));
    }
}

/// Sorts names lexicographically.
#[verifier::loop_isolation(false)]
fn sort_names_exec(v: Vec<String>) -> (r: Vec<String>)
    ensures
        line_views(r@) == sort_names(line_views(v@)),
{
    let ghost orig = line_views(v@);
    let n = v.len();
    let mut out: Vec<String> = Vec::new();
    proof {
        assert(orig.take(0) =~= Seq::<Seq<char>>::empty());
        assert(line_views(out@) =~= sort_names(orig.take(0)));
    }
    for i in 0..n
        invariant
            n == v@.len(),
            orig == line_views(v@),
            line_views(out@) == sort_names(orig.take(i as int)),
    {
        let x = v[i].clone();
        insert_name_exec(x, &mut out);
        proof {
            assert(orig.take(i + 1).drop_last() =~= orig.take(i as int));
            assert(orig.take(i + 1).last() == orig[i as int]);
        }
    }
    proof {
        assert(orig.take(n as int) =~= orig);
    }
    out
}

/// Removes adjacent duplicate names from position `i` onward.
fn dedup_from(v: &Vec<String>, i: usize) -> (r: Vec<String>)
    requires
        i <= v@.len(),
    ensures
        line_views(r@) == dedup_adjacent(line_views(v@).skip(i as int)),
    decreases v@.len() - i,
{
    let ghost sv = line_views(v@).skip(i as int);
    let n = v.len();
    if i >= n {
        let empty: Vec<String> = Vec::new();
        proof {
            assert(line_views(empty@) =~= sv);
        }
        return empty;
    }
    proof {
        assert(sv[0] == line_views(v@)[i as int]);
        assert(sv.drop_first() =~= line_views(v@).skip(i + 1));
    }
    if i + 1 >= n {
        let mut one: Vec<String> = Vec::new();
        one.push(v[i].clone());
        proof {
            assert(sv.len() == 1);
            assert(line_views(one@) =~= sv);
        }
        return one;
    }
    proof {
        assert(sv[1] == line_views(v@)[i + 1]);
    }
    if v[i] == v[i + 1] {
        dedup_from(v, i + 1)
    } else {
        let mut rest = dedup_from(v, i + 1);
        rest.insert(0, v[i].clone());
        proof {
            let tail = dedup_adjacent(line_views(v@).skip(i + 1));
            assert(line_views(rest@) =~= seq![sv[0]] + tail);
        }
        rest
    }
}

/// The final export list of a module: its function exports that follow
/// the setter convention or were declared in source, sorted and
/// deduplicated.
#[verifier::loop_isolation(false)]
pub fn select_exports(names: &Vec<String>, declared: &Vec<String>) -> (r: Vec<String>)
    ensures
        line_views(r@) == select_spec(line_views(names@), line_views(declared@)),
{
    let ghost nv = line_views(names@);
    let ghost dv = line_views(declared@);
    let n = names.len();
    let mut kept: Vec<String> = Vec::new();
    let mut i: usize = 0;
    proof {
        assert(nv.skip(0) =~= nv);
        assert(line_views(kept@) =~= Seq::<Seq<char>>::empty());
        assert(Seq::<Seq<char>>::empty() + filter_exports(nv, dv) =~= filter_exports(nv, dv));
    }
    while i < n
        invariant
            n == nv.len(),
            0 <= i <= n,
            dv == line_views(declared@),
            filter_exports(nv, dv) == line_views(kept@) + filter_exports(nv.skip(i as int), dv),
        decreases n - i,
    {
        proof {
            assert(nv.skip(i as int)[0] == nv[i as int]);
            assert(nv.skip(i as int).drop_first() =~= nv.skip(i + 1));
        }
        if export_kept_exec(&names[i], declared) {
            let ghost prev = line_views(kept@);
            kept.push(names[i].clone());
            proof {
                assert(line_views(kept@) =~= prev.push(nv[i as int]));
                assert(prev + (seq![nv[i as int]] + filter_exports(nv.skip(i + 1), dv))
                    =~= line_views(kept@) + filter_exports(nv.skip(i + 1), dv));
            }
        } else {
            proof {
                assert(line_views(kept@) + (Seq::<Seq<char>>::empty() + filter_exports(
                    nv.skip(i + 1),
                    dv,
                )) =~= line_views(kept@) + filter_exports(nv.skip(i + 1), dv));
            }
        }
        i = i + 1;
    }
    proof {
        assert(filter_exports(nv.skip(n as int), dv) =~= Seq::<Seq<char>>::empty());
        assert(line_views(kept@) + Seq::<Seq<char>>::empty() =~= line_views(kept@));
    }
    let sorted = sort_names_exec(kept);
    let deduped = dedup_from(&sorted, 0);
    proof {
        assert(line_views(sorted@).skip(0) =~= line_views(sorted@));
    }
    deduped
}

} // verus!
