//! Format-preserving manifest patching.
//!
//! A manifest is edited at whole-line granularity: one scalar line is
//! replaced or inserted inside a named `[section]`, or the `[[table]]`
//! blocks under it are replaced, and no other line of the document is
//! touched.

use vstd::prelude::*;
use crate::text::{
    all_no_newline, indent_of, is_blank, is_ws, join_lines, join_text, leading_ws,
    lemma_ltrim_props, lemma_trim_ws_prefix, line_views, split_lines, trim_line, trim_of,
    first_index_of, lemma_first_index_is,
};

verus! {

/// `[section]`, the exact trimmed form of a section header line.
pub open spec fn bracketed(section: Seq<char>) -> Seq<char> {
    seq!['['] + section + seq![']']
}

/// A line whose content starts a section or table of any name.
pub open spec fn is_header(line: Seq<char>) -> bool {
    trim_of(line).len() > 0 && trim_of(line)[0] == '['
}

pub open spec fn is_section_line(line: Seq<char>, section: Seq<char>) -> bool {
    trim_of(line) == bracketed(section)
}

/// A line that sets `key`: its content starts with `key` and carries `=`.
pub open spec fn is_key_line(line: Seq<char>, key: Seq<char>) -> bool {
    let t = trim_of(line);
    t.len() >= key.len() && t.subrange(0, key.len() as int) == key && exists|i: int|
        0 <= i < t.len() && t[i] == '='
}

/// The serialized form of a scalar assignment, `key = "value"`.
pub open spec fn scalar_line(key: Seq<char>, value: Seq<char>) -> Seq<char> {
    key + seq![' ', '=', ' ', '"'] + value + seq!['"']
}

/// First index at or after `lo` whose line satisfies `p`, or the length.
pub open spec fn find_from(lv: Seq<Seq<char>>, lo: int, p: spec_fn(Seq<char>) -> bool) -> int
    decreases lv.len() - lo when 0 <= lo <= lv.len()
{
    if lo >= lv.len() {
        lv.len() as int
    } else if p(lv[lo]) {
        lo
    } else {
        find_from(lv, lo + 1, p)
    }
}

pub proof fn lemma_find_from_is(lv: Seq<Seq<char>>, lo: int, k: int, p: spec_fn(Seq<char>) -> bool)
    requires
        0 <= lo <= k <= lv.len(),
        forall|j: int| lo <= j < k ==> !p(#[trigger] lv[j]),
        k < lv.len() ==> p(lv[k]),
    ensures
        find_from(lv, lo, p) == k,
    decreases k - lo,
{
    if lo < k {
        lemma_find_from_is(lv, lo + 1, k, p);
    }
}

pub proof fn lemma_find_from_bounds(lv: Seq<Seq<char>>, lo: int, p: spec_fn(Seq<char>) -> bool)
    requires
        0 <= lo <= lv.len(),
    ensures
        lo <= find_from(lv, lo, p) <= lv.len(),
        find_from(lv, lo, p) < lv.len() ==> p(lv[find_from(lv, lo, p)]),
        forall|j: int| lo <= j < find_from(lv, lo, p) ==> !p(#[trigger] lv[j]),
    decreases lv.len() - lo,
{
    if lo < lv.len() && !p(lv[lo]) {
        lemma_find_from_bounds(lv, lo + 1, p);
    }
}

/// Index of the first header line of the named section, or the length.
pub open spec fn sec_start(lv: Seq<Seq<char>>, section: Seq<char>) -> int {
    find_from(lv, 0, |l: Seq<char>| is_section_line(l, section))
}

/// Index of the first header line after the section's own, or the length:
/// any header, of a section or of an array of tables, ends the section.
pub open spec fn sec_end(lv: Seq<Seq<char>>, h: int) -> int {
    find_from(lv, h + 1, |l: Seq<char>| is_header(l))
}

/// The patched line vector: the first `key` line of the section replaced in
/// place (keeping its indentation), or a fresh line inserted before the
/// first blank line of the section, or at the section's end if none.
/// `None` when the document has no such section.
pub open spec fn patch_scalar_spec(
    lv: Seq<Seq<char>>,
    section: Seq<char>,
    key: Seq<char>,
    value: Seq<char>,
) -> Option<Seq<Seq<char>>> {
    let h = sec_start(lv, section);
    if h == lv.len() {
        None
    } else {
        let e = sec_end(lv, h);
        let k = find_from(lv, h + 1, |l: Seq<char>| is_key_line(l, key));
        if k < e {
            Some(lv.update(k, indent_of(lv[k]) + scalar_line(key, value)))
        } else {
            let b = find_from(lv, h + 1, |l: Seq<char>| is_blank(l));
            let p = if b < e {
                b
            } else {
                e
            };
            Some(lv.insert(p, scalar_line(key, value)))
        }
    }
}

/// A quoted value with its quotes removed; anything else unchanged.
pub open spec fn unquote(w: Seq<char>) -> Seq<char> {
    if w.len() >= 2 && w[0] == '"' && w.last() == '"' {
        w.subrange(1, w.len() - 1)
    } else {
        w
    }
}

/// The value a key line carries: the text after the first `=`, trimmed,
/// with surrounding quotes removed.
pub open spec fn scalar_value_of(line: Seq<char>) -> Seq<char> {
    let t = trim_of(line);
    let e = first_index_of(t, '=');
    unquote(trim_of(t.subrange(e + 1, t.len() as int)))
}

/// The value the first `key` line of the named section carries, if the
/// section and such a line exist.
pub open spec fn read_scalar_spec(lv: Seq<Seq<char>>, section: Seq<char>, key: Seq<char>) -> Option<
    Seq<char>,
> {
    let h = sec_start(lv, section);
    if h == lv.len() {
        None
    } else {
        let e = sec_end(lv, h);
        let k = find_from(lv, h + 1, |l: Seq<char>| is_key_line(l, key));
        if k < e {
            Some(scalar_value_of(lv[k]))
        } else {
            None
        }
    }
}

/// Checks whether a line's content is exactly the given header text.
fn line_trim_is(line: &String, target: &String) -> (r: bool)
    ensures
        r == (trim_of(line@) == target@),
{
    let t = trim_line(line.as_str());
    t == *target
}

/// Checks whether a line starts any section or table.
fn line_is_header(line: &String) -> (r: bool)
    ensures
        r == is_header(line@),
{
    let t = trim_line(line.as_str());
    t.unicode_len() > 0 && t.as_str().get_char(0) == '['
}

/// Checks whether a line is blank.
fn line_is_blank(line: &String) -> (r: bool)
    ensures
        r == is_blank(line@),
{
    let t = trim_line(line.as_str());
    t.unicode_len() == 0
}

/// Checks whether a line sets the given key.
#[verifier::loop_isolation(false)]
fn line_is_key(line: &String, key: &str) -> (r: bool)
    ensures
        r == is_key_line(line@, key@),
{
    let t = trim_line(line.as_str());
    let tn = t.unicode_len();
    let kn = key.unicode_len();
    if tn < kn {
        return false;
    }
    let mut i: usize = 0;
    while i < kn
        invariant
            tn == t@.len(),
            kn == key@.len(),
            kn <= tn,
            0 <= i <= kn,
            forall|j: int| 0 <= j < i ==> t@[j] == key@[j],
        decreases kn - i,
    {
        if t.as_str().get_char(i) != key.get_char(i) {
            proof {
                assert(t@.subrange(0, kn as int)[i as int] != key@[i as int]);
            }
            return false;
        }
        i = i + 1;
    }
    proof {
        assert(t@.subrange(0, kn as int) =~= key@);
    }
    let mut j: usize = 0;
    while j < tn
        invariant
            tn == t@.len(),
            0 <= j <= tn,
            forall|x: int| 0 <= x < j ==> t@[x] != '=',
        decreases tn - j,
    {
        if t.as_str().get_char(j) == '=' {
            return true;
        }
        j = j + 1;
    }
    false
}

/// Builds `[section]` as a string.
fn bracketed_exec(section: &str) -> (r: String)
    ensures
        r@ == bracketed(section@),
{
    proof {
        reveal_strlit("[");
        reveal_strlit("]");
    }
    let mut t = String::from_str("[");
    t.append(section);
    t.append("]");
    proof {
        assert(t@ =~= bracketed(section@));
    }
    t
}

/// Builds `key = "value"` as a string.
fn scalar_line_exec(key: &str, value: &str) -> (r: String)
    ensures
        r@ == scalar_line(key@, value@),
{
    proof {
        reveal_strlit(" = \"");
        reveal_strlit("\"");
    }
    let mut t = String::from_str(key);
    t.append(" = \"");
    t.append(value);
    t.append("\"");
    proof {
        assert(t@ =~= scalar_line(key@, value@));
    }
    t
}

/// Finds the first line at or after `lo` whose content is exactly `target`.
#[verifier::loop_isolation(false)]
fn find_trim_is(lines: &Vec<String>, lo: usize, target: &String) -> (r: usize)
    requires
        lo <= lines@.len(),
    ensures
        r == find_from(line_views(lines@), lo as int, |l: Seq<char>| trim_of(l) == target@),
        r <= lines@.len(),
{
    let ghost p = |l: Seq<char>| trim_of(l) == target@;
    let n = lines.len();
    let mut i: usize = lo;
    while i < n
        invariant
            n == lines@.len(),
            lo <= i <= n,
            forall|j: int| lo <= j < i ==> !p(#[trigger] line_views(lines@)[j]),
        decreases n - i,
    {
        if line_trim_is(&lines[i], target) {
            proof {
                lemma_find_from_is(line_views(lines@), lo as int, i as int, p);
            }
            return i;
        }
        i = i + 1;
    }
    proof {
        lemma_find_from_is(line_views(lines@), lo as int, n as int, p);
    }
    n
}

/// Finds the first header line at or after `lo`.
#[verifier::loop_isolation(false)]
fn find_header(lines: &Vec<String>, lo: usize) -> (r: usize)
    requires
        lo <= lines@.len(),
    ensures
        r == find_from(line_views(lines@), lo as int, |l: Seq<char>| is_header(l)),
        r <= lines@.len(),
{
    let ghost p = |l: Seq<char>| is_header(l);
    let n = lines.len();
    let mut i: usize = lo;
    while i < n
        invariant
            n == lines@.len(),
            lo <= i <= n,
            forall|j: int| lo <= j < i ==> !p(#[trigger] line_views(lines@)[j]),
        decreases n - i,
    {
        if line_is_header(&lines[i]) {
            proof {
                lemma_find_from_is(line_views(lines@), lo as int, i as int, p);
            }
            return i;
        }
        i = i + 1;
    }
    proof {
        lemma_find_from_is(line_views(lines@), lo as int, n as int, p);
    }
    n
}

/// Finds the first blank line at or after `lo`.
#[verifier::loop_isolation(false)]
fn find_blank(lines: &Vec<String>, lo: usize) -> (r: usize)
    requires
        lo <= lines@.len(),
    ensures
        r == find_from(line_views(lines@), lo as int, |l: Seq<char>| is_blank(l)),
        r <= lines@.len(),
{
    let ghost p = |l: Seq<char>| is_blank(l);
    let n = lines.len();
    let mut i: usize = lo;
    while i < n
        invariant
            n == lines@.len(),
            lo <= i <= n,
            forall|j: int| lo <= j < i ==> !p(#[trigger] line_views(lines@)[j]),
        decreases n - i,
    {
        if line_is_blank(&lines[i]) {
            proof {
                lemma_find_from_is(line_views(lines@), lo as int, i as int, p);
            }
            return i;
        }
        i = i + 1;
    }
    proof {
        lemma_find_from_is(line_views(lines@), lo as int, n as int, p);
    }
    n
}

/// Finds the first line setting `key` at or after `lo`.
#[verifier::loop_isolation(false)]
fn find_key(lines: &Vec<String>, lo: usize, key: &str) -> (r: usize)
    requires
        lo <= lines@.len(),
    ensures
        r == find_from(line_views(lines@), lo as int, |l: Seq<char>| is_key_line(l, key@)),
        r <= lines@.len(),
{
    let ghost p = |l: Seq<char>| is_key_line(l, key@);
    let n = lines.len();
    let mut i: usize = lo;
    while i < n
        invariant
            n == lines@.len(),
            lo <= i <= n,
            forall|j: int| lo <= j < i ==> !p(#[trigger] line_views(lines@)[j]),
        decreases n - i,
    {
        if line_is_key(&lines[i], key) {
            proof {
                lemma_find_from_is(line_views(lines@), lo as int, i as int, p);
            }
            return i;
        }
        i = i + 1;
    }
    proof {
        lemma_find_from_is(line_views(lines@), lo as int, n as int, p);
    }
    n
}

/// Patches one scalar assignment into the named section of a line vector.
#[verifier::loop_isolation(false)]
pub fn patch_scalar_lines(lines: &Vec<String>, section: &str, key: &str, value: &str) -> (r:
    Result<Vec<String>, String>)
    ensures
        match r {
            Ok(out) => patch_scalar_spec(line_views(lines@), section@, key@, value@) == Some(
                line_views(out@),
            ),
            Err(m) => patch_scalar_spec(line_views(lines@), section@, key@, value@) is None && m@
                == bracketed(section@) + " section not found"@,
        },
{
    let ghost lv = line_views(lines@);
    let n = lines.len();
    let target = bracketed_exec(section);
    let h = find_trim_is(lines, 0, &target);
    proof {
        assert((|l: Seq<char>| trim_of(l) == target@) =~~= (|l: Seq<char>|
            is_section_line(l, section@)));
    }
    if h == n {
        let mut m = bracketed_exec(section);
        m.append(" section not found");
        return Err(m);
    }
    let e = find_header(lines, h + 1);
    let k = find_key(lines, h + 1, key);
    if k < e {
        let indent = leading_ws(lines[k].as_str());
        let mut newline = indent;
        let sl = scalar_line_exec(key, value);
        newline.append(sl.as_str());
        let mut out: Vec<String> = Vec::new();
        let mut j: usize = 0;
        while j < n
            invariant
                n == lines@.len(),
                0 <= j <= n,
                k < n,
                newline@ == indent_of(lines@[k as int]@) + scalar_line(key@, value@),
                line_views(out@) =~= line_views(lines@).update(k as int, newline@).subrange(
                    0,
                    j as int,
                ),
            decreases n - j,
        {
            if j == k {
                out.push(newline.clone());
            } else {
                out.push(lines[j].clone());
            }
            proof {
                assert(line_views(out@) =~= line_views(lines@).update(k as int, newline@).subrange(
                    0,
                    j + 1,
                ));
            }
            j = j + 1;
        }
        proof {
            assert(line_views(out@) =~= lv.update(k as int, indent_of(lv[k as int]) + scalar_line(
                key@,
                value@,
            )));
        }
        Ok(out)
    } else {
        let b = find_blank(lines, h + 1);
        let p = if b < e {
            b
        } else {
            e
        };
        let newline = scalar_line_exec(key, value);
        let mut out: Vec<String> = Vec::new();
        let mut j: usize = 0;
        while j < n
            invariant
                n == lines@.len(),
                0 <= j <= n,
                p <= n,
                newline@ == scalar_line(key@, value@),
                line_views(out@) =~= line_views(lines@).insert(p as int, newline@).subrange(
                    0,
                    if j <= p {
                        j as int
                    } else {
                        j + 1
                    },
                ),
            decreases n - j,
        {
            if j == p {
                out.push(newline.clone());
            }
            out.push(lines[j].clone());
            proof {
                line_views(lines@).insert_ensures(p as int, newline@);
                assert(line_views(out@) =~= line_views(lines@).insert(p as int, newline@).subrange(
                    0,
                    if j + 1 <= p {
                        j + 1
                    } else {
                        j + 2
                    },
                ));
            }
            j = j + 1;
        }
        if p == n {
            let ghost prev = out@;
            out.push(newline.clone());
            proof {
                lv.insert_ensures(p as int, newline@);
                let pt = lv.insert(p as int, newline@);
                assert(out@ == prev.push(newline));
                assert forall|i: int| 0 <= i < pt.len() implies line_views(out@)[i] == pt[i] by {
                    if i < n {
                        assert(out@[i] == prev[i]);
                        assert(line_views(prev)[i] == pt.subrange(0, n as int)[i]);
                    } else {
                        assert(out@[i] == newline);
                    }
                }
                assert(line_views(out@) =~= pt);
            }
        } else {
            proof {
                lv.insert_ensures(p as int, newline@);
                let pt = lv.insert(p as int, newline@);
                assert(line_views(out@) =~= pt.subrange(0, n + 1));
                assert(pt.subrange(0, n + 1) =~= pt);
            }
        }
        Ok(out)
    }
}

/// Finds the first occurrence of `c` in `t`, or the length.
#[verifier::loop_isolation(false)]
fn find_char_in(t: &String, c: char) -> (r: usize)
    ensures
        r <= t@.len(),
        r < t@.len() ==> t@[r as int] == c && first_index_of(t@, c) == r,
        r == t@.len() ==> forall|j: int| 0 <= j < t@.len() ==> t@[j] != c,
{
    let n = t.unicode_len();
    let mut i: usize = 0;
    while i < n
        invariant
            n == t@.len(),
            0 <= i <= n,
            forall|j: int| 0 <= j < i ==> t@[j] != c,
        decreases n - i,
    {
        if t.as_str().get_char(i) == c {
            proof {
                lemma_first_index_is(t@, c, i as int);
            }
            return i;
        }
        i = i + 1;
    }
    n
}

/// Reads the value of the first `key` line inside the named section of a
/// line vector.
pub fn read_scalar_lines(lines: &Vec<String>, section: &str, key: &str) -> (r: Option<String>)
    ensures
        match r {
            Some(v) => read_scalar_spec(line_views(lines@), section@, key@) == Some(v@),
            None => read_scalar_spec(line_views(lines@), section@, key@) is None,
        },
{
    let ghost lv = line_views(lines@);
    let n = lines.len();
    let target = bracketed_exec(section);
    let h = find_trim_is(lines, 0, &target);
    proof {
        assert((|l: Seq<char>| trim_of(l) == target@) =~~= (|l: Seq<char>|
            is_section_line(l, section@)));
    }
    if h == n {
        return None;
    }
    let e = find_header(lines, h + 1);
    let k = find_key(lines, h + 1, key);
    if k >= e {
        return None;
    }
    proof {
        let pk = |l: Seq<char>| is_key_line(l, key@);
        lemma_find_from_bounds(lv, h + 1, pk);
        assert(is_key_line(lv[k as int], key@));
    }
    let t = trim_line(lines[k].as_str());
    let tn = t.unicode_len();
    let eq = find_char_in(&t, '=');
    proof {
        assert(eq < tn);
    }
    let after = t.as_str().substring_char(eq + 1, tn).to_owned();
    let w = trim_line(after.as_str());
    let wn = w.unicode_len();
    if wn >= 2 && w.as_str().get_char(0) == '"' && w.as_str().get_char(wn - 1) == '"' {
        let inner = w.as_str().substring_char(1, wn - 1).to_owned();
        proof {
            assert(w@.last() == w@[wn - 1]);
            assert(inner@ == unquote(w@));
        }
        Some(inner)
    } else {
        proof {
            assert(wn >= 2 ==> w@.last() == w@[wn - 1]);
            assert(w@ == unquote(w@));
        }
        Some(w)
    }
}

/// `version`, the scalar key the version editors target.
pub open spec fn version_key() -> Seq<char> {
    seq!['v', 'e', 'r', 's', 'i', 'o', 'n']
}

/// `bank`, the manifest section of a sound bank.
pub open spec fn bank_section() -> Seq<char> {
    seq!['b', 'a', 'n', 'k']
}

/// `plugin`, the manifest section of a plugin.
pub open spec fn plugin_section() -> Seq<char> {
    seq!['p', 'l', 'u', 'g', 'i', 'n']
}

/// The lines, with one empty line appended when the last one is not empty,
/// so that the joined document ends with a newline.
pub open spec fn pad_trailing(lv: Seq<Seq<char>>) -> Seq<Seq<char>> {
    if lv.len() > 0 && lv.last().len() == 0 {
        lv
    } else {
        lv.push(Seq::empty())
    }
}

/// Holds when `out` is the document `orig` with exactly one scalar edit
/// applied to the named section, as `patch_scalar_spec` defines at line
/// level, and a final newline ensured.
pub open spec fn scalar_doc_patched(
    orig: Seq<char>,
    section: Seq<char>,
    key: Seq<char>,
    value: Seq<char>,
    out: Seq<char>,
) -> bool {
    exists|lv: Seq<Seq<char>>|
        #![trigger join_lines(lv)]
        all_no_newline(lv) && join_lines(lv) == orig && patch_scalar_spec(
            lv,
            section,
            key,
            value,
        ) is Some && out == join_lines(pad_trailing(patch_scalar_spec(lv, section, key, value)->Some_0))
}

/// Holds when the document, split into lines, has no header of the named
/// section.
pub open spec fn doc_lacks_section(orig: Seq<char>, section: Seq<char>) -> bool {
    exists|lv: Seq<Seq<char>>|
        #![trigger join_lines(lv)]
        all_no_newline(lv) && join_lines(lv) == orig && sec_start(lv, section) == lv.len()
}

/// Holds when reading `key` from the named section of the document yields
/// `res`.
pub open spec fn doc_scalar_read(
    orig: Seq<char>,
    section: Seq<char>,
    key: Seq<char>,
    res: Option<Seq<char>>,
) -> bool {
    exists|lv: Seq<Seq<char>>|
        #![trigger join_lines(lv)]
        all_no_newline(lv) && join_lines(lv) == orig && read_scalar_spec(lv, section, key) == res
}

/// Applies one scalar edit to the named section of a manifest document and
/// returns the patched document; every line outside the one replaced or
/// inserted line is unchanged.
pub fn set_scalar_in_manifest(original: &str, section: &str, key: &str, value: &str) -> (r: Result<
    String,
    String,
>)
    ensures
        match r {
            Ok(out) => scalar_doc_patched(original@, section@, key@, value@, out@),
            Err(m) => doc_lacks_section(original@, section@) && m@ == bracketed(section@)
                + " section not found"@,
        },
{
    let lines = split_lines(original);
    let ghost lv = line_views(lines@);
    match patch_scalar_lines(&lines, section, key, value) {
        Ok(out) => {
            let mut padded = out;
            proof {
                assert(lv.len() >= 1);
                let h = sec_start(lv, section@);
                let e = sec_end(lv, h);
                let kk = find_from(lv, h + 1, |l: Seq<char>| is_key_line(l, key@));
                lemma_find_from_bounds(lv, 0, |l: Seq<char>| is_section_line(l, section@));
                assert(h < lv.len());
                lemma_find_from_bounds(lv, h + 1, |l: Seq<char>| is_header(l));
                lemma_find_from_bounds(lv, h + 1, |l: Seq<char>| is_key_line(l, key@));
                lemma_find_from_bounds(lv, h + 1, |l: Seq<char>| is_blank(l));
                if kk < e {
                    assert(line_views(padded@) == lv.update(
                        kk,
                        indent_of(lv[kk]) + scalar_line(key@, value@),
                    ));
                    assert(line_views(padded@).len() >= 1);
                } else {
                    let b = find_from(lv, h + 1, |l: Seq<char>| is_blank(l));
                    let p = if b < e {
                        b
                    } else {
                        e
                    };
                    lemma_find_from_bounds(lv, 0, |l: Seq<char>| is_section_line(l, section@));
                    lemma_find_from_bounds(lv, h + 1, |l: Seq<char>| is_header(l));
                    lemma_find_from_bounds(lv, h + 1, |l: Seq<char>| is_blank(l));
                    lv.insert_ensures(p, scalar_line(key@, value@));
                    assert(line_views(padded@) == lv.insert(p, scalar_line(key@, value@)));
                    assert(lv.insert(p, scalar_line(key@, value@)).len() == lv.len() + 1);
                    assert(line_views(padded@).len() >= 1);
                }
                assert(line_views(padded@).len() >= 1);
            }
            let last_len = padded[padded.len() - 1].unicode_len();
            if last_len > 0 {
                padded.push(String::new());
            }
            proof {
                assert(line_views(padded@) =~= pad_trailing(
                    patch_scalar_spec(lv, section@, key@, value@)->Some_0,
                ));
            }
            let joined = join_text(&padded);
            Ok(joined)
        },
        Err(m) => Err(m),
    }
}

/// Reads the value of `key` in the named section of a manifest document.
pub fn read_scalar_in_manifest(text: &str, section: &str, key: &str) -> (r: Option<String>)
    ensures
        match r {
            Some(v) => doc_scalar_read(text@, section@, key@, Some(v@)),
            None => doc_scalar_read(text@, section@, key@, None),
        },
{
    let lines = split_lines(text);
    read_scalar_lines(&lines, section, key)
}

/// Sets the version scalar in the `[bank]` section of a bank manifest,
/// leaving every other line of the document untouched.
pub fn write_version_in_bank_toml(original: &str, new_version: &str) -> (r: Result<String, String>)
    ensures
        match r {
            Ok(out) => scalar_doc_patched(
                original@,
                bank_section(),
                version_key(),
                new_version@,
                out@,
            ),
            Err(m) => doc_lacks_section(original@, bank_section()) && m@ == bracketed(
                bank_section(),
            ) + " section not found"@,
        },
{
    proof {
        reveal_strlit("bank");
        reveal_strlit("version");
        assert("bank"@ =~= bank_section());
        assert("version"@ =~= version_key());
    }
    set_scalar_in_manifest(original, "bank", "version", new_version)
}

/// Sets the version scalar in the `[plugin]` section of a plugin manifest,
/// leaving every other line of the document untouched.
pub fn write_version_in_plugin_toml(original: &str, new_version: &str) -> (r: Result<
    String,
    String,
>)
    ensures
        match r {
            Ok(out) => scalar_doc_patched(
                original@,
                plugin_section(),
                version_key(),
                new_version@,
                out@,
            ),
            Err(m) => doc_lacks_section(original@, plugin_section()) && m@ == bracketed(
                plugin_section(),
            ) + " section not found"@,
        },
{
    proof {
        reveal_strlit("plugin");
        reveal_strlit("version");
        assert("plugin"@ =~= plugin_section());
        assert("version"@ =~= version_key());
    }
    set_scalar_in_manifest(original, "plugin", "version", new_version)
}

/// Law: a scalar patch edits exactly one line and reparses to the written
/// value.  Whenever the patch succeeds, the patched document reads the key
/// back as exactly the value that was written, and the document is the
/// original with a single line replaced (keeping its indentation) or a
/// single line inserted — every other line is kept unchanged, in order.
#[verifier::rlimit(60)]
pub proof fn lemma_patch_scalar_round_trip(
    lv: Seq<Seq<char>>,
    section: Seq<char>,
    key: Seq<char>,
    value: Seq<char>,
)
    requires
        patch_scalar_spec(lv, section, key, value) is Some,
        key.len() > 0,
        !is_ws(key[0]),
        key[0] != '[',
        forall|i: int| 0 <= i < key.len() ==> key[i] != '=',
    ensures
        ({
            let out = patch_scalar_spec(lv, section, key, value)->Some_0;
            &&& read_scalar_spec(out, section, key) == Some(value)
            &&& (out.len() == lv.len() ==> exists|i: int|
                0 <= i < lv.len() && out == lv.update(
                    i,
                    indent_of(lv[i]) + scalar_line(key, value),
                ))
            &&& (out.len() == lv.len() + 1 ==> exists|i: int|
                0 <= i <= lv.len() && out == lv.insert(i, scalar_line(key, value)))
        }),
{
    let p_sec = |l: Seq<char>| is_section_line(l, section);
    let p_hdr = |l: Seq<char>| is_header(l);
    let p_key = |l: Seq<char>| is_key_line(l, key);
    let h = sec_start(lv, section);
    let e = sec_end(lv, h);
    let kk = find_from(lv, h + 1, p_key);
    lemma_find_from_bounds(lv, 0, p_sec);
    assert(h < lv.len());
    lemma_find_from_bounds(lv, h + 1, p_hdr);
    lemma_find_from_bounds(lv, h + 1, p_key);
    lemma_find_from_bounds(lv, h + 1, |l: Seq<char>| is_blank(l));
    let sl = scalar_line(key, value);
    assert(sl[0] == key[0]);
    assert(sl.last() == '"');
    assert(sl.len() == key.len() + 5 + value.len());
    lemma_trim_ws_prefix(Seq::<char>::empty(), sl);
    assert(Seq::<char>::empty() + sl =~= sl);
    assert(trim_of(sl) == sl);
    // The fresh line is a key line of `key` and no header.
    assert(sl.subrange(0, key.len() as int) =~= key);
    assert(sl[key.len() as int + 1] == '=');
    assert(is_key_line(sl, key));
    assert(bracketed(section)[0] == '[');
    assert(!is_header(sl));
    assert(!is_section_line(sl, section));
    // Reading the fresh line back yields exactly the value.
    lemma_first_index_is(sl, '=', key.len() as int + 1);
    let after = sl.subrange(key.len() as int + 2, sl.len() as int);
    let quoted = seq!['"'] + value + seq!['"'];
    assert(after =~= seq![' '] + quoted);
    assert(quoted[0] == '"');
    assert(quoted.last() == '"');
    lemma_trim_ws_prefix(seq![' '], quoted);
    assert(trim_of(after) == quoted);
    assert(unquote(quoted) =~= value);
    assert(scalar_value_of(sl) == value);
    if kk < e {
        let indent = indent_of(lv[kk]);
        let newl = indent + sl;
        let out = lv.update(kk, newl);
        assert(patch_scalar_spec(lv, section, key, value)->Some_0 == out);
        lemma_ltrim_props(lv[kk]);
        assert(forall|i: int| 0 <= i < indent.len() ==> is_ws(indent[i]));
        lemma_trim_ws_prefix(indent, sl);
        assert(trim_of(newl) == sl);
        assert(is_key_line(newl, key));
        assert(!is_header(newl));
        assert(!p_sec(newl));
        assert(scalar_value_of(newl) == value);
        // The section starts and ends where it did.
        assert(h + 1 <= kk);
        assert forall|j: int| 0 <= j < h implies !p_sec(#[trigger] out[j]) by {
            assert(out[j] == lv[j]);
        }
        assert(out[h] == lv[h]);
        lemma_find_from_is(out, 0, h, p_sec);
        assert forall|j: int| h + 1 <= j < e implies !p_hdr(#[trigger] out[j]) by {
            if j != kk {
                assert(out[j] == lv[j]);
            }
        }
        lemma_find_from_is(out, h + 1, e, p_hdr);
        // The patched line is the first key line of the section.
        assert forall|j: int| h + 1 <= j < kk implies !p_key(#[trigger] out[j]) by {
            assert(out[j] == lv[j]);
        }
        assert(p_key(out[kk]));
        lemma_find_from_is(out, h + 1, kk, p_key);
        assert(read_scalar_spec(out, section, key) == Some(value));
        assert(out.len() == lv.len());
    } else {
        let b = find_from(lv, h + 1, |l: Seq<char>| is_blank(l));
        let p = if b < e {
            b
        } else {
            e
        };
        let out = lv.insert(p, sl);
        assert(patch_scalar_spec(lv, section, key, value)->Some_0 == out);
        lv.insert_ensures(p, sl);
        assert(h + 1 <= p <= lv.len());
        assert forall|j: int| 0 <= j < h implies !p_sec(#[trigger] out[j]) by {
            assert(out[j] == lv[j]);
        }
        assert(out[h] == lv[h]);
        lemma_find_from_is(out, 0, h, p_sec);
        assert forall|j: int| h + 1 <= j < e + 1 implies !p_hdr(#[trigger] out[j]) by {
            if j < p {
                assert(out[j] == lv[j]);
            } else if j == p {
                assert(out[j] == sl);
            } else {
                assert(out[j] == lv[j - 1]);
                assert(p <= j - 1 < e);
            }
        }
        if e < lv.len() {
            assert(out[e + 1] == lv[e]);
            assert(p_hdr(out[e + 1]));
        }
        lemma_find_from_is(out, h + 1, e + 1, p_hdr);
        assert forall|j: int| h + 1 <= j < p implies !p_key(#[trigger] out[j]) by {
            assert(out[j] == lv[j]);
            assert(j < kk);
        }
        assert(p_key(out[p]));
        lemma_find_from_is(out, h + 1, p, p_key);
        assert(scalar_value_of(out[p]) == value);
        assert(read_scalar_spec(out, section, key) == Some(value));
        assert(out.len() == lv.len() + 1);
        assert(0 <= p <= lv.len() && out == lv.insert(p, scalar_line(key, value)));
    }
}

} // verus!

use vstd::prelude::*;

verus! {

/// `[[table]]`, the exact trimmed form of an array-of-tables header line.
pub open spec fn table_header(table: Seq<char>) -> Seq<char> {
    seq!['[', '['] + table + seq![']', ']']
}

pub open spec fn is_table_line(line: Seq<char>, table: Seq<char>) -> bool {
    trim_of(line) == table_header(table)
}

/// The document with every `[[table]]` block removed: from each table
/// header line through the line before the next header of another name.
pub open spec fn strip_tables(lv: Seq<Seq<char>>, table: Seq<char>, skipping: bool) -> Seq<
    Seq<char>,
>
    decreases lv.len(),
{
    if lv.len() == 0 {
        Seq::empty()
    } else {
        let line = lv[0];
        let rest = lv.drop_first();
        if !skipping {
            if is_table_line(line, table) {
                strip_tables(rest, table, true)
            } else {
                seq![line] + strip_tables(rest, table, false)
            }
        } else {
            if is_header(line) && !is_table_line(line, table) {
                seq![line] + strip_tables(rest, table, false)
            } else {
                strip_tables(rest, table, true)
            }
        }
    }
}

/// One serialized record: its table header and its two field lines.
pub open spec fn record_block(
    table: Seq<char>,
    k1: Seq<char>,
    v1: Seq<char>,
    k2: Seq<char>,
    v2: Seq<char>,
) -> Seq<Seq<char>> {
    seq![table_header(table), scalar_line(k1, v1), scalar_line(k2, v2)]
}

/// The serialized records, separated from each other by one blank line.
pub open spec fn blocks_of(
    table: Seq<char>,
    k1: Seq<char>,
    k2: Seq<char>,
    recs: Seq<(Seq<char>, Seq<char>)>,
) -> Seq<Seq<char>>
    decreases recs.len(),
{
    if recs.len() == 0 {
        Seq::empty()
    } else if recs.len() == 1 {
        record_block(table, k1, recs[0].0, k2, recs[0].1)
    } else {
        record_block(table, k1, recs[0].0, k2, recs[0].1) + seq![Seq::<char>::empty()]
            + blocks_of(table, k1, k2, recs.drop_first())
    }
}

pub proof fn lemma_blocks_push(
    table: Seq<char>,
    k1: Seq<char>,
    k2: Seq<char>,
    recs: Seq<(Seq<char>, Seq<char>)>,
    r: (Seq<char>, Seq<char>),
)
    ensures
        recs.len() == 0 ==> blocks_of(table, k1, k2, recs.push(r)) == record_block(
            table,
            k1,
            r.0,
            k2,
            r.1,
        ),
        recs.len() > 0 ==> blocks_of(table, k1, k2, recs.push(r)) == blocks_of(table, k1, k2, recs)
            + seq![Seq::<char>::empty()] + record_block(table, k1, r.0, k2, r.1),
    decreases recs.len(),
{
    if recs.len() == 0 {
        assert(recs.push(r)[0] == r);
        assert(recs.push(r).len() == 1);
    } else if recs.len() == 1 {
        assert(recs.push(r).drop_first() =~= seq![r]);
        assert(blocks_of(table, k1, k2, seq![r]) == record_block(table, k1, r.0, k2, r.1));
    } else {
        assert(recs.push(r).drop_first() =~= recs.drop_first().push(r));
        lemma_blocks_push(table, k1, k2, recs.drop_first(), r);
        assert((record_block(table, k1, recs[0].0, k2, recs[0].1) + seq![Seq::<char>::empty()] + (
        blocks_of(table, k1, k2, recs.drop_first()) + seq![Seq::<char>::empty()] + record_block(
            table,
            k1,
            r.0,
            k2,
            r.1,
        ))) =~= (record_block(table, k1, recs[0].0, k2, recs[0].1) + seq![Seq::<char>::empty()]
            + blocks_of(table, k1, k2, recs.drop_first())) + seq![Seq::<char>::empty()]
            + record_block(table, k1, r.0, k2, r.1));
    }
}

/// The end of a section's scalar content: the index just past its last
/// non-blank line, or just past the header when the section has none.
pub open spec fn content_end(lv: Seq<Seq<char>>, h: int, e: int) -> int
    decreases e - h when h + 1 <= e
{
    if e <= h + 1 {
        h + 1
    } else if !is_blank(lv[e - 1]) {
        e
    } else {
        content_end(lv, h, e - 1)
    }
}

/// The document with the table blocks replaced: existing blocks removed
/// everywhere, fresh blocks inserted after the section's scalar content,
/// one blank line between the content, the blocks and any trailing
/// section.  With an empty record list no table is emitted, and exactly
/// one blank line still separates the section from a trailing one: the
/// separation is normalized rather than accumulated, which also makes the
/// replacement idempotent.  `None` when the document has no such section.
pub open spec fn replace_tables_spec(
    lv: Seq<Seq<char>>,
    section: Seq<char>,
    table: Seq<char>,
    k1: Seq<char>,
    k2: Seq<char>,
    recs: Seq<(Seq<char>, Seq<char>)>,
) -> Option<Seq<Seq<char>>> {
    let cl = strip_tables(lv, table, false);
    let h = sec_start(cl, section);
    if h == cl.len() {
        None
    } else {
        let e = sec_end(cl, h);
        let p = content_end(cl, h, e);
        let head = cl.subrange(0, p);
        let tail = cl.subrange(e, cl.len() as int);
        let mid = if recs.len() > 0 {
            seq![Seq::<char>::empty()] + blocks_of(table, k1, k2, recs)
        } else {
            Seq::<Seq<char>>::empty()
        };
        let sep = if tail.len() > 0 {
            seq![Seq::<char>::empty()]
        } else {
            Seq::<Seq<char>>::empty()
        };
        Some(head + mid + sep + tail)
    }
}

/// Builds `[[table]]` as a string.
fn table_header_exec(table: &str) -> (r: String)
    ensures
        r@ == table_header(table@),
{
    proof {
        reveal_strlit("[[");
        reveal_strlit("]]");
    }
    let mut t = String::from_str("[[");
    t.append(table);
    t.append("]]");
    proof {
        assert(t@ =~= table_header(table@));
    }
    t
}

/// Removes every `[[table]]` block from a line vector.
#[verifier::loop_isolation(false)]
fn strip_tables_exec(lines: &Vec<String>, table: &str) -> (r: Vec<String>)
    ensures
        line_views(r@) == strip_tables(line_views(lines@), table@, false),
{
    let ghost lv = line_views(lines@);
    let target = table_header_exec(table);
    let n = lines.len();
    let mut out: Vec<String> = Vec::new();
    let mut skipping = false;
    let mut i: usize = 0;
    proof {
        assert(lv.skip(0) =~= lv);
        assert(Seq::<Seq<char>>::empty() + strip_tables(lv, table@, false) =~= strip_tables(
            lv,
            table@,
            false,
        ));
    }
    while i < n
        invariant
            n == lv.len(),
            0 <= i <= n,
            target@ == table_header(table@),
            strip_tables(lv, table@, false) == line_views(out@) + strip_tables(
                lv.skip(i as int),
                table@,
                skipping,
            ),
        decreases n - i,
    {
        proof {
            assert(lv.skip(i as int)[0] == lv[i as int]);
            assert(lv.skip(i as int).drop_first() =~= lv.skip(i + 1));
        }
        let is_tbl = line_trim_is(&lines[i], &target);
        if !skipping {
            if is_tbl {
                skipping = true;
            } else {
                let ghost prev = out@;
                out.push(lines[i].clone());
                proof {
                    assert(line_views(out@) =~= line_views(prev) + seq![lv[i as int]]);
                    assert(line_views(prev) + (seq![lv[i as int]] + strip_tables(
                        lv.skip(i + 1),
                        table@,
                        false,
                    )) =~= (line_views(prev) + seq![lv[i as int]]) + strip_tables(
                        lv.skip(i + 1),
                        table@,
                        false,
                    ));
                }
            }
        } else {
            let hdr = line_is_header(&lines[i]);
            if hdr && !is_tbl {
                let ghost prev = out@;
                out.push(lines[i].clone());
                skipping = false;
                proof {
                    assert(line_views(out@) =~= line_views(prev) + seq![lv[i as int]]);
                    assert(line_views(prev) + (seq![lv[i as int]] + strip_tables(
                        lv.skip(i + 1),
                        table@,
                        false,
                    )) =~= (line_views(prev) + seq![lv[i as int]]) + strip_tables(
                        lv.skip(i + 1),
                        table@,
                        false,
                    ));
                }
            }
        }
        i = i + 1;
    }
    proof {
        assert(lv.skip(n as int) =~= Seq::<Seq<char>>::empty());
        assert(line_views(out@) + Seq::<Seq<char>>::empty() =~= line_views(out@));
    }
    out
}

} // verus!

use vstd::prelude::*;

verus! {

/// Views of a record vector.
pub open spec fn rec_views(v: Seq<(String, String)>) -> Seq<(Seq<char>, Seq<char>)> {
    v.map_values(|r: (String, String)| (r.0@, r.1@))
}

/// Serializes records into their block lines.
#[verifier::loop_isolation(false)]
fn blocks_vec(table: &str, k1: &str, k2: &str, recs: &Vec<(String, String)>) -> (r: Vec<String>)
    ensures
        line_views(r@) == blocks_of(table@, k1@, k2@, rec_views(recs@)),
{
    let n = recs.len();
    let mut out: Vec<String> = Vec::new();
    let mut i: usize = 0;
    proof {
        assert(rec_views(recs@).take(0) =~= Seq::<(Seq<char>, Seq<char>)>::empty());
        assert(line_views(out@) =~= Seq::<Seq<char>>::empty());
    }
    while i < n
        invariant
            n == recs@.len(),
            0 <= i <= n,
            line_views(out@) == blocks_of(table@, k1@, k2@, rec_views(recs@).take(i as int)),
        decreases n - i,
    {
        let ghost rv = rec_views(recs@);
        let ghost prev = out@;
        if i > 0 {
            out.push(String::new());
        }
        let hd = table_header_exec(table);
        out.push(hd);
        let l1 = scalar_line_exec(k1, recs[i].0.as_str());
        out.push(l1);
        let l2 = scalar_line_exec(k2, recs[i].1.as_str());
        out.push(l2);
        proof {
            lemma_blocks_push(table@, k1@, k2@, rv.take(i as int), rv[i as int]);
            assert(rv.take(i as int).push(rv[i as int]) =~= rv.take(i + 1));
            if i == 0 {
                assert(line_views(out@) =~= record_block(
                    table@,
                    k1@,
                    rv[i as int].0,
                    k2@,
                    rv[i as int].1,
                ));
            } else {
                assert(line_views(out@) =~= blocks_of(table@, k1@, k2@, rv.take(i as int))
                    + seq![Seq::<char>::empty()] + record_block(
                    table@,
                    k1@,
                    rv[i as int].0,
                    k2@,
                    rv[i as int].1,
                ));
            }
        }
        i = i + 1;
    }
    proof {
        assert(rec_views(recs@).take(n as int) =~= rec_views(recs@));
    }
    out
}

/// Replaces the `[[table]]` blocks of a manifest's line vector.
#[verifier::loop_isolation(false)]
pub fn replace_tables_lines(
    lines: &Vec<String>,
    section: &str,
    table: &str,
    k1: &str,
    k2: &str,
    recs: &Vec<(String, String)>,
) -> (r: Result<Vec<String>, String>)
    ensures
        match r {
            Ok(out) => replace_tables_spec(
                line_views(lines@),
                section@,
                table@,
                k1@,
                k2@,
                rec_views(recs@),
            ) == Some(line_views(out@)),
            Err(m) => replace_tables_spec(
                line_views(lines@),
                section@,
                table@,
                k1@,
                k2@,
                rec_views(recs@),
            ) is None && m@ == bracketed(section@) + " section not found"@,
        },
{
    let ghost lv = line_views(lines@);
    let cleaned = strip_tables_exec(lines, table);
    let ghost cl = line_views(cleaned@);
    let n = cleaned.len();
    let starget = bracketed_exec(section);
    let h = find_trim_is(&cleaned, 0, &starget);
    proof {
        assert((|l: Seq<char>| trim_of(l) == starget@) =~~= (|l: Seq<char>|
            is_section_line(l, section@)));
    }
    if h == n {
        let mut m = bracketed_exec(section);
        m.append(" section not found");
        return Err(m);
    }
    let e = find_header(&cleaned, h + 1);
    proof {
        lemma_find_from_bounds(cl, h + 1, |l: Seq<char>| is_header(l));
    }
    // scan backward for the end of the section's scalar content
    let mut p: usize = e;
    while p > h + 1 && line_is_blank(&cleaned[p - 1])
        invariant
            h + 1 <= p <= e <= n,
            n == cl.len(),
            content_end(cl, h as int, e as int) == content_end(cl, h as int, p as int),
        decreases p,
    {
        p = p - 1;
    }
    proof {
        assert(content_end(cl, h as int, p as int) == p);
    }
    let mut out: Vec<String> = Vec::new();
    let mut j: usize = 0;
    while j < p
        invariant
            0 <= j <= p <= n,
            n == cl.len(),
            line_views(out@) =~= cl.subrange(0, j as int),
        decreases p - j,
    {
        out.push(cleaned[j].clone());
        proof {
            assert(line_views(out@) =~= cl.subrange(0, j + 1));
        }
        j = j + 1;
    }
    let ghost head = cl.subrange(0, p as int);
    if recs.len() > 0 {
        let ghost before = out@;
        out.push(String::new());
        proof {
            assert(line_views(out@) =~= line_views(before).push(Seq::<char>::empty()));
        }
        let blocks = blocks_vec(table, k1, k2, recs);
        let mut bi: usize = 0;
        let bn = blocks.len();
        proof {
            assert(line_views(out@) =~= line_views(before) + seq![Seq::<char>::empty()]
                + line_views(blocks@).subrange(0, 0));
        }
        while bi < bn
            invariant
                0 <= bi <= bn,
                bn == blocks@.len(),
                line_views(out@) =~= line_views(before) + seq![Seq::<char>::empty()] + line_views(
                    blocks@,
                ).subrange(0, bi as int),
            decreases bn - bi,
        {
            let ghost prevo = out@;
            out.push(blocks[bi].clone());
            proof {
                assert(line_views(out@) =~= line_views(prevo).push(blocks@[bi as int]@));
                assert(line_views(blocks@).subrange(0, bi + 1) =~= line_views(blocks@).subrange(
                    0,
                    bi as int,
                ).push(blocks@[bi as int]@));
                assert(line_views(out@) =~= line_views(before) + seq![Seq::<char>::empty()]
                    + line_views(blocks@).subrange(0, bi + 1));
            }
            bi = bi + 1;
        }
        proof {
            assert(line_views(blocks@).subrange(0, bn as int) =~= line_views(blocks@));
        }
    }
    let ghost mid = if rec_views(recs@).len() > 0 {
        seq![Seq::<char>::empty()] + blocks_of(table@, k1@, k2@, rec_views(recs@))
    } else {
        Seq::<Seq<char>>::empty()
    };
    proof {
        assert(line_views(out@) =~= head + mid);
    }
    if e < n {
        let ghost before2 = out@;
        out.push(String::new());
        proof {
            assert(line_views(out@) =~= line_views(before2).push(Seq::<char>::empty()));
            assert(line_views(out@) =~= line_views(before2) + seq![Seq::<char>::empty()]
                + cl.subrange(e as int, e as int));
        }
        let mut t: usize = e;
        while t < n
            invariant
                e <= t <= n,
                n == cl.len(),
                line_views(out@) =~= line_views(before2) + seq![Seq::<char>::empty()] + cl.subrange(
                    e as int,
                    t as int,
                ),
            decreases n - t,
        {
            let ghost prevo = out@;
            out.push(cleaned[t].clone());
            proof {
                assert(line_views(out@) =~= line_views(prevo).push(cl[t as int]));
                assert(cl.subrange(e as int, t + 1) =~= cl.subrange(e as int, t as int).push(
                    cl[t as int],
                ));
                assert(line_views(out@) =~= line_views(before2) + seq![Seq::<char>::empty()]
                    + cl.subrange(e as int, t + 1));
            }
            t = t + 1;
        }
    }
    let ghost tail = cl.subrange(e as int, n as int);
    let ghost sep = if tail.len() > 0 {
        seq![Seq::<char>::empty()]
    } else {
        Seq::<Seq<char>>::empty()
    };
    proof {
        assert(e < n <==> tail.len() > 0);
        assert(line_views(out@) =~= head + mid + sep + tail);
    }
    Ok(out)
}

} // verus!

use vstd::prelude::*;

verus! {

/// The records the document's `[[table]]` blocks carry, in order: each
/// block yields its first `k1` and first `k2` values, or empty text where
/// a field is missing.
pub open spec fn parse_tables_from(
    lv: Seq<Seq<char>>,
    table: Seq<char>,
    k1: Seq<char>,
    k2: Seq<char>,
    i: int,
) -> Seq<(Seq<char>, Seq<char>)>
    decreases lv.len() - i when 0 <= i <= lv.len() via parse_tables_from_decreases
{
    if i >= lv.len() {
        Seq::empty()
    } else if is_table_line(lv[i], table) {
        let e = find_from(lv, i + 1, |l: Seq<char>| is_header(l));
        let ka = find_from(lv, i + 1, |l: Seq<char>| is_key_line(l, k1));
        let kb = find_from(lv, i + 1, |l: Seq<char>| is_key_line(l, k2));
        let v1 = if ka < e {
            scalar_value_of(lv[ka])
        } else {
            Seq::empty()
        };
        let v2 = if kb < e {
            scalar_value_of(lv[kb])
        } else {
            Seq::empty()
        };
        seq![(v1, v2)] + parse_tables_from(lv, table, k1, k2, e)
    } else {
        parse_tables_from(lv, table, k1, k2, i + 1)
    }
}

#[via_fn]
proof fn parse_tables_from_decreases(
    lv: Seq<Seq<char>>,
    table: Seq<char>,
    k1: Seq<char>,
    k2: Seq<char>,
    i: int,
) {
    if 0 <= i < lv.len() {
        lemma_find_from_bounds(lv, i + 1, |l: Seq<char>| is_header(l));
    }
}

/// Extracts the value a key line carries.
#[verifier::loop_isolation(false)]
fn scalar_value_exec(line: &String) -> (v: String)
    requires
        exists|i: int| 0 <= i < trim_of(line@).len() && trim_of(line@)[i] == '=',
    ensures
        v@ == scalar_value_of(line@),
{
    let t = trim_line(line.as_str());
    let tn = t.unicode_len();
    let eq = find_char_in(&t, '=');
    proof {
        assert(eq < tn);
    }
    let after = t.as_str().substring_char(eq + 1, tn).to_owned();
    let w = trim_line(after.as_str());
    let wn = w.unicode_len();
    if wn >= 2 && w.as_str().get_char(0) == '"' && w.as_str().get_char(wn - 1) == '"' {
        let inner = w.as_str().substring_char(1, wn - 1).to_owned();
        proof {
            assert(w@.last() == w@[wn - 1]);
            assert(inner@ == unquote(w@));
        }
        inner
    } else {
        proof {
            assert(wn >= 2 ==> w@.last() == w@[wn - 1]);
            assert(w@ == unquote(w@));
        }
        w
    }
}

/// Reads the records of every `[[table]]` block in a line vector.
#[verifier::loop_isolation(false)]
pub fn parse_tables_lines(lines: &Vec<String>, table: &str, k1: &str, k2: &str) -> (r: Vec<
    (String, String),
>)
    ensures
        rec_views(r@) == parse_tables_from(line_views(lines@), table@, k1@, k2@, 0),
{
    let ghost lv = line_views(lines@);
    let n = lines.len();
    let target = table_header_exec(table);
    let mut out: Vec<(String, String)> = Vec::new();
    let mut i: usize = 0;
    proof {
        assert(rec_views(out@) =~= Seq::<(Seq<char>, Seq<char>)>::empty());
        assert(Seq::<(Seq<char>, Seq<char>)>::empty() + parse_tables_from(lv, table@, k1@, k2@, 0)
            =~= parse_tables_from(lv, table@, k1@, k2@, 0));
    }
    while i < n
        invariant
            n == lv.len(),
            0 <= i <= n,
            target@ == table_header(table@),
            parse_tables_from(lv, table@, k1@, k2@, 0) == rec_views(out@) + parse_tables_from(
                lv,
                table@,
                k1@,
                k2@,
                i as int,
            ),
        decreases n - i,
    {
        if line_trim_is(&lines[i], &target) {
            let e = find_header(lines, i + 1);
            let ka = find_key(lines, i + 1, k1);
            let kb = find_key(lines, i + 1, k2);
            proof {
                lemma_find_from_bounds(lv, i + 1, |l: Seq<char>| is_header(l));
            }
            let v1 = if ka < e {
                proof {
                    lemma_find_from_bounds(lv, i + 1, |l: Seq<char>| is_key_line(l, k1@));
                }
                scalar_value_exec(&lines[ka])
            } else {
                String::new()
            };
            let v2 = if kb < e {
                proof {
                    lemma_find_from_bounds(lv, i + 1, |l: Seq<char>| is_key_line(l, k2@));
                }
                scalar_value_exec(&lines[kb])
            } else {
                String::new()
            };
            let ghost prev = out@;
            out.push((v1, v2));
            proof {
                assert(rec_views(out@) =~= rec_views(prev).push((v1@, v2@)));
                let step = parse_tables_from(lv, table@, k1@, k2@, i as int);
                assert(step == seq![(v1@, v2@)] + parse_tables_from(lv, table@, k1@, k2@, e as int));
                assert(rec_views(prev) + (seq![(v1@, v2@)] + parse_tables_from(
                    lv,
                    table@,
                    k1@,
                    k2@,
                    e as int,
                )) =~= rec_views(out@) + parse_tables_from(lv, table@, k1@, k2@, e as int));
            }
            i = e;
        } else {
            i = i + 1;
        }
    }
    proof {
        assert(parse_tables_from(lv, table@, k1@, k2@, n as int) =~= Seq::<
            (Seq<char>, Seq<char>),
        >::empty());
        assert(rec_views(out@) + Seq::<(Seq<char>, Seq<char>)>::empty() =~= rec_views(out@));
    }
    out
}

/// Holds when `out` is the document `orig` with its `[[table]]` blocks
/// replaced by exactly the given records.
pub open spec fn tables_doc_patched(
    orig: Seq<char>,
    section: Seq<char>,
    table: Seq<char>,
    k1: Seq<char>,
    k2: Seq<char>,
    recs: Seq<(Seq<char>, Seq<char>)>,
    out: Seq<char>,
) -> bool {
    exists|lv: Seq<Seq<char>>|
        #![trigger join_lines(lv)]
        all_no_newline(lv) && join_lines(lv) == orig && replace_tables_spec(
            lv,
            section,
            table,
            k1,
            k2,
            recs,
        ) is Some && out == join_lines(
            pad_trailing(replace_tables_spec(lv, section, table, k1, k2, recs)->Some_0),
        )
}

/// Holds when the document's `[[table]]` blocks parse to exactly `recs`.
pub open spec fn doc_tables_read(
    orig: Seq<char>,
    table: Seq<char>,
    k1: Seq<char>,
    k2: Seq<char>,
    recs: Seq<(Seq<char>, Seq<char>)>,
) -> bool {
    exists|lv: Seq<Seq<char>>|
        #![trigger join_lines(lv)]
        all_no_newline(lv) && join_lines(lv) == orig && parse_tables_from(lv, table, k1, k2, 0)
            == recs
}

/// Holds when the document, split into lines and with the `[[table]]`
/// blocks removed, has no header of the named section: the one condition
/// on which a table replacement fails.
pub open spec fn doc_lacks_section_for_tables(
    orig: Seq<char>,
    section: Seq<char>,
    table: Seq<char>,
) -> bool {
    exists|lv: Seq<Seq<char>>|
        #![trigger join_lines(lv)]
        all_no_newline(lv) && join_lines(lv) == orig && sec_start(
            strip_tables(lv, table, false),
            section,
        ) == strip_tables(lv, table, false).len()
}

/// Replaces the `[[table]]` blocks of a manifest document, leaving every
/// line outside the replaced span untouched.  The one error is a missing
/// section header.
pub fn replace_tables_in_manifest(
    original: &str,
    section: &str,
    table: &str,
    k1: &str,
    k2: &str,
    recs: &Vec<(String, String)>,
) -> (r: Result<String, String>)
    ensures
        match r {
            Ok(out) => tables_doc_patched(
                original@,
                section@,
                table@,
                k1@,
                k2@,
                rec_views(recs@),
                out@,
            ),
            Err(m) => doc_lacks_section_for_tables(original@, section@, table@) && m@
                == bracketed(section@) + " section not found"@,
        },
{
    let lines = split_lines(original);
    let ghost lv = line_views(lines@);
    match replace_tables_lines(&lines, section, table, k1, k2, recs) {
        Ok(out) => {
            let mut padded = out;
            if padded.len() == 0 {
                padded.push(String::new());
                proof {
                    assert(line_views(padded@) =~= pad_trailing(
                        replace_tables_spec(lv, section@, table@, k1@, k2@, rec_views(recs@))->Some_0,
                    ));
                }
            } else {
                let last_len = padded[padded.len() - 1].unicode_len();
                if last_len > 0 {
                    padded.push(String::new());
                }
                proof {
                    assert(line_views(padded@) =~= pad_trailing(
                        replace_tables_spec(lv, section@, table@, k1@, k2@, rec_views(recs@))->Some_0,
                    ));
                }
            }
            let joined = join_text(&padded);
            Ok(joined)
        },
        Err(m) => Err(m),
    }
}

/// Reads the records of every `[[table]]` block in a manifest document.
pub fn parse_tables_in_manifest(text: &str, table: &str, k1: &str, k2: &str) -> (r: Vec<
    (String, String),
>)
    ensures
        doc_tables_read(text@, table@, k1@, k2@, rec_views(r@)),
{
    let lines = split_lines(text);
    parse_tables_lines(&lines, table, k1, k2)
}

} // verus!

use vstd::prelude::*;

verus! {

pub open spec fn no_table_lines(lv: Seq<Seq<char>>, table: Seq<char>) -> bool {
    forall|i: int| 0 <= i < lv.len() ==> !is_table_line(#[trigger] lv[i], table)
}

/// Every header among the lines is a header of this table.
pub open spec fn headers_only_table(lv: Seq<Seq<char>>, table: Seq<char>) -> bool {
    forall|i: int| 0 <= i < lv.len() && is_header(#[trigger] lv[i]) ==> is_table_line(lv[i], table)
}

proof fn lemma_strip_no_table_lines(lv: Seq<Seq<char>>, table: Seq<char>, skipping: bool)
    ensures
        no_table_lines(strip_tables(lv, table, skipping), table),
    decreases lv.len(),
{
    if lv.len() > 0 {
        let rest = lv.drop_first();
        lemma_strip_no_table_lines(rest, table, true);
        lemma_strip_no_table_lines(rest, table, false);
        let out = strip_tables(lv, table, skipping);
        if (!skipping && !is_table_line(lv[0], table)) || (skipping && is_header(lv[0])
            && !is_table_line(lv[0], table)) {
            assert forall|i: int| 0 <= i < out.len() implies !is_table_line(
                #[trigger] out[i],
                table,
            ) by {
                if i > 0 {
                    assert(out[i] == strip_tables(rest, table, false)[i - 1]);
                }
            }
        }
    }
}

proof fn lemma_strip_clean_prefix(xs: Seq<Seq<char>>, ys: Seq<Seq<char>>, table: Seq<char>)
    requires
        no_table_lines(xs, table),
    ensures
        strip_tables(xs + ys, table, false) == xs + strip_tables(ys, table, false),
    decreases xs.len(),
{
    if xs.len() == 0 {
        assert(xs + ys =~= ys);
        assert(xs + strip_tables(ys, table, false) =~= strip_tables(ys, table, false));
    } else {
        assert((xs + ys)[0] == xs[0]);
        assert((xs + ys).drop_first() =~= xs.drop_first() + ys);
        assert(forall|i: int| 0 <= i < xs.drop_first().len() ==> !is_table_line(
            #[trigger] xs.drop_first()[i],
            table,
        )) by {
            assert(forall|i: int| 0 <= i < xs.drop_first().len() ==> xs.drop_first()[i] == xs[i
                + 1]);
        }
        lemma_strip_clean_prefix(xs.drop_first(), ys, table);
        assert(seq![xs[0]] + (xs.drop_first() + strip_tables(ys, table, false)) =~= xs
            + strip_tables(ys, table, false));
    }
}

proof fn lemma_strip_clean(xs: Seq<Seq<char>>, table: Seq<char>)
    requires
        no_table_lines(xs, table),
    ensures
        strip_tables(xs, table, false) == xs,
    decreases xs.len(),
{
    lemma_strip_clean_prefix(xs, Seq::empty(), table);
    assert(xs + Seq::<Seq<char>>::empty() =~= xs);
    assert(strip_tables(Seq::<Seq<char>>::empty(), table, false) =~= Seq::<Seq<char>>::empty());
}

proof fn lemma_strip_skipped_region(ms: Seq<Seq<char>>, ys: Seq<Seq<char>>, table: Seq<char>)
    requires
        headers_only_table(ms, table),
    ensures
        strip_tables(ms + ys, table, true) == strip_tables(ys, table, true),
    decreases ms.len(),
{
    if ms.len() == 0 {
        assert(ms + ys =~= ys);
    } else {
        assert((ms + ys)[0] == ms[0]);
        assert((ms + ys).drop_first() =~= ms.drop_first() + ys);
        assert(forall|i: int|
            0 <= i < ms.drop_first().len() && is_header(#[trigger] ms.drop_first()[i])
                ==> is_table_line(ms.drop_first()[i], table)) by {
            assert(forall|i: int| 0 <= i < ms.drop_first().len() ==> ms.drop_first()[i] == ms[i
                + 1]);
        }
        lemma_strip_skipped_region(ms.drop_first(), ys, table);
    }
}

proof fn lemma_table_header_trim(table: Seq<char>)
    ensures
        trim_of(table_header(table)) == table_header(table),
        is_header(table_header(table)),
{
    let th = table_header(table);
    assert(th[0] == '[');
    assert(th.last() == ']');
    lemma_trim_ws_prefix(Seq::<char>::empty(), th);
    assert(Seq::<char>::empty() + th =~= th);
}

proof fn lemma_scalar_line_shape(key: Seq<char>, value: Seq<char>)
    requires
        key.len() > 0,
        !is_ws(key[0]),
        key[0] != '[',
    ensures
        trim_of(scalar_line(key, value)) == scalar_line(key, value),
        !is_header(scalar_line(key, value)),
        !is_table_line(scalar_line(key, value), seq!['x']) || true,
{
    let sl = scalar_line(key, value);
    assert(sl[0] == key[0]);
    assert(sl.last() == '"');
    lemma_trim_ws_prefix(Seq::<char>::empty(), sl);
    assert(Seq::<char>::empty() + sl =~= sl);
}

proof fn lemma_blocks_headers(
    table: Seq<char>,
    k1: Seq<char>,
    k2: Seq<char>,
    recs: Seq<(Seq<char>, Seq<char>)>,
)
    requires
        k1.len() > 0,
        !is_ws(k1[0]),
        k1[0] != '[',
        k2.len() > 0,
        !is_ws(k2[0]),
        k2[0] != '[',
    ensures
        headers_only_table(blocks_of(table, k1, k2, recs), table),
    decreases recs.len(),
{
    lemma_table_header_trim(table);
    if recs.len() == 0 {
    } else if recs.len() == 1 {
        lemma_scalar_line_shape(k1, recs[0].0);
        lemma_scalar_line_shape(k2, recs[0].1);
        let b = blocks_of(table, k1, k2, recs);
        assert(b[0] == table_header(table));
        assert(b[1] == scalar_line(k1, recs[0].0));
        assert(b[2] == scalar_line(k2, recs[0].1));
        assert(is_table_line(b[0], table));
    } else {
        lemma_scalar_line_shape(k1, recs[0].0);
        lemma_scalar_line_shape(k2, recs[0].1);
        lemma_blocks_headers(table, k1, k2, recs.drop_first());
        let hd = record_block(table, k1, recs[0].0, k2, recs[0].1) + seq![Seq::<char>::empty()];
        let tl = blocks_of(table, k1, k2, recs.drop_first());
        let b = blocks_of(table, k1, k2, recs);
        assert(b =~= hd + tl);
        assert forall|i: int| 0 <= i < b.len() && is_header(#[trigger] b[i]) implies is_table_line(
            b[i],
            table,
        ) by {
            if i < hd.len() {
                assert(b[i] == hd[i]);
                if i == 3 {
                    assert(trim_of(b[i]).len() == 0);
                }
            } else {
                assert(b[i] == tl[i - hd.len()]);
            }
        }
    }
}

proof fn lemma_content_end_props(lv: Seq<Seq<char>>, h: int, e: int)
    requires
        h + 1 <= e <= lv.len(),
    ensures
        h + 1 <= content_end(lv, h, e) <= e,
        content_end(lv, h, e) > h + 1 ==> !is_blank(lv[content_end(lv, h, e) - 1]),
        forall|j: int| content_end(lv, h, e) <= j < e ==> is_blank(#[trigger] lv[j]),
    decreases e - h,
{
    if e > h + 1 && is_blank(lv[e - 1]) {
        lemma_content_end_props(lv, h, e - 1);
    }
}

} // verus!

use vstd::prelude::*;

verus! {

/// Law: replacing a manifest's table blocks is idempotent.  Replacing the
/// blocks of a document that was itself produced by replacing blocks with
/// the same records yields that document unchanged, so a rebuild with an
/// unchanged record list writes byte-identical manifest text.
#[verifier::rlimit(100)]
pub proof fn lemma_replace_tables_idempotent(
    lv: Seq<Seq<char>>,
    section: Seq<char>,
    table: Seq<char>,
    k1: Seq<char>,
    k2: Seq<char>,
    recs: Seq<(Seq<char>, Seq<char>)>,
)
    requires
        replace_tables_spec(lv, section, table, k1, k2, recs) is Some,
        k1.len() > 0,
        !is_ws(k1[0]),
        k1[0] != '[',
        k2.len() > 0,
        !is_ws(k2[0]),
        k2[0] != '[',
    ensures
        ({
            let out = replace_tables_spec(lv, section, table, k1, k2, recs)->Some_0;
            replace_tables_spec(out, section, table, k1, k2, recs) == Some(out)
        }),
{
    let p_sec = |l: Seq<char>| is_section_line(l, section);
    let p_hdr = |l: Seq<char>| is_header(l);
    let cl = strip_tables(lv, table, false);
    lemma_strip_no_table_lines(lv, table, false);
    let h = sec_start(cl, section);
    let e = sec_end(cl, h);
    lemma_find_from_bounds(cl, 0, p_sec);
    assert(h < cl.len());
    lemma_find_from_bounds(cl, h + 1, p_hdr);
    lemma_content_end_props(cl, h, e);
    let p = content_end(cl, h, e);
    let head = cl.subrange(0, p);
    let tail = cl.subrange(e, cl.len() as int);
    let blocks = blocks_of(table, k1, k2, recs);
    let mid = if recs.len() > 0 {
        seq![Seq::<char>::empty()] + blocks
    } else {
        Seq::<Seq<char>>::empty()
    };
    let sep = if tail.len() > 0 {
        seq![Seq::<char>::empty()]
    } else {
        Seq::<Seq<char>>::empty()
    };
    let out = head + mid + sep + tail;
    assert(replace_tables_spec(lv, section, table, k1, k2, recs) == Some(out));
    assert(no_table_lines(head, table)) by {
        assert(forall|i: int| 0 <= i < head.len() ==> head[i] == cl[i]);
    }
    assert(no_table_lines(tail, table)) by {
        assert(forall|i: int| 0 <= i < tail.len() ==> tail[i] == cl[e + i]);
    }
    lemma_blocks_headers(table, k1, k2, recs);
    // blank lines are neither headers nor table headers
    assert(trim_of(Seq::<char>::empty()) =~= Seq::<char>::empty());
    lemma_table_header_trim(table);
    assert(!is_table_line(Seq::<char>::empty(), table)) by {
        assert(table_header(table).len() >= 4);
    }
    // the strip of the result: head, one blank when anything follows, tail
    let cl2 = if mid.len() + sep.len() > 0 {
        head.push(Seq::<char>::empty()) + tail
    } else {
        head
    };
    assert(strip_tables(out, table, false) == cl2) by {
        if recs.len() > 0 {
            let after_blank = blocks + sep + tail;
            assert(out =~= (head.push(Seq::<char>::empty())) + after_blank);
            assert(no_table_lines(head.push(Seq::<char>::empty()), table)) by {
                assert(forall|i: int|
                    0 <= i < head.len() ==> head.push(Seq::<char>::empty())[i] == head[i]);
            }
            lemma_strip_clean_prefix(head.push(Seq::<char>::empty()), after_blank, table);
            // the first block header flips stripping on
            assert(after_blank[0] == table_header(table));
            assert(is_table_line(after_blank[0], table));
            let ms = blocks.drop_first() + sep;
            assert(after_blank.drop_first() =~= ms + tail);
            assert(headers_only_table(ms, table)) by {
                assert(forall|i: int|
                    0 <= i < blocks.drop_first().len() ==> blocks.drop_first()[i] == blocks[i
                        + 1]);
                assert(forall|i: int|
                    0 <= i < ms.len() && i < blocks.drop_first().len() ==> ms[i]
                        == blocks.drop_first()[i]);
                assert(forall|i: int|
                    blocks.drop_first().len() <= i < ms.len() ==> ms[i] == Seq::<char>::empty());
            }
            lemma_strip_skipped_region(ms, tail, table);
            if tail.len() == 0 {
                assert(strip_tables(tail, table, true) =~= Seq::<Seq<char>>::empty());
                assert(head.push(Seq::<char>::empty()) + Seq::<Seq<char>>::empty() =~= cl2);
            } else {
                assert(tail[0] == cl[e]);
                assert(is_header(tail[0]));
                assert(!is_table_line(tail[0], table));
                assert(no_table_lines(tail.drop_first(), table)) by {
                    assert(forall|i: int|
                        0 <= i < tail.drop_first().len() ==> tail.drop_first()[i] == tail[i + 1]);
                }
                lemma_strip_clean(tail.drop_first(), table);
                assert(strip_tables(tail, table, true) == seq![tail[0]] + tail.drop_first());
                assert(seq![tail[0]] + tail.drop_first() =~= tail);
                assert(head.push(Seq::<char>::empty()) + tail =~= cl2);
            }
        } else {
            if tail.len() == 0 {
                assert(out =~= head);
                lemma_strip_clean(head, table);
            } else {
                assert(out =~= head.push(Seq::<char>::empty()) + tail);
                assert(no_table_lines(head.push(Seq::<char>::empty()) + tail, table)) by {
                    let w = head.push(Seq::<char>::empty()) + tail;
                    assert(forall|i: int| 0 <= i < head.len() ==> w[i] == head[i]);
                    assert(w[head.len() as int] == Seq::<char>::empty());
                    assert(forall|i: int|
                        head.len() + 1 <= i < w.len() ==> w[i] == tail[i - head.len() - 1]);
                }
                lemma_strip_clean(head.push(Seq::<char>::empty()) + tail, table);
            }
        }
    }
    // the section is found at the same place
    assert(h + 1 <= p);
    assert(forall|i: int| 0 <= i < head.len() ==> #[trigger] cl2[i] == cl[i]);
    assert forall|j: int| 0 <= j < h implies !p_sec(#[trigger] cl2[j]) by {
        assert(cl2[j] == cl[j]);
    }
    assert(cl2[h] == cl[h]);
    lemma_find_from_is(cl2, 0, h, p_sec);
    assert(sec_start(cl2, section) == h);
    assert(h < cl2.len());
    // and it ends at the blank separator or the end
    let e2 = sec_end(cl2, h);
    let with_blank = mid.len() + sep.len() > 0;
    if with_blank {
        assert(cl2[p as int] == Seq::<char>::empty());
        assert(!is_header(Seq::<char>::empty()));
        assert forall|j: int| h + 1 <= j < p + 1 implies !p_hdr(#[trigger] cl2[j]) by {
            if j < p {
                assert(cl2[j] == cl[j]);
                assert(j < e);
            }
        }
        if tail.len() > 0 {
            assert(cl2[p + 1] == tail[0]);
            assert(is_header(cl2[p + 1]));
            lemma_find_from_is(cl2, h + 1, p + 1, p_hdr);
        } else {
            assert(cl2.len() == p + 1);
            lemma_find_from_is(cl2, h + 1, p + 1, p_hdr);
        }
        assert(e2 == p + 1);
    } else {
        assert forall|j: int| h + 1 <= j < p implies !p_hdr(#[trigger] cl2[j]) by {
            assert(cl2[j] == cl[j]);
            assert(j < e);
        }
        assert(cl2.len() == p);
        lemma_find_from_is(cl2, h + 1, p as int, p_hdr);
        assert(e2 == p);
    }
    // the scalar content still ends where it did
    lemma_content_end_props(cl2, h, e2);
    let p2 = content_end(cl2, h, e2);
    assert(p2 == p) by {
        if with_blank {
            assert(cl2[p as int] == Seq::<char>::empty());
            assert(is_blank(Seq::<char>::empty()));
            if p > h + 1 {
                assert(cl2[p - 1] == cl[p - 1]);
                assert(!is_blank(cl2[p - 1]));
                assert(content_end(cl2, h, p + 1) == p);
            } else {
                assert(content_end(cl2, h, p + 1) == p);
            }
        } else {
            if p > h + 1 {
                assert(cl2[p - 1] == cl[p - 1]);
                assert(!is_blank(cl2[p - 1]));
            }
        }
    }
    let head2 = cl2.subrange(0, p2);
    let tail2 = cl2.subrange(e2, cl2.len() as int);
    assert(head2 =~= head);
    assert(tail2 =~= tail) by {
        if with_blank && tail.len() > 0 {
            assert(forall|i: int| 0 <= i < tail.len() ==> #[trigger] tail2[i] == cl2[p + 1 + i]);
            assert(forall|i: int| 0 <= i < tail.len() ==> cl2[p + 1 + i] == tail[i]);
        }
    }
    let sep2 = if tail2.len() > 0 {
        seq![Seq::<char>::empty()]
    } else {
        Seq::<Seq<char>>::empty()
    };
    assert(replace_tables_spec(out, section, table, k1, k2, recs) == Some(
        head2 + mid + sep2 + tail2,
    ));
    assert(head2 + mid + sep2 + tail2 =~= out);
}

} // verus!

use vstd::prelude::*;

verus! {

/// A serialized scalar line reads back as exactly the value written.
proof fn lemma_scalar_value_roundtrip(key: Seq<char>, value: Seq<char>)
    requires
        key.len() > 0,
        !is_ws(key[0]),
        forall|i: int| 0 <= i < key.len() ==> key[i] != '=',
    ensures
        scalar_value_of(scalar_line(key, value)) == value,
{
    let sl = scalar_line(key, value);
    assert(sl[0] == key[0]);
    assert(sl.last() == '"');
    lemma_trim_ws_prefix(Seq::<char>::empty(), sl);
    assert(Seq::<char>::empty() + sl =~= sl);
    assert(trim_of(sl) == sl);
    assert(sl[key.len() as int + 1] == '=');
    lemma_first_index_is(sl, '=', key.len() as int + 1);
    let after = sl.subrange(key.len() as int + 2, sl.len() as int);
    let quoted = seq!['"'] + value + seq!['"'];
    assert(after =~= seq![' '] + quoted);
    assert(quoted[0] == '"');
    assert(quoted.last() == '"');
    lemma_trim_ws_prefix(seq![' '], quoted);
    assert(trim_of(after) == quoted);
    assert(unquote(quoted) =~= value);
}

proof fn lemma_parse_no_tables(
    lv: Seq<Seq<char>>,
    table: Seq<char>,
    k1: Seq<char>,
    k2: Seq<char>,
    i: int,
)
    requires
        0 <= i <= lv.len(),
        forall|j: int| i <= j < lv.len() ==> !is_table_line(#[trigger] lv[j], table),
    ensures
        parse_tables_from(lv, table, k1, k2, i) == Seq::<(Seq<char>, Seq<char>)>::empty(),
    decreases lv.len() - i,
{
    if i < lv.len() {
        lemma_parse_no_tables(lv, table, k1, k2, i + 1);
    }
}

proof fn lemma_parse_skip(
    lv: Seq<Seq<char>>,
    table: Seq<char>,
    k1: Seq<char>,
    k2: Seq<char>,
    i: int,
    j: int,
)
    requires
        0 <= i <= j <= lv.len(),
        forall|x: int| i <= x < j ==> !is_table_line(#[trigger] lv[x], table),
    ensures
        parse_tables_from(lv, table, k1, k2, i) == parse_tables_from(lv, table, k1, k2, j),
    decreases j - i,
{
    if i < j {
        lemma_parse_skip(lv, table, k1, k2, i + 1, j);
    }
}

proof fn lemma_parse_blocks(
    out: Seq<Seq<char>>,
    table: Seq<char>,
    k1: Seq<char>,
    k2: Seq<char>,
    recs: Seq<(Seq<char>, Seq<char>)>,
    pos: int,
)
    requires
        recs.len() > 0,
        k1.len() > 0,
        !is_ws(k1[0]),
        k1[0] != '[',
        forall|i: int| 0 <= i < k1.len() ==> k1[i] != '=',
        k2.len() > 0,
        !is_ws(k2[0]),
        k2[0] != '[',
        forall|i: int| 0 <= i < k2.len() ==> k2[i] != '=',
        k1[0] != k2[0],
        0 <= pos,
        pos + blocks_of(table, k1, k2, recs).len() <= out.len(),
        forall|i: int|
            0 <= i < blocks_of(table, k1, k2, recs).len() ==> #[trigger] out[pos + i] == blocks_of(
                table,
                k1,
                k2,
                recs,
            )[i],
        forall|j: int|
            pos + blocks_of(table, k1, k2, recs).len() <= j < out.len() ==> !is_table_line(
                #[trigger] out[j],
                table,
            ),
    ensures
        parse_tables_from(out, table, k1, k2, pos) == recs,
    decreases recs.len(),
{
    let blocks = blocks_of(table, k1, k2, recs);
    let v1 = recs[0].0;
    let v2 = recs[0].1;
    lemma_table_header_trim(table);
    lemma_scalar_line_shape(k1, v1);
    lemma_scalar_line_shape(k2, v2);
    assert(out[pos + 0] == blocks[0]);
    assert(out[pos + 1] == blocks[1]);
    assert(out[pos + 2] == blocks[2]);
    assert(blocks[0] == table_header(table)) by {
        if recs.len() > 1 {
            assert(blocks[0] == record_block(table, k1, v1, k2, v2)[0]);
        }
    }
    assert(blocks[1] == scalar_line(k1, v1)) by {
        if recs.len() > 1 {
            assert(blocks[1] == record_block(table, k1, v1, k2, v2)[1]);
        }
    }
    assert(blocks[2] == scalar_line(k2, v2)) by {
        if recs.len() > 1 {
            assert(blocks[2] == record_block(table, k1, v1, k2, v2)[2]);
        }
    }
    assert(out[pos] == table_header(table));
    assert(is_table_line(out[pos], table));
    assert(out[pos + 1] == scalar_line(k1, v1));
    assert(out[pos + 2] == scalar_line(k2, v2));
    let p_hdr = |l: Seq<char>| is_header(l);
    let p_k1 = |l: Seq<char>| is_key_line(l, k1);
    let p_k2 = |l: Seq<char>| is_key_line(l, k2);
    // the field lines are key lines, and not of each other's key
    assert(scalar_line(k1, v1).subrange(0, k1.len() as int) =~= k1);
    assert(scalar_line(k1, v1)[k1.len() as int + 1] == '=');
    assert(p_k1(out[pos + 1]));
    assert(scalar_line(k2, v2).subrange(0, k2.len() as int) =~= k2);
    assert(scalar_line(k2, v2)[k2.len() as int + 1] == '=');
    assert(p_k2(out[pos + 2]));
    assert(!p_k2(out[pos + 1])) by {
        if p_k2(out[pos + 1]) {
            assert(trim_of(out[pos + 1]).subrange(0, k2.len() as int)[0] == k2[0]);
            assert(trim_of(out[pos + 1])[0] == k1[0]);
        }
    }
    lemma_find_from_is(out, pos + 1, pos + 1, p_k1);
    lemma_find_from_is(out, pos + 1, pos + 2, p_k2);
    lemma_scalar_value_roundtrip(k1, v1);
    lemma_scalar_value_roundtrip(k2, v2);
    let e = find_from(out, pos + 1, p_hdr);
    lemma_find_from_bounds(out, pos + 1, p_hdr);
    if recs.len() == 1 {
        assert(blocks.len() == 3);
        assert(e >= pos + 3) by {
            if e < pos + 3 {
                assert(p_hdr(out[e]));
            }
        }
        lemma_find_from_bounds(out, pos + 1, p_hdr);
        assert(parse_tables_from(out, table, k1, k2, pos) == seq![(v1, v2)] + parse_tables_from(
            out,
            table,
            k1,
            k2,
            e,
        ));
        assert(forall|j: int| e <= j < out.len() ==> !is_table_line(#[trigger] out[j], table)) by {
            assert(forall|j: int| pos + 3 <= j < out.len() ==> !is_table_line(
                #[trigger] out[j],
                table,
            ));
        }
        lemma_parse_no_tables(out, table, k1, k2, e);
        assert(seq![(v1, v2)] + Seq::<(Seq<char>, Seq<char>)>::empty() =~= recs);
    } else {
        let blocks_rest = blocks_of(table, k1, k2, recs.drop_first());
        assert(blocks =~= record_block(table, k1, v1, k2, v2) + seq![Seq::<char>::empty()]
            + blocks_rest);
        assert(out[pos + 3] == Seq::<char>::empty());
        assert(trim_of(Seq::<char>::empty()) =~= Seq::<char>::empty());
        assert(!is_header(out[pos + 3]));
        lemma_blocks_len(table, k1, k2, recs.drop_first());
        assert(out[pos + 4] == blocks_rest[0]);
        assert(blocks_rest[0] == table_header(table)) by {
            if recs.drop_first().len() == 1 {
            } else {
            }
        }
        assert(is_header(out[pos + 4]));
        lemma_find_from_is(out, pos + 1, pos + 4, p_hdr);
        assert(e == pos + 4);
        assert(parse_tables_from(out, table, k1, k2, pos) == seq![(v1, v2)] + parse_tables_from(
            out,
            table,
            k1,
            k2,
            pos + 4,
        ));
        assert forall|i: int| 0 <= i < blocks_rest.len() implies #[trigger] out[pos + 4 + i]
            == blocks_rest[i] by {
            assert(out[pos + (4 + i)] == blocks[4 + i]);
            assert(blocks[4 + i] == blocks_rest[i]);
        }
        lemma_parse_blocks(out, table, k1, k2, recs.drop_first(), pos + 4);
        assert(seq![(v1, v2)] + recs.drop_first() =~= recs);
    }
}

proof fn lemma_blocks_len(
    table: Seq<char>,
    k1: Seq<char>,
    k2: Seq<char>,
    recs: Seq<(Seq<char>, Seq<char>)>,
)
    ensures
        recs.len() == 0 ==> blocks_of(table, k1, k2, recs).len() == 0,
        recs.len() > 0 ==> blocks_of(table, k1, k2, recs).len() == 4 * recs.len() - 1,
    decreases recs.len(),
{
    if recs.len() > 1 {
        lemma_blocks_len(table, k1, k2, recs.drop_first());
    }
}

/// Law: the replaced table blocks parse back to exactly the records that
/// were written.  Together with the idempotence of the replacement and of
/// the merge, a rebuild against an unchanged asset tree reproduces the
/// manifest byte for byte.
pub proof fn lemma_replace_tables_parse_back(
    lv: Seq<Seq<char>>,
    section: Seq<char>,
    table: Seq<char>,
    k1: Seq<char>,
    k2: Seq<char>,
    recs: Seq<(Seq<char>, Seq<char>)>,
)
    requires
        replace_tables_spec(lv, section, table, k1, k2, recs) is Some,
        k1.len() > 0,
        !is_ws(k1[0]),
        k1[0] != '[',
        forall|i: int| 0 <= i < k1.len() ==> k1[i] != '=',
        k2.len() > 0,
        !is_ws(k2[0]),
        k2[0] != '[',
        forall|i: int| 0 <= i < k2.len() ==> k2[i] != '=',
        k1[0] != k2[0],
    ensures
        parse_tables_from(
            replace_tables_spec(lv, section, table, k1, k2, recs)->Some_0,
            table,
            k1,
            k2,
            0,
        ) == recs,
{
    let cl = strip_tables(lv, table, false);
    lemma_strip_no_table_lines(lv, table, false);
    let h = sec_start(cl, section);
    let e = sec_end(cl, h);
    lemma_find_from_bounds(cl, 0, |l: Seq<char>| is_section_line(l, section));
    lemma_find_from_bounds(cl, h + 1, |l: Seq<char>| is_header(l));
    lemma_content_end_props(cl, h, e);
    let p = content_end(cl, h, e);
    let head = cl.subrange(0, p);
    let tail = cl.subrange(e, cl.len() as int);
    let blocks = blocks_of(table, k1, k2, recs);
    let mid = if recs.len() > 0 {
        seq![Seq::<char>::empty()] + blocks
    } else {
        Seq::<Seq<char>>::empty()
    };
    let sep = if tail.len() > 0 {
        seq![Seq::<char>::empty()]
    } else {
        Seq::<Seq<char>>::empty()
    };
    let out = head + mid + sep + tail;
    assert(replace_tables_spec(lv, section, table, k1, k2, recs) == Some(out));
    assert(no_table_lines(head, table)) by {
        assert(forall|i: int| 0 <= i < head.len() ==> head[i] == cl[i]);
    }
    assert(no_table_lines(tail, table)) by {
        assert(forall|i: int| 0 <= i < tail.len() ==> tail[i] == cl[e + i]);
    }
    assert(trim_of(Seq::<char>::empty()) =~= Seq::<char>::empty());
    lemma_table_header_trim(table);
    assert(!is_table_line(Seq::<char>::empty(), table)) by {
        assert(table_header(table).len() >= 4);
    }
    if recs.len() == 0 {
        assert(forall|j: int| 0 <= j < out.len() ==> !is_table_line(#[trigger] out[j], table)) by {
            assert(forall|j: int| 0 <= j < head.len() ==> out[j] == head[j]);
            assert(forall|j: int|
                head.len() + sep.len() <= j < out.len() ==> out[j] == tail[j - head.len()
                    - sep.len()]);
            assert(sep.len() > 0 ==> out[head.len() as int] == Seq::<char>::empty());
        }
        lemma_parse_no_tables(out, table, k1, k2, 0);
    } else {
        let q0 = head.len() + 1;
        assert(forall|i: int| 0 <= i < blocks.len() ==> #[trigger] out[q0 + i] == blocks[i]);
        assert(forall|x: int| 0 <= x < q0 ==> !is_table_line(#[trigger] out[x], table)) by {
            assert(forall|x: int| 0 <= x < head.len() ==> out[x] == head[x]);
            assert(out[head.len() as int] == Seq::<char>::empty());
        }
        lemma_parse_skip(out, table, k1, k2, 0, q0 as int);
        assert(forall|j: int| q0 + blocks.len() <= j < out.len() ==> !is_table_line(
            #[trigger] out[j],
            table,
        )) by {
            assert(forall|j: int|
                q0 + blocks.len() <= j < out.len() ==> (out[j] == Seq::<char>::empty() || out[j]
                    == tail[j - q0 - blocks.len() - sep.len()]));
        }
        lemma_parse_blocks(out, table, k1, k2, recs, q0 as int);
    }
}

} // verus!

use vstd::prelude::*;
use crate::text::{lemma_join_lines_injective, no_newline};

verus! {

/// Appending the trailing empty line changes no scalar read.
proof fn lemma_pad_preserves_read(lv: Seq<Seq<char>>, section: Seq<char>, key: Seq<char>)
    requires
        read_scalar_spec(lv, section, key) is Some,
    ensures
        read_scalar_spec(pad_trailing(lv), section, key) == read_scalar_spec(lv, section, key),
{
    if lv.len() > 0 && lv.last().len() == 0 {
    } else {
        let out = lv.push(Seq::<char>::empty());
        let p_sec = |l: Seq<char>| is_section_line(l, section);
        let p_hdr = |l: Seq<char>| is_header(l);
        let p_key = |l: Seq<char>| is_key_line(l, key);
        let h = sec_start(lv, section);
        lemma_find_from_bounds(lv, 0, p_sec);
        assert(h < lv.len());
        let e = sec_end(lv, h);
        lemma_find_from_bounds(lv, h + 1, p_hdr);
        let k = find_from(lv, h + 1, p_key);
        lemma_find_from_bounds(lv, h + 1, p_key);
        assert(k < e);
        assert(trim_of(Seq::<char>::empty()) =~= Seq::<char>::empty());
        assert(forall|j: int| 0 <= j < lv.len() ==> #[trigger] out[j] == lv[j]);
        lemma_find_from_is(out, 0, h, p_sec);
        lemma_find_from_is(out, h + 1, k as int, p_key);
        if e < lv.len() {
            lemma_find_from_is(out, h + 1, e, p_hdr);
        } else {
            assert(!is_header(out[lv.len() as int]));
            lemma_find_from_is(out, h + 1, out.len() as int, p_hdr);
        }
    }
}

/// Law: a document-level scalar patch reparses to exactly the value that
/// was written.  A text splits into newline-free lines in only one way,
/// so the line-level round trip carries over to the document.
pub proof fn lemma_patch_doc_round_trip(
    orig: Seq<char>,
    section: Seq<char>,
    key: Seq<char>,
    value: Seq<char>,
    out: Seq<char>,
)
    requires
        scalar_doc_patched(orig, section, key, value, out),
        key.len() > 0,
        !is_ws(key[0]),
        key[0] != '[',
        forall|i: int| 0 <= i < key.len() ==> key[i] != '=' && key[i] != '\n',
        no_newline(value),
    ensures
        doc_scalar_read(out, section, key, Some(value)),
{
    let lv = choose|lv: Seq<Seq<char>>|
        #![trigger join_lines(lv)]
        all_no_newline(lv) && join_lines(lv) == orig && patch_scalar_spec(
            lv,
            section,
            key,
            value,
        ) is Some && out == join_lines(
            pad_trailing(patch_scalar_spec(lv, section, key, value)->Some_0),
        );
    lemma_patch_scalar_round_trip(lv, section, key, value);
    let ov = patch_scalar_spec(lv, section, key, value)->Some_0;
    let sl = scalar_line(key, value);
    assert(no_newline(sl)) by {
        assert(forall|i: int| 0 <= i < key.len() ==> sl[i] == key[i]);
        assert(sl[key.len() as int] == ' ' && sl[key.len() as int + 1] == '='
            && sl[key.len() as int + 2] == ' ' && sl[key.len() as int + 3] == '"');
        assert(forall|i: int|
            key.len() + 4 <= i < key.len() + 4 + value.len() ==> sl[i] == value[i - key.len()
                - 4]);
        assert(sl.last() == '"');
    }
    assert(all_no_newline(ov)) by {
        let h = sec_start(lv, section);
        let e = sec_end(lv, h);
        let kk = find_from(lv, h + 1, |l: Seq<char>| is_key_line(l, key));
        lemma_find_from_bounds(lv, 0, |l: Seq<char>| is_section_line(l, section));
        lemma_find_from_bounds(lv, h + 1, |l: Seq<char>| is_header(l));
        lemma_find_from_bounds(lv, h + 1, |l: Seq<char>| is_key_line(l, key));
        lemma_find_from_bounds(lv, h + 1, |l: Seq<char>| is_blank(l));
        if kk < e {
            let newl = indent_of(lv[kk]) + sl;
            assert(ov == lv.update(kk, newl));
            assert(no_newline(lv[kk]));
            lemma_ltrim_props(lv[kk]);
            assert forall|x: int| 0 <= x < newl.len() implies newl[x] != '\n' by {
                if x < indent_of(lv[kk]).len() {
                    assert(newl[x] == indent_of(lv[kk])[x]);
                    assert(indent_of(lv[kk])[x] == lv[kk][x]);
                } else {
                    assert(newl[x] == sl[x - indent_of(lv[kk]).len()]);
                }
            }
            assert(no_newline(newl));
            assert forall|j: int| 0 <= j < ov.len() implies no_newline(#[trigger] ov[j]) by {
                if j != kk {
                    assert(ov[j] == lv[j]);
                }
            }
        } else {
            let b = find_from(lv, h + 1, |l: Seq<char>| is_blank(l));
            let p = if b < e {
                b
            } else {
                e
            };
            assert(ov == lv.insert(p, sl));
            lv.insert_ensures(p, sl);
            assert forall|j: int| 0 <= j < ov.len() implies no_newline(#[trigger] ov[j]) by {
                if j < p {
                    assert(ov[j] == lv[j]);
                } else if j == p {
                    assert(ov[j] == sl);
                } else {
                    assert(ov[j] == lv[j - 1]);
                }
            }
        }
    }
    lemma_pad_preserves_read(ov, section, key);
    let padded = pad_trailing(ov);
    assert(all_no_newline(padded)) by {
        if !(ov.len() > 0 && ov.last().len() == 0) {
            assert(forall|j: int| 0 <= j < ov.len() ==> #[trigger] padded[j] == ov[j]);
            assert(padded[ov.len() as int].len() == 0);
        }
    }
    assert(all_no_newline(padded) && join_lines(padded) == out && read_scalar_spec(
        padded,
        section,
        key,
    ) == Some(value));
}

/// Law: the patched document is a function of the inputs.  A text splits
/// into newline-free lines in only one way, so any two outputs the scalar
/// patch predicate admits for one input agree byte for byte.
pub proof fn lemma_scalar_doc_patched_functional(
    orig: Seq<char>,
    section: Seq<char>,
    key: Seq<char>,
    value: Seq<char>,
    out1: Seq<char>,
    out2: Seq<char>,
)
    requires
        scalar_doc_patched(orig, section, key, value, out1),
        scalar_doc_patched(orig, section, key, value, out2),
    ensures
        out1 == out2,
{
    let lv1 = choose|lv: Seq<Seq<char>>|
        #![trigger join_lines(lv)]
        all_no_newline(lv) && join_lines(lv) == orig && patch_scalar_spec(
            lv,
            section,
            key,
            value,
        ) is Some && out1 == join_lines(
            pad_trailing(patch_scalar_spec(lv, section, key, value)->Some_0),
        );
    let lv2 = choose|lv: Seq<Seq<char>>|
        #![trigger join_lines(lv)]
        all_no_newline(lv) && join_lines(lv) == orig && patch_scalar_spec(
            lv,
            section,
            key,
            value,
        ) is Some && out2 == join_lines(
            pad_trailing(patch_scalar_spec(lv, section, key, value)->Some_0),
        );
    lemma_find_from_bounds(lv1, 0, |l: Seq<char>| is_section_line(l, section));
    lemma_find_from_bounds(lv2, 0, |l: Seq<char>| is_section_line(l, section));
    assert(lv1.len() >= 1 && lv2.len() >= 1);
    lemma_join_lines_injective(lv1, lv2);
}

/// Law: the document with replaced table blocks is a function of the
/// inputs, for the same reason.
pub proof fn lemma_tables_doc_patched_functional(
    orig: Seq<char>,
    section: Seq<char>,
    table: Seq<char>,
    k1: Seq<char>,
    k2: Seq<char>,
    recs: Seq<(Seq<char>, Seq<char>)>,
    out1: Seq<char>,
    out2: Seq<char>,
)
    requires
        tables_doc_patched(orig, section, table, k1, k2, recs, out1),
        tables_doc_patched(orig, section, table, k1, k2, recs, out2),
    ensures
        out1 == out2,
{
    let lv1 = choose|lv: Seq<Seq<char>>|
        #![trigger join_lines(lv)]
        all_no_newline(lv) && join_lines(lv) == orig && replace_tables_spec(
            lv,
            section,
            table,
            k1,
            k2,
            recs,
        ) is Some && out1 == join_lines(
            pad_trailing(replace_tables_spec(lv, section, table, k1, k2, recs)->Some_0),
        );
    let lv2 = choose|lv: Seq<Seq<char>>|
        #![trigger join_lines(lv)]
        all_no_newline(lv) && join_lines(lv) == orig && replace_tables_spec(
            lv,
            section,
            table,
            k1,
            k2,
            recs,
        ) is Some && out2 == join_lines(
            pad_trailing(replace_tables_spec(lv, section, table, k1, k2, recs)->Some_0),
        );
    assert(lv1.len() >= 1) by {
        if lv1.len() == 0 {
            assert(strip_tables(lv1, table, false) =~= Seq::<Seq<char>>::empty());
        }
    }
    assert(lv2.len() >= 1) by {
        if lv2.len() == 0 {
            assert(strip_tables(lv2, table, false) =~= Seq::<Seq<char>>::empty());
        }
    }
    lemma_join_lines_injective(lv1, lv2);
}

} // verus!

use vstd::prelude::*;

verus! {

/// Every line the strip keeps is a line of the input.
proof fn lemma_strip_lines_from_input(lv: Seq<Seq<char>>, table: Seq<char>, skipping: bool)
    ensures
        forall|j: int|
            0 <= j < strip_tables(lv, table, skipping).len() ==> exists|i: int|
                0 <= i < lv.len() && #[trigger] strip_tables(lv, table, skipping)[j] == lv[i],
    decreases lv.len(),
{
    if lv.len() > 0 {
        let rest = lv.drop_first();
        lemma_strip_lines_from_input(rest, table, true);
        lemma_strip_lines_from_input(rest, table, false);
        let out = strip_tables(lv, table, skipping);
        assert forall|j: int| 0 <= j < out.len() implies exists|i: int|
            0 <= i < lv.len() && #[trigger] out[j] == lv[i] by {
            if (!skipping && !is_table_line(lv[0], table)) || (skipping && is_header(lv[0])
                && !is_table_line(lv[0], table)) {
                if j == 0 {
                    assert(out[0] == lv[0]);
                } else {
                    let sub = strip_tables(rest, table, false);
                    assert(out[j] == sub[j - 1]);
                    let i = choose|i: int| 0 <= i < rest.len() && sub[j - 1] == rest[i];
                    assert(lv[i + 1] == rest[i]);
                }
            } else {
                let sub = strip_tables(rest, table, true);
                assert(out == sub);
                let i = choose|i: int| 0 <= i < rest.len() && sub[j] == rest[i];
                assert(lv[i + 1] == rest[i]);
            }
        }
    }
}

/// The serialized blocks carry no newline when the table name, the keys
/// and the record fields carry none.
proof fn lemma_blocks_no_newline(
    table: Seq<char>,
    k1: Seq<char>,
    k2: Seq<char>,
    recs: Seq<(Seq<char>, Seq<char>)>,
)
    requires
        no_newline(table),
        no_newline(k1),
        no_newline(k2),
        forall|i: int|
            0 <= i < recs.len() ==> no_newline(#[trigger] recs[i].0) && no_newline(recs[i].1),
    ensures
        all_no_newline(blocks_of(table, k1, k2, recs)),
    decreases recs.len(),
{
    if recs.len() > 0 {
        let th = table_header(table);
        let l1 = scalar_line(k1, recs[0].0);
        let l2 = scalar_line(k2, recs[0].1);
        assert(no_newline(th)) by {
            assert(th[0] == '[' && th[1] == '[');
            assert(forall|x: int| 0 <= x < table.len() ==> th[2 + x] == table[x]);
            assert(th[table.len() as int + 2] == ']' && th[table.len() as int + 3] == ']');
        }
        assert(no_newline(l1)) by {
            lemma_scalar_line_no_newline(k1, recs[0].0);
        }
        assert(no_newline(l2)) by {
            lemma_scalar_line_no_newline(k2, recs[0].1);
        }
        if recs.len() == 1 {
            let b = blocks_of(table, k1, k2, recs);
            assert(b[0] == th && b[1] == l1 && b[2] == l2);
        } else {
            assert(forall|i: int|
                0 <= i < recs.drop_first().len() ==> no_newline(
                    #[trigger] recs.drop_first()[i].0,
                ) && no_newline(recs.drop_first()[i].1)) by {
                assert(forall|i: int|
                    0 <= i < recs.drop_first().len() ==> recs.drop_first()[i] == recs[i + 1]);
            }
            lemma_blocks_no_newline(table, k1, k2, recs.drop_first());
            let hd = record_block(table, k1, recs[0].0, k2, recs[0].1) + seq![Seq::<char>::empty()];
            let tl = blocks_of(table, k1, k2, recs.drop_first());
            let b = blocks_of(table, k1, k2, recs);
            assert(b =~= hd + tl);
            assert forall|j: int| 0 <= j < b.len() implies no_newline(#[trigger] b[j]) by {
                if j < hd.len() {
                    assert(b[j] == hd[j]);
                } else {
                    assert(b[j] == tl[j - hd.len()]);
                }
            }
        }
    }
}

proof fn lemma_scalar_line_no_newline(key: Seq<char>, value: Seq<char>)
    requires
        no_newline(key),
        no_newline(value),
    ensures
        no_newline(scalar_line(key, value)),
{
    let sl = scalar_line(key, value);
    assert forall|x: int| 0 <= x < sl.len() implies sl[x] != '\n' by {
        if x < key.len() {
            assert(sl[x] == key[x]);
        } else if x < key.len() + 4 {
            assert(sl[x] == seq![' ', '=', ' ', '"'][x - key.len()]);
        } else if x < key.len() + 4 + value.len() {
            assert(sl[x] == value[x - key.len() - 4]);
        } else {
            assert(sl[x] == '"');
        }
    }
}

} // verus!

use vstd::prelude::*;

verus! {

/// Replacing the table blocks of the padded output reproduces the padded
/// output: the trailing empty line the document form appends survives a
/// second replacement.
#[verifier::rlimit(100)]
proof fn lemma_replace_tables_padded(
    lv: Seq<Seq<char>>,
    section: Seq<char>,
    table: Seq<char>,
    k1: Seq<char>,
    k2: Seq<char>,
    recs: Seq<(Seq<char>, Seq<char>)>,
)
    requires
        replace_tables_spec(lv, section, table, k1, k2, recs) is Some,
        k1.len() > 0,
        !is_ws(k1[0]),
        k1[0] != '[',
        k2.len() > 0,
        !is_ws(k2[0]),
        k2[0] != '[',
    ensures
        ({
            let out = replace_tables_spec(lv, section, table, k1, k2, recs)->Some_0;
            let outp = pad_trailing(out);
            replace_tables_spec(outp, section, table, k1, k2, recs) is Some && pad_trailing(
                replace_tables_spec(outp, section, table, k1, k2, recs)->Some_0,
            ) == outp
        }),
{
    let p_sec = |l: Seq<char>| is_section_line(l, section);
    let p_hdr = |l: Seq<char>| is_header(l);
    let cl = strip_tables(lv, table, false);
    lemma_strip_no_table_lines(lv, table, false);
    let h = sec_start(cl, section);
    let e = sec_end(cl, h);
    lemma_find_from_bounds(cl, 0, p_sec);
    assert(h < cl.len());
    lemma_find_from_bounds(cl, h + 1, p_hdr);
    lemma_content_end_props(cl, h, e);
    let p = content_end(cl, h, e);
    let head = cl.subrange(0, p);
    let tail = cl.subrange(e, cl.len() as int);
    let blocks = blocks_of(table, k1, k2, recs);
    let mid = if recs.len() > 0 {
        seq![Seq::<char>::empty()] + blocks
    } else {
        Seq::<Seq<char>>::empty()
    };
    let sep = if tail.len() > 0 {
        seq![Seq::<char>::empty()]
    } else {
        Seq::<Seq<char>>::empty()
    };
    let out = head + mid + sep + tail;
    assert(replace_tables_spec(lv, section, table, k1, k2, recs) == Some(out));
    assert(out.len() > 0);
    if out.last().len() == 0 {
        lemma_replace_tables_idempotent(lv, section, table, k1, k2, recs);
        assert(pad_trailing(out) == out);
    } else {
        let outp = out.push(Seq::<char>::empty());
        assert(pad_trailing(out) == outp);
        assert(no_table_lines(head, table)) by {
            assert(forall|i: int| 0 <= i < head.len() ==> head[i] == cl[i]);
        }
        assert(no_table_lines(tail, table)) by {
            assert(forall|i: int| 0 <= i < tail.len() ==> tail[i] == cl[e + i]);
        }
        lemma_blocks_headers(table, k1, k2, recs);
        assert(trim_of(Seq::<char>::empty()) =~= Seq::<char>::empty());
        lemma_table_header_trim(table);
        assert(!is_table_line(Seq::<char>::empty(), table)) by {
            assert(table_header(table).len() >= 4);
        }
        let tailp = tail.push(Seq::<char>::empty());
        // the strip of the padded output: the pad survives behind a kept
        // trailing section, and is eaten by the block skip otherwise
        let cl2 = if tail.len() > 0 {
            head.push(Seq::<char>::empty()) + tailp
        } else {
            head.push(Seq::<char>::empty())
        };
        assert(strip_tables(outp, table, false) == cl2) by {
            if recs.len() > 0 {
                let after_blank = blocks + sep + tailp;
                assert(outp =~= (head.push(Seq::<char>::empty())) + after_blank);
                assert(no_table_lines(head.push(Seq::<char>::empty()), table)) by {
                    assert(forall|i: int|
                        0 <= i < head.len() ==> head.push(Seq::<char>::empty())[i] == head[i]);
                }
                lemma_strip_clean_prefix(head.push(Seq::<char>::empty()), after_blank, table);
                assert(after_blank[0] == table_header(table));
                assert(is_table_line(after_blank[0], table));
                if tail.len() == 0 {
                    // the skip region runs to the end, eating the pad
                    let ms = blocks.drop_first() + tailp;
                    assert(after_blank.drop_first() =~= ms + Seq::<Seq<char>>::empty());
                    assert(ms + Seq::<Seq<char>>::empty() =~= ms);
                    assert(headers_only_table(ms, table)) by {
                        assert(forall|i: int|
                            0 <= i < blocks.drop_first().len() ==> blocks.drop_first()[i]
                                == blocks[i + 1]);
                        assert(forall|i: int|
                            0 <= i < ms.len() && i < blocks.drop_first().len() ==> ms[i]
                                == blocks.drop_first()[i]);
                        assert(forall|i: int|
                            blocks.drop_first().len() <= i < ms.len() ==> ms[i]
                                == Seq::<char>::empty());
                    }
                    lemma_strip_skipped_region(ms, Seq::<Seq<char>>::empty(), table);
                    assert(strip_tables(Seq::<Seq<char>>::empty(), table, true) =~= Seq::<
                        Seq<char>,
                    >::empty());
                    assert(head.push(Seq::<char>::empty()) + Seq::<Seq<char>>::empty() =~= cl2);
                } else {
                    let ms = blocks.drop_first() + sep;
                    assert(after_blank.drop_first() =~= ms + tailp);
                    assert(headers_only_table(ms, table)) by {
                        assert(forall|i: int|
                            0 <= i < blocks.drop_first().len() ==> blocks.drop_first()[i]
                                == blocks[i + 1]);
                        assert(forall|i: int|
                            0 <= i < ms.len() && i < blocks.drop_first().len() ==> ms[i]
                                == blocks.drop_first()[i]);
                        assert(forall|i: int|
                            blocks.drop_first().len() <= i < ms.len() ==> ms[i]
                                == Seq::<char>::empty());
                    }
                    lemma_strip_skipped_region(ms, tailp, table);
                    assert(tailp[0] == tail[0]);
                    assert(tail[0] == cl[e]);
                    assert(is_header(tailp[0]));
                    assert(!is_table_line(tailp[0], table));
                    assert(no_table_lines(tailp.drop_first(), table)) by {
                        assert(forall|i: int|
                            0 <= i < tail.len() - 1 ==> tailp.drop_first()[i] == tail[i + 1]);
                        assert(tailp.drop_first()[tail.len() - 1] == Seq::<char>::empty());
                    }
                    lemma_strip_clean(tailp.drop_first(), table);
                    assert(strip_tables(tailp, table, true) == seq![tailp[0]]
                        + tailp.drop_first());
                    assert(seq![tailp[0]] + tailp.drop_first() =~= tailp);
                    assert(head.push(Seq::<char>::empty()) + tailp =~= cl2);
                }
            } else {
                if tail.len() == 0 {
                    assert(outp =~= head.push(Seq::<char>::empty()));
                    assert(no_table_lines(head.push(Seq::<char>::empty()), table)) by {
                        assert(forall|i: int|
                            0 <= i < head.len() ==> head.push(Seq::<char>::empty())[i] == head[i]);
                    }
                    lemma_strip_clean(head.push(Seq::<char>::empty()), table);
                } else {
                    assert(outp =~= head.push(Seq::<char>::empty()) + tailp);
                    assert(no_table_lines(head.push(Seq::<char>::empty()) + tailp, table)) by {
                        let w = head.push(Seq::<char>::empty()) + tailp;
                        assert(forall|i: int| 0 <= i < head.len() ==> w[i] == head[i]);
                        assert(w[head.len() as int] == Seq::<char>::empty());
                        assert(forall|i: int|
                            0 <= i < tail.len() ==> w[head.len() + 1 + i] == tail[i]);
                        assert(w[w.len() - 1] == Seq::<char>::empty());
                    }
                    lemma_strip_clean(head.push(Seq::<char>::empty()) + tailp, table);
                }
            }
        }
        // the section is found at the same place
        assert(h + 1 <= p);
        assert(forall|i: int| 0 <= i < head.len() ==> #[trigger] cl2[i] == cl[i]);
        assert forall|j: int| 0 <= j < h implies !p_sec(#[trigger] cl2[j]) by {
            assert(cl2[j] == cl[j]);
        }
        assert(cl2[h] == cl[h]);
        lemma_find_from_is(cl2, 0, h, p_sec);
        assert(sec_start(cl2, section) == h);
        // and it ends at the blank separator or the end
        let e2 = sec_end(cl2, h);
        assert(cl2[p as int] == Seq::<char>::empty());
        assert(!is_header(Seq::<char>::empty()));
        assert forall|j: int| h + 1 <= j < p + 1 implies !p_hdr(#[trigger] cl2[j]) by {
            if j < p {
                assert(cl2[j] == cl[j]);
                assert(j < e);
            }
        }
        if tail.len() > 0 {
            assert(cl2[p + 1] == tailp[0]);
            assert(tailp[0] == tail[0]);
            assert(is_header(cl2[p + 1]));
            lemma_find_from_is(cl2, h + 1, p + 1, p_hdr);
        } else {
            assert(cl2.len() == p + 1);
            lemma_find_from_is(cl2, h + 1, p + 1, p_hdr);
        }
        assert(e2 == p + 1);
        // the scalar content still ends where it did
        lemma_content_end_props(cl2, h, e2);
        let p2 = content_end(cl2, h, e2);
        assert(p2 == p) by {
            assert(is_blank(Seq::<char>::empty()));
            if p > h + 1 {
                assert(cl2[p - 1] == cl[p - 1]);
                assert(!is_blank(cl2[p - 1]));
                assert(content_end(cl2, h, p + 1) == p);
            } else {
                assert(content_end(cl2, h, p + 1) == p);
            }
        }
        let head2 = cl2.subrange(0, p2);
        let tail2 = cl2.subrange(e2, cl2.len() as int);
        assert(head2 =~= head);
        let sep2 = if tail2.len() > 0 {
            seq![Seq::<char>::empty()]
        } else {
            Seq::<Seq<char>>::empty()
        };
        let res = head2 + mid + sep2 + tail2;
        assert(replace_tables_spec(outp, section, table, k1, k2, recs) == Some(res));
        if tail.len() > 0 {
            assert(tail2 =~= tailp) by {
                assert(forall|i: int|
                    0 <= i < tailp.len() ==> #[trigger] tail2[i] == cl2[p + 1 + i]);
                assert(forall|i: int| 0 <= i < tailp.len() ==> cl2[p + 1 + i] == tailp[i]);
            }
            assert(res =~= outp);
            assert(pad_trailing(res) == outp);
        } else {
            assert(tail2 =~= Seq::<Seq<char>>::empty());
            assert(res =~= out);
            assert(pad_trailing(res) == outp);
        }
    }
}

} // verus!

use vstd::prelude::*;

verus! {

/// Law: consecutive rebuilds leave the manifest byte-identical at the
/// document level.  A document that was produced by replacing the table
/// blocks, patched again with the same records, is reproduced byte for
/// byte, trailing newline included.
pub proof fn lemma_tables_doc_fixed_point(
    orig: Seq<char>,
    section: Seq<char>,
    table: Seq<char>,
    k1: Seq<char>,
    k2: Seq<char>,
    recs: Seq<(Seq<char>, Seq<char>)>,
    out: Seq<char>,
)
    requires
        tables_doc_patched(orig, section, table, k1, k2, recs, out),
        k1.len() > 0,
        !is_ws(k1[0]),
        k1[0] != '[',
        k2.len() > 0,
        !is_ws(k2[0]),
        k2[0] != '[',
        no_newline(table),
        no_newline(k1),
        no_newline(k2),
        forall|i: int|
            0 <= i < recs.len() ==> no_newline(#[trigger] recs[i].0) && no_newline(recs[i].1),
    ensures
        tables_doc_patched(out, section, table, k1, k2, recs, out),
{
    let lv = choose|lv: Seq<Seq<char>>|
        #![trigger join_lines(lv)]
        all_no_newline(lv) && join_lines(lv) == orig && replace_tables_spec(
            lv,
            section,
            table,
            k1,
            k2,
            recs,
        ) is Some && out == join_lines(
            pad_trailing(replace_tables_spec(lv, section, table, k1, k2, recs)->Some_0),
        );
    let ov = replace_tables_spec(lv, section, table, k1, k2, recs)->Some_0;
    // every line of the replaced document is newline-free
    let cl = strip_tables(lv, table, false);
    lemma_strip_lines_from_input(lv, table, false);
    let h = sec_start(cl, section);
    let e = sec_end(cl, h);
    lemma_find_from_bounds(cl, 0, |l: Seq<char>| is_section_line(l, section));
    lemma_find_from_bounds(cl, h + 1, |l: Seq<char>| is_header(l));
    lemma_content_end_props(cl, h, e);
    let p = content_end(cl, h, e);
    let head = cl.subrange(0, p);
    let tail = cl.subrange(e, cl.len() as int);
    let blocks = blocks_of(table, k1, k2, recs);
    let mid = if recs.len() > 0 {
        seq![Seq::<char>::empty()] + blocks
    } else {
        Seq::<Seq<char>>::empty()
    };
    let sep = if tail.len() > 0 {
        seq![Seq::<char>::empty()]
    } else {
        Seq::<Seq<char>>::empty()
    };
    assert(ov == head + mid + sep + tail);
    lemma_blocks_no_newline(table, k1, k2, recs);
    assert(all_no_newline(ov)) by {
        assert forall|j: int| 0 <= j < ov.len() implies no_newline(#[trigger] ov[j]) by {
            if j < head.len() {
                assert(ov[j] == cl[j]);
                let i = choose|i: int| 0 <= i < lv.len() && cl[j] == lv[i];
                assert(no_newline(lv[i]));
            } else if j < head.len() + mid.len() {
                assert(ov[j] == mid[j - head.len()]);
                if j - head.len() == 0 {
                    assert(mid[0] == Seq::<char>::empty());
                } else {
                    assert(mid[j - head.len()] == blocks[j - head.len() - 1]);
                }
            } else if j < head.len() + mid.len() + sep.len() {
                assert(ov[j] == Seq::<char>::empty());
            } else {
                let t = j - head.len() - mid.len() - sep.len();
                assert(ov[j] == tail[t]);
                assert(tail[t] == cl[e + t]);
                let i = choose|i: int| 0 <= i < lv.len() && cl[e + t] == lv[i];
                assert(no_newline(lv[i]));
            }
        }
    }
    lemma_replace_tables_padded(lv, section, table, k1, k2, recs);
    let lvp = pad_trailing(ov);
    assert(all_no_newline(lvp)) by {
        if !(ov.len() > 0 && ov.last().len() == 0) {
            assert(forall|j: int| 0 <= j < ov.len() ==> #[trigger] lvp[j] == ov[j]);
            assert(lvp[ov.len() as int].len() == 0);
        }
    }
    let res = replace_tables_spec(lvp, section, table, k1, k2, recs)->Some_0;
    assert(join_lines(pad_trailing(res)) == out);
    assert(all_no_newline(lvp) && join_lines(lvp) == out && replace_tables_spec(
        lvp,
        section,
        table,
        k1,
        k2,
        recs,
    ) is Some && out == join_lines(
        pad_trailing(replace_tables_spec(lvp, section, table, k1, k2, recs)->Some_0),
    ));
}

} // verus!
