//! Line-oriented text model.
//!
//! Manifest edits are format-preserving: a document is split into lines,
//! edited at whole-line granularity, and joined back.  `split_lines` and
//! `join_text` are exact inverses, so a caller that changes one entry of
//! the line vector changes exactly that span of the document text.

use vstd::prelude::*;

verus! {

/// View of a line vector as a sequence of character sequences.
pub open spec fn line_views(v: Seq<String>) -> Seq<Seq<char>> {
    v.map_values(|l: String| l@)
}

/// The text denoted by a sequence of lines: the lines separated by `'\n'`.
pub open spec fn join_lines(ls: Seq<Seq<char>>) -> Seq<char>
    decreases ls.len(),
{
    if ls.len() == 0 {
        Seq::empty()
    } else if ls.len() == 1 {
        ls[0]
    } else {
        ls[0] + seq!['\n'] + join_lines(ls.drop_first())
    }
}

pub open spec fn no_newline(s: Seq<char>) -> bool {
    forall|i: int| 0 <= i < s.len() ==> s[i] != '\n'
}

pub open spec fn all_no_newline(ls: Seq<Seq<char>>) -> bool {
    forall|i: int| 0 <= i < ls.len() ==> no_newline(#[trigger] ls[i])
}

pub proof fn lemma_join_push(ls: Seq<Seq<char>>, x: Seq<char>)
    ensures
        ls.len() == 0 ==> join_lines(ls.push(x)) == x,
        ls.len() > 0 ==> join_lines(ls.push(x)) == join_lines(ls) + seq!['\n'] + x,
    decreases ls.len(),
{
    if ls.len() == 0 {
        assert(ls.push(x)[0] == x);
    } else if ls.len() == 1 {
        assert(ls.push(x).drop_first() =~= seq![x]);
        assert(join_lines(seq![x]) == x);
        assert(join_lines(ls.push(x)) == ls.push(x)[0] + seq!['\n'] + join_lines(
            ls.push(x).drop_first(),
        ));
        assert(ls.push(x)[0] == ls[0]);
        assert(join_lines(ls) == ls[0]);
    } else {
        assert(ls.push(x).drop_first() =~= ls.drop_first().push(x));
        lemma_join_push(ls.drop_first(), x);
        assert(join_lines(ls.push(x)) == ls[0] + seq!['\n'] + join_lines(ls.drop_first().push(x)));
        assert((ls[0] + seq!['\n'] + (join_lines(ls.drop_first()) + seq!['\n'] + x)) =~= (ls[0]
            + seq!['\n'] + join_lines(ls.drop_first())) + seq!['\n'] + x);
    }
}

/// Splits text into its lines at every `'\n'`.  The result never drops a
/// trailing empty segment, so joining the lines back with `'\n'` restores
/// the input byte for byte.
pub fn split_lines(s: &str) -> (r: Vec<String>)
    ensures
        join_lines(line_views(r@)) == s@,
        r@.len() >= 1,
        all_no_newline(line_views(r@)),
{
    let n = s.unicode_len();
    let mut lines: Vec<String> = Vec::new();
    let mut start: usize = 0;
    let mut i: usize = 0;
    proof {
        assert(s@.subrange(0, n as int) =~= s@);
    }
    while i < n
        invariant
            n == s@.len(),
            0 <= start <= i <= n,
            join_lines(line_views(lines@).push(s@.subrange(start as int, n as int))) == s@,
            no_newline(s@.subrange(start as int, i as int)),
            all_no_newline(line_views(lines@)),
        decreases n - i,
    {
        if s.get_char(i) == '\n' {
            let piece = s.substring_char(start, i).to_owned();
            proof {
                let lv = line_views(lines@);
                let a = s@.subrange(start as int, i as int);
                let b = s@.subrange(i + 1, n as int);
                let rest = s@.subrange(start as int, n as int);
                assert(rest =~= a + seq!['\n'] + b);
                lemma_join_push(lv, rest);
                lemma_join_push(lv, a);
                lemma_join_push(lv.push(a), b);
                if lv.len() == 0 {
                    assert(join_lines(lv.push(a).push(b)) == a + seq!['\n'] + b);
                } else {
                    assert(join_lines(lv.push(a).push(b)) == (join_lines(lv) + seq!['\n'] + a)
                        + seq!['\n'] + b);
                    assert((join_lines(lv) + seq!['\n'] + a) + seq!['\n'] + b =~= join_lines(lv)
                        + seq!['\n'] + rest);
                }
                assert(line_views(lines@.push(piece)) =~= lv.push(a));
            }
            lines.push(piece);
            start = i + 1;
            proof {
                assert(s@.subrange(start as int, start as int) =~= Seq::<char>::empty());
            }
        } else {
            proof {
                assert(s@.subrange(start as int, i + 1) =~= s@.subrange(start as int, i as int).push(
                    s@[i as int],
                ));
            }
        }
        i = i + 1;
    }
    let last = s.substring_char(start, n).to_owned();
    proof {
        assert(line_views(lines@.push(last)) =~= line_views(lines@).push(
            s@.subrange(start as int, n as int),
        ));
    }
    lines.push(last);
    lines
}

/// Joins lines with `'\n'` separators; the inverse of `split_lines`.
pub fn join_text(lines: &Vec<String>) -> (r: String)
    requires
        lines@.len() >= 1,
    ensures
        r@ == join_lines(line_views(lines@)),
{
    let mut out = String::new();
    let mut idx: usize = 0;
    let n = lines.len();
    while idx < n
        invariant
            n == lines@.len(),
            0 <= idx <= n,
            out@ == join_lines(line_views(lines@.take(idx as int))),
        decreases n - idx,
    {
        if idx > 0 {
            out.append("\n");
            proof {
                reveal_strlit("\n");
            }
        }
        out.append(lines[idx].as_str());
        proof {
            let prefix = line_views(lines@.take(idx as int));
            lemma_join_push(prefix, lines@[idx as int]@);
            assert(line_views(lines@.take(idx + 1)) =~= prefix.push(lines@[idx as int]@));
        }
        idx = idx + 1;
    }
    proof {
        assert(lines@.take(n as int) =~= lines@);
    }
    out
}

/// Whitespace that may surround a token.
pub open spec fn is_ws(c: char) -> bool {
    c == ' ' || c == '\t' || c == '\r' || c == '\n'
}

pub open spec fn ltrim_of(s: Seq<char>) -> Seq<char>
    decreases s.len(),
{
    if s.len() > 0 && is_ws(s[0]) {
        ltrim_of(s.drop_first())
    } else {
        s
    }
}

pub open spec fn rtrim_of(s: Seq<char>) -> Seq<char>
    decreases s.len(),
{
    if s.len() > 0 && is_ws(s.last()) {
        rtrim_of(s.drop_last())
    } else {
        s
    }
}

/// A line with surrounding whitespace removed.
pub open spec fn trim_of(s: Seq<char>) -> Seq<char> {
    rtrim_of(ltrim_of(s))
}

pub open spec fn is_blank(s: Seq<char>) -> bool {
    trim_of(s).len() == 0
}

pub proof fn lemma_ltrim_subrange(s: Seq<char>, k: int)
    requires
        0 <= k <= s.len(),
        forall|i: int| 0 <= i < k ==> is_ws(s[i]),
        k < s.len() ==> !is_ws(s[k]),
    ensures
        ltrim_of(s) == s.subrange(k, s.len() as int),
    decreases k,
{
    if k == 0 {
        assert(s.subrange(0, s.len() as int) =~= s);
    } else {
        assert(is_ws(s[0]));
        let t = s.drop_first();
        assert(forall|i: int| 0 <= i < k - 1 ==> is_ws(#[trigger] t[i]));
        lemma_ltrim_subrange(t, k - 1);
        assert(t.subrange(k - 1, t.len() as int) =~= s.subrange(k, s.len() as int));
    }
}

pub proof fn lemma_rtrim_subrange(s: Seq<char>, k: int)
    requires
        0 <= k <= s.len(),
        forall|i: int| k <= i < s.len() ==> is_ws(s[i]),
        k > 0 ==> !is_ws(s[k - 1]),
    ensures
        rtrim_of(s) == s.subrange(0, k),
    decreases s.len() - k,
{
    if k == s.len() {
        assert(s.subrange(0, k) =~= s);
    } else {
        assert(is_ws(s.last()));
        let t = s.drop_last();
        assert(forall|i: int| k <= i < t.len() ==> is_ws(#[trigger] t[i]));
        lemma_rtrim_subrange(t, k);
        assert(t.subrange(0, k) =~= s.subrange(0, k));
    }
}

/// Removes the whitespace around a line's content.
pub fn trim_line(s: &str) -> (r: String)
    ensures
        r@ == trim_of(s@),
{
    let n = s.unicode_len();
    let mut lo: usize = 0;
    while lo < n && is_ws_char(s.get_char(lo))
        invariant
            n == s@.len(),
            0 <= lo <= n,
            forall|i: int| 0 <= i < lo ==> is_ws(s@[i]),
        decreases n - lo,
    {
        lo = lo + 1;
    }
    proof {
        lemma_ltrim_subrange(s@, lo as int);
    }
    if lo == n {
        proof {
            assert(s@.subrange(lo as int, n as int) =~= Seq::<char>::empty());
        }
        return String::new();
    }
    let mut hi: usize = n;
    while hi > lo && is_ws_char(s.get_char(hi - 1))
        invariant
            n == s@.len(),
            lo <= hi <= n,
            lo < n,
            !is_ws(s@[lo as int]),
            forall|i: int| hi <= i < n ==> is_ws(s@[i]),
        decreases hi,
    {
        hi = hi - 1;
    }
    let r = s.substring_char(lo, hi).to_owned();
    proof {
        let mid = s@.subrange(lo as int, n as int);
        assert(forall|i: int| hi - lo <= i < mid.len() ==> is_ws(#[trigger] mid[i]));
        assert(hi > lo);
        assert(mid[hi - lo - 1] == s@[hi - 1]);
        lemma_rtrim_subrange(mid, hi - lo);
        assert(mid.subrange(0, hi - lo) =~= s@.subrange(lo as int, hi as int));
    }
    r
}

/// Relies on std's String::push: appends exactly the given character.
#[verifier::external_body]
pub fn push_char(s: &mut String, c: char)
    ensures
        final (s)@ == old(s)@.push(c),
{
    s.push(c)
}

/// Executable counterpart of `is_ws`.
pub fn is_ws_char(c: char) -> (r: bool)
    ensures
        r == is_ws(c),
{
    c == ' ' || c == '\t' || c == '\r' || c == '\n'
}

/// The leading whitespace of a line, as kept by a format-preserving edit.
pub open spec fn indent_of(s: Seq<char>) -> Seq<char> {
    s.subrange(0, s.len() - ltrim_of(s).len())
}

pub proof fn lemma_ltrim_props(s: Seq<char>)
    ensures
        ltrim_of(s).len() <= s.len(),
        ltrim_of(s) == s.subrange(s.len() - ltrim_of(s).len(), s.len() as int),
        forall|i: int| 0 <= i < s.len() - ltrim_of(s).len() ==> is_ws(s[i]),
        ltrim_of(s).len() > 0 ==> !is_ws(ltrim_of(s)[0]),
    decreases s.len(),
{
    if s.len() > 0 && is_ws(s[0]) {
        lemma_ltrim_props(s.drop_first());
        let t = s.drop_first();
        assert(ltrim_of(s) == ltrim_of(t));
        assert(t.subrange(t.len() - ltrim_of(t).len(), t.len() as int) =~= s.subrange(
            s.len() - ltrim_of(s).len(),
            s.len() as int,
        ));
        assert forall|i: int| 0 <= i < s.len() - ltrim_of(s).len() implies is_ws(s[i]) by {
            if i > 0 {
                assert(t[i - 1] == s[i]);
            }
        }
    } else {
        assert(s.subrange(0, s.len() as int) =~= s);
    }
}

/// Trimming a line that is some whitespace before content whose first and
/// last characters are not whitespace leaves exactly the content.
pub proof fn lemma_trim_ws_prefix(ws: Seq<char>, s: Seq<char>)
    requires
        forall|i: int| 0 <= i < ws.len() ==> is_ws(ws[i]),
        s.len() > 0,
        !is_ws(s[0]),
        !is_ws(s.last()),
    ensures
        trim_of(ws + s) == s,
{
    let w = ws + s;
    assert(forall|i: int| 0 <= i < ws.len() ==> is_ws(w[i]));
    assert(w[ws.len() as int] == s[0]);
    lemma_ltrim_subrange(w, ws.len() as int);
    assert(w.subrange(ws.len() as int, w.len() as int) =~= s);
    assert(rtrim_of(s) == s);
}

/// Returns the leading whitespace of a line.
pub fn leading_ws(s: &str) -> (r: String)
    ensures
        r@ == indent_of(s@),
{
    let n = s.unicode_len();
    let mut lo: usize = 0;
    while lo < n && is_ws_char(s.get_char(lo))
        invariant
            n == s@.len(),
            0 <= lo <= n,
            forall|i: int| 0 <= i < lo ==> is_ws(s@[i]),
        decreases n - lo,
    {
        lo = lo + 1;
    }
    proof {
        lemma_ltrim_subrange(s@, lo as int);
    }
    s.substring_char(0, lo).to_owned()
}

/// Splits a character sequence at every occurrence of `sep`.
pub open spec fn split_at_char(s: Seq<char>, sep: char) -> Seq<Seq<char>>
    decreases s.len(),
{
    if s.len() == 0 {
        seq![Seq::<char>::empty()]
    } else if s[0] == sep {
        seq![Seq::<char>::empty()] + split_at_char(s.drop_first(), sep)
    } else {
        let rest = split_at_char(s.drop_first(), sep);
        seq![seq![s[0]] + rest[0]] + rest.drop_first()
    }
}

pub proof fn lemma_split_len(s: Seq<char>, sep: char)
    ensures
        split_at_char(s, sep).len() >= 1,
    decreases s.len(),
{
    if s.len() > 0 {
        lemma_split_len(s.drop_first(), sep);
    }
}

pub open spec fn first_index_of(s: Seq<char>, sep: char) -> int {
    choose|i: int| 0 <= i < s.len() && s[i] == sep && forall|j: int| 0 <= j < i ==> s[j] != sep
}

proof fn lemma_exists_first(s: Seq<char>, sep: char, i0: int)
    requires
        0 <= i0 < s.len(),
        s[i0] == sep,
    ensures
        0 <= first_index_of(s, sep) < s.len(),
        s[first_index_of(s, sep)] == sep,
        forall|j: int| 0 <= j < first_index_of(s, sep) ==> s[j] != sep,
    decreases i0,
{
    if forall|j: int| 0 <= j < i0 ==> s[j] != sep {
        assert(0 <= i0 < s.len() && s[i0] == sep && forall|j: int| 0 <= j < i0 ==> s[j] != sep);
    } else {
        let i1 = choose|j: int| 0 <= j < i0 && s[j] == sep;
        lemma_exists_first(s, sep, i1);
    }
}

pub proof fn lemma_first_index_is(s: Seq<char>, sep: char, k: int)
    requires
        0 <= k < s.len(),
        s[k] == sep,
        forall|j: int| 0 <= j < k ==> s[j] != sep,
    ensures
        first_index_of(s, sep) == k,
{
    lemma_exists_first(s, sep, k);
    let fi = first_index_of(s, sep);
    if fi < k {
        assert(s[fi] != sep);
        assert(false);
    } else if k < fi {
        assert(s[k] != sep);
        assert(false);
    }
}

pub proof fn lemma_split_nosep(s: Seq<char>, sep: char)
    requires
        forall|i: int| 0 <= i < s.len() ==> s[i] != sep,
    ensures
        split_at_char(s, sep) == seq![s],
    decreases s.len(),
{
    if s.len() == 0 {
        assert(s =~= Seq::<char>::empty());
        assert(seq![Seq::<char>::empty()] =~= seq![s]);
    } else {
        let t = s.drop_first();
        lemma_split_nosep(t, sep);
        let rest = split_at_char(t, sep);
        assert(rest == seq![t]);
        assert(seq![s[0]] + rest[0] =~= s);
        assert(seq![seq![s[0]] + rest[0]] + rest.drop_first() =~= seq![s]);
    }
}

pub proof fn lemma_split_unfold(s: Seq<char>, sep: char, i: int)
    requires
        0 <= i < s.len(),
        s[i] == sep,
        forall|j: int| 0 <= j < i ==> s[j] != sep,
    ensures
        split_at_char(s, sep) == seq![s.subrange(0, i)] + split_at_char(
            s.subrange(i + 1, s.len() as int),
            sep,
        ),
    decreases i,
{
    if i == 0 {
        assert(s.subrange(0, 0) =~= Seq::<char>::empty());
        assert(s.drop_first() =~= s.subrange(1, s.len() as int));
    } else {
        let t = s.drop_first();
        assert(t[i - 1] == sep);
        assert(forall|j: int| 0 <= j < i - 1 ==> t[j] != sep);
        lemma_split_unfold(t, sep, i - 1);
        let tr = split_at_char(t.subrange(i, t.len() as int), sep);
        assert(split_at_char(t, sep) == seq![t.subrange(0, i - 1)] + tr);
        lemma_split_len(t.subrange(i, t.len() as int), sep);
        assert(seq![s[0]] + (seq![t.subrange(0, i - 1)] + tr)[0] =~= s.subrange(0, i));
        assert((seq![t.subrange(0, i - 1)] + tr).drop_first() =~= tr);
        assert(t.subrange(i, t.len() as int) =~= s.subrange(i + 1, s.len() as int));
        assert(seq![seq![s[0]] + split_at_char(t, sep)[0]] + split_at_char(t, sep).drop_first()
            =~= seq![s.subrange(0, i)] + split_at_char(s.subrange(i + 1, s.len() as int), sep));
    }
}


} // verus!

use vstd::prelude::*;

verus! {

/// Splits a string at every occurrence of `sep`.
#[verifier::loop_isolation(false)]
pub fn split_char(s: &str, sep: char) -> (r: Vec<String>)
    ensures
        line_views(r@) == split_at_char(s@, sep),
        r@.len() >= 1,
{
    let n = s.unicode_len();
    let mut out: Vec<String> = Vec::new();
    let mut start: usize = 0;
    let mut i: usize = 0;
    proof {
        assert(s@.subrange(0, n as int) =~= s@);
        assert(line_views(out@) =~= Seq::<Seq<char>>::empty());
        assert(Seq::<Seq<char>>::empty() + split_at_char(s@, sep) =~= split_at_char(s@, sep));
    }
    while i < n
        invariant
            n == s@.len(),
            0 <= start <= i <= n,
            split_at_char(s@, sep) == line_views(out@) + split_at_char(
                s@.subrange(start as int, n as int),
                sep,
            ),
            forall|j: int| start <= j < i ==> s@[j] != sep,
        decreases n - i,
    {
        if s.get_char(i) == sep {
            let piece = s.substring_char(start, i).to_owned();
            proof {
                let rest = s@.subrange(start as int, n as int);
                assert(rest[i - start] == sep);
                assert(forall|j: int| 0 <= j < i - start ==> rest[j] != sep);
                lemma_split_unfold(rest, sep, i - start);
                assert(rest.subrange(0, i - start) =~= s@.subrange(start as int, i as int));
                assert(rest.subrange(i - start + 1, rest.len() as int) =~= s@.subrange(
                    i + 1,
                    n as int,
                ));
                let ghost prev = out@;
                assert(line_views(prev.push(piece)) =~= line_views(prev).push(piece@));
                assert(line_views(prev) + (seq![piece@] + split_at_char(
                    s@.subrange(i + 1, n as int),
                    sep,
                )) =~= line_views(prev.push(piece)) + split_at_char(
                    s@.subrange(i + 1, n as int),
                    sep,
                ));
            }
            out.push(piece);
            start = i + 1;
        }
        i = i + 1;
    }
    let last = s.substring_char(start, n).to_owned();
    proof {
        let rest = s@.subrange(start as int, n as int);
        lemma_split_nosep(rest, sep);
        let ghost prev = out@;
        assert(line_views(prev.push(last)) =~= line_views(prev).push(last@));
        assert(line_views(prev) + seq![rest] =~= line_views(prev.push(last)));
    }
    out.push(last);
    out
}

/// Index of the last occurrence of `c`, or `-1`.
pub open spec fn last_index_of(s: Seq<char>, c: char) -> int
    decreases s.len(),
{
    if s.len() == 0 {
        -1
    } else if s.last() == c {
        s.len() - 1
    } else {
        last_index_of(s.drop_last(), c)
    }
}

pub proof fn lemma_last_index_of(s: Seq<char>, c: char)
    ensures
        -1 <= last_index_of(s, c) < s.len(),
        last_index_of(s, c) >= 0 ==> s[last_index_of(s, c)] == c,
        forall|j: int| last_index_of(s, c) < j < s.len() ==> s[j] != c,
    decreases s.len(),
{
    if s.len() > 0 && s.last() != c {
        lemma_last_index_of(s.drop_last(), c);
        assert(forall|j: int| 0 <= j < s.len() - 1 ==> s.drop_last()[j] == s[j]);
    }
}

/// Finds the index after the last occurrence of `c`, or zero.
#[verifier::loop_isolation(false)]
pub fn rfind_char(s: &String, c: char) -> (r: usize)
    ensures
        r == last_index_of(s@, c) + 1,
{
    let n = s.unicode_len();
    let mut i: usize = n;
    proof {
        assert(s@.subrange(0, n as int) =~= s@);
    }
    while i > 0
        invariant
            n == s@.len(),
            0 <= i <= n,
            last_index_of(s@, c) == last_index_of(s@.subrange(0, i as int), c),
            forall|j: int| i <= j < n ==> s@[j] != c,
        decreases i,
    {
        if s.as_str().get_char(i - 1) == c {
            proof {
                let pre = s@.subrange(0, i as int);
                assert(pre.last() == s@[i - 1]);
            }
            return i;
        }
        proof {
            let pre = s@.subrange(0, i as int);
            assert(pre.last() == s@[i - 1]);
            assert(pre.drop_last() =~= s@.subrange(0, i - 1));
        }
        i = i - 1;
    }
    proof {
        assert(s@.subrange(0, 0) =~= Seq::<char>::empty());
    }
    0
}

} // verus!

use vstd::prelude::*;

verus! {

/// A document splits into newline-free lines in exactly one way: joining
/// with newlines is injective on non-empty vectors of such lines.
pub proof fn lemma_join_lines_injective(a: Seq<Seq<char>>, b: Seq<Seq<char>>)
    requires
        all_no_newline(a),
        all_no_newline(b),
        a.len() >= 1,
        b.len() >= 1,
        join_lines(a) == join_lines(b),
    ensures
        a == b,
    decreases a.len(),
{
    let j = join_lines(a);
    if a.len() == 1 && b.len() == 1 {
        assert(a =~= b);
    } else if a.len() == 1 {
        assert(j == a[0]);
        let jb = join_lines(b.drop_first());
        assert(join_lines(b) == b[0] + seq!['\n'] + jb);
        assert(j[b[0].len() as int] == '\n');
        assert(no_newline(a[0]));
        assert(false);
    } else if b.len() == 1 {
        assert(j == b[0]);
        let ja = join_lines(a.drop_first());
        assert(join_lines(a) == a[0] + seq!['\n'] + ja);
        assert(j[a[0].len() as int] == '\n');
        assert(no_newline(b[0]));
        assert(false);
    } else {
        let ja = join_lines(a.drop_first());
        let jb = join_lines(b.drop_first());
        assert(j == a[0] + seq!['\n'] + ja);
        assert(j == b[0] + seq!['\n'] + jb);
        assert(a[0].len() == b[0].len()) by {
            if a[0].len() < b[0].len() {
                assert(j[a[0].len() as int] == '\n');
                assert(j[a[0].len() as int] == b[0][a[0].len() as int]);
                assert(no_newline(b[0]));
            } else if b[0].len() < a[0].len() {
                assert(j[b[0].len() as int] == '\n');
                assert(j[b[0].len() as int] == a[0][b[0].len() as int]);
                assert(no_newline(a[0]));
            }
        }
        assert forall|i: int| 0 <= i < a[0].len() implies a[0][i] == b[0][i] by {
            assert(j[i] == a[0][i]);
            assert(j[i] == b[0][i]);
        }
        assert(a[0] =~= b[0]);
        assert(ja.len() == jb.len());
        assert forall|i: int| 0 <= i < ja.len() implies ja[i] == jb[i] by {
            let l = a[0].len() as int;
            assert(j[l + 1 + i] == ja[i]);
            assert(j[l + 1 + i] == jb[i]);
        }
        assert(ja =~= jb);
        assert(all_no_newline(a.drop_first())) by {
            assert(forall|i: int| 0 <= i < a.drop_first().len() ==> a.drop_first()[i] == a[i + 1]);
        }
        assert(all_no_newline(b.drop_first())) by {
            assert(forall|i: int| 0 <= i < b.drop_first().len() ==> b.drop_first()[i] == b[i + 1]);
        }
        lemma_join_lines_injective(a.drop_first(), b.drop_first());
        assert(a.len() == b.len());
        assert forall|i: int| 0 <= i < a.len() implies a[i] == b[i] by {
            if i > 0 {
                assert(a.drop_first()[i - 1] == a[i]);
                assert(b.drop_first()[i - 1] == b[i]);
            }
        }
        assert(a =~= b);
    }
}

} // verus!
