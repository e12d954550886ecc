//! Version arithmetic for three-part `major.minor.patch` version strings.

use vstd::prelude::*;
use crate::text::{first_index_of, lemma_first_index_is, lemma_split_len, lemma_split_nosep, lemma_split_unfold, split_at_char};

verus! {

pub open spec fn is_digit(c: char) -> bool {
    c == '0' || c == '1' || c == '2' || c == '3' || c == '4' || c == '5' || c == '6' || c == '7'
        || c == '8' || c == '9'
}

pub open spec fn digit_val(c: char) -> nat {
    if c == '0' {
        0
    } else if c == '1' {
        1
    } else if c == '2' {
        2
    } else if c == '3' {
        3
    } else if c == '4' {
        4
    } else if c == '5' {
        5
    } else if c == '6' {
        6
    } else if c == '7' {
        7
    } else if c == '8' {
        8
    } else {
        9
    }
}

pub open spec fn digit_char(d: nat) -> char {
    if d == 0 {
        '0'
    } else if d == 1 {
        '1'
    } else if d == 2 {
        '2'
    } else if d == 3 {
        '3'
    } else if d == 4 {
        '4'
    } else if d == 5 {
        '5'
    } else if d == 6 {
        '6'
    } else if d == 7 {
        '7'
    } else if d == 8 {
        '8'
    } else {
        '9'
    }
}

pub open spec fn all_digits(s: Seq<char>) -> bool {
    forall|i: int| 0 <= i < s.len() ==> is_digit(s[i])
}

/// Numeric value of a digit string, most significant digit first.
pub open spec fn digits_val(s: Seq<char>) -> nat
    decreases s.len(),
{
    if s.len() == 0 {
        0
    } else {
        digits_val(s.drop_last()) * 10 + digit_val(s.last())
    }
}

/// The value a numeric version component denotes: an optional leading `'+'`
/// followed by digits, if it fits the machine word; anything else counts as
/// zero.
pub open spec fn component_val(s: Seq<char>) -> nat {
    let t = if s.len() > 0 && s[0] == '+' {
        s.drop_first()
    } else {
        s
    };
    if t.len() > 0 && all_digits(t) && digits_val(t) <= u64::MAX {
        digits_val(t)
    } else {
        0
    }
}

/// Decimal rendering of a number, without sign or padding.
pub open spec fn dec_of(n: nat) -> Seq<char>
    decreases n,
{
    if n < 10 {
        seq![digit_char(n)]
    } else {
        dec_of(n / 10).push(digit_char(n % 10))
    }
}

/// The prefix of a version string before any pre-release suffix.
pub open spec fn base_of(s: Seq<char>) -> Seq<char> {
    if exists|i: int| 0 <= i < s.len() && s[i] == '-' {
        s.subrange(0, first_index_of(s, '-'))
    } else {
        s
    }
}

/// The three numeric components a version string denotes; missing
/// components count as zero, extra components are ignored.
pub open spec fn version_triple(s: Seq<char>) -> (nat, nat, nat) {
    let parts = split_at_char(base_of(s), '.');
    let a = component_val(parts[0]);
    let b = if parts.len() > 1 {
        component_val(parts[1])
    } else {
        0
    };
    let c = if parts.len() > 2 {
        component_val(parts[2])
    } else {
        0
    };
    (a, b, c)
}

pub open spec fn sat_inc(n: nat) -> nat {
    if n >= u64::MAX {
        u64::MAX as nat
    } else {
        n + 1
    }
}

/// The rendered `a.b.c` form of a version triple.
pub open spec fn render_triple(a: nat, b: nat, c: nat) -> Seq<char> {
    dec_of(a) + seq!['.'] + dec_of(b) + seq!['.'] + dec_of(c)
}

/// ASCII lowercase of one character; every other character is unchanged.
pub open spec fn ascii_lower_char(c: char) -> char {
    match c {
        'A' => 'a',
        'B' => 'b',
        'C' => 'c',
        'D' => 'd',
        'E' => 'e',
        'F' => 'f',
        'G' => 'g',
        'H' => 'h',
        'I' => 'i',
        'J' => 'j',
        'K' => 'k',
        'L' => 'l',
        'M' => 'm',
        'N' => 'n',
        'O' => 'o',
        'P' => 'p',
        'Q' => 'q',
        'R' => 'r',
        'S' => 's',
        'T' => 't',
        'U' => 'u',
        'V' => 'v',
        'W' => 'w',
        'X' => 'x',
        'Y' => 'y',
        'Z' => 'z',
        _ => c,
    }
}

pub open spec fn ascii_lower(s: Seq<char>) -> Seq<char> {
    s.map_values(|c: char| ascii_lower_char(c))
}

/// Executable counterpart of `ascii_lower_char`.
pub fn lower_char(c: char) -> (r: char)
    ensures
        r == ascii_lower_char(c),
{
    match c {
        'A' => 'a',
        'B' => 'b',
        'C' => 'c',
        'D' => 'd',
        'E' => 'e',
        'F' => 'f',
        'G' => 'g',
        'H' => 'h',
        'I' => 'i',
        'J' => 'j',
        'K' => 'k',
        'L' => 'l',
        'M' => 'm',
        'N' => 'n',
        'O' => 'o',
        'P' => 'p',
        'Q' => 'q',
        'R' => 'r',
        'S' => 's',
        'T' => 't',
        'U' => 'u',
        'V' => 'v',
        'W' => 'w',
        'X' => 'x',
        'Y' => 'y',
        'Z' => 'z',
        _ => c,
    }
}

/// ASCII-lowercases a token.
pub fn lower_token(s: &str) -> (r: String)
    ensures
        r@ == ascii_lower(s@),
{
    let n = s.unicode_len();
    let mut out = String::new();
    let mut i: usize = 0;
    while i < n
        invariant
            n == s@.len(),
            0 <= i <= n,
            out@ == ascii_lower(s@.subrange(0, i as int)),
        decreases n - i,
    {
        let c = lower_char(s.get_char(i));
        crate::text::push_char(&mut out, c);
        proof {
            assert(ascii_lower(s@.subrange(0, i + 1)) =~= ascii_lower(
                s@.subrange(0, i as int),
            ).push(ascii_lower_char(s@[i as int])));
        }
        i = i + 1;
    }
    proof {
        assert(s@.subrange(0, n as int) =~= s@);
    }
    out
}

fn digit_string(d: u64) -> (r: String)
    requires
        d < 10,
    ensures
        r@ =~= seq![digit_char(d as nat)],
{
    proof {
        reveal_strlit("0");
        reveal_strlit("1");
        reveal_strlit("2");
        reveal_strlit("3");
        reveal_strlit("4");
        reveal_strlit("5");
        reveal_strlit("6");
        reveal_strlit("7");
        reveal_strlit("8");
        reveal_strlit("9");
    }
    if d == 0 {
        String::from_str("0")
    } else if d == 1 {
        String::from_str("1")
    } else if d == 2 {
        String::from_str("2")
    } else if d == 3 {
        String::from_str("3")
    } else if d == 4 {
        String::from_str("4")
    } else if d == 5 {
        String::from_str("5")
    } else if d == 6 {
        String::from_str("6")
    } else if d == 7 {
        String::from_str("7")
    } else if d == 8 {
        String::from_str("8")
    } else {
        String::from_str("9")
    }
}

/// Renders a number in decimal.
pub fn u64_to_dec(n: u64) -> (r: String)
    ensures
        r@ == dec_of(n as nat),
    decreases n,
{
    if n < 10 {
        digit_string(n)
    } else {
        let mut s = u64_to_dec(n / 10);
        let d = digit_string(n % 10);
        s.append(d.as_str());
        proof {
            assert(s@ =~= dec_of((n / 10) as nat).push(digit_char((n % 10) as nat)));
        }
        s
    }
}

fn digit_of(c: char) -> (r: Option<u64>)
    ensures
        match r {
            Some(d) => is_digit(c) && d < 10 && d as nat == digit_val(c),
            None => !is_digit(c),
        },
{
    match c {
        '0' => Some(0),
        '1' => Some(1),
        '2' => Some(2),
        '3' => Some(3),
        '4' => Some(4),
        '5' => Some(5),
        '6' => Some(6),
        '7' => Some(7),
        '8' => Some(8),
        '9' => Some(9),
        _ => None,
    }
}

proof fn lemma_digits_val_step(t: Seq<char>, i: int)
    requires
        0 <= i < t.len(),
    ensures
        digits_val(t.subrange(0, i + 1)) == digits_val(t.subrange(0, i)) * 10 + digit_val(t[i]),
{
    assert(t.subrange(0, i + 1).drop_last() =~= t.subrange(0, i));
    assert(t.subrange(0, i + 1).last() == t[i]);
}

proof fn lemma_digits_val_prefix(t: Seq<char>, i: int)
    requires
        0 <= i <= t.len(),
    ensures
        digits_val(t) >= digits_val(t.subrange(0, i)),
    decreases t.len() - i,
{
    if i == t.len() {
        assert(t.subrange(0, i) =~= t);
    } else {
        lemma_digits_val_step(t, i);
        lemma_digits_val_prefix(t, i + 1);
    }
}

/// Parses one numeric version component; malformed or oversized components
/// count as zero.
pub fn parse_component(s: &str) -> (r: u64)
    ensures
        r as nat == component_val(s@),
{
    let n = s.unicode_len();
    let mut i: usize = 0;
    if n > 0 && s.get_char(0) == '+' {
        i = 1;
    }
    let ghost t = if s@.len() > 0 && s@[0] == '+' {
        s@.drop_first()
    } else {
        s@
    };
    let start = i;
    proof {
        assert(t =~= s@.subrange(start as int, n as int));
    }
    if i == n {
        return 0;
    }
    let mut acc: u64 = 0;
    while i < n
        invariant
            n == s@.len(),
            start <= i <= n,
            t == s@.subrange(start as int, n as int),
            t == (if s@.len() > 0 && s@[0] == '+' {
                s@.drop_first()
            } else {
                s@
            }),
            t.len() == n - start,
            all_digits(t.subrange(0, i - start)),
            acc as nat == digits_val(t.subrange(0, i - start)),
        decreases n - i,
    {
        let c = s.get_char(i);
        proof {
            assert(t[i - start] == s@[i as int]);
        }
        match digit_of(c) {
            None => {
                proof {
                    assert(!is_digit(t[i - start]));
                    assert(!all_digits(t));
                }
                return 0;
            },
            Some(d) => {
                proof {
                    lemma_digits_val_step(t, i - start);
                }
                let m = match acc.checked_mul(10) {
                    Some(m) => m,
                    None => {
                        proof {
                            lemma_digits_val_prefix(t, i - start + 1);
                            assert(digits_val(t.subrange(0, i - start + 1)) == (acc as nat) * 10
                                + digit_val(t[i - start]));
                            assert((acc as nat) * 10 > u64::MAX);
                            assert(digits_val(t) > u64::MAX);
                        }
                        return 0;
                    },
                };
                match m.checked_add(d) {
                    Some(v) => {
                        acc = v;
                    },
                    None => {
                        proof {
                            lemma_digits_val_prefix(t, i - start + 1);
                            assert(digits_val(t.subrange(0, i - start + 1)) == (acc as nat) * 10
                                + digit_val(t[i - start]));
                            assert((acc as nat) * 10 + (d as nat) > u64::MAX);
                            assert(digits_val(t) > u64::MAX);
                        }
                        return 0;
                    },
                }
            },
        }
        i = i + 1;
    }
    proof {
        assert(t.subrange(0, n - start) =~= t);
    }
    acc
}

/// Splits off the text before the first `'.'`; the remainder, if any,
/// carries the rest of the split.
fn split_first_dot(s: &str) -> (r: (String, Option<String>))
    ensures
        match r.1 {
            Some(rest) => split_at_char(s@, '.') == seq![r.0@] + split_at_char(rest@, '.'),
            None => split_at_char(s@, '.') == seq![s@] && r.0@ == s@,
        },
{
    let n = s.unicode_len();
    let mut i: usize = 0;
    while i < n
        invariant
            n == s@.len(),
            0 <= i <= n,
            forall|j: int| 0 <= j < i ==> s@[j] != '.',
        decreases n - i,
    {
        if s.get_char(i) == '.' {
            let head = s.substring_char(0, i).to_owned();
            let rest = s.substring_char(i + 1, n).to_owned();
            proof {
                lemma_split_unfold(s@, '.', i as int);
            }
            return (head, Some(rest));
        }
        i = i + 1;
    }
    proof {
        lemma_split_nosep(s@, '.');
    }
    (s.to_owned(), None)
}

/// The numeric `major.minor.patch` components of a version string.
pub fn version_parts(current: &str) -> (r: (u64, u64, u64))
    ensures
        r.0 as nat == version_triple(current@).0,
        r.1 as nat == version_triple(current@).1,
        r.2 as nat == version_triple(current@).2,
{
    let n = current.unicode_len();
    let mut d: usize = 0;
    while d < n && current.get_char(d) != '-'
        invariant
            n == current@.len(),
            0 <= d <= n,
            forall|j: int| 0 <= j < d ==> current@[j] != '-',
        decreases n - d,
    {
        d = d + 1;
    }
    let base = current.substring_char(0, d).to_owned();
    proof {
        if d < n {
            lemma_first_index_is(current@, '-', d as int);
        } else {
            assert(current@.subrange(0, n as int) =~= current@);
        }
        assert(base@ == base_of(current@));
    }
    let ghost parts = split_at_char(base@, '.');
    let (p0, rest1) = split_first_dot(base.as_str());
    let a = parse_component(p0.as_str());
    proof {
        if rest1 is Some {
            assert(parts[0] == p0@);
        }
    }
    match rest1 {
        None => {
            proof {
                assert(parts.len() == 1);
                assert(parts[0] == base@);
            }
            (a, 0, 0)
        },
        Some(rest) => {
            let ghost parts1 = split_at_char(rest@, '.');
            proof {
                lemma_split_len(rest@, '.');
                assert(parts.len() == 1 + parts1.len());
                assert(parts[1] == parts1[0]);
            }
            let (p1, rest2) = split_first_dot(rest.as_str());
            let b = parse_component(p1.as_str());
            match rest2 {
                None => {
                    proof {
                        assert(parts1.len() == 1);
                        assert(parts.len() == 2);
                    }
                    (a, b, 0)
                },
                Some(rest_b) => {
                    let ghost parts2 = split_at_char(rest_b@, '.');
                    proof {
                        lemma_split_len(rest_b@, '.');
                        assert(parts1.len() == 1 + parts2.len());
                        assert(parts1[0] == p1@);
                        assert(parts.len() > 2);
                        assert(parts[2] == parts1[1]);
                        assert(parts1[1] == parts2[0]);
                    }
                    let (p2, _) = split_first_dot(rest_b.as_str());
                    let c = parse_component(p2.as_str());
                    proof {
                        assert(p2@ == parts2[0]);
                    }
                    (a, b, c)
                },
            }
        },
    }
}

fn sat_inc_exec(n: u64) -> (r: u64)
    ensures
        r as nat == sat_inc(n as nat),
{
    if n == u64::MAX {
        n
    } else {
        n + 1
    }
}

/// Renders a version triple as `a.b.c`.
fn render_version(a: u64, b: u64, c: u64) -> (r: String)
    ensures
        r@ == render_triple(a as nat, b as nat, c as nat),
{
    proof {
        reveal_strlit(".");
    }
    let mut out = u64_to_dec(a);
    out.append(".");
    let sb = u64_to_dec(b);
    out.append(sb.as_str());
    out.append(".");
    let sc = u64_to_dec(c);
    out.append(sc.as_str());
    proof {
        assert(out@ =~= render_triple(a as nat, b as nat, c as nat));
    }
    out
}

/// Applies a version bump.  `bump` is matched case-insensitively against
/// `major`, `minor` and `patch`; any other token is rejected with an error
/// naming that token, and nothing else is reported on it.
pub fn compute_bump(current: &str, bump: &str) -> (r: Result<String, String>)
    ensures
        ({
            let lb = ascii_lower(bump@);
            let t = version_triple(current@);
            match r {
                Ok(v) => (lb == "major"@ && v@ == render_triple(sat_inc(t.0), 0, 0)) || (lb
                    == "minor"@ && v@ == render_triple(t.0, sat_inc(t.1), 0)) || (lb == "patch"@
                    && v@ == render_triple(t.0, t.1, sat_inc(t.2))),
                Err(e) => lb != "major"@ && lb != "minor"@ && lb != "patch"@ && e@
                    == "Unknown bump type: "@ + lb + " (expected: major|minor|patch)"@,
            }
        }),
{
    let lower = lower_token(bump);
    let (a, b, c) = version_parts(current);
    let lit_major = String::from_str("major");
    let lit_minor = String::from_str("minor");
    let lit_patch = String::from_str("patch");
    if lower == lit_major {
        Ok(render_version(sat_inc_exec(a), 0, 0))
    } else if lower == lit_minor {
        Ok(render_version(a, sat_inc_exec(b), 0))
    } else if lower == lit_patch {
        Ok(render_version(a, b, sat_inc_exec(c)))
    } else {
        let mut e = String::from_str("Unknown bump type: ");
        e.append(lower.as_str());
        e.append(" (expected: major|minor|patch)");
        Err(e)
    }
}

} // verus!

