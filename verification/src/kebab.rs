//! Kebab-case rendering of identifiers.

use vstd::prelude::*;
use crate::text::push_char;

verus! {

/// Whether a character is uppercase; what std's char::is_uppercase
/// answers, a function of the character alone.
pub uninterp spec fn is_upper_of(c: char) -> bool;

/// The lowercase expansion of a character; what std's char::to_lowercase
/// yields, a function of the character alone.
pub uninterp spec fn lower_of(c: char) -> Seq<char>;

/// Relies on std's char::is_uppercase: the Unicode uppercase property.
#[verifier::external_body]
fn char_is_uppercase(c: char) -> (r: bool)
    ensures
        r == is_upper_of(c),
{
    c.is_uppercase()
}

/// Relies on std's char::to_lowercase: the Unicode lowercase mapping, one
/// or more characters, none of which is uppercase.
#[verifier::external_body]
fn char_lower_chars(c: char) -> (r: Vec<char>)
    ensures
        r@ == lower_of(c),
        forall|i: int| 0 <= i < r@.len() ==> !is_upper_of(#[trigger] r@[i]),
{
    c.to_lowercase().collect()
}

/// The kebab-case form of the text from position `i`: a dash before every
/// uppercase character except a leading one, and all characters
/// lowercased.
pub open spec fn kebab_of(s: Seq<char>, i: int) -> Seq<char>
    decreases s.len() - i when 0 <= i <= s.len()
{
    if i >= s.len() {
        Seq::empty()
    } else {
        (if is_upper_of(s[i]) {
            (if i > 0 {
                seq!['-']
            } else {
                Seq::<char>::empty()
            }) + lower_of(s[i])
        } else {
            seq![s[i]]
        }) + kebab_of(s, i + 1)
    }
}

/// No character other than a dash is uppercase.
pub open spec fn kebab_clean(s: Seq<char>) -> bool {
    forall|i: int| 0 <= i < s.len() && s[i] != '-' ==> !is_upper_of(#[trigger] s[i])
}

/// Renders an identifier in kebab case.  Apart from the inserted dashes,
/// no character of the result is uppercase.
#[verifier::loop_isolation(false)]
pub fn to_kebab_case(s: &str) -> (r: String)
    ensures
        r@ == kebab_of(s@, 0),
        kebab_clean(r@),
{
    let n = s.unicode_len();
    let mut out = String::new();
    let mut i: usize = 0;
    proof {
        assert(out@ + kebab_of(s@, 0) =~= kebab_of(s@, 0));
    }
    while i < n
        invariant
            n == s@.len(),
            0 <= i <= n,
            kebab_of(s@, 0) == out@ + kebab_of(s@, i as int),
            kebab_clean(out@),
        decreases n - i,
    {
        let c = s.get_char(i);
        let ghost before = out@;
        if char_is_uppercase(c) {
            if i > 0 {
                push_char(&mut out, '-');
            }
            let lows = char_lower_chars(c);
            let ln = lows.len();
            let mut k: usize = 0;
            while k < ln
                invariant
                    ln == lows@.len(),
                    0 <= k <= ln,
                    out@ == before + (if i > 0 {
                        seq!['-']
                    } else {
                        Seq::<char>::empty()
                    }) + lows@.take(k as int),
                    kebab_clean(out@),
                decreases ln - k,
    {
                push_char(&mut out, lows[k]);
                proof {
                    assert(lows@.take(k + 1) =~= lows@.take(k as int).push(lows@[k as int]));
                    assert(out@ =~= before + (if i > 0 {
                        seq!['-']
                    } else {
                        Seq::<char>::empty()
                    }) + lows@.take(k + 1));
                }
                k = k + 1;
            }
            proof {
                assert(lows@.take(ln as int) =~= lows@);
                assert(out@ + kebab_of(s@, i + 1) =~= before + kebab_of(s@, i as int));
            }
        } else {
            push_char(&mut out, c);
            proof {
                assert(out@ =~= before.push(s@[i as int]));
                assert(out@ + kebab_of(s@, i + 1) =~= before + kebab_of(s@, i as int));
            }
        }
        i = i + 1;
    }
    proof {
        assert(kebab_of(s@, n as int) =~= Seq::<char>::empty());
        assert(out@ + Seq::<char>::empty() =~= out@);
    }
    out
}

} // verus!
