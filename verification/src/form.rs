//! Conversion of a submitted form into an [`Entry`]: the `expires` field
//! selects burn-after-reading when it reads `burn`, a positive number of
//! seconds when it is one, and no expiry otherwise.

use vstd::prelude::*;

use crate::Entry;

verus! {

/// Whether `c` is a decimal digit.
pub open spec fn is_digit(c: char) -> bool {
    48 <= c as u32 <= 57
}

/// The value of the decimal digit `c`.
pub open spec fn dec_digit(c: char) -> int {
    c as u32 - 48
}

/// Whether `s` holds decimal digits only.
pub open spec fn all_digits(s: Seq<char>) -> bool {
    forall|i: int| 0 <= i < s.len() ==> is_digit(#[trigger] s[i])
}

/// The number that the digit string `s` denotes.
pub open spec fn dec_value(s: Seq<char>) -> int
    decreases s.len(),
{
    if s.len() == 0 {
        0
    } else {
        dec_value(s.drop_last()) * 10 + dec_digit(s.last())
    }
}

/// Whether `s` is a decimal number that fits a `u32`.
pub open spec fn parses_u32(s: Seq<char>) -> bool {
    s.len() > 0 && all_digits(s) && dec_value(s) <= u32::MAX
}

/// A digit string denotes a nonnegative number.
proof fn lemma_dec_nonneg(s: Seq<char>)
    requires
        all_digits(s),
    ensures
        dec_value(s) >= 0,
    decreases s.len(),
{
    if s.len() > 0 {
        assert(all_digits(s.drop_last())) by {
            assert(forall|i: int|
                0 <= i < s.len() - 1 ==> #[trigger] s.drop_last()[i] == s[i]);
        }
        lemma_dec_nonneg(s.drop_last());
    }
}

/// A digit string denotes at least what any of its prefixes denotes.
proof fn lemma_dec_prefix(s: Seq<char>, j: int)
    requires
        all_digits(s),
        0 <= j <= s.len(),
    ensures
        dec_value(s) >= dec_value(s.subrange(0, j)),
    decreases s.len() - j,
{
    if j == s.len() {
        assert(s.subrange(0, j) =~= s);
    } else {
        lemma_dec_prefix(s, j + 1);
        let p = s.subrange(0, j + 1);
        assert(p.drop_last() =~= s.subrange(0, j));
        assert(all_digits(s.subrange(0, j))) by {
            assert(forall|i: int|
                0 <= i < j ==> #[trigger] s.subrange(0, j)[i] == s[i]);
        }
        lemma_dec_nonneg(s.subrange(0, j));
        assert(dec_value(p) == dec_value(s.subrange(0, j)) * 10 + dec_digit(p.last()));
    }
}

/// Parses a decimal `u32`; strings that are empty, hold a non-digit, or
/// denote a number above `u32::MAX` are rejected.
pub fn parse_u32(s: &str) -> (r: Option<u32>)
    ensures
        match r {
            Some(v) => parses_u32(s@) && v == dec_value(s@),
            None => !parses_u32(s@),
        },
{
    let n = s.unicode_len();
    if n == 0 {
        return None;
    }
    let mut acc: u32 = 0;
    let mut i: usize = 0;
    while i < n
        invariant
            i <= n,
            n == s@.len(),
            forall|k: int| 0 <= k < i ==> is_digit(#[trigger] s@[k]),
            acc == dec_value(s@.subrange(0, i as int)),
        decreases n - i,
    {
        let c = s.get_char(i);
        let u = c as u32;
        if u < 48 || u > 57 {
            return None;
        }
        let d = u - 48;
        let ghost prev = s@.subrange(0, i as int);
        let ghost next_prefix = s@.subrange(0, i + 1);
        proof {
            assert(next_prefix.drop_last() =~= prev);
            assert(all_digits(next_prefix)) by {
                assert(forall|k: int|
                    0 <= k < i + 1 ==> #[trigger] next_prefix[k] == s@[k]);
            }
            lemma_dec_nonneg(prev);
        }
        let wide = match acc.checked_mul(10) {
            Some(v) => v,
            None => {
                proof {
                    if all_digits(s@) {
                        lemma_dec_prefix(s@, i + 1);
                    }
                }
                return None;
            },
        };
        let next = match wide.checked_add(d) {
            Some(v) => v,
            None => {
                proof {
                    if all_digits(s@) {
                        lemma_dec_prefix(s@, i + 1);
                    }
                }
                return None;
            },
        };
        acc = next;
        i = i + 1;
    }
    proof {
        assert(s@.subrange(0, n as int) =~= s@);
    }
    Some(acc)
}

/// Whether two strings hold the same characters.
pub fn str_equal(a: &str, b: &str) -> (r: bool)
    ensures
        r == (a@ == b@),
{
    let na = a.unicode_len();
    let nb = b.unicode_len();
    if na != nb {
        return false;
    }
    let mut i: usize = 0;
    while i < na
        invariant
            i <= na,
            na == a@.len(),
            na == b@.len(),
            forall|k: int| 0 <= k < i ==> a@[k] == b@[k],
        decreases na - i,
    {
        if a.get_char(i) != b.get_char(i) {
            return false;
        }
        i = i + 1;
    }
    proof {
        assert(a@ =~= b@);
    }
    true
}

impl Entry {
    /// Builds an entry from a submitted form. An `expires` field reading
    /// `burn` selects burn-after-reading; one denoting a positive number of
    /// seconds becomes the time to live; anything else never expires.
    pub fn from_form(text: String, extension: Option<String>, expires: String) -> (r: Entry)
        ensures
            r.text == text,
            r.extension == extension,
            r.burn_after_reading == Some(expires@ == "burn"@),
            r@.burn == (expires@ == "burn"@),
            r.expires == (if parses_u32(expires@) && 0 < dec_value(expires@) {
                Some(dec_value(expires@) as u32)
            } else {
                None::<u32>
            }),
    {
        let burn = str_equal(expires.as_str(), "burn");
        let secs = match parse_u32(expires.as_str()) {
            Some(v) => if v > 0 {
                Some(v)
            } else {
                None
            },
            None => None,
        };
        Entry { text, extension, expires: secs, burn_after_reading: Some(burn) }
    }
}

} // verus!
