//! The grammar of a sample's value token.
//!
//! A data line's trailing token must read as a 64-bit float literal, and
//! std documents that grammar exactly:
//!
//! ```text
//! Float  ::= Sign? ( 'inf' | 'infinity' | 'nan' | Number )
//! Number ::= Count '.'? Count? Exp?
//!          | '.' Count Exp?
//! Exp    ::= ('e' | 'E') Sign? Count
//! Sign   ::= '-' | '+'
//! Count  ::= Digit+
//! ```
//!
//! with the three words matched case-insensitively.  The grammar is stated
//! here as spec functions and decided by a verified function, so the parser
//! can drop non-numeric lines without the crate ever computing on floats;
//! the unverified rim converts an admitted token when a batch is encoded.

use vstd::prelude::*;

use crate::ascii::{DOT, MINUS, PLUS};

verus! {

pub open spec fn is_digit(b: u8) -> bool {
    48 <= b && b <= 57
}

pub open spec fn is_sign(b: u8) -> bool {
    b == PLUS || b == MINUS
}

/// Length of the run of digits at the front of `s`.
pub open spec fn digits_len(s: Seq<u8>) -> nat
    decreases s.len(),
{
    if s.len() > 0 && is_digit(s[0]) {
        1 + digits_len(s.drop_first())
    } else {
        0
    }
}

/// `digits_len` really is the length of the leading digit run.
pub proof fn lemma_digits_len(s: Seq<u8>)
    ensures
        digits_len(s) <= s.len(),
        forall|j: int| 0 <= j < digits_len(s) ==> is_digit(s[j]),
        digits_len(s) < s.len() ==> !is_digit(s[digits_len(s) as int]),
    decreases s.len(),
{
    if s.len() > 0 && is_digit(s[0]) {
        lemma_digits_len(s.drop_first());
        assert forall|j: int| 0 <= j < digits_len(s) implies is_digit(s[j]) by {
            if j > 0 {
                assert(s.drop_first()[j - 1] == s[j]);
            }
        }
    }
}

/// ASCII upper-case letters folded to lower case.
pub open spec fn to_lower(b: u8) -> u8 {
    if 65 <= b && b <= 90 {
        (b + 32) as u8
    } else {
        b
    }
}

pub open spec fn is_word_inf(t: Seq<u8>) -> bool {
    &&& t.len() == 3
    &&& to_lower(t[0]) == 105
    &&& to_lower(t[1]) == 110
    &&& to_lower(t[2]) == 102
}

pub open spec fn is_word_infinity(t: Seq<u8>) -> bool {
    &&& t.len() == 8
    &&& to_lower(t[0]) == 105
    &&& to_lower(t[1]) == 110
    &&& to_lower(t[2]) == 102
    &&& to_lower(t[3]) == 105
    &&& to_lower(t[4]) == 110
    &&& to_lower(t[5]) == 105
    &&& to_lower(t[6]) == 116
    &&& to_lower(t[7]) == 121
}

pub open spec fn is_word_nan(t: Seq<u8>) -> bool {
    &&& t.len() == 3
    &&& to_lower(t[0]) == 110
    &&& to_lower(t[1]) == 97
    &&& to_lower(t[2]) == 110
}

/// One optional leading sign dropped.
pub open spec fn strip_sign(s: Seq<u8>) -> Seq<u8> {
    if s.len() > 0 && is_sign(s[0]) {
        s.drop_first()
    } else {
        s
    }
}

/// A non-empty, all-digit sequence.
pub open spec fn is_count(s: Seq<u8>) -> bool {
    s.len() > 0 && digits_len(s) == s.len()
}

/// An exponent part: `e`/`E`, an optional sign, then digits.
pub open spec fn is_exp(s: Seq<u8>) -> bool {
    s.len() > 0 && (s[0] == 101 || s[0] == 69) && is_count(strip_sign(s.drop_first()))
}

/// The `Number` production, decided by greedy digit scans (exact, since
/// neither `.` nor `e` is a digit).
pub open spec fn is_number(t: Seq<u8>) -> bool {
    let d1 = digits_len(t) as int;
    let rest = t.skip(d1);
    if d1 > 0 {
        if rest.len() > 0 && rest[0] == DOT {
            let d2 = digits_len(rest.drop_first()) as int;
            let rest2 = rest.skip(1 + d2);
            rest2.len() == 0 || is_exp(rest2)
        } else {
            rest.len() == 0 || is_exp(rest)
        }
    } else {
        if rest.len() > 0 && rest[0] == DOT {
            let d2 = digits_len(rest.drop_first()) as int;
            let rest2 = rest.skip(1 + d2);
            d2 > 0 && (rest2.len() == 0 || is_exp(rest2))
        } else {
            false
        }
    }
}

/// The whole token grammar.
pub open spec fn is_value_token(s: Seq<u8>) -> bool {
    let t = strip_sign(s);
    is_word_inf(t) || is_word_infinity(t) || is_word_nan(t) || is_number(t)
}

/// Absolute index just past the digit run beginning at `from`.
fn scan_digits(s: &[u8], from: usize) -> (r: usize)
    requires
        from <= s@.len(),
    ensures
        from <= r <= s@.len(),
        r - from == digits_len(s@.skip(from as int)),
{
    let n = s.len();
    let mut i: usize = from;
    while i < n && s[i] >= 48 && s[i] <= 57
        invariant
            from <= i <= n,
            n == s@.len(),
            forall|j: int| from <= j < i ==> is_digit(s@[j]),
        decreases n - i,
    {
        i = i + 1;
    }
    proof {
        let t = s@.skip(from as int);
        lemma_digits_len(t);
        let d = digits_len(t) as int;
        assert forall|j: int| 0 <= j < i - from implies is_digit(t[j]) by {
            assert(t[j] == s@[from + j]);
        }
        if d < i - from {
            assert(is_digit(t[d]));
        }
        if d > i - from {
            assert(t[i - from] == s@[i as int]);
            assert(is_digit(s@[i as int]));
        }
    }
    i
}

/// Decides `is_exp` for the suffix of `s` beginning at `p`.
fn check_exp(s: &[u8], p: usize) -> (r: bool)
    requires
        p <= s@.len(),
    ensures
        r == is_exp(s@.skip(p as int)),
{
    let n = s.len();
    proof {
        assert(s@.skip(p as int).len() == n - p);
    }
    if p >= n {
        return false;
    }
    let c = s[p];
    proof {
        assert(s@.skip(p as int)[0] == s@[p as int]);
    }
    if !(c == 101 || c == 69) {
        return false;
    }
    let q: usize = if p + 1 < n && (s[p + 1] == PLUS || s[p + 1] == MINUS) {
        p + 2
    } else {
        p + 1
    };
    let e = scan_digits(s, q);
    proof {
        let t = s@.skip(p as int);
        let u = strip_sign(t.drop_first());
        assert(t.drop_first() =~= s@.skip(p + 1 as int));
        if p + 1 < n && is_sign(s@[p + 1 as int]) {
            assert(s@.skip(p + 1 as int)[0] == s@[p + 1 as int]);
            assert(u =~= s@.skip(p + 2 as int));
        } else {
            if s@.skip(p + 1 as int).len() > 0 {
                assert(s@.skip(p + 1 as int)[0] == s@[p + 1 as int]);
            }
            assert(u =~= s@.skip(p + 1 as int));
        }
        assert(u =~= s@.skip(q as int));
    }
    e == n && q < n
}

/// Decides whether the suffix of `s` beginning at `p` is one of the three
/// special words, matched case-insensitively.
fn check_special_word(s: &[u8], p: usize) -> (r: bool)
    requires
        p <= s@.len(),
    ensures
        r == {
            let t = s@.skip(p as int);
            is_word_inf(t) || is_word_infinity(t) || is_word_nan(t)
        },
{
    let n = s.len();
    let ghost t = s@.skip(p as int);
    proof {
        assert(t.len() == n - p);
        assert forall|j: int| 0 <= j < t.len() implies t[j] == s@[p + j] by {}
    }
    if n - p == 3 {
        let a = lower_byte(s[p]);
        let b = lower_byte(s[p + 1]);
        let c = lower_byte(s[p + 2]);
        (a == 105 && b == 110 && c == 102) || (a == 110 && b == 97 && c == 110)
    } else if n - p == 8 {
        lower_byte(s[p]) == 105 && lower_byte(s[p + 1]) == 110 && lower_byte(s[p + 2]) == 102
            && lower_byte(s[p + 3]) == 105 && lower_byte(s[p + 4]) == 110 && lower_byte(
            s[p + 5],
        ) == 105 && lower_byte(s[p + 6]) == 116 && lower_byte(s[p + 7]) == 121
    } else {
        false
    }
}

fn lower_byte(b: u8) -> (r: u8)
    ensures
        r == to_lower(b),
{
    if 65 <= b && b <= 90 {
        b + 32
    } else {
        b
    }
}

/// Decides the value-token grammar.
pub fn check_value_token(s: &[u8]) -> (r: bool)
    ensures
        r == is_value_token(s@),
{
    let n = s.len();
    let start: usize = if n > 0 && (s[0] == PLUS || s[0] == MINUS) {
        1
    } else {
        0
    };
    let ghost t = strip_sign(s@);
    proof {
        if n > 0 && is_sign(s@[0]) {
            assert(t =~= s@.skip(start as int));
        } else {
            assert(t =~= s@.skip(start as int));
        }
    }
    if check_special_word(s, start) {
        return true;
    }
    let d1e = scan_digits(s, start);
    let ghost d1 = digits_len(t) as int;
    proof {
        assert(t =~= s@.skip(start as int));
        assert(d1 == d1e - start);
        assert(t.skip(d1) =~= s@.skip(d1e as int));
    }
    let ghost rest = t.skip(d1);
    if d1e > start {
        if d1e < n && s[d1e] == DOT {
            let d2e = scan_digits(s, d1e + 1);
            proof {
                assert(rest[0] == s@[d1e as int]);
                assert(rest.drop_first() =~= s@.skip(d1e + 1 as int));
                let d2 = digits_len(rest.drop_first()) as int;
                assert(d2 == d2e - (d1e + 1));
                assert(rest.skip(1 + d2) =~= s@.skip(d2e as int));
            }
            d2e == n || check_exp(s, d2e)
        } else {
            proof {
                if d1e < n {
                    assert(rest[0] == s@[d1e as int]);
                }
            }
            d1e == n || check_exp(s, d1e)
        }
    } else {
        if start < n && s[start] == DOT {
            let d2e = scan_digits(s, start + 1);
            proof {
                assert(rest[0] == s@[start as int]);
                assert(rest.drop_first() =~= s@.skip(start + 1 as int));
                let d2 = digits_len(rest.drop_first()) as int;
                assert(d2 == d2e - (start + 1));
                assert(rest.skip(1 + d2) =~= s@.skip(d2e as int));
            }
            d2e > start + 1 && (d2e == n || check_exp(s, d2e))
        } else {
            proof {
                if start < n {
                    assert(rest[0] == s@[start as int]);
                }
            }
            false
        }
    }
}

} // verus!
