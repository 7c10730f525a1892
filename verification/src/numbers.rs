//! Decimal numerals: what a digit string denotes, how a number is rendered,
//! and verified parsing with overflow detection.

use vstd::arithmetic::div_mod::lemma_fundamental_div_mod;
use vstd::prelude::*;
use vstd::string::StringExecFns;
use vstd::string::StrSliceExecFns;

verus! {

/// `c` is one of the characters '0' through '9'.
pub open spec fn is_digit(c: char) -> bool {
    48 <= c as u32 && c as u32 <= 57
}

/// The number a single digit character denotes.
pub open spec fn digit_val(c: char) -> nat {
    (c as u32 - 48) as nat
}

/// A non-empty sequence of digit characters.
pub open spec fn is_digits(s: Seq<char>) -> bool {
    &&& s.len() > 0
    &&& forall|i: int| 0 <= i < s.len() ==> is_digit(#[trigger] s[i])
}

/// The number a digit sequence denotes, most significant digit first.
pub open spec fn digits_val(s: Seq<char>) -> nat
    decreases s.len(),
{
    if s.len() == 0 {
        0
    } else {
        digits_val(s.drop_last()) * 10 + digit_val(s.last())
    }
}

/// The digit character denoting `d` (for `d < 10`).
pub open spec fn digit_char(d: nat) -> char {
    if d == 0 {
        '0'
    } else if d == 1 {
        '1'
    } else if d == 2 {
        '2'
    } else if d == 3 {
        '3'
    } else if d == 4 {
        '4'
    } else if d == 5 {
        '5'
    } else if d == 6 {
        '6'
    } else if d == 7 {
        '7'
    } else if d == 8 {
        '8'
    } else {
        '9'
    }
}

/// The decimal rendering of `n`: no sign, no leading zeros.
pub open spec fn dec_str(n: nat) -> Seq<char>
    decreases n,
{
    if n < 10 {
        seq![digit_char(n)]
    } else {
        dec_str(n / 10).push(digit_char(n % 10))
    }
}

pub proof fn lemma_digit_char_val(d: nat)
    requires
        d < 10,
    ensures
        is_digit(digit_char(d)),
        digit_val(digit_char(d)) == d,
{
}

/// A decimal rendering consists of digits only.
pub proof fn lemma_dec_str_is_digits(n: nat)
    ensures
        is_digits(dec_str(n)),
    decreases n,
{
    if n < 10 {
        lemma_digit_char_val(n);
    } else {
        lemma_dec_str_is_digits(n / 10);
        assert(n % 10 < 10) by (nonlinear_arith);
        lemma_digit_char_val((n % 10) as nat);
        assert(forall|i: int|
            0 <= i < dec_str(n).len() ==> is_digit(#[trigger] dec_str(n)[i])) by {
            assert(forall|i: int|
                0 <= i < dec_str(n / 10).len() ==> is_digit(#[trigger] dec_str(n / 10)[i]));
        }
    }
}

/// Rendering then reading a number gives the number back.
pub proof fn lemma_dec_str_val(n: nat)
    ensures
        digits_val(dec_str(n)) == n,
    decreases n,
{
    if n < 10 {
        lemma_digit_char_val(n);
        assert(dec_str(n).drop_last() =~= Seq::<char>::empty());
        assert(digits_val(dec_str(n).drop_last()) == 0);
    } else {
        lemma_dec_str_val(n / 10);
        assert(n % 10 < 10) by (nonlinear_arith);
        lemma_digit_char_val((n % 10) as nat);
        assert(dec_str(n).drop_last() =~= dec_str(n / 10));
        assert(digits_val(dec_str(n)) == (n / 10) * 10 + n % 10);
        lemma_fundamental_div_mod(n as int, 10);
    }
}

/// A digit string denotes at least as much as any of its prefixes.
pub proof fn lemma_digits_val_prefix_le(s: Seq<char>, i: int)
    requires
        0 <= i <= s.len(),
    ensures
        digits_val(s.subrange(0, i)) <= digits_val(s),
    decreases s.len() - i,
{
    if i < s.len() {
        let p = s.subrange(0, i);
        let q = s.subrange(0, i + 1);
        assert(q.drop_last() =~= p);
        assert(digits_val(q) == digits_val(p) * 10 + digit_val(s[i]));
        lemma_digits_val_prefix_le(s, i + 1);
    } else {
        assert(s.subrange(0, i) =~= s);
    }
}

/// Reads a string of decimal digits as a `usize`.  Returns `None` when the
/// string is empty, holds a non-digit, or denotes more than `usize::MAX`.
pub(crate) fn parse_digits(s: &str) -> (r: Option<usize>)
    ensures
        match r {
            Some(n) => is_digits(s@) && n == digits_val(s@),
            None => !(is_digits(s@) && digits_val(s@) <= usize::MAX),
        },
{
    let len = s.unicode_len();
    if len == 0 {
        return None;
    }
    let mut i: usize = 0;
    let mut acc: usize = 0;
    while i < len
        invariant
            i <= len,
            len == s@.len(),
            forall|k: int| 0 <= k < i ==> is_digit(#[trigger] s@[k]),
            acc == digits_val(s@.subrange(0, i as int)),
        decreases len - i,
    {
        let c = s.get_char(i);
        let u = c as u32;
        if u < 48 || u > 57 {
            return None;
        }
        let d = (u - 48) as usize;
        proof {
            lemma_fundamental_div_mod(usize::MAX as int, 10);
        }
        if acc > usize::MAX / 10 || (acc == usize::MAX / 10 && d > usize::MAX % 10) {
            proof {
                let q = s@.subrange(0, i as int + 1);
                assert(q.drop_last() =~= s@.subrange(0, i as int));
                assert(digits_val(q) == acc * 10 + d);
                lemma_digits_val_prefix_le(s@, i as int + 1);
            }
            return None;
        }
        proof {
            let q = s@.subrange(0, i as int + 1);
            assert(q.drop_last() =~= s@.subrange(0, i as int));
        }
        acc = acc * 10 + d;
        i = i + 1;
    }
    proof {
        assert(s@.subrange(0, len as int) =~= s@);
    }
    Some(acc)
}

/// Renders `n` in decimal.
pub fn usize_to_string(n: usize) -> (r: String)
    ensures
        r@ == dec_str(n as nat),
{
    let mut digits: Vec<char> = Vec::new();
    if n == 0 {
        digits.push('0');
        return chars_to_string(&digits);
    }
    let mut m = n;
    while m > 0
        invariant
            m > 0 ==> dec_str(n as nat) =~= dec_str(m as nat) + digits@,
            m == 0 ==> dec_str(n as nat) =~= digits@,
        decreases m,
    {
        let d = m % 10;
        let c = digit_to_char(d);
        digits.insert(0, c);
        proof {
            if m >= 10 {
                assert(dec_str(m as nat) =~= dec_str((m / 10) as nat).push(digit_char((m
                    % 10) as nat)));
            }
        }
        m = m / 10;
    }
    chars_to_string(&digits)
}

/// The digit character for `d`.
fn digit_to_char(d: usize) -> (c: char)
    requires
        d < 10,
    ensures
        c == digit_char(d as nat),
{
    if d == 0 {
        '0'
    } else if d == 1 {
        '1'
    } else if d == 2 {
        '2'
    } else if d == 3 {
        '3'
    } else if d == 4 {
        '4'
    } else if d == 5 {
        '5'
    } else if d == 6 {
        '6'
    } else if d == 7 {
        '7'
    } else if d == 8 {
        '8'
    } else {
        '9'
    }
}

/// The part of `s` that an integer parse reads: everything after one optional
/// leading '+'.
pub open spec fn positive_body(s: Seq<char>) -> Seq<char> {
    if s.len() > 0 && s[0] == '+' {
        s.drop_first()
    } else {
        s
    }
}

/// `s` is accepted as a positive line or byte count: an optional '+', then
/// digits denoting a number in `1 ..= usize::MAX`.
pub open spec fn positive_int_ok(s: Seq<char>) -> bool {
    &&& is_digits(positive_body(s))
    &&& 1 <= digits_val(positive_body(s)) <= usize::MAX
}

/// Reads a strictly positive decimal count, as used for `-n` and `-c`
/// arguments.  Rejected input comes back unchanged as the error.
pub fn parse_positive_int(val: &str) -> (r: Result<usize, String>)
    ensures
        match r {
            Ok(n) => positive_int_ok(val@) && n == digits_val(positive_body(val@)),
            Err(m) => !positive_int_ok(val@) && m@ == val@,
        },
{
    let len = val.unicode_len();
    let body = if len > 0 && val.get_char(0) == '+' {
        val.substring_char(1, len)
    } else {
        val
    };
    proof {
        assert(body@ =~= positive_body(val@));
    }
    match parse_digits(body) {
        Some(n) if n > 0 => Ok(n),
        _ => Err(val.to_owned()),
    }
}

/// Relies on `String::from_iter` over `char`: collecting characters yields the
/// string made of exactly those characters, in order.
#[verifier::external_body]
pub(crate) fn chars_to_string(chars: &Vec<char>) -> (r: String)
    ensures
        r@ == chars@,
{
    chars.iter().collect()
}

} // verus!
