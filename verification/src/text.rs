//! Decimal rendering and parsing of byte strings, and byte-prefix matching.
//!
//! The frame header carries its body length as an ASCII decimal number; this
//! module gives that number an exact mathematical reading in both directions.

use vstd::prelude::*;

verus! {

/// Every byte of `s` is an ASCII decimal digit.
pub open spec fn is_digits(s: Seq<u8>) -> bool {
    forall|i: int| 0 <= i < s.len() ==> 48 <= #[trigger] s[i] <= 57
}

/// The numeric value of an ASCII decimal digit string (most significant
/// digit first). Only meaningful when `is_digits(s)` holds.
pub open spec fn dec_value(s: Seq<u8>) -> int
    decreases s.len(),
{
    if s.len() == 0 {
        0
    } else {
        dec_value(s.drop_last()) * 10 + (s.last() - 48)
    }
}

/// The canonical ASCII decimal rendering of `n`: no sign, no leading zeros
/// (except for `n == 0`, rendered as a single `0`).
pub open spec fn dec_digits(n: nat) -> Seq<u8>
    decreases n,
{
    if n < 10 {
        seq![(48 + n) as u8]
    } else {
        dec_digits(n / 10).push((48 + n % 10) as u8)
    }
}

/// The digit string parsed by the length field: an optional leading `+` sign
/// is accepted and skipped, as Rust's unsigned integer parsing does.
pub open spec fn digits_of(s: Seq<u8>) -> Seq<u8> {
    if s.len() > 0 && s[0] == 43 {
        s.skip(1)
    } else {
        s
    }
}

/// A byte string is a valid length field when, after the optional sign, it is
/// a nonempty digit string whose value fits the machine's size type.
pub open spec fn len_field_ok(s: Seq<u8>) -> bool {
    &&& digits_of(s).len() > 0
    &&& is_digits(digits_of(s))
    &&& dec_value(digits_of(s)) <= usize::MAX
}

/// `p` is a prefix of `s`.
pub open spec fn has_prefix(s: Seq<u8>, p: Seq<u8>) -> bool {
    s.len() >= p.len() && s.take(p.len() as int) == p
}

/// The canonical rendering is a nonempty digit string (so it contains no
/// control bytes and no sign), and parsing it gives back the number.
pub proof fn lemma_dec_digits(n: nat)
    ensures
        dec_digits(n).len() >= 1,
        is_digits(dec_digits(n)),
        dec_value(dec_digits(n)) == n,
    decreases n,
{
    if n < 10 {
        assert(dec_digits(n) =~= seq![(48 + n) as u8]);
        assert(dec_digits(n).drop_last() =~= Seq::<u8>::empty());
        assert(dec_digits(n).last() == (48 + n) as u8);
        assert(dec_value(dec_digits(n)) == dec_value(Seq::<u8>::empty()) * 10 + ((48 + n) as u8
            - 48));
    } else {
        lemma_dec_digits(n / 10);
        assert(dec_digits(n).drop_last() =~= dec_digits(n / 10));
        assert(dec_digits(n).last() == (48 + n % 10) as u8);
        assert(dec_value(dec_digits(n)) == (n / 10) * 10 + n % 10);
        assert((n / 10) * 10 + n % 10 == n) by {
            vstd::arithmetic::div_mod::lemma_fundamental_div_mod(n as int, 10);
        }
    }
}

/// Appending digits never shrinks the value: the value of a digit-string
/// prefix is a lower bound for the value of the whole string.
pub proof fn lemma_dec_value_mono(s: Seq<u8>, i: int, j: int)
    requires
        is_digits(s),
        0 <= i <= j <= s.len(),
    ensures
        dec_value(s.take(i)) <= dec_value(s.take(j)),
    decreases j - i,
{
    if i < j {
        lemma_dec_value_mono(s, i, j - 1);
        assert(s.take(j).drop_last() =~= s.take(j - 1));
        assert(dec_value(s.take(j)) == dec_value(s.take(j - 1)) * 10 + (s[j - 1] - 48));
        assert(dec_value(s.take(j - 1)) >= 0) by {
            lemma_dec_value_nonneg(s.take(j - 1));
        }
    }
}

/// The value of a digit string is never negative.
pub proof fn lemma_dec_value_nonneg(s: Seq<u8>)
    requires
        is_digits(s),
    ensures
        dec_value(s) >= 0,
    decreases s.len(),
{
    if s.len() > 0 {
        assert(is_digits(s.drop_last()));
        lemma_dec_value_nonneg(s.drop_last());
    }
}

/// Whether `p` is a prefix of `s`, byte for byte.
pub fn starts_with(s: &[u8], p: &[u8]) -> (r: bool)
    ensures
        r == has_prefix(s@, p@),
{
    if s.len() < p.len() {
        return false;
    }
    let mut i: usize = 0;
    while i < p.len()
        invariant
            0 <= i <= p@.len() <= s@.len(),
            forall|k: int| 0 <= k < i ==> s@[k] == p@[k],
        decreases p@.len() - i,
    {
        if s[i] != p[i] {
            assert(s@.take(p@.len() as int)[i as int] != p@[i as int]);
            return false;
        }
        i = i + 1;
    }
    proof {
        assert(s@.take(p@.len() as int) =~= p@);
    }
    true
}

/// The canonical decimal rendering of `n` as bytes.
pub fn render_dec(n: usize) -> (r: Vec<u8>)
    ensures
        r@ == dec_digits(n as nat),
{
    let mut out: Vec<u8> = Vec::new();
    let mut m: usize = n;
    proof {
        assert(dec_digits(n as nat) =~= dec_digits(m as nat) + out@);
    }
    loop
        invariant_except_break
            dec_digits(n as nat) == dec_digits(m as nat) + out@,
        ensures
            dec_digits(n as nat) == out@,
        decreases m,
    {
        let d: u8 = (m % 10) as u8 + 48;
        out.insert(0, d);
        m = m / 10;
        proof {
            if m == 0 {
                assert(dec_digits(n as nat) =~= out@);
            } else {
                assert(dec_digits(n as nat) =~= dec_digits(m as nat) + out@);
            }
        }
        if m == 0 {
            break;
        }
    }
    out
}

/// Parse a frame-length field: optional `+` sign, then decimal digits, value
/// bounded by the size type. Returns the value exactly when the field is
/// well formed.
pub fn parse_len(field: &[u8]) -> (r: Option<usize>)
    ensures
        r is Some <==> len_field_ok(field@),
        r matches Some(v) ==> v == dec_value(digits_of(field@)),
{
    let start: usize = if field.len() > 0 && field[0] == 43 {
        1
    } else {
        0
    };
    let digits = vstd::slice::slice_subrange(field, start, field.len());
    proof {
        assert(digits@ =~= digits_of(field@));
    }
    if digits.len() == 0 {
        return None;
    }
    let mut acc: usize = 0;
    let mut j: usize = 0;
    while j < digits.len()
        invariant
            0 <= j <= digits@.len(),
            digits@ == digits_of(field@),
            digits@.len() > 0,
            is_digits(digits@.take(j as int)),
            acc == dec_value(digits@.take(j as int)),
        decreases digits@.len() - j,
    {
        let b = digits[j];
        if b < 48 || b > 57 {
            proof {
                assert(!(48 <= digits@[j as int] <= 57));
                assert(!is_digits(digits@));
                assert(!is_digits(digits_of(field@)));
                assert(!len_field_ok(field@));
            }
            return None;
        }
        let d: usize = (b - 48) as usize;
        proof {
            assert(digits@.take(j + 1).drop_last() =~= digits@.take(j as int));
        }
        if acc > (usize::MAX - d) / 10 {
            // The value overflows the size type; it can only grow from here.
            proof {
                vstd::arithmetic::div_mod::lemma_fundamental_div_mod(
                    (usize::MAX - d) as int,
                    10,
                );
                assert(acc * 10 + d > usize::MAX);
                if is_digits(digits@) {
                    lemma_dec_value_mono(digits@, j + 1, digits@.len() as int);
                    assert(digits@.take(digits@.len() as int) =~= digits@);
                    assert(dec_value(digits_of(field@)) > usize::MAX);
                }
                assert(!len_field_ok(field@));
            }
            return None;
        }
        proof {
            vstd::arithmetic::div_mod::lemma_fundamental_div_mod((usize::MAX - d) as int, 10);
        }
        acc = acc * 10 + d;
        j = j + 1;
    }
    proof {
        assert(digits@.take(digits@.len() as int) =~= digits@);
    }
    Some(acc)
}

} // verus!
