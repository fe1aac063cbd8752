//! Decimal rendering and parsing of 64-bit integers, the leaf conversion
//! for integer-typed fields: the wire carries integers as ASCII decimal
//! byte strings.

use vstd::prelude::*;

verus! {

use vstd::arithmetic::div_mod::lemma_fundamental_div_mod;

/// The decimal digits of `n`, most significant first, as ASCII bytes.
pub open spec fn dec_u64(n: nat) -> Seq<u8>
    decreases n,
{
    if n < 10 {
        seq![(48 + n) as u8]
    } else {
        dec_u64(n / 10).push((48 + n % 10) as u8)
    }
}

/// The decimal rendering of a signed integer: a leading `-` for a
/// negative value, then the digits of its magnitude.
pub open spec fn dec_i64(i: int) -> Seq<u8> {
    if i < 0 {
        seq![45u8] + dec_u64((-i) as nat)
    } else {
        dec_u64(i as nat)
    }
}

/// ASCII decimal digit.
pub open spec fn is_digit(b: u8) -> bool {
    48 <= b <= 57
}

pub open spec fn all_digits(s: Seq<u8>) -> bool {
    forall|i: int| 0 <= i < s.len() ==> is_digit(#[trigger] s[i])
}

/// The integer a digit string denotes; meaningful when `all_digits` holds.
pub open spec fn digits_val(s: Seq<u8>) -> int
    decreases s.len(),
{
    if s.len() == 0 {
        0
    } else {
        digits_val(s.drop_last()) * 10 + (s.last() - 48)
    }
}

/// What a byte string parses to as a signed 64-bit decimal: an optional
/// leading `-`, then at least one digit, with the value in range.
pub open spec fn spec_parse_i64(s: Seq<u8>) -> Option<int> {
    if s.len() >= 1 && s[0] == 45 {
        let rest = s.subrange(1, s.len() as int);
        if rest.len() >= 1 && all_digits(rest) && digits_val(rest) <= 9223372036854775808 {
            Some(-digits_val(rest))
        } else {
            None
        }
    } else if s.len() >= 1 && all_digits(s) && digits_val(s) <= 9223372036854775807 {
        Some(digits_val(s))
    } else {
        None
    }
}

pub proof fn lemma_digits_val_nonneg(s: Seq<u8>)
    requires
        all_digits(s),
    ensures
        digits_val(s) >= 0,
    decreases s.len(),
{
    if s.len() > 0 {
        assert(all_digits(s.drop_last()));
        lemma_digits_val_nonneg(s.drop_last());
    }
}

/// Digit strings denote larger values than any of their prefixes.
pub proof fn lemma_digits_val_take_mono(s: Seq<u8>, j: int)
    requires
        all_digits(s),
        0 <= j <= s.len(),
    ensures
        digits_val(s.take(j)) <= digits_val(s),
    decreases s.len() - j,
{
    if j == s.len() {
        assert(s.take(j) =~= s);
    } else {
        assert(s.take(j + 1).drop_last() =~= s.take(j));
        assert(s.take(j + 1).last() == s[j]);
        assert(all_digits(s.take(j)));
        lemma_digits_val_nonneg(s.take(j));
        assert(digits_val(s.take(j + 1)) == digits_val(s.take(j)) * 10 + (s[j] - 48));
        assert(digits_val(s.take(j)) * 10 >= digits_val(s.take(j)));
        lemma_digits_val_take_mono(s, j + 1);
    }
}

/// The rendering of `n` is a non-empty digit string that denotes `n`.
pub proof fn lemma_dec_u64_props(n: nat)
    ensures
        dec_u64(n).len() >= 1,
        all_digits(dec_u64(n)),
        digits_val(dec_u64(n)) == n,
    decreases n,
{
    if n < 10 {
        let s = dec_u64(n);
        assert((48 + n) as u8 == 48 + n);
        assert(s =~= seq![(48 + n) as u8]);
        assert(s.drop_last() =~= Seq::<u8>::empty());
        assert(s.last() == (48 + n) as u8);
        assert(digits_val(s) == digits_val(s.drop_last()) * 10 + (s.last() - 48));
    } else {
        lemma_dec_u64_props(n / 10);
        let d = dec_u64(n / 10);
        let x = (48 + n % 10) as u8;
        let s = dec_u64(n);
        assert(s == d.push(x));
        assert(s.drop_last() =~= d);
        assert(s.last() == x);
        lemma_fundamental_div_mod(n as int, 10);
        assert(digits_val(s) == digits_val(d) * 10 + (x - 48));
        assert(forall|i: int| 0 <= i < s.len() ==> is_digit(#[trigger] s[i])) by {
            assert(forall|i: int| 0 <= i < d.len() ==> s[i] == #[trigger] d[i]);
            assert(s[s.len() - 1] == x);
        }
    }
}

/// Parsing inverts rendering on every representable signed value.
pub proof fn lemma_parse_dec_i64(i: int)
    requires
        -9223372036854775808 <= i <= 9223372036854775807,
    ensures
        spec_parse_i64(dec_i64(i)) == Some(i),
{
    if i < 0 {
        lemma_dec_u64_props((-i) as nat);
        let s = dec_i64(i);
        assert(s[0] == 45);
        assert(s.subrange(1, s.len() as int) =~= dec_u64((-i) as nat));
    } else {
        lemma_dec_u64_props(i as nat);
        let s = dec_i64(i);
        assert(is_digit(s[0]));
    }
}

/// Render an unsigned value in decimal.
pub fn fmt_u64(n: u64) -> (r: Vec<u8>)
    ensures
        r@ == dec_u64(n as nat),
    decreases n,
{
    if n < 10 {
        let mut v: Vec<u8> = Vec::new();
        v.push(48 + n as u8);
        proof {
            assert(v@ =~= dec_u64(n as nat));
        }
        v
    } else {
        let mut v = fmt_u64(n / 10);
        v.push(48 + (n % 10) as u8);
        proof {
            assert(v@ =~= dec_u64(n as nat));
        }
        v
    }
}

/// Render a signed value in decimal.
pub fn fmt_i64(n: i64) -> (r: Vec<u8>)
    ensures
        r@ == dec_i64(n as int),
{
    if n >= 0 {
        let v = fmt_u64(n as u64);
        proof {
            assert(v@ =~= dec_i64(n as int));
        }
        v
    } else {
        let mag: u64 = if n == i64::MIN {
            9223372036854775808u64
        } else {
            (-n) as u64
        };
        proof {
            assert(mag as nat == (-(n as int)) as nat);
        }
        let digits = fmt_u64(mag);
        let mut v: Vec<u8> = Vec::new();
        v.push(45u8);
        let mut i: usize = 0;
        while i < digits.len()
            invariant
                0 <= i <= digits.len(),
                digits@ == dec_u64(mag as nat),
                v@ == seq![45u8] + digits@.take(i as int),
            decreases digits.len() - i,
        {
            v.push(digits[i]);
            i += 1;
            proof {
                assert(v@ =~= seq![45u8] + digits@.take(i as int));
            }
        }
        proof {
            assert(digits@.take(digits@.len() as int) =~= digits@);
            assert(v@ =~= dec_i64(n as int));
        }
        v
    }
}

/// Scan a digit run starting at `start`, accumulating its value, and
/// refuse it if a non-digit appears or the value exceeds `limit`.
fn parse_digits(b: &Vec<u8>, start: usize, limit: u64) -> (r: Option<u64>)
    requires
        start < b@.len(),
        limit >= 9,
    ensures
        ({
            let s = b@.subrange(start as int, b@.len() as int);
            match r {
                Some(acc) => all_digits(s) && digits_val(s) == acc && acc <= limit,
                None => !(all_digits(s) && digits_val(s) <= limit),
            }
        }),
{
    let ghost s = b@.subrange(start as int, b@.len() as int);
    let mut acc: u64 = 0;
    let mut i: usize = start;
    while i < b.len()
        invariant
            start <= i <= b@.len(),
            limit >= 9,
            s == b@.subrange(start as int, b@.len() as int),
            all_digits(s.take((i - start) as int)),
            digits_val(s.take((i - start) as int)) == acc,
            acc <= limit,
        decreases b@.len() - i,
    {
        let ghost k = (i - start) as int;
        proof {
            assert(s[k] == b@[i as int]);
        }
        let d = b[i];
        if d < 48 || d > 57 {
            proof {
                assert(!is_digit(s[k]));
            }
            return None;
        }
        let dd: u64 = (d - 48) as u64;
        proof {
            assert(s.take(k + 1).drop_last() =~= s.take(k));
            assert(s.take(k + 1).last() == s[k]);
            assert(digits_val(s.take(k + 1)) == acc * 10 + dd);
            lemma_fundamental_div_mod((limit - dd) as int, 10);
        }
        if acc > (limit - dd) / 10 {
            proof {
                assert(acc * 10 + dd > limit) by {
                    assert(acc >= (limit - dd) / 10 + 1);
                    assert(acc * 10 >= ((limit - dd) / 10 + 1) * 10) by (nonlinear_arith)
                        requires
                            acc >= (limit - dd) / 10 + 1,
                    ;
                }
                assert(all_digits(s) ==> digits_val(s) > limit) by {
                    if all_digits(s) {
                        lemma_digits_val_take_mono(s, k + 1);
                    }
                }
            }
            return None;
        }
        proof {
            assert(acc * 10 + dd <= limit) by {
                assert(acc <= (limit - dd) / 10);
                assert(acc * 10 <= ((limit - dd) / 10) * 10) by (nonlinear_arith)
                    requires
                        acc <= (limit - dd) / 10,
                ;
            }
        }
        acc = acc * 10 + dd;
        i += 1;
        proof {
            assert(all_digits(s.take((i - start) as int)));
        }
    }
    proof {
        assert(s.take((i - start) as int) =~= s);
    }
    Some(acc)
}

/// Parse a signed 64-bit decimal byte string, exactly as
/// [`spec_parse_i64`] describes.
pub fn parse_i64(b: &Vec<u8>) -> (r: Option<i64>)
    ensures
        match r {
            Some(x) => spec_parse_i64(b@) == Some(x as int),
            None => spec_parse_i64(b@) is None,
        },
{
    if b.len() == 0 {
        return None;
    }
    if b[0] == 45 {
        if b.len() == 1 {
            proof {
                assert(b@.subrange(1, b@.len() as int).len() == 0);
            }
            return None;
        }
        let ghost rest = b@.subrange(1, b@.len() as int);
        match parse_digits(b, 1, 9223372036854775808u64) {
            None => None,
            Some(acc) => {
                if acc == 9223372036854775808u64 {
                    Some(i64::MIN)
                } else {
                    Some(-(acc as i64))
                }
            }
        }
    } else {
        match parse_digits(b, 0, 9223372036854775807u64) {
            None => {
                proof {
                    assert(b@.subrange(0, b@.len() as int) =~= b@);
                }
                None
            }
            Some(acc) => {
                proof {
                    assert(b@.subrange(0, b@.len() as int) =~= b@);
                }
                Some(acc as i64)
            }
        }
    }
}

} // verus!
