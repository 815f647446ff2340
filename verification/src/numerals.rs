//! Human-friendly numeral reading: decimal with optional sign, alternate
//! radix prefixes (`0x`, `0o`, `0b`), and unit suffixes (`k`, `M`, `G`,
//! `ki`, `Mi`, `Gi`), normalized to a canonical decimal integer.

use vstd::prelude::*;
use crate::text::{int_dec, nat_dec, digit_char};

verus! {

/// Whether `c` is a digit of the given radix (2, 8, 10 or 16).
pub open spec fn digit_ok(c: char, radix: int) -> bool {
    let u = c as u32;
    if radix == 16 {
        (48 <= u <= 57) || (97 <= u <= 102) || (65 <= u <= 70)
    } else {
        48 <= u < 48 + radix
    }
}

/// The numeric value of a digit character.
pub open spec fn digit_v(c: char) -> int {
    let u = c as u32;
    if 48 <= u <= 57 {
        u - 48
    } else if 97 <= u <= 102 {
        u - 87
    } else if 65 <= u <= 70 {
        u - 55
    } else {
        0
    }
}

/// Whether every character of `s` is a digit of the given radix.
pub open spec fn all_digits(s: Seq<char>, radix: int) -> bool {
    forall|i: int| 0 <= i < s.len() ==> digit_ok(s[i], radix)
}

/// The value denoted by a digit string, most significant digit first.
pub open spec fn digits_val(s: Seq<char>, radix: int) -> int
    decreases s.len(),
{
    if s.len() == 0 {
        0
    } else {
        digits_val(s.drop_last(), radix) * radix + digit_v(s.last())
    }
}

/// The unbounded integer denoted by a numeral: an optional `+` or `-`
/// sign followed by at least one digit of the radix; `None` otherwise.
pub open spec fn numeral_value(s: Seq<char>, radix: int) -> Option<int> {
    if s.len() > 0 && (s[0] == '+' || s[0] == '-') {
        if s.len() > 1 && all_digits(s.skip(1), radix) {
            if s[0] == '-' {
                Some(-digits_val(s.skip(1), radix))
            } else {
                Some(digits_val(s.skip(1), radix))
            }
        } else {
            None
        }
    } else if s.len() > 0 && all_digits(s, radix) {
        Some(digits_val(s, radix))
    } else {
        None
    }
}

/// The numeral's value when it denotes an integer that fits in `i64`.
pub open spec fn parse_radix_i64(s: Seq<char>, radix: int) -> Option<i64> {
    match numeral_value(s, radix) {
        Some(v) => if i64::MIN <= v <= i64::MAX {
            Some(v as i64)
        } else {
            None
        },
        None => None,
    }
}

proof fn lemma_digits_val_nonneg(s: Seq<char>, radix: int)
    requires
        radix >= 2,
        all_digits(s, radix),
    ensures
        digits_val(s, radix) >= 0,
    decreases s.len(),
{
    if s.len() > 0 {
        assert(all_digits(s.drop_last(), radix));
        lemma_digits_val_nonneg(s.drop_last(), radix);
        let p = digits_val(s.drop_last(), radix);
        assert(p * radix >= 0) by (nonlinear_arith)
            requires
                p >= 0,
                radix >= 2,
        ;
        assert(digit_v(s.last()) >= 0);
    }
}

proof fn lemma_digits_val_prefix(s: Seq<char>, radix: int, i: int)
    requires
        radix >= 2,
        all_digits(s, radix),
        0 <= i <= s.len(),
    ensures
        digits_val(s.take(i), radix) <= digits_val(s, radix),
    decreases s.len() - i,
{
    if i < s.len() {
        lemma_digits_val_prefix(s, radix, i + 1);
        let t = s.take(i + 1);
        assert(t.drop_last() =~= s.take(i));
        assert(t.last() == s[i]);
        assert(all_digits(s.take(i), radix));
        lemma_digits_val_nonneg(s.take(i), radix);
        let p = digits_val(s.take(i), radix);
        assert(p * radix >= p) by (nonlinear_arith)
            requires
                p >= 0,
                radix >= 2,
        ;
        assert(digits_val(t, radix) >= p);
    } else {
        assert(s.take(i) =~= s);
    }
}

fn digit_of(c: char, radix: u64) -> (r: Option<u64>)
    requires
        radix == 2 || radix == 8 || radix == 10 || radix == 16,
    ensures
        match r {
            Some(d) => digit_ok(c, radix as int) && d as int == digit_v(c) && d < radix,
            None => !digit_ok(c, radix as int),
        },
{
    let u = c as u32;
    if radix == 16 {
        if u >= 48 && u <= 57 {
            Some((u - 48) as u64)
        } else if u >= 97 && u <= 102 {
            Some((u - 87) as u64)
        } else if u >= 65 && u <= 70 {
            Some((u - 55) as u64)
        } else {
            None
        }
    } else {
        if u >= 48 && u < 48 + radix as u32 {
            Some((u - 48) as u64)
        } else {
            None
        }
    }
}

/// Read a signed numeral of the given radix, exactly when it denotes an
/// integer in `i64` range.
pub fn parse_int_radix(s: &str, radix: u64) -> (r: Option<i64>)
    requires
        radix == 2 || radix == 8 || radix == 10 || radix == 16,
    ensures
        r == parse_radix_i64(s@, radix as int),
{
    let len = s.unicode_len();
    if len == 0 {
        return None;
    }
    let first = s.get_char(0);
    let neg = first == '-';
    let has_sign = neg || first == '+';
    let start: usize = if has_sign {
        1
    } else {
        0
    };
    if start >= len {
        return None;
    }
    let ghost digs: Seq<char> = if has_sign {
        s@.skip(1)
    } else {
        s@
    };
    let mut mag: u128 = 0;
    let mut i: usize = start;
    while i < len
        invariant
            radix == 2 || radix == 8 || radix == 10 || radix == 16,
            start <= i <= len,
            len == s@.len(),
            start == if has_sign { 1int } else { 0int },
            has_sign ==> (s@[0] == '+' || s@[0] == '-'),
            !has_sign ==> !(s@[0] == '+' || s@[0] == '-'),
            neg == (s@[0] == '-'),
            digs == if has_sign { s@.skip(1) } else { s@ },
            start < len,
            all_digits(digs.take(i - start), radix as int),
            mag as int == digits_val(digs.take(i - start), radix as int),
            mag <= 0x8000_0000_0000_0000u128,
        decreases len - i,
    {
        let c = s.get_char(i);
        proof {
            assert(digs[i - start] == c);
        }
        let d = match digit_of(c, radix) {
            Some(d) => d,
            None => {
                proof {
                    assert(!all_digits(digs, radix as int));
                }
                return None;
            },
        };
        proof {
            assert(mag * (radix as u128) <= 0x8000_0000_0000_0000u128 * 16) by (nonlinear_arith)
                requires
                    mag <= 0x8000_0000_0000_0000u128,
                    radix <= 16,
            ;
        }
        let next = mag * (radix as u128) + (d as u128);
        proof {
            let t = digs.take(i - start + 1);
            assert(t.drop_last() =~= digs.take(i - start));
            assert(t.last() == digs[i - start]);
            assert(all_digits(t, radix as int));
            assert(next as int == digits_val(t, radix as int));
        }
        mag = next;
        i += 1;
        if mag > 0x8000_0000_0000_0000u128 {
            proof {
                if all_digits(digs, radix as int) {
                    lemma_digits_val_prefix(digs, radix as int, i - start);
                    assert(digits_val(digs, radix as int) > 0x8000_0000_0000_0000);
                }
            }
            return None;
        }
    }
    proof {
        assert(digs.take(len - start) =~= digs);
        if has_sign {
            assert(digs.len() > 0);
        }
    }
    if neg {
        if mag == 0x8000_0000_0000_0000u128 {
            Some(i64::MIN)
        } else {
            Some(-(mag as i64))
        }
    } else {
        if mag <= 0x7FFF_FFFF_FFFF_FFFFu128 {
            Some(mag as i64)
        } else {
            None
        }
    }
}

/// The numeral after a recognized unit suffix is stripped.
pub open spec fn strip_text(s: Seq<char>) -> Seq<char> {
    if ends1(s, 'k') || ends1(s, 'M') || ends1(s, 'G') {
        s.drop_last()
    } else if ends2(s, 'k', 'i') || ends2(s, 'M', 'i') || ends2(s, 'G', 'i') {
        s.take(s.len() - 2)
    } else {
        s
    }
}

/// The multiplier of the recognized unit suffix, 1 when there is none.
pub open spec fn strip_mult(s: Seq<char>) -> int {
    if ends1(s, 'k') {
        1000
    } else if ends1(s, 'M') {
        1000000
    } else if ends1(s, 'G') {
        1000000000
    } else if ends2(s, 'k', 'i') {
        1024
    } else if ends2(s, 'M', 'i') {
        1048576
    } else if ends2(s, 'G', 'i') {
        1073741824
    } else {
        1
    }
}

/// Whether `s` ends with the one-letter suffix `c` and is longer than it.
pub open spec fn ends1(s: Seq<char>, c: char) -> bool {
    s.len() > 1 && s.last() == c
}

/// Whether `s` ends with the two-letter suffix `c1 c2` and is longer.
pub open spec fn ends2(s: Seq<char>, c1: char, c2: char) -> bool {
    s.len() > 2 && s[s.len() - 2] == c1 && s.last() == c2
}

/// The value of the numeral part: plain decimal first, then an alternate
/// radix when a two-character prefix announces one.
pub open spec fn stage_value(t: Seq<char>) -> Option<i64> {
    if parse_radix_i64(t, 10) is Some {
        parse_radix_i64(t, 10)
    } else if t.len() > 2 && t[0] == '0' && t[1] == 'x' {
        parse_radix_i64(t.skip(2), 16)
    } else if t.len() > 2 && t[0] == '0' && t[1] == 'o' {
        parse_radix_i64(t.skip(2), 8)
    } else if t.len() > 2 && t[0] == '0' && t[1] == 'b' {
        parse_radix_i64(t.skip(2), 2)
    } else {
        None
    }
}

/// The integer a human-friendly numeral denotes: suffix stripped, numeral
/// part read, the two multiplied — exactly when the product fits in `i64`.
pub open spec fn from_numeric_spec(s: Seq<char>) -> Option<i64> {
    match stage_value(strip_text(s)) {
        Some(v) => {
            let w = v * strip_mult(s);
            if i64::MIN <= w <= i64::MAX {
                Some(w as i64)
            } else {
                None
            }
        },
        None => None,
    }
}

/// Read a human-friendly numeral: unit suffix, then decimal or prefixed
/// radix, failing exactly when the text or the range is wrong.
pub fn from_numeric(src: &str) -> (r: Option<i64>)
    ensures
        r == from_numeric_spec(src@),
{
    let len = src.unicode_len();
    let mut mult: i64 = 1;
    let mut end: usize = len;
    if len > 1 && src.get_char(len - 1) == 'k' {
        mult = 1000;
        end = len - 1;
    } else if len > 1 && src.get_char(len - 1) == 'M' {
        mult = 1000000;
        end = len - 1;
    } else if len > 1 && src.get_char(len - 1) == 'G' {
        mult = 1000000000;
        end = len - 1;
    } else if len > 2 && src.get_char(len - 2) == 'k' && src.get_char(len - 1) == 'i' {
        mult = 1024;
        end = len - 2;
    } else if len > 2 && src.get_char(len - 2) == 'M' && src.get_char(len - 1) == 'i' {
        mult = 1048576;
        end = len - 2;
    } else if len > 2 && src.get_char(len - 2) == 'G' && src.get_char(len - 1) == 'i' {
        mult = 1073741824;
        end = len - 2;
    }
    let t = src.substring_char(0, end);
    proof {
        assert(t@ =~= strip_text(src@));
        assert(mult as int == strip_mult(src@));
    }
    let tlen = t.unicode_len();
    let stage: Option<i64> = match parse_int_radix(t, 10) {
        Some(v) => Some(v),
        None => {
            if tlen > 2 {
                let c0 = t.get_char(0);
                let c1 = t.get_char(1);
                let rest = t.substring_char(2, tlen);
                proof {
                    assert(rest@ =~= t@.skip(2));
                }
                if c0 == '0' && c1 == 'x' {
                    parse_int_radix(rest, 16)
                } else if c0 == '0' && c1 == 'o' {
                    parse_int_radix(rest, 8)
                } else if c0 == '0' && c1 == 'b' {
                    parse_int_radix(rest, 2)
                } else {
                    None
                }
            } else {
                None
            }
        },
    };
    match stage {
        Some(v) => {
            proof {
                assert(-0x80000000000000000000000000 <= (v as int) * (mult as int)
                    <= 0x80000000000000000000000000) by (nonlinear_arith)
                    requires
                        -0x8000000000000000 <= v as int <= 0x7fffffffffffffff,
                        1 <= mult as int <= 1073741824,
                ;
            }
            let prod: i128 = (v as i128) * (mult as i128);
            if prod >= i64::MIN as i128 && prod <= i64::MAX as i128 {
                Some(prod as i64)
            } else {
                None
            }
        },
        None => None,
    }
}

/// Every digit of a canonical decimal rendering is a decimal digit, and
/// the rendering reads back to the number it was made from.
pub proof fn lemma_nat_dec_digits(m: nat)
    ensures
        nat_dec(m).len() >= 1,
        all_digits(nat_dec(m), 10),
        digits_val(nat_dec(m), 10) == m,
        48 <= (nat_dec(m).last() as u32) <= 57,
        48 <= (nat_dec(m)[0] as u32) <= 57,
    decreases m,
{
    if m < 10 {
        assert(nat_dec(m) =~= seq![digit_char(m)]);
        assert(digit_ok(digit_char(m), 10));
        assert(digit_v(digit_char(m)) == m);
        assert(nat_dec(m).drop_last() =~= Seq::<char>::empty());
        assert(nat_dec(m).last() == digit_char(m));
        assert(digits_val(nat_dec(m), 10) == digits_val(Seq::<char>::empty(), 10) * 10 + digit_v(
            digit_char(m),
        ));
    } else {
        lemma_nat_dec_digits(m / 10);
        let s = nat_dec(m);
        let p = nat_dec(m / 10);
        assert(s =~= p + seq![digit_char(m % 10)]);
        assert(s.drop_last() =~= p);
        assert(s.last() == digit_char(m % 10));
        assert(digit_v(digit_char(m % 10)) == m % 10);
        assert(forall|i: int| 0 <= i < s.len() ==> digit_ok(s[i], 10));
        assert(digits_val(s, 10) == digits_val(p, 10) * 10 + (m % 10));
        assert(digits_val(p, 10) * 10 + m % 10 == m) by (nonlinear_arith)
            requires
                digits_val(p, 10) == m / 10,
                m >= 10,
        ;
        assert(s[0] == p[0]);
        assert(digits_val(s, 10) == m);
    }
}

/// Reading back a canonical decimal rendering recovers the number:
/// the numeral pipeline is left inverse to decimal rendering.
pub proof fn lemma_dec_round_trip(n: i64)
    ensures
        from_numeric_spec(int_dec(n as int)) == Some(n),
{
    let s = int_dec(n as int);
    if n >= 0 {
        lemma_nat_dec_digits(n as nat);
        assert(s == nat_dec(n as nat));
        assert(48 <= (s.last() as u32) <= 57);
        assert(!ends1(s, 'k') && !ends1(s, 'M') && !ends1(s, 'G'));
        assert(!ends2(s, 'k', 'i') && !ends2(s, 'M', 'i') && !ends2(s, 'G', 'i'));
        assert(strip_text(s) == s);
        assert(strip_mult(s) == 1);
        assert(!(s[0] == '+' || s[0] == '-'));
        assert(numeral_value(s, 10) == Some(n as int));
        assert(parse_radix_i64(s, 10) == Some(n));
        assert(stage_value(s) == Some(n));
        assert((n as int) * 1 == n as int) by (nonlinear_arith);
    } else {
        let m = (-(n as int)) as nat;
        lemma_nat_dec_digits(m);
        assert(s =~= seq!['-'] + nat_dec(m));
        assert(s.last() == nat_dec(m).last());
        assert(48 <= (s.last() as u32) <= 57);
        assert(!ends1(s, 'k') && !ends1(s, 'M') && !ends1(s, 'G'));
        assert(!ends2(s, 'k', 'i') && !ends2(s, 'M', 'i') && !ends2(s, 'G', 'i'));
        assert(strip_text(s) == s);
        assert(strip_mult(s) == 1);
        assert(s[0] == '-');
        assert(s.skip(1) =~= nat_dec(m));
        assert(s.len() > 1);
        assert(numeral_value(s, 10) == Some(-(m as int)));
        assert(parse_radix_i64(s, 10) == Some(n));
        assert(stage_value(s) == Some(n));
        assert((n as int) * 1 == n as int) by (nonlinear_arith);
    }
}

} // verus!
