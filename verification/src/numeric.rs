//! Exact fixed-point interpretation of numeric tag values.
//!
//! Attribute resolution yields numbers in thousandths of a world unit
//! (milli-units). Binary floating-point fields arrive as raw bit patterns
//! and are interpreted here with pure integer arithmetic: the value times
//! 1000, truncated toward zero. Decimal strings are parsed the same way,
//! keeping at most three fraction digits. A value that is not finite, or
//! whose thousandths do not fit a 64-bit signed integer, resolves to
//! absent.

use vstd::prelude::*;
use vstd::arithmetic::power2::{pow2, lemma_pow2_adds, lemma_pow2_pos, lemma_pow2_strictly_increases, lemma2_to64, lemma2_to64_rest};
use vstd::arithmetic::div_mod::{lemma_div_denominator, lemma_basic_div};

verus! {

/// Largest magnitude of a milli-unit value: `i64::MAX`.
pub const MILLI_LIMIT: u64 = 0x7fff_ffff_ffff_ffff;

/// `mag` scaled by `2^shift`, truncated toward zero for negative shifts
/// (`mag` is a magnitude, so truncation is floor division).
pub open spec fn sp_scaled(mag: int, shift: int) -> int {
    if shift >= 0 {
        mag * pow2(shift as nat)
    } else {
        mag / pow2((-shift) as nat) as int
    }
}

/// Scales a magnitude by a power of two, exactly. Returns the result when
/// it stays within `MILLI_LIMIT`, and nothing when it grows beyond it.
pub fn scale_mag(mag: u64, shift: i32) -> (r: Option<u64>)
    requires
        mag <= MILLI_LIMIT,
        -1100 <= shift <= 1000,
    ensures
        match r {
            Some(v) => v as int == sp_scaled(mag as int, shift as int) && v <= MILLI_LIMIT,
            None => sp_scaled(mag as int, shift as int) > MILLI_LIMIT,
        },
{
    if shift >= 0 {
        let k = shift as u32;
        let mut j: u32 = 0;
        let mut cur: u64 = mag;
        proof {
            assert(pow2(0) == 1) by { lemma2_to64(); }
        }
        while j < k
            invariant
                j <= k,
                k as int == shift as int,
                cur as int == mag as int * pow2(j as nat),
                cur <= MILLI_LIMIT,
            decreases k - j,
        {
            if cur > MILLI_LIMIT / 2 {
                proof {
                    let rest = (k - j) as nat;
                    lemma_pow2_pos(rest);
                    lemma_pow2_adds(j as nat, rest);
                    if rest >= 1 {
                        lemma_pow2_strictly_increases(0, rest);
                    }
                    assert(pow2(0) == 1) by { lemma2_to64(); }
                    assert(pow2(rest) >= 2);
                    assert(mag as int * pow2(k as nat) == cur as int * pow2(rest)) by (nonlinear_arith)
                        requires
                            cur as int == mag as int * pow2(j as nat),
                            pow2(k as nat) == pow2(j as nat) * pow2(rest),
                    ;
                    assert(cur as int * pow2(rest) >= cur as int * 2) by (nonlinear_arith)
                        requires
                            pow2(rest) >= 2,
                            cur as int >= 0,
                    ;
                    assert(cur as int * 2 > MILLI_LIMIT);
                }
                return None;
            }
            proof {
                lemma_pow2_adds(j as nat, 1);
                assert(pow2(1) == 2) by { lemma2_to64(); }
                let pj = pow2(j as nat) as int;
                assert(mag as int * (2 * pj) == 2 * (mag as int * pj)) by (nonlinear_arith);
            }
            cur = cur * 2;
            j = j + 1;
        }
        Some(cur)
    } else {
        let k = (-shift) as u32;
        if k >= 63 {
            proof {
                if k > 63 {
                    lemma_pow2_strictly_increases(63, k as nat);
                }
                assert(pow2(63) == 0x8000_0000_0000_0000) by { lemma2_to64_rest(); }
                lemma_basic_div(mag as int, pow2(k as nat) as int);
            }
            return Some(0);
        }
        let mut j: u32 = 0;
        let mut cur: u64 = mag;
        proof {
            assert(pow2(0) == 1) by { lemma2_to64(); }
        }
        while j < k
            invariant
                j <= k < 63,
                cur as int == mag as int / pow2(j as nat) as int,
                cur <= MILLI_LIMIT,
                mag <= MILLI_LIMIT,
            decreases k - j,
        {
            proof {
                lemma_pow2_pos(j as nat);
                lemma_pow2_adds(j as nat, 1);
                assert(pow2(1) == 2) by { lemma2_to64(); }
                lemma_div_denominator(mag as int, pow2(j as nat) as int, 2);
            }
            cur = cur / 2;
            j = j + 1;
        }
        Some(cur)
    }
}

/// Whether `c` is the code of a decimal digit.
pub open spec fn sp_is_digit(c: u8) -> bool {
    48 <= c <= 57
}

/// Whether every byte of `s` is a decimal digit.
pub open spec fn sp_all_digits(s: Seq<u8>) -> bool {
    forall|i: int| 0 <= i < s.len() ==> sp_is_digit(#[trigger] s[i])
}

/// The number a digit string denotes, most significant digit first.
pub open spec fn sp_digits_val(s: Seq<u8>) -> int
    decreases s.len(),
{
    if s.len() == 0 {
        0
    } else {
        sp_digits_val(s.drop_last()) * 10 + (s.last() - 48)
    }
}

/// The thousandths denoted by a fraction-digit string: the first three
/// digits weighted by place, further digits truncated.
pub open spec fn sp_frac_milli(s: Seq<u8>) -> int {
    (if s.len() >= 1 { (s[0] - 48) * 100 } else { 0 }) + (if s.len() >= 2 {
        (s[1] - 48) * 10
    } else {
        0
    }) + (if s.len() >= 3 { (s[2] - 48) as int } else { 0 })
}

/// The index of the first `.` in `s`, or the length when there is none.
pub open spec fn sp_first_dot(s: Seq<u8>) -> int
    decreases s.len(),
{
    if s.len() == 0 {
        0
    } else if s[0] == 46 {
        0
    } else {
        1 + sp_first_dot(s.subrange(1, s.len() as int))
    }
}

/// `sp_first_dot` is the index characterized by: nothing before it is a
/// dot, and it is a dot unless it is the end.
pub proof fn lemma_first_dot_char(s: Seq<u8>, k: int)
    requires
        0 <= k <= s.len(),
        forall|j: int| 0 <= j < k ==> s[j] != 46,
        k < s.len() ==> s[k] == 46,
    ensures
        sp_first_dot(s) == k,
    decreases s.len(),
{
    if s.len() > 0 && s[0] != 46 {
        let t = s.subrange(1, s.len() as int);
        lemma_first_dot_char(t, k - 1);
    }
}

/// For `0 <= d < c`: `x * c + d` exceeds `l` exactly when `x` exceeds
/// `(l - d) / c`. Lets the parser detect overflow with bounded arithmetic.
pub proof fn lemma_scaled_add_cmp(x: int, c: int, d: int, l: int)
    requires
        0 < c,
        0 <= d < c,
        0 <= x,
        d <= l,
    ensures
        (x * c + d > l) <==> (x > (l - d) / c),
{
    let q = (l - d) / c;
    let r = (l - d) % c;
    vstd::arithmetic::div_mod::lemma_fundamental_div_mod(l - d, c);
    vstd::arithmetic::div_mod::lemma_mod_division_less_than_divisor(l - d, c);
    assert(l - d == q * c + r);
    if x > q {
        assert(x * c >= q * c + c) by (nonlinear_arith)
            requires
                x >= q + 1,
                c > 0,
        ;
        assert(x * c + d > l);
    } else {
        assert(x * c <= q * c) by (nonlinear_arith)
            requires
                x <= q,
                c > 0,
        ;
        assert(x * c + d <= l - r);
        assert(x * c + d <= l);
    }
}

/// Scans `s[from..to]`: whether it is all digits, whether its value
/// exceeds `MILLI_LIMIT`, and the exact value while it does not.
fn scan_digits(s: &Vec<u8>, from: usize, to: usize) -> (r: (bool, bool, u64))
    requires
        from <= to <= s@.len(),
    ensures
        r.0 == sp_all_digits(s@.subrange(from as int, to as int)),
        r.0 && !r.1 ==> r.2 as int == sp_digits_val(s@.subrange(from as int, to as int)) && r.2
            <= MILLI_LIMIT,
        r.0 && r.1 ==> sp_digits_val(s@.subrange(from as int, to as int)) > MILLI_LIMIT,
{
    let mut i: usize = from;
    let mut val: u64 = 0;
    let mut over: bool = false;
    proof {
        assert(s@.subrange(from as int, from as int) =~= Seq::<u8>::empty());
    }
    while i < to
        invariant
            from <= i <= to <= s@.len(),
            sp_all_digits(s@.subrange(from as int, i as int)),
            !over ==> val as int == sp_digits_val(s@.subrange(from as int, i as int)) && val
                <= MILLI_LIMIT,
            over ==> sp_digits_val(s@.subrange(from as int, i as int)) > MILLI_LIMIT,
        decreases to - i,
    {
        let c = s[i];
        if c < 48 || c > 57 {
            proof {
                let whole = s@.subrange(from as int, to as int);
                assert(whole[i - from] == c);
                assert(!sp_is_digit(c));
            }
            return (false, false, 0);
        }
        let d = c - 48;
        let ghost pre = s@.subrange(from as int, i as int);
        let ghost post = s@.subrange(from as int, i as int + 1);
        proof {
            assert(post.drop_last() =~= pre);
            assert(post.last() == c);
            assert(sp_digits_val(post) == sp_digits_val(pre) * 10 + d);
        }
        if over {
            proof {
                assert(sp_digits_val(pre) * 10 >= sp_digits_val(pre)) by (nonlinear_arith)
                    requires
                        sp_digits_val(pre) >= 0,
                ;
                assert(sp_digits_val(pre) >= 0) by { lemma_digits_val_nonneg(pre); }
            }
        } else {
            proof {
                lemma_scaled_add_cmp(val as int, 10, d as int, MILLI_LIMIT as int);
            }
            if val > (MILLI_LIMIT - d as u64) / 10 {
                over = true;
            } else {
                val = val * 10 + d as u64;
            }
        }
        i = i + 1;
        proof {
            assert(sp_all_digits(s@.subrange(from as int, i as int))) by {
                assert(forall|j: int| 0 <= j < post.len() - 1 ==> post[j] == pre[j]);
            }
        }
    }
    (true, over, val)
}

/// A digit string's value is never negative.
pub proof fn lemma_digits_val_nonneg(s: Seq<u8>)
    requires
        sp_all_digits(s),
    ensures
        sp_digits_val(s) >= 0,
    decreases s.len(),
{
    if s.len() > 0 {
        let t = s.drop_last();
        assert(sp_all_digits(t)) by {
            assert(forall|j: int| 0 <= j < t.len() ==> t[j] == s[j]);
        }
        lemma_digits_val_nonneg(t);
        assert(sp_digits_val(t) * 10 >= 0) by (nonlinear_arith)
            requires
                sp_digits_val(t) >= 0,
        ;
    }
}

/// The magnitude (in thousandths) of the unsigned decimal number in
/// `s[st..]`: digits, with one optional point anywhere among them, at
/// least one digit in all, fraction digits past the third truncated.
pub open spec fn sp_parse_body(s: Seq<u8>) -> Option<int> {
    let k = sp_first_dot(s);
    if k == s.len() {
        if s.len() > 0 && sp_all_digits(s) {
            let m = sp_digits_val(s) * 1000;
            if m <= MILLI_LIMIT {
                Some(m)
            } else {
                None
            }
        } else {
            None
        }
    } else {
        let ip = s.subrange(0, k);
        let fp = s.subrange(k + 1, s.len() as int);
        if sp_all_digits(ip) && sp_all_digits(fp) && (ip.len() > 0 || fp.len() > 0) {
            let m = sp_digits_val(ip) * 1000 + sp_frac_milli(fp);
            if m <= MILLI_LIMIT {
                Some(m)
            } else {
                None
            }
        } else {
            None
        }
    }
}

/// Parses the unsigned part of a decimal string, yielding thousandths.
fn parse_body(s: &Vec<u8>, st: usize) -> (r: Option<u64>)
    requires
        st <= s@.len(),
    ensures
        match r {
            Some(v) => sp_parse_body(s@.subrange(st as int, s@.len() as int)) == Some(v as int)
                && v <= MILLI_LIMIT,
            None => sp_parse_body(s@.subrange(st as int, s@.len() as int)) == None::<int>,
        },
{
    let len = s.len();
    let ghost body = s@.subrange(st as int, len as int);
    let mut k: usize = st;
    while k < len && s[k] != 46
        invariant
            st <= k <= len == s@.len(),
            forall|j: int| st <= j < k ==> s@[j] != 46,
        decreases len - k,
    {
        k = k + 1;
    }
    proof {
        assert(forall|j: int| 0 <= j < k - st ==> body[j] != 46);
        if k < len {
            assert(body[k - st] == 46);
        }
        lemma_first_dot_char(body, k as int - st as int);
    }
    let (ip_ok, ip_over, ip_val) = scan_digits(s, st, k);
    proof {
        assert(s@.subrange(st as int, k as int) =~= body.subrange(0, k as int - st as int));
        if k == len {
            assert(body =~= s@.subrange(st as int, k as int));
        }
    }
    if !ip_ok {
        return None;
    }
    let mut f3: u64 = 0;
    if k < len {
        let (fp_ok, _fp_over, _fp_val) = scan_digits(s, k + 1, len);
        proof {
            assert(s@.subrange(k as int + 1, len as int) =~= body.subrange(
                k as int - st as int + 1,
                body.len() as int,
            ));
        }
        if !fp_ok {
            return None;
        }
        if len - k == 1 && k == st {
            return None;
        }
        let ghost fp = body.subrange(k as int - st as int + 1, body.len() as int);
        proof {
            assert(fp =~= s@.subrange(k as int + 1, len as int));
        }
        if len - k >= 2 {
            proof {
                assert(fp[0] == s@[k as int + 1]);
                assert(sp_is_digit(fp[0]));
            }
            f3 = f3 + (s[k + 1] - 48) as u64 * 100;
        }
        if len - k >= 3 {
            proof {
                assert(fp[1] == s@[k as int + 2]);
                assert(sp_is_digit(fp[1]));
            }
            f3 = f3 + (s[k + 2] - 48) as u64 * 10;
        }
        if len - k >= 4 {
            proof {
                assert(fp[2] == s@[k as int + 3]);
                assert(sp_is_digit(fp[2]));
            }
            f3 = f3 + (s[k + 3] - 48) as u64;
        }
        proof {
            assert(f3 as int == sp_frac_milli(fp));
        }
    } else {
        if k == st {
            return None;
        }
    }
    if ip_over {
        proof {
            let ghost ipv = sp_digits_val(s@.subrange(st as int, k as int));
            assert(ipv * 1000 >= ipv) by (nonlinear_arith)
                requires
                    ipv >= 0,
            ;
            lemma_digits_val_nonneg(s@.subrange(st as int, k as int));
        }
        return None;
    }
    proof {
        lemma_scaled_add_cmp(ip_val as int, 1000, f3 as int, MILLI_LIMIT as int);
        lemma_digits_val_nonneg(s@.subrange(st as int, k as int));
    }
    if ip_val > (MILLI_LIMIT - f3) / 1000 {
        return None;
    }
    Some(ip_val * 1000 + f3)
}

/// The milli-unit value a decimal byte string denotes: an optional sign,
/// digits with at most one decimal point and at least one digit, fraction
/// digits past the third truncated. Any other shape (exponents and textual
/// floats among them) denotes no value.
pub open spec fn sp_parse_decimal_milli(s: Seq<u8>) -> Option<int> {
    if s.len() == 0 {
        None
    } else if s[0] == 45 {
        match sp_parse_body(s.subrange(1, s.len() as int)) {
            Some(m) => Some(-m),
            None => None,
        }
    } else if s[0] == 43 {
        sp_parse_body(s.subrange(1, s.len() as int))
    } else {
        sp_parse_body(s)
    }
}

/// Parses a decimal byte string into thousandths, exactly as
/// `sp_parse_decimal_milli` denotes.
pub fn parse_decimal_milli(s: &Vec<u8>) -> (r: Option<i64>)
    ensures
        match r {
            Some(v) => sp_parse_decimal_milli(s@) == Some(v as int),
            None => sp_parse_decimal_milli(s@) == None::<int>,
        },
{
    if s.len() == 0 {
        return None;
    }
    let c = s[0];
    if c == 45 {
        proof {
            assert(s@.subrange(1, s@.len() as int) =~= s@.subrange(1, s@.len() as int));
        }
        match parse_body(s, 1) {
            Some(v) => Some(-(v as i64)),
            None => None,
        }
    } else if c == 43 {
        match parse_body(s, 1) {
            Some(v) => Some(v as i64),
            None => None,
        }
    } else {
        proof {
            assert(s@.subrange(0, s@.len() as int) =~= s@);
        }
        match parse_body(s, 0) {
            Some(v) => Some(v as i64),
            None => None,
        }
    }
}

/// The milli-unit value denoted by a 64-bit binary floating-point pattern:
/// sign bit, 11 exponent bits biased by 1023, 52 mantissa bits; the value
/// is `mantissa * 2^(exponent - 1075)` with the hidden bit set for normal
/// numbers, and subnormals use the minimum exponent. The all-ones exponent
/// (infinities and not-a-number) and magnitudes beyond `MILLI_LIMIT`
/// thousandths denote no value.
pub open spec fn sp_double_milli(bits: u64) -> Option<int> {
    let sign = bits as int / 0x8000_0000_0000_0000;
    let e = (bits as int / 0x10_0000_0000_0000) % 0x800;
    let m = bits as int % 0x10_0000_0000_0000;
    if e == 0x7ff {
        None
    } else {
        let mfull = if e == 0 { m } else { m + 0x10_0000_0000_0000 };
        let ee = if e == 0 { 1 } else { e };
        let mag = sp_scaled(mfull * 1000, ee - 1075);
        if mag > MILLI_LIMIT {
            None
        } else if sign == 1 {
            Some(-mag)
        } else {
            Some(mag)
        }
    }
}

/// Interprets a 64-bit float's bit pattern as a milli-unit value.
pub fn double_bits_milli(bits: u64) -> (r: Option<i64>)
    ensures
        match r {
            Some(v) => sp_double_milli(bits) == Some(v as int),
            None => sp_double_milli(bits) == None::<int>,
        },
{
    let sign = bits / 0x8000_0000_0000_0000;
    let e = (bits / 0x10_0000_0000_0000) % 0x800;
    let m = bits % 0x10_0000_0000_0000;
    if e == 0x7ff {
        return None;
    }
    let mfull: u64 = if e == 0 { m } else { m + 0x10_0000_0000_0000 };
    let ee: i32 = if e == 0 { 1 } else { e as i32 };
    match scale_mag(mfull * 1000, ee - 1075) {
        None => None,
        Some(mag) => {
            if sign == 1 {
                Some(-(mag as i64))
            } else {
                Some(mag as i64)
            }
        },
    }
}

/// The milli-unit value denoted by a 32-bit binary floating-point pattern:
/// sign bit, 8 exponent bits biased by 127, 23 mantissa bits; the value is
/// `mantissa * 2^(exponent - 150)` with the hidden bit set for normal
/// numbers, and subnormals use the minimum exponent.
pub open spec fn sp_float_milli(bits: u32) -> Option<int> {
    let sign = bits as int / 0x8000_0000;
    let e = (bits as int / 0x80_0000) % 0x100;
    let m = bits as int % 0x80_0000;
    if e == 0xff {
        None
    } else {
        let mfull = if e == 0 { m } else { m + 0x80_0000 };
        let ee = if e == 0 { 1 } else { e };
        let mag = sp_scaled(mfull * 1000, ee - 150);
        if mag > MILLI_LIMIT {
            None
        } else if sign == 1 {
            Some(-mag)
        } else {
            Some(mag)
        }
    }
}

/// Interprets a 32-bit float's bit pattern as a milli-unit value.
pub fn float_bits_milli(bits: u32) -> (r: Option<i64>)
    ensures
        match r {
            Some(v) => sp_float_milli(bits) == Some(v as int),
            None => sp_float_milli(bits) == None::<int>,
        },
{
    let sign = bits / 0x8000_0000;
    let e = (bits / 0x80_0000) % 0x100;
    let m = bits % 0x80_0000;
    if e == 0xff {
        return None;
    }
    let mfull: u64 = if e == 0 { m as u64 } else { m as u64 + 0x80_0000 };
    let ee: i32 = if e == 0 { 1 } else { e as i32 };
    match scale_mag(mfull * 1000, ee - 150) {
        None => None,
        Some(mag) => {
            if sign == 1 {
                Some(-(mag as i64))
            } else {
                Some(mag as i64)
            }
        },
    }
}

} // verus!
