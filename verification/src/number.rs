//! Numbers as SLURM prints them: decimal numbers, byte sizes with a unit
//! letter, human-readable sizes, and durations.
//!
//! A decimal number is read in the syntax of `f64::from_str` and held
//! exactly, as a sign, a mantissa below `10^18` and a count of fractional
//! digits (at most 18); a number that cannot be held so is not read.
use vstd::prelude::*;

use crate::text::{
    all_digits, all_digits_exec, chars_of, first_index, first_index_exec, split, split_chars, decimal, digits_value, eq_str,
    lemma_digits_value_below, lemma_pow10_monotone, lemma_pow10_positive, parse_unsigned,
    parse_unsigned_exec, pow10, pow10_exec, push_char, push_decimal, slice_copy, trim, trimmed,
    fold, fold_exec,
};
use crate::disks::{strip_trailing, strip_trailing_zeros};

verus! {

broadcast use vstd::string::group_string_axioms;

/// The most digits a held mantissa carries, and the most fractional digits.
pub open spec fn max_digits() -> nat {
    18
}

/// An optional leading sign, and the rest.
pub open spec fn sign_split(s: Seq<char>) -> (bool, Seq<char>) {
    if s.len() > 0 && s[0] == '-' {
        (true, s.drop_first())
    } else if s.len() > 0 && s[0] == '+' {
        (false, s.drop_first())
    } else {
        (false, s)
    }
}

/// The digits of a float mantissa with its `.` taken out, and how many of
/// them stand after the `.`: the mantissa is `digits / 10^count`.
pub open spec fn mantissa_parts(m: Seq<char>) -> (Seq<char>, nat) {
    match first_index(m, '.') {
        Some(d) => (m.take(d) + m.skip(d + 1), m.skip(d + 1).len()),
        None => (m, 0),
    }
}

/// `±digits`.
pub open spec fn signed_digits(neg: bool, b: Seq<char>) -> int {
    if neg {
        -(digits_value(b) as int)
    } else {
        digits_value(b) as int
    }
}

/// The value of a float exponent's text: an optional sign, then digits.
pub open spec fn exponent_value(e: Seq<char>) -> int {
    signed_digits(sign_split(e).0, sign_split(e).1)
}

/// A lowercased unsigned float (see [`float_number`]) as its digits and a
/// power of ten: its value is `digits * 10^power`.
pub open spec fn number_parts(b: Seq<char>) -> (Seq<char>, int) {
    match first_index(b, 'e') {
        Some(k) => {
            let (d, f) = mantissa_parts(b.take(k));
            (d, exponent_value(b.skip(k + 1)) - f)
        },
        None => {
            let (d, f) = mantissa_parts(b);
            (d, -(f as int))
        },
    }
}

/// `±n * 10^q` as `(negative, mantissa, fractional digits)`, with a
/// mantissa below `10^18` and at most 18 fractional digits, where it can be
/// held so. [`dec_of`] hands it an `n` without trailing zeros, so that
/// the fractional digits are as few as the value allows.
pub open spec fn fixed_point(neg: bool, n: nat, q: int) -> Option<(bool, nat, nat)> {
    if n == 0 {
        Some((neg, 0, 0))
    } else if q >= 0 {
        if n * pow10(q as nat) < pow10(max_digits()) {
            Some((neg, n * pow10(q as nat), 0))
        } else {
            None
        }
    } else if -q <= max_digits() && n < pow10(max_digits()) {
        Some((neg, n, (-q) as nat))
    } else {
        None
    }
}

/// A finite number in the syntax of `f64::from_str` (see [`float_text`];
/// `inf` and `nan` are not numbers here), as `(negative, mantissa,
/// fractional digits)`: its value is `±mantissa / 10^fractional digits`.
/// The trailing zeros of its digits move into the power of ten; a value
/// that needs a mantissa of `10^18` or more, or more than 18 fractional
/// digits, is not read.
pub open spec fn dec_of(s: Seq<char>) -> Option<(bool, nat, nat)> {
    let (neg, b) = sign_split(s);
    let l = fold(b);
    if float_number(l) {
        let (d, p) = number_parts(l);
        let sd = strip_trailing(d, '0');
        fixed_point(neg, digits_value(sd), p + (d.len() - sd.len()))
    } else {
        None
    }
}

/// A decimal fraction read from text.
#[derive(Debug, Clone, Copy, PartialEq, Eq)]
pub struct Dec {
    pub neg: bool,
    pub mant: u64,
    pub scale: u32,
}

impl Dec {
    pub open spec fn as_triple(self) -> (bool, nat, nat) {
        (self.neg, self.mant as nat, self.scale as nat)
    }

    /// The mantissa and scale stay in the range that [`dec_of`] produces.
    pub open spec fn in_range(self) -> bool {
        self.mant < pow10(max_digits()) && self.scale <= max_digits()
    }
}

/// What [`fixed_point`] holds stays in range.
pub proof fn lemma_fixed_point_range(neg: bool, n: nat, q: int)
    ensures
        fixed_point(neg, n, q) matches Some((g, m, sc)) ==> m < pow10(max_digits()) && sc
            <= max_digits(),
{
    lemma_pow10_positive(max_digits());
}

/// Dropping trailing characters leaves a prefix.
proof fn lemma_strip_trailing_prefix(s: Seq<char>, c: char)
    ensures
        strip_trailing(s, c).len() <= s.len(),
        strip_trailing(s, c) == s.take(strip_trailing(s, c).len() as int),
    decreases s.len(),
{
    if s.len() > 0 && s.last() == c {
        lemma_strip_trailing_prefix(s.drop_last(), c);
        let k = strip_trailing(s, c).len() as int;
        assert(s.drop_last().take(k) =~= s.take(k));
    } else {
        assert(s.take(s.len() as int) =~= s);
    }
}

/// `10^(a + b) == 10^a * 10^b`.
proof fn lemma_pow10_add(a: nat, b: nat)
    ensures
        pow10(a + b) == pow10(a) * pow10(b),
    decreases a,
{
    if a == 0 {
        assert(pow10(0) == 1);
    } else {
        let a1 = (a - 1) as nat;
        lemma_pow10_add(a1, b);
        assert(pow10(a) == 10 * pow10(a1));
        assert((a1 + b) as nat + 1 == a + b);
        assert(pow10(a + b) == 10 * pow10(a1 + b));
        let x = pow10(a1);
        let y = pow10(b);
        assert(10 * (x * y) == (10 * x) * y) by (nonlinear_arith);
    }
}

/// Trailing zeros multiply the value of the digits before them.
proof fn lemma_trailing_zeros_value(s: Seq<char>)
    ensures
        digits_value(s) == digits_value(strip_trailing(s, '0')) * pow10(
            (s.len() - strip_trailing(s, '0').len()) as nat,
        ),
    decreases s.len(),
{
    lemma_strip_trailing_prefix(s, '0');
    if s.len() > 0 && s.last() == '0' {
        let t = s.drop_last();
        lemma_trailing_zeros_value(t);
        lemma_strip_trailing_prefix(t, '0');
        let st = strip_trailing(t, '0');
        assert(strip_trailing(s, '0') == st);
        let n = digits_value(st);
        let z = (t.len() - st.len()) as nat;
        assert((s.len() - st.len()) as nat == z + 1);
        assert(digits_value(t) == n * pow10(z));
        assert(crate::text::digit_value('0') == 0);
        assert(digits_value(s) == digits_value(t) * 10);
        assert(pow10(z + 1) == 10 * pow10(z));
        let w = pow10(z);
        assert(n * w * 10 == n * (10 * w)) by (nonlinear_arith);
    } else {
        assert(strip_trailing(s, '0') == s);
        assert(pow10(0) == 1);
    }
}

/// What [`dec_of`] reads is the number's exact value: `±digits * 10^power`
/// of its [`number_parts`] equals `±mantissa / 10^fractional digits`.
pub proof fn law_dec_of_exact(s: Seq<char>)
    ensures
        dec_of(s) matches Some((neg, m, k)) ==> {
            let (d, p) = number_parts(fold(sign_split(s).1));
            neg == sign_split(s).0 && if p + k >= 0 {
                digits_value(d) * pow10((p + k) as nat) == m
            } else {
                digits_value(d) == m * pow10((-(p + k)) as nat)
            }
        },
{
    let (neg, b) = sign_split(s);
    let l = fold(b);
    if float_number(l) {
        let (d, p) = number_parts(l);
        let sd = strip_trailing(d, '0');
        lemma_strip_trailing_prefix(d, '0');
        lemma_trailing_zeros_value(d);
        let n = digits_value(sd);
        let z = (d.len() - sd.len()) as nat;
        let q = p + z;
        let dv = digits_value(d);
        assert(dv == n * pow10(z));
        assert(dec_of(s) == fixed_point(neg, n, q));
        assert(pow10(0) == 1);
        if n == 0 {
            assert(dv == 0) by (nonlinear_arith)
                requires
                    dv == n * pow10(z),
                    n == 0,
            ;
            if p >= 0 {
                assert(dv * pow10(p as nat) == 0);
            } else {
                assert(0 * pow10((-p) as nat) == 0);
            }
        } else if q >= 0 {
            let m = n * pow10(q as nat);
            if p >= 0 {
                lemma_pow10_add(z, p as nat);
                assert(dv * pow10(p as nat) == m) by (nonlinear_arith)
                    requires
                        dv == n * pow10(z),
                        m == n * pow10(q as nat),
                        pow10(q as nat) == pow10(z) * pow10(p as nat),
                ;
            } else {
                lemma_pow10_add(q as nat, (-p) as nat);
                assert(dv == m * pow10((-p) as nat)) by (nonlinear_arith)
                    requires
                        dv == n * pow10(z),
                        m == n * pow10(q as nat),
                        pow10(z) == pow10(q as nat) * pow10((-p) as nat),
                ;
            }
        } else if z == 0 {
            assert(dv * pow10(0) == n) by (nonlinear_arith)
                requires
                    dv == n * pow10(z),
                    z == 0,
                    pow10(0) == 1,
            ;
        }
    }
}

/// [`mantissa_parts`] of a valid mantissa; its digits are all digits.
fn mantissa_parts_exec(m: &[char]) -> (r: (Vec<char>, usize))
    requires
        float_mantissa(m@),
    ensures
        r.0@ == mantissa_parts(m@).0,
        r.1 as nat == mantissa_parts(m@).1,
        all_digits(r.0@),
        r.0@.len() <= m@.len(),
        r.1 <= m@.len(),
{
    let len = m.len();
    match first_index_exec(m, '.') {
        Some(d) => {
            let mut ip = slice_copy(m, 0, d);
            let mut fp = slice_copy(m, d + 1, len);
            assert(ip@ =~= m@.take(d as int));
            assert(fp@ =~= m@.skip(d + 1));
            let f = fp.len();
            let ghost ipv = ip@;
            let ghost fpv = fp@;
            ip.append(&mut fp);
            assert(ip@ =~= ipv + fpv);
            assert forall|k: int| 0 <= k < ip@.len() implies crate::text::is_digit(
                #[trigger] ip@[k],
            ) by {
                if k < ipv.len() {
                    assert(ip@[k] == ipv[k]);
                } else {
                    assert(ip@[k] == fpv[k - ipv.len()]);
                }
            }
            (ip, f)
        },
        None => {
            let r = slice_copy(m, 0, m.len());
            assert(r@ =~= m@);
            (r, 0)
        },
    }
}

/// [`fixed_point`] of `±digits * 10^(x - f + z)`, where `x` is the
/// exponent `±eb` when there is one and 0 otherwise.
fn held(neg: bool, sd: &[char], z: usize, f: usize, has_e: bool, eneg: bool, eb: &[char]) -> (r:
    Option<Dec>)
    requires
        all_digits(sd@),
        has_e ==> eb@.len() > 0 && all_digits(eb@),
        f + eb@.len() <= usize::MAX,
        z + eb@.len() <= usize::MAX,
    ensures
        ({
            let x = if has_e {
                signed_digits(eneg, eb@)
            } else {
                0
            };
            let fp = fixed_point(neg, digits_value(sd@), x - f + z);
            match r {
                Some(d) => fp == Some(d.as_triple()) && d.in_range(),
                None => fp is None,
            }
        }),
{
    let ghost x: int = if has_e {
        signed_digits(eneg, eb@)
    } else {
        0
    };
    let ghost q: int = x - f + z;
    proof {
        reveal_with_fuel(pow10, 20);
        lemma_fixed_point_range(neg, digits_value(sd@), q);
    }
    if sd.len() == 0 {
        return Some(Dec { neg, mant: 0, scale: 0 });
    }
    proof {
        assert(crate::text::unsigned_body(sd@) == sd@);
    }
    let n = match parse_unsigned_exec(sd, 999999999999999999u64) {
        Some(n) => n,
        None => {
            proof {
                let nv = digits_value(sd@);
                if q >= 0 {
                    lemma_pow10_positive(q as nat);
                    assert(nv * pow10(q as nat) >= nv) by (nonlinear_arith)
                        requires
                            pow10(q as nat) >= 1,
                    ;
                }
            }
            return None;
        },
    };
    if n == 0 {
        return Some(Dec { neg, mant: 0, scale: 0 });
    }
    let xv: i128 = if has_e {
        match parse_unsigned_exec(eb, 18446744073709551615u64) {
            Some(a) => if eneg {
                -(a as i128)
            } else {
                a as i128
            },
            None => {
                proof {
                    assert(crate::text::unsigned_body(eb@) == eb@);
                    lemma_digits_value_below(eb@);
                    if eb@.len() <= 19 {
                        lemma_pow10_monotone(eb@.len(), 19);
                    }
                    assert(eb@.len() >= 20);
                    if q >= 0 {
                        assert(q >= 18);
                        lemma_pow10_monotone(18, q as nat);
                        assert(n * pow10(q as nat) >= pow10(18)) by (nonlinear_arith)
                            requires
                                n >= 1,
                                pow10(q as nat) >= pow10(18),
                        ;
                    }
                }
                return None;
            },
        }
    } else {
        0
    };
    assert(xv == x);
    let qv: i128 = xv - f as i128 + z as i128;
    if qv >= 0 {
        if qv > 17 {
            proof {
                lemma_pow10_monotone(18, q as nat);
                assert(n * pow10(q as nat) >= pow10(18)) by (nonlinear_arith)
                    requires
                        n >= 1,
                        pow10(q as nat) >= pow10(18),
                ;
            }
            return None;
        }
        let p = pow10_exec(qv as u32);
        proof {
            lemma_pow10_monotone(q as nat, 17);
            assert(n * p <= 999999999999999999 * 100000000000000000) by (nonlinear_arith)
                requires
                    n <= 999999999999999999nat,
                    p <= 100000000000000000nat,
            ;
        }
        let v = n as u128 * p;
        if v < 1000000000000000000u128 {
            Some(Dec { neg, mant: v as u64, scale: 0 })
        } else {
            None
        }
    } else if qv < -18 {
        None
    } else {
        Some(Dec { neg, mant: n, scale: (-qv) as u32 })
    }
}

/// Read a number (see [`dec_of`]).
#[verifier::rlimit(60)]
pub fn parse_dec(s: &[char]) -> (r: Option<Dec>)
    ensures
        match r {
            Some(d) => dec_of(s@) == Some(d.as_triple()) && d.in_range(),
            None => dec_of(s@) is None,
        },
{
    let neg = s.len() > 0 && s[0] == '-';
    let body = sign_body(s);
    let l = fold_exec(&body);
    assert(neg == sign_split(s@).0);
    if !float_number_exec(&l) {
        return None;
    }
    let n = l.len();
    let (m, has_e, eneg, eb): (Vec<char>, bool, bool, Vec<char>) = match first_index_exec(&l, 'e') {
        Some(k) => {
            let m = slice_copy(&l, 0, k);
            let e = slice_copy(&l, k + 1, n);
            assert(m@ =~= l@.take(k as int));
            assert(e@ =~= l@.skip(k + 1));
            let eneg = e.len() > 0 && e[0] == '-';
            let eb = sign_body(&e);
            assert(eneg == sign_split(e@).0);
            assert(float_mantissa(m@) && float_exponent(e@));
            (m, true, eneg, eb)
        },
        None => {
            let m = slice_copy(&l, 0, n);
            assert(m@ =~= l@);
            (m, false, false, Vec::new())
        },
    };
    let ghost x: int = if has_e {
        signed_digits(eneg, eb@)
    } else {
        0
    };
    assert(float_mantissa(m@));
    assert(has_e ==> eb@.len() > 0 && all_digits(eb@));
    assert(m@.len() + eb@.len() <= n);
    let (d, f) = mantissa_parts_exec(&m);
    assert(number_parts(l@) == (d@, x - f));
    let sd = strip_trailing_zeros(&d);
    proof {
        lemma_strip_trailing_prefix(d@, '0');
        assert forall|k: int| 0 <= k < sd@.len() implies crate::text::is_digit(#[trigger] sd@[k]) by {
            assert(sd@[k] == d@[k]);
        }
    }
    let z = d.len() - sd.len();
    assert(dec_of(s@) == fixed_point(neg, digits_value(sd@), x - f + z));
    held(neg, &sd, z, f, has_e, eneg, &eb)
}

/// `char::is_ascii_alphabetic`.
pub open spec fn is_ascii_alpha(c: char) -> bool {
    ('a' <= c && c <= 'z') || ('A' <= c && c <= 'Z')
}

/// Bytes per unit letter: `K`, `M`, `G`, `T` (powers of 1024).
pub open spec fn unit_mult(c: char) -> Option<nat> {
    if c == 'K' {
        Some(1024)
    } else if c == 'M' {
        Some(1048576)
    } else if c == 'G' {
        Some(1073741824)
    } else if c == 'T' {
        Some(1099511627776)
    } else {
        None
    }
}

/// `number * mult` in whole bytes: rounded toward zero, negative numbers
/// give 0, and values past `u64::MAX` give `u64::MAX`.
pub open spec fn scaled_bytes(d: (bool, nat, nat), mult: nat) -> nat {
    if d.0 {
        0
    } else {
        let v = d.1 * mult / pow10(d.2);
        if v > u64::MAX {
            u64::MAX as nat
        } else {
            v
        }
    }
}

/// The byte count of a float special value as a whole number of bytes
/// takes it: infinity saturates (to 0 when negative), NaN gives 0; `None`
/// for any other text.
pub open spec fn special_bytes(s: Seq<char>) -> Option<u64> {
    let (neg, b) = sign_split(s);
    let l = fold(b);
    if l == "inf"@ || l == "infinity"@ {
        Some(
            if neg {
                0
            } else {
                u64::MAX
            },
        )
    } else if l == "nan"@ {
        Some(0)
    } else {
        None
    }
}

fn special_bytes_exec(s: &[char]) -> (r: Option<u64>)
    ensures
        r == special_bytes(s@),
{
    let neg = s.len() > 0 && s[0] == '-';
    let l = fold_exec(&sign_body(s));
    if eq_str(&l, "inf") || eq_str(&l, "infinity") {
        if neg {
            Some(0)
        } else {
            Some(18446744073709551615u64)
        }
    } else if eq_str(&l, "nan") {
        Some(0)
    } else {
        None
    }
}

/// A memory figure like `"4Gn"`, `"500Mn"`, `"1024K"`: after trimming, a
/// number, a unit letter, and optionally one more trailing letter (the
/// per-node / per-cpu marker, which does not change the byte count).
pub open spec fn bytes_of(s: Seq<char>) -> Option<u64> {
    let t = trim(s);
    if t.len() == 0 || t == "N/A"@ || !is_ascii_alpha(t.last()) {
        None
    } else {
        let body = t.drop_last();
        let (num, unit) = if body.len() > 0 && is_ascii_alpha(body.last()) {
            (body.drop_last(), body.last())
        } else {
            (body, t.last())
        };
        match (unit_mult(unit), special_bytes(trim(num)), dec_of(trim(num))) {
            (Some(m), Some(v), _) => Some(v),
            (Some(m), None, Some(d)) => Some(scaled_bytes(d, m) as u64),
            _ => None,
        }
    }
}

fn is_ascii_alpha_exec(c: char) -> (b: bool)
    ensures
        b == is_ascii_alpha(c),
{
    ('a' <= c && c <= 'z') || ('A' <= c && c <= 'Z')
}

fn unit_mult_exec(c: char) -> (r: Option<u64>)
    ensures
        match r {
            Some(m) => unit_mult(c) == Some(m as nat),
            None => unit_mult(c) is None,
        },
{
    if c == 'K' {
        Some(1024)
    } else if c == 'M' {
        Some(1048576)
    } else if c == 'G' {
        Some(1073741824)
    } else if c == 'T' {
        Some(1099511627776)
    } else {
        None
    }
}

/// [`scaled_bytes`] of a decimal read by [`parse_dec`].
pub fn scale_bytes(d: Dec, mult: u64) -> (r: u64)
    requires
        d.in_range(),
        mult <= 1099511627776,
    ensures
        r as nat == scaled_bytes(d.as_triple(), mult as nat),
{
    if d.neg {
        return 0;
    }
    proof {
        reveal_with_fuel(pow10, 20);
        lemma_pow10_positive(d.scale as nat);
        assert((d.mant as nat) * (mult as nat) <= 999999999999999999 * 1099511627776) by (
        nonlinear_arith)
            requires
                d.mant < 1000000000000000000nat,
                mult <= 1099511627776nat,
        ;
    }
    let p = pow10_exec(d.scale);
    let v = (d.mant as u128) * (mult as u128) / p;
    if v > 18446744073709551615u128 {
        18446744073709551615u64
    } else {
        v as u64
    }
}

/// Parse a memory figure like `"4Gn"`, `"500Mn"`, `"1024K"` into bytes.
pub fn parse_bytes(s: &str) -> (r: Option<u64>)
    ensures
        r == bytes_of(s@),
{
    let cs = chars_of(s);
    let t = trimmed(&cs);
    let n = t.len();
    if n == 0 || eq_str(&t, "N/A") || !is_ascii_alpha_exec(t[n - 1]) {
        return None;
    }
    let body = slice_copy(&t, 0, n - 1);
    assert(body@ =~= t@.drop_last());
    let (num, unit) = if body.len() > 0 && is_ascii_alpha_exec(body[body.len() - 1]) {
        let u = body[body.len() - 1];
        let nb = slice_copy(&body, 0, body.len() - 1);
        assert(nb@ =~= body@.drop_last());
        (nb, u)
    } else {
        (body, t[n - 1])
    };
    let tn = trimmed(&num);
    let m = match unit_mult_exec(unit) {
        Some(m) => m,
        None => return None,
    };
    if let Some(v) = special_bytes_exec(&tn) {
        return Some(v);
    }
    match parse_dec(&tn) {
        Some(d) => Some(scale_bytes(d, m)),
        None => None,
    }
}

/// `n / d` rounded to the nearest integer, ties to the even one.
pub open spec fn div_round_even(n: nat, d: nat) -> nat {
    let q = n / d;
    let r = n % d;
    if 2 * r > d {
        q + 1
    } else if 2 * r < d {
        q
    } else if q % 2 == 0 {
        q
    } else {
        q + 1
    }
}

/// A byte count in the largest unit of G (one decimal), M or K (no
/// decimals) that it reaches, rounded to the nearest shown digit with ties
/// to even: `"15.2G"`, `"512M"`, `"512K"`.
pub open spec fn human_bytes(b: nat) -> Seq<char> {
    if b >= 1073741824 {
        let t = div_round_even(b * 10, 1073741824);
        decimal(t / 10) + "."@ + decimal(t % 10) + "G"@
    } else if b >= 1048576 {
        decimal(div_round_even(b, 1048576)) + "M"@
    } else {
        decimal(div_round_even(b, 1024)) + "K"@
    }
}

/// A whole number of KiB below 1 MiB is shown exactly, as that many `K`.
pub proof fn law_whole_kib_shown_exactly(k: nat)
    requires
        k < 1024,
    ensures
        human_bytes(k * 1024) == decimal(k) + "K"@,
{
    assert((k * 1024) / 1024 == k && (k * 1024) % 1024 == 0) by (nonlinear_arith);
    assert(k * 1024 < 1048576) by (nonlinear_arith)
        requires
            k < 1024,
    ;
}

/// A whole number of GiB is shown with a zero decimal: `500.0G`.
pub proof fn law_whole_gib_shown_exactly(g: nat)
    requires
        g >= 1,
    ensures
        human_bytes(g * 1073741824) == decimal(g) + ".0G"@,
{
    let b = g * 1073741824;
    assert(b >= 1073741824) by (nonlinear_arith)
        requires
            g >= 1,
            b == g * 1073741824,
    ;
    assert((b * 10) / 1073741824 == g * 10 && (b * 10) % 1073741824 == 0) by (nonlinear_arith)
        requires
            b == g * 1073741824,
    ;
    let t = div_round_even(b * 10, 1073741824);
    assert(t == g * 10);
    assert(t / 10 == g && t % 10 == 0);
    reveal_with_fuel(decimal, 2);
    assert(decimal(0) =~= seq!['0']);
    reveal_strlit(".");
    reveal_strlit("G");
    reveal_strlit(".0G");
    assert(decimal(g) + "."@ + decimal(0) + "G"@ =~= decimal(g) + ".0G"@);
}

fn div_round_even_exec(n: u128, d: u128) -> (r: u128)
    requires
        d > 0,
        n <= 184467440737095516150u128,
        d >= 1024,
        d <= 1073741824,
    ensures
        r as nat == div_round_even(n as nat, d as nat),
        r <= n / d + 1,
{
    let q = n / d;
    let rem = n % d;
    if 2 * rem > d {
        q + 1
    } else if 2 * rem < d {
        q
    } else if q % 2 == 0 {
        q
    } else {
        q + 1
    }
}

/// Render a byte count as [`human_bytes`] does.
pub fn format_bytes(b: u64) -> (r: String)
    ensures
        r@ == human_bytes(b as nat),
{
    if b >= 1073741824 {
        let t = div_round_even_exec((b as u128) * 10, 1073741824);
        proof {
            assert((b as nat) * 10 / 1073741824 <= 184467440737) by (nonlinear_arith)
                requires
                    b <= u64::MAX,
            ;
        }
        let mut r = String::new();
        push_decimal(&mut r, (t / 10) as u64);
        push_char(&mut r, '.');
        push_decimal(&mut r, (t % 10) as u64);
        push_char(&mut r, 'G');
        proof {
            reveal_strlit(".");
            reveal_strlit("G");
        }
        assert(r@ =~= human_bytes(b as nat));
        r
    } else if b >= 1048576 {
        let t = div_round_even_exec(b as u128, 1048576);
        let mut r = String::new();
        push_decimal(&mut r, t as u64);
        push_char(&mut r, 'M');
        proof {
            reveal_strlit("M");
        }
        assert(r@ =~= human_bytes(b as nat));
        r
    } else {
        let t = div_round_even_exec(b as u128, 1024);
        let mut r = String::new();
        push_decimal(&mut r, t as u64);
        push_char(&mut r, 'K');
        proof {
            reveal_strlit("K");
        }
        assert(r@ =~= human_bytes(b as nat));
        r
    }
}

/// `S`, `M:S` or `H:M:S` in seconds, each part an unsigned integer.
pub open spec fn clock_value(whole: Seq<char>) -> Option<nat> {
    let p = split(whole, ':');
    let max = u64::MAX as nat;
    if p.len() == 1 {
        parse_unsigned(p[0], max)
    } else if p.len() == 2 {
        match (parse_unsigned(p[0], max), parse_unsigned(p[1], max)) {
            (Some(m), Some(sec)) => Some(m * 60 + sec),
            _ => None,
        }
    } else if p.len() == 3 {
        match (parse_unsigned(p[0], max), parse_unsigned(p[1], max), parse_unsigned(p[2], max)) {
            (Some(h), Some(m), Some(sec)) => Some(h * 3600 + m * 60 + sec),
            _ => None,
        }
    } else {
        None
    }
}

/// A SLURM duration `[D-][[H:]M:]S[.fraction]` in whole seconds: days,
/// hours, minutes and seconds are unsigned integers, a fraction of a second
/// (digits after `.`) is dropped, and the total must fit in a `u64`.
pub open spec fn duration_secs(s: Seq<char>) -> Option<nat> {
    let (days, clock) = match first_index(s, '-') {
        Some(i) => (parse_unsigned(s.take(i), u64::MAX as nat), s.skip(i + 1)),
        None => (Some(0nat), s),
    };
    let (whole, frac_ok) = match first_index(clock, '.') {
        Some(j) => (clock.take(j), all_digits(clock.skip(j + 1))),
        None => (clock, true),
    };
    match (days, frac_ok, clock_value(whole)) {
        (Some(d), true, Some(c)) => if d * 86400 + c <= u64::MAX {
            Some(d * 86400 + c)
        } else {
            None
        },
        _ => None,
    }
}

fn read_u64(s: &[char]) -> (r: Option<u64>)
    ensures
        match r {
            Some(v) => parse_unsigned(s@, u64::MAX as nat) == Some(v as nat),
            None => parse_unsigned(s@, u64::MAX as nat) is None,
        },
{
    parse_unsigned_exec(s, u64::MAX)
}

fn clock_value_exec(whole: &[char]) -> (r: Option<u128>)
    ensures
        match r {
            Some(v) => clock_value(whole@) == Some(v as nat) && v < 0x1_0000_0000_0000_0000_0000u128,
            None => clock_value(whole@) is None,
        },
{
    let p = split_chars(whole, ':');
    if p.len() == 1 {
        match read_u64(&p[0]) {
            Some(sec) => Some(sec as u128),
            None => None,
        }
    } else if p.len() == 2 {
        match (read_u64(&p[0]), read_u64(&p[1])) {
            (Some(m), Some(sec)) => Some(m as u128 * 60 + sec as u128),
            _ => None,
        }
    } else if p.len() == 3 {
        match (read_u64(&p[0]), read_u64(&p[1]), read_u64(&p[2])) {
            (Some(h), Some(m), Some(sec)) => Some(h as u128 * 3600 + m as u128 * 60 + sec as u128),
            _ => None,
        }
    } else {
        None
    }
}

/// Parse a SLURM duration (see [`duration_secs`]) such as sacct's
/// `TotalCPU` (`"08:00:00"`, `"1-02:03:04"`, `"00:01.123"`).
pub fn parse_slurm_duration(s: &str) -> (r: Option<u64>)
    ensures
        match r {
            Some(v) => duration_secs(s@) == Some(v as nat),
            None => duration_secs(s@) is None,
        },
{
    let cs = chars_of(s);
    let cs_len = cs.len();
    let (days, clock): (Option<u64>, Vec<char>) = match first_index_exec(&cs, '-') {
        Some(i) => {
            let d = read_u64(&slice_copy(&cs, 0, i));
            let c = slice_copy(&cs, i + 1, cs_len);
            assert(c@ =~= s@.skip(i + 1));
            assert(cs@.subrange(0, i as int) =~= s@.take(i as int));
            (d, c)
        },
        None => (Some(0u64), cs),
    };
    let (whole, frac_ok) = match first_index_exec(&clock, '.') {
        Some(j) => {
            let w = slice_copy(&clock, 0, j);
            let f = slice_copy(&clock, j + 1, clock.len());
            assert(w@ =~= clock@.take(j as int));
            assert(f@ =~= clock@.skip(j + 1));
            (w, all_digits_exec(&f))
        },
        None => (clock, true),
    };
    let c = clock_value_exec(&whole);
    match (days, frac_ok, c) {
        (Some(d), true, Some(c)) => {
            let total = d as u128 * 86400 + c;
            if total <= 18446744073709551615u128 {
                Some(total as u64)
            } else {
                None
            }
        },
        _ => None,
    }
}

// ---------------------------------------------------------------------------
// Float syntax
// ---------------------------------------------------------------------------

/// A float mantissa: digits with at most one `.`, and at least one digit.
pub open spec fn float_mantissa(m: Seq<char>) -> bool {
    match first_index(m, '.') {
        Some(d) => all_digits(m.take(d)) && all_digits(m.skip(d + 1)) && m.len() >= 2,
        None => m.len() > 0 && all_digits(m),
    }
}

/// A float exponent after the `e`: an optional sign and at least one digit.
pub open spec fn float_exponent(e: Seq<char>) -> bool {
    let b = sign_split(e).1;
    b.len() > 0 && all_digits(b)
}

/// A lowercased unsigned decimal float: a mantissa, then optionally `e`
/// and an exponent.
pub open spec fn float_number(b: Seq<char>) -> bool {
    match first_index(b, 'e') {
        Some(k) => float_mantissa(b.take(k)) && float_exponent(b.skip(k + 1)),
        None => float_mantissa(b),
    }
}

/// The texts that `f64::from_str` accepts: an optional sign, then `inf`,
/// `infinity` or `nan` in any ASCII case, or a decimal number with an
/// optional exponent (`e` in either case). No whitespace is allowed.
pub open spec fn float_text(s: Seq<char>) -> bool {
    let b = fold(sign_split(s).1);
    b == "inf"@ || b == "infinity"@ || b == "nan"@ || float_number(b)
}

fn float_mantissa_exec(m: &[char]) -> (b: bool)
    ensures
        b == float_mantissa(m@),
{
    let n = m.len();
    match first_index_exec(m, '.') {
        Some(d) => {
            let ip = slice_copy(m, 0, d);
            let fp = slice_copy(m, d + 1, n);
            assert(ip@ =~= m@.take(d as int));
            assert(fp@ =~= m@.skip(d + 1));
            all_digits_exec(&ip) && all_digits_exec(&fp) && m.len() >= 2
        },
        None => m.len() > 0 && all_digits_exec(m),
    }
}

fn sign_body(s: &[char]) -> (r: Vec<char>)
    ensures
        r@ == sign_split(s@).1,
{
    if s.len() > 0 && (s[0] == '-' || s[0] == '+') {
        let r = slice_copy(s, 1, s.len());
        assert(r@ =~= s@.drop_first());
        r
    } else {
        let r = slice_copy(s, 0, s.len());
        assert(r@ =~= s@);
        r
    }
}

/// Whether a lowercased unsigned text is a [`float_number`].
fn float_number_exec(l: &[char]) -> (b: bool)
    ensures
        b == float_number(l@),
{
    let len = l.len();
    match first_index_exec(l, 'e') {
        Some(k) => {
            let m = slice_copy(l, 0, k);
            let e = slice_copy(l, k + 1, len);
            assert(m@ =~= l@.take(k as int));
            assert(e@ =~= l@.skip(k + 1));
            if !float_mantissa_exec(&m) {
                return false;
            }
            let eb = sign_body(&e);
            eb.len() > 0 && all_digits_exec(&eb)
        },
        None => float_mantissa_exec(l),
    }
}

/// Whether `f64::from_str` accepts `s` (see [`float_text`]).
pub fn is_float_text(s: &[char]) -> (b: bool)
    ensures
        b == float_text(s@),
{
    let body = sign_body(s);
    let l = fold_exec(&body);
    if eq_str(&l, "inf") || eq_str(&l, "infinity") || eq_str(&l, "nan") {
        return true;
    }
    float_number_exec(&l)
}

// ---------------------------------------------------------------------------
// Exact arithmetic on decimal fractions
// ---------------------------------------------------------------------------

/// The value of a decimal fraction times `10^18`, an integer.
pub open spec fn scaled_value(d: (bool, nat, nat)) -> int {
    let m: int = (d.1 * pow10((max_digits() - d.2) as nat)) as int;
    if d.0 {
        -m
    } else {
        m
    }
}

/// A number read from text (see [`dec_of`]) as its value times `10^18`.
pub open spec fn number_value(s: Seq<char>) -> Option<int> {
    match dec_of(s) {
        Some(d) => Some(scaled_value(d)),
        None => None,
    }
}

/// The `k` lowest decimal digits of `f`, zero-padded.
pub open spec fn padded(f: nat, k: nat) -> Seq<char>
    decreases k,
{
    if k == 0 {
        Seq::<char>::empty()
    } else {
        padded(f / 10, (k - 1) as nat).push(crate::text::digit_char(f % 10))
    }
}

/// The shortest decimal text of `n / 10^18`: a `-` for negative values,
/// the integer part, and the fractional digits without trailing zeros after
/// a `.` when there are any.
pub open spec fn show_value(n: int) -> Seq<char> {
    let a: nat = if n < 0 {
        (-n) as nat
    } else {
        n as nat
    };
    let ip = a / pow10(max_digits());
    let fp = a % pow10(max_digits());
    let sign = if n < 0 {
        "-"@
    } else {
        Seq::<char>::empty()
    };
    if fp == 0 {
        sign + decimal(ip)
    } else {
        sign + decimal(ip) + "."@ + crate::disks::strip_trailing(padded(fp, max_digits()), '0')
    }
}

/// `n / d` rounded to the nearest integer, halves away from zero.
pub open spec fn round_away(n: int, d: nat) -> int {
    if n >= 0 {
        (2 * n + d) / (2 * d) as int
    } else {
        -((2 * (-n) + d) / (2 * d) as int)
    }
}

/// The text of a rounded quotient as a float prints it: a negative
/// quotient keeps its `-` even when it rounds to zero.
pub open spec fn show_rounded(n: int, d: nat) -> Seq<char> {
    let r = round_away(n, d);
    if n < 0 {
        "-"@ + decimal((-r) as nat)
    } else {
        decimal(r as nat)
    }
}

/// Read a number as its value times `10^18` (see [`number_value`]).
pub fn read_number(s: &[char]) -> (r: Option<i128>)
    ensures
        match r {
            Some(v) => number_value(s@) == Some(v as int) && -1000000000000000000000000000000000000
                < v < 1000000000000000000000000000000000000,
            None => number_value(s@) is None,
        },
{
    match parse_dec(s) {
        Some(d) => {
            let p = pow10_exec(18 - d.scale);
            proof {
                reveal_with_fuel(pow10, 20);
                lemma_pow10_monotone((18 - d.scale) as nat, 18);
                assert((d.mant as nat) * pow10((18 - d.scale) as nat) < 1000000000000000000000000000000000000)
                    by (nonlinear_arith)
                    requires
                        d.mant < 1000000000000000000nat,
                        pow10((18 - d.scale) as nat) <= 1000000000000000000nat,
                ;
            }
            let m = (d.mant as u128 * p) as i128;
            if d.neg {
                Some(-m)
            } else {
                Some(m)
            }
        },
        None => None,
    }
}

proof fn lemma_padded_len(f: nat, k: nat)
    ensures
        padded(f, k).len() == k,
    decreases k,
{
    if k > 0 {
        lemma_padded_len(f / 10, (k - 1) as nat);
    }
}

/// Append the `k` lowest decimal digits of `f`, zero-padded.
pub fn push_padded(out: &mut String, f: u64, k: u32)
    ensures
        final(out)@ == old(out)@ + padded(f as nat, k as nat),
    decreases k,
{
    if k == 0 {
        assert(old(out)@ + padded(f as nat, 0) =~= old(out)@);
        return;
    }
    push_padded(out, f / 10, k - 1);
    push_char(out, crate::text::digit_to_char(f % 10));
    assert(old(out)@ + padded(f as nat, k as nat) =~= old(out)@ + padded(
        (f / 10) as nat,
        (k - 1) as nat,
    ) + seq![crate::text::digit_char((f % 10) as nat)]);
}

/// Append the decimal digits of a `u128`.
pub fn push_decimal_wide(out: &mut String, n: u128)
    ensures
        final(out)@ == old(out)@ + decimal(n as nat),
    decreases n,
{
    if n >= 10 {
        push_decimal_wide(out, n / 10);
    }
    push_char(out, crate::text::digit_to_char((n % 10) as u64));
    assert(old(out)@ + decimal(n as nat) =~= old(out)@ + decimal((n / 10) as nat) + seq![
        crate::text::digit_char((n % 10) as nat),
    ] || n < 10);
}

/// The magnitude of an `i128` as a `u128`.
pub fn magnitude(n: i128) -> (r: u128)
    ensures
        r as int == if n < 0 {
            -n
        } else {
            n as int
        },
{
    if n < 0 {
        ((-(n + 1)) as u128) + 1
    } else {
        n as u128
    }
}

/// [`show_value`] as a `String`.
pub fn show_value_exec(n: i128) -> (r: String)
    ensures
        r@ == show_value(n as int),
{
    proof {
        reveal_with_fuel(pow10, 20);
    }
    let a = magnitude(n);
    let scale: u128 = 1000000000000000000;
    let ip = a / scale;
    let fp = (a % scale) as u64;
    assert(a as int == ip * 1000000000000000000 + fp) by (nonlinear_arith)
        requires
            ip == a / 1000000000000000000u128,
            fp == a % 1000000000000000000u128,
    ;
    show_parts(n < 0, ip, fp)
}

/// [`show_value`] of `±(ip * 10^18 + fp)`, given in parts.
pub fn show_parts(neg: bool, ip: u128, fp: u64) -> (r: String)
    requires
        fp < 1000000000000000000,
        neg ==> ip * 1000000000000000000 + fp > 0,
    ensures
        r@ == show_value(
            if neg {
                -(ip * 1000000000000000000 + fp)
            } else {
                ip * 1000000000000000000 + fp
            },
        ),
{
    proof {
        reveal_with_fuel(pow10, 20);
    }
    let ghost a: nat = (ip * 1000000000000000000 + fp) as nat;
    let ghost n: int = if neg {
        -a
    } else {
        a as int
    };
    assert(a / 1000000000000000000 == ip && a % 1000000000000000000 == fp) by (nonlinear_arith)
        requires
            a == ip * 1000000000000000000 + fp,
            fp < 1000000000000000000,
            ip >= 0,
    ;
    let mut r = String::new();
    if neg {
        r.append("-");
    }
    push_decimal_wide(&mut r, ip);
    if fp != 0 {
        r.append(".");
        let mut digits = String::new();
        push_padded(&mut digits, fp, 18);
        let cs = chars_of(digits.as_str());
        let stripped = crate::disks::strip_trailing_zeros(&cs);
        crate::text::push_chars(&mut r, &stripped);
        assert(Seq::<char>::empty() + padded(fp as nat, 18) =~= padded(fp as nat, 18));
    }
    proof {
        assert(r@ =~= show_value(n));
    }
    r
}

/// [`show_rounded`] as a `String`, for `|n| < 10^38` and `d <= 10^20`.
pub fn show_rounded_exec(n: i128, d: u128) -> (r: String)
    requires
        -100000000000000000000000000000000000000 < n < 100000000000000000000000000000000000000,
        0 < d <= 100000000000000000000,
    ensures
        r@ == show_rounded(n as int, d as nat),
{
    let a = magnitude(n);
    let q = (2 * a + d) / (2 * d);
    let mut r = String::new();
    if n < 0 {
        r.append("-");
    }
    push_decimal_wide(&mut r, q);
    proof {
        assert(r@ =~= show_rounded(n as int, d as nat));
    }
    r
}

} // verus!
