//! Numbers of the evaluator.
//!
//! Values travel through the interpreter as strings; a string takes part in
//! arithmetic when it reads as a decimal number: an optional sign, up to
//! eighteen digits, and at most one decimal point followed by digits. Such a
//! number is held exactly as a mantissa and a scale, so every sum, difference
//! and product is exact; a quotient is truncated after sixteen fraction
//! digits. The spelling `NaN` (in any case) is the not-a-number value:
//! it propagates through arithmetic and compares as equal to every number,
//! and division by zero produces it.

use vstd::prelude::*;
use crate::text::{spec_is_digit, is_digit, digit_val, spec_digit_val, spec_eq_ci, eq_ci,
    spec_seq_eq_ci, chars_eq_ci, chars_of, spec_digit_char, digit_char};

verus! {

/// A decimal: the value `m / 10^s`.
pub struct DecS {
    pub m: int,
    pub s: nat,
}

pub struct Dec {
    pub m: i128,
    pub s: u32,
}

impl View for Dec {
    type V = DecS;

    open spec fn view(&self) -> DecS {
        DecS { m: self.m as int, s: self.s as nat }
    }
}

pub enum NumS {
    NaN,
    Fin(DecS),
}

pub enum Num {
    NaN,
    Fin(Dec),
}

impl View for Num {
    type V = NumS;

    open spec fn view(&self) -> NumS {
        match self {
            Num::NaN => NumS::NaN,
            Num::Fin(d) => NumS::Fin(d@),
        }
    }
}

pub open spec fn onum_rel(a: Option<Num>, b: Option<NumS>) -> bool {
    match (a, b) {
        (Some(x), Some(y)) => x@ == y,
        (None, None) => true,
        _ => false,
    }
}

// ---------------------------------------------------------------------------
// powers of ten
// ---------------------------------------------------------------------------

pub open spec fn pow10(n: nat) -> int
    decreases n,
{
    if n == 0 {
        1
    } else {
        10 * pow10((n - 1) as nat)
    }
}

pub proof fn lemma_pow10_pos(n: nat)
    ensures
        pow10(n) >= 1,
    decreases n,
{
    if n > 0 {
        lemma_pow10_pos((n - 1) as nat);
    }
}

pub proof fn lemma_pow10_mono(a: nat, b: nat)
    requires
        a <= b,
    ensures
        pow10(a) <= pow10(b),
    decreases b,
{
    if a < b {
        lemma_pow10_mono(a, (b - 1) as nat);
        lemma_pow10_pos((b - 1) as nat);
    }
}

/// Limit on the number of digits a string must have to read as a number.
pub open spec fn max_digits() -> nat {
    18
}

pub proof fn lemma_pow10_18()
    ensures
        pow10(18) == 1000000000000000000,
{
    reveal_with_fuel(pow10, 20);
}

pub proof fn lemma_pow10_36()
    ensures
        pow10(36) == 1000000000000000000000000000000000000,
{
    reveal_with_fuel(pow10, 40);
}

fn pow10_i128(n: u32) -> (r: i128)
    requires
        n <= 36,
    ensures
        r == pow10(n as nat),
        r >= 1,
    decreases n,
{
    proof {
        lemma_pow10_pos(n as nat);
        lemma_pow10_mono(n as nat, 36);
        lemma_pow10_36();
    }
    if n == 0 {
        1
    } else {
        let p = pow10_i128(n - 1);
        proof {
            lemma_pow10_mono((n - 1) as nat, 35);
            reveal_with_fuel(pow10, 40);
        }
        10 * p
    }
}

// ---------------------------------------------------------------------------
// parsing
// ---------------------------------------------------------------------------

/// Value of a digit run, most significant first.
pub open spec fn digits_val(s: Seq<char>) -> int
    decreases s.len(),
{
    if s.len() == 0 {
        0
    } else {
        digits_val(s.drop_last()) * 10 + spec_digit_val(s.last())
    }
}

pub open spec fn all_digits(s: Seq<char>) -> bool {
    forall|k: int| 0 <= k < s.len() ==> spec_is_digit(s[k])
}

pub proof fn lemma_digits_val_bound(s: Seq<char>)
    requires
        all_digits(s),
    ensures
        0 <= digits_val(s) < pow10(s.len() as nat),
    decreases s.len(),
{
    if s.len() == 0 {
    } else {
        assert(all_digits(s.drop_last())) by {
            assert(forall|k: int| 0 <= k < s.len() - 1 ==> s.drop_last()[k] == s[k]);
        }
        lemma_digits_val_bound(s.drop_last());
        assert(spec_is_digit(s.last()));
        assert(0 <= spec_digit_val(s.last()) <= 9);
    }
}

/// Position of the single decimal point, if any; the string length when the
/// body is a plain digit run.
pub open spec fn spec_dot_pos(s: Seq<char>, i: nat) -> nat
    decreases s.len() - i,
{
    if i >= s.len() {
        s.len()
    } else if s[i as int] == '.' {
        i
    } else {
        spec_dot_pos(s, i + 1)
    }
}

/// The decimal a character sequence denotes, if it denotes one.
pub open spec fn spec_parse_dec(s: Seq<char>) -> Option<DecS> {
    let neg = s.len() > 0 && s[0] == '-';
    let signed = s.len() > 0 && (s[0] == '-' || s[0] == '+');
    let body = if signed {
        s.subrange(1, s.len() as int)
    } else {
        s
    };
    let dot = spec_dot_pos(body, 0);
    let ip = body.subrange(0, if dot <= body.len() {
        dot as int
    } else {
        body.len() as int
    });
    if dot >= body.len() {
        // plain integer
        if ip.len() >= 1 && ip.len() <= max_digits() && all_digits(ip) {
            Some(DecS { m: if neg {
                -digits_val(ip)
            } else {
                digits_val(ip)
            }, s: 0 })
        } else {
            None
        }
    } else {
        let fp = body.subrange((dot + 1) as int, body.len() as int);
        if ip.len() >= 1 && fp.len() >= 1 && ip.len() + fp.len() <= max_digits() && all_digits(ip)
            && all_digits(fp) && all_digits(fp)
            // a second point inside the fraction is not a number
            && spec_dot_pos(body, dot + 1) >= body.len() {
            let mag = digits_val(ip + fp);
            Some(DecS { m: if neg {
                -mag
            } else {
                mag
            }, s: fp.len() as nat })
        } else {
            None
        }
    }
}

/// The number a string denotes: a decimal, or the not-a-number spelling.
pub open spec fn spec_parse_num(s: Seq<char>) -> Option<NumS> {
    if spec_seq_eq_ci(s, "nan"@) {
        Some(NumS::NaN)
    } else {
        match spec_parse_dec(s) {
            Some(d) => Some(NumS::Fin(d)),
            None => None,
        }
    }
}

/// Every parsed decimal is within the mantissa and scale budget.
pub open spec fn dec_bounded(d: DecS) -> bool {
    -pow10(max_digits()) < d.m < pow10(max_digits()) && d.s <= max_digits()
}

pub proof fn lemma_parse_dec_bounded(s: Seq<char>)
    ensures
        spec_parse_dec(s) matches Some(d) ==> dec_bounded(d),
{
    match spec_parse_dec(s) {
        Some(d) => {
            let neg = s.len() > 0 && s[0] == '-';
            let signed = s.len() > 0 && (s[0] == '-' || s[0] == '+');
            let body = if signed {
                s.subrange(1, s.len() as int)
            } else {
                s
            };
            let dot = spec_dot_pos(body, 0);
            let ip = body.subrange(0, if dot <= body.len() {
                dot as int
            } else {
                body.len() as int
            });
            if dot >= body.len() {
                lemma_digits_val_bound(ip);
                lemma_pow10_mono(ip.len() as nat, max_digits());
            } else {
                let fp = body.subrange((dot + 1) as int, body.len() as int);
                lemma_digits_val_bound(ip + fp);
                lemma_pow10_mono((ip + fp).len() as nat, max_digits());
            }
        },
        None => {},
    }
}

fn dot_pos(s: &Vec<char>, i: usize) -> (r: usize)
    requires
        i <= s@.len(),
    ensures
        r == spec_dot_pos(s@, i as nat),
        i <= r <= s@.len(),
    decreases s@.len() - i,
{
    if i >= s.len() {
        s.len()
    } else if s[i] == '.' {
        i
    } else {
        dot_pos(s, i + 1)
    }
}

/// Accumulates the value of the digit run `s[a..b]`.
fn digits_value(s: &Vec<char>, a: usize, b: usize) -> (r: Option<i128>)
    requires
        a <= b <= s@.len(),
    ensures
        ({
            let run = s@.subrange(a as int, b as int);
            if all_digits(run) && run.len() <= max_digits() {
                r matches Some(v) && v == digits_val(run) && 0 <= v < pow10(max_digits())
            } else {
                r is None
            }
        }),
{
    let n = b - a;
    if n > 18 {
        proof {
            assert(s@.subrange(a as int, b as int).len() > max_digits());
        }
        return None;
    }
    let mut acc: i128 = 0;
    let mut i: usize = a;
    proof {
        assert(s@.subrange(a as int, a as int) =~= Seq::<char>::empty());
        lemma_pow10_18();
        lemma_pow10_36();
    }
    while i < b
        invariant
            a <= i <= b <= s@.len(),
            b - a <= 18,
            all_digits(s@.subrange(a as int, i as int)),
            acc == digits_val(s@.subrange(a as int, i as int)),
            0 <= acc < pow10((i - a) as nat),
            pow10(18) == 1000000000000000000,
        decreases b - i,
    {
        if !is_digit(s[i]) {
            proof {
                assert(s@.subrange(a as int, b as int)[(i - a) as int] == s@[i as int]);
                assert(!all_digits(s@.subrange(a as int, b as int)));
            }
            return None;
        }
        let d = digit_val(s[i]);
        proof {
            lemma_pow10_mono((i - a) as nat, 17);
            reveal_with_fuel(pow10, 20);
            assert(pow10(17) == 100000000000000000) by {
                lemma_pow10_18();
            }
        }
        acc = acc * 10 + (d as i128);
        i = i + 1;
        proof {
            let run = s@.subrange(a as int, i as int);
            assert(run.drop_last() =~= s@.subrange(a as int, (i - 1) as int));
            assert(run.last() == s@[(i - 1) as int]);
            assert(forall|k: int| 0 <= k < run.len() ==> spec_is_digit(run[k]));
        }
    }
    proof {
        lemma_pow10_mono((b - a) as nat, max_digits());
    }
    Some(acc)
}

/// Reads a string as a number, if it is one.
pub fn parse_num(s: &Vec<char>) -> (r: Option<Num>)
    ensures
        onum_rel(r, spec_parse_num(s@)),
        match r {
            Some(n) => match n@ {
                NumS::Fin(d) => dec_bounded(d),
                NumS::NaN => true,
            },
            None => true,
        },
{
    let nan = chars_of("nan");
    if chars_eq_ci(s, &nan) {
        return Some(Num::NaN);
    }
    proof {
        lemma_parse_dec_bounded(s@);
    }
    let signed = s.len() > 0 && (s[0] == '-' || s[0] == '+');
    let neg = s.len() > 0 && s[0] == '-';
    let a: usize = if signed {
        1
    } else {
        0
    };
    let ghost body = if signed {
        s@.subrange(1, s@.len() as int)
    } else {
        s@
    };
    proof {
        assert(body =~= s@.subrange(a as int, s@.len() as int));
    }
    let dot = dot_pos_from(s, a);
    proof {
        lemma_dot_pos_shift_rec(s@, a as nat, 0);
    }
    if dot >= s.len() {
        // plain integer
        proof {
            assert(body.subrange(0, body.len() as int) =~= body);
        }
        let mag = match digits_value(s, a, s.len()) {
            Some(v) => v,
            None => {
                return None;
            },
        };
        proof {
            assert(s@.subrange(a as int, s@.len() as int) =~= body);
        }
        if s.len() - a < 1 {
            return None;
        }
        let m = if neg {
            -mag
        } else {
            mag
        };
        Some(Num::Fin(Dec { m, s: 0 }))
    } else {
        // a point: integer part, then fraction digits only
        proof {
            assert(body.subrange(0, (dot - a) as int) =~= s@.subrange(a as int, dot as int));
            assert(body.subrange((dot - a + 1) as int, body.len() as int) =~= s@.subrange(
                (dot + 1) as int,
                s@.len() as int,
            ));
        }
        if dot == a {
            return None;
        }
        let _ipv = match digits_value(s, a, dot) {
            Some(v) => v,
            None => {
                return None;
            },
        };
        if dot + 1 >= s.len() {
            return None;
        }
        let d2 = dot_pos_from(s, dot + 1);
        proof {
            lemma_dot_pos_shift_rec(s@, a as nat, (dot - a + 1) as nat);
        }
        if d2 < s.len() {
            return None;
        }
        let fl = s.len() - (dot + 1);
        if s.len() - a - 1 > 18 {
            return None;
        }
        let _fpv = match digits_value(s, dot + 1, s.len()) {
            Some(v) => v,
            None => {
                return None;
            },
        };
        let whole = match digits_value_concat(s, a, dot, s.len()) {
            Some(v) => v,
            None => {
                return None;
            },
        };
        let m = if neg {
            -whole
        } else {
            whole
        };
        proof {
            let ip = body.subrange(0, (dot - a) as int);
            let fp = body.subrange((dot - a + 1) as int, body.len() as int);
            assert(ip =~= s@.subrange(a as int, dot as int));
            assert(fp =~= s@.subrange((dot + 1) as int, s@.len() as int));
            assert(ip + fp =~= concat_run(s@, a as int, dot as int, s@.len() as int));
        }
        Some(Num::Fin(Dec { m, s: fl as u32 }))
    }
}

/// The characters of `s[a..b]` followed by those of `s[b+1..c]`.
pub open spec fn concat_run(s: Seq<char>, a: int, b: int, c: int) -> Seq<char> {
    s.subrange(a, b) + s.subrange(b + 1, c)
}

/// Value of two digit runs around an excluded point character.
fn digits_value_concat(s: &Vec<char>, a: usize, b: usize, c: usize) -> (r: Option<i128>)
    requires
        a <= b < c <= s@.len(),
    ensures
        ({
            let run = concat_run(s@, a as int, b as int, c as int);
            if all_digits(run) && run.len() <= max_digits() {
                r matches Some(v) && v == digits_val(run) && 0 <= v < pow10(max_digits())
            } else {
                r is None
            }
        }),
{
    let mut joined: Vec<char> = Vec::new();
    let mut i: usize = a;
    while i < b
        invariant
            a <= i <= b < c <= s@.len(),
            joined@ == s@.subrange(a as int, i as int),
        decreases b - i,
    {
        joined.push(s[i]);
        i = i + 1;
        proof {
            assert(joined@ =~= s@.subrange(a as int, i as int));
        }
    }
    let mut k: usize = b + 1;
    while k < c
        invariant
            a <= b < k <= c <= s@.len(),
            b + 1 <= k,
            joined@ == s@.subrange(a as int, b as int) + s@.subrange((b + 1) as int, k as int),
        decreases c - k,
    {
        joined.push(s[k]);
        k = k + 1;
        proof {
            assert(joined@ =~= s@.subrange(a as int, b as int) + s@.subrange(
                (b + 1) as int,
                k as int,
            ));
        }
    }
    proof {
        assert(joined@ =~= concat_run(s@, a as int, b as int, c as int));
    }
    let r = digits_value(&joined, 0, joined.len());
    proof {
        assert(joined@.subrange(0, joined@.len() as int) =~= joined@);
    }
    r
}

fn dot_pos_from(s: &Vec<char>, a: usize) -> (r: usize)
    requires
        a <= s@.len(),
    ensures
        r == spec_dot_pos(s@, a as nat),
        a <= r <= s@.len(),
{
    dot_pos(s, a)
}

/// The point search in a suffix tracks the search in the whole, offset by
/// the suffix start.
pub proof fn lemma_dot_pos_shift_rec(s: Seq<char>, off: nat, i: nat)
    requires
        off <= s.len(),
        i <= s.len() - off,
    ensures
        spec_dot_pos(s.subrange(off as int, s.len() as int), i) == spec_dot_pos(s, i + off) - off,
    decreases s.len() - off - i,
{
    let sub = s.subrange(off as int, s.len() as int);
    if i >= sub.len() {
    } else if sub[i as int] == '.' {
        assert(s[(i + off) as int] == '.');
    } else {
        assert(s[(i + off) as int] != '.');
        lemma_dot_pos_shift_rec(s, off, i + 1);
    }
}

// ---------------------------------------------------------------------------
// arithmetic
// ---------------------------------------------------------------------------

pub open spec fn num_bounded(n: NumS) -> bool {
    match n {
        NumS::NaN => true,
        NumS::Fin(d) => dec_bounded(d),
    }
}

pub open spec fn spec_max_nat(a: nat, b: nat) -> nat {
    if a >= b {
        a
    } else {
        b
    }
}

pub open spec fn spec_dec_add(a: DecS, b: DecS) -> DecS {
    let s = spec_max_nat(a.s, b.s);
    DecS { m: a.m * pow10((s - a.s) as nat) + b.m * pow10((s - b.s) as nat), s: s }
}

pub open spec fn spec_dec_neg(a: DecS) -> DecS {
    DecS { m: -a.m, s: a.s }
}

pub open spec fn spec_dec_mul(a: DecS, b: DecS) -> DecS {
    DecS { m: a.m * b.m, s: (a.s + b.s) as nat }
}

/// Fraction digits kept by a quotient.
pub open spec fn div_precision() -> nat {
    16
}

pub open spec fn spec_abs(m: int) -> int {
    if m < 0 {
        -m
    } else {
        m
    }
}

/// Truncating decimal division, `b.m != 0`.
pub open spec fn spec_dec_div(a: DecS, b: DecS) -> DecS {
    let qm = (spec_abs(a.m) * pow10(div_precision())) / spec_abs(b.m);
    let negr = (a.m < 0) != (b.m < 0);
    let t = a.s + div_precision() - b.s;
    if t >= 0 {
        DecS { m: if negr {
            -qm
        } else {
            qm
        }, s: t as nat }
    } else {
        let m0 = qm * pow10((-t) as nat);
        DecS { m: if negr {
            -m0
        } else {
            m0
        }, s: 0 }
    }
}

/// The remainder with the dividend's sign, as the machine's `%` computes it.
pub open spec fn spec_trunc_rem(a: int, b: int) -> int {
    let mag = spec_abs(a) % spec_abs(b);
    if a < 0 {
        -mag
    } else {
        mag
    }
}

/// Numeric comparison: negative, zero or positive as `a` is below, equal to
/// or above `b`; the not-a-number value compares as equal to everything.
pub open spec fn spec_num_cmp(x: NumS, y: NumS) -> int {
    match (x, y) {
        (NumS::Fin(a), NumS::Fin(b)) => a.m * pow10(b.s) - b.m * pow10(a.s),
        _ => 0,
    }
}

pub open spec fn spec_num_add(x: NumS, y: NumS) -> NumS {
    match (x, y) {
        (NumS::Fin(a), NumS::Fin(b)) => NumS::Fin(spec_dec_add(a, b)),
        _ => NumS::NaN,
    }
}

pub open spec fn spec_num_sub(x: NumS, y: NumS) -> NumS {
    match (x, y) {
        (NumS::Fin(a), NumS::Fin(b)) => NumS::Fin(spec_dec_add(a, spec_dec_neg(b))),
        _ => NumS::NaN,
    }
}

pub open spec fn spec_num_mul(x: NumS, y: NumS) -> NumS {
    match (x, y) {
        (NumS::Fin(a), NumS::Fin(b)) => NumS::Fin(spec_dec_mul(a, b)),
        _ => NumS::NaN,
    }
}

/// Division: by zero (and through the not-a-number value) gives NaN.
pub open spec fn spec_num_div(x: NumS, y: NumS) -> NumS {
    match (x, y) {
        (NumS::Fin(a), NumS::Fin(b)) => if b.m == 0 {
            NumS::NaN
        } else {
            NumS::Fin(spec_dec_div(a, b))
        },
        _ => NumS::NaN,
    }
}

proof fn lemma_mul_range(x: int, p: int, c: int)
    by (nonlinear_arith)
    requires
        -c < x < c,
        1 <= p,
        c >= 1,
    ensures
        -(c * p) < x * p < c * p,
{
}

proof fn lemma_mul_le(a: int, b: int, c: int, d: int)
    by (nonlinear_arith)
    requires
        0 <= a <= b,
        0 <= c <= d,
    ensures
        0 <= a * c <= b * d,
{
}

proof fn lemma_div_le(a: int, b: int)
    by (nonlinear_arith)
    requires
        0 <= a,
        1 <= b,
    ensures
        0 <= a / b <= a,
{
}

/// Bound on every mantissa an arithmetic step can produce.
pub open spec fn result_bound() -> int {
    2 * pow10(36)
}

pub open spec fn dec_result_bounded(d: DecS) -> bool {
    -result_bound() < d.m < result_bound() && d.s <= 36
}

fn dec_add(a: &Dec, b: &Dec) -> (r: Dec)
    requires
        dec_bounded(a@),
        dec_bounded(b@),
    ensures
        r@ == spec_dec_add(a@, b@),
        dec_result_bounded(r@),
{
    proof {
        lemma_pow10_18();
        lemma_pow10_36();
    }
    let s = if a.s >= b.s {
        a.s
    } else {
        b.s
    };
    let pa = pow10_i128(s - a.s);
    let pb = pow10_i128(s - b.s);
    proof {
        lemma_pow10_mono((s - a.s) as nat, 18);
        lemma_pow10_mono((s - b.s) as nat, 18);
        lemma_mul_range(a.m as int, pa as int, pow10(18));
        lemma_mul_le(pow10(18), pow10(18), pa as int, pow10(18));
        lemma_mul_range(b.m as int, pb as int, pow10(18));
        lemma_mul_le(pow10(18), pow10(18), pb as int, pow10(18));
        assert(pow10(18) * pow10(18) == pow10(36)) by {
            lemma_pow10_add(18, 18);
        }
    }
    let am = a.m * pa;
    let bm = b.m * pb;
    Dec { m: am + bm, s }
}

pub proof fn lemma_pow10_add(a: nat, b: nat)
    ensures
        pow10((a + b) as nat) == pow10(a) * pow10(b),
    decreases a,
{
    if a == 0 {
    } else {
        lemma_pow10_add((a - 1) as nat, b);
        assert(pow10((a + b) as nat) == 10 * pow10((a + b - 1) as nat));
        assert(10 * (pow10((a - 1) as nat) * pow10(b)) == (10 * pow10((a - 1) as nat)) * pow10(
            b,
        )) by (nonlinear_arith);
    }
}

fn dec_mul(a: &Dec, b: &Dec) -> (r: Dec)
    requires
        dec_bounded(a@),
        dec_bounded(b@),
    ensures
        r@ == spec_dec_mul(a@, b@),
        dec_result_bounded(r@),
{
    proof {
        lemma_pow10_18();
        lemma_pow10_36();
        lemma_pow10_add(18, 18);
        lemma_mul_range(a.m as int, 1, pow10(18));
        assert(-(pow10(18) * pow10(18)) < (a.m as int) * (b.m as int) < pow10(18) * pow10(18)) by (
        nonlinear_arith)
            requires
                -pow10(18) < (a.m as int) && (a.m as int) < pow10(18),
                -pow10(18) < (b.m as int) && (b.m as int) < pow10(18),
                pow10(18) >= 1,
        ;
    }
    Dec { m: a.m * b.m, s: a.s + b.s }
}

fn dec_div(a: &Dec, b: &Dec) -> (r: Dec)
    requires
        dec_bounded(a@),
        dec_bounded(b@),
        b@.m != 0,
    ensures
        r@ == spec_dec_div(a@, b@),
        dec_result_bounded(r@),
{
    proof {
        lemma_pow10_18();
        lemma_pow10_36();
        lemma_pow10_add(18, 16);
        lemma_pow10_add(34, 2);
    }
    let ua: u128 = if a.m < 0 {
        (-a.m) as u128
    } else {
        a.m as u128
    };
    let ub: u128 = if b.m < 0 {
        (-b.m) as u128
    } else {
        b.m as u128
    };
    let p16: u128 = 10000000000000000;
    proof {
        reveal_with_fuel(pow10, 20);
        assert(p16 as int == pow10(16));
        assert(ua as int == spec_abs(a@.m));
        assert(ub as int == spec_abs(b@.m));
        lemma_mul_le(ua as int, pow10(18), p16 as int, pow10(16));
    }
    let num = ua * p16;
    let q = num / ub;
    proof {
        lemma_div_le(num as int, ub as int);
    }
    let negr = (a.m < 0) != (b.m < 0);
    // result scale: a.s + 16 - b.s, folded into the mantissa when negative
    if a.s + 16 >= b.s {
        let t = a.s + 16 - b.s;
        let m0: i128 = q as i128;
        let m = if negr {
            -m0
        } else {
            m0
        };
        Dec { m, s: t }
    } else {
        let shift = b.s - (a.s + 16);
        let ps = pow10_i128(shift);
        proof {
            lemma_pow10_mono(shift as nat, 2);
            reveal_with_fuel(pow10, 5);
            lemma_mul_le(q as int, pow10(34), ps as int, pow10(2));
        }
        let mq: u128 = q * (ps as u128);
        let m0: i128 = mq as i128;
        let m = if negr {
            -m0
        } else {
            m0
        };
        Dec { m, s: 0 }
    }
}

fn num_bin(op: u8, x: &Num, y: &Num) -> (r: Num)
    requires
        num_bounded(x@),
        num_bounded(y@),
        op < 4,
    ensures
        op == 0 ==> r@ == spec_num_add(x@, y@),
        op == 1 ==> r@ == spec_num_sub(x@, y@),
        op == 2 ==> r@ == spec_num_mul(x@, y@),
        op == 3 ==> r@ == spec_num_div(x@, y@),
        match r@ {
            NumS::Fin(d) => dec_result_bounded(d),
            NumS::NaN => true,
        },
{
    proof {
        lemma_pow10_18();
    }
    match (x, y) {
        (Num::Fin(a), Num::Fin(b)) => {
            if op == 0 {
                Num::Fin(dec_add(a, b))
            } else if op == 1 {
                let nb = Dec { m: -b.m, s: b.s };
                Num::Fin(dec_add(a, &nb))
            } else if op == 2 {
                Num::Fin(dec_mul(a, b))
            } else {
                if b.m == 0 {
                    Num::NaN
                } else {
                    Num::Fin(dec_div(a, b))
                }
            }
        },
        _ => Num::NaN,
    }
}

/// Adds two numbers.
pub fn num_add(x: &Num, y: &Num) -> (r: Num)
    requires
        num_bounded(x@),
        num_bounded(y@),
    ensures
        r@ == spec_num_add(x@, y@),
        num_result_bounded(r@),
{
    num_bin(0, x, y)
}

/// Subtracts `y` from `x`.
pub fn num_sub(x: &Num, y: &Num) -> (r: Num)
    requires
        num_bounded(x@),
        num_bounded(y@),
    ensures
        r@ == spec_num_sub(x@, y@),
        num_result_bounded(r@),
{
    num_bin(1, x, y)
}

/// Multiplies two numbers.
pub fn num_mul(x: &Num, y: &Num) -> (r: Num)
    requires
        num_bounded(x@),
        num_bounded(y@),
    ensures
        r@ == spec_num_mul(x@, y@),
        num_result_bounded(r@),
{
    num_bin(2, x, y)
}

/// Divides `x` by `y`; by zero gives the not-a-number value.
pub fn num_div(x: &Num, y: &Num) -> (r: Num)
    requires
        num_bounded(x@),
        num_bounded(y@),
    ensures
        r@ == spec_num_div(x@, y@),
        num_result_bounded(r@),
{
    num_bin(3, x, y)
}

pub open spec fn num_result_bounded(n: NumS) -> bool {
    match n {
        NumS::NaN => true,
        NumS::Fin(d) => dec_result_bounded(d),
    }
}

/// Compares two numbers; zero wherever the not-a-number value takes part.
pub fn num_cmp(x: &Num, y: &Num) -> (r: i32)
    requires
        num_bounded(x@),
        num_bounded(y@),
    ensures
        r < 0 <==> spec_num_cmp(x@, y@) < 0,
        r == 0 <==> spec_num_cmp(x@, y@) == 0,
        r > 0 <==> spec_num_cmp(x@, y@) > 0,
{
    match (x, y) {
        (Num::Fin(a), Num::Fin(b)) => {
            proof {
                lemma_pow10_18();
                lemma_pow10_36();
                lemma_pow10_add(18, 18);
                lemma_pow10_mono(a.s as nat, 18);
                lemma_pow10_mono(b.s as nat, 18);
            }
            let pa = pow10_i128(b.s);
            let pb = pow10_i128(a.s);
            proof {
                lemma_mul_range(a.m as int, pa as int, pow10(18));
                lemma_mul_le(pow10(18), pow10(18), pa as int, pow10(18));
                lemma_mul_range(b.m as int, pb as int, pow10(18));
                lemma_mul_le(pow10(18), pow10(18), pb as int, pow10(18));
            }
            let lv = a.m * pa;
            let rv = b.m * pb;
            if lv < rv {
                -1
            } else if lv == rv {
                0
            } else {
                1
            }
        },
        _ => 0,
    }
}

// ---------------------------------------------------------------------------
// rendering
// ---------------------------------------------------------------------------

/// Trailing zeros of the fraction dropped, so `2.50` renders as `2.5` and
/// `5.0` as `5`.
pub open spec fn spec_trim_zeros(d: DecS) -> DecS
    decreases d.s,
{
    if d.s > 0 && d.m % 10 == 0 {
        spec_trim_zeros(DecS { m: d.m / 10, s: (d.s - 1) as nat })
    } else {
        d
    }
}

pub open spec fn spec_digits_of(n: nat) -> Seq<char>
    decreases n,
{
    if n < 10 {
        seq![spec_digit_char(n as int)]
    } else {
        spec_digits_of(n / 10).push(spec_digit_char((n % 10) as int))
    }
}

/// Zero characters prepended up to the fraction width.
pub open spec fn spec_pad_zeros(s: Seq<char>, w: nat) -> Seq<char>
    decreases w - s.len(),
{
    if s.len() >= w {
        s
    } else {
        spec_pad_zeros(seq!['0'] + s, w)
    }
}

/// The canonical spelling of a decimal.
pub open spec fn spec_fmt_dec(d0: DecS) -> Seq<char> {
    let d = spec_trim_zeros(d0);
    let mag = spec_abs(d.m) as nat;
    let body = if d.s == 0 {
        spec_digits_of(mag)
    } else {
        spec_digits_of(mag / (pow10(d.s) as nat)) + seq!['.'] + spec_pad_zeros(
            spec_digits_of(mag % (pow10(d.s) as nat)),
            d.s,
        )
    };
    if d.m < 0 {
        seq!['-'] + body
    } else {
        body
    }
}

/// The canonical spelling of a number.
pub open spec fn spec_fmt_num(n: NumS) -> Seq<char> {
    match n {
        NumS::NaN => "NaN"@,
        NumS::Fin(d) => spec_fmt_dec(d),
    }
}

fn fmt_u128(n: u128) -> (r: Vec<char>)
    ensures
        r@ == spec_digits_of(n as nat),
    decreases n,
{
    if n < 10 {
        let mut v: Vec<char> = Vec::new();
        v.push(digit_char(n as u8));
        proof {
            assert(v@ =~= seq![spec_digit_char(n as int)]);
        }
        v
    } else {
        let mut v = fmt_u128(n / 10);
        v.push(digit_char((n % 10) as u8));
        v
    }
}

fn pow10_u128(n: u32) -> (r: u128)
    requires
        n <= 36,
    ensures
        r as int == pow10(n as nat),
        r >= 1,
{
    let p = pow10_i128(n);
    p as u128
}

/// Renders a decimal in its canonical spelling.
pub fn fmt_dec(d: &Dec) -> (r: Vec<char>)
    requires
        dec_result_bounded(d@),
    ensures
        r@ == spec_fmt_dec(d@),
{
    let mut m = d.m;
    let mut sc = d.s;
    while sc > 0 && m % 10 == 0
        invariant
            dec_result_bounded(DecS { m: m as int, s: sc as nat }),
            spec_trim_zeros(DecS { m: m as int, s: sc as nat }) == spec_trim_zeros(d@),
        decreases sc,
    {
        m = m / 10;
        sc = sc - 1;
    }
    proof {
        assert(spec_trim_zeros(DecS { m: m as int, s: sc as nat }) == DecS {
            m: m as int,
            s: sc as nat,
        });
    }
    proof {
        lemma_pow10_36();
    }
    let neg = m < 0;
    let mag: u128 = if neg {
        (-m) as u128
    } else {
        m as u128
    };
    let mut out: Vec<char> = Vec::new();
    if neg {
        out.push('-');
    }
    if sc == 0 {
        let ds = fmt_u128(mag);
        crate::text::extend(&mut out, &ds);
        proof {
            if neg {
                assert(out@ =~= seq!['-'] + spec_digits_of(mag as nat));
            } else {
                assert(out@ =~= spec_digits_of(mag as nat));
            }
        }
        out
    } else {
        let p = pow10_u128(sc);
        let ip = mag / p;
        let fp = mag % p;
        let ids = fmt_u128(ip);
        let fds = fmt_u128(fp);
        crate::text::extend(&mut out, &ids);
        out.push('.');
        // left-pad the fraction to its full width
        let mut padded: Vec<char> = Vec::new();
        let mut need: usize = 0;
        let fdl = fds.len();
        proof {
            lemma_digits_len_le(fp as nat, sc as nat);
        }
        if (sc as usize) > fdl {
            need = (sc as usize) - fdl;
        }
        let mut k: usize = 0;
        while k < need
            invariant
                k <= need,
                padded@.len() == k,
                forall|j: int| 0 <= j < k ==> padded@[j] == '0',
            decreases need - k,
        {
            padded.push('0');
            k = k + 1;
        }
        crate::text::extend(&mut padded, &fds);
        proof {
            lemma_pad_zeros_shape(spec_digits_of(fp as nat), sc as nat, padded@);
        }
        crate::text::extend(&mut out, &padded);
        proof {
            let body = spec_digits_of((mag as nat) / (pow10(sc as nat) as nat)) + seq!['.']
                + spec_pad_zeros(spec_digits_of((mag as nat) % (pow10(sc as nat) as nat)), sc as nat);
            if neg {
                assert(out@ =~= seq!['-'] + body);
            } else {
                assert(out@ =~= body);
            }
        }
        out
    }
}

/// A number below `10^w` prints in at most `w` digits.
pub proof fn lemma_digits_len_le(n: nat, w: nat)
    requires
        n < pow10(w),
        w >= 1,
    ensures
        spec_digits_of(n).len() <= w,
    decreases n,
{
    if n < 10 {
    } else {
        assert(pow10(w) == 10 * pow10((w - 1) as nat));
        assert(n / 10 < pow10((w - 1) as nat)) by (nonlinear_arith)
            requires
                n >= 10,
                n < 10 * pow10((w - 1) as nat),
        ;
        assert(w - 1 >= 1) by {
            lemma_pow10_pos((w - 1) as nat);
            if w == 1 {
                assert(pow10(1nat) == 10) by {
                    reveal_with_fuel(pow10, 3);
                }
            }
        }
        lemma_digits_len_le(n / 10, (w - 1) as nat);
    }
}

/// Padding with zeros in front is exactly what the padded vector holds.
pub proof fn lemma_pad_zeros_shape(ds: Seq<char>, w: nat, padded: Seq<char>)
    requires
        ds.len() <= w,
        padded.len() == w,
        forall|j: int| 0 <= j < w - ds.len() ==> padded[j] == '0',
        forall|j: int| w - ds.len() <= j < w ==> padded[j] == ds[j - (w - ds.len())],
    ensures
        spec_pad_zeros(ds, w) == padded,
    decreases w - ds.len(),
{
    if ds.len() >= w {
        assert(spec_pad_zeros(ds, w) == ds);
        assert(ds =~= padded);
    } else {
        let ds2 = seq!['0'] + ds;
        lemma_pad_zeros_shape(ds2, w, padded);
    }
}

/// Renders a number: a decimal spelling, or `NaN`.
pub fn fmt_num(n: &Num) -> (r: Vec<char>)
    requires
        num_result_bounded(n@),
    ensures
        r@ == spec_fmt_num(n@),
{
    match n {
        Num::NaN => chars_of("NaN"),
        Num::Fin(d) => fmt_dec(d),
    }
}

} // verus!
