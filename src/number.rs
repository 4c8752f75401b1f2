//! Binary floating-point values held exactly, and their fixed-point rendering.

use vstd::prelude::*;

verus! {

/// The largest number of fractional digits a value is rendered with.
pub const MAX_PLACES: u32 = 18;

/// An IEEE 754 double-precision value other than an infinity or a NaN,
/// held exactly as `(-1)^negative * mantissa * 2^exponent`.
#[derive(Clone, Copy, Debug, PartialEq, Eq, Structural)]
pub struct Binary64 {
    pub negative: bool,
    pub mantissa: u64,
    pub exponent: i32,
}

pub open spec fn pow2(n: nat) -> nat
    decreases n,
{
    if n == 0 {
        1
    } else {
        2 * pow2((n - 1) as nat)
    }
}

pub open spec fn pow10(n: nat) -> nat
    decreases n,
{
    if n == 0 {
        1
    } else {
        10 * pow10((n - 1) as nat)
    }
}

/// `n / k` rounded to the nearest integer, ties going to the even neighbour.
pub open spec fn div_half_even(n: nat, k: nat) -> nat
    recommends
        k > 0,
{
    let q = n / k;
    let r = n % k;
    if 2 * r > k || (2 * r == k && q % 2 == 1) {
        q + 1
    } else {
        q
    }
}

pub open spec fn digit_char(d: nat) -> char {
    if d == 0 {
        '0'
    } else if d == 1 {
        '1'
    } else if d == 2 {
        '2'
    } else if d == 3 {
        '3'
    } else if d == 4 {
        '4'
    } else if d == 5 {
        '5'
    } else if d == 6 {
        '6'
    } else if d == 7 {
        '7'
    } else if d == 8 {
        '8'
    } else {
        '9'
    }
}

/// The decimal numeral of `n`, without leading zeros.
pub open spec fn numeral(n: nat) -> Seq<char>
    decreases n,
{
    if n < 10 {
        seq![digit_char(n)]
    } else {
        numeral(n / 10).push(digit_char(n % 10))
    }
}

/// The last `k` decimal digits of `n`, padded with leading zeros.
pub open spec fn low_digits(n: nat, k: nat) -> Seq<char>
    decreases k,
{
    if k == 0 {
        Seq::empty()
    } else {
        low_digits(n / 10, (k - 1) as nat).push(digit_char(n % 10))
    }
}

/// `n / 10^places` written with exactly `places` fractional digits.
pub open spec fn point_numeral(n: nat, places: nat) -> Seq<char> {
    if places == 0 {
        numeral(n)
    } else {
        numeral(n / pow10(places)) + seq!['.'] + low_digits(n, places)
    }
}

pub proof fn lemma_pow10_positive(n: nat)
    ensures
        pow10(n) >= 1,
    decreases n,
{
    if n > 0 {
        lemma_pow10_positive((n - 1) as nat);
    }
}

pub proof fn lemma_pow10_monotone(a: nat, b: nat)
    requires
        a <= b,
    ensures
        pow10(a) <= pow10(b),
    decreases b,
{
    if a < b {
        lemma_pow10_monotone(a, (b - 1) as nat);
        lemma_pow10_positive((b - 1) as nat);
    }
}

/// `10^k` for the numbers of places a value is rendered with.
fn pow10_exec(k: u32) -> (r: u64)
    requires
        k <= MAX_PLACES,
    ensures
        r as nat == pow10(k as nat),
        r <= 1000000000000000000u64,
        r >= 1,
{
    proof {
        reveal_with_fuel(pow10, 19);
        assert(pow10(18) == 1000000000000000000nat);
    }
    let mut r: u64 = 1;
    let mut i: u32 = 0;
    while i < k
        invariant
            i <= k,
            k <= MAX_PLACES,
            r as nat == pow10(i as nat),
            pow10(18) == 1000000000000000000nat,
        decreases k - i,
    {
        proof {
            lemma_pow10_monotone((i + 1) as nat, 18);
        }
        r = r * 10;
        i = i + 1;
    }
    proof {
        lemma_pow10_monotone(k as nat, 18);
        lemma_pow10_positive(k as nat);
    }
    r
}

/// The one-character text of a decimal digit.
fn digit_str(d: u128) -> (r: &'static str)
    requires
        d < 10,
    ensures
        r@ == seq![digit_char(d as nat)],
{
    proof {
        reveal_strlit("0");
        reveal_strlit("1");
        reveal_strlit("2");
        reveal_strlit("3");
        reveal_strlit("4");
        reveal_strlit("5");
        reveal_strlit("6");
        reveal_strlit("7");
        reveal_strlit("8");
        reveal_strlit("9");
    }
    if d == 0 {
        "0"
    } else if d == 1 {
        "1"
    } else if d == 2 {
        "2"
    } else if d == 3 {
        "3"
    } else if d == 4 {
        "4"
    } else if d == 5 {
        "5"
    } else if d == 6 {
        "6"
    } else if d == 7 {
        "7"
    } else if d == 8 {
        "8"
    } else {
        "9"
    }
}

fn append_numeral(n: u128, out: &mut String)
    ensures
        final(out)@ == old(out)@ + numeral(n as nat),
    decreases n,
{
    if n >= 10 {
        append_numeral(n / 10, out);
    }
    out.append(digit_str(n % 10));
    proof {
        if n >= 10 {
            assert(old(out)@ + numeral(n as nat) =~= old(out)@ + numeral((n / 10) as nat) + seq![
                digit_char((n % 10) as nat),
            ]);
        } else {
            assert(numeral(n as nat) == seq![digit_char((n % 10) as nat)]);
        }
    }
}

fn append_low_digits(n: u128, k: u32, out: &mut String)
    ensures
        final(out)@ == old(out)@ + low_digits(n as nat, k as nat),
    decreases k,
{
    if k > 0 {
        append_low_digits(n / 10, k - 1, out);
        out.append(digit_str(n % 10));
        proof {
            assert(old(out)@ + low_digits(n as nat, k as nat) =~= old(out)@ + low_digits(
                (n / 10) as nat,
                (k - 1) as nat,
            ) + seq![digit_char((n % 10) as nat)]);
        }
    } else {
        assert(old(out)@ + low_digits(n as nat, 0) =~= old(out)@);
    }
}


/// Bit layout of a double: sign, 11 exponent bits, 52 fraction bits.
pub const SIGN_UNIT: u64 = 0x8000_0000_0000_0000;
pub const EXPONENT_UNIT: u64 = 0x0010_0000_0000_0000;
pub const EXPONENT_FIELD_END: u64 = 2048;
pub const SPECIAL_EXPONENT: u64 = 2047;
/// The exponent that a subnormal value's fraction is scaled by.
pub const SUBNORMAL_EXPONENT: i32 = -1074;
/// What is taken off a normal value's exponent field.
pub const EXPONENT_BIAS: i32 = 1075;

/// The value a double's bits encode; `None` for an infinity or a NaN.
pub open spec fn decode(bits: u64) -> Option<Binary64> {
    let field = (bits / EXPONENT_UNIT) % EXPONENT_FIELD_END;
    let fraction = bits % EXPONENT_UNIT;
    if field == SPECIAL_EXPONENT {
        None
    } else {
        Some(
            Binary64 {
                negative: bits / SIGN_UNIT == 1,
                mantissa: if field == 0 {
                    fraction
                } else {
                    (fraction + EXPONENT_UNIT) as u64
                },
                exponent: if field == 0 {
                    SUBNORMAL_EXPONENT
                } else {
                    (field - EXPONENT_BIAS) as i32
                },
            },
        )
    }
}

/// The number a little-endian sequence of decimal digits writes.
pub open spec fn digits_value(s: Seq<u8>) -> nat
    decreases s.len(),
{
    if s.len() == 0 {
        0
    } else {
        s[0] as nat + 10 * digits_value(s.drop_first())
    }
}

pub open spec fn all_digits(s: Seq<u8>) -> bool {
    forall|j: int| 0 <= j < s.len() ==> #[trigger] s[j] < 10
}

/// A digit sequence without leading zeros that writes a positive number.
pub open spec fn normal_digits(s: Seq<u8>) -> bool {
    s.len() > 0 && all_digits(s) && s.last() != 0
}

impl Binary64 {
    pub open spec fn wf(self) -> bool {
        &&& self.mantissa < 2 * EXPONENT_UNIT
        &&& SUBNORMAL_EXPONENT <= self.exponent <= 971
    }

    /// The magnitude in units of `10^-places`, rounded half to even.
    pub open spec fn rounded(self, places: nat) -> nat {
        if self.exponent >= 0 {
            self.mantissa as nat * pow2(self.exponent as nat) * pow10(places)
        } else {
            div_half_even(self.mantissa as nat * pow10(places), pow2((-self.exponent) as nat))
        }
    }

    /// The value rounded to `places` fractional digits: a minus sign when the
    /// sign bit is set (also for a value that rounds to zero), then the digits.
    pub open spec fn fixed_text(self, places: nat) -> Seq<char> {
        let sign = if self.negative {
            seq!['-']
        } else {
            Seq::<char>::empty()
        };
        sign + point_numeral(self.rounded(places), places)
    }

    /// Positive zero.
    pub fn zero() -> (r: Binary64)
        ensures
            r.wf(),
            Some(r) == decode(0),
            !r.negative && r.mantissa == 0,
    {
        Binary64 { negative: false, mantissa: 0, exponent: SUBNORMAL_EXPONENT }
    }

    /// The value that a double's bit pattern encodes; `None` for an infinity
    /// or a NaN.
    pub fn from_bits(bits: u64) -> (r: Option<Binary64>)
        ensures
            r == decode(bits),
            r matches Some(v) ==> v.wf(),
    {
        let field = (bits / EXPONENT_UNIT) % EXPONENT_FIELD_END;
        let fraction = bits % EXPONENT_UNIT;
        if field == SPECIAL_EXPONENT {
            return None;
        }
        Some(
            Binary64 {
                negative: bits / SIGN_UNIT == 1,
                mantissa: if field == 0 {
                    fraction
                } else {
                    fraction + EXPONENT_UNIT
                },
                exponent: if field == 0 {
                    SUBNORMAL_EXPONENT
                } else {
                    field as i32 - EXPONENT_BIAS
                },
            },
        )
    }
}

pub proof fn lemma_pow2_positive(n: nat)
    ensures
        pow2(n) >= 1,
    decreases n,
{
    if n > 0 {
        lemma_pow2_positive((n - 1) as nat);
    }
}

pub proof fn lemma_pow2_monotone(a: nat, b: nat)
    requires
        a <= b,
    ensures
        pow2(a) <= pow2(b),
    decreases b,
{
    if a < b {
        lemma_pow2_monotone(a, (b - 1) as nat);
        lemma_pow2_positive((b - 1) as nat);
    }
}

pub proof fn lemma_pow2_add(a: nat, b: nat)
    ensures
        pow2(a + b) == pow2(a) * pow2(b),
    decreases b,
{
    if b > 0 {
        let c = (b - 1) as nat;
        lemma_pow2_add(a, c);
        assert(a + b == (a + c) + 1);
        assert(pow2(a + b) == 2 * pow2(a + c));
        assert(pow2(b) == 2 * pow2(c));
        assert(pow2(a) * pow2(b) == 2 * (pow2(a) * pow2(c))) by (nonlinear_arith)
            requires
                pow2(b) == 2 * pow2(c),
        ;
    } else {
        assert(pow2(0) == 1);
        assert(a + b == a);
    }
}

proof fn lemma_pow2_constants()
    ensures
        pow2(53) == 9007199254740992nat,
        pow2(113) == 10384593717069655257060992658440192nat,
        pow2(114) == 20769187434139310514121985316880384nat,
{
    reveal_with_fuel(pow2, 58);
    assert(pow2(57) == 144115188075855872nat);
    assert(pow2(56) == 72057594037927936nat);
    lemma_pow2_add(57, 57);
    lemma_pow2_add(57, 56);
    assert(pow2(53) == 9007199254740992nat);
}

/// `2^k` for the exponents whose power fits the rounding arithmetic.
fn pow2_exec(k: u32) -> (r: u128)
    requires
        k <= 113,
    ensures
        r as nat == pow2(k as nat),
{
    proof {
        lemma_pow2_constants();
    }
    let mut r: u128 = 1;
    let mut i: u32 = 0;
    while i < k
        invariant
            i <= k <= 113,
            r as nat == pow2(i as nat),
            pow2(113) == 10384593717069655257060992658440192nat,
        decreases k - i,
    {
        proof {
            lemma_pow2_monotone((i + 1) as nat, 113);
        }
        r = r * 2;
        i = i + 1;
    }
    r
}

pub proof fn lemma_digits_concat(a: Seq<u8>, b: Seq<u8>)
    ensures
        digits_value(a + b) == digits_value(a) + pow10(a.len()) * digits_value(b),
    decreases a.len(),
{
    if a.len() == 0 {
        assert(a + b =~= b);
        assert(pow10(0) == 1);
        assert(digits_value(a) == 0);
        assert(1 * digits_value(b) == digits_value(b));
    } else {
        let t = a.drop_first();
        lemma_digits_concat(t, b);
        assert((a + b).drop_first() =~= t + b);
        assert((a + b)[0] == a[0]);
        assert(pow10(a.len()) == 10 * pow10(t.len()));
        let x = digits_value(t);
        let y = digits_value(b);
        let p = pow10(t.len());
        assert(10 * (x + p * y) == 10 * x + (10 * p) * y) by (nonlinear_arith);
    }
}

pub proof fn lemma_single_digit(d: u8)
    ensures
        digits_value(seq![d]) == d,
{
    assert(seq![d].drop_first() =~= Seq::<u8>::empty());
    assert(digits_value(Seq::<u8>::empty()) == 0);
    assert(seq![d][0] == d);
}

pub proof fn lemma_normal_digits_positive(s: Seq<u8>)
    requires
        normal_digits(s),
    ensures
        digits_value(s) > 0,
    decreases s.len(),
{
    if s.len() > 1 {
        let t = s.drop_first();
        assert(t.last() == s.last());
        assert forall|j: int| 0 <= j < t.len() implies #[trigger] t[j] < 10 by {
            assert(t[j] == s[j + 1]);
        }
        lemma_normal_digits_positive(t);
    } else {
        assert(s.drop_first().len() == 0);
        assert(s[0] == s.last());
    }
}

pub proof fn lemma_low_digits_of_multiple(a: nat, k: nat)
    ensures
        low_digits(a * pow10(k), k) == low_digits(0, k),
    decreases k,
{
    if k > 0 {
        let n = a * pow10(k);
        let b = a * pow10((k - 1) as nat);
        assert(n == b * 10) by (nonlinear_arith)
            requires
                n == a * pow10(k),
                b == a * pow10((k - 1) as nat),
                pow10(k) == 10 * pow10((k - 1) as nat),
        ;
        assert(n / 10 == b && n % 10 == 0) by (nonlinear_arith)
            requires
                n == b * 10,
        ;
        lemma_low_digits_of_multiple(a, (k - 1) as nat);
    }
}

/// The digits of a positive integer, least significant first.
fn digits_of(n: u64) -> (r: Vec<u8>)
    requires
        n > 0,
    ensures
        normal_digits(r@),
        digits_value(r@) == n,
{
    let mut out: Vec<u8> = Vec::new();
    let mut cur = n;
    assert(digits_value(out@) == 0 && pow10(0) == 1);
    while cur > 0
        invariant
            all_digits(out@),
            digits_value(out@) + pow10(out@.len()) * cur == n,
            cur == 0 ==> out@.len() > 0 && out@.last() != 0,
            cur > 0 || out@.len() > 0,
        decreases cur,
    {
        let d = (cur % 10) as u8;
        let ghost old_out = out@;
        out.push(d);
        proof {
            lemma_digits_concat(old_out, seq![d]);
            lemma_single_digit(d);
            assert(out@ =~= old_out + seq![d]);
            let p = pow10(old_out.len());
            assert(p * d + (10 * p) * (cur / 10) == p * cur) by (nonlinear_arith)
                requires
                    d == cur % 10,
            ;
        }
        cur = cur / 10;
    }
    out
}

/// The digits of twice the number that `s` writes.
fn doubled(s: &Vec<u8>) -> (r: Vec<u8>)
    requires
        normal_digits(s@),
    ensures
        normal_digits(r@),
        digits_value(r@) == 2 * digits_value(s@),
{
    let mut out: Vec<u8> = Vec::new();
    let mut carry: u8 = 0;
    let mut i: usize = 0;
    let ghost mut prev: u8 = 0;
    while i < s.len()
        invariant
            i <= s@.len(),
            out@.len() == i,
            all_digits(s@),
            all_digits(out@),
            carry <= 1,
            digits_value(out@) + pow10(i as nat) * carry == 2 * digits_value(s@.take(i as int)),
            i > 0 ==> out@[i - 1] + 10 * carry == 2 * s@[i - 1] + prev,
        decreases s@.len() - i,
    {
        let x = 2 * s[i] + carry;
        let d = x % 10;
        let ghost p = pow10(i as nat);
        let ghost old_out = out@;
        proof {
            prev = carry;
        }
        out.push(d);
        proof {
            lemma_digits_concat(old_out, seq![d]);
            lemma_single_digit(d);
            assert(out@ =~= old_out + seq![d]);
            assert(s@.take(i + 1) =~= s@.take(i as int) + seq![s@[i as int]]);
            lemma_digits_concat(s@.take(i as int), seq![s@[i as int]]);
            lemma_single_digit(s@[i as int]);
            let si = s@[i as int] as int;
            let c = carry as int;
            let xx = x as int;
            let dd = d as int;
            let ci = (x / 10) as int;
            assert(dd + 10 * ci == xx);
            assert(xx == 2 * si + c);
            assert(p * dd + (10 * p) * ci == 2 * (p * si) + p * c) by (nonlinear_arith)
                requires
                    dd + 10 * ci == xx,
                    xx == 2 * si + c,
            ;
            assert(pow10((i + 1) as nat) == 10 * p);
            assert(digits_value(out@) == digits_value(old_out) + p * dd);
            assert(digits_value(s@.take(i + 1)) == digits_value(s@.take(i as int)) + p * si);
            assert(digits_value(out@) + (10 * p) * ci == 2 * digits_value(s@.take(i + 1)));
        }
        carry = x / 10;
        i = i + 1;
        assert(pow10(i as nat) == 10 * p);
        assert(pow10(i as nat) * carry == (10 * p) * carry);
    }
    assert(s@.take(i as int) =~= s@);
    assert(s@.len() > 0 && s@[i - 1] == s@.last());
    if carry > 0 {
        let ghost old_out = out@;
        out.push(carry);
        proof {
            lemma_digits_concat(old_out, seq![carry]);
            lemma_single_digit(carry);
            assert(out@ =~= old_out + seq![carry]);
        }
    } else {
        assert(out@.last() == out@[i - 1]);
    }
    out
}

/// Appends the numeral of the number that `s` writes from position `i` on.
fn append_digits(s: &Vec<u8>, i: usize, out: &mut String)
    requires
        i < s@.len(),
        normal_digits(s@),
    ensures
        final(out)@ == old(out)@ + numeral(digits_value(s@.skip(i as int))),
    decreases s@.len() - i,
{
    let ghost n = digits_value(s@.skip(i as int));
    let ghost rest = digits_value(s@.skip(i + 1));
    assert(s@.skip(i as int).drop_first() =~= s@.skip(i + 1));
    assert(s@.skip(i as int)[0] == s@[i as int]);
    assert(n == s@[i as int] + 10 * rest);
    if i < s.len() - 1 {
        proof {
            let t = s@.skip(i + 1);
            assert(t.last() == s@.last());
            assert forall|j: int| 0 <= j < t.len() implies #[trigger] t[j] < 10 by {
                assert(t[j] == s@[i + 1 + j]);
            }
            lemma_normal_digits_positive(t);
        }
        append_digits(s, i + 1, out);
    } else {
        assert(s@.skip(i + 1).len() == 0);
    }
    out.append(digit_str(s[i] as u128));
    proof {
        assert(n / 10 == rest && n % 10 == s@[i as int]);
        if i + 1 < s@.len() {
            assert(old(out)@ + numeral(n) =~= old(out)@ + numeral(rest) + seq![
                digit_char(s@[i as int] as nat),
            ]);
        }
    }
}

/// Appends `n / 10^places` written with exactly `places` fractional digits.
fn append_point_numeral(n: u128, places: u32, out: &mut String)
    requires
        places <= MAX_PLACES,
    ensures
        final(out)@ == old(out)@ + point_numeral(n as nat, places as nat),
{
    if places == 0 {
        append_numeral(n, out);
        assert(final(out)@ =~= old(out)@ + point_numeral(n as nat, 0));
    } else {
        let p = pow10_exec(places) as u128;
        append_numeral(n / p, out);
        proof {
            reveal_strlit(".");
        }
        out.append(".");
        append_low_digits(n, places, out);
        assert(out@ =~= old(out)@ + point_numeral(n as nat, places as nat));
    }
}

impl Binary64 {
    /// Renders the value with exactly `places` fractional digits, rounding
    /// its exact value half to even, as Rust's `{:.places}` does for a double.
    pub fn format_fixed(&self, places: u32) -> (r: String)
        requires
            self.wf(),
            places <= MAX_PLACES,
        ensures
            r@ == self.fixed_text(places as nat),
    {
        let mut out = String::new();
        if self.negative {
            proof {
                reveal_strlit("-");
            }
            out.append("-");
        }
        let ghost sign = out@;
        let ghost q = self.rounded(places as nat);
        if self.exponent >= 0 {
            if self.mantissa == 0 {
                assert(0 * pow2(self.exponent as nat) * pow10(places as nat) == 0);
                append_point_numeral(0, places, &mut out);
            } else {
                let mut d = digits_of(self.mantissa);
                let mut i: i32 = 0;
                assert(pow2(0) == 1);
                assert(self.mantissa * pow2(0) == self.mantissa);
                while i < self.exponent
                    invariant
                        0 <= i <= self.exponent,
                        normal_digits(d@),
                        digits_value(d@) == self.mantissa * pow2(i as nat),
                    decreases self.exponent - i,
                {
                    d = doubled(&d);
                    proof {
                        assert(2 * (self.mantissa * pow2(i as nat)) == self.mantissa * pow2(
                            (i + 1) as nat,
                        )) by (nonlinear_arith)
                            requires
                                pow2((i + 1) as nat) == 2 * pow2(i as nat),
                        ;
                    }
                    i = i + 1;
                }
                let ghost whole = digits_value(d@);
                assert(d@.skip(0) =~= d@);
                append_digits(&d, 0, &mut out);
                proof {
                    lemma_pow10_positive(places as nat);
                    assert(q == whole * pow10(places as nat));
                    assert(q / pow10(places as nat) == whole) by (nonlinear_arith)
                        requires
                            q == whole * pow10(places as nat),
                            pow10(places as nat) >= 1,
                    ;
                }
                if places > 0 {
                    proof {
                        reveal_strlit(".");
                        lemma_low_digits_of_multiple(whole, places as nat);
                    }
                    let ghost before = out@;
                    proof {
                        reveal_strlit(".");
                        assert("."@ == seq!['.']);
                    }
                    out.append(".");
                    append_low_digits(0, places, &mut out);
                    assert(before == sign + numeral(q / pow10(places as nat)));
                    assert(low_digits(q, places as nat) == low_digits(0, places as nat));
                    assert(out@ == before + "."@ + low_digits(0, places as nat));
                    proof {
                        reveal_strlit(".");
                    }
                    assert(out@ == sign + numeral(q / pow10(places as nat)) + seq!['.']
                        + low_digits(q, places as nat));
                    assert(point_numeral(q, places as nat) == numeral(q / pow10(places as nat))
                        + seq!['.'] + low_digits(q, places as nat));
                    let ghost a = numeral(q / pow10(places as nat));
                    let ghost l = low_digits(q, places as nat);
                    assert(sign + a + seq!['.'] + l =~= sign + (a + seq!['.'] + l));
                    assert(out@ =~= sign + point_numeral(q, places as nat));
                } else {
                    assert(pow10(0) == 1);
                    assert(q == whole * 1);
                    assert(q == whole);
                    assert(out@ =~= sign + point_numeral(q, places as nat));
                }
            }
        } else {
            let k = (-(self.exponent as i64)) as u32;
            let p = pow10_exec(places);
            let m = self.mantissa as u128;
            proof {
                lemma_pow2_constants();
            }
            assert(m * (p as u128) < 10384593717069655257060992658440192u128) by (nonlinear_arith)
                requires
                    m < 9007199254740992u128,
                    p <= 1000000000000000000u64,
            ;
            let num: u128 = m * (p as u128);
            if k >= 114 {
                proof {
                    lemma_pow2_monotone(114, k as nat);
                    let kk = pow2(k as nat);
                    let nn = num as nat;
                    assert(2 * nn < kk);
                    assert(nn / kk == 0 && nn % kk == nn) by (nonlinear_arith)
                        requires
                            nn < kk,
                    ;
                    assert(q == 0);
                }
                append_point_numeral(0, places, &mut out);
            } else {
                let kk = pow2_exec(k);
                proof {
                    lemma_pow2_positive(k as nat);
                    lemma_pow2_monotone(k as nat, 113);
                }
                let quotient = num / kk;
                let remainder = num % kk;
                let n = if 2 * remainder > kk || (2 * remainder == kk && quotient % 2 == 1) {
                    quotient + 1
                } else {
                    quotient
                };
                append_point_numeral(n, places, &mut out);
            }
        }
        out
    }
}

} // verus!
