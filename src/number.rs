//! Exact decimal numbers, their parsing from markup text and their two textual forms:
//! fixed with two decimals, and the shortest form that keeps the value.
use vstd::prelude::*;
use vstd::string::*;

verus! {

/// Largest magnitude (exclusive) and largest scale a `Decimal` may carry: with them every
/// product the arithmetic here forms fits in 128 bits.
pub const MAGNITUDE_LIMIT: u64 = 1_000_000_000_000_000_000;
pub const SCALE_LIMIT: u32 = 38;

/// Largest exponent, in absolute value, that number text may carry.
pub const EXPONENT_LIMIT: u32 = 400;

/// The number `(-1)^negative * magnitude / 10^scale`, held exactly.
#[derive(Clone, Copy, Debug)]
pub struct Decimal {
    pub negative: bool,
    pub magnitude: u64,
    pub scale: u32,
}

pub open spec fn pow10(n: nat) -> nat
    decreases n,
{
    if n == 0 {
        1
    } else {
        10 * pow10((n - 1) as nat)
    }
}

pub proof fn lemma_pow10_positive(n: nat)
    ensures
        pow10(n) >= 1,
    decreases n,
{
    if n > 0 {
        lemma_pow10_positive((n - 1) as nat);
    }
}

pub proof fn lemma_pow10_monotone(a: nat, b: nat)
    requires
        a <= b,
    ensures
        pow10(a) <= pow10(b),
    decreases b,
{
    if a < b {
        lemma_pow10_monotone(a, (b - 1) as nat);
        lemma_pow10_positive((b - 1) as nat);
    }
}

pub proof fn lemma_pow10_18()
    ensures
        pow10(18) == 1_000_000_000_000_000_000,
{
    reveal_with_fuel(pow10, 19);
}

pub proof fn lemma_pow10_38()
    ensures
        pow10(38) == 100_000_000_000_000_000_000_000_000_000_000_000_000,
{
    reveal_with_fuel(pow10, 39);
}

pub proof fn lemma_pow10_add(a: nat, b: nat)
    ensures
        pow10(a + b) == pow10(a) * pow10(b),
    decreases b,
{
    if b > 0 {
        lemma_pow10_add(a, (b - 1) as nat);
        let x = pow10(a);
        let y = pow10((b - 1) as nat);
        assert(pow10(b) == 10 * y);
        assert((a + b - 1) as nat == a + (b - 1) as nat);
        assert(pow10(a + b) == 10 * pow10((a + b - 1) as nat));
        assert(pow10(a + (b - 1) as nat) == x * y);
        assert(x * (10 * y) == 10 * (x * y)) by (nonlinear_arith);
    } else {
        assert(pow10(0) == 1);
        assert(a + b == a);
    }
}

proof fn lemma_same_value_aligned(a: Decimal, b: Decimal)
    requires
        a.scale <= b.scale,
        a.negative == b.negative,
    ensures
        a.same_value(b) <==> (b.magnitude as int % pow10((b.scale - a.scale) as nat) as int == 0
            && b.magnitude as int / pow10((b.scale - a.scale) as nat) as int == a.magnitude as int),
{
    let d = (b.scale - a.scale) as nat;
    lemma_pow10_add(a.scale as nat, d);
    lemma_pow10_positive(a.scale as nat);
    lemma_pow10_positive(d);
    let p: int = pow10(a.scale as nat) as int;
    let q: int = pow10(d) as int;
    let ma = a.magnitude as int;
    let mb = b.magnitude as int;
    assert(pow10(b.scale as nat) as int == p * q);
    assert((ma * (p * q) == mb * p) <==> (ma * q == mb)) by (nonlinear_arith)
        requires p > 0;
    assert(((-ma) * (p * q) == (-mb) * p) <==> (ma * (p * q) == mb * p)) by (nonlinear_arith);
    assert((ma * q == mb) <==> (mb % q == 0 && mb / q == ma)) by (nonlinear_arith)
        requires q > 0, ma >= 0, mb >= 0;
}

impl Decimal {
    pub open spec fn wf(self) -> bool {
        self.magnitude < MAGNITUDE_LIMIT && self.scale <= SCALE_LIMIT
    }

    /// The signed numerator over `10^scale`.
    pub open spec fn numerator(self) -> int {
        if self.negative {
            -(self.magnitude as int)
        } else {
            self.magnitude as int
        }
    }

    /// Whether two decimals denote the same number.
    pub open spec fn same_value(self, other: Decimal) -> bool {
        self.numerator() * pow10(other.scale as nat) == other.numerator() * pow10(self.scale as nat)
    }

    /// Whether the decimal is within the limits.
    pub fn is_valid(&self) -> (r: bool)
        ensures
            r == self.wf(),
    {
        self.magnitude < MAGNITUDE_LIMIT && self.scale <= SCALE_LIMIT
    }

    /// The whole number `n` as a decimal.
    pub fn from_whole(n: u32) -> (r: Decimal)
        ensures
            r.wf(),
            !r.negative,
            r.magnitude == n,
            r.scale == 0,
    {
        Decimal { negative: false, magnitude: n as u64, scale: 0 }
    }

    /// Whether `self` and `other` denote the same number, whatever their scales.
    pub fn equals(&self, other: &Decimal) -> (r: bool)
        requires
            self.wf(),
            other.wf(),
        ensures
            r == self.same_value(*other),
    {
        if self.magnitude == 0 && other.magnitude == 0 {
            assert(self.numerator() == 0 && other.numerator() == 0);
            return true;
        }
        if self.negative != other.negative {
            proof {
                lemma_pow10_positive(self.scale as nat);
                lemma_pow10_positive(other.scale as nat);
                let (na, nb) = (self.numerator(), other.numerator());
                let (pa, pb) = (pow10(other.scale as nat) as int, pow10(self.scale as nat) as int);
                assert(na * pa != nb * pb) by (nonlinear_arith)
                    requires pa > 0, pb > 0, (na >= 0 && nb <= 0) || (na <= 0 && nb >= 0), na != 0 || nb != 0;
            }
            return false;
        }
        if self.scale <= other.scale {
            let p = pow10_exec(other.scale - self.scale);
            proof {
                lemma_same_value_aligned(*self, *other);
                lemma_pow10_positive((other.scale - self.scale) as nat);
            }
            (other.magnitude as u128) % p == 0 && (other.magnitude as u128) / p == self.magnitude as u128
        } else {
            let p = pow10_exec(self.scale - other.scale);
            proof {
                lemma_same_value_aligned(*other, *self);
                lemma_pow10_positive((self.scale - other.scale) as nat);
            }
            (self.magnitude as u128) % p == 0 && (self.magnitude as u128) / p == other.magnitude as u128
        }
    }
}

/// `10^n` for `n` no greater than the scale limit.
pub fn pow10_exec(n: u32) -> (r: u128)
    requires
        n <= SCALE_LIMIT,
    ensures
        r == pow10(n as nat),
{
    let mut r: u128 = 1;
    let mut i: u32 = 0;
    while i < n
        invariant
            i <= n,
            n <= SCALE_LIMIT,
            r == pow10(i as nat),
        decreases n - i,
    {
        proof {
            lemma_pow10_monotone((i + 1) as nat, 38);
            lemma_pow10_38();
        }
        r = r * 10;
        i = i + 1;
    }
    r
}

pub open spec fn is_digit(c: char) -> bool {
    '0' <= c && c <= '9'
}

pub open spec fn digit_value(c: char) -> nat {
    (c as int - '0' as int) as nat
}

pub open spec fn digit_char(d: nat) -> char {
    if d == 0 {
        '0'
    } else if d == 1 {
        '1'
    } else if d == 2 {
        '2'
    } else if d == 3 {
        '3'
    } else if d == 4 {
        '4'
    } else if d == 5 {
        '5'
    } else if d == 6 {
        '6'
    } else if d == 7 {
        '7'
    } else if d == 8 {
        '8'
    } else {
        '9'
    }
}

/// What a left-to-right reading of unsigned decimal text has found so far.
pub struct DecimalScan {
    pub valid: bool,
    pub dot: bool,
    pub digits: nat,
    pub value: nat,
    pub scale: nat,
}

/// Reads digits with at most one decimal point: `value` is the number formed by all
/// digits, `scale` the count of digits after the point.
pub open spec fn scan(u: Seq<char>) -> DecimalScan
    decreases u.len(),
{
    if u.len() == 0 {
        DecimalScan { valid: true, dot: false, digits: 0, value: 0, scale: 0 }
    } else {
        let p = scan(u.drop_last());
        let c = u.last();
        if is_digit(c) {
            DecimalScan {
                digits: p.digits + 1,
                value: p.value * 10 + digit_value(c),
                scale: if p.dot { p.scale + 1 } else { p.scale },
                ..p
            }
        } else if c == '.' && !p.dot {
            DecimalScan { dot: true, ..p }
        } else {
            DecimalScan { valid: false, ..p }
        }
    }
}

pub open spec fn sign_len(s: Seq<char>) -> int {
    if s.len() > 0 && (s[0] == '-' || s[0] == '+') {
        1
    } else {
        0
    }
}

/// The decimal that text such as `-12.50` denotes: an optional sign, then digits with at
/// most one point and at least one digit; `None` for other text or a number out of range.
pub open spec fn decimal_of(s: Seq<char>) -> Option<Decimal> {
    let sc = scan(s.skip(sign_len(s)));
    if sc.valid && sc.digits > 0 && sc.value < MAGNITUDE_LIMIT && sc.scale <= SCALE_LIMIT {
        Some(
            Decimal {
                negative: s.len() > 0 && s[0] == '-',
                magnitude: sc.value as u64,
                scale: sc.scale as u32,
            },
        )
    } else {
        None
    }
}

proof fn lemma_scan_prefix(u: Seq<char>, i: int)
    requires
        0 <= i <= u.len(),
    ensures
        scan(u).valid ==> scan(u.take(i)).valid,
        scan(u.take(i)).value <= scan(u).value,
        scan(u.take(i)).scale <= scan(u).scale,
    decreases u.len(),
{
    if i == u.len() {
        assert(u.take(i) =~= u);
    } else {
        lemma_scan_prefix(u.drop_last(), i);
        assert(u.drop_last().take(i) =~= u.take(i));
    }
}

/// Reads a decimal number from text; the counterpart of `decimal_of`.
pub fn parse_decimal(s: &str) -> (r: Option<Decimal>)
    ensures
        r == decimal_of(s@),
        r matches Some(d) ==> d.wf(),
{
    let n = s.unicode_len();
    let mut i: usize = 0;
    let mut negative = false;
    if n > 0 {
        let c = s.get_char(0);
        if c == '-' || c == '+' {
            negative = c == '-';
            i = 1;
        }
    }
    let start = i;
    let ghost u = s@.skip(start as int);
    assert(start == sign_len(s@));
    let mut dot = false;
    let mut any_digit = false;
    let mut value: u64 = 0;
    let mut scale: u32 = 0;
    while i < n
        invariant
            n == s@.len(),
            start <= i <= n,
            start == sign_len(s@),
            u == s@.skip(start as int),
            negative == (s@.len() > 0 && s@[0] == '-'),
            scan(u.take(i - start)).valid,
            scan(u.take(i - start)).dot == dot,
            (scan(u.take(i - start)).digits > 0) == any_digit,
            scan(u.take(i - start)).value == value,
            scan(u.take(i - start)).scale == scale,
            value < MAGNITUDE_LIMIT,
            scale <= SCALE_LIMIT,
        decreases n - i,
    {
        let c = s.get_char(i);
        let ghost k = i - start;
        assert(u.take(k + 1).drop_last() =~= u.take(k));
        assert(u.take(k + 1).last() == c);
        if '0' <= c && c <= '9' {
            let d = (c as u32 - '0' as u32) as u64;
            value = value * 10 + d;
            any_digit = true;
            if dot {
                if scale == SCALE_LIMIT {
                    proof { lemma_scan_prefix(u, k + 1); }
                    return None;
                }
                scale = scale + 1;
            }
            if value >= MAGNITUDE_LIMIT {
                proof { lemma_scan_prefix(u, k + 1); }
                return None;
            }
        } else if c == '.' && !dot {
            dot = true;
        } else {
            proof { lemma_scan_prefix(u, k + 1); }
            return None;
        }
        i = i + 1;
    }
    assert(u.take(n - start) =~= u);
    if any_digit {
        Some(Decimal { negative, magnitude: value, scale })
    } else {
        None
    }
}

/// Decimal digits of `n`, most significant first, without leading zeros.
pub open spec fn nat_text(n: nat) -> Seq<char>
    decreases n,
{
    if n < 10 {
        seq![digit_char(n)]
    } else {
        nat_text(n / 10).push(digit_char(n % 10))
    }
}

/// The last `k` decimal digits of `n`, zero-padded.
pub open spec fn padded_text(n: nat, k: nat) -> Seq<char>
    decreases k,
{
    if k == 0 {
        seq![]
    } else {
        padded_text(n / 10, (k - 1) as nat).push(digit_char(n % 10))
    }
}

/// The magnitude of `d` in hundredths, rounded to nearest. A value exactly halfway
/// between two hundredths goes the way the double nearest it lies (`tie_side`), and to the
/// even hundredth where that double is the halfway value itself.
pub open spec fn hundredths(d: Decimal) -> nat {
    if d.scale <= 2 {
        d.magnitude as nat * pow10((2 - d.scale) as nat)
    } else {
        let p = pow10((d.scale - 2) as nat);
        let q = d.magnitude as nat / p;
        let rem = d.magnitude as nat % p;
        if 2 * rem != p {
            if 2 * rem > p { q + 1 } else { q }
        } else {
            let side = tie_side(2 * q + 1);
            if side > 0 || (side == 0 && q % 2 == 1) { q + 1 } else { q }
        }
    }
}

/// `d` with exactly two digits after the point, e.g. `3.00`, `-0.25`, `-0.00`.
pub open spec fn fixed2_text(d: Decimal) -> Seq<char> {
    let h = hundredths(d);
    let sign: Seq<char> = if d.negative { seq!['-'] } else { seq![] };
    sign + nat_text(h / 100) + seq!['.'] + padded_text(h % 100, 2)
}

pub open spec fn pow2(n: nat) -> nat
    decreases n,
{
    if n == 0 {
        1
    } else {
        2 * pow2((n - 1) as nat)
    }
}

/// `2^52 * 200`: a tie `n / 200` scaled by `2^e` into `[2^52, 2^53)` has its scaled
/// numerator `n * 2^e` in `[TIE_LOW, 2 * TIE_LOW)`.
pub const TIE_LOW: u64 = 900_719_925_474_099_200;

/// The least `e`, searching upwards from `e`, that brings `n * 2^e` to at least `TIE_LOW`.
pub open spec fn tie_shift(n: nat, e: nat) -> nat
    decreases 64 - e,
{
    if e >= 64 || n * pow2(e) >= TIE_LOW {
        e
    } else {
        tie_shift(n, e + 1)
    }
}

/// Where the double nearest the number `n / 200` lies from it: `1` above, `-1` below, `0`
/// on it. The double's 53-bit significand is `n * 2^e / 200` rounded to nearest, ties to
/// even.
pub open spec fn tie_side(n: nat) -> int {
    let v = n * pow2(tie_shift(n, 0));
    let q = v / 200;
    let r = v % 200;
    if r == 0 {
        0
    } else if 2 * r > 200 || (2 * r == 200 && q % 2 == 1) {
        1
    } else {
        -1
    }
}

/// Computes `tie_side(n)` for `n` below `2 * 10^18`.
fn tie_side_exec(n: u128) -> (r: i8)
    requires
        1 <= n < 2_000_000_000_000_000_000,
    ensures
        r as int == tie_side(n as nat),
{
    let mut v: u128 = n;
    let mut e: u32 = 0;
    assert(pow2(0) == 1);
    while e < 64 && v < TIE_LOW as u128
        invariant
            e <= 64,
            1 <= n < 2_000_000_000_000_000_000,
            v == n * pow2(e as nat),
            v < 2_000_000_000_000_000_000,
            tie_shift(n as nat, e as nat) == tie_shift(n as nat, 0),
        decreases 64 - e,
    {
        proof {
            let x = pow2(e as nat);
            assert(pow2((e + 1) as nat) == 2 * x);
            assert(n * (2 * x) == 2 * (n * x)) by (nonlinear_arith);
        }
        v = v * 2;
        e = e + 1;
    }
    assert(tie_shift(n as nat, e as nat) == e);
    let q = v / 200;
    let r = v % 200;
    if r == 0 {
        0
    } else if 2 * r > 200 || (2 * r == 200 && q % 2 == 1) {
        1
    } else {
        -1
    }
}

/// `magnitude / 10^scale` with trailing zeros after the point removed.
pub open spec fn trimmed(m: nat, s: nat) -> (nat, nat)
    decreases s,
{
    if s > 0 && m % 10 == 0 {
        trimmed(m / 10, (s - 1) as nat)
    } else {
        (m, s)
    }
}

/// The shortest text that keeps the value of `d`: `24`, `0.5`, `-1.25`, `-0`.
pub open spec fn plain_text(d: Decimal) -> Seq<char> {
    let (m, s) = trimmed(d.magnitude as nat, d.scale as nat);
    let sign: Seq<char> = if d.negative { seq!['-'] } else { seq![] };
    let fraction: Seq<char> = if s > 0 { seq!['.'] + padded_text(m % pow10(s), s) } else { seq![] };
    sign + nat_text(m / pow10(s)) + fraction
}

proof fn lemma_digit_char(d: nat)
    ensures
        is_digit(digit_char(d)),
{
}

proof fn lemma_nat_text_digits(n: nat)
    ensures
        forall|i: int| 0 <= i < nat_text(n).len() ==> is_digit(#[trigger] nat_text(n)[i]),
    decreases n,
{
    lemma_digit_char(n % 10);
    lemma_digit_char(n);
    if n >= 10 {
        lemma_nat_text_digits(n / 10);
        let t = nat_text(n / 10).push(digit_char(n % 10));
        assert(nat_text(n) == t);
        assert forall|i: int| 0 <= i < t.len() implies is_digit(#[trigger] t[i]) by {
            if i < t.len() - 1 {
                assert(t[i] == nat_text(n / 10)[i]);
            }
        }
    } else {
        assert(nat_text(n) == seq![digit_char(n)]);
    }
}

proof fn lemma_padded_text_digits(n: nat, k: nat)
    ensures
        forall|i: int| 0 <= i < padded_text(n, k).len() ==> is_digit(#[trigger] padded_text(n, k)[i]),
    decreases k,
{
    if k > 0 {
        lemma_digit_char(n % 10);
        lemma_padded_text_digits(n / 10, (k - 1) as nat);
        let t = padded_text(n / 10, (k - 1) as nat).push(digit_char(n % 10));
        assert(padded_text(n, k) == t);
        assert forall|i: int| 0 <= i < t.len() implies is_digit(#[trigger] t[i]) by {
            if i < t.len() - 1 {
                assert(t[i] == padded_text(n / 10, (k - 1) as nat)[i]);
            }
        }
    } else {
        assert(padded_text(n, k) == Seq::<char>::empty());
    }
}

/// The shortest text of a number holds no letter `x`.
pub proof fn lemma_plain_text_has_no_x(d: Decimal)
    ensures
        forall|i: int| 0 <= i < plain_text(d).len() ==> #[trigger] plain_text(d)[i] != 'x',
{
    let (m, s) = trimmed(d.magnitude as nat, d.scale as nat);
    lemma_nat_text_digits(m / pow10(s));
    lemma_padded_text_digits(m % pow10(s), s);
    let sign: Seq<char> = if d.negative { seq!['-'] } else { seq![] };
    let whole = nat_text(m / pow10(s));
    let fraction: Seq<char> = if s > 0 { seq!['.'] + padded_text(m % pow10(s), s) } else { seq![] };
    assert(plain_text(d) == sign + whole + fraction);
    assert forall|i: int| 0 <= i < plain_text(d).len() implies #[trigger] plain_text(d)[i] != 'x' by {
        let t = plain_text(d);
        if i < sign.len() {
            assert(t[i] == sign[i]);
        } else if i < sign.len() + whole.len() {
            assert(t[i] == whole[i - sign.len()]);
        } else if s > 0 {
            let j = i - sign.len() - whole.len();
            assert(t[i] == fraction[j]);
            if j > 0 {
                assert(fraction[j] == padded_text(m % pow10(s), s)[j - 1]);
            }
        }
    }
}

fn digit_str(d: u128) -> (r: &'static str)
    requires
        d < 10,
    ensures
        r@ == seq![digit_char(d as nat)],
{
    if d == 0 {
        proof { reveal_strlit("0"); }
        "0"
    } else if d == 1 {
        proof { reveal_strlit("1"); }
        "1"
    } else if d == 2 {
        proof { reveal_strlit("2"); }
        "2"
    } else if d == 3 {
        proof { reveal_strlit("3"); }
        "3"
    } else if d == 4 {
        proof { reveal_strlit("4"); }
        "4"
    } else if d == 5 {
        proof { reveal_strlit("5"); }
        "5"
    } else if d == 6 {
        proof { reveal_strlit("6"); }
        "6"
    } else if d == 7 {
        proof { reveal_strlit("7"); }
        "7"
    } else if d == 8 {
        proof { reveal_strlit("8"); }
        "8"
    } else {
        proof { reveal_strlit("9"); }
        "9"
    }
}

/// Appends the decimal digits of `n`.
pub fn push_nat(out: &mut String, n: u128)
    ensures
        final(out)@ == old(out)@ + nat_text(n as nat),
    decreases n,
{
    if n >= 10 {
        push_nat(out, n / 10);
        out.append(digit_str(n % 10));
        assert(nat_text(n as nat) == nat_text((n / 10) as nat).push(digit_char((n % 10) as nat)));
        assert(final(out)@ =~= old(out)@ + nat_text(n as nat));
    } else {
        out.append(digit_str(n));
    }
}

/// Appends the last `k` digits of `n`, zero-padded.
pub fn push_padded(out: &mut String, n: u128, k: u32)
    ensures
        final(out)@ == old(out)@ + padded_text(n as nat, k as nat),
    decreases k,
{
    if k > 0 {
        push_padded(out, n / 10, k - 1);
        out.append(digit_str(n % 10));
        assert(final(out)@ =~= old(out)@ + padded_text(n as nat, k as nat));
    } else {
        assert(final(out)@ =~= old(out)@ + padded_text(n as nat, k as nat));
    }
}

/// Appends `d` with exactly two digits after the point.
pub fn push_fixed2(out: &mut String, d: &Decimal)
    requires
        d.wf(),
    ensures
        final(out)@ == old(out)@ + fixed2_text(*d),
{
    let m = d.magnitude as u128;
    proof {
        lemma_pow10_18();
    }
    let h: u128 = if d.scale <= 2 {
        let f = pow10_exec(2 - d.scale);
        proof {
            lemma_pow10_monotone((2 - d.scale) as nat, 2);
            reveal_with_fuel(pow10, 3);
            assert(m * f <= 1_000_000_000_000_000_000 * 100) by (nonlinear_arith)
                requires m < 1_000_000_000_000_000_000, f <= 100;
        }
        m * f
    } else {
        let p = pow10_exec(d.scale - 2);
        proof {
            lemma_pow10_positive((d.scale - 2) as nat);
            lemma_pow10_monotone((d.scale - 2) as nat, 38);
            lemma_pow10_38();
        }
        let q = m / p;
        let rem = m % p;
        if 2 * rem != p {
            if 2 * rem > p { q + 1 } else { q }
        } else {
            proof {
                lemma_pow10_18();
                assert(q <= m) by (nonlinear_arith) requires p >= 1, q == m / p, m >= 0;
            }
            let side = tie_side_exec(2 * q + 1);
            if side > 0 || (side == 0 && q % 2 == 1) { q + 1 } else { q }
        }
    };
    assert(h == hundredths(*d));
    let ghost before = out@;
    if d.negative {
        out.append("-");
    }
    push_nat(out, h / 100);
    out.append(".");
    push_padded(out, h % 100, 2);
    proof {
        reveal_strlit("-");
        reveal_strlit(".");
        assert(out@ =~= before + fixed2_text(*d));
    }
}

fn trim_zeros(m: u64, s: u32) -> (r: (u64, u32))
    ensures
        (r.0 as nat, r.1 as nat) == trimmed(m as nat, s as nat),
        r.0 <= m,
        r.1 <= s,
    decreases s,
{
    if s > 0 && m % 10 == 0 {
        trim_zeros(m / 10, s - 1)
    } else {
        (m, s)
    }
}

/// Appends the shortest text that keeps the value of `d`.
pub fn push_plain(out: &mut String, d: &Decimal)
    requires
        d.wf(),
    ensures
        final(out)@ == old(out)@ + plain_text(*d),
{
    let (m, s) = trim_zeros(d.magnitude, d.scale);
    let p = pow10_exec(s);
    proof {
        lemma_pow10_positive(s as nat);
    }
    let ghost before = out@;
    if d.negative {
        out.append("-");
    }
    push_nat(out, (m as u128) / p);
    if s > 0 {
        out.append(".");
        push_padded(out, (m as u128) % p, s);
    }
    proof {
        reveal_strlit("-");
        reveal_strlit(".");
        assert(out@ =~= before + plain_text(*d));
    }
}

/// The whole number that ASCII digit text denotes.
pub open spec fn digits_value(d: Seq<char>) -> nat
    decreases d.len(),
{
    if d.len() == 0 {
        0
    } else {
        digits_value(d.drop_last()) * 10 + digit_value(d.last())
    }
}

/// The size a size text denotes: nonempty ASCII digits whose value fits in 32 bits.
pub open spec fn size_of_digits(d: Seq<char>) -> Option<u32> {
    if d.len() > 0 && (forall|i: int| 0 <= i < d.len() ==> is_digit(#[trigger] d[i])) && digits_value(d)
        <= u32::MAX {
        Some(digits_value(d) as u32)
    } else {
        None
    }
}

proof fn lemma_digits_value_prefix(d: Seq<char>, i: int)
    requires
        0 <= i <= d.len(),
    ensures
        digits_value(d.take(i)) <= digits_value(d),
    decreases d.len(),
{
    if i < d.len() {
        lemma_digits_value_prefix(d.drop_last(), i);
        assert(d.drop_last().take(i) =~= d.take(i));
    } else {
        assert(d.take(i) =~= d);
    }
}

/// Reads a size from its digits.
pub fn parse_size(d: &str) -> (r: Option<u32>)
    ensures
        r == size_of_digits(d@),
{
    let n = d.unicode_len();
    if n == 0 {
        return None;
    }
    let mut value: u64 = 0;
    let mut i: usize = 0;
    while i < n
        invariant
            n == d@.len(),
            i <= n,
            value == digits_value(d@.take(i as int)),
            value <= u32::MAX,
            forall|j: int| 0 <= j < i ==> is_digit(#[trigger] d@[j]),
        decreases n - i,
    {
        let c = d.get_char(i);
        assert(d@.take(i + 1).drop_last() =~= d@.take(i as int));
        if !('0' <= c && c <= '9') {
            return None;
        }
        value = value * 10 + (c as u32 - '0' as u32) as u64;
        if value > 0xFFFF_FFFF {
            proof { lemma_digits_value_prefix(d@, i + 1); }
            return None;
        }
        i = i + 1;
    }
    assert(d@.take(n as int) =~= d@);
    Some(value as u32)
}

pub open spec fn is_exponent_mark(c: char) -> bool {
    c == 'e' || c == 'E'
}

/// Whether `k` is the position of the first exponent mark of `s`.
pub open spec fn first_exponent_mark(s: Seq<char>, k: int) -> bool {
    0 <= k < s.len() && is_exponent_mark(s[k]) && forall|j: int| 0 <= j < k ==> !is_exponent_mark(#[trigger] s[j])
}

/// The exponent that text such as `-3` denotes: an optional sign and digits, up to the
/// largest exponent a decimal can take part in.
pub open spec fn exponent_of(t: Seq<char>) -> Option<int> {
    match size_of_digits(t.skip(sign_len(t))) {
        Some(v) => if v <= EXPONENT_LIMIT {
            Some(if t.len() > 0 && t[0] == '-' { -(v as int) } else { v as int })
        } else {
            None
        },
        None => None,
    }
}

/// `d` times `10^e`, if that is within the limits.
pub open spec fn scaled(d: Decimal, e: int) -> Option<Decimal> {
    if e <= d.scale {
        if d.scale - e <= SCALE_LIMIT {
            Some(Decimal { negative: d.negative, magnitude: d.magnitude, scale: (d.scale - e) as u32 })
        } else {
            None
        }
    } else {
        let m = d.magnitude * pow10((e - d.scale) as nat);
        if m < MAGNITUDE_LIMIT {
            Some(Decimal { negative: d.negative, magnitude: m as u64, scale: 0 })
        } else {
            None
        }
    }
}

/// The decimal that number text denotes: plain decimal text such as `-12.50`, optionally
/// followed by an exponent such as `e-3` or `E5`.
pub open spec fn number_of(s: Seq<char>) -> Option<Decimal> {
    if exists|k: int| first_exponent_mark(s, k) {
        let k = choose|k: int| first_exponent_mark(s, k);
        match (decimal_of(s.take(k)), exponent_of(s.skip(k + 1))) {
            (Some(d), Some(e)) => scaled(d, e),
            _ => None,
        }
    } else {
        decimal_of(s)
    }
}

/// Reads a number, with or without exponent; the counterpart of `number_of`.
pub fn parse_number(s: &str) -> (r: Option<Decimal>)
    ensures
        r == number_of(s@),
        r matches Some(d) ==> d.wf(),
{
    let n = s.unicode_len();
    let mut k: usize = 0;
    while k < n
        invariant
            n == s@.len(),
            k <= n,
            forall|j: int| 0 <= j < k ==> !is_exponent_mark(#[trigger] s@[j]),
        ensures
            k <= n,
            forall|j: int| 0 <= j < k ==> !is_exponent_mark(#[trigger] s@[j]),
            k < n ==> is_exponent_mark(s@[k as int]),
        decreases n - k,
    {
        let c = s.get_char(k);
        if c == 'e' || c == 'E' {
            break;
        }
        k = k + 1;
    }
    if k == n {
        assert(!exists|k: int| first_exponent_mark(s@, k));
        return parse_decimal(s);
    }
    assert(is_exponent_mark(s@[k as int]));
    assert(first_exponent_mark(s@, k as int));
    let ghost kk = choose|k: int| first_exponent_mark(s@, k);
    assert(kk == k) by {
        if kk < k {
            assert(!is_exponent_mark(s@[kk]));
        }
        if kk > k {
            assert(!is_exponent_mark(s@[k as int]));
        }
    }
    let mantissa = s.substring_char(0, k);
    let exponent = s.substring_char(k + 1, n);
    assert(mantissa@ =~= s@.take(k as int));
    assert(exponent@ =~= s@.skip(k + 1));
    let d = match parse_decimal(mantissa) {
        Some(d) => d,
        None => return None,
    };
    let en = exponent.unicode_len();
    let mut start: usize = 0;
    let mut negative = false;
    if en > 0 {
        let c = exponent.get_char(0);
        if c == '-' || c == '+' {
            negative = c == '-';
            start = 1;
        }
    }
    let digits = exponent.substring_char(start, en);
    assert(digits@ =~= exponent@.skip(sign_len(exponent@)));
    let v = match parse_size(digits) {
        Some(v) => v,
        None => return None,
    };
    if v > EXPONENT_LIMIT {
        return None;
    }
    let ghost e: int = if negative { -(v as int) } else { v as int };
    assert(exponent_of(exponent@) == Some(e));
    if negative || v <= d.scale {
        let scale: u64 = if negative { d.scale as u64 + v as u64 } else { (d.scale - v) as u64 };
        if scale > SCALE_LIMIT as u64 {
            return None;
        }
        Some(Decimal { negative: d.negative, magnitude: d.magnitude, scale: scale as u32 })
    } else {
        let k2 = v - d.scale;
        if d.magnitude == 0 {
            assert(0 * pow10(k2 as nat) == 0);
            return Some(Decimal { negative: d.negative, magnitude: 0, scale: 0 });
        }
        if k2 > 18 {
            proof {
                lemma_pow10_monotone(19, k2 as nat);
                reveal_with_fuel(pow10, 20);
                let m = d.magnitude as int;
                let p = pow10(k2 as nat) as int;
                assert(m * p >= p) by (nonlinear_arith)
                    requires m >= 1, p >= 0;
            }
            return None;
        }
        let p = pow10_exec(k2);
        proof {
            lemma_pow10_monotone(k2 as nat, 18);
            lemma_pow10_18();
            let m = d.magnitude as int;
            assert(m * p <= 1_000_000_000_000_000_000 * 1_000_000_000_000_000_000) by (nonlinear_arith)
                requires m < 1_000_000_000_000_000_000, 0 <= p <= 1_000_000_000_000_000_000;
        }
        let m = (d.magnitude as u128) * p;
        if m >= MAGNITUDE_LIMIT as u128 {
            return None;
        }
        Some(Decimal { negative: d.negative, magnitude: m as u64, scale: 0 })
    }
}

} // verus!
