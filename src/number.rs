use vstd::prelude::*;
use crate::duration::MAX_SPAN_MS;
use crate::error::{Error, Failure};
use crate::lexer::is_digit;
use crate::text::string_of;

verus! {

/// A non-negative decimal number: `mantissa / 10^scale`.
#[derive(Clone, Copy, Debug, PartialEq, Eq, Structural, Hash)]
pub struct Decimal {
    pub mantissa: u64,
    pub scale: u32,
}

pub open spec fn pow10(n: nat) -> nat
    decreases n,
{
    if n == 0 {
        1
    } else {
        10 * pow10((n - 1) as nat)
    }
}

pub open spec fn digit_val(c: char) -> nat {
    (c as int - '0' as int) as nat
}

pub open spec fn count_dots(s: Seq<char>) -> nat
    decreases s.len(),
{
    if s.len() == 0 {
        0
    } else {
        count_dots(s.drop_last()) + if s.last() == '.' { 1nat } else { 0nat }
    }
}

pub open spec fn count_digits(s: Seq<char>) -> nat
    decreases s.len(),
{
    if s.len() == 0 {
        0
    } else {
        count_digits(s.drop_last()) + if is_digit(s.last()) { 1nat } else { 0nat }
    }
}

/// Whether a text is a number: digits with at most one `.` and at least
/// one digit (`"1."` and `".5"` are numbers, `"."` and `"1.2.3"` are not).
pub open spec fn number_text_ok(s: Seq<char>) -> bool {
    &&& forall|i: int| 0 <= i < s.len() ==> is_digit(#[trigger] s[i]) || s[i] == '.'
    &&& count_dots(s) <= 1
    &&& count_digits(s) >= 1
}

/// The integer that the digits of a text spell, ignoring its dot.
pub open spec fn digits_value(s: Seq<char>) -> nat
    decreases s.len(),
{
    if s.len() == 0 {
        0
    } else if is_digit(s.last()) {
        10 * digits_value(s.drop_last()) + digit_val(s.last())
    } else {
        digits_value(s.drop_last())
    }
}

/// The number of digits after the dot of a text.
pub open spec fn frac_len(s: Seq<char>) -> nat
    decreases s.len(),
{
    if s.len() == 0 || s.last() == '.' {
        0
    } else if count_dots(s.drop_last()) > 0 {
        frac_len(s.drop_last()) + 1
    } else {
        0
    }
}

/// The decimal that a text of digits and dots spells.
pub open spec fn decimal_of(s: Seq<char>) -> Result<Decimal, Failure> {
    if !number_text_ok(s) {
        Err(Failure::InvalidNumber(s))
    } else if digits_value(s) > u64::MAX || frac_len(s) > u32::MAX {
        Err(Failure::Overflow)
    } else {
        Ok(Decimal { mantissa: digits_value(s) as u64, scale: frac_len(s) as u32 })
    }
}

/// The whole milliseconds in `d` units of `unit` milliseconds each, rounded down.
pub open spec fn scaled_ms(d: Decimal, unit: int) -> int {
    (d.mantissa as int * unit) / (pow10(d.scale as nat) as int)
}

/// Whether the decimal is a whole number.
pub open spec fn is_whole(d: Decimal) -> bool {
    (d.mantissa as int) % (pow10(d.scale as nat) as int) == 0
}

/// The whole part of the decimal.
pub open spec fn whole_of(d: Decimal) -> int {
    (d.mantissa as int) / (pow10(d.scale as nat) as int)
}

pub open spec fn digit_char(d: nat) -> char {
    (d + 48) as char
}

/// The decimal digits of `n`, without leading zeros.
pub open spec fn digits_text(n: nat) -> Seq<char>
    decreases n,
{
    if n < 10 {
        seq![digit_char(n)]
    } else {
        digits_text(n / 10).push(digit_char(n % 10))
    }
}

/// `k` zeros.
pub open spec fn zeros(k: nat) -> Seq<char> {
    Seq::new(k, |i: int| '0')
}

/// The decimal written out, with `scale` digits after its dot.
pub open spec fn decimal_text(d: Decimal) -> Seq<char> {
    let ds = digits_text(d.mantissa as nat);
    if d.scale == 0 {
        ds
    } else {
        let padded = if ds.len() <= d.scale {
            zeros((d.scale + 1 - ds.len()) as nat) + ds
        } else {
            ds
        };
        let cut = padded.len() - d.scale;
        padded.take(cut) + seq!['.'] + padded.skip(cut)
    }
}

pub proof fn lemma_pow10_mono(a: nat, b: nat)
    requires
        a <= b,
    ensures
        pow10(a) <= pow10(b),
        pow10(a) >= 1,
    decreases b,
{
    if a < b {
        lemma_pow10_mono(a, (b - 1) as nat);
    } else if a > 0 {
        lemma_pow10_mono((a - 1) as nat, (a - 1) as nat);
    }
}

pub proof fn lemma_pow10_values()
    ensures
        pow10(19) == 10_000_000_000_000_000_000,
        pow10(20) == 100_000_000_000_000_000_000,
        pow10(27) == 1_000_000_000_000_000_000_000_000_000,
        pow10(28) == 10_000_000_000_000_000_000_000_000_000,
{
    reveal_with_fuel(pow10, 29);
}

proof fn lemma_digits_prefix(s: Seq<char>, k: int)
    requires
        0 <= k <= s.len(),
    ensures
        digits_value(s.take(k)) <= digits_value(s),
    decreases s.len() - k,
{
    if k < s.len() {
        assert(s.take(k + 1).drop_last() == s.take(k));
        lemma_digits_prefix(s, k + 1);
    } else {
        assert(s.take(k) == s);
    }
}

/// `10^k` for a `k` of at most 27.
fn pow10_u128(k: u32) -> (r: u128)
    requires
        k <= 27,
    ensures
        r == pow10(k as nat),
{
    let mut p: u128 = 1;
    let mut i: u32 = 0;
    while i < k
        invariant
            i <= k <= 27,
            p == pow10(i as nat),
        decreases k - i,
    {
        proof {
            lemma_pow10_mono((i + 1) as nat, 27);
            lemma_pow10_values();
        }
        p = p * 10;
        i = i + 1;
    }
    p
}

impl Decimal {
    /// Reads a number made of digits and at most one dot.
    pub fn parse(s: &Vec<char>) -> (r: Result<Decimal, Error>)
        ensures
            res_view_decimal(r) == decimal_of(s@),
    {
        let n = s.len();
        let mut dots: usize = 0;
        let mut digits: usize = 0;
        let mut i: usize = 0;
        while i < n
            invariant
                n == s@.len(),
                i <= n,
                dots == count_dots(s@.take(i as int)),
                digits == count_digits(s@.take(i as int)),
                dots <= i,
                digits <= i,
                forall|j: int| 0 <= j < i ==> is_digit(#[trigger] s@[j]) || s@[j] == '.',
            decreases n - i,
        {
            assert(s@.take(i as int + 1).drop_last() == s@.take(i as int));
            let c = s[i];
            if c == '.' {
                dots = dots + 1;
            } else if '0' <= c && c <= '9' {
                digits = digits + 1;
            } else {
                assert(!number_text_ok(s@));
                return Err(Error::InvalidNumber(string_of(s)));
            }
            i = i + 1;
        }
        assert(s@.take(n as int) == s@);
        if dots > 1 || digits == 0 {
            return Err(Error::InvalidNumber(string_of(s)));
        }
        let mut m: u64 = 0;
        let mut sc: u64 = 0;
        let mut seen_dot = false;
        let mut k: usize = 0;
        while k < n
            invariant
                n == s@.len(),
                k <= n,
                number_text_ok(s@),
                m == digits_value(s@.take(k as int)),
                sc == frac_len(s@.take(k as int)),
                sc <= k,
                seen_dot == (count_dots(s@.take(k as int)) > 0),
            decreases n - k,
        {
            assert(s@.take(k as int + 1).drop_last() == s@.take(k as int));
            let c = s[k];
            if c == '.' {
                seen_dot = true;
                sc = 0;
            } else {
                let d = (c as u32 - '0' as u32) as u64;
                if m > (u64::MAX - d) / 10 {
                    proof {
                        lemma_digits_prefix(s@, k as int + 1);
                    }
                    return Err(Error::Overflow);
                }
                m = m * 10 + d;
                if seen_dot {
                    sc = sc + 1;
                }
            }
            k = k + 1;
        }
        assert(s@.take(n as int) == s@);
        if sc > u32::MAX as u64 {
            return Err(Error::Overflow);
        }
        Ok(Decimal { mantissa: m, scale: sc as u32 })
    }

    /// The whole milliseconds in this many units of `unit_ms` milliseconds,
    /// rounded down; `None` beyond the library's range of spans.
    pub fn scaled_ms(&self, unit_ms: i64) -> (r: Option<i64>)
        requires
            1 <= unit_ms <= 86_400_000,
        ensures
            r == (if scaled_ms(*self, unit_ms as int) <= MAX_SPAN_MS {
                Some(scaled_ms(*self, unit_ms as int) as i64)
            } else {
                None::<i64>
            }),
            scaled_ms(*self, unit_ms as int) >= 0,
    {
        proof {
            assert(self.mantissa as int * unit_ms as int <= 0xffff_ffff_ffff_ffff * 86_400_000) by (nonlinear_arith)
                requires
                    0 <= self.mantissa <= 0xffff_ffff_ffff_ffff,
                    1 <= unit_ms <= 86_400_000,
            ;
        }
        let prod: u128 = self.mantissa as u128 * unit_ms as u128;
        proof {
            lemma_pow10_values();
            lemma_pow10_mono(0, self.scale as nat);
            assert(prod <= 0xffff_ffff_ffff_ffff * 86_400_000) by (nonlinear_arith)
                requires
                    prod == self.mantissa * unit_ms,
                    self.mantissa <= 0xffff_ffff_ffff_ffff,
                    unit_ms <= 86_400_000,
            ;
        }
        let q: u128 = if self.scale >= 28 {
            proof {
                lemma_pow10_mono(28, self.scale as nat);
                assert((prod as int) / (pow10(self.scale as nat) as int) == 0) by (nonlinear_arith)
                    requires
                        0 <= prod < pow10(self.scale as nat),
                ;
            }
            0
        } else {
            prod / pow10_u128(self.scale)
        };
        if q > MAX_SPAN_MS as u128 {
            None
        } else {
            Some(q as i64)
        }
    }

    /// The whole number that this decimal is, if it is one.
    pub fn whole(&self) -> (r: Option<u64>)
        ensures
            r == (if is_whole(*self) {
                Some(whole_of(*self) as u64)
            } else {
                None::<u64>
            }),
            is_whole(*self) ==> whole_of(*self) <= self.mantissa,
            0 <= whole_of(*self),
    {
        proof {
            lemma_pow10_values();
            lemma_pow10_mono(0, self.scale as nat);
            let pp = pow10(self.scale as nat) as int;
            assert((self.mantissa as int) / pp >= 0) by (nonlinear_arith)
                requires
                    pp >= 1,
                    self.mantissa >= 0,
            ;
        }
        if self.scale >= 20 {
            proof {
                lemma_pow10_mono(20, self.scale as nat);
                let p = pow10(self.scale as nat) as int;
                assert((self.mantissa as int) % p == self.mantissa && (self.mantissa as int) / p == 0) by (
                nonlinear_arith)
                    requires
                        0 <= self.mantissa < p,
                ;
            }
            if self.mantissa == 0 {
                Some(0)
            } else {
                None
            }
        } else {
            let p = pow10_u128(self.scale) as u64;
            proof {
                lemma_pow10_mono(self.scale as nat, 19);
                let pp = pow10(self.scale as nat) as int;
                assert((self.mantissa as int) / pp <= self.mantissa) by (nonlinear_arith)
                    requires
                        pp >= 1,
                        self.mantissa >= 0,
                ;
            }
            if self.mantissa % p == 0 {
                Some(self.mantissa / p)
            } else {
                None
            }
        }
    }
}

impl Decimal {
    /// The decimal written out, with `scale` digits after its dot.
    pub fn render(&self) -> (r: Vec<char>)
        ensures
            r@ == decimal_text(*self),
    {
        let ds = digits_of(self.mantissa);
        if self.scale == 0 {
            return ds;
        }
        let sc = self.scale as usize;
        let mut padded: Vec<char> = Vec::new();
        if ds.len() <= sc {
            let z = sc - ds.len() + 1;
            let mut i: usize = 0;
            while i < z
                invariant
                    i <= z,
                    padded@ == zeros(i as nat),
                decreases z - i,
            {
                padded.push('0');
                i = i + 1;
                assert(padded@ =~= zeros(i as nat));
            }
        }
        let ghost pre = padded@;
        let mut j: usize = 0;
        while j < ds.len()
            invariant
                j <= ds@.len(),
                padded@ == pre + ds@.take(j as int),
            decreases ds@.len() - j,
        {
            padded.push(ds[j]);
            j = j + 1;
            assert(padded@ =~= pre + ds@.take(j as int));
        }
        assert(ds@.take(ds@.len() as int) == ds@);
        assert(ds@.len() >= 1) by {
            reveal_with_fuel(digits_text, 2);
            lemma_digits_nonempty(self.mantissa as nat);
        }
        let cut = padded.len() - sc;
        let mut out: Vec<char> = Vec::new();
        let mut k: usize = 0;
        while k < padded.len()
            invariant
                0 <= cut <= padded@.len(),
                k <= padded@.len(),
                out@ == (if k <= cut {
                    padded@.take(k as int)
                } else {
                    padded@.take(cut as int) + seq!['.'] + padded@.subrange(cut as int, k as int)
                }),
            decreases padded@.len() - k,
        {
            if k == cut {
                out.push('.');
            }
            out.push(padded[k]);
            k = k + 1;
            if k <= cut {
                assert(out@ =~= padded@.take(k as int));
            } else {
                assert(out@ =~= padded@.take(cut as int) + seq!['.'] + padded@.subrange(
                    cut as int,
                    k as int,
                ));
            }
        }
        if cut == padded.len() {
            out.push('.');
        }
        assert(out@ =~= decimal_text(*self));
        out
    }
}

pub proof fn lemma_digits_nonempty(n: nat)
    ensures
        digits_text(n).len() >= 1,
    decreases n,
{
    if n >= 10 {
        lemma_digits_nonempty(n / 10);
    }
}

/// The view of a decimal result.
pub open spec fn res_view_decimal(r: Result<Decimal, Error>) -> Result<Decimal, Failure> {
    match r {
        Ok(d) => Ok(d),
        Err(e) => Err(e@),
    }
}

/// Appends the decimal digits of `n` to `out`.
pub fn push_digits(n: u64, out: &mut Vec<char>)
    ensures
        final(out)@ == old(out)@ + digits_text(n as nat),
    decreases n,
{
    if n >= 10 {
        push_digits(n / 10, out);
    }
    let c = ((n % 10) as u8 + 48) as char;
    out.push(c);
    proof {
        if n < 10 {
            assert(old(out)@ + digits_text(n as nat) == old(out)@.push(c));
        } else {
            assert(old(out)@ + digits_text(n as nat) == (old(out)@ + digits_text(
                (n / 10) as nat,
            )).push(c));
        }
    }
}

/// The decimal digits of `n`.
pub fn digits_of(n: u64) -> (r: Vec<char>)
    ensures
        r@ == digits_text(n as nat),
{
    let mut out: Vec<char> = Vec::new();
    push_digits(n, &mut out);
    assert(out@ == Seq::<char>::empty() + digits_text(n as nat));
    assert(Seq::<char>::empty() + digits_text(n as nat) == digits_text(n as nat));
    out
}

} // verus!
