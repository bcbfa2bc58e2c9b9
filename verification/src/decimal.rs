//! Exact decimal numbers: the values of times and percentages.

use vstd::prelude::*;
use vstd::string::StringExecFns;
use crate::digits::{
    all_digits, append_digits, digit_char, digit_str, digits_text, digits_value, increment,
    is_numeral, lemma_nat_digits_numeral, lemma_nat_digits_of_value, lemma_trailing_digit,
    lemma_value_bound, lemma_value_concat, lemma_value_push, lemma_value_single, nat_digits,
    pow10, push_nat_digits, text_digits,
};
use crate::text::{chars_of, is_digit, run_end, scan_run, CharClass};

verus! {

/// A decimal numeral: a sign, the digits before the point and the digits after it.
pub struct Numeral {
    /// Whether a minus sign stands in front.
    pub negative: bool,
    /// The digits of the whole part, most significant first.
    pub whole: Seq<u8>,
    /// The digits of the fraction, in the order in which they are written.
    pub frac: Seq<u8>,
}

impl Numeral {
    /// Whether this is the one way of writing its value: a whole part without
    /// leading zeros and a fraction without trailing zeros.
    pub open spec fn canonical(self) -> bool {
        &&& is_numeral(self.whole)
        &&& all_digits(self.frac)
        &&& self.frac.len() > 0 ==> self.frac.last() != 0
    }

    /// The number of digits after the point.
    pub open spec fn scale(self) -> nat {
        self.frac.len()
    }

    /// The magnitude, counted in units of ten to the power of minus `scale()`.
    pub open spec fn mantissa(self) -> nat {
        digits_value(self.whole + self.frac)
    }

    /// The sign as it is written: a minus or nothing.
    pub open spec fn sign_text(self) -> Seq<char> {
        if self.negative {
            seq!['-']
        } else {
            Seq::empty()
        }
    }

    /// The numeral written out: the sign, the whole part and, where the fraction
    /// is not empty, a point and the fraction.
    pub open spec fn text(self) -> Seq<char> {
        if self.frac.len() > 0 {
            self.sign_text() + digits_text(self.whole) + seq!['.'] + digits_text(self.frac)
        } else {
            self.sign_text() + digits_text(self.whole)
        }
    }

    /// The magnitude in hundredths, rounded to the nearest; a value half way
    /// between two hundredths goes to the even one.
    pub open spec fn hundredths(self) -> nat {
        let m = self.mantissa();
        let s = self.scale();
        if s <= 2 {
            m * pow10((2 - s) as nat)
        } else {
            let p = pow10((s - 2) as nat);
            let q = m / p;
            let r = m % p;
            if 2 * r > p || (2 * r == p && q % 2 == 1) {
                q + 1
            } else {
                q
            }
        }
    }

    /// The value written with exactly two digits after the point.
    pub open spec fn text_fixed2(self) -> Seq<char> {
        let h = self.hundredths();
        self.sign_text() + digits_text(nat_digits(h / 100)) + seq![
            '.',
            digit_char((h / 10 % 10) as u8),
            digit_char((h % 10) as u8),
        ]
    }

    /// The value rounded to hundredths, as a canonical numeral: what
    /// `text_fixed2` writes.
    pub open spec fn rounded2(self) -> Numeral {
        let h = self.hundredths();
        Numeral {
            negative: self.negative,
            whole: nat_digits(h / 100),
            frac: trim_trailing(seq![(h / 10 % 10) as u8, (h % 10) as u8]),
        }
    }

    /// The numeral of the whole number `n`.
    pub open spec fn of_int(n: int) -> Numeral {
        Numeral {
            negative: n < 0,
            whole: nat_digits(if n < 0 { (-n) as nat } else { n as nat }),
            frac: Seq::empty(),
        }
    }
}

/// A number that leaves a remainder below the divisor, taken apart.
proof fn lemma_div_mod(m: nat, p: nat, q: nat, r: nat)
    requires
        m == q * p + r,
        r < p,
    ensures
        m / p == q,
        m % p == r,
{
    vstd::arithmetic::div_mod::lemma_fundamental_div_mod_converse(
        m as int,
        p as int,
        q as int,
        r as int,
    );
}

/// The digits `ds` without their leading zeros; where nothing else is left, a
/// single zero.
pub open spec fn trim_leading(ds: Seq<u8>) -> Seq<u8>
    decreases ds.len(),
{
    if ds.len() == 0 {
        seq![0u8]
    } else if ds.len() > 1 && ds[0] == 0 {
        trim_leading(ds.drop_first())
    } else {
        ds
    }
}

/// The digits `ds` without their trailing zeros.
pub open spec fn trim_trailing(ds: Seq<u8>) -> Seq<u8>
    decreases ds.len(),
{
    if ds.len() > 0 && ds.last() == 0 {
        trim_trailing(ds.drop_last())
    } else {
        ds
    }
}

/// Whether a sign stands at the front of `t`.
pub open spec fn has_sign(t: Seq<char>) -> bool {
    t.len() > 0 && (t[0] == '-' || t[0] == '+')
}

/// The number that `t` writes, if it writes one: an optional sign, then digits
/// with at most one point among them, before them or behind them, and at least
/// one digit. Leading zeros of the whole part and trailing zeros of the
/// fraction do not count.
pub open spec fn numeral_of_text(t: Seq<char>) -> Option<Numeral> {
    let start: int = if has_sign(t) { 1 } else { 0 };
    let p = run_end(t, start, CharClass::Digit);
    let pointed = p < t.len() && t[p] == '.';
    let q = if pointed { run_end(t, p + 1, CharClass::Digit) } else { p };
    if q == t.len() && (p > start || q > p + 1) {
        Some(
            Numeral {
                negative: t[0] == '-',
                whole: trim_leading(text_digits(t.subrange(start, p))),
                frac: if pointed {
                    trim_trailing(text_digits(t.subrange(p + 1, q)))
                } else {
                    Seq::empty()
                },
            },
        )
    } else {
        None
    }
}

/// The digits that the characters of `t` from `a` up to `b` write.
fn digits_between(t: &Vec<char>, a: usize, b: usize) -> (ds: Vec<u8>)
    requires
        a <= b <= t.len(),
        forall|i: int| a <= i < b ==> is_digit(#[trigger] t@[i]),
    ensures
        ds@ == text_digits(t@.subrange(a as int, b as int)),
        all_digits(ds@),
{
    let mut ds: Vec<u8> = Vec::new();
    let mut i: usize = a;
    while i < b
        invariant
            a <= i <= b <= t.len(),
            forall|k: int| a <= k < b ==> is_digit(#[trigger] t@[k]),
            ds@ == text_digits(t@.subrange(a as int, i as int)),
            all_digits(ds@),
        decreases b - i,
    {
        let c: char = t[i];
        assert(is_digit(t@[i as int]));
        let d: u8 = (c as u32 - 48) as u8;
        ds.push(d);
        assert(ds@ =~= text_digits(t@.subrange(a as int, i + 1)));
        i = i + 1;
    }
    ds
}

/// The first two digits of the fraction of `n`, with zeros where it has fewer.
pub open spec fn two_places(n: Numeral) -> Seq<u8> {
    seq![
        if n.frac.len() > 0 { n.frac[0] } else { 0 },
        if n.frac.len() > 1 { n.frac[1] } else { 0 },
    ]
}

/// Whether the third digit of the fraction of `n` and what follows it round
/// the hundredths up.
pub open spec fn rounds_up(n: Numeral) -> bool {
    n.frac.len() > 2 && (n.frac[2] > 5 || (n.frac[2] == 5 && (n.frac.len() > 3 || n.frac[1] % 2
        == 1)))
}

/// Where the fraction has at most two digits, the hundredths are the digits
/// with zeros in the places that are missing.
proof fn lemma_hundredths_short(n: Numeral)
    requires
        n.canonical(),
        n.frac.len() <= 2,
    ensures
        n.hundredths() == digits_value(n.whole + two_places(n)),
{
    let whole = n.whole;
    let f0 = two_places(n)[0];
    let f1 = two_places(n)[1];
    let kept = n.whole + two_places(n);
    let m = n.mantissa();
    assert(kept =~= whole.push(f0).push(f1));
    lemma_value_push(whole, f0);
    lemma_value_push(whole.push(f0), f1);
    assert(pow10(0) == 1);
    assert(pow10(1) == 10 * pow10(0));
    assert(pow10(2) == 10 * pow10(1));
    if n.frac.len() == 0 {
        assert(whole + n.frac =~= whole);
        assert(m * pow10(2) == m * 100) by (nonlinear_arith)
            requires
                pow10(2) == 100,
        ;
    } else if n.frac.len() == 1 {
        assert(whole + n.frac =~= whole.push(f0));
        assert(m * pow10(1) == m * 10) by (nonlinear_arith)
            requires
                pow10(1) == 10,
        ;
    } else {
        assert(whole + n.frac =~= kept);
        assert(m * pow10(0) == m) by (nonlinear_arith)
            requires
                pow10(0) == 1,
        ;
    }
}

/// How a remainder that starts with the digit `d` compares with half the unit.
proof fn lemma_half(d: nat, t: nat, unit: nat)
    requires
        t < unit,
        d < 10,
    ensures
        d > 5 ==> 2 * (d * unit + t) > 10 * unit,
        d < 5 ==> 2 * (d * unit + t) < 10 * unit,
        d == 5 ==> 2 * (d * unit + t) == 10 * unit + 2 * t,
{
    assert(d > 5 ==> d * unit >= 6 * unit) by (nonlinear_arith);
    assert(d < 5 ==> d * unit <= 4 * unit) by (nonlinear_arith);
    assert(d == 5 ==> d * unit == 5 * unit) by (nonlinear_arith);
}

/// Where the fraction has more than two digits, the hundredths are the digits
/// up to the second place, and one more where the rest rounds up.
proof fn lemma_hundredths_long(n: Numeral)
    requires
        n.canonical(),
        n.frac.len() > 2,
    ensures
        n.hundredths() == digits_value(n.whole + two_places(n)) + if rounds_up(n) {
            1nat
        } else {
            0nat
        },
{
    let whole = n.whole;
    let frac = n.frac;
    let f0 = frac[0];
    let f1 = frac[1];
    let d = frac[2];
    let kept = n.whole + two_places(n);
    let rest = frac.skip(2);
    let tail = frac.skip(3);
    let m = n.mantissa();
    let p = pow10(rest.len());
    let unit = pow10(tail.len());
    let q = digits_value(kept);
    let r = digits_value(rest);
    let t = digits_value(tail);
    assert(m == q * p + r) by {
        assert(whole + frac =~= kept + rest);
        lemma_value_concat(kept, rest);
    }
    assert(r == d * unit + t) by {
        assert(rest =~= seq![d] + tail);
        lemma_value_concat(seq![d], tail);
        lemma_value_single(d);
    }
    assert(r < p) by {
        lemma_value_bound(rest);
    }
    assert(t < unit) by {
        lemma_value_bound(tail);
    }
    assert(p == 10 * unit);
    assert(q % 2 == f1 as nat % 2) by {
        assert(kept =~= whole.push(f0).push(f1));
        lemma_value_push(whole.push(f0), f1);
    }
    assert(t > 0 <==> frac.len() > 3) by {
        if tail.len() > 0 {
            assert(tail.last() == frac.last());
            lemma_trailing_digit(tail);
        }
    }
    lemma_div_mod(m, p, q, r);
    lemma_half(d as nat, t, unit);
}

/// The rounded hundredths of a canonical numeral are its digits up to the
/// second place, and one more where the rest rounds up.
pub proof fn lemma_hundredths(n: Numeral)
    requires
        n.canonical(),
    ensures
        n.hundredths() == digits_value(n.whole + two_places(n)) + if rounds_up(n) {
            1nat
        } else {
            0nat
        },
{
    if n.frac.len() <= 2 {
        lemma_hundredths_short(n);
    } else {
        lemma_hundredths_long(n);
    }
}

/// An exact decimal number of any length, held in canonical form. A negative
/// zero is kept apart from zero, as it is written differently.
#[derive(Debug, PartialEq, Eq)]
pub struct Decimal {
    negative: bool,
    whole: Vec<u8>,
    frac: Vec<u8>,
}

/// A time in milliseconds.
pub type Millisecond = Decimal;

/// A percentage.
pub type Percentage = Decimal;

impl View for Decimal {
    type V = Numeral;

    closed spec fn view(&self) -> Numeral {
        Numeral { negative: self.negative, whole: self.whole@, frac: self.frac@ }
    }
}

impl Decimal {
    #[verifier::type_invariant]
    spec fn wf(self) -> bool {
        self@.canonical()
    }

    /// The whole number `n`.
    pub fn from_int(n: i32) -> (d: Decimal)
        ensures
            d@ == Numeral::of_int(n as int),
            d@.canonical(),
    {
        let mut whole: Vec<u8> = Vec::new();
        if n < 0 {
            push_nat_digits((-(n as i64)) as u64, &mut whole);
        } else {
            push_nat_digits(n as u64, &mut whole);
        }
        proof {
            lemma_nat_digits_numeral(if n < 0 { (-n) as nat } else { n as nat });
        }
        Decimal { negative: n < 0, whole, frac: Vec::new() }
    }

    /// Reads a number from the characters `t`.
    pub fn from_chars(t: &Vec<char>) -> (r: Option<Decimal>)
        ensures
            match numeral_of_text(t@) {
                Some(n) => r is Some && r.unwrap()@ == n,
                None => r is None,
            },
            r is Some ==> r.unwrap()@.canonical(),
    {
        let len: usize = t.len();
        let signed = len > 0 && (t[0] == '-' || t[0] == '+');
        let negative = len > 0 && t[0] == '-';
        let start: usize = if signed { 1 } else { 0 };
        let p: usize = scan_run(t, start, CharClass::Digit);
        let pointed = p < len && t[p] == '.';
        let q: usize = if pointed { scan_run(t, p + 1, CharClass::Digit) } else { p };
        if q != len || !(p > start || q > p + 1) {
            return None;
        }
        let mut i: usize = start;
        while i < p && p - i > 1 && t[i] == '0'
            invariant
                start <= i <= p <= t.len(),
                i < p || p == start,
                trim_leading(text_digits(t@.subrange(start as int, p as int))) == trim_leading(
                    text_digits(t@.subrange(i as int, p as int)),
                ),
            decreases p - i,
        {
            assert(text_digits(t@.subrange(i as int, p as int)).drop_first() =~= text_digits(
                t@.subrange(i + 1, p as int),
            ));
            i = i + 1;
        }
        let mut whole: Vec<u8> = digits_between(t, i, p);
        if p == start {
            whole.push(0);
        }
        let mut frac: Vec<u8> = Vec::new();
        if pointed {
            let mut e: usize = q;
            while e > p + 1 && t[e - 1] == '0'
                invariant
                    p + 1 <= e <= q <= t.len(),
                    trim_trailing(text_digits(t@.subrange(p + 1, q as int))) == trim_trailing(
                        text_digits(t@.subrange(p + 1, e as int)),
                    ),
                decreases e,
            {
                assert(text_digits(t@.subrange(p + 1, e as int)).drop_last() =~= text_digits(
                    t@.subrange(p + 1, e - 1),
                ));
                e = e - 1;
            }
            frac = digits_between(t, p + 1, e);
        }
        assert(whole@ =~= numeral_of_text(t@).unwrap().whole);
        assert(frac@ =~= numeral_of_text(t@).unwrap().frac);
        Some(Decimal { negative, whole, frac })
    }

    /// Reads a number from the text `s`.
    pub fn parse(s: &str) -> (r: Option<Decimal>)
        ensures
            match numeral_of_text(s@) {
                Some(n) => r is Some && r.unwrap()@ == n,
                None => r is None,
            },
            r is Some ==> r.unwrap()@.canonical(),
    {
        let t = chars_of(s);
        Decimal::from_chars(&t)
    }

    /// Whether a minus sign stands in front of the number.
    pub fn is_negative(&self) -> (b: bool)
        ensures
            b == self@.negative,
    {
        self.negative
    }

    /// The number written out in full, without an exponent.
    pub fn to_text(&self) -> (s: String)
        ensures
            s@ == self@.text(),
    {
        proof {
            use_type_invariant(self);
            reveal_strlit("-");
            reveal_strlit(".");
        }
        let mut s = String::new();
        if self.negative {
            s.append("-");
        }
        append_digits(&mut s, &self.whole);
        if self.frac.len() > 0 {
            s.append(".");
            append_digits(&mut s, &self.frac);
        }
        assert(s@ =~= self@.text());
        s
    }

    /// The digits of the magnitude in hundredths, rounded half to even: the
    /// last two are the hundredths, those before them the whole part.
    fn hundredths_digits(&self) -> (h: Vec<u8>)
        ensures
            all_digits(h@),
            h.len() >= 3,
            digits_value(h@) == self@.hundredths(),
            is_numeral(h@.take(h.len() - 2)),
    {
        proof {
            use_type_invariant(self);
        }
        let n: usize = self.frac.len();
        let f0: u8 = if n > 0 { self.frac[0] } else { 0 };
        let f1: u8 = if n > 1 { self.frac[1] } else { 0 };
        let mut h: Vec<u8> = self.whole.clone();
        assert(h@ =~= self.whole@);
        h.push(f0);
        h.push(f1);
        let ghost kept = h@;
        assert(kept.take(kept.len() - 2) =~= self.whole@);
        let up = n > 2 && (self.frac[2] > 5 || (self.frac[2] == 5 && (n > 3 || f1 % 2 == 1)));
        proof {
            lemma_hundredths(self@);
            assert(kept =~= self@.whole + two_places(self@));
            assert(up == rounds_up(self@));
        }
        if up {
            increment(&mut h);
            proof {
                let front = h@.take(h.len() - 2);
                assert(front[0] == h@[0]);
                assert(kept[0] == self.whole@[0]);
                assert forall|i: int| 0 <= i < front.len() implies #[trigger] front[i] < 10 by {
                    assert(front[i] == h@[i]);
                }
            }
        }
        h
    }

    /// The number as a percentage: rounded to two digits after the point, a
    /// value half way between going to the even one, and followed by `%`.
    pub fn to_pct_string(&self) -> (s: String)
        ensures
            s@ == self@.text_fixed2() + "%"@,
    {
        let h = self.hundredths_digits();
        let n: usize = h.len();
        let mut s = String::new();
        if self.negative {
            s.append("-");
        }
        let mut i: usize = 0;
        let ghost front = h@.take(n - 2);
        let ghost sign = s@;
        while i < n - 2
            invariant
                i <= n - 2,
                n == h.len(),
                n >= 3,
                all_digits(h@),
                front == h@.take(n - 2),
                s@ == sign + digits_text(front.take(i as int)),
            decreases n - i,
        {
            s.append(digit_str(h[i]));
            assert(front.take(i + 1) =~= front.take(i as int).push(h@[i as int]));
            assert(digits_text(front.take(i + 1)) =~= digits_text(front.take(i as int)) + seq![
                digit_char(h@[i as int]),
            ]);
            i = i + 1;
        }
        s.append(".");
        s.append(digit_str(h[n - 2]));
        s.append(digit_str(h[n - 1]));
        s.append("%");
        proof {
            reveal_strlit("-");
            reveal_strlit(".");
            assert(front.take(n - 2) =~= front);
            let a = h@[n - 2];
            let b = h@[n - 1];
            assert(h@ =~= front.push(a).push(b));
            lemma_value_push(front, a);
            lemma_value_push(front.push(a), b);
            let total = digits_value(h@);
            assert(total == (digits_value(front) * 10 + a) * 10 + b);
            lemma_nat_digits_of_value(front);
            assert(total / 100 == digits_value(front));
            assert(total / 10 % 10 == a as nat);
            assert(total % 10 == b as nat);
            assert(s@ =~= self@.text_fixed2() + "%"@);
        }
        s
    }

    /// The number as a time: written out in full and followed by `ms`.
    pub fn to_ms_string(&self) -> (s: String)
        ensures
            s@ == self@.text() + "ms"@,
    {
        let mut s = self.to_text();
        s.append("ms");
        s
    }
}

impl Clone for Decimal {
    fn clone(&self) -> (d: Decimal)
        ensures
            d@ == self@,
    {
        proof {
            use_type_invariant(self);
        }
        let d = Decimal {
            negative: self.negative,
            whole: self.whole.clone(),
            frac: self.frac.clone(),
        };
        assert(d.whole@ =~= self.whole@);
        assert(d.frac@ =~= self.frac@);
        d
    }
}

impl Default for Decimal {
    /// Zero.
    fn default() -> (d: Decimal)
        ensures
            d@ == Numeral::of_int(0),
    {
        Decimal::from_int(0)
    }
}

} // verus!
