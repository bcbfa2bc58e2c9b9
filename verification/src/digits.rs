//! Decimal digit strings: how numbers are written out, and what written digits denote.

use vstd::prelude::*;
use vstd::string::StringExecFns;
use crate::text::{is_digit, is_space};

verus! {

/// The character that writes the digit `d`.
pub open spec fn digit_char(d: u8) -> char
    recommends
        d < 10,
{
    (d + 48) as u8 as char
}

/// The digit that the character `c` writes.
pub open spec fn digit_of(c: char) -> u8
    recommends
        is_digit(c),
{
    (c as u32 - 48) as u8
}

/// Whether every item of `ds` is a decimal digit.
pub open spec fn all_digits(ds: Seq<u8>) -> bool {
    forall|i: int| 0 <= i < ds.len() ==> #[trigger] ds[i] < 10
}

/// The digits `ds` written out as characters.
pub open spec fn digits_text(ds: Seq<u8>) -> Seq<char> {
    Seq::new(ds.len(), |i: int| digit_char(ds[i]))
}

/// The digits that the characters `t` write.
pub open spec fn text_digits(t: Seq<char>) -> Seq<u8> {
    Seq::new(t.len(), |i: int| digit_of(t[i]))
}

/// The number that the digits `ds` denote, most significant digit first.
pub open spec fn digits_value(ds: Seq<u8>) -> nat
    decreases ds.len(),
{
    if ds.len() == 0 {
        0
    } else {
        digits_value(ds.drop_last()) * 10 + ds.last() as nat
    }
}

/// Ten to the power of `n`.
pub open spec fn pow10(n: nat) -> nat
    decreases n,
{
    if n == 0 {
        1
    } else {
        10 * pow10((n - 1) as nat)
    }
}

/// The decimal digits of `n`, most significant first, without leading zeros;
/// zero is the single digit 0.
pub open spec fn nat_digits(n: nat) -> Seq<u8>
    decreases n,
{
    if n < 10 {
        seq![n as u8]
    } else {
        nat_digits(n / 10).push((n % 10) as u8)
    }
}

/// The signed decimal form of `n`: a minus sign where `n` is negative, then the
/// digits of its magnitude.
pub open spec fn int_text(n: int) -> Seq<char> {
    if n < 0 {
        seq!['-'] + digits_text(nat_digits((-n) as nat))
    } else {
        digits_text(nat_digits(n as nat))
    }
}

/// Whether `ds` is the way a natural number is written: digits only, at least
/// one, and no leading zero but for zero itself.
pub open spec fn is_numeral(ds: Seq<u8>) -> bool {
    &&& all_digits(ds)
    &&& ds.len() >= 1
    &&& ds.len() > 1 ==> ds[0] != 0
}

/// The digits of a number form a numeral.
pub proof fn lemma_nat_digits_numeral(n: nat)
    ensures
        is_numeral(nat_digits(n)),
        n >= 10 ==> nat_digits(n).len() > 1,
        n > 0 ==> nat_digits(n)[0] != 0,
    decreases n,
{
    if n >= 10 {
        lemma_nat_digits_numeral(n / 10);
    }
}

/// The digits of a number denote that number.
pub proof fn lemma_value_of_nat_digits(n: nat)
    ensures
        digits_value(nat_digits(n)) == n,
    decreases n,
{
    if n < 10 {
        assert(nat_digits(n).drop_last() =~= Seq::<u8>::empty());
        assert(digits_value(nat_digits(n).drop_last()) == 0);
    } else {
        lemma_value_of_nat_digits(n / 10);
        assert(nat_digits(n).drop_last() =~= nat_digits(n / 10));
    }
}

/// A numeral is the digit string of the number that it denotes.
pub proof fn lemma_nat_digits_of_value(ds: Seq<u8>)
    requires
        is_numeral(ds),
    ensures
        nat_digits(digits_value(ds)) == ds,
        ds.len() > 1 ==> digits_value(ds) >= 10,
    decreases ds.len(),
{
    if ds.len() == 1 {
        assert(ds.drop_last() =~= Seq::<u8>::empty());
        assert(digits_value(ds.drop_last()) == 0);
        assert(nat_digits(digits_value(ds)) =~= ds);
    } else {
        let front = ds.drop_last();
        lemma_nat_digits_of_value(front);
        lemma_leading_digit(front);
        let v = digits_value(front);
        assert(v >= 1);
        let n = digits_value(ds);
        assert(n == v * 10 + ds.last() as nat);
        assert(n / 10 == v && n % 10 == ds.last() as nat);
        assert(nat_digits(n) =~= ds);
    }
}

/// Digits that start with a digit other than zero denote a number other than zero.
pub proof fn lemma_leading_digit(ds: Seq<u8>)
    requires
        ds.len() >= 1,
        ds[0] != 0,
    ensures
        digits_value(ds) >= 1,
    decreases ds.len(),
{
    if ds.len() == 1 {
        assert(ds.drop_last() =~= Seq::<u8>::empty());
    } else {
        lemma_leading_digit(ds.drop_last());
    }
}

/// The character of a digit is a digit, and no other character of a number.
pub proof fn lemma_digit_char(d: u8)
    requires
        d < 10,
    ensures
        is_digit(digit_char(d)),
        digit_of(digit_char(d)) == d,
        !is_space(digit_char(d)),
        digit_char(d) != '-',
        digit_char(d) != '.',
{
}

/// Digits that are written out and read again are the same digits.
pub proof fn lemma_text_digits(ds: Seq<u8>)
    requires
        all_digits(ds),
    ensures
        text_digits(digits_text(ds)) == ds,
        forall|i: int| 0 <= i < ds.len() ==> is_digit(#[trigger] digits_text(ds)[i]),
{
    assert forall|i: int| 0 <= i < ds.len() implies digit_of(digit_char(ds[i])) == ds[i]
        && is_digit(#[trigger] digits_text(ds)[i]) by {
        lemma_digit_char(ds[i]);
    }
    assert(text_digits(digits_text(ds)) =~= ds);
}

/// Whether every item of `ds` is the digit `d`.
pub open spec fn all_same(ds: Seq<u8>, d: u8) -> bool {
    forall|i: int| 0 <= i < ds.len() ==> #[trigger] ds[i] == d
}

/// A power of ten is positive.
pub proof fn lemma_pow10_positive(n: nat)
    ensures
        pow10(n) >= 1,
    decreases n,
{
    if n > 0 {
        lemma_pow10_positive((n - 1) as nat);
    }
}

/// The digits `b` written behind the digits `a` shift the value of `a` by the
/// length of `b`.
pub proof fn lemma_value_concat(a: Seq<u8>, b: Seq<u8>)
    ensures
        digits_value(a + b) == digits_value(a) * pow10(b.len()) + digits_value(b),
    decreases b.len(),
{
    if b.len() == 0 {
        assert(a + b =~= a);
        assert(digits_value(a) * pow10(0) == digits_value(a)) by (nonlinear_arith)
            requires
                pow10(0) == 1,
        ;
    } else {
        let front = b.drop_last();
        lemma_value_concat(a, front);
        assert((a + b).drop_last() =~= a + front);
        let va = digits_value(a);
        let vf = digits_value(front);
        let p = pow10(front.len());
        assert((a + b).last() == b.last());
        assert(digits_value(a + b) == (va * p + vf) * 10 + b.last() as nat);
        assert(digits_value(b) == vf * 10 + b.last() as nat);
        assert(pow10(b.len()) == 10 * p);
        assert((va * p + vf) * 10 == va * (10 * p) + vf * 10) by (nonlinear_arith);
        assert(va * pow10(b.len()) == va * (10 * p));
    }
}

/// Digits denote a number below the power of ten of their count.
pub proof fn lemma_value_bound(ds: Seq<u8>)
    requires
        all_digits(ds),
    ensures
        digits_value(ds) < pow10(ds.len()),
    decreases ds.len(),
{
    if ds.len() > 0 {
        lemma_value_bound(ds.drop_last());
    }
}

/// Digits denote at least what their first few denote.
pub proof fn lemma_value_prefix(ds: Seq<u8>, k: int)
    requires
        0 <= k <= ds.len(),
    ensures
        digits_value(ds.take(k)) <= digits_value(ds),
{
    let a = ds.take(k);
    let b = ds.skip(k);
    assert(ds =~= a + b);
    lemma_value_concat(a, b);
    lemma_pow10_positive(b.len());
    assert(digits_value(a) * pow10(b.len()) >= digits_value(a)) by (nonlinear_arith)
        requires
            pow10(b.len()) >= 1,
    ;
}

/// Zeros denote zero, and nines the number just below a power of ten.
pub proof fn lemma_value_uniform(ds: Seq<u8>)
    ensures
        all_same(ds, 0) ==> digits_value(ds) == 0,
        all_same(ds, 9) ==> digits_value(ds) + 1 == pow10(ds.len()),
    decreases ds.len(),
{
    if ds.len() > 0 {
        lemma_value_uniform(ds.drop_last());
    }
}

/// A digit written behind digits adds itself to ten times their value.
pub proof fn lemma_value_push(ds: Seq<u8>, d: u8)
    ensures
        digits_value(ds.push(d)) == digits_value(ds) * 10 + d,
{
    assert(ds.push(d).drop_last() =~= ds);
}

/// A single digit denotes itself.
pub proof fn lemma_value_single(d: u8)
    ensures
        digits_value(seq![d]) == d,
{
    assert(seq![d].drop_last() =~= Seq::<u8>::empty());
    assert(digits_value(seq![d]) == digits_value(seq![d].drop_last()) * 10 + d as nat);
}

/// Digits that end in a digit other than zero denote a number other than zero.
pub proof fn lemma_trailing_digit(ds: Seq<u8>)
    requires
        ds.len() >= 1,
        ds.last() != 0,
    ensures
        digits_value(ds) >= 1,
{
}

/// The one-character string that writes the digit `d`.
pub(crate) fn digit_str(d: u8) -> (s: &'static str)
    requires
        d < 10,
    ensures
        s@ == seq![digit_char(d)],
{
    proof {
        reveal_strlit("0");
        reveal_strlit("1");
        reveal_strlit("2");
        reveal_strlit("3");
        reveal_strlit("4");
        reveal_strlit("5");
        reveal_strlit("6");
        reveal_strlit("7");
        reveal_strlit("8");
        reveal_strlit("9");
    }
    let s = match d {
        0 => "0",
        1 => "1",
        2 => "2",
        3 => "3",
        4 => "4",
        5 => "5",
        6 => "6",
        7 => "7",
        8 => "8",
        _ => "9",
    };
    assert(s@ =~= seq![digit_char(d)]);
    s
}

/// Appends the decimal digits of `n` to `v`.
pub(crate) fn push_nat_digits(n: u64, v: &mut Vec<u8>)
    ensures
        final(v)@ == old(v)@ + nat_digits(n as nat),
    decreases n,
{
    if n >= 10 {
        push_nat_digits(n / 10, v);
    }
    v.push((n % 10) as u8);
    assert(final(v)@ =~= old(v)@ + nat_digits(n as nat));
}

/// Appends the digits `ds`, written out, to `s`.
pub(crate) fn append_digits(s: &mut String, ds: &Vec<u8>)
    requires
        all_digits(ds@),
    ensures
        final(s)@ == old(s)@ + digits_text(ds@),
{
    let mut i: usize = 0;
    while i < ds.len()
        invariant
            i <= ds.len(),
            all_digits(ds@),
            s@ == old(s)@ + digits_text(ds@.take(i as int)),
        decreases ds.len() - i,
    {
        s.append(digit_str(ds[i]));
        assert(ds@.take(i + 1) =~= ds@.take(i as int).push(ds@[i as int]));
        assert(digits_text(ds@.take(i + 1)) =~= digits_text(ds@.take(i as int)) + seq![
            digit_char(ds@[i as int]),
        ]);
        i = i + 1;
    }
    assert(ds@.take(ds.len() as int) =~= ds@);
}

/// Adds one to the number that the digits in `v` denote.
pub(crate) fn increment(v: &mut Vec<u8>)
    requires
        all_digits(old(v)@),
        old(v).len() >= 1,
    ensures
        all_digits(final(v)@),
        digits_value(final(v)@) == digits_value(old(v)@) + 1,
        final(v).len() == old(v).len() || final(v).len() == old(v).len() + 1,
        final(v).len() == old(v).len() ==> final(v)@[0] >= old(v)@[0],
        final(v).len() == old(v).len() + 1 ==> final(v)@[0] == 1,
{
    let ghost before = v@;
    let n: usize = v.len();
    let mut i: usize = n;
    while i > 0
        invariant
            i <= n,
            n == before.len(),
            before == old(v)@,
            v.len() == n,
            all_digits(before),
            forall|k: int| 0 <= k < i ==> #[trigger] v@[k] == before[k],
            forall|k: int| i <= k < n ==> #[trigger] v@[k] == 0,
            forall|k: int| i <= k < n ==> #[trigger] before[k] == 9,
        decreases i,
    {
        i = i - 1;
        let d: u8 = v[i];
        assert(d == before[i as int] && d < 10);
        if d == 9 {
            v.set(i, 0);
        } else {
            v.set(i, d + 1);
            proof {
                assert forall|k: int| 0 <= k < n implies #[trigger] v@[k] < 10 by {
                    assert(before[k] < 10);
                }
                let head = before.take(i as int);
                let tail9 = before.skip(i + 1);
                let tail0 = v@.skip(i + 1);
                assert(before =~= head.push(d) + tail9);
                assert(v@ =~= head.push((d + 1) as u8) + tail0);
                lemma_value_concat(head.push(d), tail9);
                lemma_value_concat(head.push((d + 1) as u8), tail0);
                lemma_value_uniform(tail9);
                lemma_value_uniform(tail0);
                assert(head.push(d).drop_last() =~= head);
                assert(head.push((d + 1) as u8).drop_last() =~= head);
                let vh = digits_value(head);
                let p = pow10(tail9.len());
                assert((vh * 10 + d + 1) * p == (vh * 10 + d) * p + p) by (nonlinear_arith);
            }
            return ;
        }
    }
    v.insert(0, 1);
    proof {
        let zeros = v@.skip(1);
        assert(v@ =~= seq![1u8] + zeros);
        assert(all_same(zeros, 0));
        assert(all_same(before, 9));
        assert forall|k: int| 0 <= k < v@.len() implies #[trigger] v@[k] < 10 by {
            if k > 0 {
                assert(v@[k] == zeros[k - 1]);
            }
        }
        lemma_value_concat(seq![1u8], zeros);
        lemma_value_uniform(zeros);
        lemma_value_uniform(before);
        lemma_value_single(1);
        assert(1 * pow10(zeros.len()) == pow10(before.len())) by (nonlinear_arith)
            requires
                zeros.len() == before.len(),
        ;
    }
}

/// The signed decimal form of `n`.
pub fn int_string(n: i32) -> (s: String)
    ensures
        s@ == int_text(n as int),
{
    let mut s = String::new();
    let mut ds: Vec<u8> = Vec::new();
    if n < 0 {
        proof {
            reveal_strlit("-");
        }
        s.append("-");
        let m: u64 = (-(n as i64)) as u64;
        push_nat_digits(m, &mut ds);
    } else {
        push_nat_digits(n as u64, &mut ds);
    }
    proof {
        lemma_nat_digits_numeral(if n < 0 { (-n) as nat } else { n as nat });
    }
    append_digits(&mut s, &ds);
    assert(s@ =~= int_text(n as int));
    s
}

} // verus!
