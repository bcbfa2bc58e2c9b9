//! What holds of writing controls out and reading them back.

use vstd::prelude::*;
use crate::decimal::{numeral_of_text, trim_leading, trim_trailing, Numeral};
use crate::digits::{
    all_digits, digit_char, digits_text, int_text, lemma_digit_char, lemma_nat_digits_numeral,
    lemma_text_digits, lemma_value_of_nat_digits, nat_digits,
};
use crate::netem::{
    controls_args, delay_args, distribution_args, jitter_args, limit_args, ControlsView,
    DelayView, ParseError,
};
use crate::parse::{
    clauses_of_text, controls_of_text, correlation_at, delay_at, delay_of_text, delay_read_back,
    delay_report, first_delay, first_limit, jitter_at, jitter_report, limit_at, limit_of_text,
    number_at, optional_number, signed_value, DelaySpans,
};
use crate::text::{
    has_at, in_class, is_digit, is_space, join_spaced, lemma_run_end_block, run_end, CharClass,
};

verus! {

/// The search for a limit clause passes over a stretch in which none starts.
pub proof fn lemma_first_limit_skip(t: Seq<char>, from: int, to: int)
    requires
        0 <= from <= to <= t.len(),
        forall|i: int| from <= i < to ==> limit_at(t, i) is None,
    ensures
        first_limit(t, from) == first_limit(t, to),
    decreases to - from,
{
    if from < to {
        lemma_first_limit_skip(t, from + 1, to);
    }
}

/// The first limit clause is the leftmost one: a clause starts where the
/// search ends, and none starts before.
pub proof fn lemma_first_limit_leftmost(t: Seq<char>, from: int)
    requires
        0 <= from,
    ensures
        match first_limit(t, from) {
            Some(i) => from <= i < t.len() && limit_at(t, i) is Some && forall|j: int|
                from <= j < i ==> limit_at(t, j) is None,
            None => forall|j: int| from <= j < t.len() ==> limit_at(t, j) is None,
        },
    decreases t.len() - from,
{
    if from < t.len() && limit_at(t, from) is None {
        lemma_first_limit_leftmost(t, from + 1);
    }
}

/// The number `n`, written out, reads as `n`.
pub proof fn lemma_signed_value(n: int)
    ensures
        signed_value(int_text(n)) == n,
        int_text(n).len() >= 1,
        !is_space(int_text(n)[0]),
        n < 0 ==> int_text(n)[0] == '-' && forall|i: int|
            1 <= i < int_text(n).len() ==> is_digit(#[trigger] int_text(n)[i]),
        n >= 0 ==> forall|i: int| 0 <= i < int_text(n).len() ==> is_digit(#[trigger] int_text(n)[i]),
{
    let m: nat = if n < 0 { (-n) as nat } else { n as nat };
    let ds = nat_digits(m);
    lemma_nat_digits_numeral(m);
    lemma_value_of_nat_digits(m);
    lemma_text_digits(ds);
    if n < 0 {
        assert(int_text(n).skip(1) =~= digits_text(ds));
        assert forall|i: int| 1 <= i < int_text(n).len() implies is_digit(
            #[trigger] int_text(n)[i],
        ) by {
            assert(int_text(n)[i] == digits_text(ds)[i - 1]);
        }
    } else {
        assert(is_digit(digits_text(ds)[0]));
    }
}

/// A limit clause that is written out reads back as the same limit, whatever
/// stands in front of it, as long as that holds no letter `l`, and whatever
/// follows it, as long as that does not start with a digit.
pub proof fn lemma_limit_read_back(pre: Seq<char>, n: int, post: Seq<char>)
    requires
        i32::MIN <= n <= i32::MAX,
        forall|i: int| 0 <= i < pre.len() ==> pre[i] != 'l',
        post.len() > 0 ==> !is_digit(post[0]),
    ensures
        limit_of_text(pre + join_spaced(limit_args(n)) + post) == Ok::<int, ParseError>(n),
{
    reveal_strlit("limit");
    let number = int_text(n);
    let clause = join_spaced(limit_args(n));
    assert(clause =~= "limit"@ + seq![' '] + number) by {
        assert(limit_args(n).drop_last() =~= seq!["limit"@]);
        assert(join_spaced(limit_args(n).drop_last()) == "limit"@);
    }
    let t = pre + clause + post;
    let at = pre.len() as int;
    lemma_signed_value(n);
    assert forall|i: int| 0 <= i < at implies limit_at(t, i) is None by {
        if has_at(t, i, "limit"@) {
            assert(t.subrange(i, i + 5)[0] == 'l');
            assert(t[i] == pre[i]);
        }
    }
    lemma_first_limit_skip(t, 0, at);
    assert(has_at(t, at, "limit"@)) by {
        assert(t.subrange(at, at + 5) =~= "limit"@);
    }
    let a = at + 5;
    let b = a + 1;
    assert(t[a] == ' ');
    assert(t[b] == number[0]);
    assert(run_end(t, a, CharClass::Space) == b) by {
        assert(in_class(CharClass::Space, t[a]));
        assert(!in_class(CharClass::Space, t[b]));
        assert(run_end(t, b, CharClass::Space) == b);
    }
    let c = if n < 0 { b + 1 } else { b };
    let d = b + number.len();
    assert(d == at + clause.len());
    assert forall|x: int| c <= x < d implies in_class(CharClass::Digit, #[trigger] t[x]) by {
        assert(t[x] == number[x - b]);
    }
    assert(d < t.len() ==> !in_class(CharClass::Digit, t[d])) by {
        if d < t.len() {
            assert(t[d] == post[0]);
        }
    }
    lemma_run_end_block(t, c, d, CharClass::Digit);
    assert(c < d) by {
        if n < 0 {
            lemma_nat_digits_numeral((-n) as nat);
        }
    }
    assert(limit_at(t, at) == Some((b, d)));
    assert(t.subrange(b, d) =~= number);
}

/// A limit of any number of packets, written out as arguments that are then
/// joined by single spaces, reads back as the same limit; so it does behind
/// the words `qdisc netem`, with which a report starts.
pub proof fn lemma_limit_round_trip(n: i32)
    ensures
        limit_of_text(join_spaced(limit_args(n as int))) == Ok::<int, ParseError>(n as int),
        limit_of_text("qdisc netem "@ + join_spaced(limit_args(n as int))) == Ok::<
            int,
            ParseError,
        >(n as int),
        controls_of_text("qdisc netem "@ + join_spaced(limit_args(n as int))).limit == Some(
            n as int,
        ),
{
    reveal_strlit("qdisc netem ");
    reveal_strlit("qdisc netem");
    let clause = join_spaced(limit_args(n as int));
    let none = Seq::<char>::empty();
    lemma_limit_read_back(none, n as int, none);
    assert(none + clause + none =~= clause);
    let head = "qdisc netem "@;
    lemma_limit_read_back(head, n as int, none);
    assert(head + clause + none =~= head + clause);
    assert(has_at(head + clause, 0, "qdisc netem"@)) by {
        assert((head + clause).subrange(0, 11) =~= "qdisc netem"@);
    }
}

/// Digits without trailing zeros stay as they are when trailing zeros are
/// dropped, and what is left of any digits has none.
pub proof fn lemma_trim_trailing(ds: Seq<u8>)
    requires
        all_digits(ds),
    ensures
        all_digits(trim_trailing(ds)),
        trim_trailing(ds).len() > 0 ==> trim_trailing(ds).last() != 0,
        ds.len() == 0 || ds.last() != 0 ==> trim_trailing(ds) == ds,
    decreases ds.len(),
{
    if ds.len() > 0 && ds.last() == 0 {
        lemma_trim_trailing(ds.drop_last());
    }
}

/// How a written numeral is laid out: the sign, the whole part, and the point
/// with the fraction; all of it digits and points but for the sign.
pub proof fn lemma_numeral_text(n: Numeral)
    requires
        n.canonical(),
    ensures
        n.text().len() >= n.sign_text().len() + n.whole.len(),
        n.text().len() >= 1,
        forall|i: int|
            n.sign_text().len() <= i < n.text().len() ==> in_class(
                CharClass::Numeric,
                #[trigger] n.text()[i],
            ),
        n.negative ==> n.text()[0] == '-',
        !n.negative ==> is_digit(n.text()[0]),
{
    let s = n.sign_text().len() as int;
    let w = n.whole.len() as int;
    lemma_text_digits(n.whole);
    lemma_text_digits(n.frac);
    assert forall|i: int| s <= i < n.text().len() implies in_class(
        CharClass::Numeric,
        #[trigger] n.text()[i],
    ) by {
        if i < s + w {
            assert(n.text()[i] == digits_text(n.whole)[i - s]);
        } else if i == s + w {
            assert(n.text()[i] == '.');
        } else {
            assert(n.text()[i] == digits_text(n.frac)[i - s - w - 1]);
        }
    }
    if !n.negative {
        assert(n.text()[0] == digits_text(n.whole)[0]);
    }
}

/// A canonical numeral that is written out reads back as itself.
pub proof fn lemma_numeral_read_back(n: Numeral)
    requires
        n.canonical(),
    ensures
        numeral_of_text(n.text()) == Some(n),
{
    let t = n.text();
    let s = n.sign_text().len() as int;
    let p = s + n.whole.len();
    lemma_text_digits(n.whole);
    lemma_text_digits(n.frac);
    lemma_numeral_text(n);
    assert forall|i: int| s <= i < p implies in_class(CharClass::Digit, #[trigger] t[i]) by {
        assert(t[i] == digits_text(n.whole)[i - s]);
    }
    if n.frac.len() > 0 {
        assert(t[p] == '.');
        lemma_run_end_block(t, s, p, CharClass::Digit);
        let q = t.len() as int;
        assert forall|i: int| p + 1 <= i < q implies in_class(CharClass::Digit, #[trigger] t[i]) by {
            assert(t[i] == digits_text(n.frac)[i - p - 1]);
        }
        lemma_run_end_block(t, p + 1, q, CharClass::Digit);
        assert(t.subrange(p + 1, q) =~= digits_text(n.frac));
        lemma_trim_trailing(n.frac);
    } else {
        lemma_run_end_block(t, s, p, CharClass::Digit);
    }
    assert(t.subrange(s, p) =~= digits_text(n.whole));
    assert(trim_leading(n.whole) == n.whole);
    let r = numeral_of_text(t).unwrap();
    assert(r.negative == n.negative);
    assert(r.whole == n.whole);
    assert(r.frac =~= n.frac);
}

/// A numeral written with two digits after the point reads back as its
/// value rounded to hundredths.
pub proof fn lemma_fixed2_read_back(n: Numeral)
    requires
        n.canonical(),
    ensures
        n.rounded2().canonical(),
        numeral_of_text(n.text_fixed2()) == Some(n.rounded2()),
        n.text_fixed2().len() >= 1,
        forall|i: int|
            n.sign_text().len() <= i < n.text_fixed2().len() ==> in_class(
                CharClass::Numeric,
                #[trigger] n.text_fixed2()[i],
            ),
        !n.negative ==> is_digit(n.text_fixed2()[0]),
{
    let h = n.hundredths();
    let whole = nat_digits(h / 100);
    let d1 = (h / 10 % 10) as u8;
    let d2 = (h % 10) as u8;
    let places = seq![d1, d2];
    let t = n.text_fixed2();
    let s = n.sign_text().len() as int;
    let p = s + whole.len();
    let q = t.len() as int;
    lemma_nat_digits_numeral(h / 100);
    lemma_text_digits(whole);
    lemma_text_digits(places);
    lemma_trim_trailing(places);
    lemma_digit_char(d1);
    lemma_digit_char(d2);
    assert(q == p + 3);
    assert forall|i: int| s <= i < p implies in_class(CharClass::Digit, #[trigger] t[i]) by {
        assert(t[i] == digits_text(whole)[i - s]);
    }
    assert(t[p] == '.');
    assert(t[p + 1] == digit_char(d1));
    assert(t[p + 2] == digit_char(d2));
    lemma_run_end_block(t, s, p, CharClass::Digit);
    lemma_run_end_block(t, p + 1, q, CharClass::Digit);
    assert(t.subrange(s, p) =~= digits_text(whole));
    assert(t.subrange(p + 1, q) =~= digits_text(places));
    assert(trim_leading(whole) == whole);
    if !n.negative {
        assert(t[0] == digits_text(whole)[0]);
    }
    let r = numeral_of_text(t).unwrap();
    assert(r.negative == n.negative);
    assert(r.whole == whole);
    assert(r.frac == trim_trailing(places));
}

/// The search for a delay clause passes over a stretch in which none starts.
pub proof fn lemma_first_delay_skip(t: Seq<char>, from: int, to: int)
    requires
        0 <= from <= to <= t.len(),
        forall|i: int| from <= i < to ==> delay_at(t, i) is None,
    ensures
        first_delay(t, from) == first_delay(t, to),
    decreases to - from,
{
    if from < to {
        lemma_first_delay_skip(t, from + 1, to);
    }
}

/// The first delay clause is the leftmost one: a clause starts where the
/// search ends, and none starts before.
pub proof fn lemma_first_delay_leftmost(t: Seq<char>, from: int)
    requires
        0 <= from,
    ensures
        match first_delay(t, from) {
            Some(i) => from <= i < t.len() && delay_at(t, i) is Some && forall|j: int|
                from <= j < i ==> delay_at(t, j) is None,
            None => forall|j: int| from <= j < t.len() ==> delay_at(t, j) is None,
        },
    decreases t.len() - from,
{
    if from < t.len() && delay_at(t, from) is None {
        lemma_first_delay_leftmost(t, from + 1);
    }
}

/// Whether the letter `a` stands in `t` at `i` and the letter `b` behind it,
/// or `a` stands there as the last letter of `t`.
pub open spec fn may_start(t: Seq<char>, i: int, a: char, b: char) -> bool {
    0 <= i < t.len() && t[i] == a && (i + 1 < t.len() ==> t[i + 1] == b)
}

/// Whether nothing stands in `t` that could be taken for the start of a word
/// which begins with the letters `a` and `b`.
pub open spec fn free_of(t: Seq<char>, a: char, b: char) -> bool {
    forall|i: int| !#[trigger] may_start(t, i, a, b)
}

/// Whether `t`, standing behind a number of a delay clause, cannot be taken
/// for a jitter or a correlation: it does not start with a space that a
/// second space, a digit or a point follows.
pub open spec fn quiet(t: Seq<char>) -> bool {
    t.len() < 2 || t[0] != ' ' || (t[1] != ' ' && !in_class(CharClass::Numeric, t[1]))
}

/// Whether `t`, standing behind the numbers of a delay clause that has the
/// jitter `jitter` and the correlation `correlation`, cannot be taken for the
/// number that would come next: behind a time alone it does not start with
/// two spaces, and behind a jitter alone not with a space that a digit or a
/// point follows.
pub open spec fn settled(jitter: Option<Numeral>, correlation: Option<Numeral>, t: Seq<char>) -> bool {
    match jitter {
        None => t.len() < 2 || t[0] != ' ' || t[1] != ' ',
        Some(_) => correlation is Some || t.len() < 2 || t[0] != ' ' || !in_class(
            CharClass::Numeric,
            t[1],
        ),
    }
}

/// Whether the numeral `n` can stand in a delay clause: it is canonical and
/// has no sign.
pub open spec fn plain(n: Numeral) -> bool {
    n.canonical() && !n.negative
}

/// A number that stands at `i`, with its unit behind it, is found there.
proof fn lemma_number_found(t: Seq<char>, i: int, number: Seq<char>, unit: Seq<char>)
    requires
        has_at(t, i, number + unit),
        number.len() > 0,
        forall|k: int| 0 <= k < number.len() ==> in_class(CharClass::Numeric, #[trigger] number[k]),
        unit.len() > 0,
        !in_class(CharClass::Numeric, unit[0]),
    ensures
        number_at(t, i, unit) == Some(i + number.len()),
        t.subrange(i, i + number.len()) == number,
{
    let j = i + number.len();
    let whole = t.subrange(i, j + unit.len());
    assert forall|x: int| i <= x < j implies in_class(CharClass::Numeric, #[trigger] t[x]) by {
        assert(t[x] == whole[x - i]);
        assert(whole[x - i] == number[x - i]);
    }
    assert(t[j] == whole[j - i]);
    assert(whole[j - i] == unit[0]);
    lemma_run_end_block(t, i, j, CharClass::Numeric);
    assert(t.subrange(j, j + unit.len()) =~= unit) by {
        assert forall|k: int| 0 <= k < unit.len() implies t.subrange(j, j + unit.len())[k]
            == unit[k] by {
            assert(t[j + k] == whole[j + k - i]);
        }
    }
    assert(t.subrange(i, j) =~= number) by {
        assert forall|k: int| 0 <= k < number.len() implies t.subrange(i, j)[k] == number[k] by {
            assert(t[i + k] == whole[k]);
        }
    }
}

/// In a text that does not start like one, no jitter and no correlation is
/// found.
proof fn lemma_unsettled(t: Seq<char>, i: int)
    requires
        0 <= i <= t.len(),
    ensures
        settled(None, None, t.skip(i)) ==> jitter_at(t, i) is None,
        forall|j: Numeral| settled(Some(j), None, t.skip(i)) ==> correlation_at(t, i) is None,
{
    reveal_strlit("  ");
    reveal_strlit(" ");
    let r = t.skip(i);
    if has_at(t, i, "  "@) {
        assert(t.subrange(i, i + 2)[0] == ' ' && t.subrange(i, i + 2)[1] == ' ');
        assert(r[0] == t[i] && r[1] == t[i + 1]);
    }
    if has_at(t, i, " "@) && number_at(t, i + 1, "%"@) is Some {
        assert(t.subrange(i, i + 1)[0] == ' ');
        assert(run_end(t, i + 1, CharClass::Numeric) > i + 1);
        assert(r[0] == t[i] && r[1] == t[i + 1]);
    }
}

/// A word that stands between two texts stands where the first one ends.
proof fn lemma_has_at_middle(pre: Seq<char>, w: Seq<char>, post: Seq<char>)
    ensures
        has_at(pre + w + post, pre.len() as int, w),
        (pre + w + post).skip((pre.len() + w.len()) as int) == post,
{
    let t = pre + w + post;
    assert(t.subrange(pre.len() as int, (pre.len() + w.len()) as int) =~= w);
    assert(t.skip((pre.len() + w.len()) as int) =~= post);
}

/// Where two words stand one behind the other, each of them stands.
proof fn lemma_has_at_split(t: Seq<char>, i: int, x: Seq<char>, y: Seq<char>)
    requires
        has_at(t, i, x + y),
    ensures
        has_at(t, i, x),
        has_at(t, i + x.len(), y),
{
    let whole = t.subrange(i, i + (x + y).len());
    assert(t.subrange(i, i + x.len()) =~= x) by {
        assert forall|k: int| 0 <= k < x.len() implies t.subrange(i, i + x.len())[k] == x[k] by {
            assert(t[i + k] == whole[k]);
        }
    }
    assert(t.subrange(i + x.len(), i + x.len() + y.len()) =~= y) by {
        assert forall|k: int| 0 <= k < y.len() implies t.subrange(
            i + x.len(),
            i + x.len() + y.len(),
        )[k] == y[k] by {
            assert(t[i + x.len() + k] == whole[x.len() + k]);
        }
    }
}

/// The start of a delay clause that stands at `i` is found there: the word,
/// the space and the time.
proof fn lemma_delay_head(t: Seq<char>, i: int, time: Numeral)
    requires
        plain(time),
        has_at(t, i, "delay "@ + (time.text() + "ms"@)),
    ensures
        has_at(t, i, "delay"@),
        run_end(t, i + 5, CharClass::Space) == i + 6,
        number_at(t, i + 6, "ms"@) == Some(i + 6 + time.text().len()),
        t.subrange(i + 6, i + 6 + time.text().len()) == time.text(),
{
    reveal_strlit("delay");
    reveal_strlit("delay ");
    reveal_strlit("ms");
    let number = time.text();
    lemma_numeral_text(time);
    lemma_has_at_split(t, i, "delay "@, number + "ms"@);
    let word = t.subrange(i, i + 6);
    assert(t.subrange(i, i + 5) =~= "delay"@) by {
        assert forall|k: int| 0 <= k < 5 implies t.subrange(i, i + 5)[k] == "delay"@[k] by {
            assert(t[i + k] == word[k]);
        }
    }
    assert(t[i + 5] == word[5]);
    lemma_number_found(t, i + 6, number, "ms"@);
    assert(t[i + 6] == t.subrange(i + 6, i + 6 + number.len())[0]);
    assert(run_end(t, i + 5, CharClass::Space) == i + 6) by {
        assert(in_class(CharClass::Space, t[i + 5]));
        assert(!in_class(CharClass::Space, t[i + 6]));
        assert(run_end(t, i + 6, CharClass::Space) == i + 6);
    }
}

/// A jitter that stands at `i`, behind its two spaces, is found there.
proof fn lemma_jitter_found(t: Seq<char>, i: int, jitter: Numeral)
    requires
        plain(jitter),
        has_at(t, i, "  "@ + (jitter.text() + "ms"@)),
    ensures
        jitter_at(t, i) == Some((i + 2, i + 2 + jitter.text().len())),
        t.subrange(i + 2, i + 2 + jitter.text().len()) == jitter.text(),
{
    reveal_strlit("  ");
    reveal_strlit("ms");
    lemma_numeral_text(jitter);
    lemma_has_at_split(t, i, "  "@, jitter.text() + "ms"@);
    lemma_number_found(t, i + 2, jitter.text(), "ms"@);
}

/// A correlation that stands at `i`, behind its space, is found there.
proof fn lemma_correlation_found(t: Seq<char>, i: int, correlation: Numeral)
    requires
        plain(correlation),
        has_at(t, i, " "@ + (correlation.text_fixed2() + "%"@)),
    ensures
        correlation_at(t, i) == Some((i + 1, i + 1 + correlation.text_fixed2().len())),
        t.subrange(i + 1, i + 1 + correlation.text_fixed2().len()) == correlation.text_fixed2(),
{
    reveal_strlit(" ");
    reveal_strlit("%");
    lemma_fixed2_read_back(correlation);
    lemma_has_at_split(t, i, " "@, correlation.text_fixed2() + "%"@);
    lemma_number_found(t, i + 1, correlation.text_fixed2(), "%"@);
}

/// What the jitter and the correlation of a reported delay clause are found
/// to be, where the report of them stands at `i` and a quiet text follows.
proof fn lemma_jitter_report(
    t: Seq<char>,
    i: int,
    jitter: Option<Numeral>,
    correlation: Option<Numeral>,
)
    requires
        0 <= i,
        jitter is Some ==> plain(jitter.unwrap()),
        correlation is Some ==> plain(correlation.unwrap()),
        has_at(t, i, jitter_report(jitter, correlation)),
        settled(jitter, correlation, t.skip(i + jitter_report(jitter, correlation).len())),
    ensures
        match jitter {
            None => jitter_at(t, i) is None,
            Some(j) => {
                let j1 = i + 2 + j.text().len();
                &&& jitter_at(t, i) == Some((i + 2, j1))
                &&& t.subrange(i + 2, j1) == j.text()
                &&& match correlation {
                    None => correlation_at(t, j1 + 2) is None,
                    Some(c) => {
                        let k0 = j1 + 3;
                        let k1 = k0 + c.text_fixed2().len();
                        &&& correlation_at(t, j1 + 2) == Some((k0, k1))
                        &&& t.subrange(k0, k1) == c.text_fixed2()
                    },
                }
            },
        },
{
    match jitter {
        None => {
            assert(jitter_report(jitter, correlation).len() == 0);
            lemma_unsettled(t, i);
        },
        Some(j) => {
            reveal_strlit("  ");
            reveal_strlit("ms");
            let first = "  "@ + (j.text() + "ms"@);
            let second = match correlation {
                Some(c) => " "@ + (c.text_fixed2() + "%"@),
                None => Seq::<char>::empty(),
            };
            assert(jitter_report(jitter, correlation) =~= first + second);
            lemma_has_at_split(t, i, first, second);
            lemma_jitter_found(t, i, j);
            match correlation {
                None => {
                    lemma_unsettled(t, i + first.len());
                },
                Some(c) => {
                    lemma_correlation_found(t, i + first.len(), c);
                },
            }
        },
    }
}

/// The spans of a reported delay clause with the time `time`, the jitter
/// `jitter` and the correlation `correlation`, where the clause starts at `i`.
pub open spec fn report_spans(
    i: int,
    time: Numeral,
    jitter: Option<Numeral>,
    correlation: Option<Numeral>,
) -> DelaySpans {
    let b = i + 6;
    let c = b + time.text().len();
    match jitter {
        None => DelaySpans { time: (b, c), jitter: None, correlation: None },
        Some(j) => {
            let j0 = c + 4;
            let j1 = j0 + j.text().len();
            DelaySpans {
                time: (b, c),
                jitter: Some((j0, j1)),
                correlation: match correlation {
                    None => None,
                    Some(k) => Some((j1 + 3, j1 + 3 + k.text_fixed2().len())),
                },
            }
        },
    }
}

/// A reported delay clause that stands at `i`, with a quiet text behind its
/// numbers, is found there, and its numbers stand where they were written.
proof fn lemma_delay_found(
    t: Seq<char>,
    i: int,
    time: Numeral,
    jitter: Option<Numeral>,
    correlation: Option<Numeral>,
)
    requires
        0 <= i,
        plain(time),
        jitter is Some ==> plain(jitter.unwrap()),
        correlation is Some ==> plain(correlation.unwrap()),
        has_at(t, i, "delay "@ + (time.text() + "ms"@) + jitter_report(jitter, correlation)),
        settled(
            jitter,
            correlation,
            t.skip(
                i + ("delay "@ + (time.text() + "ms"@) + jitter_report(jitter, correlation)).len(),
            ),
        ),
    ensures
        delay_at(t, i) == Some(report_spans(i, time, jitter, correlation)),
        ({
            let spans = report_spans(i, time, jitter, correlation);
            &&& t.subrange(spans.time.0, spans.time.1) == time.text()
            &&& jitter is Some ==> t.subrange(spans.jitter.unwrap().0, spans.jitter.unwrap().1)
                == jitter.unwrap().text()
            &&& jitter is Some && correlation is Some ==> t.subrange(
                spans.correlation.unwrap().0,
                spans.correlation.unwrap().1,
            ) == correlation.unwrap().text_fixed2()
        }),
{
    let head = "delay "@ + (time.text() + "ms"@);
    let middle = jitter_report(jitter, correlation);
    lemma_has_at_split(t, i, head, middle);
    lemma_delay_head(t, i, time);
    assert(head.len() == 6 + time.text().len() + 2) by {
        reveal_strlit("delay ");
        reveal_strlit("ms");
    }
    lemma_jitter_report(t, i + head.len(), jitter, correlation);
}

/// No delay clause starts in a text in which no word starts with `de` and
/// which does not end in `d`, whatever follows the text.
proof fn lemma_no_delay_before(pre: Seq<char>, rest: Seq<char>)
    requires
        free_of(pre, 'd', 'e'),
    ensures
        forall|i: int| 0 <= i < pre.len() ==> delay_at(pre + rest, i) is None,
{
    reveal_strlit("delay");
    let t = pre + rest;
    assert forall|i: int| 0 <= i < pre.len() implies delay_at(t, i) is None by {
        if has_at(t, i, "delay"@) {
            assert(t.subrange(i, i + 5)[0] == 'd' && t.subrange(i, i + 5)[1] == 'e');
            assert(pre[i] == 'd');
            if i + 1 < pre.len() {
                assert(pre[i + 1] == t[i + 1]);
            }
            assert(may_start(pre, i, 'd', 'e'));
        }
    }
}

/// What is read of a text whose first delay clause starts at `i` with the
/// spans `spans`, where the number of each span is known.
proof fn lemma_delay_result(
    t: Seq<char>,
    i: int,
    spans: DelaySpans,
    time: Numeral,
    jitter: Option<Numeral>,
    correlation: Option<Numeral>,
)
    requires
        0 <= i < t.len(),
        first_delay(t, 0) == first_delay(t, i),
        delay_at(t, i) == Some(spans),
        numeral_of_text(t.subrange(spans.time.0, spans.time.1)) == Some(time),
        optional_number(t, spans.jitter) == jitter,
        optional_number(t, spans.correlation) == correlation,
    ensures
        delay_of_text(t) == Ok::<DelayView, ParseError>(
            DelayView { time, jitter, correlation, distribution: None },
        ),
{
}

/// The numbers of a reported delay clause, and behind them a text that
/// cannot be taken for one more, read back as the time, the jitter and the
/// rounded correlation.
proof fn lemma_delay_numbers_read_back(
    pre: Seq<char>,
    time: Numeral,
    jitter: Option<Numeral>,
    correlation: Option<Numeral>,
    rest: Seq<char>,
)
    requires
        plain(time),
        jitter is Some ==> plain(jitter.unwrap()),
        correlation is Some ==> plain(correlation.unwrap()),
        free_of(pre, 'd', 'e'),
        settled(jitter, correlation, rest),
    ensures
        delay_of_text(
            pre + ("delay "@ + (time.text() + "ms"@) + jitter_report(jitter, correlation)) + rest,
        ) == Ok::<DelayView, ParseError>(
            DelayView {
                time,
                jitter,
                correlation: match (jitter, correlation) {
                    (Some(_), Some(c)) => Some(c.rounded2()),
                    _ => None,
                },
                distribution: None,
            },
        ),
{
    let body = "delay "@ + (time.text() + "ms"@) + jitter_report(jitter, correlation);
    let t = pre + body + rest;
    let at = pre.len() as int;
    lemma_has_at_middle(pre, body, rest);
    lemma_delay_found(t, at, time, jitter, correlation);
    assert(first_delay(t, 0) == first_delay(t, at)) by {
        assert(t =~= pre + (body + rest));
        lemma_no_delay_before(pre, body + rest);
        lemma_first_delay_skip(t, 0, at);
    }
    let spans = report_spans(at, time, jitter, correlation);
    lemma_numeral_read_back(time);
    let read = match (jitter, correlation) {
        (Some(_), Some(c)) => Some(c.rounded2()),
        _ => None,
    };
    assert(optional_number(t, spans.jitter) == jitter) by {
        if jitter is Some {
            lemma_numeral_read_back(jitter.unwrap());
        }
    }
    assert(optional_number(t, spans.correlation) == read) by {
        if jitter is Some && correlation is Some {
            lemma_fixed2_read_back(correlation.unwrap());
        }
    }
    assert(at < t.len()) by {
        reveal_strlit("delay ");
    }
    lemma_delay_result(t, at, spans, time, jitter, read);
}

/// The parts of a reported delay clause, grouped in two ways.
proof fn lemma_regroup(
    pre: Seq<char>,
    word: Seq<char>,
    time: Seq<char>,
    unit: Seq<char>,
    middle: Seq<char>,
    last: Seq<char>,
    post: Seq<char>,
)
    ensures
        pre + (word + time + unit + middle + last) + post == pre + (word + (time + unit) + middle)
            + (last + post),
{
    assert(pre + (word + time + unit + middle + last) + post =~= pre + (word + (time + unit)
        + middle) + (last + post));
}

/// A text that starts with the word ` distribution ` is quiet, and so is a
/// quiet text behind nothing.
proof fn lemma_quiet_tail(last: Seq<char>, post: Seq<char>)
    requires
        quiet(post),
        last.len() == 0 || (last.len() >= 2 && last[0] == ' ' && last[1] == 'd'),
    ensures
        quiet(last + post),
{
    if last.len() == 0 {
        assert(last + post =~= post);
    } else {
        assert((last + post)[0] == ' ' && (last + post)[1] == 'd');
    }
}

/// A delay clause as `tc` reports it reads back with its time and jitter and
/// with its correlation rounded to hundredths, but without its distribution;
/// whatever stands in front of it, as long as no word there starts with `de`
/// and it does not end in `d`, and behind it, as long as that cannot be taken
/// for one more number of the clause.
pub proof fn lemma_delay_read_back(pre: Seq<char>, d: DelayView, post: Seq<char>)
    requires
        plain(d.time),
        d.jitter is Some ==> plain(d.jitter.unwrap()),
        d.correlation is Some ==> plain(d.correlation.unwrap()),
        free_of(pre, 'd', 'e'),
        quiet(post),
    ensures
        delay_of_text(pre + delay_report(d) + post) == Ok::<DelayView, ParseError>(
            delay_read_back(d),
        ),
{
    let body = "delay "@ + (d.time.text() + "ms"@) + jitter_report(d.jitter, d.correlation);
    let last = match d.distribution {
        Some(x) => " distribution "@ + x.name(),
        None => Seq::<char>::empty(),
    };
    assert(last.len() == 0 || (last.len() >= 2 && last[0] == ' ' && last[1] == 'd')) by {
        reveal_strlit(" distribution ");
    }
    lemma_quiet_tail(last, post);
    assert(settled(d.jitter, d.correlation, last + post));
    lemma_regroup(
        pre,
        "delay "@,
        d.time.text(),
        "ms"@,
        jitter_report(d.jitter, d.correlation),
        last,
        post,
    );
    lemma_delay_numbers_read_back(pre, d.time, d.jitter, d.correlation, last + post);
}

/// Joining two runs of strings joins each and puts a space between them.
pub proof fn lemma_join_concat(a: Seq<Seq<char>>, b: Seq<Seq<char>>)
    requires
        a.len() > 0,
        b.len() > 0,
    ensures
        join_spaced(a + b) == join_spaced(a) + seq![' '] + join_spaced(b),
    decreases b.len(),
{
    assert((a + b).drop_last() =~= a + b.drop_last());
    assert((a + b).last() == b.last());
    if b.len() == 1 {
        assert(a + b.drop_last() =~= a);
        assert(join_spaced(b) == b[0]);
        assert(join_spaced(a + b) =~= join_spaced(a) + seq![' '] + join_spaced(b));
    } else {
        lemma_join_concat(a, b.drop_last());
        assert(join_spaced(a + b) =~= join_spaced(a) + seq![' '] + join_spaced(b));
    }
}

/// Joined strings start as the first of them starts.
pub proof fn lemma_join_first(parts: Seq<Seq<char>>)
    requires
        parts.len() > 0,
        parts[0].len() > 0,
    ensures
        join_spaced(parts).len() > 0,
        join_spaced(parts)[0] == parts[0][0],
    decreases parts.len(),
{
    if parts.len() > 1 {
        lemma_join_first(parts.drop_last());
    }
}

/// What follows the time in the arguments of a delay starts with a sign, a
/// digit or the letter `d`.
proof fn lemma_delay_args_tail(d: DelayView)
    requires
        d.jitter is Some ==> d.jitter.unwrap().canonical(),
    ensures
        ({
            let more = jitter_args(d.jitter, d.correlation) + distribution_args(d.distribution);
            more.len() > 0 ==> more[0].len() > 0 && more[0][0] != ' '
        }),
{
    reveal_strlit("distribution");
    let more = jitter_args(d.jitter, d.correlation) + distribution_args(d.distribution);
    match d.jitter {
        Some(j) => {
            lemma_numeral_text(j);
            assert(more[0] == j.text() + "ms"@);
            assert(more[0][0] == j.text()[0]);
        },
        None => {
            if d.distribution is Some {
                assert(more[0] == "distribution"@);
            }
        },
    }
}

/// The word `delay` and the time behind it, joined, are the start of a
/// reported delay clause.
proof fn lemma_delay_stamp(stamp: Seq<char>)
    ensures
        join_spaced(seq!["delay"@, stamp]) == "delay "@ + stamp + jitter_report(None, None),
{
    reveal_strlit("delay");
    reveal_strlit("delay ");
    let head = seq!["delay"@, stamp];
    assert(head.drop_last() =~= seq!["delay"@]);
    assert(join_spaced(head.drop_last()) == "delay"@);
    assert(join_spaced(head) =~= "delay "@ + stamp + jitter_report(None, None));
}

/// Texts in a row, grouped in two ways.
proof fn lemma_regroup_rest(pre: Seq<char>, body: Seq<char>, more: Seq<char>)
    ensures
        pre + (body + seq![' '] + more) == pre + body + (seq![' '] + more),
        pre + body == pre + body + Seq::<char>::empty(),
        (seq![' '] + more).len() >= 1,
        (seq![' '] + more)[0] == ' ',
        more.len() > 0 ==> (seq![' '] + more)[1] == more[0],
{
    assert(pre + (body + seq![' '] + more) =~= pre + body + (seq![' '] + more));
    assert(pre + body =~= pre + body + Seq::<char>::empty());
}

/// A delay that is written out as arguments which are then joined by single
/// spaces reads back as its time alone: the jitter is reported behind two
/// spaces and is not found behind one, and with it the correlation is lost.
pub proof fn lemma_delay_args_read_back(pre: Seq<char>, d: DelayView)
    requires
        plain(d.time),
        d.jitter is Some ==> d.jitter.unwrap().canonical(),
        free_of(pre, 'd', 'e'),
    ensures
        delay_of_text(pre + join_spaced(delay_args(d))) == Ok::<DelayView, ParseError>(
            DelayView { time: d.time, jitter: None, correlation: None, distribution: None },
        ),
{
    let stamp = d.time.text() + "ms"@;
    let head = seq!["delay"@, stamp];
    let more = jitter_args(d.jitter, d.correlation) + distribution_args(d.distribution);
    let body = "delay "@ + stamp + jitter_report(None, None);
    let none = Seq::<char>::empty();
    lemma_delay_stamp(stamp);
    assert(delay_args(d) == head + more);
    if more.len() == 0 {
        assert(head + more =~= head);
        lemma_regroup_rest(pre, body, none);
        lemma_delay_numbers_read_back(pre, d.time, None, None, none);
    } else {
        let tail = join_spaced(more);
        lemma_join_concat(head, more);
        lemma_delay_args_tail(d);
        lemma_join_first(more);
        lemma_regroup_rest(pre, body, tail);
        let rest = seq![' '] + tail;
        assert(settled(None, None, rest));
        lemma_delay_numbers_read_back(pre, d.time, None, None, rest);
    }
}

/// No word that starts with `de` stands in the head of a report, nor in the
/// head with a limit behind it.
proof fn lemma_head_free(n: int)
    ensures
        free_of("qdisc netem "@, 'd', 'e'),
        free_of("qdisc netem "@ + join_spaced(limit_args(n)) + seq![' '], 'd', 'e'),
        forall|i: int| 0 <= i < "qdisc netem "@.len() ==> "qdisc netem "@[i] != 'l',
        has_at("qdisc netem "@, 0, "qdisc netem"@),
        "qdisc netem "@.len() == 12,
        "qdisc netem"@.len() == 11,
{
    reveal_strlit("qdisc netem ");
    reveal_strlit("qdisc netem");
    reveal_strlit("limit");
    let head = "qdisc netem "@;
    let number = int_text(n);
    let clause = join_spaced(limit_args(n));
    assert(clause =~= "limit"@ + seq![' '] + number) by {
        assert(limit_args(n).drop_last() =~= seq!["limit"@]);
        assert(join_spaced(limit_args(n).drop_last()) == "limit"@);
    }
    lemma_signed_value(n);
    let pre = head + clause + seq![' '];
    assert forall|i: int| !#[trigger] may_start(head, i, 'd', 'e') by {
        if 0 <= i < head.len() && head[i] == 'd' {
            assert(i == 1);
        }
    }
    assert forall|i: int| !#[trigger] may_start(pre, i, 'd', 'e') by {
        if 0 <= i < pre.len() && pre[i] == 'd' {
            if i < 12 {
                assert(pre[i] == head[i]);
                assert(i == 1);
                assert(pre[2] == head[2]);
            } else if i < 17 {
                assert(pre[i] == "limit"@[i - 12]);
            } else if i == 17 {
                assert(pre[i] == ' ');
            } else if i < 18 + number.len() {
                assert(pre[i] == number[i - 18]);
                if n < 0 && i == 18 {
                    assert(number[0] == '-');
                } else {
                    assert(is_digit(number[i - 18]));
                }
            } else {
                assert(pre[i] == ' ');
            }
        }
    }
    assert(head.subrange(0, 11) =~= "qdisc netem"@);
}

/// What is read back of controls that were written as arguments: the limit,
/// and of the delay its time.
pub open spec fn controls_read_back(c: ControlsView) -> ControlsView {
    ControlsView {
        limit: c.limit,
        delay: match c.delay {
            Some(d) => Some(
                DelayView { time: d.time, jitter: None, correlation: None, distribution: None },
            ),
            None => None,
        },
    }
}

/// Controls that are written out as arguments which are then joined by
/// single spaces and put behind the words `qdisc netem` read back with the
/// limit that was set and with the time of the delay that was set.
pub proof fn lemma_controls_round_trip(c: ControlsView)
    requires
        c.limit is Some ==> i32::MIN <= c.limit.unwrap() <= i32::MAX,
        c.delay is Some ==> plain(c.delay.unwrap().time),
        c.delay is Some && c.delay.unwrap().jitter is Some
            ==> c.delay.unwrap().jitter.unwrap().canonical(),
    ensures
        c.limit is Some ==> controls_of_text(
            "qdisc netem "@ + join_spaced(controls_args(c)),
        ).limit == c.limit,
        c.delay is Some ==> controls_of_text(
            "qdisc netem "@ + join_spaced(controls_args(c)),
        ).delay == controls_read_back(c).delay,
{
    let head = "qdisc netem "@;
    let none = Seq::<char>::empty();
    let t = head + join_spaced(controls_args(c));
    lemma_head_free(0);
    assert(has_at(t, 0, "qdisc netem"@)) by {
        assert(t.subrange(0, 11) =~= head.subrange(0, 11));
    }
    assert(controls_of_text(t) == clauses_of_text(t));
    match (c.limit, c.delay) {
        (Some(n), Some(d)) => {
            let first = limit_args(n);
            let second = delay_args(d);
            assert(controls_args(c) == first + second);
            lemma_join_concat(first, second);
            reveal_strlit("delay");
            lemma_join_first(second);
            let rest = seq![' '] + join_spaced(second);
            assert(t =~= head + join_spaced(first) + rest);
            lemma_limit_read_back(head, n, rest);
            lemma_head_free(n);
            assert(t =~= head + join_spaced(first) + seq![' '] + join_spaced(second));
            lemma_delay_args_read_back(head + join_spaced(first) + seq![' '], d);
        },
        (Some(n), None) => {
            assert(controls_args(c) =~= limit_args(n));
            assert(t =~= head + join_spaced(limit_args(n)) + none);
            lemma_limit_read_back(head, n, none);
        },
        (None, Some(d)) => {
            assert(controls_args(c) =~= delay_args(d));
            lemma_delay_args_read_back(head, d);
        },
        (None, None) => {},
    }
}

} // verus!