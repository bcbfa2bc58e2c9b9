//! Reading controls back from the text that `tc` prints.

use vstd::prelude::*;
use crate::decimal::{numeral_of_text, Decimal, Numeral};
use crate::digits::{digits_value, lemma_value_prefix, lemma_value_push, text_digits};
use crate::netem::{Controls, ControlsView, Delay, DelayView, Limit, ParseError};
use crate::text::{chars_of, has_at, is_digit, run_end, scan_run, stands_at, CharClass};

verus! {

/// The number that the characters `t` write: digits, with or without a minus
/// sign in front.
pub open spec fn signed_value(t: Seq<char>) -> int {
    if t.len() > 0 && t[0] == '-' {
        -(digits_value(text_digits(t.skip(1))) as int)
    } else {
        digits_value(text_digits(t)) as int
    }
}

/// Where the number of the limit clause that starts at `i` stands, if one
/// starts there: the word `limit`, white space, and a number made of digits
/// with or without a minus sign in front.
pub open spec fn limit_at(t: Seq<char>, i: int) -> Option<(int, int)> {
    let a = i + 5;
    let b = run_end(t, a, CharClass::Space);
    let c = if b < t.len() && t[b] == '-' {
        b + 1
    } else {
        b
    };
    let d = run_end(t, c, CharClass::Digit);
    if has_at(t, i, "limit"@) && b > a && d > c {
        Some((b, d))
    } else {
        None
    }
}

/// The first index from `from` on at which a limit clause starts.
pub open spec fn first_limit(t: Seq<char>, from: int) -> Option<int>
    decreases t.len() - from,
{
    if from >= t.len() {
        None
    } else if limit_at(t, from) is Some {
        Some(from)
    } else {
        first_limit(t, from + 1)
    }
}

/// The limit that the text `t` holds: the number of its first limit clause,
/// wherever in the text that clause stands.
pub open spec fn limit_of_text(t: Seq<char>) -> Result<int, ParseError> {
    match first_limit(t, 0) {
        None => Err(ParseError::NoLimit),
        Some(i) => {
            let (b, d) = limit_at(t, i).unwrap();
            let n = signed_value(t.subrange(b, d));
            if i32::MIN <= n <= i32::MAX {
                Ok(n)
            } else {
                Err(ParseError::LimitOutOfRange)
            }
        },
    }
}

/// Reads the digits of `t` from `a` up to `b` as a number that is at most `cap`.
pub(crate) fn read_capped(t: &Vec<char>, a: usize, b: usize, cap: u64) -> (r: Option<u64>)
    requires
        a <= b <= t.len(),
        forall|i: int| a <= i < b ==> is_digit(#[trigger] t@[i]),
        cap <= 0xffff_ffff,
    ensures
        r == if digits_value(text_digits(t@.subrange(a as int, b as int))) <= cap {
            Some(digits_value(text_digits(t@.subrange(a as int, b as int))) as u64)
        } else {
            None
        },
{
    let ghost all = text_digits(t@.subrange(a as int, b as int));
    let mut acc: u64 = 0;
    let mut i: usize = a;
    assert(text_digits(t@.subrange(a as int, a as int)) =~= Seq::<u8>::empty());
    while i < b
        invariant
            a <= i <= b <= t.len(),
            forall|k: int| a <= k < b ==> is_digit(#[trigger] t@[k]),
            cap <= 0xffff_ffff,
            all == text_digits(t@.subrange(a as int, b as int)),
            acc == digits_value(text_digits(t@.subrange(a as int, i as int))),
            acc <= cap,
        decreases b - i,
    {
        let c: char = t[i];
        assert(is_digit(t@[i as int]));
        let d: u64 = (c as u32 - 48) as u64;
        let next: u64 = acc * 10 + d;
        proof {
            let seen = text_digits(t@.subrange(a as int, i as int));
            assert(text_digits(t@.subrange(a as int, i + 1)) =~= seen.push(d as u8));
            lemma_value_push(seen, d as u8);
            assert(all.take(i + 1 - a) =~= seen.push(d as u8));
            lemma_value_prefix(all, i + 1 - a);
        }
        if next > cap {
            return None;
        }
        acc = next;
        i = i + 1;
    }
    Some(acc)
}

/// Finds the limit clause that starts at `i`, if one starts there.
fn find_limit_at(t: &Vec<char>, word: &Vec<char>, i: usize) -> (r: Option<(usize, usize)>)
    requires
        word@ == "limit"@,
        i < t.len(),
    ensures
        match limit_at(t@, i as int) {
            Some((b, d)) => r == Some((b as usize, d as usize)) && i < b < d <= t.len(),
            None => r is None,
        },
        r is Some ==> {
            let (b, d) = r.unwrap();
            let c = if t@[b as int] == '-' { b + 1 } else { b as int };
            &&& c < d
            &&& forall|k: int| c <= k < d ==> is_digit(#[trigger] t@[k])
        },
{
    proof {
        reveal_strlit("limit");
    }
    if !stands_at(t, i, word) {
        return None;
    }
    let a: usize = i + 5;
    let b: usize = scan_run(t, a, CharClass::Space);
    let c: usize = if b < t.len() && t[b] == '-' { b + 1 } else { b };
    let d: usize = scan_run(t, c, CharClass::Digit);
    if b > a && d > c {
        Some((b, d))
    } else {
        None
    }
}

impl Limit {
    /// Reads the limit from the characters `t`.
    pub fn from_chars(t: &Vec<char>) -> (r: Result<Limit, ParseError>)
        ensures
            match limit_of_text(t@) {
                Ok(n) => r is Ok && r.unwrap()@ == n,
                Err(e) => r == Err::<Limit, ParseError>(e),
            },
    {
        let word = chars_of("limit");
        let mut i: usize = 0;
        while i < t.len()
            invariant
                i <= t.len(),
                word@ == "limit"@,
                first_limit(t@, 0) == first_limit(t@, i as int),
            decreases t.len() - i,
        {
            if let Some((b, d)) = find_limit_at(t, &word, i) {
                let negative = t[b] == '-';
                let c: usize = if negative { b + 1 } else { b };
                let magnitude = read_capped(t, c, d, 0x8000_0000);
                proof {
                    let token = t@.subrange(b as int, d as int);
                    if negative {
                        assert(token.skip(1) =~= t@.subrange(c as int, d as int));
                    } else {
                        assert(token =~= t@.subrange(c as int, d as int));
                    }
                }
                return match magnitude {
                    Some(m) => {
                        if negative {
                            Ok(Limit::new((-(m as i64)) as i32))
                        } else if m <= 0x7fff_ffff {
                            Ok(Limit::new(m as i32))
                        } else {
                            Err(ParseError::LimitOutOfRange)
                        }
                    },
                    None => Err(ParseError::LimitOutOfRange),
                };
            }
            i = i + 1;
        }
        Err(ParseError::NoLimit)
    }

    /// Reads the limit from the text that `tc` prints: the number of the first
    /// limit clause, wherever in the text it stands.
    pub fn parse(text: &str) -> (r: Result<Limit, ParseError>)
        ensures
            match limit_of_text(text@) {
                Ok(n) => r is Ok && r.unwrap()@ == n,
                Err(e) => r == Err::<Limit, ParseError>(e),
            },
    {
        let t = chars_of(text);
        Limit::from_chars(&t)
    }
}

/// Where the numbers of a delay clause stand in a text.
pub struct DelaySpans {
    /// Where the time starts and ends.
    pub time: (int, int),
    /// Where the jitter starts and ends, if the clause has one.
    pub jitter: Option<(int, int)>,
    /// Where the correlation starts and ends, if the clause has one.
    pub correlation: Option<(int, int)>,
}

/// Where the number that is written at `i` and followed by `unit` ends, if
/// one is written there: a run of digits and points, not empty.
pub open spec fn number_at(t: Seq<char>, i: int, unit: Seq<char>) -> Option<int> {
    let j = run_end(t, i, CharClass::Numeric);
    if j > i && has_at(t, j, unit) {
        Some(j)
    } else {
        None
    }
}

/// Where the correlation stands that follows a jitter which ends at `i`, unit
/// included: a single space, a number and a percent sign.
pub open spec fn correlation_at(t: Seq<char>, i: int) -> Option<(int, int)> {
    if has_at(t, i, " "@) && number_at(t, i + 1, "%"@) is Some {
        Some((i + 1, number_at(t, i + 1, "%"@).unwrap()))
    } else {
        None
    }
}

/// Where the jitter stands that follows a time which ends at `i`, unit
/// included: two spaces, a number and `ms`.
pub open spec fn jitter_at(t: Seq<char>, i: int) -> Option<(int, int)> {
    if has_at(t, i, "  "@) && number_at(t, i + 2, "ms"@) is Some {
        Some((i + 2, number_at(t, i + 2, "ms"@).unwrap()))
    } else {
        None
    }
}

/// Where the numbers of the delay clause that starts at `i` stand, if one
/// starts there: the word `delay`, white space, a number and `ms`; then, if
/// they follow, the jitter and, behind a jitter only, the correlation.
pub open spec fn delay_at(t: Seq<char>, i: int) -> Option<DelaySpans> {
    let a = i + 5;
    let b = run_end(t, a, CharClass::Space);
    if has_at(t, i, "delay"@) && b > a && number_at(t, b, "ms"@) is Some {
        let c = number_at(t, b, "ms"@).unwrap();
        Some(
            match jitter_at(t, c + 2) {
                Some((j0, j1)) => DelaySpans {
                    time: (b, c),
                    jitter: Some((j0, j1)),
                    correlation: correlation_at(t, j1 + 2),
                },
                None => DelaySpans { time: (b, c), jitter: None, correlation: None },
            },
        )
    } else {
        None
    }
}

/// The first index from `from` on at which a delay clause starts.
pub open spec fn first_delay(t: Seq<char>, from: int) -> Option<int>
    decreases t.len() - from,
{
    if from >= t.len() {
        None
    } else if delay_at(t, from) is Some {
        Some(from)
    } else {
        first_delay(t, from + 1)
    }
}

/// The number that stands in `t` at `span`, if a span is given and what
/// stands there is a number.
pub open spec fn optional_number(t: Seq<char>, span: Option<(int, int)>) -> Option<Numeral> {
    match span {
        Some((a, b)) => numeral_of_text(t.subrange(a, b)),
        None => None,
    }
}

/// The delay that the text `t` holds: that of its first delay clause, wherever
/// in the text that clause stands. A jitter or a correlation that is no number
/// counts as absent; a distribution is never read.
pub open spec fn delay_of_text(t: Seq<char>) -> Result<DelayView, ParseError> {
    match first_delay(t, 0) {
        None => Err(ParseError::NoDelay),
        Some(i) => {
            let spans = delay_at(t, i).unwrap();
            match numeral_of_text(t.subrange(spans.time.0, spans.time.1)) {
                None => Err(ParseError::InvalidDelayTime),
                Some(time) => Ok(
                    DelayView {
                        time,
                        jitter: optional_number(t, spans.jitter),
                        correlation: optional_number(t, spans.correlation),
                        distribution: None,
                    },
                ),
            }
        },
    }
}

/// The controls that the text `t` holds: the limit and the delay, each read
/// on its own, and each absent where it cannot be read.
pub open spec fn clauses_of_text(t: Seq<char>) -> ControlsView {
    ControlsView {
        limit: match limit_of_text(t) {
            Ok(n) => Some(n),
            Err(_) => None,
        },
        delay: match delay_of_text(t) {
            Ok(d) => Some(d),
            Err(_) => None,
        },
    }
}

/// The controls that the report `t` of a discipline holds: those of a text
/// that starts with `qdisc netem`, and none of any other text.
pub open spec fn controls_of_text(t: Seq<char>) -> ControlsView {
    if has_at(t, 0, "qdisc netem"@) {
        clauses_of_text(t)
    } else {
        ControlsView { limit: None, delay: None }
    }
}

/// The jitter of a delay and the correlation behind it, as `tc` reports them:
/// two spaces before the jitter, one before the correlation.
pub open spec fn jitter_report(jitter: Option<Numeral>, correlation: Option<Numeral>) -> Seq<
    char,
> {
    match jitter {
        Some(j) => "  "@ + j.text() + "ms"@ + (match correlation {
            Some(c) => " "@ + c.text_fixed2() + "%"@,
            None => Seq::empty(),
        }),
        None => Seq::empty(),
    }
}

/// The delay clause as `tc` reports it.
pub open spec fn delay_report(d: DelayView) -> Seq<char> {
    "delay "@ + d.time.text() + "ms"@ + jitter_report(d.jitter, d.correlation) + (
    match d.distribution {
        Some(x) => " distribution "@ + x.name(),
        None => Seq::empty(),
    })
}

/// What is read back of a delay that was reported: the time and the jitter
/// as they are, the correlation rounded to hundredths where a jitter stands
/// before it, and no distribution.
pub open spec fn delay_read_back(d: DelayView) -> DelayView {
    DelayView {
        time: d.time,
        jitter: d.jitter,
        correlation: match (d.jitter, d.correlation) {
            (Some(_), Some(c)) => Some(c.rounded2()),
            _ => None,
        },
        distribution: None,
    }
}

/// The characters of `t` from `a` up to `b`.
fn copy_chars(t: &Vec<char>, a: usize, b: usize) -> (v: Vec<char>)
    requires
        a <= b <= t.len(),
    ensures
        v@ == t@.subrange(a as int, b as int),
{
    let mut v: Vec<char> = Vec::new();
    let mut i: usize = a;
    while i < b
        invariant
            a <= i <= b <= t.len(),
            v@ == t@.subrange(a as int, i as int),
        decreases b - i,
    {
        v.push(t[i]);
        assert(v@ =~= t@.subrange(a as int, i + 1));
        i = i + 1;
    }
    v
}

/// Finds the end of the number that is written at `i` and followed by `unit`.
fn find_number_at(t: &Vec<char>, i: usize, unit: &Vec<char>) -> (r: Option<usize>)
    requires
        i <= t.len(),
    ensures
        match number_at(t@, i as int, unit@) {
            Some(j) => r == Some(j as usize) && i < j && j + unit.len() <= t.len(),
            None => r is None,
        },
{
    let j: usize = scan_run(t, i, CharClass::Numeric);
    if j > i && stands_at(t, j, unit) {
        Some(j)
    } else {
        None
    }
}

/// Finds a number that is written behind the gap `gap` at `i` and followed
/// by `unit`.
fn find_spaced_number(t: &Vec<char>, i: usize, gap: &Vec<char>, unit: &Vec<char>) -> (r: Option<
    (usize, usize),
>)
    requires
        i <= t.len(),
    ensures
        r is Some <==> has_at(t@, i as int, gap@) && number_at(t@, i + gap.len(), unit@) is Some,
        r is Some ==> {
            let (a, b) = r.unwrap();
            &&& a == i + gap.len()
            &&& Some(b as int) == number_at(t@, i + gap.len(), unit@)
            &&& a < b
            &&& b + unit.len() <= t.len()
        },
{
    if !stands_at(t, i, gap) {
        return None;
    }
    let a: usize = i + gap.len();
    match find_number_at(t, a, unit) {
        Some(b) => Some((a, b)),
        None => None,
    }
}

/// The number that stands in `t` from `a` up to `b`, if it is one.
fn read_number(t: &Vec<char>, a: usize, b: usize) -> (r: Option<Decimal>)
    requires
        a <= b <= t.len(),
    ensures
        match numeral_of_text(t@.subrange(a as int, b as int)) {
            Some(n) => r is Some && r.unwrap()@ == n,
            None => r is None,
        },
{
    let token = copy_chars(t, a, b);
    Decimal::from_chars(&token)
}

impl Delay {
    /// Reads the delay clause that starts at `i`, if one starts there.
    fn read_at(
        t: &Vec<char>,
        i: usize,
        word: &Vec<char>,
        ms: &Vec<char>,
        pct: &Vec<char>,
    ) -> (r: Option<Result<Delay, ParseError>>)
        requires
            i < t.len(),
            word@ == "delay"@,
            ms@ == "ms"@,
            pct@ == "%"@,
        ensures
            delay_at(t@, i as int) is Some <==> r is Some,
            r is Some ==> {
                let spans = delay_at(t@, i as int).unwrap();
                match numeral_of_text(t@.subrange(spans.time.0, spans.time.1)) {
                    None => r.unwrap() == Err::<Delay, ParseError>(ParseError::InvalidDelayTime),
                    Some(time) => r.unwrap() is Ok && r.unwrap().unwrap()@ == (DelayView {
                        time,
                        jitter: optional_number(t@, spans.jitter),
                        correlation: optional_number(t@, spans.correlation),
                        distribution: None,
                    }),
                }
            },
    {
        proof {
            reveal_strlit("delay");
            reveal_strlit("ms");
            reveal_strlit("%");
            reveal_strlit(" ");
            reveal_strlit("  ");
        }
        if !stands_at(t, i, word) {
            return None;
        }
        let a: usize = i + 5;
        let b: usize = scan_run(t, a, CharClass::Space);
        if b <= a {
            return None;
        }
        let c: usize = match find_number_at(t, b, ms) {
            Some(c) => c,
            None => {
                return None;
            },
        };
        let one = chars_of(" ");
        let two = chars_of("  ");
        let mut jitter: Option<Decimal> = None;
        let mut correlation: Option<Decimal> = None;
        if let Some((j0, j1)) = find_spaced_number(t, c + 2, &two, ms) {
            jitter = read_number(t, j0, j1);
            if let Some((k0, k1)) = find_spaced_number(t, j1 + 2, &one, pct) {
                correlation = read_number(t, k0, k1);
            }
        }
        match read_number(t, b, c) {
            Some(time) => Some(Ok(Delay { time, jitter, correlation, distribution: None })),
            None => Some(Err(ParseError::InvalidDelayTime)),
        }
    }

    /// Reads the delay from the characters `t`.
    pub fn from_chars(t: &Vec<char>) -> (r: Result<Delay, ParseError>)
        ensures
            match delay_of_text(t@) {
                Ok(d) => r is Ok && r.unwrap()@ == d,
                Err(e) => r == Err::<Delay, ParseError>(e),
            },
    {
        let word = chars_of("delay");
        let ms = chars_of("ms");
        let pct = chars_of("%");
        let mut i: usize = 0;
        while i < t.len()
            invariant
                i <= t.len(),
                word@ == "delay"@,
                ms@ == "ms"@,
                pct@ == "%"@,
                first_delay(t@, 0) == first_delay(t@, i as int),
            decreases t.len() - i,
        {
            if let Some(r) = Delay::read_at(t, i, &word, &ms, &pct) {
                return r;
            }
            i = i + 1;
        }
        Err(ParseError::NoDelay)
    }

    /// Reads the delay from the text that `tc` prints: the time of the first
    /// delay clause, wherever in the text it stands, with the jitter and the
    /// correlation that follow it. A jitter or a correlation that is no number
    /// is left out. The distribution is not read: it stays unset.
    pub fn parse(text: &str) -> (r: Result<Delay, ParseError>)
        ensures
            match delay_of_text(text@) {
                Ok(d) => r is Ok && r.unwrap()@ == d,
                Err(e) => r == Err::<Delay, ParseError>(e),
            },
    {
        let t = chars_of(text);
        Delay::from_chars(&t)
    }
}

impl Controls {
    /// Reads the limit and the delay from the characters `t`, each on its own.
    pub fn from_chars(t: &Vec<char>) -> (c: Controls)
        ensures
            c@ == clauses_of_text(t@),
    {
        let limit = match Limit::from_chars(t) {
            Ok(l) => Some(l),
            Err(_) => None,
        };
        let delay = match Delay::from_chars(t) {
            Ok(d) => Some(d),
            Err(_) => None,
        };
        Controls { limit, delay }
    }

    /// Reads the limit and the delay from any text, each on its own: a
    /// clause that cannot be read is left unset.
    pub fn parse_clauses(text: &str) -> (c: Controls)
        ensures
            c@ == clauses_of_text(text@),
    {
        let t = chars_of(text);
        Controls::from_chars(&t)
    }

    /// Reads the controls from the report that `tc` prints of a discipline. A
    /// text that does not start with `qdisc netem` holds none; in one that
    /// does, a clause that cannot be read is left unset.
    pub fn parse(text: &str) -> (c: Controls)
        ensures
            c@ == controls_of_text(text@),
    {
        let t = chars_of(text);
        let head = chars_of("qdisc netem");
        if stands_at(&t, 0, &head) {
            Controls::from_chars(&t)
        } else {
            Controls { limit: None, delay: None }
        }
    }
}

} // verus!
