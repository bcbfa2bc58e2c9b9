//! Characters, their classes, and the words and runs that stand in a text.

use vstd::prelude::*;

verus! {

/// The classes of characters that the clause grammar speaks of.
#[derive(Clone, Copy, Debug, PartialEq, Eq, Structural)]
pub enum CharClass {
    /// White space, as Unicode's `White_Space` property defines it.
    Space,
    /// The ASCII digits `0` to `9`.
    Digit,
    /// An ASCII digit or a full stop: the characters of an unsigned decimal number.
    Numeric,
}

/// Whether `c` is white space.
pub open spec fn is_space(c: char) -> bool {
    let u = c as u32;
    ||| 0x09 <= u <= 0x0d
    ||| u == 0x20
    ||| u == 0x85
    ||| u == 0xa0
    ||| u == 0x1680
    ||| 0x2000 <= u <= 0x200a
    ||| u == 0x2028
    ||| u == 0x2029
    ||| u == 0x202f
    ||| u == 0x205f
    ||| u == 0x3000
}

/// Whether `c` is an ASCII digit.
pub open spec fn is_digit(c: char) -> bool {
    '0' <= c <= '9'
}

/// Whether `c` belongs to the class `k`.
pub open spec fn in_class(k: CharClass, c: char) -> bool {
    match k {
        CharClass::Space => is_space(c),
        CharClass::Digit => is_digit(c),
        CharClass::Numeric => is_digit(c) || c == '.',
    }
}

/// Whether `w` stands in `t` at index `i`.
pub open spec fn has_at(t: Seq<char>, i: int, w: Seq<char>) -> bool {
    &&& 0 <= i
    &&& i + w.len() <= t.len()
    &&& t.subrange(i, i + w.len()) == w
}

/// The end of the longest run of characters of class `k` that starts at `i`:
/// the first index from `i` on that holds no character of `k`.
pub open spec fn run_end(t: Seq<char>, i: int, k: CharClass) -> int
    decreases t.len() - i,
{
    if 0 <= i < t.len() && in_class(k, t[i]) {
        run_end(t, i + 1, k)
    } else {
        i
    }
}

/// The strings `parts` joined into one, with a single space between neighbours.
pub open spec fn join_spaced(parts: Seq<Seq<char>>) -> Seq<char>
    decreases parts.len(),
{
    if parts.len() == 0 {
        Seq::empty()
    } else if parts.len() == 1 {
        parts[0]
    } else {
        join_spaced(parts.drop_last()) + seq![' '] + parts.last()
    }
}

/// The views of the strings in `v`.
pub open spec fn views(v: Seq<String>) -> Seq<Seq<char>> {
    Seq::new(v.len(), |i: int| v[i]@)
}

/// A run that holds characters of its class alone, and is followed by none
/// of them, ends where it is said to end.
pub proof fn lemma_run_end_block(t: Seq<char>, i: int, j: int, k: CharClass)
    requires
        0 <= i <= j <= t.len(),
        forall|x: int| i <= x < j ==> in_class(k, #[trigger] t[x]),
        j < t.len() ==> !in_class(k, t[j]),
    ensures
        run_end(t, i, k) == j,
    decreases j - i,
{
    if i < j {
        assert(in_class(k, t[i]));
        lemma_run_end_block(t, i + 1, j, k);
    }
}

/// The characters of `s`, in order.
pub fn chars_of(s: &str) -> (v: Vec<char>)
    ensures
        v@ == s@,
{
    let mut v: Vec<char> = Vec::new();
    for c in it: s.chars()
        invariant
            v@ == it.seq().take(it.index() as int),
            it.seq() == s@,
    {
        v.push(c);
    }
    v
}

/// Tells whether `c` belongs to the class `k`.
pub(crate) fn class_holds(k: CharClass, c: char) -> (b: bool)
    ensures
        b == in_class(k, c),
{
    let u: u32 = c as u32;
    match k {
        CharClass::Space => {
            (0x09 <= u && u <= 0x0d) || u == 0x20 || u == 0x85 || u == 0xa0 || u == 0x1680 || (
            0x2000 <= u && u <= 0x200a) || u == 0x2028 || u == 0x2029 || u == 0x202f || u == 0x205f
                || u == 0x3000
        },
        CharClass::Digit => 48 <= u && u <= 57,
        CharClass::Numeric => (48 <= u && u <= 57) || u == 46,
    }
}

/// Finds where the run of characters of class `k` that starts at `i` ends.
pub(crate) fn scan_run(t: &Vec<char>, i: usize, k: CharClass) -> (j: usize)
    requires
        i <= t.len(),
    ensures
        j == run_end(t@, i as int, k),
        i <= j <= t.len(),
        forall|x: int| i <= x < j ==> in_class(k, #[trigger] t@[x]),
        j < t.len() ==> !in_class(k, t@[j as int]),
{
    let mut j: usize = i;
    while j < t.len() && class_holds(k, t[j])
        invariant
            i <= j <= t.len(),
            run_end(t@, i as int, k) == run_end(t@, j as int, k),
            forall|x: int| i <= x < j ==> in_class(k, #[trigger] t@[x]),
        decreases t.len() - j,
    {
        j = j + 1;
    }
    j
}

/// Tells whether the word `w` stands in `t` at index `i`.
pub(crate) fn stands_at(t: &Vec<char>, i: usize, w: &Vec<char>) -> (b: bool)
    ensures
        b == has_at(t@, i as int, w@),
{
    if w.len() > t.len() || i > t.len() - w.len() {
        return false;
    }
    let mut x: usize = 0;
    while x < w.len()
        invariant
            x <= w.len(),
            i + w.len() <= t.len(),
            t@.subrange(i as int, i + x) == w@.take(x as int),
        decreases w.len() - x,
    {
        if t[i + x] != w[x] {
            assert(t@.subrange(i as int, i + w.len())[x as int] != w@[x as int]);
            return false;
        }
        assert(t@.subrange(i as int, i + x + 1) =~= t@.subrange(i as int, i + x).push(
            t@[i + x],
        ));
        assert(w@.take(x + 1) =~= w@.take(x as int).push(w@[x as int]));
        x = x + 1;
    }
    assert(w@.take(w.len() as int) =~= w@);
    true
}

} // verus!
