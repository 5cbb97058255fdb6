//! Display width of code points and text, measured in terminal columns.

use crate::text::to_chars;
use unicode_width::UnicodeWidthChar;
use vstd::prelude::*;

verus! {

/// What the width tables of the `unicode-width` crate give for `c`: the number
/// of columns it occupies, or `None` for a control character other than NUL.
pub uninterp spec fn char_columns(c: char) -> Option<usize>;

/// The columns that `c` contributes to a line; a control character counts as 0.
pub open spec fn columns(c: char) -> nat {
    match char_columns(c) {
        Some(n) => n as nat,
        None => 0,
    }
}

/// The display width of `s`: the sum of the columns of its code points.
pub open spec fn str_width(s: Seq<char>) -> nat
    decreases s.len(),
{
    if s.len() == 0 {
        0
    } else {
        str_width(s.drop_last()) + columns(s.last())
    }
}

/// `n` ASCII spaces.
pub open spec fn spaces(n: nat) -> Seq<char> {
    Seq::new(n, |i: int| ' ')
}

/// Trusted: calls `unicode_width::UnicodeWidthChar::width` on `c`.
///
/// The contract names the table lookup and adds two facts that its source
/// shows directly: no width exceeds 2 (table entries are two bits wide, and
/// the value 3 is mapped to 1), and every code point from U+0020 up to U+007E
/// has width 1.
#[verifier::external_body]
fn lookup_width(c: char) -> (w: Option<usize>)
    ensures
        w == char_columns(c),
        w matches Some(n) ==> n <= 2,
        ' ' <= c <= '~' ==> w == Some(1usize),
{
    UnicodeWidthChar::width(c)
}

/// The columns of one code point.
pub fn char_width(c: char) -> (n: usize)
    ensures
        n == columns(c),
        n <= 2,
        ' ' <= c <= '~' ==> n == 1,
{
    match lookup_width(c) {
        Some(n) => n,
        None => 0,
    }
}

/// The width of a concatenation is the sum of the widths.
pub proof fn lemma_width_concat(a: Seq<char>, b: Seq<char>)
    ensures
        str_width(a + b) == str_width(a) + str_width(b),
    decreases b.len(),
{
    if b.len() == 0 {
        assert(a + b =~= a);
    } else {
        assert((a + b).drop_last() =~= a + b.drop_last());
        assert((a + b).last() == b.last());
        lemma_width_concat(a, b.drop_last());
    }
}

/// The width of a one-element text is the columns of its code point.
pub proof fn lemma_width_single(c: char)
    ensures
        str_width(seq![c]) == columns(c),
{
    let s = seq![c];
    assert(s.drop_last() =~= Seq::<char>::empty());
    assert(str_width(s.drop_last()) == 0);
}

/// The display width of `v`.
pub fn measure(v: &[char]) -> (w: u128)
    ensures
        w == str_width(v@),
        w <= 2 * v@.len(),
{
    let mut w: u128 = 0;
    let mut i: usize = 0;
    while i < v.len()
        invariant
            i <= v.len(),
            w == str_width(v@.take(i as int)),
            w <= 2 * i,
        decreases v.len() - i,
    {
        let n = char_width(v[i]);
        proof {
            assert(v@.take(i + 1).drop_last() =~= v@.take(i as int));
            assert(v@.take(i + 1).last() == v@[i as int]);
        }
        w = w + (n as u128);
        i += 1;
    }
    proof {
        assert(v@.take(i as int) =~= v@);
    }
    w
}

/// The display width of `s`.
pub fn display_width(s: &str) -> (w: u128)
    ensures
        w == str_width(s@),
{
    let v = to_chars(s);
    measure(v.as_slice())
}

} // verus!
