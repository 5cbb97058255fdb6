//! Fitting a value into a field of a given display width.

use crate::specifier::Alignment;
use crate::width::{char_width, columns, lemma_width_concat, lemma_width_single, measure, spaces, str_width};
use vstd::prelude::*;

verus! {

/// Walking forward from index `i`, the index at which the next code point no
/// longer fits into `budget` columns (or the end of `s`).
pub open spec fn fit(s: Seq<char>, i: int, budget: nat) -> int
    decreases s.len() - i,
{
    if 0 <= i < s.len() && columns(s[i]) <= budget {
        fit(s, i + 1, (budget - columns(s[i])) as nat)
    } else {
        i
    }
}

/// Walking backward from index `j`, the index before which the next code
/// point no longer fits into `budget` columns (or the start of `s`).
pub open spec fn fit_back(s: Seq<char>, j: int, budget: nat) -> int
    decreases j,
{
    if 0 < j <= s.len() && columns(s[j - 1]) <= budget {
        fit_back(s, j - 1, (budget - columns(s[j - 1])) as nat)
    } else {
        j
    }
}

/// The part of `s` that is kept when it has to shrink to `width` columns.
///
/// `Left` keeps the longest prefix that fits and `Right` the longest suffix.
/// `Center` first drops the longest prefix that fits into half of the excess,
/// rounded down, and then keeps the longest run that fits.
pub open spec fn truncated(s: Seq<char>, align: Alignment, width: nat) -> Seq<char> {
    match align {
        Alignment::Left => s.take(fit(s, 0, width)),
        Alignment::Right => s.skip(fit_back(s, s.len() as int, width)),
        Alignment::Center => {
            let excess = (str_width(s) - width) as nat;
            let start = fit(s, 0, excess / 2);
            s.subrange(start, fit(s, start, width))
        },
    }
}

/// `s` with `pad` spaces added around it.
pub open spec fn padded(s: Seq<char>, align: Alignment, pad: nat) -> Seq<char> {
    match align {
        Alignment::Left => s + spaces(pad),
        Alignment::Right => spaces(pad) + s,
        Alignment::Center => spaces(pad / 2) + s + spaces((pad - pad / 2) as nat),
    }
}

/// The text that stands for `s` in a field of `width` columns.
pub open spec fn prepared(s: Seq<char>, align: Alignment, width: nat) -> Seq<char> {
    let w = str_width(s);
    if width == w {
        s
    } else if width > w {
        padded(s, align, (width - w) as nat)
    } else {
        truncated(s, align, width)
    }
}

/// What `fit` returns lies between its start and the end of the text, the
/// run up to it fits into the budget, and one more code point would not.
pub proof fn lemma_fit(s: Seq<char>, i: int, budget: nat)
    requires
        0 <= i <= s.len(),
    ensures
        i <= fit(s, i, budget) <= s.len(),
        str_width(s.subrange(i, fit(s, i, budget))) <= budget,
        fit(s, i, budget) < s.len() ==> str_width(s.subrange(i, fit(s, i, budget) + 1)) > budget,
    decreases s.len() - i,
{
    if i < s.len() && columns(s[i]) <= budget {
        let rest = (budget - columns(s[i])) as nat;
        let e = fit(s, i + 1, rest);
        lemma_fit(s, i + 1, rest);
        lemma_width_single(s[i]);
        assert(s.subrange(i, e) =~= seq![s[i]] + s.subrange(i + 1, e));
        lemma_width_concat(seq![s[i]], s.subrange(i + 1, e));
        if e < s.len() {
            assert(s.subrange(i, e + 1) =~= seq![s[i]] + s.subrange(i + 1, e + 1));
            lemma_width_concat(seq![s[i]], s.subrange(i + 1, e + 1));
        }
    } else {
        assert(s.subrange(i, i) =~= Seq::<char>::empty());
        if i < s.len() {
            assert(s.subrange(i, i + 1) =~= seq![s[i]]);
            lemma_width_single(s[i]);
        }
    }
}

/// What `fit_back` returns lies between the start of the text and its own
/// start, the run after it fits into the budget, and one more code point
/// would not.
pub proof fn lemma_fit_back(s: Seq<char>, j: int, budget: nat)
    requires
        0 <= j <= s.len(),
    ensures
        0 <= fit_back(s, j, budget) <= j,
        str_width(s.subrange(fit_back(s, j, budget), j)) <= budget,
        fit_back(s, j, budget) > 0 ==> str_width(s.subrange(fit_back(s, j, budget) - 1, j))
            > budget,
    decreases j,
{
    if 0 < j && columns(s[j - 1]) <= budget {
        let rest = (budget - columns(s[j - 1])) as nat;
        let b = fit_back(s, j - 1, rest);
        lemma_fit_back(s, j - 1, rest);
        lemma_width_single(s[j - 1]);
        assert(s.subrange(b, j) =~= s.subrange(b, j - 1) + seq![s[j - 1]]);
        lemma_width_concat(s.subrange(b, j - 1), seq![s[j - 1]]);
        if b > 0 {
            assert(s.subrange(b - 1, j) =~= s.subrange(b - 1, j - 1) + seq![s[j - 1]]);
            lemma_width_concat(s.subrange(b - 1, j - 1), seq![s[j - 1]]);
        }
    } else {
        assert(s.subrange(j, j) =~= Seq::<char>::empty());
        if 0 < j {
            assert(s.subrange(j - 1, j) =~= seq![s[j - 1]]);
            lemma_width_single(s[j - 1]);
        }
    }
}

proof fn lemma_width_spaces(n: nat)
    requires
        columns(' ') == 1,
    ensures
        str_width(spaces(n)) == n,
    decreases n,
{
    if n > 0 {
        assert(spaces(n).drop_last() =~= spaces((n - 1) as nat));
        lemma_width_spaces((n - 1) as nat);
    }
}

/// The index that `fit` gives, computed.
pub fn fit_forward(v: &[char], start: usize, budget: usize) -> (end: usize)
    requires
        start <= v.len(),
    ensures
        end == fit(v@, start as int, budget as nat),
        start <= end <= v.len(),
{
    let mut i: usize = start;
    let mut left: usize = budget;
    while i < v.len()
        invariant
            start <= i <= v.len(),
            fit(v@, start as int, budget as nat) == fit(v@, i as int, left as nat),
        decreases v.len() - i,
    {
        let n = char_width(v[i]);
        if n > left {
            return i;
        }
        left = left - n;
        i += 1;
    }
    i
}

/// The index that `fit_back` gives, computed.
pub fn fit_backward(v: &[char], end: usize, budget: usize) -> (start: usize)
    requires
        end <= v.len(),
    ensures
        start == fit_back(v@, end as int, budget as nat),
        start <= end,
{
    let mut j: usize = end;
    let mut left: usize = budget;
    while j > 0
        invariant
            j <= end <= v.len(),
            fit_back(v@, end as int, budget as nat) == fit_back(v@, j as int, left as nat),
        decreases j,
    {
        let n = char_width(v[j - 1]);
        if n > left {
            return j;
        }
        left = left - n;
        j -= 1;
    }
    j
}

fn push_spaces(out: &mut Vec<char>, n: usize)
    ensures
        final(out)@ == old(out)@ + spaces(n as nat),
{
    let mut k: usize = 0;
    while k < n
        invariant
            k <= n,
            out@ == old(out)@ + spaces(k as nat),
        decreases n - k,
    {
        out.push(' ');
        k += 1;
        proof {
            assert(out@ =~= old(out)@ + spaces(k as nat));
        }
    }
}

fn push_range(out: &mut Vec<char>, v: &[char], from: usize, to: usize)
    requires
        from <= to <= v.len(),
    ensures
        final(out)@ == old(out)@ + v@.subrange(from as int, to as int),
{
    let mut k: usize = from;
    while k < to
        invariant
            from <= k <= to <= v.len(),
            out@ == old(out)@ + v@.subrange(from as int, k as int),
        decreases to - k,
    {
        out.push(v[k]);
        k += 1;
        proof {
            assert(out@ =~= old(out)@ + v@.subrange(from as int, k as int));
        }
    }
}

/// Fits `v` into a field of `width` columns: unchanged where it is exactly
/// that wide, padded with spaces where it is narrower, cut at code-point
/// boundaries where it is wider.
pub fn prepare(v: &[char], align: Alignment, width: usize) -> (out: Vec<char>)
    ensures
        out@ == prepared(v@, align, width as nat),
        str_width(v@) <= width ==> str_width(out@) == width,
        str_width(v@) > width ==> str_width(out@) <= width,
{
    let w = measure(v);
    let mut out: Vec<char> = Vec::new();
    if w == width as u128 {
        push_range(&mut out, v, 0, v.len());
        proof {
            assert(v@.subrange(0, v@.len() as int) =~= v@);
            assert(out@ =~= v@);
        }
    } else if (width as u128) > w {
        let pad: usize = ((width as u128) - w) as usize;
        let one = char_width(' ');
        proof {
            assert(v@.subrange(0, v@.len() as int) =~= v@);
            lemma_width_spaces(pad as nat);
            lemma_width_spaces((pad / 2) as nat);
            lemma_width_spaces((pad - pad / 2) as nat);
            lemma_width_concat(v@, spaces(pad as nat));
            lemma_width_concat(spaces(pad as nat), v@);
            lemma_width_concat(spaces((pad / 2) as nat), v@);
            lemma_width_concat(spaces((pad / 2) as nat) + v@, spaces((pad - pad / 2) as nat));
        }
        match align {
            Alignment::Left => {
                push_range(&mut out, v, 0, v.len());
                push_spaces(&mut out, pad);
                proof {
                    assert(out@ =~= v@ + spaces(pad as nat));
                }
            },
            Alignment::Right => {
                push_spaces(&mut out, pad);
                push_range(&mut out, v, 0, v.len());
                proof {
                    assert(out@ =~= spaces(pad as nat) + v@);
                }
            },
            Alignment::Center => {
                let before: usize = pad / 2;
                push_spaces(&mut out, before);
                push_range(&mut out, v, 0, v.len());
                push_spaces(&mut out, pad - before);
                proof {
                    assert(out@ =~= spaces((pad / 2) as nat) + v@ + spaces(
                        (pad - pad / 2) as nat,
                    ));
                }
            },
        }
    } else {
        match align {
            Alignment::Left => {
                let end = fit_forward(v, 0, width);
                push_range(&mut out, v, 0, end);
                proof {
                    lemma_fit(v@, 0, width as nat);
                    assert(out@ =~= v@.take(end as int));
                }
            },
            Alignment::Right => {
                let start = fit_backward(v, v.len(), width);
                push_range(&mut out, v, start, v.len());
                proof {
                    lemma_fit_back(v@, v@.len() as int, width as nat);
                    assert(out@ =~= v@.skip(start as int));
                }
            },
            Alignment::Center => {
                let excess: u128 = w - (width as u128);
                let half: usize = (excess / 2) as usize;
                let start = fit_forward(v, 0, half);
                let end = fit_forward(v, start, width);
                push_range(&mut out, v, start, end);
                proof {
                    lemma_fit(v@, start as int, width as nat);
                    assert(out@ =~= v@.subrange(start as int, end as int));
                }
            },
        }
    }
    out
}

} // verus!
