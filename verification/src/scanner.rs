//! Finding the placeholders of a template.
//!
//! A doubled brace stands for one literal brace. While a template is scanned,
//! each doubled brace is held as one reserved control character, so that a
//! literal brace is never taken for the edge of a placeholder.

use vstd::prelude::*;

verus! {

/// Stands for a literal `{` while a template is scanned.
pub const LEFT_MARK: char = '\u{1}';

/// Stands for a literal `}` while a template is scanned.
pub const RIGHT_MARK: char = '\u{2}';

/// Whether `c` is one of the two reserved characters.
pub open spec fn is_mark(c: char) -> bool {
    c == LEFT_MARK || c == RIGHT_MARK
}

/// Whether `t` holds a reserved character.
pub open spec fn has_mark(t: Seq<char>) -> bool {
    exists|i: int| 0 <= i < t.len() && is_mark(#[trigger] t[i])
}

/// Whether `t` holds `c` twice in a row at index `i`.
pub open spec fn doubled(t: Seq<char>, i: int, c: char) -> bool {
    0 <= i && i + 1 < t.len() && t[i] == c && t[i + 1] == c
}

/// `t` from index `i` on, with every `{{` and every `}}`, taken from the
/// left, replaced by its reserved character.
pub open spec fn escaped(t: Seq<char>, i: int) -> Seq<char>
    decreases t.len() - i,
{
    if i < 0 || i >= t.len() {
        Seq::empty()
    } else if doubled(t, i, '{') {
        seq![LEFT_MARK] + escaped(t, i + 2)
    } else if doubled(t, i, '}') {
        seq![RIGHT_MARK] + escaped(t, i + 2)
    } else {
        seq![t[i]] + escaped(t, i + 1)
    }
}

/// Whether `c` ends the inside of a placeholder: a brace or a reserved
/// character.
pub open spec fn is_stop(c: char) -> bool {
    c == '{' || c == '}' || is_mark(c)
}

/// The number of code points from index `i` on up to the next brace or
/// reserved character.
pub open spec fn run(e: Seq<char>, i: int) -> nat
    decreases e.len() - i,
{
    if 0 <= i < e.len() && !is_stop(e[i]) {
        1 + run(e, i + 1)
    } else {
        0
    }
}

/// Whether a placeholder starts at index `i`: a `{` whose inside runs up to
/// a `}` with no brace and no reserved character in between.
pub open spec fn opens(e: Seq<char>, i: int) -> bool {
    &&& 0 <= i < e.len()
    &&& e[i] == '{'
    &&& i + 1 + run(e, i + 1) < e.len()
    &&& e[i + 1 + run(e, i + 1)] == '}'
}

/// The index behind the placeholder that starts at index `i`.
pub open spec fn token_end(e: Seq<char>, i: int) -> int {
    i + 2 + run(e, i + 1)
}

/// Whether every brace from index `i` on belongs to a placeholder.
pub open spec fn well_braced(e: Seq<char>, i: int) -> bool
    decreases e.len() - i,
{
    if i < 0 || i >= e.len() {
        true
    } else if e[i] == '{' {
        opens(e, i) && well_braced(e, token_end(e, i))
    } else if e[i] == '}' {
        false
    } else {
        well_braced(e, i + 1)
    }
}

/// A placeholder as it was found: its text, braces included, and the index
/// at which it stood once the placeholders before it are taken out.
pub struct TokenModel {
    pub pos: nat,
    pub text: Seq<char>,
}

/// The placeholders from index `i` on, from the left; `kept` is the number
/// of code points before `i` that belong to no placeholder.
pub open spec fn tokens_from(e: Seq<char>, i: int, kept: nat) -> Seq<TokenModel>
    decreases e.len() - i,
{
    if i < 0 || i >= e.len() {
        Seq::empty()
    } else if opens(e, i) {
        seq![TokenModel { pos: kept, text: e.subrange(i, token_end(e, i)) }] + tokens_from(
            e,
            token_end(e, i),
            kept,
        )
    } else {
        tokens_from(e, i + 1, kept + 1)
    }
}

/// What is left from index `i` on once the placeholders are taken out.
pub open spec fn literal_from(e: Seq<char>, i: int) -> Seq<char>
    decreases e.len() - i,
{
    if i < 0 || i >= e.len() {
        Seq::empty()
    } else if opens(e, i) {
        literal_from(e, token_end(e, i))
    } else {
        seq![e[i]] + literal_from(e, i + 1)
    }
}

/// The brace that a reserved character stands for; any other code point
/// stands for itself.
pub open spec fn restore_char(c: char) -> char {
    if c == LEFT_MARK {
        '{'
    } else if c == RIGHT_MARK {
        '}'
    } else {
        c
    }
}

/// `s` with each reserved character turned back into its brace.
pub open spec fn restored(s: Seq<char>) -> Seq<char> {
    Seq::new(s.len(), |k: int| restore_char(s[k]))
}

/// A placeholder stands at or before the end of what is left of the text.
pub proof fn lemma_token_positions(e: Seq<char>, i: int, kept: nat)
    requires
        0 <= i <= e.len(),
    ensures
        forall|k: int|
            0 <= k < tokens_from(e, i, kept).len() ==> kept <= (#[trigger] tokens_from(
                e,
                i,
                kept,
            )[k]).pos <= kept + literal_from(e, i).len(),
    decreases e.len() - i,
{
    let all = tokens_from(e, i, kept);
    if i < e.len() {
        if opens(e, i) {
            let rest = tokens_from(e, token_end(e, i), kept);
            lemma_token_positions(e, token_end(e, i), kept);
            assert forall|k: int| 0 <= k < all.len() implies kept <= (#[trigger] all[k]).pos <= kept
                + literal_from(e, i).len() by {
                if k > 0 {
                    assert(all[k] == rest[k - 1]);
                }
            }
        } else {
            let rest = tokens_from(e, i + 1, kept + 1);
            lemma_token_positions(e, i + 1, kept + 1);
            assert forall|k: int| 0 <= k < all.len() implies kept <= (#[trigger] all[k]).pos <= kept
                + literal_from(e, i).len() by {
                assert(all[k] == rest[k]);
            }
        }
    }
}

/// Placeholders stand in the order in which they were found.
pub proof fn lemma_token_order(e: Seq<char>, i: int, kept: nat)
    requires
        0 <= i <= e.len(),
    ensures
        forall|a: int, b: int|
            0 <= a <= b < tokens_from(e, i, kept).len() ==> (#[trigger] tokens_from(e, i, kept)[a]).pos
                <= (#[trigger] tokens_from(e, i, kept)[b]).pos,
    decreases e.len() - i,
{
    let all = tokens_from(e, i, kept);
    if i < e.len() {
        if opens(e, i) {
            let rest = tokens_from(e, token_end(e, i), kept);
            lemma_token_order(e, token_end(e, i), kept);
            lemma_token_positions(e, token_end(e, i), kept);
            assert forall|a: int, b: int| 0 <= a <= b < all.len() implies (#[trigger] all[a]).pos <= (
            #[trigger] all[b]).pos by {
                if a > 0 {
                    assert(all[a] == rest[a - 1]);
                }
                if b > 0 {
                    assert(all[b] == rest[b - 1]);
                }
            }
        } else {
            let rest = tokens_from(e, i + 1, kept + 1);
            lemma_token_order(e, i + 1, kept + 1);
            assert forall|a: int, b: int| 0 <= a <= b < all.len() implies (#[trigger] all[a]).pos <= (
            #[trigger] all[b]).pos by {
                assert(all[a] == rest[a]);
                assert(all[b] == rest[b]);
            }
        }
    }
}

/// A placeholder as it was found.
#[derive(Debug)]
pub struct RawToken {
    pub pos: usize,
    pub text: Vec<char>,
}

impl View for RawToken {
    type V = TokenModel;

    open spec fn view(&self) -> TokenModel {
        TokenModel { pos: self.pos as nat, text: self.text@ }
    }
}

/// The mathematical content of a sequence of placeholders.
pub open spec fn token_models(s: Seq<RawToken>) -> Seq<TokenModel> {
    Seq::new(s.len(), |k: int| s[k]@)
}

/// Whether `t` holds a reserved character.
pub fn contains_mark(t: &[char]) -> (b: bool)
    ensures
        b == has_mark(t@),
{
    let mut i: usize = 0;
    while i < t.len()
        invariant
            i <= t.len(),
            forall|k: int| 0 <= k < i ==> !is_mark(#[trigger] t@[k]),
        decreases t.len() - i,
    {
        if t[i] == LEFT_MARK || t[i] == RIGHT_MARK {
            return true;
        }
        i += 1;
    }
    false
}

/// Replaces every doubled brace of `t` by its reserved character.
pub fn escape(t: &[char]) -> (e: Vec<char>)
    ensures
        e@ == escaped(t@, 0),
{
    let mut e: Vec<char> = Vec::new();
    let mut i: usize = 0;
    while i < t.len()
        invariant
            i <= t.len(),
            escaped(t@, 0) == e@ + escaped(t@, i as int),
        decreases t.len() - i,
    {
        let ghost before = e@;
        if i + 1 < t.len() && t[i] == '{' && t[i + 1] == '{' {
            e.push(LEFT_MARK);
            proof {
                assert(e@ + escaped(t@, i + 2) =~= before + (seq![LEFT_MARK] + escaped(t@, i + 2)));
            }
            i += 2;
        } else if i + 1 < t.len() && t[i] == '}' && t[i + 1] == '}' {
            e.push(RIGHT_MARK);
            proof {
                assert(e@ + escaped(t@, i + 2) =~= before + (seq![RIGHT_MARK] + escaped(
                    t@,
                    i + 2,
                )));
            }
            i += 2;
        } else {
            e.push(t[i]);
            proof {
                assert(e@ + escaped(t@, i + 1) =~= before + (seq![t@[i as int]] + escaped(
                    t@,
                    i + 1,
                )));
            }
            i += 1;
        }
    }
    proof {
        assert(e@ + escaped(t@, i as int) =~= e@);
    }
    e
}

/// The number of code points from `from` on up to the next brace or
/// reserved character.
fn run_length(e: &[char], from: usize) -> (n: usize)
    requires
        from <= e.len(),
    ensures
        n == run(e@, from as int),
        from + n <= e.len(),
{
    let mut k: usize = from;
    while k < e.len() && !(e[k] == '{' || e[k] == '}' || e[k] == LEFT_MARK || e[k] == RIGHT_MARK)
        invariant
            from <= k <= e.len(),
            run(e@, from as int) == (k - from) + run(e@, k as int),
        decreases e.len() - k,
    {
        k += 1;
    }
    k - from
}

/// Takes the placeholders out of `e`, a text in which the doubled braces are
/// replaced already: gives what is left and the placeholders, or nothing
/// where a brace belongs to no placeholder.
pub fn scan(e: &[char]) -> (r: Option<(Vec<char>, Vec<RawToken>)>)
    ensures
        r is Some <==> well_braced(e@, 0),
        r matches Some((left, tokens)) ==> left@ == literal_from(e@, 0) && token_models(tokens@)
            == tokens_from(e@, 0, 0),
{
    let mut left: Vec<char> = Vec::new();
    let mut tokens: Vec<RawToken> = Vec::new();
    let mut i: usize = 0;
    while i < e.len()
        invariant
            i <= e.len(),
            well_braced(e@, 0) == well_braced(e@, i as int),
            literal_from(e@, 0) == left@ + literal_from(e@, i as int),
            tokens_from(e@, 0, 0) == token_models(tokens@) + tokens_from(
                e@,
                i as int,
                left@.len(),
            ),
        decreases e.len() - i,
    {
        let c = e[i];
        if c == '{' {
            let n = run_length(e, i + 1);
            if i + 1 + n >= e.len() || e[i + 1 + n] != '}' {
                return None;
            }
            let end: usize = i + 2 + n;
            let text = crate::text::copy_range(e, i, end);
            let ghost before = token_models(tokens@);
            let token = RawToken { pos: left.len(), text };
            tokens.push(token);
            proof {
                let m = TokenModel { pos: left@.len(), text: e@.subrange(i as int, end as int) };
                assert(token_models(tokens@) =~= before.push(m));
                assert(token_models(tokens@) + tokens_from(e@, end as int, left@.len()) =~= before
                    + (seq![m] + tokens_from(e@, end as int, left@.len())));
            }
            i = end;
        } else if c == '}' {
            return None;
        } else {
            let ghost before = left@;
            left.push(c);
            proof {
                assert(left@ + literal_from(e@, i + 1) =~= before + (seq![c] + literal_from(
                    e@,
                    i + 1,
                )));
            }
            i += 1;
        }
    }
    proof {
        assert(left@ + literal_from(e@, i as int) =~= left@);
        assert(token_models(tokens@) + tokens_from(e@, i as int, left@.len()) =~= token_models(
            tokens@,
        ));
    }
    Some((left, tokens))
}

/// Turns each reserved character of `s` back into its brace.
pub fn restore(s: &[char]) -> (out: Vec<char>)
    ensures
        out@ == restored(s@),
{
    let mut out: Vec<char> = Vec::new();
    let mut i: usize = 0;
    while i < s.len()
        invariant
            i <= s.len(),
            out@ == restored(s@.take(i as int)),
        decreases s.len() - i,
    {
        let c = s[i];
        let r = if c == LEFT_MARK {
            '{'
        } else if c == RIGHT_MARK {
            '}'
        } else {
            c
        };
        out.push(r);
        i += 1;
        proof {
            assert(out@ =~= restored(s@.take(i as int)));
        }
    }
    proof {
        assert(s@.take(i as int) =~= s@);
    }
    out
}

} // verus!
