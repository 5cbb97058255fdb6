//! What holds of compiling and rendering, for every template and every table.

use crate::arg::{parsed_arg, position_index, positional_value, valid_table, ArgModel};
use crate::error::Failure;
use crate::formatter::{
    compiled, first_refused, formatted, lemma_refused_token_refuses_template, table_of,
    token_result, TemplateModel,
};
use crate::layout::{fit, lemma_fit, truncated};
use crate::formatter::sound_template;
use crate::render::{counter_at, fragment_at, inserted, rendered, resolved, spliced};
use crate::scanner::{
    doubled, escaped, has_mark, is_mark, literal_from, opens, restored, tokens_from, well_braced,
    TokenModel, LEFT_MARK, RIGHT_MARK,
};
use crate::specifier::{asks_zero_width, lemma_zero_width_refused, Alignment, SpecModel};
use crate::width::{lemma_width_concat, str_width};
use vstd::prelude::*;

verus! {

/// Whether every brace of `t` from index `i` on is one half of a doubled brace.
pub open spec fn only_doubled_braces(t: Seq<char>, i: int) -> bool
    decreases t.len() - i,
{
    if i < 0 || i >= t.len() {
        true
    } else if doubled(t, i, '{') || doubled(t, i, '}') {
        only_doubled_braces(t, i + 2)
    } else {
        t[i] != '{' && t[i] != '}' && only_doubled_braces(t, i + 1)
    }
}

/// `t` from index `i` on, with every `{{` made `{` and every `}}` made `}`.
pub open spec fn collapsed(t: Seq<char>, i: int) -> Seq<char>
    decreases t.len() - i,
{
    if i < 0 || i >= t.len() {
        Seq::empty()
    } else if doubled(t, i, '{') {
        seq!['{'] + collapsed(t, i + 2)
    } else if doubled(t, i, '}') {
        seq!['}'] + collapsed(t, i + 2)
    } else {
        seq![t[i]] + collapsed(t, i + 1)
    }
}

/// Whether `e` holds no brace.
pub open spec fn brace_free(e: Seq<char>) -> bool {
    forall|k: int| 0 <= k < e.len() ==> (#[trigger] e[k]) != '{' && e[k] != '}'
}

proof fn lemma_escape_of_doubled_braces(t: Seq<char>, i: int)
    requires
        0 <= i <= t.len(),
        !has_mark(t),
        only_doubled_braces(t, i),
    ensures
        brace_free(escaped(t, i)),
        restored(escaped(t, i)) == collapsed(t, i),
    decreases t.len() - i,
{
    let e = escaped(t, i);
    if i < t.len() {
        let step: int = if doubled(t, i, '{') || doubled(t, i, '}') {
            2
        } else {
            1
        };
        lemma_escape_of_doubled_braces(t, i + step);
        let rest = escaped(t, i + step);
        assert(!is_mark(t[i]));
        assert forall|k: int| 0 <= k < e.len() implies (#[trigger] e[k]) != '{' && e[k] != '}' by {
            if k > 0 {
                assert(e[k] == rest[k - 1]);
            }
        }
        assert(restored(e) =~= seq![restored(e)[0]] + restored(rest)) by {
            assert forall|k: int| 0 <= k < e.len() implies restored(e)[k] == (seq![restored(e)[0]]
                + restored(rest))[k] by {
                if k > 0 {
                    assert(e[k] == rest[k - 1]);
                }
            }
        }
    } else {
        assert(restored(e) =~= collapsed(t, i));
    }
}

proof fn lemma_scan_of_brace_free(e: Seq<char>, i: int, kept: nat)
    requires
        0 <= i <= e.len(),
        brace_free(e),
    ensures
        well_braced(e, i),
        tokens_from(e, i, kept) == Seq::<TokenModel>::empty(),
        literal_from(e, i) == e.skip(i),
    decreases e.len() - i,
{
    if i < e.len() {
        assert(e[i] != '{' && e[i] != '}');
        assert(!opens(e, i));
        lemma_scan_of_brace_free(e, i + 1, kept + 1);
        assert(seq![e[i]] + e.skip(i + 1) =~= e.skip(i));
    } else {
        assert(e.skip(i) =~= Seq::<char>::empty());
    }
}

/// A template whose braces are all doubled compiles to its text with each
/// doubled brace made single, and has no placeholder. Rendering it gives
/// that text whatever the arguments are.
pub proof fn lemma_escaped_braces_only(t: Seq<char>, args: Seq<Seq<char>>)
    requires
        !has_mark(t),
        only_doubled_braces(t, 0),
        valid_table(table_of(args)),
    ensures
        compiled(t) == Ok::<TemplateModel, Failure>(
            TemplateModel { text: collapsed(t, 0), specs: Seq::empty() },
        ),
        formatted(t, args) == Ok::<Seq<char>, Failure>(collapsed(t, 0)),
{
    let e = escaped(t, 0);
    lemma_escape_of_doubled_braces(t, 0);
    lemma_scan_of_brace_free(e, 0, 0);
    assert(e.skip(0) =~= e);
    let tokens = tokens_from(e, 0, 0);
    assert(first_refused(tokens, 0) == 0);
    let m = compiled(t)->Ok_0;
    assert(m.specs =~= Seq::<SpecModel>::empty());
    assert(m.text == collapsed(t, 0));
    assert(rendered(m, table_of(args)) == Ok::<Seq<char>, Failure>(m.text));
}

proof fn lemma_position_index_in_order(args: Seq<Seq<char>>, p: nat, i: int)
    requires
        0 <= i <= p < args.len(),
    ensures
        position_index(table_of(args), p, i) == p,
    decreases p - i,
{
    let table = table_of(args);
    assert(table[i].pos == i);
    if i < p {
        lemma_position_index_in_order(args, p, i + 1);
    }
}

/// Argument texts are found at their index: the value at position `p` is the
/// value that the `p`-th text denotes.
pub proof fn lemma_value_at_index(args: Seq<Seq<char>>, p: nat)
    requires
        p < args.len(),
    ensures
        positional_value(table_of(args), p) == Some(parsed_arg(p, args[p as int]).value),
{
    lemma_position_index_in_order(args, p, 0);
}

proof fn lemma_counter_of_implicit(specs: Seq<SpecModel>, k: int)
    requires
        0 <= k <= specs.len(),
        forall|j: int| 0 <= j < specs.len() ==> (#[trigger] specs[j]).arg is Implicit,
    ensures
        counter_at(specs, k) == k,
    decreases k,
{
    if k > 0 {
        lemma_counter_of_implicit(specs, k - 1);
    }
}

/// Where every placeholder is implicit and there are as many arguments as
/// placeholders, the `k`-th placeholder takes the `k`-th argument.
pub proof fn lemma_implicit_in_order(specs: Seq<SpecModel>, args: Seq<Seq<char>>, k: int)
    requires
        forall|j: int| 0 <= j < specs.len() ==> (#[trigger] specs[j]).arg is Implicit,
        specs.len() == args.len(),
        0 <= k < specs.len(),
    ensures
        counter_at(specs, k) == k,
        resolved(specs, table_of(args), k) == Ok::<Seq<char>, Failure>(
            parsed_arg(k as nat, args[k]).value,
        ),
{
    lemma_counter_of_implicit(specs, k);
    lemma_value_at_index(args, k as nat);
}

/// Only an implicit reference moves the implicit counter: behind a name or a
/// position it is what it was before.
pub proof fn lemma_counter_step(specs: Seq<SpecModel>, k: int)
    requires
        0 <= k < specs.len(),
    ensures
        specs[k].arg is Name ==> counter_at(specs, k + 1) == counter_at(specs, k),
        specs[k].arg is Position ==> counter_at(specs, k + 1) == counter_at(specs, k),
        specs[k].arg is Implicit ==> counter_at(specs, k + 1) == counter_at(specs, k) + 1,
{
}

/// Taking a placeholder with a name out of a template changes the implicit
/// counter at none of the placeholders behind it.
pub proof fn lemma_name_leaves_counter(specs: Seq<SpecModel>, k: int, j: int)
    requires
        0 <= k < j <= specs.len(),
        specs[k].arg is Name,
    ensures
        counter_at(specs.remove(k), j - 1) == counter_at(specs, j),
    decreases j,
{
    let without = specs.remove(k);
    if j == k + 1 {
        lemma_counter_same_prefix(specs, without, k);
    } else {
        lemma_name_leaves_counter(specs, k, j - 1);
        assert(without[j - 2] == specs[j - 1]);
    }
}

proof fn lemma_counter_same_prefix(a: Seq<SpecModel>, b: Seq<SpecModel>, k: int)
    requires
        0 <= k <= a.len(),
        k <= b.len(),
        forall|i: int| 0 <= i < k ==> a[i] == b[i],
    ensures
        counter_at(a, k) == counter_at(b, k),
    decreases k,
{
    if k > 0 {
        lemma_counter_same_prefix(a, b, k - 1);
    }
}

/// A template with a placeholder that asks for width zero does not compile.
pub proof fn lemma_zero_width_never_compiles(t: Seq<char>, k: int)
    requires
        0 <= k < tokens_from(escaped(t, 0), 0, 0).len(),
        asks_zero_width(tokens_from(escaped(t, 0), 0, 0)[k].text),
    ensures
        compiled(t) is Err,
        forall|args: Seq<Seq<char>>| (#[trigger] formatted(t, args)) is Err,
{
    let tokens = tokens_from(escaped(t, 0), 0, 0);
    lemma_zero_width_refused(tokens[k].pos, k as nat, tokens[k].text);
    assert(token_result(tokens, k) is Err);
    lemma_refused_token_refuses_template(t, k);
}

/// A value that is cut in the middle loses at least as many columns at its
/// end as at its start, and what is kept fits the width.
pub proof fn lemma_center_cut(s: Seq<char>, width: nat)
    requires
        str_width(s) > width,
    ensures
        ({
            let start = fit(s, 0, ((str_width(s) - width) / 2) as nat);
            let end = fit(s, start, width);
            &&& 0 <= start <= end <= s.len()
            &&& truncated(s, Alignment::Center, width) == s.subrange(start, end)
            &&& str_width(s.subrange(start, end)) <= width
            &&& str_width(s.take(start)) <= str_width(s.skip(end))
        }),
{
    let half = ((str_width(s) - width) / 2) as nat;
    let start = fit(s, 0, half);
    lemma_fit(s, 0, half);
    let end = fit(s, start, width);
    lemma_fit(s, start, width);
    assert(s.subrange(0, start) =~= s.take(start));
    assert(s =~= s.take(start) + s.subrange(start, end) + s.skip(end));
    lemma_width_concat(s.take(start), s.subrange(start, end));
    lemma_width_concat(s.take(start) + s.subrange(start, end), s.skip(end));
}

/// The index in the text that the first `k` specifiers reach: where the
/// last of them enters it.
pub open spec fn reach(specs: Seq<SpecModel>, k: int) -> int {
    if k <= 0 {
        0
    } else {
        specs[k - 1].fmt_pos as int
    }
}

/// The rendered text up to and with the fragment of the `k`-th specifier:
/// the pieces of `text` between the placeholders and the fragments, by turns.
pub open spec fn woven(text: Seq<char>, specs: Seq<SpecModel>, table: Seq<ArgModel>, k: int) -> Seq<
    char,
>
    decreases k,
{
    if k <= 0 {
        Seq::empty()
    } else {
        woven(text, specs, table, k - 1) + text.subrange(reach(specs, k - 1), reach(specs, k))
            + fragment_at(specs, table, k - 1)
    }
}

/// Whether the first `k` specifiers enter a text at or before index `p`, none
/// before an earlier one.
pub open spec fn ordered_up_to(specs: Seq<SpecModel>, k: int, p: int) -> bool {
    &&& forall|j: int| 0 <= j < k ==> (#[trigger] specs[j]).fmt_pos <= p
    &&& forall|a: int, b: int|
        0 <= a <= b < k ==> (#[trigger] specs[a]).fmt_pos <= (#[trigger] specs[b]).fmt_pos
}

proof fn lemma_splice_prefix(
    x: Seq<char>,
    specs: Seq<SpecModel>,
    table: Seq<ArgModel>,
    k: int,
    p: int,
)
    requires
        0 <= k <= specs.len(),
        0 <= p <= x.len(),
        ordered_up_to(specs, k, p),
    ensures
        spliced(x, specs, table, k) == spliced(x.take(p), specs, table, k) + x.skip(p),
    decreases k,
{
    if k <= 0 {
        assert(x.take(p) + x.skip(p) =~= x);
    } else {
        let q = specs[k - 1].fmt_pos as int;
        let f = fragment_at(specs, table, k - 1);
        let y = inserted(x, q, f);
        let z = inserted(x.take(p), q, f);
        assert(ordered_up_to(specs, k - 1, q));
        lemma_splice_prefix(y, specs, table, k - 1, q);
        lemma_splice_prefix(z, specs, table, k - 1, q);
        assert(y.take(q) =~= x.take(q));
        assert(z.take(q) =~= x.take(q));
        assert(y.skip(q) =~= f + x.skip(q));
        assert(z.skip(q) =~= f + x.subrange(q, p));
        let s = spliced(x.take(q), specs, table, k - 1);
        assert(s + (f + x.subrange(q, p)) + x.skip(p) =~= s + (f + x.skip(q)));
    }
}

proof fn lemma_woven(text: Seq<char>, specs: Seq<SpecModel>, table: Seq<ArgModel>, k: int)
    requires
        0 <= k <= specs.len(),
        ordered_up_to(specs, k, text.len() as int),
    ensures
        spliced(text.take(reach(specs, k)), specs, table, k) == woven(text, specs, table, k),
    decreases k,
{
    if k <= 0 {
        assert(text.take(0) =~= Seq::<char>::empty());
    } else {
        let q = reach(specs, k);
        let r = reach(specs, k - 1);
        let f = fragment_at(specs, table, k - 1);
        let x = text.take(q);
        let y = inserted(x, q, f);
        assert(0 <= r <= q) by {
            if k >= 2 {
                assert(specs[k - 2].fmt_pos <= specs[k - 1].fmt_pos);
            }
        }
        assert(ordered_up_to(specs, k - 1, r));
        lemma_splice_prefix(y, specs, table, k - 1, r);
        assert(y.take(r) =~= text.take(r));
        assert(y.skip(r) =~= text.subrange(r, q) + f);
        lemma_woven(text, specs, table, k - 1);
        assert(woven(text, specs, table, k - 1) + (text.subrange(r, q) + f) =~= woven(
            text,
            specs,
            table,
            k,
        ));
    }
}

/// In the rendered text the fragments stand in the order of their
/// placeholders, each between the pieces of the template that stood around
/// its placeholder: putting the fragments in from the last to the first gives
/// the same as writing pieces and fragments down from the left.
pub proof fn lemma_rendered_in_order(tpl: TemplateModel, table: Seq<ArgModel>)
    requires
        sound_template(tpl),
    ensures
        spliced(tpl.text, tpl.specs, table, tpl.specs.len() as int) == woven(
            tpl.text,
            tpl.specs,
            table,
            tpl.specs.len() as int,
        ) + tpl.text.skip(reach(tpl.specs, tpl.specs.len() as int)),
{
    let n = tpl.specs.len() as int;
    let p = reach(tpl.specs, n);
    assert(ordered_up_to(tpl.specs, n, tpl.text.len() as int));
    assert(ordered_up_to(tpl.specs, n, p));
    lemma_splice_prefix(tpl.text, tpl.specs, table, n, p);
    lemma_woven(tpl.text, tpl.specs, table, n);
}

/// `s` with every pair of two `c` in a row, taken from the left, replaced
/// by one `m`.
pub open spec fn pairs_replaced(s: Seq<char>, c: char, m: char) -> Seq<char>
    decreases s.len(),
{
    if s.len() >= 2 && s[0] == c && s[1] == c {
        seq![m] + pairs_replaced(s.skip(2), c, m)
    } else if s.len() >= 1 {
        seq![s[0]] + pairs_replaced(s.skip(1), c, m)
    } else {
        Seq::empty()
    }
}

proof fn lemma_escaped_in_two_passes_from(t: Seq<char>, i: int)
    requires
        0 <= i <= t.len(),
    ensures
        escaped(t, i) == pairs_replaced(
            pairs_replaced(t.skip(i), '{', LEFT_MARK),
            '}',
            RIGHT_MARK,
        ),
    decreases t.len() - i,
{
    let s = t.skip(i);
    let a = pairs_replaced(s, '{', LEFT_MARK);
    if i < t.len() {
        if doubled(t, i, '{') {
            lemma_escaped_in_two_passes_from(t, i + 2);
            let rest = pairs_replaced(s.skip(2), '{', LEFT_MARK);
            assert(s.skip(2) =~= t.skip(i + 2));
            assert(a == seq![LEFT_MARK] + rest);
            assert(a.skip(1) =~= rest);
        } else if doubled(t, i, '}') {
            lemma_escaped_in_two_passes_from(t, i + 2);
            assert(s.skip(1) =~= t.skip(i + 1));
            assert(s.skip(1).skip(1) =~= t.skip(i + 2));
            let rest = pairs_replaced(t.skip(i + 2), '{', LEFT_MARK);
            assert(pairs_replaced(s.skip(1), '{', LEFT_MARK) == seq!['}'] + rest);
            assert(a =~= seq!['}', '}'] + rest);
            assert(a.skip(2) =~= rest);
        } else {
            lemma_escaped_in_two_passes_from(t, i + 1);
            assert(s.skip(1) =~= t.skip(i + 1));
            let rest = pairs_replaced(t.skip(i + 1), '{', LEFT_MARK);
            assert(a == seq![t[i]] + rest);
            assert(a.skip(1) =~= rest);
            if t[i] == '}' && i + 1 < t.len() {
                assert(t.skip(i + 1)[0] == t[i + 1]);
                assert(rest[0] != '}');
            }
        }
    }
}

/// Replacing each doubled brace by its reserved character in one pass from
/// the left gives what two passes give, the first for every `{{` and the
/// second for every `}}`.
pub proof fn lemma_escaped_in_two_passes(t: Seq<char>)
    ensures
        escaped(t, 0) == pairs_replaced(pairs_replaced(t, '{', LEFT_MARK), '}', RIGHT_MARK),
{
    lemma_escaped_in_two_passes_from(t, 0);
    assert(t.skip(0) =~= t);
}

} // verus!
