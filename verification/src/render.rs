//! Resolving the placeholders of a template against a table of arguments and
//! putting the values into the text.

use crate::arg::{named_value, positional_value, ArgModel, FormatArgs};
use crate::error::{Error, Failure};
use crate::formatter::{spec_models, TemplateModel};
use crate::layout::{prepare, prepared};
use crate::specifier::{ArgRef, FormatSpec, SpecModel};
use crate::text::to_chars;
use vstd::prelude::*;

verus! {

/// The implicit counter when the `k`-th specifier is reached: the number of
/// implicit references among the specifiers before it.
pub open spec fn counter_at(specs: Seq<SpecModel>, k: int) -> nat
    decreases k,
{
    if k <= 0 {
        0
    } else {
        counter_at(specs, k - 1) + if specs[k - 1].arg is Implicit {
            1nat
        } else {
            0nat
        }
    }
}

/// The value of the argument at position `n`, or the failure that names `n`
/// and the number of arguments.
pub open spec fn value_at(table: Seq<ArgModel>, n: nat) -> Result<Seq<char>, Failure> {
    match positional_value(table, n) {
        Some(v) => Ok(v),
        None => Err(Failure::BadArgNumber(n, table.len())),
    }
}

/// The value that the `k`-th specifier refers to. An implicit reference
/// reads the position that the implicit counter holds; a position and a name
/// do not read the counter.
pub open spec fn resolved(specs: Seq<SpecModel>, table: Seq<ArgModel>, k: int) -> Result<
    Seq<char>,
    Failure,
> {
    match specs[k].arg {
        ArgRef::Position(n) => value_at(table, n),
        ArgRef::Name(id) => match named_value(table, id) {
            Some(v) => Ok(v),
            None => Err(Failure::BadArgName(id)),
        },
        ArgRef::Implicit => value_at(table, counter_at(specs, k)),
    }
}

/// The text that stands for `value` under the specifier `m`: the value
/// itself where no width is asked for, else the value fitted to the width.
pub open spec fn fragment(m: SpecModel, value: Seq<char>) -> Seq<char> {
    match m.width {
        Some(w) => prepared(value, m.align, w),
        None => value,
    }
}

/// The text that stands for the `k`-th specifier.
pub open spec fn fragment_at(specs: Seq<SpecModel>, table: Seq<ArgModel>, k: int) -> Seq<char> {
    fragment(specs[k], resolved(specs, table, k)->Ok_0)
}

/// The first index at or after `i` whose specifier refers to no argument, or
/// the length.
pub open spec fn first_unresolved(specs: Seq<SpecModel>, table: Seq<ArgModel>, i: int) -> int
    decreases specs.len() - i,
{
    if 0 <= i < specs.len() && resolved(specs, table, i) is Ok {
        first_unresolved(specs, table, i + 1)
    } else {
        i
    }
}

/// `text` with `frag` put in at index `p`.
pub open spec fn inserted(text: Seq<char>, p: int, frag: Seq<char>) -> Seq<char> {
    text.take(p) + frag + text.skip(p)
}

/// `text` with the fragments of the first `k` specifiers put in, the last
/// of them first, each at the index that its specifier gives.
pub open spec fn spliced(text: Seq<char>, specs: Seq<SpecModel>, table: Seq<ArgModel>, k: int) -> Seq<
    char,
>
    decreases k,
{
    if k <= 0 {
        text
    } else {
        spliced(
            inserted(text, specs[k - 1].fmt_pos as int, fragment_at(specs, table, k - 1)),
            specs,
            table,
            k - 1,
        )
    }
}

/// What rendering the template `tpl` with the table `table` gives: the
/// failure of the first specifier that refers to no argument, or the text
/// with every fragment put in.
pub open spec fn rendered(tpl: TemplateModel, table: Seq<ArgModel>) -> Result<Seq<char>, Failure> {
    let bad = first_unresolved(tpl.specs, table, 0);
    if 0 <= bad < tpl.specs.len() {
        Err(resolved(tpl.specs, table, bad)->Err_0)
    } else {
        Ok(spliced(tpl.text, tpl.specs, table, tpl.specs.len() as int))
    }
}

/// `first_unresolved` stays inside the sequence, lands on a specifier that
/// refers to no argument where it lands inside, and passes over none.
pub proof fn lemma_first_unresolved(specs: Seq<SpecModel>, table: Seq<ArgModel>, i: int)
    requires
        0 <= i <= specs.len(),
    ensures
        i <= first_unresolved(specs, table, i) <= specs.len(),
        first_unresolved(specs, table, i) < specs.len() ==> resolved(
            specs,
            table,
            first_unresolved(specs, table, i),
        ) is Err,
        forall|k: int| i <= k < first_unresolved(specs, table, i) ==> resolved(specs, table, k) is Ok,
    decreases specs.len() - i,
{
    if i < specs.len() && resolved(specs, table, i) is Ok {
        lemma_first_unresolved(specs, table, i + 1);
    }
}

/// `text` with `frag` put in at index `p`.
pub fn insert_at(text: &[char], p: usize, frag: &[char]) -> (out: Vec<char>)
    requires
        p <= text.len(),
    ensures
        out@ == inserted(text@, p as int, frag@),
{
    let mut out: Vec<char> = Vec::new();
    let mut i: usize = 0;
    while i < p
        invariant
            i <= p <= text.len(),
            out@ == text@.take(i as int),
        decreases p - i,
    {
        out.push(text[i]);
        i += 1;
        proof {
            assert(out@ =~= text@.take(i as int));
        }
    }
    let mut j: usize = 0;
    while j < frag.len()
        invariant
            j <= frag.len(),
            p <= text.len(),
            out@ == text@.take(p as int) + frag@.take(j as int),
        decreases frag.len() - j,
    {
        out.push(frag[j]);
        j += 1;
        proof {
            assert(out@ =~= text@.take(p as int) + frag@.take(j as int));
        }
    }
    proof {
        assert(frag@.take(j as int) =~= frag@);
    }
    let mut i: usize = p;
    while i < text.len()
        invariant
            p <= i <= text.len(),
            out@ == text@.take(p as int) + frag@ + text@.subrange(p as int, i as int),
        decreases text.len() - i,
    {
        out.push(text[i]);
        i += 1;
        proof {
            assert(out@ =~= text@.take(p as int) + frag@ + text@.subrange(p as int, i as int));
        }
    }
    proof {
        assert(text@.subrange(p as int, i as int) =~= text@.skip(p as int));
    }
    out
}

/// Renders the text `text` with the specifiers `specs` against `table`.
pub fn render(text: &[char], specs: &Vec<FormatSpec>, table: &FormatArgs) -> (r: Result<
    Vec<char>,
    Error,
>)
    requires
        forall|k: int|
            0 <= k < specs@.len() ==> (#[trigger] specs@[k]).wf() && specs@[k].fmt_pos <= text@.len(),
    ensures
        match r {
            Ok(out) => rendered(TemplateModel { text: text@, specs: spec_models(specs@) }, table@)
                == Ok::<Seq<char>, Failure>(out@),
            Err(e) => rendered(TemplateModel { text: text@, specs: spec_models(specs@) }, table@)
                == Err::<Seq<char>, Failure>(e@),
        },
{
    let ghost models = spec_models(specs@);
    let ghost tbl = table@;
    let mut frags: Vec<Vec<char>> = Vec::new();
    let mut counter: usize = 0;
    let mut k: usize = 0;
    while k < specs.len()
        invariant
            k <= specs.len(),
            models == spec_models(specs@),
            tbl == table@,
            counter == counter_at(models, k as int),
            counter <= k,
            frags@.len() == k,
            first_unresolved(models, tbl, 0) == first_unresolved(models, tbl, k as int),
            forall|j: int| 0 <= j < k ==> (#[trigger] frags@[j])@ == fragment_at(models, tbl, j),
        decreases specs.len() - k,
    {
        let spec = &specs[k];
        proof {
            assert(models[k as int] == spec@);
        }
        let ghost before = counter;
        let value: &String = match spec.arg_num {
            Some(num) => match table.get(num) {
                Some(s) => s,
                None => {
                    return Err(Error::bad_arg_num(num, table.len()));
                },
            },
            None => match &spec.arg_name {
                Some(name) => match table.get_named(name.as_str()) {
                    Some(s) => s,
                    None => {
                        return Err(Error::bad_arg_name(name.as_str()));
                    },
                },
                None => match table.get(counter) {
                    Some(s) => {
                        counter += 1;
                        s
                    },
                    None => {
                        return Err(Error::bad_arg_num(counter, table.len()));
                    },
                },
            },
        };
        proof {
            assert(resolved(models, tbl, k as int) == Ok::<Seq<char>, Failure>(value@));
        }
        let chars = to_chars(value.as_str());
        let frag = match spec.width {
            Some(w) => prepare(chars.as_slice(), spec.align, w),
            None => chars,
        };
        proof {
            assert(frag@ == fragment_at(models, tbl, k as int));
        }
        frags.push(frag);
        k += 1;
    }
    let mut out: Vec<char> = crate::text::copy_range(text, 0, text.len());
    proof {
        assert(out@ =~= text@);
    }
    let mut k: usize = specs.len();
    while k > 0
        invariant
            k <= specs.len(),
            frags@.len() == specs@.len(),
            models == spec_models(specs@),
            tbl == table@,
            out@.len() >= text@.len(),
            forall|j: int| 0 <= j < specs@.len() ==> (#[trigger] specs@[j]).fmt_pos <= text@.len(),
            forall|j: int|
                0 <= j < specs@.len() ==> (#[trigger] frags@[j])@ == fragment_at(models, tbl, j),
            spliced(text@, models, tbl, specs@.len() as int) == spliced(out@, models, tbl, k as int),
        decreases k,
    {
        k -= 1;
        proof {
            assert(models[k as int] == specs@[k as int]@);
        }
        out = insert_at(out.as_slice(), specs[k].fmt_pos, frags[k].as_slice());
    }
    Ok(out)
}

} // verus!
