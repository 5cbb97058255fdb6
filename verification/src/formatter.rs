//! Compiling a template and rendering it with arguments.

use crate::arg::{models, parsed_arg, valid_table, ArgModel, FormatArg, FormatArgs};
use crate::error::{Error, Failure};
use crate::layout::{prepare, prepared};
use crate::render::rendered;
use crate::scanner::{
    contains_mark, escape, escaped, has_mark, lemma_token_order, lemma_token_positions,
    literal_from, restore,
    restored, scan, token_models, tokens_from, well_braced, RawToken, TokenModel,
};
use crate::specifier::{parse_token, Alignment, ArgRef, FormatSpec, SpecModel};
use crate::text::{from_chars, same_text, to_chars};
use crate::width::str_width;
use vstd::prelude::*;

verus! {

/// The mathematical content of a compiled template: its text without the
/// placeholders, doubled braces made single, and what each placeholder asks for.
pub struct TemplateModel {
    pub text: Seq<char>,
    pub specs: Seq<SpecModel>,
}

/// The mathematical content of a sequence of specifiers.
pub open spec fn spec_models(s: Seq<FormatSpec>) -> Seq<SpecModel> {
    Seq::new(s.len(), |k: int| s[k]@)
}

/// What reading the `k`-th placeholder gives.
pub open spec fn token_result(tokens: Seq<TokenModel>, k: int) -> Result<SpecModel, Failure> {
    parse_token(tokens[k].pos, k as nat, tokens[k].text)
}

/// The first index at or after `i` whose placeholder is refused, or the length.
pub open spec fn first_refused(tokens: Seq<TokenModel>, i: int) -> int
    decreases tokens.len() - i,
{
    if 0 <= i < tokens.len() && token_result(tokens, i) is Ok {
        first_refused(tokens, i + 1)
    } else {
        i
    }
}

/// The specifiers of placeholders none of which is refused.
pub open spec fn compiled_specs(tokens: Seq<TokenModel>) -> Seq<SpecModel> {
    Seq::new(tokens.len(), |k: int| token_result(tokens, k)->Ok_0)
}

/// What compiling the template `t` gives.
///
/// A template with a reserved character, or with a brace that belongs to no
/// placeholder, is refused as a whole. Otherwise the placeholders are read
/// from the left, and the first that is refused gives the failure.
pub open spec fn compiled(t: Seq<char>) -> Result<TemplateModel, Failure> {
    let e = escaped(t, 0);
    let tokens = tokens_from(e, 0, 0);
    let bad = first_refused(tokens, 0);
    if has_mark(t) || !well_braced(e, 0) {
        Err(Failure::InvalidFormat)
    } else if 0 <= bad < tokens.len() {
        Err(token_result(tokens, bad)->Err_0)
    } else {
        Ok(TemplateModel { text: restored(literal_from(e, 0)), specs: compiled_specs(tokens) })
    }
}

/// What holds of every compiled template: the placeholders are numbered
/// from the left, each enters the text at or before its end and none before
/// an earlier one, and no width is zero.
pub open spec fn sound_template(m: TemplateModel) -> bool {
    &&& forall|k: int|
        0 <= k < m.specs.len() ==> {
            &&& (#[trigger] m.specs[k]).spec_num == k
            &&& m.specs[k].fmt_pos <= m.text.len()
            &&& m.specs[k].width != Some(0nat)
        }
    &&& forall|a: int, b: int|
        0 <= a <= b < m.specs.len() ==> (#[trigger] m.specs[a]).fmt_pos <= (
        #[trigger] m.specs[b]).fmt_pos
}

/// `first_refused` stays inside the sequence, lands on a refused placeholder
/// where it lands inside, and passes over none.
pub proof fn lemma_first_refused(tokens: Seq<TokenModel>, i: int)
    requires
        0 <= i <= tokens.len(),
    ensures
        i <= first_refused(tokens, i) <= tokens.len(),
        first_refused(tokens, i) < tokens.len() ==> token_result(
            tokens,
            first_refused(tokens, i),
        ) is Err,
        forall|k: int| i <= k < first_refused(tokens, i) ==> token_result(tokens, k) is Ok,
    decreases tokens.len() - i,
{
    if i < tokens.len() && token_result(tokens, i) is Ok {
        lemma_first_refused(tokens, i + 1);
    }
}

/// Every template that compiles is sound.
pub proof fn lemma_compiled_sound(t: Seq<char>)
    ensures
        compiled(t) matches Ok(m) ==> sound_template(m),
{
    if compiled(t) is Ok {
        let e = escaped(t, 0);
        let tokens = tokens_from(e, 0, 0);
        let m = compiled(t)->Ok_0;
        lemma_first_refused(tokens, 0);
        lemma_token_positions(e, 0, 0);
        lemma_token_order(e, 0, 0);
        assert forall|k: int| 0 <= k < m.specs.len() implies (#[trigger] m.specs[k]).spec_num == k
            && m.specs[k].fmt_pos <= m.text.len() && m.specs[k].width != Some(0nat) by {
            assert(token_result(tokens, k) is Ok);
            assert(tokens[k].pos <= literal_from(e, 0).len());
        }
        assert forall|a: int, b: int| 0 <= a <= b < m.specs.len() implies (
        #[trigger] m.specs[a]).fmt_pos <= (#[trigger] m.specs[b]).fmt_pos by {
            assert(token_result(tokens, a) is Ok);
            assert(token_result(tokens, b) is Ok);
            assert(tokens[a].pos <= tokens[b].pos);
        }
    }
}

/// A template one of whose placeholders is refused does not compile.
pub proof fn lemma_refused_token_refuses_template(t: Seq<char>, k: int)
    requires
        0 <= k < tokens_from(escaped(t, 0), 0, 0).len(),
        token_result(tokens_from(escaped(t, 0), 0, 0), k) is Err,
    ensures
        compiled(t) is Err,
{
    lemma_first_refused(tokens_from(escaped(t, 0), 0, 0), 0);
}

/// Whether a specifier is the bare `{}`.
pub open spec fn is_bare(m: SpecModel) -> bool {
    m.arg is Implicit && m.align == Alignment::Left && m.width is None
}

/// The number of bare specifiers among the first `k`.
pub open spec fn bare_count(specs: Seq<SpecModel>, k: int) -> nat
    decreases k,
{
    if k <= 0 {
        0
    } else {
        bare_count(specs, k - 1) + if is_bare(specs[k - 1]) {
            1nat
        } else {
            0nat
        }
    }
}

/// The position that a specifier names, or 0 where it names none.
pub open spec fn named_position(m: SpecModel) -> nat {
    match m.arg {
        ArgRef::Position(n) => n,
        _ => 0,
    }
}

/// The highest position that one of the first `k` specifiers names, or 0.
pub open spec fn highest_position(specs: Seq<SpecModel>, k: int) -> nat
    decreases k,
{
    if k <= 0 {
        0
    } else if named_position(specs[k - 1]) > highest_position(specs, k - 1) {
        named_position(specs[k - 1])
    } else {
        highest_position(specs, k - 1)
    }
}

/// Whether the `k`-th specifier refers to a name that none before it refers to.
pub open spec fn is_new_name(specs: Seq<SpecModel>, k: int) -> bool {
    &&& specs[k].arg is Name
    &&& forall|j: int| 0 <= j < k ==> (#[trigger] specs[j]).arg != specs[k].arg
}

/// The number of different names that the first `k` specifiers refer to.
pub open spec fn name_count(specs: Seq<SpecModel>, k: int) -> nat
    decreases k,
{
    if k <= 0 {
        0
    } else {
        name_count(specs, k - 1) + if is_new_name(specs, k - 1) {
            1nat
        } else {
            0nat
        }
    }
}

/// The number of arguments that a template is taken to expect: the larger of
/// the number of bare placeholders and the highest position named, plus the
/// number of different names.
pub open spec fn expected_count(specs: Seq<SpecModel>) -> nat {
    let n = specs.len() as int;
    (if bare_count(specs, n) >= highest_position(specs, n) {
        bare_count(specs, n)
    } else {
        highest_position(specs, n)
    }) + name_count(specs, n)
}

/// The texts of a sequence of string slices.
pub open spec fn texts(s: Seq<&str>) -> Seq<Seq<char>> {
    Seq::new(s.len(), |i: int| s[i]@)
}

/// The texts of a sequence of strings.
pub open spec fn owned_texts(s: Seq<String>) -> Seq<Seq<char>> {
    Seq::new(s.len(), |i: int| s[i]@)
}

/// The arguments that the texts `args` denote, each at its index.
pub open spec fn table_of(args: Seq<Seq<char>>) -> Seq<ArgModel> {
    Seq::new(args.len(), |i: int| parsed_arg(i as nat, args[i]))
}

/// What rendering the template `tpl` with the argument texts `args` gives:
/// texts that form no table are refused before anything is resolved.
pub open spec fn generated(tpl: TemplateModel, args: Seq<Seq<char>>) -> Result<Seq<char>, Failure> {
    if valid_table(table_of(args)) {
        rendered(tpl, table_of(args))
    } else {
        Err(Failure::InvalidArguments)
    }
}

/// What compiling the template `t` and rendering it with the argument texts
/// `args` gives.
pub open spec fn formatted(t: Seq<char>, args: Seq<Seq<char>>) -> Result<Seq<char>, Failure> {
    match compiled(t) {
        Ok(tpl) => generated(tpl, args),
        Err(f) => Err(f),
    }
}

/// A template that was compiled and can be rendered any number of times.
#[derive(Debug)]
pub struct Formatter {
    expected_args: u8,
    fmt_str: String,
    fmt_spec: Vec<FormatSpec>,
}

impl View for Formatter {
    type V = TemplateModel;

    closed spec fn view(&self) -> TemplateModel {
        TemplateModel { text: self.fmt_str@, specs: spec_models(self.fmt_spec@) }
    }
}

impl Clone for Formatter {
    fn clone(&self) -> (copy: Self)
        ensures
            copy@ == self@,
    {
        proof {
            use_type_invariant(self);
        }
        let mut specs: Vec<FormatSpec> = Vec::new();
        let mut i: usize = 0;
        while i < self.fmt_spec.len()
            invariant
                i <= self.fmt_spec.len(),
                specs@ == self.fmt_spec@.take(i as int),
            decreases self.fmt_spec.len() - i,
        {
            specs.push(self.fmt_spec[i].clone());
            i += 1;
            proof {
                assert(specs@ =~= self.fmt_spec@.take(i as int));
            }
        }
        proof {
            assert(specs@ =~= self.fmt_spec@);
        }
        Formatter { expected_args: self.expected_args, fmt_str: self.fmt_str.clone(), fmt_spec: specs }
    }
}

impl Formatter {
    #[verifier::type_invariant]
    spec fn well_formed(&self) -> bool {
        &&& forall|k: int| 0 <= k < self.fmt_spec@.len() ==> (#[trigger] self.fmt_spec@[k]).wf()
        &&& sound_template(self@)
        &&& self.expected_args as nat == expected_count(self@.specs) % 256
    }

    /// Compiles the template `fmt_str`.
    pub fn new(fmt_str: &str) -> (r: Result<Formatter, Error>)
        ensures
            match r {
                Ok(f) => compiled(fmt_str@) == Ok::<TemplateModel, Failure>(f@) && sound_template(
                    f@,
                ),
                Err(e) => compiled(fmt_str@) == Err::<TemplateModel, Failure>(e@),
            },
    {
        let (s, spec) = match Formatter::parse_fmt(fmt_str) {
            Ok((s, spec)) => (s, spec),
            Err(err) => {
                return Err(err);
            },
        };
        let expected = Formatter::count_expected(&spec);
        proof {
            lemma_compiled_sound(fmt_str@);
        }
        Ok(Formatter { expected_args: expected, fmt_str: s, fmt_spec: spec })
    }

    /// The number of arguments that the template is taken to expect, modulo 256.
    pub fn expected_args(&self) -> (n: u8)
        ensures
            n as nat == expected_count(self@.specs) % 256,
    {
        proof {
            use_type_invariant(self);
        }
        self.expected_args
    }

    /// The text of the template without its placeholders.
    pub fn text(&self) -> (s: &str)
        ensures
            s@ == self@.text,
    {
        self.fmt_str.as_str()
    }

    /// The specifiers of the template, from the left.
    pub fn specs(&self) -> (v: &Vec<FormatSpec>)
        ensures
            spec_models(v@) == self@.specs,
            forall|k: int| 0 <= k < v@.len() ==> (#[trigger] v@[k]).wf(),
    {
        proof {
            use_type_invariant(self);
        }
        &self.fmt_spec
    }

    /// Compiles the template `fmt_str` and renders it with the arguments
    /// that the texts `args` denote.
    pub fn format(fmt_str: &str, args: &[&str]) -> (r: Result<String, Error>)
        ensures
            match r {
                Ok(s) => formatted(fmt_str@, texts(args@)) == Ok::<Seq<char>, Failure>(s@),
                Err(e) => formatted(fmt_str@, texts(args@)) == Err::<Seq<char>, Failure>(e@),
            },
    {
        let formatter = match Formatter::new(fmt_str) {
            Ok(f) => f,
            Err(e) => {
                return Err(e);
            },
        };
        formatter.generate(args)
    }

    /// Compiles the template `fmt_str` and renders it with the arguments
    /// that the strings `args` denote.
    pub fn format_owned(fmt_str: &str, args: &[String]) -> (r: Result<String, Error>)
        ensures
            match r {
                Ok(s) => formatted(fmt_str@, owned_texts(args@)) == Ok::<Seq<char>, Failure>(s@),
                Err(e) => formatted(fmt_str@, owned_texts(args@)) == Err::<Seq<char>, Failure>(e@),
            },
    {
        let formatter = match Formatter::new(fmt_str) {
            Ok(f) => f,
            Err(e) => {
                return Err(e);
            },
        };
        let table = match Formatter::parse_args(args) {
            Ok(t) => t,
            Err(e) => {
                return Err(e);
            },
        };
        formatter.render(&table)
    }

    /// Renders the template with the arguments that the texts `args` denote.
    pub fn generate(&self, args: &[&str]) -> (r: Result<String, Error>)
        ensures
            match r {
                Ok(s) => generated(self@, texts(args@)) == Ok::<Seq<char>, Failure>(s@),
                Err(e) => generated(self@, texts(args@)) == Err::<Seq<char>, Failure>(e@),
            },
    {
        let mut items: Vec<FormatArg> = Vec::new();
        let mut i: usize = 0;
        while i < args.len()
            invariant
                i <= args.len(),
                items@.len() == i,
                forall|j: int|
                    0 <= j < i ==> (#[trigger] items@[j])@ == parsed_arg(j as nat, args@[j]@),
            decreases args.len() - i,
        {
            items.push(FormatArg::new(i, args[i]));
            i += 1;
        }
        proof {
            assert(models(items@) =~= table_of(texts(args@)));
        }
        let table = match FormatArgs::new(items) {
            Ok(t) => t,
            Err(e) => {
                return Err(e);
            },
        };
        self.render(&table)
    }

    /// Renders the template with the arguments of `table`.
    pub fn render(&self, table: &FormatArgs) -> (r: Result<String, Error>)
        ensures
            match r {
                Ok(s) => rendered(self@, table@) == Ok::<Seq<char>, Failure>(s@),
                Err(e) => rendered(self@, table@) == Err::<Seq<char>, Failure>(e@),
            },
    {
        proof {
            use_type_invariant(self);
            assert forall|k: int| 0 <= k < self.fmt_spec@.len() implies (
            #[trigger] self.fmt_spec@[k]).fmt_pos <= self.fmt_str@.len() by {
                assert(self@.specs[k] == self.fmt_spec@[k]@);
            }
        }
        let text = to_chars(self.fmt_str.as_str());
        match crate::render::render(text.as_slice(), &self.fmt_spec, table) {
            Ok(out) => Ok(from_chars(out.as_slice())),
            Err(e) => Err(e),
        }
    }

    /// Fits `s` into a field of `width` columns: unchanged where it is
    /// exactly that wide, padded with spaces where it is narrower, cut at
    /// code-point boundaries where it is wider. A value that needs no cut
    /// comes out exactly `width` columns wide.
    pub fn prepare_string(s: &str, align: Alignment, width: usize) -> (out: String)
        ensures
            out@ == prepared(s@, align, width as nat),
            str_width(s@) <= width ==> str_width(out@) == width,
            str_width(s@) > width ==> str_width(out@) <= width,
    {
        let chars = to_chars(s);
        let fitted = prepare(chars.as_slice(), align, width);
        from_chars(fitted.as_slice())
    }

    /// The table of the arguments that the strings `args` denote, each at
    /// its index; refused where they form no table.
    pub fn parse_args(args: &[String]) -> (r: Result<FormatArgs, Error>)
        ensures
            r is Ok <==> valid_table(table_of(owned_texts(args@))),
            r matches Ok(t) ==> t@ == table_of(owned_texts(args@)),
            r matches Err(e) ==> e@ == Failure::InvalidArguments,
    {
        let mut items: Vec<FormatArg> = Vec::new();
        let mut i: usize = 0;
        while i < args.len()
            invariant
                i <= args.len(),
                items@.len() == i,
                forall|j: int|
                    0 <= j < i ==> (#[trigger] items@[j])@ == parsed_arg(j as nat, args@[j]@),
            decreases args.len() - i,
        {
            items.push(FormatArg::new(i, args[i].as_str()));
            i += 1;
        }
        proof {
            assert(models(items@) =~= table_of(owned_texts(args@)));
        }
        FormatArgs::new(items)
    }

    fn count_expected(specs: &Vec<FormatSpec>) -> (n: u8)
        requires
            forall|k: int| 0 <= k < specs@.len() ==> (#[trigger] specs@[k]).wf(),
        ensures
            n as nat == expected_count(spec_models(specs@)) % 256,
    {
        let ghost models = spec_models(specs@);
        let mut bare: usize = 0;
        let mut highest: usize = 0;
        let mut names: usize = 0;
        let mut k: usize = 0;
        while k < specs.len()
            invariant
                k <= specs.len(),
                models == spec_models(specs@),
                forall|j: int| 0 <= j < specs@.len() ==> (#[trigger] specs@[j]).wf(),
                bare == bare_count(models, k as int),
                highest == highest_position(models, k as int),
                names == name_count(models, k as int),
                bare <= k,
                names <= k,
            decreases specs.len() - k,
        {
            let spec = &specs[k];
            proof {
                assert(models[k as int] == spec@);
                assert(spec.wf());
            }
            if spec.is_empty() {
                bare += 1;
            }
            match spec.arg_num {
                Some(n) => {
                    if n > highest {
                        highest = n;
                    }
                },
                None => {
                    match &spec.arg_name {
                        Some(name) => {
                            let mut seen = false;
                            let mut j: usize = 0;
                            while j < k
                                invariant
                                    j <= k < specs.len(),
                                    models == spec_models(specs@),
                                    models[k as int].arg == ArgRef::Name(name@),
                                    seen == exists|i: int|
                                        0 <= i < j && (#[trigger] models[i]).arg == models[k as int].arg,
                                decreases k - j,
                            {
                                let other = &specs[j];
                                proof {
                                    assert(models[j as int] == other@);
                                }
                                let same = match (&other.arg_num, &other.arg_name) {
                                    (None, Some(n)) => same_text(n.as_str(), name.as_str()),
                                    _ => false,
                                };
                                if same {
                                    seen = true;
                                }
                                j += 1;
                            }
                            if !seen {
                                names += 1;
                            }
                        },
                        None => {},
                    }
                },
            }
            k += 1;
        }
        let larger: u128 = if bare >= highest {
            bare as u128
        } else {
            highest as u128
        };
        ((larger + names as u128) % 256) as u8
    }

    /// Scans the template `s` and reads its placeholders: gives the text
    /// without them and their specifiers.
    pub fn parse_fmt(s: &str) -> (r: Result<(String, Vec<FormatSpec>), Error>)
        ensures
            match r {
                Ok((text, specs)) => compiled(s@) == Ok::<TemplateModel, Failure>(
                    TemplateModel { text: text@, specs: spec_models(specs@) },
                ) && forall|k: int| 0 <= k < specs@.len() ==> (#[trigger] specs@[k]).wf(),
                Err(e) => compiled(s@) == Err::<TemplateModel, Failure>(e@),
            },
    {
        let chars = to_chars(s);
        if contains_mark(chars.as_slice()) {
            return Err(Error::InvalidFormat);
        }
        let e = escape(chars.as_slice());
        let (left, tokens) = match scan(e.as_slice()) {
            Some(found) => found,
            None => {
                return Err(Error::InvalidFormat);
            },
        };
        let ghost models = token_models(tokens@);
        let mut specs: Vec<FormatSpec> = Vec::new();
        let mut k: usize = 0;
        while k < tokens.len()
            invariant
                k <= tokens.len(),
                !has_mark(s@),
                well_braced(escaped(s@, 0), 0),
                models == tokens_from(escaped(s@, 0), 0, 0),
                models == token_models(tokens@),
                first_refused(models, 0) == first_refused(models, k as int),
                specs@.len() == k,
                forall|j: int| 0 <= j < k ==> (#[trigger] specs@[j]).wf(),
                forall|j: int|
                    0 <= j < k ==> token_result(models, j) == Ok::<SpecModel, Failure>(
                        (#[trigger] specs@[j])@,
                    ),
            decreases tokens.len() - k,
        {
            let token: &RawToken = &tokens[k];
            proof {
                assert(models[k as int] == token@);
            }
            match FormatSpec::read(token.pos, k, token.text.as_slice()) {
                Ok(spec) => {
                    specs.push(spec);
                },
                Err(err) => {
                    proof {
                        assert(token_result(models, k as int) == Err::<SpecModel, Failure>(err@));
                    }
                    return Err(err);
                },
            }
            k += 1;
        }
        let cleaned = restore(left.as_slice());
        let text = from_chars(cleaned.as_slice());
        proof {
            assert(spec_models(specs@) =~= compiled_specs(models));
        }
        Ok((text, specs))
    }
}

} // verus!
