//! Placeholder specifiers: what a `{...}` token asks for.

use crate::error::{Error, Failure};
use crate::text::{
    all_digits, check_ident, copy_range, find_char, find_from, from_chars, is_ident, number,
    parse_number, to_chars,
};
use vstd::prelude::*;

verus! {

/// Where a value sits inside a field that is wider than the value, and which
/// end is kept when the field is narrower.
#[derive(Clone, Copy, Debug, PartialEq, Eq, PartialOrd, Ord, Hash, Structural)]
pub enum Alignment {
    Left,
    Center,
    Right,
}

/// Which argument a placeholder refers to.
pub enum ArgRef {
    /// The next argument that no earlier implicit placeholder took.
    Implicit,
    /// The argument at this position.
    Position(nat),
    /// The argument with this name.
    Name(Seq<char>),
}

/// The mathematical content of a [`FormatSpec`].
pub struct SpecModel {
    pub fmt_pos: nat,
    pub spec_num: nat,
    pub arg: ArgRef,
    pub align: Alignment,
    pub width: Option<nat>,
}

/// One placeholder of a template.
///
/// `fmt_pos` is the index, counted in code points, at which the rendered value
/// enters the template once every placeholder is taken out of it; `spec_num`
/// counts the placeholders from the left. At most one of `arg_num` and
/// `arg_name` is set, and a width is at least 1: see [`FormatSpec::wf`].
#[derive(Debug)]
pub struct FormatSpec {
    pub fmt_pos: usize,
    pub spec_num: usize,
    pub arg_num: Option<usize>,
    pub arg_name: Option<String>,
    pub align: Alignment,
    pub width: Option<usize>,
}

impl View for FormatSpec {
    type V = SpecModel;

    open spec fn view(&self) -> SpecModel {
        SpecModel {
            fmt_pos: self.fmt_pos as nat,
            spec_num: self.spec_num as nat,
            arg: match self.arg_num {
                Some(n) => ArgRef::Position(n as nat),
                None => match self.arg_name {
                    Some(name) => ArgRef::Name(name@),
                    None => ArgRef::Implicit,
                },
            },
            align: self.align,
            width: match self.width {
                Some(w) => Some(w as nat),
                None => None,
            },
        }
    }
}

impl Clone for FormatSpec {
    fn clone(&self) -> (copy: Self)
        ensures
            copy == *self,
    {
        FormatSpec {
            fmt_pos: self.fmt_pos,
            spec_num: self.spec_num,
            arg_num: self.arg_num,
            arg_name: match &self.arg_name {
                Some(n) => Some(n.clone()),
                None => None,
            },
            align: self.align,
            width: self.width,
        }
    }
}

/// The reference that stands left of the colon: nothing, a position or a name.
pub open spec fn parse_ref(left: Seq<char>) -> Option<ArgRef> {
    if left.len() == 0 {
        Some(ArgRef::Implicit)
    } else if all_digits(left) && number(left) <= usize::MAX {
        Some(ArgRef::Position(number(left)))
    } else if is_ident(left) {
        Some(ArgRef::Name(left))
    } else {
        None
    }
}

/// The alignment that `c` asks for, if it is an alignment mark.
pub open spec fn align_of(c: char) -> Option<Alignment> {
    if c == '<' {
        Some(Alignment::Left)
    } else if c == '>' {
        Some(Alignment::Right)
    } else if c == '^' {
        Some(Alignment::Center)
    } else {
        None
    }
}

/// The alignment that the text right of the colon asks for.
pub open spec fn layout_align(right: Seq<char>) -> Alignment {
    if right.len() > 0 && align_of(right[0]) is Some {
        align_of(right[0])->0
    } else {
        Alignment::Left
    }
}

/// What follows the alignment mark in the text right of the colon.
pub open spec fn layout_digits(right: Seq<char>) -> Seq<char> {
    if right.len() > 0 && align_of(right[0]) is Some {
        right.skip(1)
    } else {
        right
    }
}

/// What the text right of the colon asks for: an alignment and maybe a
/// width. A width of zero and a width that is no number within `usize` are
/// refused; `entire` is the placeholder that the failure reports.
pub open spec fn parse_layout(entire: Seq<char>, right: Seq<char>) -> Result<
    (Alignment, Option<nat>),
    Failure,
> {
    let digits = layout_digits(right);
    if digits.len() == 0 {
        Ok((layout_align(right), None))
    } else if !all_digits(digits) || number(digits) > usize::MAX {
        Err(Failure::InvalidSpec(entire))
    } else if number(digits) == 0 {
        Err(Failure::ZeroWidth(entire))
    } else {
        Ok((layout_align(right), Some(number(digits))))
    }
}

/// What the text between the braces asks for. It is split at its first
/// colon; the reference on the left is read first.
pub open spec fn parse_inner(entire: Seq<char>, inner: Seq<char>) -> Result<
    (ArgRef, Alignment, Option<nat>),
    Failure,
> {
    let colon = find_from(inner, ':', 0);
    match parse_ref(inner.take(colon)) {
        None => Err(Failure::InvalidSpec(entire)),
        Some(arg) => if colon >= inner.len() {
            Ok((arg, Alignment::Left, None))
        } else {
            match parse_layout(entire, inner.skip(colon + 1)) {
                Err(f) => Err(f),
                Ok((align, width)) => Ok((arg, align, width)),
            }
        },
    }
}

/// Whether `text` opens with `{` and closes with `}`.
pub open spec fn braced(text: Seq<char>) -> bool {
    text.len() >= 2 && text[0] == '{' && text.last() == '}'
}

/// The specifier that the placeholder `text` denotes, for a placeholder that
/// enters the template at `fmt_pos` and is the `spec_num`-th from the left.
pub open spec fn parse_token(fmt_pos: nat, spec_num: nat, text: Seq<char>) -> Result<
    SpecModel,
    Failure,
> {
    if !braced(text) {
        Err(Failure::InvalidSpec(text))
    } else {
        match parse_inner(text, text.subrange(1, text.len() - 1)) {
            Err(f) => Err(f),
            Ok((arg, align, width)) => Ok(SpecModel { fmt_pos, spec_num, arg, align, width }),
        }
    }
}

/// Whether the placeholder `text` asks for a field of width zero: it has a
/// colon, and what follows the alignment mark is a run of zeros.
pub open spec fn asks_zero_width(text: Seq<char>) -> bool {
    let inner = text.subrange(1, text.len() - 1);
    let colon = find_from(inner, ':', 0);
    let digits = layout_digits(inner.skip(colon + 1));
    &&& braced(text)
    &&& colon < inner.len()
    &&& digits.len() > 0
    &&& all_digits(digits)
    &&& number(digits) == 0
}

/// A placeholder that asks for width zero is refused, whatever it refers
/// to; where its reference is well formed, the failure is the one for width
/// zero.
pub proof fn lemma_zero_width_refused(fmt_pos: nat, spec_num: nat, text: Seq<char>)
    requires
        asks_zero_width(text),
    ensures
        parse_token(fmt_pos, spec_num, text) is Err,
        parse_ref(
            text.subrange(1, text.len() - 1).take(
                find_from(text.subrange(1, text.len() - 1), ':', 0),
            ),
        ) is Some ==> parse_token(fmt_pos, spec_num, text) == Err::<SpecModel, Failure>(
            Failure::ZeroWidth(text),
        ),
{
}

/// A specifier that was read from a placeholder never has width zero.
pub proof fn lemma_parsed_width_positive(fmt_pos: nat, spec_num: nat, text: Seq<char>)
    ensures
        parse_token(fmt_pos, spec_num, text) matches Ok(m) ==> (m.width matches Some(w) ==> w >= 1),
{
}

fn align_mark(c: char) -> (a: Option<Alignment>)
    ensures
        a == align_of(c),
{
    if c == '<' {
        Some(Alignment::Left)
    } else if c == '>' {
        Some(Alignment::Right)
    } else if c == '^' {
        Some(Alignment::Center)
    } else {
        None
    }
}

impl FormatSpec {
    /// What holds of every specifier that this library makes: it refers to
    /// its argument in one way only, and its width, if it has one, is positive.
    pub open spec fn wf(&self) -> bool {
        &&& !(self.arg_num is Some && self.arg_name is Some)
        &&& self.width != Some(0usize)
    }

    /// Reads the placeholder `spec_str`, braces included.
    pub fn new(fmt_start: usize, spec_no: usize, spec_str: &str) -> (r: Result<FormatSpec, Error>)
        ensures
            match r {
                Ok(s) => parse_token(fmt_start as nat, spec_no as nat, spec_str@) == Ok::<
                    SpecModel,
                    Failure,
                >(s@) && s.wf(),
                Err(e) => parse_token(fmt_start as nat, spec_no as nat, spec_str@) == Err::<
                    SpecModel,
                    Failure,
                >(e@),
            },
    {
        let text = to_chars(spec_str);
        FormatSpec::read(fmt_start, spec_no, text.as_slice())
    }

    /// Reads the placeholder `text`, braces included.
    pub fn read(fmt_start: usize, spec_no: usize, text: &[char]) -> (r: Result<FormatSpec, Error>)
        ensures
            match r {
                Ok(s) => parse_token(fmt_start as nat, spec_no as nat, text@) == Ok::<
                    SpecModel,
                    Failure,
                >(s@) && s.wf(),
                Err(e) => parse_token(fmt_start as nat, spec_no as nat, text@) == Err::<
                    SpecModel,
                    Failure,
                >(e@),
            },
    {
        let n = text.len();
        if n < 2 || text[0] != '{' || text[n - 1] != '}' {
            return Err(Error::InvalidSpec(from_chars(text)));
        }
        let inner = copy_range(text, 1, n - 1);
        match FormatSpec::parse_spec(text, inner.as_slice()) {
            Err(e) => Err(e),
            Ok(((name, num), (align, width))) => Ok(
                FormatSpec {
                    fmt_pos: fmt_start,
                    spec_num: spec_no,
                    arg_num: num,
                    arg_name: name,
                    align,
                    width,
                },
            ),
        }
    }

    /// Whether the specifier is the bare `{}`: no reference, no width, and
    /// the default alignment.
    pub fn is_empty(&self) -> (b: bool)
        ensures
            b == (self.arg_num is None && self.arg_name is None && self.align == Alignment::Left
                && self.width is None),
    {
        self.arg_num.is_none() && self.arg_name.is_none() && self.align == Alignment::Left
            && self.width.is_none()
    }

    /// Reads what stands between the braces of the placeholder `entire`.
    pub fn parse_spec(entire: &[char], inner: &[char]) -> (r: Result<
        ((Option<String>, Option<usize>), (Alignment, Option<usize>)),
        Error,
    >)
        ensures
            match r {
                Ok(((name, num), (align, width))) => parse_inner(entire@, inner@) == Ok::<
                    (ArgRef, Alignment, Option<nat>),
                    Failure,
                >((ref_model(name, num), align, width_model(width))) && !(name is Some && num is Some)
                    && width != Some(0usize),
                Err(e) => parse_inner(entire@, inner@) == Err::<
                    (ArgRef, Alignment, Option<nat>),
                    Failure,
                >(e@),
            },
    {
        let colon = find_char(inner, ':', 0);
        let left = copy_range(inner, 0, colon);
        proof {
            assert(inner@.subrange(0, colon as int) =~= inner@.take(colon as int));
        }
        let left_side = match FormatSpec::parse_spec_left(entire, left.as_slice()) {
            Ok(p) => p,
            Err(e) => {
                return Err(e);
            },
        };
        if colon < inner.len() {
            let right = copy_range(inner, colon + 1, inner.len());
            proof {
                assert(inner@.subrange(colon + 1, inner@.len() as int) =~= inner@.skip(colon + 1));
            }
            match FormatSpec::parse_spec_right(entire, right.as_slice()) {
                Ok(right_side) => Ok((left_side, right_side)),
                Err(e) => Err(e),
            }
        } else {
            Ok((left_side, (Alignment::Left, None)))
        }
    }

    /// Reads the reference left of the colon of the placeholder `entire`.
    pub fn parse_spec_left(entire: &[char], input: &[char]) -> (r: Result<
        (Option<String>, Option<usize>),
        Error,
    >)
        ensures
            match r {
                Ok((name, num)) => parse_ref(input@) == Some(ref_model(name, num)) && !(name is Some
                    && num is Some),
                Err(e) => parse_ref(input@) is None && e@ == Failure::InvalidSpec(entire@),
            },
    {
        if input.len() == 0 {
            return Ok((None, None));
        }
        match parse_number(input) {
            Some(num) => Ok((None, Some(num))),
            None => {
                if check_ident(input) {
                    Ok((Some(from_chars(input)), None))
                } else {
                    Err(Error::InvalidSpec(from_chars(entire)))
                }
            },
        }
    }

    /// Reads the alignment and width right of the colon of the placeholder
    /// `entire`.
    pub fn parse_spec_right(entire: &[char], input: &[char]) -> (r: Result<
        (Alignment, Option<usize>),
        Error,
    >)
        ensures
            match r {
                Ok((align, width)) => parse_layout(entire@, input@) == Ok::<
                    (Alignment, Option<nat>),
                    Failure,
                >((align, width_model(width))) && width != Some(0usize),
                Err(e) => parse_layout(entire@, input@) == Err::<(Alignment, Option<nat>), Failure>(
                    e@,
                ),
            },
    {
        let mut align = Alignment::Left;
        let mut start: usize = 0;
        if input.len() > 0 {
            match align_mark(input[0]) {
                Some(a) => {
                    align = a;
                    start = 1;
                },
                None => {},
            }
        }
        let digits = copy_range(input, start, input.len());
        proof {
            assert(digits@ =~= layout_digits(input@));
        }
        if digits.len() == 0 {
            return Ok((align, None));
        }
        match parse_number(digits.as_slice()) {
            Some(n) => {
                if n == 0 {
                    Err(Error::ZeroWidth(from_chars(entire)))
                } else {
                    Ok((align, Some(n)))
                }
            },
            None => Err(Error::InvalidSpec(from_chars(entire))),
        }
    }
}

/// The reference that a name and a number, at most one of them set, stand for.
pub open spec fn ref_model(name: Option<String>, num: Option<usize>) -> ArgRef {
    match num {
        Some(n) => ArgRef::Position(n as nat),
        None => match name {
            Some(s) => ArgRef::Name(s@),
            None => ArgRef::Implicit,
        },
    }
}

/// A width as a natural number.
pub open spec fn width_model(width: Option<usize>) -> Option<nat> {
    match width {
        Some(w) => Some(w as nat),
        None => None,
    }
}

} // verus!
