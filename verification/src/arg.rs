//! Arguments of one render call: each has a position, a value and maybe a name.

use crate::error::{Error, Failure};
use crate::text::{
    copy_range, find_char, find_from, from_chars, same_text, to_chars, trim, trimmed,
};
use vstd::prelude::*;
use vstd::set_lib::{lemma_int_range, lemma_len_subset, lemma_subset_equality, set_int_range};
use vstd::std_specs::iter::IteratorSpec;

verus! {

/// One argument: where it stands, what it is called, what it holds.
#[derive(Debug, Default)]
pub struct FormatArg {
    pub pos: usize,
    pub name: Option<String>,
    pub value: String,
}

/// The mathematical content of a [`FormatArg`].
pub struct ArgModel {
    pub pos: nat,
    pub name: Option<Seq<char>>,
    pub value: Seq<char>,
}

impl View for FormatArg {
    type V = ArgModel;

    open spec fn view(&self) -> ArgModel {
        ArgModel {
            pos: self.pos as nat,
            name: match self.name {
                Some(n) => Some(n@),
                None => None,
            },
            value: self.value@,
        }
    }
}

impl Clone for FormatArg {
    fn clone(&self) -> (copy: Self)
        ensures
            copy == *self,
    {
        FormatArg {
            pos: self.pos,
            name: match &self.name {
                Some(n) => Some(n.clone()),
                None => None,
            },
            value: self.value.clone(),
        }
    }
}

/// The argument that the text `text` denotes at position `pos`.
///
/// With an `=` in it, what stands before the first `=` is the name and what
/// stands after it is the value, both without the white space around them; an
/// empty name counts as none. Without an `=`, the whole text is the value.
pub open spec fn parsed_arg(pos: nat, text: Seq<char>) -> ArgModel {
    let eq = find_from(text, '=', 0);
    if eq < text.len() {
        let name = trimmed(text.take(eq));
        ArgModel {
            pos,
            name: if name.len() > 0 {
                Some(name)
            } else {
                None
            },
            value: trimmed(text.skip(eq + 1)),
        }
    } else {
        ArgModel { pos, name: None, value: trimmed(text) }
    }
}

impl FormatArg {
    /// Reads one argument from its text.
    pub fn new(arg_position: usize, arg_text: &str) -> (arg: FormatArg)
        ensures
            arg@ == parsed_arg(arg_position as nat, arg_text@),
    {
        let chars = to_chars(arg_text);
        let eq = find_char(chars.as_slice(), '=', 0);
        if eq < chars.len() {
            let before = copy_range(chars.as_slice(), 0, eq);
            let after = copy_range(chars.as_slice(), eq + 1, chars.len());
            let name = trim(before.as_slice());
            let value = trim(after.as_slice());
            proof {
                assert(chars@.subrange(0, eq as int) =~= arg_text@.take(eq as int));
                assert(chars@.subrange(eq + 1, chars@.len() as int) =~= arg_text@.skip(eq + 1));
            }
            FormatArg {
                pos: arg_position,
                name: if name.len() > 0 {
                    Some(from_chars(name.as_slice()))
                } else {
                    None
                },
                value: from_chars(value.as_slice()),
            }
        } else {
            let value = trim(chars.as_slice());
            FormatArg { pos: arg_position, name: None, value: from_chars(value.as_slice()) }
        }
    }

    /// Whether the argument is called `name`.
    pub fn is_named(&self, name: &str) -> (b: bool)
        ensures
            b == (self@.name == Some(name@)),
    {
        match &self.name {
            Some(n) => same_text(n.as_str(), name),
            None => false,
        }
    }

    /// Whether the argument stands at `pos`.
    pub fn is_pos(&self, pos: usize) -> (b: bool)
        ensures
            b == (self@.pos == pos),
    {
        self.pos == pos
    }

    /// Where the argument stands.
    pub fn pos(&self) -> (p: usize)
        ensures
            p == self@.pos,
    {
        self.pos
    }

    /// What the argument is called.
    pub fn name(&self) -> (n: Option<&str>)
        ensures
            match n {
                Some(t) => self@.name == Some(t@),
                None => self@.name is None,
            },
    {
        match &self.name {
            Some(n) => Some(n.as_str()),
            None => None,
        }
    }

    /// What the argument holds.
    pub fn value(&self) -> (v: &str)
        ensures
            v@ == self@.value,
    {
        self.value.as_str()
    }

    /// Whether the argument holds anything.
    pub fn has_value(&self) -> (b: bool)
        ensures
            b == (self@.value.len() > 0),
    {
        !self.value.as_str().is_empty()
    }
}

/// The mathematical content of a sequence of arguments.
pub open spec fn models(s: Seq<FormatArg>) -> Seq<ArgModel> {
    Seq::new(s.len(), |i: int| s[i]@)
}

/// What makes a sequence of arguments a table: every value holds something,
/// the positions are below the length and differ from each other (so they are
/// exactly `0..len`), and no name occurs twice.
pub open spec fn valid_table(t: Seq<ArgModel>) -> bool {
    &&& forall|i: int| 0 <= i < t.len() ==> (#[trigger] t[i]).value.len() > 0
    &&& forall|i: int| 0 <= i < t.len() ==> (#[trigger] t[i]).pos < t.len()
    &&& forall|i: int, j: int|
        0 <= i < t.len() && 0 <= j < t.len() && i != j ==> (#[trigger] t[i]).pos != (
        #[trigger] t[j]).pos
    &&& forall|i: int, j: int|
        0 <= i < t.len() && 0 <= j < t.len() && i != j && (#[trigger] t[i]).name is Some ==> t[i].name
            != (#[trigger] t[j]).name
}

/// The first index at or after `i` whose argument stands at `p`, or the length.
pub open spec fn position_index(t: Seq<ArgModel>, p: nat, i: int) -> int
    decreases t.len() - i,
{
    if 0 <= i < t.len() && t[i].pos != p {
        position_index(t, p, i + 1)
    } else {
        i
    }
}

/// The first index at or after `i` whose argument is called `name`, or the length.
pub open spec fn name_index(t: Seq<ArgModel>, name: Seq<char>, i: int) -> int
    decreases t.len() - i,
{
    if 0 <= i < t.len() && t[i].name != Some(name) {
        name_index(t, name, i + 1)
    } else {
        i
    }
}

/// The value of the argument at position `p`, if `p` is below the length and
/// an argument stands there.
pub open spec fn positional_value(t: Seq<ArgModel>, p: nat) -> Option<Seq<char>> {
    let k = position_index(t, p, 0);
    if p < t.len() && 0 <= k < t.len() {
        Some(t[k].value)
    } else {
        None
    }
}

/// The value of the argument called `name`, if there is one.
pub open spec fn named_value(t: Seq<ArgModel>, name: Seq<char>) -> Option<Seq<char>> {
    let k = name_index(t, name, 0);
    if 0 <= k < t.len() {
        Some(t[k].value)
    } else {
        None
    }
}

/// `position_index` stays inside the table, lands on an argument at `p` where
/// it lands inside, and passes over none.
pub proof fn lemma_position_index(t: Seq<ArgModel>, p: nat, i: int)
    requires
        0 <= i <= t.len(),
    ensures
        i <= position_index(t, p, i) <= t.len(),
        position_index(t, p, i) < t.len() ==> t[position_index(t, p, i)].pos == p,
        forall|k: int| i <= k < position_index(t, p, i) ==> (#[trigger] t[k]).pos != p,
    decreases t.len() - i,
{
    if i < t.len() && t[i].pos != p {
        lemma_position_index(t, p, i + 1);
    }
}

/// `name_index` stays inside the table, lands on an argument called `name`
/// where it lands inside, and passes over none.
pub proof fn lemma_name_index(t: Seq<ArgModel>, name: Seq<char>, i: int)
    requires
        0 <= i <= t.len(),
    ensures
        i <= name_index(t, name, i) <= t.len(),
        name_index(t, name, i) < t.len() ==> t[name_index(t, name, i)].name == Some(name),
        forall|k: int| i <= k < name_index(t, name, i) ==> (#[trigger] t[k]).name != Some(name),
    decreases t.len() - i,
{
    if i < t.len() && t[i].name != Some(name) {
        lemma_name_index(t, name, i + 1);
    }
}

/// In a valid table every position below the length is taken.
pub proof fn lemma_positions_cover(t: Seq<ArgModel>, p: nat)
    requires
        valid_table(t),
        p < t.len(),
    ensures
        exists|j: int| 0 <= j < t.len() && (#[trigger] t[j]).pos == p,
{
    let n = t.len() as int;
    let ps = Seq::new(t.len(), |i: int| t[i].pos as int);
    assert(ps.no_duplicates());
    ps.unique_seq_to_set();
    lemma_int_range(0, n);
    assert(ps.to_set().subset_of(set_int_range(0, n))) by {
        assert forall|x: int| ps.to_set().contains(x) implies set_int_range(0, n).contains(x) by {
            let i = choose|i: int| 0 <= i < ps.len() && ps[i] == x;
            assert(t[i].pos < t.len());
        }
    }
    lemma_len_subset(ps.to_set(), set_int_range(0, n));
    lemma_subset_equality(ps.to_set(), set_int_range(0, n));
    assert(set_int_range(0, n).contains(p as int));
    assert(ps.to_set().contains(p as int));
    let j = choose|j: int| 0 <= j < ps.len() && ps[j] == p as int;
    assert(t[j].pos == p);
}

/// A valid table answers every position below its length, and no other.
pub proof fn lemma_valid_table_lookup(t: Seq<ArgModel>, p: nat)
    requires
        valid_table(t),
    ensures
        positional_value(t, p) is Some <==> p < t.len(),
{
    if p < t.len() {
        lemma_positions_cover(t, p);
        lemma_position_index(t, p, 0);
    }
}

/// Whether `v` is a table.
fn check_table(v: &Vec<FormatArg>) -> (ok: bool)
    ensures
        ok == valid_table(models(v@)),
{
    let n = v.len();
    let ghost t = models(v@);
    let mut i: usize = 0;
    while i < n
        invariant
            i <= n,
            n == v.len(),
            t == models(v@),
            forall|a: int| 0 <= a < i ==> (#[trigger] t[a]).value.len() > 0,
            forall|a: int| 0 <= a < i ==> (#[trigger] t[a]).pos < t.len(),
            forall|a: int, b: int|
                0 <= a < i && 0 <= b < i && a != b ==> (#[trigger] t[a]).pos != (#[trigger] t[b]).pos,
            forall|a: int, b: int|
                0 <= a < i && 0 <= b < i && a != b && (#[trigger] t[a]).name is Some ==> t[a].name
                    != (#[trigger] t[b]).name,
        decreases n - i,
    {
        if !v[i].has_value() || v[i].pos >= n {
            proof {
                assert(t[i as int] == v@[i as int]@);
            }
            return false;
        }
        let mut j: usize = 0;
        while j < i
            invariant
                j <= i < n,
                n == v.len(),
                t == models(v@),
                forall|b: int| 0 <= b < j ==> (#[trigger] t[b]).pos != t[i as int].pos,
                forall|b: int|
                    0 <= b < j && t[i as int].name is Some ==> (#[trigger] t[b]).name != t[i as int].name,
            decreases i - j,
        {
            proof {
                assert(t[i as int] == v@[i as int]@);
                assert(t[j as int] == v@[j as int]@);
            }
            if v[j].pos == v[i].pos {
                return false;
            }
            let clash = match (&v[i].name, &v[j].name) {
                (Some(x), Some(y)) => same_text(x.as_str(), y.as_str()),
                _ => false,
            };
            if clash {
                proof {
                    assert(t[i as int].name is Some);
                    assert(t[i as int].name == t[j as int].name);
                }
                return false;
            }
            j += 1;
        }
        proof {
            assert(t[i as int] == v@[i as int]@);
        }
        i += 1;
    }
    true
}

/// The arguments of one render call.
///
/// Every table is valid: see [`valid_table`].
#[derive(Debug, Default)]
pub struct FormatArgs(Vec<FormatArg>);

impl Clone for FormatArgs {
    fn clone(&self) -> (copy: Self)
        ensures
            copy.items() == self.items(),
    {
        proof {
            use_type_invariant(self);
        }
        let mut items: Vec<FormatArg> = Vec::new();
        let mut i: usize = 0;
        while i < self.0.len()
            invariant
                i <= self.0.len(),
                items@ == self.0@.take(i as int),
            decreases self.0.len() - i,
        {
            items.push(self.0[i].clone());
            i += 1;
            proof {
                assert(items@ =~= self.0@.take(i as int));
            }
        }
        proof {
            assert(items@ =~= self.0@);
        }
        FormatArgs(items)
    }
}

impl View for FormatArgs {
    type V = Seq<ArgModel>;

    open spec fn view(&self) -> Seq<ArgModel> {
        models(self.items())
    }
}

impl FormatArgs {
    /// The arguments as they are held.
    pub closed spec fn items(&self) -> Seq<FormatArg> {
        self.0@
    }

    #[verifier::type_invariant]
    spec fn well_formed(&self) -> bool {
        valid_table(models(self.0@))
    }

    /// Makes a table of `input`, or refuses it where it is none.
    pub fn new(input: Vec<FormatArg>) -> (r: Result<FormatArgs, Error>)
        ensures
            r is Ok <==> valid_table(models(input@)),
            r matches Ok(t) ==> t.items() == input@,
            r matches Err(e) ==> e@ == Failure::InvalidArguments,
    {
        if check_table(&input) {
            Ok(FormatArgs(input))
        } else {
            Err(Error::InvalidArguments)
        }
    }

    /// Whether the table is valid, which it always is.
    pub fn is_valid(&self) -> (b: bool)
        ensures
            b,
            valid_table(self@),
    {
        proof {
            use_type_invariant(self);
        }
        check_table(&self.0)
    }

    /// The table without arguments.
    pub fn empty() -> (t: FormatArgs)
        ensures
            t@ == Seq::<ArgModel>::empty(),
    {
        let t = FormatArgs(Vec::new());
        proof {
            assert(t@ =~= Seq::<ArgModel>::empty());
        }
        t
    }

    /// Adds the argument that `a` denotes at position `n`, where the result
    /// is a table again; otherwise leaves the table as it is.
    pub fn push(&mut self, n: usize, a: &str) -> (r: Result<(), Error>)
        ensures
            r is Ok <==> valid_table(old(self)@.push(parsed_arg(n as nat, a@))),
            r is Ok ==> final(self)@ == old(self)@.push(parsed_arg(n as nat, a@)),
            r matches Err(e) ==> final(self)@ == old(self)@ && e@ == Failure::InvalidArguments,
    {
        proof {
            use_type_invariant(&*self);
        }
        let arg = FormatArg::new(n, a);
        let ghost before = self@;
        let ghost after = before.push(arg@);
        if !arg.has_value() || n != self.0.len() {
            proof {
                if n < before.len() {
                    lemma_positions_cover(before, n as nat);
                    let j = choose|j: int| 0 <= j < before.len() && (#[trigger] before[j]).pos == n;
                    assert(after[j] == before[j]);
                    assert(after[before.len() as int] == arg@);
                    assert(after[j].pos == after[before.len() as int].pos);
                } else {
                    assert(after[before.len() as int] == arg@);
                }
            }
            return Err(Error::InvalidArguments);
        }
        let taken = match &arg.name {
            Some(name) => self.name_position(name.as_str()) < self.0.len(),
            None => false,
        };
        if taken {
            proof {
                let name = arg@.name->0;
                lemma_name_index(before, name, 0);
                let k = name_index(before, name, 0);
                assert(after[k] == before[k]);
                assert(after[before.len() as int] == arg@);
                assert(after[before.len() as int].name is Some);
                assert(after[before.len() as int].name == after[k].name);
            }
            return Err(Error::InvalidArguments);
        }
        proof {
            assert forall|i: int| 0 <= i < after.len() implies (#[trigger] after[i]).value.len() > 0
                && after[i].pos < after.len() by {
                if i < before.len() {
                    assert(after[i] == before[i]);
                }
            }
            assert forall|i: int, j: int|
                0 <= i < after.len() && 0 <= j < after.len() && i != j implies (#[trigger] after[i]).pos
                != (#[trigger] after[j]).pos by {
                if i < before.len() {
                    assert(after[i] == before[i]);
                }
                if j < before.len() {
                    assert(after[j] == before[j]);
                }
            }
            assert forall|i: int, j: int|
                0 <= i < after.len() && 0 <= j < after.len() && i != j && (
                #[trigger] after[i]).name is Some implies after[i].name != (#[trigger] after[j]).name by {
                if i < before.len() {
                    assert(after[i] == before[i]);
                }
                if j < before.len() {
                    assert(after[j] == before[j]);
                }
                if arg@.name is Some {
                    lemma_name_index(before, arg@.name->0, 0);
                }
            }
            assert(models(self.0@.push(arg)) =~= after);
        }
        let mut taken = FormatArgs(Vec::new());
        std::mem::swap(self, &mut taken);
        let mut items = taken.0;
        items.push(arg);
        *self = FormatArgs(items);
        Ok(())
    }

    /// An iterator over the arguments, in the order in which they were given.
    pub fn iter(&self) -> (it: std::slice::Iter<'_, FormatArg>)
        ensures
            IteratorSpec::remaining(&it) == self.items().as_ref(),
    {
        broadcast use vstd::std_specs::slice::axiom_spec_slice_iter;

        self.0.as_slice().iter()
    }

    fn name_position(&self, name: &str) -> (k: usize)
        ensures
            k == name_index(self@, name@, 0),
            k <= self@.len(),
            self@.len() == self.0@.len(),
    {
        let mut i: usize = 0;
        while i < self.0.len() && !self.0[i].is_named(name)
            invariant
                i <= self.0.len(),
                name_index(self@, name@, 0) == name_index(self@, name@, i as int),
            decreases self.0.len() - i,
        {
            proof {
                assert(self@[i as int] == self.0@[i as int]@);
            }
            i += 1;
        }
        proof {
            if i < self.0.len() {
                assert(self@[i as int] == self.0@[i as int]@);
            }
        }
        i
    }

    /// The value of the argument called `name`.
    pub fn get_named(&self, name: &str) -> (v: Option<&String>)
        ensures
            match v {
                Some(s) => named_value(self@, name@) == Some(s@),
                None => named_value(self@, name@) is None,
            },
    {
        let k = self.name_position(name);
        if k < self.0.len() {
            proof {
                assert(self@[k as int] == self.0@[k as int]@);
            }
            Some(&self.0[k].value)
        } else {
            None
        }
    }

    /// The value of the argument at position `pos`: there is one exactly
    /// where `pos` is below the number of arguments.
    pub fn get(&self, pos: usize) -> (v: Option<&String>)
        ensures
            match v {
                Some(s) => positional_value(self@, pos as nat) == Some(s@),
                None => positional_value(self@, pos as nat) is None,
            },
            v is Some <==> pos < self@.len(),
    {
        proof {
            use_type_invariant(self);
            lemma_valid_table_lookup(self@, pos as nat);
        }
        if pos >= self.0.len() {
            return None;
        }
        let mut i: usize = 0;
        while i < self.0.len() && !self.0[i].is_pos(pos)
            invariant
                i <= self.0.len(),
                position_index(self@, pos as nat, 0) == position_index(self@, pos as nat, i as int),
            decreases self.0.len() - i,
        {
            proof {
                assert(self@[i as int] == self.0@[i as int]@);
            }
            i += 1;
        }
        if i < self.0.len() {
            proof {
                assert(self@[i as int] == self.0@[i as int]@);
            }
            Some(&self.0[i].value)
        } else {
            None
        }
    }

    /// The number of arguments.
    pub fn len(&self) -> (n: usize)
        ensures
            n == self@.len(),
    {
        self.0.len()
    }

    /// Whether there is no argument.
    pub fn is_empty(&self) -> (b: bool)
        ensures
            b == (self@.len() == 0),
    {
        self.0.len() == 0
    }

    /// The arguments as they are held.
    pub fn inner(&self) -> (v: &Vec<FormatArg>)
        ensures
            v@ == self.items(),
    {
        &self.0
    }
}

} // verus!
