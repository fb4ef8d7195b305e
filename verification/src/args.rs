//! Positional arguments: typed cells without a name, known by their handle.

use vstd::prelude::*;
use crate::decimal::{decimal_text, lemma_uint_text_reads_back, text_as_uint};
use crate::flag::{FlagKind, FlagValue};
use crate::text::{bool_text, lemma_bool_text_reads_back, text_as_bool};

verus! {

/// What an argument is, as plain values.
pub struct ArgView {
    pub desc: Seq<char>,
    pub kind: FlagKind,
    pub value: Seq<char>,
    pub mandatory: bool,
}

/// A typed cell with a description and its value as text.
#[derive(Debug)]
pub struct Arg {
    desc: String,
    kind: FlagKind,
    value: String,
    mandatory: bool,
}

impl View for Arg {
    type V = ArgView;

    closed spec fn view(&self) -> ArgView {
        ArgView {
            desc: self.desc@,
            kind: self.kind,
            value: self.value@,
            mandatory: self.mandatory,
        }
    }
}

impl Arg {
    /// An argument of the default's kind, whose value is the default's
    /// canonical text. No argument is mandatory when it is made.
    pub fn new(desc: String, default: FlagValue) -> (arg: Arg)
        ensures
            arg@ == (ArgView {
                desc: desc@,
                kind: default.spec_kind(),
                value: default.spec_text(),
                mandatory: false,
            }),
    {
        let kind = default.kind();
        Arg { desc, kind, value: default.into_text(), mandatory: false }
    }

    pub fn desc(&self) -> (desc: &str)
        ensures
            desc@ == self@.desc,
    {
        self.desc.as_str()
    }

    pub fn kind(&self) -> (kind: FlagKind)
        ensures
            kind == self@.kind,
    {
        self.kind
    }

    pub fn value(&self) -> (value: &str)
        ensures
            value@ == self@.value,
    {
        self.value.as_str()
    }

    pub fn mandatory(&self) -> (mandatory: bool)
        ensures
            mandatory == self@.mandatory,
    {
        self.mandatory
    }
}

/// Arguments in the order in which they were added.
#[derive(Debug)]
pub struct Args(Vec<Arg>);

impl View for Args {
    type V = Seq<ArgView>;

    closed spec fn view(&self) -> Seq<ArgView> {
        self.0@.map_values(|a: Arg| a@)
    }
}

impl Args {
    /// No arguments yet.
    pub fn new() -> (args: Args)
        ensures
            args@ == Seq::<ArgView>::empty(),
    {
        let args = Args(Vec::new());
        assert(args@ =~= Seq::<ArgView>::empty());
        args
    }

    /// The number of arguments added so far.
    pub fn len(&self) -> (n: usize)
        ensures
            n == self@.len(),
    {
        self.0.len()
    }

    /// Adds an argument of the default's kind behind those that are there,
    /// and returns its handle.
    pub fn add(&mut self, desc: String, default: FlagValue) -> (idx: usize)
        ensures
            idx == old(self)@.len(),
            final(self)@ == old(self)@.push(
                ArgView {
                    desc: desc@,
                    kind: default.spec_kind(),
                    value: default.spec_text(),
                    mandatory: false,
                },
            ),
    {
        let idx: usize = self.0.len();
        self.0.push(Arg::new(desc, default));
        assert(self@ =~= old(self)@.push(self.0@[idx as int]@));
        idx
    }

    /// Adds a string argument; its value is the default itself.
    pub fn new_str(&mut self, desc: &str, default: &str) -> (idx: usize)
        ensures
            idx == old(self)@.len(),
            final(self)@ == old(self)@.push(
                ArgView { desc: desc@, kind: FlagKind::Str, value: default@, mandatory: false },
            ),
    {
        self.add(desc.to_owned(), FlagValue::Str(default.to_owned()))
    }

    /// Adds a boolean argument; its value reads back as the default.
    pub fn new_bool(&mut self, desc: &str, default: bool) -> (idx: usize)
        ensures
            idx == old(self)@.len(),
            final(self)@ == old(self)@.push(
                ArgView {
                    desc: desc@,
                    kind: FlagKind::Bool,
                    value: bool_text(default),
                    mandatory: false,
                },
            ),
            text_as_bool(final(self)@[idx as int].value) == Some(default),
    {
        proof {
            lemma_bool_text_reads_back(default);
        }
        self.add(desc.to_owned(), FlagValue::Bool(default))
    }

    /// Adds an unsigned integer argument; its value reads back as the
    /// default.
    pub fn new_uint(&mut self, desc: &str, default: usize) -> (idx: usize)
        ensures
            idx == old(self)@.len(),
            final(self)@ == old(self)@.push(
                ArgView {
                    desc: desc@,
                    kind: FlagKind::Uint,
                    value: decimal_text(default as nat),
                    mandatory: false,
                },
            ),
            text_as_uint(final(self)@[idx as int].value) == Some(default),
    {
        proof {
            lemma_uint_text_reads_back(default);
        }
        self.add(desc.to_owned(), FlagValue::Uint(default))
    }
}

impl std::ops::Index<usize> for Args {
    type Output = Arg;

    /// The argument with handle `idx`.
    fn index(&self, idx: usize) -> (arg: &Arg)
        ensures
            arg@ == self@[idx as int],
    {
        &self.0[idx]
    }
}

/// Indexing asks for a handle that was issued.
impl vstd::std_specs::core::IndexSpecImpl<usize> for Args {
    open spec fn index_req(&self, index: &usize) -> bool {
        *index < self@.len()
    }
}

} // verus!
