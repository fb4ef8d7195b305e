//! One flag: a named, typed cell that holds its value as text.

use vstd::prelude::*;
use crate::decimal::{decimal_text, uint_to_text};
use crate::text::{bool_text, bool_to_text};

verus! {

/// The type that a flag was declared with.
#[derive(Clone, Copy, Debug, PartialEq, Eq, Structural)]
pub enum FlagKind {
    Str,
    Bool,
    Uint,
}

/// A default value, tagged with its type.
#[derive(Clone, Debug, PartialEq, Eq)]
pub enum FlagValue {
    Str(String),
    Bool(bool),
    Uint(usize),
}

impl FlagValue {
    /// The kind of flag that this value declares.
    pub open spec fn spec_kind(&self) -> FlagKind {
        match self {
            FlagValue::Str(_) => FlagKind::Str,
            FlagValue::Bool(_) => FlagKind::Bool,
            FlagValue::Uint(_) => FlagKind::Uint,
        }
    }

    /// The canonical text of this value: a string as it is, a boolean as
    /// `true` or `false`, a number in decimal.
    pub open spec fn spec_text(&self) -> Seq<char> {
        match self {
            FlagValue::Str(s) => s@,
            FlagValue::Bool(b) => bool_text(*b),
            FlagValue::Uint(n) => decimal_text(*n as nat),
        }
    }

    #[verifier::when_used_as_spec(spec_kind)]
    pub fn kind(&self) -> (k: FlagKind)
        ensures
            k == self.spec_kind(),
    {
        match self {
            FlagValue::Str(_) => FlagKind::Str,
            FlagValue::Bool(_) => FlagKind::Bool,
            FlagValue::Uint(_) => FlagKind::Uint,
        }
    }

    pub fn into_text(self) -> (t: String)
        ensures
            t@ == self.spec_text(),
    {
        match self {
            FlagValue::Str(s) => s,
            FlagValue::Bool(b) => bool_to_text(b),
            FlagValue::Uint(n) => uint_to_text(n),
        }
    }
}

/// What a flag is, as plain values.
pub struct FlagView {
    pub name: Seq<char>,
    pub desc: Seq<char>,
    pub kind: FlagKind,
    pub value: Seq<char>,
    pub mandatory: bool,
}

impl FlagView {
    /// This flag with another text as its value, and nothing else changed.
    pub open spec fn with_value(self, value: Seq<char>) -> FlagView {
        FlagView { value, ..self }
    }

    /// Whether two flags differ at most in their value.
    pub open spec fn same_identity(self, other: FlagView) -> bool {
        &&& self.name == other.name
        &&& self.desc == other.desc
        &&& self.kind == other.kind
        &&& self.mandatory == other.mandatory
    }
}

/// A named, typed flag. Name, description and kind are fixed when the flag
/// is made; only the value's text changes afterwards.
#[derive(Debug)]
pub struct Flag {
    name: String,
    desc: String,
    kind: FlagKind,
    value: String,
    mandatory: bool,
}

impl View for Flag {
    type V = FlagView;

    closed spec fn view(&self) -> FlagView {
        FlagView {
            name: self.name@,
            desc: self.desc@,
            kind: self.kind,
            value: self.value@,
            mandatory: self.mandatory,
        }
    }
}

impl Flag {
    /// A flag of the default's kind, whose value is the default's canonical
    /// text. No flag is mandatory when it is made.
    pub fn new(name: String, desc: String, default: FlagValue) -> (flag: Flag)
        ensures
            flag@ == (FlagView {
                name: name@,
                desc: desc@,
                kind: default.spec_kind(),
                value: default.spec_text(),
                mandatory: false,
            }),
    {
        let kind = default.kind();
        Flag { name, desc, kind, value: default.into_text(), mandatory: false }
    }

    pub fn name(&self) -> (name: &str)
        ensures
            name@ == self@.name,
    {
        self.name.as_str()
    }

    /// Whether this flag goes by the given name.
    pub fn is_named(&self, name: &String) -> (same: bool)
        ensures
            same == (self@.name == name@),
    {
        self.name == *name
    }

    pub fn desc(&self) -> (desc: &str)
        ensures
            desc@ == self@.desc,
    {
        self.desc.as_str()
    }

    pub fn kind(&self) -> (kind: FlagKind)
        ensures
            kind == self@.kind,
    {
        self.kind
    }

    pub fn value(&self) -> (value: &str)
        ensures
            value@ == self@.value,
    {
        self.value.as_str()
    }

    pub fn mandatory(&self) -> (mandatory: bool)
        ensures
            mandatory == self@.mandatory,
    {
        self.mandatory
    }

    /// Overwrites the value's text, whatever the flag's kind.
    pub fn set_value(&mut self, value: String)
        ensures
            final(self)@ == old(self)@.with_value(value@),
    {
        self.value = value;
    }
}

} // verus!
