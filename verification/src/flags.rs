//! The registry: flags in the order of their registration, each known by
//! its handle, filled from an argument list and read back as typed values.

use vstd::prelude::*;
use crate::decimal::{decimal_text, lemma_uint_text_reads_back, parse_uint, text_as_uint};
use crate::flag::{Flag, FlagKind, FlagValue, FlagView};
use crate::laws::lemma_parse_keeps_handles;
use crate::model::{
    can_parse,
    is_first_match,
    lemma_lookup_found,
    lemma_lookup_missing,
    lookup,
    no_match,
    parsed,
    run,
    texts,
    tokens_of,
    ParseState,
};
use crate::text::{
    bool_text,
    contains_marker,
    lemma_bool_text_reads_back,
    parse_bool,
    strip_marker,
    text_as_bool,
};

verus! {

/// Why a flag could not be read.
#[derive(Clone, Copy, Debug, PartialEq, Eq, Structural)]
pub enum FlagError {
    /// The text of the flag with this handle does not read as a value of the
    /// wanted kind.
    TypeConversion { handle: usize, wanted: FlagKind },
}

/// The flags of a program. A handle is the number of flags that were
/// registered before its own: it stays valid, and denotes the same flag,
/// for as long as the registry lives.
#[derive(Debug)]
pub struct Flags(Vec<Flag>);

impl View for Flags {
    type V = Seq<FlagView>;

    closed spec fn view(&self) -> Seq<FlagView> {
        self.0@.map_values(|f: Flag| f@)
    }
}

impl Flags {
    /// What reading the flag `idx` as an unsigned integer gives.
    pub open spec fn spec_value_as_uint(&self, idx: usize) -> Result<usize, FlagError> {
        match text_as_uint(self@[idx as int].value) {
            Some(n) => Ok(n),
            None => Err(FlagError::TypeConversion { handle: idx, wanted: FlagKind::Uint }),
        }
    }

    /// What reading the flag `idx` as a boolean gives.
    pub open spec fn spec_value_as_bool(&self, idx: usize) -> Result<bool, FlagError> {
        match text_as_bool(self@[idx as int].value) {
            Some(b) => Ok(b),
            None => Err(FlagError::TypeConversion { handle: idx, wanted: FlagKind::Bool }),
        }
    }

    /// A registry without flags.
    pub fn new() -> (flags: Flags)
        ensures
            flags@ == Seq::<FlagView>::empty(),
    {
        let flags = Flags(Vec::new());
        assert(flags@ =~= Seq::<FlagView>::empty());
        flags
    }

    /// The number of flags registered so far.
    pub fn len(&self) -> (n: usize)
        ensures
            n == self@.len(),
    {
        self.0.len()
    }

    /// Registers a flag of the default's kind and returns its handle. Names
    /// need not differ: a name that was taken before stays with the earlier
    /// flag when it is looked up.
    pub fn new_flag(&mut self, name: &str, desc: &str, default: FlagValue) -> (idx: usize)
        ensures
            idx == old(self)@.len(),
            final(self)@ == old(self)@.push(
                FlagView {
                    name: name@,
                    desc: desc@,
                    kind: default.spec_kind(),
                    value: default.spec_text(),
                    mandatory: false,
                },
            ),
            match default {
                FlagValue::Str(s) => final(self)@[idx as int].value == s@,
                FlagValue::Bool(b) => final(self).spec_value_as_bool(idx) == Ok::<bool, FlagError>(
                    b,
                ),
                FlagValue::Uint(n) => final(self).spec_value_as_uint(idx) == Ok::<
                    usize,
                    FlagError,
                >(n),
            },
    {
        proof {
            match default {
                FlagValue::Str(_) => {},
                FlagValue::Bool(b) => {
                    lemma_bool_text_reads_back(b);
                },
                FlagValue::Uint(n) => {
                    lemma_uint_text_reads_back(n);
                },
            }
        }
        let idx: usize = self.0.len();
        self.0.push(Flag::new(name.to_owned(), desc.to_owned(), default));
        assert(self@ =~= old(self)@.push(self.0@[idx as int]@));
        idx
    }

    /// Registers a string flag; its value is the default itself.
    pub fn new_str(&mut self, name: &str, desc: &str, default: &str) -> (idx: usize)
        ensures
            idx == old(self)@.len(),
            final(self)@ == old(self)@.push(
                FlagView {
                    name: name@,
                    desc: desc@,
                    kind: FlagKind::Str,
                    value: default@,
                    mandatory: false,
                },
            ),
    {
        self.new_flag(name, desc, FlagValue::Str(default.to_owned()))
    }

    /// Registers a boolean flag; until its value is overwritten, the flag
    /// reads as the default.
    pub fn new_bool(&mut self, name: &str, desc: &str, default: bool) -> (idx: usize)
        ensures
            idx == old(self)@.len(),
            final(self)@ == old(self)@.push(
                FlagView {
                    name: name@,
                    desc: desc@,
                    kind: FlagKind::Bool,
                    value: bool_text(default),
                    mandatory: false,
                },
            ),
            final(self).spec_value_as_bool(idx) == Ok::<bool, FlagError>(default),
    {
        self.new_flag(name, desc, FlagValue::Bool(default))
    }

    /// Registers an unsigned integer flag; until its value is overwritten,
    /// the flag reads as the default.
    pub fn new_uint(&mut self, name: &str, desc: &str, default: usize) -> (idx: usize)
        ensures
            idx == old(self)@.len(),
            final(self)@ == old(self)@.push(
                FlagView {
                    name: name@,
                    desc: desc@,
                    kind: FlagKind::Uint,
                    value: decimal_text(default as nat),
                    mandatory: false,
                },
            ),
            final(self).spec_value_as_uint(idx) == Ok::<usize, FlagError>(default),
    {
        self.new_flag(name, desc, FlagValue::Uint(default))
    }

    /// The flag with handle `idx`.
    pub fn flag(&self, idx: usize) -> (flag: &Flag)
        requires
            idx < self@.len(),
        ensures
            flag@ == self@[idx as int],
    {
        &self.0[idx]
    }

    /// Reads a flag as an unsigned integer, from its text as it is now.
    pub fn value_as_uint(&self, idx: usize) -> (r: Result<usize, FlagError>)
        requires
            idx < self@.len(),
        ensures
            r == self.spec_value_as_uint(idx),
    {
        match parse_uint(self.0[idx].value()) {
            Some(n) => Ok(n),
            None => Err(FlagError::TypeConversion { handle: idx, wanted: FlagKind::Uint }),
        }
    }

    /// Reads a flag as a boolean, from its text as it is now.
    pub fn value_as_bool(&self, idx: usize) -> (r: Result<bool, FlagError>)
        requires
            idx < self@.len(),
        ensures
            r == self.spec_value_as_bool(idx),
    {
        match parse_bool(self.0[idx].value()) {
            Some(b) => Ok(b),
            None => Err(FlagError::TypeConversion { handle: idx, wanted: FlagKind::Bool }),
        }
    }

    /// The text of a flag's value. Every flag has one, whatever its kind.
    pub fn value_as_str(&self, idx: usize) -> (text: &str)
        requires
            idx < self@.len(),
        ensures
            text@ == self@[idx as int].value,
    {
        self.0[idx].value()
    }

    /// Overwrites the text of one flag's value; the flag's kind is not
    /// consulted.
    pub fn change_value(&mut self, idx: usize, arg: String)
        requires
            idx < old(self)@.len(),
        ensures
            final(self)@ == old(self)@.update(
                idx as int,
                old(self)@[idx as int].with_value(arg@),
            ),
    {
        self.0[idx].set_value(arg);
        assert(self@ =~= old(self)@.update(idx as int, old(self)@[idx as int].with_value(arg@)));
    }

    /// Looks a name up: the handle of the first flag registered under it.
    pub fn contains_flag(&self, flag_name: &str) -> (found: Option<usize>)
        ensures
            match found {
                Some(idx) => lookup(self@, flag_name@) == Some(idx as int) && is_first_match(
                    self@,
                    flag_name@,
                    idx as int,
                ),
                None => lookup(self@, flag_name@) is None && no_match(self@, flag_name@),
            },
    {
        let n: usize = self.0.len();
        let wanted: String = flag_name.to_owned();
        let mut idx: usize = 0;
        while idx < n
            invariant
                idx <= n == self@.len(),
                wanted@ == flag_name@,
                forall|j: int| 0 <= j < idx ==> (#[trigger] self@[j]).name != flag_name@,
            decreases n - idx,
        {
            if self.0[idx].is_named(&wanted) {
                proof {
                    lemma_lookup_found(self@, flag_name@, idx as int);
                }
                return Some(idx);
            }
            idx += 1;
        }
        proof {
            lemma_lookup_missing(self@, flag_name@);
        }
        None
    }

    /// Fills the flags from an argument list. The first argument names the
    /// program and is skipped. Of the others, one that holds `--` selects the
    /// flag named after its first two characters (or nothing, where no flag
    /// has that name), and any other becomes the value of the flag selected
    /// last; before any selection that is the first flag.
    pub fn parse(&mut self, args: &[String])
        requires
            can_parse(old(self)@, texts(args@)),
        ensures
            final(self)@ == parsed(old(self)@, texts(args@)),
            final(self)@.len() == old(self)@.len(),
            forall|i: int|
                0 <= i < old(self)@.len() ==> (#[trigger] final(self)@[i]).same_identity(
                    old(self)@[i],
                ),
    {
        proof {
            lemma_parse_keeps_handles(old(self)@, texts(args@));
        }
        let n: usize = args.len();
        let ghost start = ParseState { flags: old(self)@, target: 0 };
        let ghost tokens = tokens_of(texts(args@));
        if n == 0 {
            return ;
        }
        let mut target: usize = 0;
        let mut i: usize = 1;
        assert(tokens.subrange(0, 0) =~= Seq::<Seq<char>>::empty());
        while i < n
            invariant
                1 <= i <= n == args@.len(),
                tokens == texts(args@).skip(1),
                start == (ParseState { flags: old(self)@, target: 0 }),
                can_parse(old(self)@, texts(args@)),
                self@.len() == old(self)@.len(),
                self@.len() > 0 ==> target < self@.len(),
                (ParseState { flags: self@, target: target as int }) == run(
                    start,
                    tokens.subrange(0, i - 1),
                ),
            decreases n - i,
        {
            let token: &String = &args[i];
            proof {
                assert(tokens.subrange(0, i as int).drop_last() =~= tokens.subrange(0, i - 1));
                assert(tokens.subrange(0, i as int).last() == token@);
                assert(texts(args@)[i as int] == token@);
            }
            if contains_marker(token.as_str()) {
                match self.contains_flag(strip_marker(token.as_str())) {
                    Some(idx) => {
                        target = idx;
                    },
                    None => {},
                }
            } else {
                self.change_value(target, token.clone());
            }
            i += 1;
        }
        assert(tokens.subrange(0, n - 1) =~= tokens);
    }
}

} // verus!
