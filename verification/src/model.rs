//! The registry as a sequence of flags, and parsing as a walk over tokens.

use vstd::prelude::*;
use crate::flag::FlagView;
use crate::text::{after_marker, has_marker};

verus! {

/// Whether `i` is the handle of the first flag called `name`.
pub open spec fn is_first_match(flags: Seq<FlagView>, name: Seq<char>, i: int) -> bool {
    &&& 0 <= i < flags.len()
    &&& flags[i].name == name
    &&& forall|j: int| 0 <= j < i ==> (#[trigger] flags[j]).name != name
}

/// Whether no flag is called `name`.
pub open spec fn no_match(flags: Seq<FlagView>, name: Seq<char>) -> bool {
    forall|j: int| 0 <= j < flags.len() ==> (#[trigger] flags[j]).name != name
}

/// The handle that a name resolves to: that of the first flag registered
/// under it. A later flag of the same name is never found.
pub open spec fn lookup(flags: Seq<FlagView>, name: Seq<char>) -> Option<int> {
    if exists|i: int| is_first_match(flags, name, i) {
        Some(choose|i: int| is_first_match(flags, name, i))
    } else {
        None
    }
}

/// Where a walk over the tokens stands: the flags as they are by now, and
/// the handle that the next value goes to.
pub struct ParseState {
    pub flags: Seq<FlagView>,
    pub target: int,
}

/// One token's effect. A token that holds the marker selects the flag named
/// by what follows its first two characters, or changes nothing where no
/// flag has that name. Any other token becomes the value of the flag
/// selected last, whatever that flag's kind.
pub open spec fn step(s: ParseState, token: Seq<char>) -> ParseState {
    if has_marker(token) {
        match lookup(s.flags, after_marker(token)) {
            Some(h) => ParseState { flags: s.flags, target: h },
            None => s,
        }
    } else {
        ParseState {
            flags: s.flags.update(s.target, s.flags[s.target].with_value(token)),
            target: s.target,
        }
    }
}

/// The state after the tokens were taken one by one, from the left.
pub open spec fn run(s: ParseState, tokens: Seq<Seq<char>>) -> ParseState
    decreases tokens.len(),
{
    if tokens.len() == 0 {
        s
    } else {
        step(run(s, tokens.drop_last()), tokens.last())
    }
}

/// The tokens that are parsed: all arguments but the first, which names the
/// program and is not looked at.
pub open spec fn tokens_of(args: Seq<Seq<char>>) -> Seq<Seq<char>> {
    if args.len() == 0 {
        args
    } else {
        args.skip(1)
    }
}

/// The flags after parsing `args`. The walk starts with handle 0 selected,
/// so values that come before any flag name go to the first flag.
pub open spec fn parsed(flags: Seq<FlagView>, args: Seq<Seq<char>>) -> Seq<FlagView> {
    run(ParseState { flags, target: 0 }, tokens_of(args)).flags
}

/// Whether a registry can take these arguments: a value needs a flag to go
/// to, so an empty registry takes only tokens that hold the marker.
pub open spec fn can_parse(flags: Seq<FlagView>, args: Seq<Seq<char>>) -> bool {
    flags.len() > 0 || forall|i: int| 1 <= i < args.len() ==> has_marker(#[trigger] args[i])
}

/// The texts of a list of strings.
pub open spec fn texts(args: Seq<String>) -> Seq<Seq<char>> {
    args.map_values(|s: String| s@)
}

/// At most one handle is the first match of a name.
pub proof fn lemma_first_match_unique(flags: Seq<FlagView>, name: Seq<char>, i: int, j: int)
    requires
        is_first_match(flags, name, i),
        is_first_match(flags, name, j),
    ensures
        i == j,
{
    if i < j {
        assert(flags[i].name != name);
    } else if j < i {
        assert(flags[j].name != name);
    }
}

/// A name resolves to a handle exactly if that handle is its first match.
pub proof fn lemma_lookup_found(flags: Seq<FlagView>, name: Seq<char>, i: int)
    requires
        is_first_match(flags, name, i),
    ensures
        lookup(flags, name) == Some(i),
{
    let c = choose|k: int| is_first_match(flags, name, k);
    lemma_first_match_unique(flags, name, i, c);
}

/// What a name resolves to is its first match.
pub proof fn lemma_lookup_is_first_match(flags: Seq<FlagView>, name: Seq<char>)
    ensures
        match lookup(flags, name) {
            Some(i) => is_first_match(flags, name, i),
            None => no_match(flags, name),
        },
{
    if !exists|i: int| is_first_match(flags, name, i) {
        assert forall|j: int| 0 <= j < flags.len() implies (#[trigger] flags[j]).name
            != name by {
            lemma_no_first_match_before(flags, name, j + 1);
        }
    }
}

/// Where no handle is a first match, no flag below any bound has the name.
proof fn lemma_no_first_match_before(flags: Seq<FlagView>, name: Seq<char>, k: int)
    requires
        !exists|i: int| is_first_match(flags, name, i),
        0 <= k <= flags.len(),
    ensures
        forall|j: int| 0 <= j < k ==> (#[trigger] flags[j]).name != name,
    decreases k,
{
    if k > 0 {
        lemma_no_first_match_before(flags, name, k - 1);
        if flags[k - 1].name == name {
            assert(is_first_match(flags, name, k - 1));
        }
    }
}

/// A name that no flag has resolves to nothing.
pub proof fn lemma_lookup_missing(flags: Seq<FlagView>, name: Seq<char>)
    requires
        no_match(flags, name),
    ensures
        lookup(flags, name) is None,
{
    if exists|i: int| is_first_match(flags, name, i) {
        let c = choose|k: int| is_first_match(flags, name, k);
        assert(flags[c].name != name);
    }
}

} // verus!
