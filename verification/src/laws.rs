//! What holds of handles and of parsing, whatever the flags and arguments.

use vstd::prelude::*;
use crate::flag::FlagView;
use crate::flags::Flags;
use crate::model::{
    can_parse,
    lemma_lookup_is_first_match,
    lookup,
    parsed,
    run,
    step,
    tokens_of,
    ParseState,
};
use crate::text::{after_marker, has_marker};

verus! {

/// The registry after the flags `defs` were registered one after another.
pub open spec fn registered(start: Seq<FlagView>, defs: Seq<FlagView>) -> Seq<FlagView>
    decreases defs.len(),
{
    if defs.len() == 0 {
        start
    } else {
        registered(start, defs.drop_last()).push(defs.last())
    }
}

/// Whether a walk can go on from a state: its target is a flag, unless
/// there is none.
pub open spec fn state_ok(s: ParseState) -> bool {
    s.flags.len() > 0 ==> 0 <= s.target < s.flags.len()
}

/// Whether a walk over these tokens always has a flag to write to.
pub open spec fn can_run(flags: Seq<FlagView>, tokens: Seq<Seq<char>>) -> bool {
    flags.len() > 0 || forall|i: int| 0 <= i < tokens.len() ==> has_marker(#[trigger] tokens[i])
}

/// Whether a value is the text of one of the tokens that hold no marker.
pub open spec fn is_value_token(tokens: Seq<Seq<char>>, value: Seq<char>) -> bool {
    exists|k: int| 0 <= k < tokens.len() && !has_marker(#[trigger] tokens[k]) && tokens[k] == value
}

/// Registering one more flag gives it the next handle and leaves every
/// earlier handle with the flag that it had.
pub proof fn lemma_registration_keeps_handles(flags: Seq<FlagView>, added: FlagView, i: int)
    requires
        0 <= i < flags.len(),
    ensures
        flags.push(added).len() == flags.len() + 1,
        flags.push(added)[flags.len() as int] == added,
        flags.push(added)[i] == flags[i],
{
}

/// After any run of registrations, on any registry, the flags that were
/// there keep their handles and the new ones follow in the order in which
/// they were registered.
pub proof fn lemma_registered_in_order(start: Seq<FlagView>, defs: Seq<FlagView>)
    ensures
        registered(start, defs) == start + defs,
    decreases defs.len(),
{
    if defs.len() == 0 {
        assert(start + defs =~= start);
    } else {
        lemma_registered_in_order(start, defs.drop_last());
        assert((start + defs.drop_last()).push(defs.last()) =~= start + defs);
    }
}

/// On a registry that starts empty, handle `i` denotes the `i`-th flag
/// registered.
pub proof fn lemma_handle_denotes_ith(defs: Seq<FlagView>, i: int)
    requires
        0 <= i < defs.len(),
    ensures
        registered(Seq::empty(), defs).len() == defs.len(),
        registered(Seq::empty(), defs)[i] == defs[i],
{
    lemma_registered_in_order(Seq::empty(), defs);
    assert(Seq::<FlagView>::empty() + defs =~= defs);
}

/// One token changes no flag but in its value, and at most the value of
/// the flag that was selected.
pub proof fn lemma_step_keeps_identity(s: ParseState, token: Seq<char>)
    requires
        state_ok(s),
        s.flags.len() > 0 || has_marker(token),
    ensures
        state_ok(step(s, token)),
        step(s, token).flags.len() == s.flags.len(),
        forall|i: int|
            0 <= i < s.flags.len() ==> (#[trigger] step(s, token).flags[i]).same_identity(
                s.flags[i],
            ),
        forall|i: int|
            0 <= i < s.flags.len() && (i != s.target || has_marker(token)) ==> (#[trigger] step(
                s,
                token,
            ).flags[i]) == s.flags[i],
        !has_marker(token) ==> step(s, token).flags[s.target].value == token,
{
    if has_marker(token) {
        lemma_lookup_is_first_match(s.flags, after_marker(token));
    }
}

/// A walk over any tokens keeps the number of flags, and the name,
/// description, kind and mandatory mark of each; every value after it is the
/// value before it or one of the tokens that hold no marker.
pub proof fn lemma_run_keeps_identity(s: ParseState, tokens: Seq<Seq<char>>)
    requires
        state_ok(s),
        can_run(s.flags, tokens),
    ensures
        state_ok(run(s, tokens)),
        run(s, tokens).flags.len() == s.flags.len(),
        forall|i: int|
            0 <= i < s.flags.len() ==> (#[trigger] run(s, tokens).flags[i]).same_identity(
                s.flags[i],
            ),
        forall|i: int|
            0 <= i < s.flags.len() ==> (#[trigger] run(s, tokens).flags[i]).value
                == s.flags[i].value || is_value_token(tokens, run(s, tokens).flags[i].value),
    decreases tokens.len(),
{
    if tokens.len() > 0 {
        let before = tokens.drop_last();
        let token = tokens.last();
        assert forall|i: int| 0 <= i < before.len() implies has_marker(
            #[trigger] before[i],
        ) || s.flags.len() > 0 by {
            assert(before[i] == tokens[i]);
        }
        lemma_run_keeps_identity(s, before);
        let mid = run(s, before);
        assert(s.flags.len() > 0 || has_marker(tokens[tokens.len() - 1]));
        lemma_step_keeps_identity(mid, token);
        let end = step(mid, token);
        assert forall|i: int| 0 <= i < s.flags.len() implies (#[trigger] end.flags[i]).value
            == s.flags[i].value || is_value_token(tokens, end.flags[i].value) by {
            if i == mid.target && !has_marker(token) {
                assert(tokens[tokens.len() - 1] == end.flags[i].value);
            } else {
                assert(end.flags[i] == mid.flags[i]);
                if mid.flags[i].value != s.flags[i].value {
                    let k = choose|k: int|
                        0 <= k < before.len() && !has_marker(#[trigger] before[k]) && before[k]
                            == mid.flags[i].value;
                    assert(tokens[k] == before[k]);
                }
            }
        }
    }
}

/// Parsing keeps every handle: the registry has as many flags as before,
/// and each has the name, description, kind and mandatory mark that it
/// had. Only values change, and each value afterwards is the one before or
/// the text of an argument that holds no marker.
pub proof fn lemma_parse_keeps_handles(flags: Seq<FlagView>, args: Seq<Seq<char>>)
    requires
        can_parse(flags, args),
    ensures
        parsed(flags, args).len() == flags.len(),
        forall|i: int|
            0 <= i < flags.len() ==> (#[trigger] parsed(flags, args)[i]).same_identity(flags[i]),
        forall|i: int|
            0 <= i < flags.len() ==> (#[trigger] parsed(flags, args)[i]).value == flags[i].value
                || is_value_token(tokens_of(args), parsed(flags, args)[i].value),
{
    let tokens = tokens_of(args);
    assert forall|i: int| 0 <= i < tokens.len() implies has_marker(#[trigger] tokens[i])
        || flags.len() > 0 by {
        assert(tokens[i] == args[i + 1]);
    }
    lemma_run_keeps_identity(ParseState { flags, target: 0 }, tokens);
}

/// Parsing an argument list that holds the program's name at most leaves
/// every flag as it was.
pub proof fn lemma_parse_without_tokens(flags: Seq<FlagView>, args: Seq<Seq<char>>)
    requires
        args.len() <= 1,
    ensures
        parsed(flags, args) == flags,
{
}

/// Parsing goes by the arguments after the first alone: what stands in the
/// first place does not matter.
pub proof fn lemma_first_argument_ignored(
    flags: Seq<FlagView>,
    args: Seq<Seq<char>>,
    other: Seq<char>,
)
    requires
        args.len() > 0,
    ensures
        parsed(flags, args.update(0, other)) == parsed(flags, args),
{
    assert(tokens_of(args.update(0, other)) =~= tokens_of(args));
}

/// A read goes by the flags that the registry holds and by nothing else,
/// and changes none of them: read again with no write in between, a flag
/// gives the same value, or fails the same way.
pub proof fn lemma_reads_repeat(first: Flags, again: Flags, idx: usize)
    requires
        first@ == again@,
    ensures
        first.spec_value_as_uint(idx) == again.spec_value_as_uint(idx),
        first.spec_value_as_bool(idx) == again.spec_value_as_bool(idx),
        first@[idx as int].value == again@[idx as int].value,
{
}

} // verus!
