//! Character-level rules: the flag marker and the textual form of a
//! boolean.

use vstd::prelude::*;
use vstd::std_specs::iter::IteratorSpec;

verus! {

/// Whether the two-character marker `--` stands in `t` at position `i`.
pub open spec fn marker_at(t: Seq<char>, i: int) -> bool {
    0 <= i && i + 1 < t.len() && t[i] == '-' && t[i + 1] == '-'
}

/// Whether `t` holds the marker `--` anywhere, not only at its front.
pub open spec fn has_marker(t: Seq<char>) -> bool {
    exists|i: int| marker_at(t, i)
}

/// What is left of a token once its first two characters are taken away.
pub open spec fn after_marker(t: Seq<char>) -> Seq<char> {
    if t.len() >= 2 {
        t.skip(2)
    } else {
        Seq::empty()
    }
}

/// The canonical text of a boolean.
pub open spec fn bool_text(b: bool) -> Seq<char> {
    if b {
        seq!['t', 'r', 'u', 'e']
    } else {
        seq!['f', 'a', 'l', 's', 'e']
    }
}

/// The boolean that a text stands for: only the two canonical texts do.
pub open spec fn text_as_bool(t: Seq<char>) -> Option<bool> {
    if t == bool_text(true) {
        Some(true)
    } else if t == bool_text(false) {
        Some(false)
    } else {
        None
    }
}

/// The characters of `s`, in order.
pub fn chars_of(s: &str) -> (out: Vec<char>)
    ensures
        out@ == s@,
{
    let mut out: Vec<char> = Vec::new();
    let mut rest = s.chars();
    loop
        invariant
            rest.obeys_prophetic_iter_laws(),
            out@ + rest.remaining() == s@,
            rest.decrease() is Some,
        ensures
            out@ == s@,
        decreases rest.decrease()->0,
    {
        match rest.next() {
            Some(c) => {
                out.push(c);
            },
            None => {
                assert(out@ + rest.remaining() =~= out@);
                break ;
            },
        }
    }
    out
}

/// Tells whether a token selects a flag, that is, holds `--` somewhere.
pub fn contains_marker(token: &str) -> (found: bool)
    ensures
        found == has_marker(token@),
{
    let cs = chars_of(token);
    let n: usize = cs.len();
    if n < 2 {
        return false;
    }
    let mut i: usize = 0;
    while i < n - 1
        invariant
            2 <= n == cs@.len(),
            cs@ == token@,
            forall|j: int| 0 <= j < i ==> !marker_at(token@, j),
        decreases n - i,
    {
        if cs[i] == '-' && cs[i + 1] == '-' {
            assert(marker_at(token@, i as int));
            return true;
        }
        i += 1;
    }
    false
}

/// The name that a flag-selecting token carries: the token without its
/// first two characters.
pub fn strip_marker(token: &str) -> (name: &str)
    ensures
        name@ == after_marker(token@),
{
    let n: usize = token.unicode_len();
    if n >= 2 {
        let name = token.substring_char(2, n);
        assert(token@.subrange(2, n as int) =~= token@.skip(2));
        name
    } else {
        proof {
            reveal_strlit("");
        }
        ""
    }
}

/// The canonical text of a boolean, as an owned string.
pub fn bool_to_text(b: bool) -> (s: String)
    ensures
        s@ == bool_text(b),
{
    proof {
        reveal_strlit("true");
        reveal_strlit("false");
    }
    if b {
        let s = "true".to_owned();
        assert(s@ =~= bool_text(true));
        s
    } else {
        let s = "false".to_owned();
        assert(s@ =~= bool_text(false));
        s
    }
}

/// Reads a text as a boolean; only `true` and `false` are booleans.
pub fn parse_bool(text: &str) -> (r: Option<bool>)
    ensures
        r == text_as_bool(text@),
{
    let cs = chars_of(text);
    let n: usize = cs.len();
    if n == 4 && cs[0] == 't' && cs[1] == 'r' && cs[2] == 'u' && cs[3] == 'e' {
        assert(text@ =~= bool_text(true));
        Some(true)
    } else if n == 5 && cs[0] == 'f' && cs[1] == 'a' && cs[2] == 'l' && cs[3] == 's' && cs[4]
        == 'e' {
        assert(text@ =~= bool_text(false));
        assert(bool_text(false).len() != bool_text(true).len());
        Some(false)
    } else {
        assert(text@ != bool_text(true)) by {
            if text@ == bool_text(true) {
                assert(bool_text(true).len() == 4);
                assert(bool_text(true)[0] == 't' && bool_text(true)[1] == 'r' && bool_text(
                    true,
                )[2] == 'u' && bool_text(true)[3] == 'e');
            }
        }
        assert(text@ != bool_text(false)) by {
            if text@ == bool_text(false) {
                assert(bool_text(false).len() == 5);
                assert(bool_text(false)[0] == 'f' && bool_text(false)[1] == 'a' && bool_text(
                    false,
                )[2] == 'l' && bool_text(false)[3] == 's' && bool_text(false)[4] == 'e');
            }
        }
        None
    }
}

/// A boolean's canonical text reads back as that boolean.
pub proof fn lemma_bool_text_reads_back(b: bool)
    ensures
        text_as_bool(bool_text(b)) == Some(b),
{
    assert(bool_text(false).len() != bool_text(true).len());
}

} // verus!
