//! Commit messages of atomic commits.
use vstd::prelude::*;
use crate::domain::text::{substring, to_chars};

verus! {

/// The conventional commit message for a component.
pub open spec fn spec_message(component: Seq<char>, commit_type: Seq<char>, summary: Seq<char>) -> Seq<char> {
    commit_type + "("@ + component + "): "@ + summary
}

/// Generate a conventional commit message for a component.
pub fn generate_message(component: &str, commit_type: &str, source_summary: &str) -> (r: String)
    ensures
        r@ == spec_message(component@, commit_type@, source_summary@),
{
    let m = commit_type.to_string();
    let m = m.concat("(");
    let m = m.concat(component);
    let m = m.concat("): ");
    m.concat(source_summary)
}

/// The position of the first line feed in `s`, if any.
pub open spec fn first_newline(s: Seq<char>) -> Option<int> {
    if exists|i: int| 0 <= i < s.len() && s[i] == '\n' {
        Some(
            choose|i: int|
                0 <= i < s.len() && s[i] == '\n' && forall|j: int| 0 <= j < i ==> s[j] != '\n',
        )
    } else {
        None
    }
}

/// The first line of a text, as `str::lines` yields it: up to the first line feed,
/// without it and without a carriage return right before it; the whole text when there
/// is no line feed; `None` for an empty text.
pub open spec fn spec_first_line(s: Seq<char>) -> Option<Seq<char>> {
    if s.len() == 0 {
        None
    } else {
        match first_newline(s) {
            None => Some(s),
            Some(i) => if i > 0 && s[i - 1] == '\r' {
                Some(s.take(i - 1))
            } else {
                Some(s.take(i))
            },
        }
    }
}

/// The summary of a commit message: its first line, or `atomize` for an empty message.
pub open spec fn spec_summary(message: Seq<char>) -> Seq<char> {
    match spec_first_line(message) {
        Some(l) => l,
        None => "atomize"@,
    }
}

/// Extract the first line of a commit message as a summary.
pub fn extract_summary(message: &str) -> (r: String)
    ensures
        r@ == spec_summary(message@),
{
    let cs = to_chars(message);
    let n = cs.len();
    if n == 0 {
        return "atomize".to_string();
    }
    let mut i: usize = 0;
    while i < n
        invariant
            cs@ == message@,
            n == cs@.len(),
            i <= n,
            forall|j: int| 0 <= j < i ==> cs@[j] != '\n',
        decreases n - i,
    {
        if cs[i] == '\n' {
            proof {
                let k = choose|k: int|
                    0 <= k < message@.len() && message@[k] == '\n' && forall|j: int|
                        0 <= j < k ==> message@[j] != '\n';
                assert(0 <= i < message@.len() && message@[i as int] == '\n');
                if k < i {
                } else if i < k {
                }
                assert(first_newline(message@) == Some(i as int));
            }
            if i > 0 && cs[i - 1] == '\r' {
                return substring(message, 0, i - 1);
            } else {
                return substring(message, 0, i);
            }
        }
        i = i + 1;
    }
    assert(first_newline(message@) is None);
    assert(message@.subrange(0, n as int) =~= message@);
    substring(message, 0, n)
}

} // verus!
