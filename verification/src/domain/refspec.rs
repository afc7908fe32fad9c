//! Parsing of the commit reference given on the command line.
use vstd::prelude::*;
use crate::domain::text::{contains_seq, find_chars, is_first_occurrence, occurs_at, substring, to_chars};

verus! {

/// Parsed ref specification: either a single ref or a two-dot range.
#[derive(Debug)]
pub enum RefSpec {
    /// A single commit reference (e.g. "HEAD", "abc123", "HEAD~3").
    Single(String),
    /// A range of commits using `A..B` syntax.
    Range { start: String, end: String },
}

/// The mathematical value of a [`RefSpec`].
pub enum RefSpecModel {
    Single(Seq<char>),
    Range(Seq<char>, Seq<char>),
}

impl View for RefSpec {
    type V = RefSpecModel;

    open spec fn view(&self) -> RefSpecModel {
        match self {
            RefSpec::Single(s) => RefSpecModel::Single(s@),
            RefSpec::Range { start, end } => RefSpecModel::Range(start@, end@),
        }
    }
}

impl PartialEq for RefSpec {
    fn eq(&self, other: &Self) -> (r: bool) {
        match (self, other) {
            (RefSpec::Single(a), RefSpec::Single(b)) => a.eq(b),
            (RefSpec::Range { start: s1, end: e1 }, RefSpec::Range { start: s2, end: e2 }) => {
                s1.eq(s2) && e1.eq(e2)
            },
            _ => false,
        }
    }
}

impl vstd::std_specs::cmp::PartialEqSpecImpl for RefSpec {
    open spec fn obeys_eq_spec() -> bool {
        true
    }

    open spec fn eq_spec(&self, other: &Self) -> bool {
        self@ == other@
    }
}

/// `..`
pub open spec fn two_dots() -> Seq<char> {
    seq!['.', '.']
}

/// `...`
pub open spec fn three_dots() -> Seq<char> {
    seq!['.', '.', '.']
}

/// `HEAD`, the side a range defaults to when left empty.
pub open spec fn head_ref() -> Seq<char> {
    seq!['H', 'E', 'A', 'D']
}

/// An empty side of a range stands for `HEAD`.
pub open spec fn or_head(s: Seq<char>) -> Seq<char> {
    if s.len() == 0 {
        head_ref()
    } else {
        s
    }
}

/// The error text for a triple-dot input.
pub open spec fn triple_dot_error() -> Seq<char> {
    "triple-dot syntax is not supported; use `A..B`"@
}

/// The leftmost position of `..` in `s` (meaningful when `..` occurs).
pub open spec fn first_two_dots(s: Seq<char>) -> int {
    choose|i: int| is_first_occurrence(s, two_dots(), i)
}

/// What [`RefSpec::parse`] gives for an input:
/// - containing `...`: an error;
/// - containing `..`: a range split at the first `..`, empty sides standing for `HEAD`;
/// - otherwise the whole input as a single ref.
pub open spec fn spec_parse(s: Seq<char>) -> Result<RefSpecModel, Seq<char>> {
    if contains_seq(s, three_dots()) {
        Err(triple_dot_error())
    } else if contains_seq(s, two_dots()) {
        let i = first_two_dots(s);
        Ok(RefSpecModel::Range(or_head(s.take(i)), or_head(s.skip(i + 2))))
    } else {
        Ok(RefSpecModel::Single(s))
    }
}

/// The value of a parse result.
pub open spec fn parse_result_view(r: Result<RefSpec, String>) -> Result<RefSpecModel, Seq<char>> {
    match r {
        Ok(spec) => Ok(spec@),
        Err(msg) => Err(msg@),
    }
}

/// There is at most one leftmost occurrence.
pub proof fn lemma_first_occurrence_unique(s: Seq<char>, pat: Seq<char>, i: int, j: int)
    requires
        is_first_occurrence(s, pat, i),
        is_first_occurrence(s, pat, j),
    ensures
        i == j,
{
    if i < j {
        assert(!occurs_at(s, pat, i));
    } else if j < i {
        assert(!occurs_at(s, pat, j));
    }
}

fn head_string() -> (r: String)
    ensures
        r@ == head_ref(),
{
    let h = "HEAD";
    proof {
        reveal_strlit("HEAD");
    }
    h.to_string()
}

impl RefSpec {
    /// Parse a ref string into a `RefSpec`.
    ///
    /// - Contains `...` → error (triple-dot not supported)
    /// - Contains `..` → `Range` (empty sides default to HEAD)
    /// - Otherwise → `Single`
    pub fn parse(input: &str) -> (r: Result<RefSpec, String>)
        ensures
            parse_result_view(r) == spec_parse(input@),
    {
        let chars = to_chars(input);
        let three: Vec<char> = vec!['.', '.', '.'];
        let two: Vec<char> = vec!['.', '.'];
        assert(three@ =~= three_dots());
        assert(two@ =~= two_dots());
        if let Some(_) = find_chars(&chars, &three) {
            return Err("triple-dot syntax is not supported; use `A..B`".to_string());
        }
        match find_chars(&chars, &two) {
            Some(i) => {
                proof {
                    let j = first_two_dots(input@);
                    assert(is_first_occurrence(input@, two_dots(), j));
                    lemma_first_occurrence_unique(input@, two_dots(), i as int, j);
                }
                let n = chars.len();
                let start = if i == 0 {
                    head_string()
                } else {
                    substring(input, 0, i)
                };
                let end = if i + 2 == n {
                    head_string()
                } else {
                    substring(input, i + 2, n)
                };
                assert(input@.subrange(0, i as int) =~= input@.take(i as int));
                assert(input@.subrange(i + 2, n as int) =~= input@.skip(i + 2));
                Ok(RefSpec::Range { start, end })
            },
            None => Ok(RefSpec::Single(input.to_string())),
        }
    }
}

/// An input without `..` is taken whole as a single ref.
pub proof fn lemma_parse_without_dots_is_single(s: Seq<char>)
    requires
        !contains_seq(s, two_dots()),
    ensures
        spec_parse(s) == Ok::<RefSpecModel, Seq<char>>(RefSpecModel::Single(s)),
{
    if contains_seq(s, three_dots()) {
        let i = choose|i: int| occurs_at(s, three_dots(), i);
        assert(s.subrange(i, i + 2) =~= two_dots()) by {
            assert(s.subrange(i, i + 3)[0] == '.');
            assert(s.subrange(i, i + 3)[1] == '.');
        }
        assert(occurs_at(s, two_dots(), i));
    }
}

/// Joining two dot-free sides with `..` and parsing gives them back, an empty side standing for `HEAD`.
pub proof fn lemma_parse_range_round_trip(a: Seq<char>, b: Seq<char>)
    requires
        forall|k: int| 0 <= k < a.len() ==> a[k] != '.',
        forall|k: int| 0 <= k < b.len() ==> b[k] != '.',
    ensures
        spec_parse(a + two_dots() + b) == Ok::<RefSpecModel, Seq<char>>(
            RefSpecModel::Range(or_head(a), or_head(b)),
        ),
{
    let s = a + two_dots() + b;
    let n = a.len() as int;
    assert forall|k: int| 0 <= k < s.len() && s[k] == '.' implies k == n || k == n + 1 by {
        if k < n {
            assert(s[k] == a[k]);
        } else if k >= n + 2 {
            assert(s[k] == b[k - n - 2]);
        }
    }
    assert(!contains_seq(s, three_dots())) by {
        if contains_seq(s, three_dots()) {
            let i = choose|i: int| occurs_at(s, three_dots(), i);
            assert(s.subrange(i, i + 3)[0] == '.');
            assert(s.subrange(i, i + 3)[1] == '.');
            assert(s.subrange(i, i + 3)[2] == '.');
            assert(s[i] == '.' && s[i + 1] == '.' && s[i + 2] == '.');
        }
    }
    assert(s.subrange(n, n + 2) =~= two_dots());
    assert(is_first_occurrence(s, two_dots(), n)) by {
        assert forall|j: int| 0 <= j < n implies !occurs_at(s, two_dots(), j) by {
            if occurs_at(s, two_dots(), j) {
                assert(s.subrange(j, j + 2)[0] == '.');
                assert(s[j] == '.');
            }
        }
    }
    let i = first_two_dots(s);
    lemma_first_occurrence_unique(s, two_dots(), i, n);
    assert(s.take(n) =~= a);
    assert(s.skip(n + 2) =~= b);
}

/// Any input that holds `...` is refused.
pub proof fn lemma_triple_dot_refused(a: Seq<char>, b: Seq<char>)
    ensures
        spec_parse(a + three_dots() + b) == Err::<RefSpecModel, Seq<char>>(triple_dot_error()),
{
    let s = a + three_dots() + b;
    assert(s.subrange(a.len() as int, a.len() as int + 3) =~= three_dots());
    assert(occurs_at(s, three_dots(), a.len() as int));
}

} // verus!
