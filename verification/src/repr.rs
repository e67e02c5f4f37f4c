//! The numeric representation of an enumeration, chosen among the names that
//! its `repr` attribute lists.

use vstd::prelude::*;
use regex::Regex;
use crate::model::Representation;

verus! {

/// What a search for the regular expression `pattern` in `text` gives:
/// whether the expression matches anywhere in the text, or nothing where
/// `pattern` is no regular expression that can be compiled.
pub uninterp spec fn regex_search(pattern: Seq<char>, text: Seq<char>) -> Option<bool>;

/// Compiles `pattern` with `regex::Regex::new` and searches `text` with
/// `regex::Regex::is_match`. Both depend on their arguments alone, so the
/// outcome has a name; nothing more is claimed of it. A pattern that does not
/// compile gives `None`.
#[verifier::external_body]
fn search(pattern: &str, text: &str) -> (r: Option<bool>)
    ensures
        r == regex_search(pattern@, text@),
{
    match Regex::new(pattern) {
        Ok(compiled) => Some(compiled.is_match(text)),
        Err(_) => None,
    }
}

/// The expression that a numeric representation's name matches: one of the
/// letters `u`, `i` and `f`, then at least one digit.
pub open spec fn repr_pattern() -> Seq<char> {
    seq!['[', 'u', 'i', 'f', ']', '\\', 'd', '+']
}

/// Whether `name` names a numeric representation.
pub open spec fn is_numeric(name: Seq<char>) -> bool {
    regex_search(repr_pattern(), name) == Some(true)
}

/// Whether no search among the first `upto` outcomes found a match.
pub open spec fn none_matched(outcomes: Seq<Option<bool>>, upto: int) -> bool {
    forall|j: int| 0 <= j < upto ==> outcomes[j] != Some(true)
}

/// The position of the first search that found a match, if any.
pub fn first_match(outcomes: &Vec<Option<bool>>) -> (r: Option<usize>)
    ensures
        r is None <==> none_matched(outcomes@, outcomes.len() as int),
        r matches Some(i) ==> i < outcomes.len() && outcomes[i as int] == Some(true)
            && none_matched(outcomes@, i as int),
{
    let mut i: usize = 0;
    while i < outcomes.len()
        invariant
            i <= outcomes.len(),
            none_matched(outcomes@, i as int),
        decreases outcomes.len() - i,
    {
        match outcomes[i] {
            Some(true) => {
                return Some(i);
            },
            _ => {},
        }
        i += 1;
    }
    None
}

/// The representation of an enumeration whose `repr` attribute lists the
/// names `listed`: the first of them that names a numeric representation, if
/// there is one.
pub fn get_repr(listed: &Vec<String>) -> (r: Option<Representation>)
    ensures
        r is None <==> forall|j: int| 0 <= j < listed.len() ==> !is_numeric(#[trigger] listed[j]@),
        r matches Some(repr) ==> exists|i: int|
            0 <= i < listed.len() && repr@ == #[trigger] listed[i]@ && is_numeric(listed[i]@)
                && forall|j: int| 0 <= j < i ==> !is_numeric(#[trigger] listed[j]@),
{
    proof {
        reveal_strlit("[uif]\\d+");
    }
    assert("[uif]\\d+"@ =~= repr_pattern());
    let mut outcomes: Vec<Option<bool>> = Vec::new();
    let mut i: usize = 0;
    while i < listed.len()
        invariant
            i <= listed.len(),
            outcomes.len() == i,
            "[uif]\\d+"@ == repr_pattern(),
            forall|j: int|
                0 <= j < i ==> #[trigger] outcomes[j] == regex_search(repr_pattern(), listed[j]@),
        decreases listed.len() - i,
    {
        outcomes.push(search("[uif]\\d+", listed[i].as_str()));
        i += 1;
    }
    match first_match(&outcomes) {
        Some(found) => {
            assert(forall|j: int| 0 <= j < found ==> !is_numeric(#[trigger] listed[j]@)) by {
                assert forall|j: int| 0 <= j < found implies !is_numeric(#[trigger] listed[j]@) by {
                    assert(outcomes[j] != Some(true));
                }
            }
            assert(is_numeric(listed[found as int]@));
            Some(Representation { name: listed[found].clone() })
        },
        None => {
            assert forall|j: int| 0 <= j < listed.len() implies !is_numeric(
                #[trigger] listed[j]@,
            ) by {
                assert(outcomes[j] != Some(true));
            }
            None
        },
    }
}

} // verus!
