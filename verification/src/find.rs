//! The decision `find` makes at each walked entry: which substrings of a
//! stored tag string match the search pattern built from the given tags.

use crate::model::spec_join;
use crate::tags::join;
use vstd::prelude::*;

verus! {

/// Errors of the tag-store logic.
#[derive(Debug, Clone, Copy, PartialEq, Eq, Structural)]
pub enum TagError {
    /// The search tags, joined with `|`, do not form a compilable pattern.
    InvalidPattern,
}

impl TagError {
    /// A human-readable description of the error.
    pub fn message(&self) -> (r: &'static str)
        ensures
            r@ == "invalid search pattern built from the given tags"@,
    {
        "invalid search pattern built from the given tags"
    }
}

#[verifier::external_type_specification]
#[verifier::external_body]
pub struct ExRegexError(regex::Error);

/// Whether `regex::Regex::new` accepts a pattern. Compilation is
/// determined by the pattern text alone.
pub uninterp spec fn pattern_compiles(pattern: Seq<char>) -> bool;

/// The successive non-overlapping substrings of `haystack` that
/// `regex::Regex::find_iter` yields for a compiled `pattern`, leftmost
/// first. They are determined by the pattern and the haystack alone.
pub uninterp spec fn pattern_matches(pattern: Seq<char>, haystack: Seq<char>) -> Seq<Seq<char>>;

/// Relies on regex::Regex::new and regex::Regex::find_iter: whether the
/// pattern compiles depends on its text alone, and the match substrings
/// found in the haystack depend on the pattern and the haystack alone.
#[verifier::external_body]
fn regex_find_all(pattern: &str, haystack: &str) -> (r: Result<Vec<String>, regex::Error>)
    ensures
        r is Ok <==> pattern_compiles(pattern@),
        r matches Ok(found) ==> found.deep_view() == pattern_matches(pattern@, haystack@),
{
    match regex::Regex::new(pattern) {
        Ok(re) => Ok(re.find_iter(haystack).map(|m| m.as_str().to_owned()).collect()),
        Err(e) => Err(e),
    }
}

/// The decision at one walked entry of `find`: given the entry's stored
/// tag string and the search tags, returns the matching substrings when
/// there are any, `None` when there are none, and an error when the tags
/// joined with `|` do not form a valid pattern. The tags are taken
/// verbatim, metacharacters and all.
pub fn find_tags(stored: &str, tags: &Vec<String>) -> (r: Result<Option<Vec<String>>, TagError>)
    ensures
        r is Ok <==> pattern_compiles(spec_join(tags.deep_view(), '|')),
        r is Err ==> r == Err::<Option<Vec<String>>, TagError>(TagError::InvalidPattern),
        r matches Ok(found) ==> (match found {
            Option::Some(v) => pattern_matches(spec_join(tags.deep_view(), '|'), stored@).len()
                > 0 && v.deep_view() == pattern_matches(spec_join(tags.deep_view(), '|'), stored@),
            Option::None => pattern_matches(
                spec_join(tags.deep_view(), '|'),
                stored@,
            ).len() == 0,
        }),
{
    proof {
        reveal_strlit("|");
    }
    let pattern = join(tags, "|");
    match regex_find_all(pattern.as_str(), stored) {
        Ok(found) => {
            proof {
                assert(found.deep_view().len() == found@.len());
            }
            if found.len() == 0 {
                Ok(Option::None)
            } else {
                Ok(Option::Some(found))
            }
        },
        Err(_) => Err(TagError::InvalidPattern),
    }
}

} // verus!
