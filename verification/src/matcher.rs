//! Deciding whether a hook selects a path, by regular expression or by file
//! extension.

use vstd::prelude::*;

use crate::catalog::{Selection, SelectionModel};
use crate::text::chars_of;

verus! {

/// Whether `regex::Regex::new` accepts `pattern`: it is a regular expression
/// in the syntax of the regex crate, and compiles within the size that the
/// crate allows by default.
pub uninterp spec fn regex_compiles(pattern: Seq<char>) -> bool;

/// Whether the regular expression `pattern` has a match anywhere in
/// `haystack`, as `regex::Regex::is_match` finds it.
pub uninterp spec fn regex_is_match(pattern: Seq<char>, haystack: Seq<char>) -> bool;

/// Calls `regex::Regex::new` and tells whether it compiled `pattern` or
/// refused it with an error. Which of the two happens depends on the pattern
/// alone.
#[verifier::external_body]
fn regex_accepts(pattern: &str) -> (accepted: bool)
    ensures
        accepted == regex_compiles(pattern@),
{
    regex::Regex::new(pattern).is_ok()
}

/// Compiles `pattern` with `regex::Regex::new` and calls
/// `regex::Regex::is_match` on what it gives. There is no answer where the
/// pattern is refused; otherwise the answer depends on the pattern and on
/// `haystack` alone.
#[verifier::external_body]
fn regex_search(pattern: &str, haystack: &str) -> (found: Option<bool>)
    ensures
        found == (if regex_compiles(pattern@) {
            Some(regex_is_match(pattern@, haystack@))
        } else {
            None
        }),
{
    match regex::Regex::new(pattern) {
        Ok(compiled) => Some(compiled.is_match(haystack)),
        Err(_) => None,
    }
}

/// Whether `extension` is the extension of `path`: what follows the last
/// `.` of the path. A path without `.` has no extension.
pub open spec fn is_extension_of(extension: Seq<char>, path: Seq<char>) -> bool {
    &&& extension.len() < path.len()
    &&& path[path.len() - extension.len() - 1] == '.'
    &&& path.skip(path.len() - extension.len()) == extension
    &&& !extension.contains('.')
}

/// Whether the extension of `path` is one of `accepted`.
pub open spec fn has_accepted_extension(accepted: Seq<Seq<char>>, path: Seq<char>) -> bool {
    exists|i: int| 0 <= i < accepted.len() && is_extension_of(#[trigger] accepted[i], path)
}

/// Whether a hook can select files by `selection` at all. Any set of
/// extensions will do; a regular expression has to compile.
pub open spec fn selection_valid(selection: SelectionModel) -> bool {
    match selection {
        SelectionModel::Regex(pattern) => regex_compiles(pattern),
        SelectionModel::Extensions(_) => true,
    }
}

/// Whether `selection` selects the file at `path`.
pub open spec fn selects(selection: SelectionModel, path: Seq<char>) -> bool {
    match selection {
        SelectionModel::Regex(pattern) => regex_is_match(pattern, path),
        SelectionModel::Extensions(accepted) => has_accepted_extension(accepted, path),
    }
}

/// Whether `path` ends in a `.` followed by `extension`, and `extension`
/// holds no `.` itself.
fn ends_with_extension(path: &Vec<char>, extension: &Vec<char>) -> (hit: bool)
    ensures
        hit == is_extension_of(extension@, path@),
{
    if extension.len() >= path.len() {
        return false;
    }
    let start: usize = path.len() - extension.len();
    if path[start - 1] != '.' {
        return false;
    }
    let mut i: usize = 0;
    while i < extension.len()
        invariant
            i <= extension.len(),
            start + extension.len() == path.len(),
            forall|k: int| 0 <= k < i ==> path[start + k] == extension[k] && extension[k] != '.',
        decreases extension.len() - i,
    {
        if extension[i] == '.' {
            assert(extension@.contains('.'));
            return false;
        }
        if path[start + i] != extension[i] {
            assert(path@.skip(start as int)[i as int] != extension@[i as int]);
            return false;
        }
        i += 1;
    }
    assert(path@.skip(start as int) =~= extension@);
    true
}

/// The extensions that `accepted` holds, each as the sequence of its
/// characters.
pub open spec fn extensions_of(accepted: Seq<Vec<char>>) -> Seq<Seq<char>> {
    accepted.map_values(|extension: Vec<char>| extension@)
}

/// What a matcher holds: a regular expression that compiles, or the
/// accepted extensions taken apart into characters.
enum Prepared {
    Pattern(String),
    Extensions(Vec<Vec<char>>),
}

/// A selection that was found valid and made ready for matching.
pub struct Matcher {
    prepared: Prepared,
}

impl Matcher {
    #[verifier::type_invariant]
    spec fn pattern_compiles(&self) -> bool {
        selection_valid(self.selection())
    }

    /// The selection that this matcher decides.
    pub closed spec fn selection(&self) -> SelectionModel {
        match self.prepared {
            Prepared::Pattern(pattern) => SelectionModel::Regex(pattern@),
            Prepared::Extensions(accepted) => SelectionModel::Extensions(extensions_of(accepted@)),
        }
    }

    /// Makes `selection` ready for matching. There is no matcher for a
    /// regular expression that does not compile.
    pub fn compile(selection: &Selection) -> (made: Option<Matcher>)
        ensures
            made is Some <==> selection_valid(selection@),
            made matches Some(matcher) ==> matcher.selection() == selection@,
    {
        match selection {
            Selection::Regex(pattern) => {
                if regex_accepts(pattern.as_str()) {
                    Some(Matcher { prepared: Prepared::Pattern(pattern.clone()) })
                } else {
                    None
                }
            },
            Selection::Extensions(accepted) => {
                let mut taken: Vec<Vec<char>> = Vec::new();
                let mut i: usize = 0;
                while i < accepted.len()
                    invariant
                        i <= accepted.len(),
                        taken.len() == i,
                        forall|k: int| 0 <= k < i ==> taken[k]@ == accepted[k]@,
                    decreases accepted.len() - i,
                {
                    taken.push(chars_of(accepted[i].as_str()));
                    i += 1;
                }
                assert(extensions_of(taken@) =~= accepted.deep_view());
                Some(Matcher { prepared: Prepared::Extensions(taken) })
            },
        }
    }

    /// Whether the file at `path` is selected.
    pub fn matches(&self, path: &str) -> (hit: bool)
        ensures
            hit == selects(self.selection(), path@),
    {
        proof {
            use_type_invariant(self);
        }
        match &self.prepared {
            Prepared::Pattern(pattern) => {
                match regex_search(pattern.as_str(), path) {
                    Some(found) => found,
                    // A matcher holds no pattern that is refused.
                    None => false,
                }
            },
            Prepared::Extensions(accepted) => {
                let path_chars = chars_of(path);
                let ghost extensions = extensions_of(accepted@);
                let mut i: usize = 0;
                while i < accepted.len()
                    invariant
                        i <= accepted.len(),
                        path_chars@ == path@,
                        extensions == extensions_of(accepted@),
                        self.selection() == SelectionModel::Extensions(extensions),
                        forall|k: int|
                            0 <= k < i ==> !is_extension_of(#[trigger] extensions[k], path@),
                    decreases accepted.len() - i,
                {
                    assert(extensions[i as int] == accepted[i as int]@);
                    if ends_with_extension(&path_chars, &accepted[i]) {
                        assert(is_extension_of(extensions[i as int], path@));
                        assert(has_accepted_extension(extensions, path@));
                        return true;
                    }
                    i += 1;
                }
                false
            },
        }
    }
}

} // verus!
