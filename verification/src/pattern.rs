//! Regular expression matches as plain text.
use vstd::prelude::*;

use crate::text;

verus! {

/// One match of a regular expression: the text before it, the text of each
/// group (the whole match is group 0) and the text after it.
pub struct Found {
    pub before: String,
    pub groups: Vec<Option<String>>,
    pub after: String,
}

/// A match as sequences of characters.
pub struct FoundView {
    pub before: Seq<char>,
    pub groups: Seq<Option<Seq<char>>>,
    pub after: Seq<char>,
}

impl View for Found {
    type V = FoundView;

    open spec fn view(&self) -> FoundView {
        FoundView {
            before: self.before@,
            groups: self.groups@.map_values(|g: Option<String>| text::opt_view(g)),
            after: self.after@,
        }
    }
}

impl FoundView {
    /// The text of group `k`, where the match has that group and it took part.
    pub open spec fn group(self, k: int) -> Option<Seq<char>> {
        if 0 <= k < self.groups.len() {
            self.groups[k]
        } else {
            None
        }
    }

    /// The text of the whole match.
    pub open spec fn matched(self) -> Seq<char> {
        match self.group(0) {
            Some(t) => t,
            None => Seq::empty(),
        }
    }

    /// The match is a part of `haystack`.
    pub open spec fn part_of(self, haystack: Seq<char>) -> bool {
        &&& self.group(0) is Some
        &&& haystack == self.before + self.matched() + self.after
    }
}

/// The views of a list of matches.
pub open spec fn found_views(list: Seq<Found>) -> Seq<FoundView> {
    list.map_values(|f: Found| f@)
}

/// The view of an optional match.
pub open spec fn found_view(f: Option<Found>) -> Option<FoundView> {
    match f {
        Some(m) => Some(m@),
        None => None,
    }
}

/// The leftmost match that `regex::Regex::captures` reports.
pub uninterp spec fn regex_captures(pattern: Seq<char>, haystack: Seq<char>) -> Option<FoundView>;

/// The matches that `regex::Regex::captures_iter` reports.
pub uninterp spec fn regex_captures_iter(pattern: Seq<char>, haystack: Seq<char>) -> Seq<FoundView>;

/// `regex::Regex::captures` with a freshly compiled `pattern`: the leftmost
/// match, which is a part of the haystack. There is none where the pattern is
/// not a regular expression. Which match it is has a name only.
#[verifier::external_body]
pub(crate) fn captures(pattern: &str, haystack: &str) -> (res: Option<Found>)
    ensures
        found_view(res) == regex_captures(pattern@, haystack@),
        res matches Some(f) ==> f@.part_of(haystack@),
{
    let regex = regex::Regex::new(pattern).ok()?;
    let found = regex.captures(haystack)?;
    let whole = found.get_match();
    Some(Found {
        before: haystack[..whole.start()].to_string(),
        groups: found.iter().map(|g| g.map(|m| m.as_str().to_string())).collect(),
        after: haystack[whole.end()..].to_string(),
    })
}

/// `regex::Regex::captures_iter` with a freshly compiled `pattern`: the
/// successive matches, each a part of the haystack. There are none where the
/// pattern is not a regular expression. Which matches they are has a name only.
#[verifier::external_body]
pub(crate) fn captures_iter(pattern: &str, haystack: &str) -> (res: Vec<Found>)
    ensures
        found_views(res@) == regex_captures_iter(pattern@, haystack@),
        forall|i: int| 0 <= i < res@.len() ==> (#[trigger] res@[i])@.part_of(haystack@),
{
    let regex = regex::Regex::new(pattern);
    regex.iter().flat_map(|r| r.captures_iter(haystack)).map(|found| Found {
        before: haystack[..found.get_match().start()].to_string(),
        groups: found.iter().map(|g| g.map(|m| m.as_str().to_string())).collect(),
        after: haystack[found.get_match().end()..].to_string(),
    }).collect()
}

impl Found {
    /// The text of group `k`.
    pub fn group(&self, k: usize) -> (res: Option<&String>)
        ensures
            match res {
                Some(t) => self@.group(k as int) == Some(t@),
                None => self@.group(k as int) is None,
            },
    {
        if k < self.groups.len() {
            assert(self@.groups[k as int] == text::opt_view(self.groups@[k as int]));
            match &self.groups[k] {
                Some(t) => Some(t),
                None => None,
            }
        } else {
            None
        }
    }

    /// The text of the whole match.
    pub fn text(&self) -> (res: String)
        ensures
            res@ == self@.matched(),
    {
        match self.group(0) {
            Some(t) => t.clone(),
            None => String::new(),
        }
    }
}

} // verus!
