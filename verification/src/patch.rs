//! The records that `zypper --xmlout lp` reports, and what the browser reads
//! from a single patch.

use vstd::prelude::*;

use crate::text::{chars_eq_ignore_ascii_case, chars_of, eq_ignore_ascii_case_spec};

verus! {

/// XML document returned by zypper's `lp` command. `messages` includes zypper
/// progress and error messages; patches are in `update_status.update_list`.
#[derive(Debug, PartialEq, Eq)]
pub struct PatchList {
    pub messages: Vec<PatchMessage>,
    pub update_status: Option<PatchUpdateStatus>,
}

/// One `<message>` element: its `type` attribute and its text.
#[derive(Debug, PartialEq, Eq)]
pub struct PatchMessage {
    pub kind: String,
    pub text: String,
}

/// The `<update-status>` element.
#[derive(Debug, PartialEq, Eq)]
pub struct PatchUpdateStatus {
    pub version: String,
    pub update_list: PatchUpdateList,
}

/// The `<update-list>` element.
#[derive(Debug, PartialEq, Eq)]
pub struct PatchUpdateList {
    pub updates: Vec<Patch>,
}

/// A patch entry reported by zypper.
#[derive(Clone, Debug, PartialEq, Eq)]
pub struct Patch {
    pub name: String,
    pub kind: String,
    pub edition: String,
    pub arch: String,
    pub status: Option<String>,
    pub category: Option<String>,
    pub severity: Option<String>,
    pub summary: String,
    pub description: String,
    pub license: String,
    pub source: RepoSource,
    pub issue_date: PatchIssueDate,
    pub issue_list: PatchIssueList,
}

/// Repository metadata emitted as a `<source>` element inside every update.
#[derive(Clone, Debug, PartialEq, Eq)]
pub struct RepoSource {
    pub url: String,
    pub alias: String,
}

/// The `<issue-date>` element: the date as text and as seconds since the epoch.
#[derive(Clone, Debug, PartialEq, Eq)]
pub struct PatchIssueDate {
    pub date: String,
    pub time_t: String,
}

/// The `<issue-list>` element.
#[derive(Clone, Debug, PartialEq, Eq)]
pub struct PatchIssueList {
    pub issue: Vec<PatchIssue>,
}

/// One `<issue>`: a bug report or a CVE that the patch addresses.
#[derive(Clone, Debug, PartialEq, Eq)]
pub struct PatchIssue {
    pub issue_id: String,
    pub issue_type: String,
    pub title: String,
    pub href: String,
}

/// The patches of a listing: those of its update list, none when zypper
/// reported no update status.
pub open spec fn listed_patches(list: PatchList) -> Seq<Patch> {
    match list.update_status {
        Some(status) => status.update_list.updates@,
        None => Seq::empty(),
    }
}

/// The optional attribute holds a value equal to `word` up to ASCII case.
pub open spec fn field_is(field: Option<String>, word: Seq<char>) -> bool {
    match field {
        Some(value) => eq_ignore_ascii_case_spec(value@, word),
        None => false,
    }
}

/// The status word that marks a patch as still to be installed.
pub open spec fn needed_word() -> Seq<char> {
    seq!['n', 'e', 'e', 'd', 'e', 'd']
}

/// The patch's status is `needed`, in any ASCII case.
pub open spec fn is_needed(p: Patch) -> bool {
    field_is(p.status, needed_word())
}

/// What an optional attribute shows: its value, or `fallback` when zypper omitted it.
pub open spec fn shown(field: Option<String>, fallback: Seq<char>) -> Seq<char> {
    match field {
        Some(value) => value@,
        None => fallback,
    }
}

/// Whether an optional attribute equals `word` up to ASCII case.
pub fn field_matches(field: &Option<String>, word: &[char]) -> (r: bool)
    ensures
        r == field_is(*field, word@),
{
    match field {
        Some(value) => {
            let chars = chars_of(value.as_str());
            chars_eq_ignore_ascii_case(chars.as_slice(), word)
        },
        None => false,
    }
}

impl PatchList {
    /// The patches of the listing; an empty list when zypper reported no update status.
    pub fn into_patches(self) -> (r: Vec<Patch>)
        ensures
            r@ == listed_patches(self),
    {
        match self.update_status {
            Some(status) => status.update_list.updates,
            None => Vec::new(),
        }
    }
}

impl Patch {
    /// Whether the status is `needed`, in any ASCII case.
    pub fn is_needed(&self) -> (r: bool)
        ensures
            r == is_needed(*self),
    {
        let word = ['n', 'e', 'e', 'd', 'e', 'd'];
        proof {
            assert(word@ =~= needed_word());
        }
        field_matches(&self.status, word.as_slice())
    }

    /// Whether the status shows highlighted: it is exactly `needed`.
    pub fn status_is_highlighted(&self) -> (r: bool)
        ensures
            r == (self.status matches Some(s) && s@ == needed_word()),
    {
        match &self.status {
            Some(s) => {
                let chars = chars_of(s.as_str());
                let word = ['n', 'e', 'e', 'd', 'e', 'd'];
                proof {
                    assert(word@ =~= needed_word());
                }
                let r = chars.len() == 6 && chars[0] == word[0] && chars[1] == word[1] && chars[2]
                    == word[2] && chars[3] == word[3] && chars[4] == word[4] && chars[5] == word[5];
                proof {
                    if r {
                        assert(chars@ =~= word@);
                    }
                }
                r
            },
            None => false,
        }
    }

    /// The status as shown: `Unknown` when zypper omitted it.
    pub fn status_label(&self) -> (r: &str)
        ensures
            r@ == shown(self.status, "Unknown"@),
    {
        match &self.status {
            Some(s) => s.as_str(),
            None => "Unknown",
        }
    }

    /// The category as shown: `Uncategorized` when zypper omitted it.
    pub fn category_label(&self) -> (r: &str)
        ensures
            r@ == shown(self.category, "Uncategorized"@),
    {
        match &self.category {
            Some(s) => s.as_str(),
            None => "Uncategorized",
        }
    }

    /// The severity as shown: `Unspecified` when zypper omitted it.
    pub fn severity_label(&self) -> (r: &str)
        ensures
            r@ == shown(self.severity, "Unspecified"@),
    {
        match &self.severity {
            Some(s) => s.as_str(),
            None => "Unspecified",
        }
    }

    /// Whether the details show a license: only when the text is not empty.
    pub fn shows_license(&self) -> (r: bool)
        ensures
            r == (self.license@.len() > 0),
    {
        !self.license.as_str().is_empty()
    }
}

} // verus!
