//! The state of the patch browser: the sorted patch list, the selection, the
//! search text and the last load error, and what the view reads from them.

use vstd::prelude::*;

use crate::order::{sort_patches, stably_sorted};
use crate::patch::{field_is, field_matches, is_needed, shown, Patch};
use crate::text::{
    chars_of, contains, is_infix, is_prefix, starts_with, to_lowercase, unicode_lowercase,
};
use crate::zypper::{error_message, ZypperError};

verus! {

/// Whether the first load lists all patches, also those no longer relevant.
pub const DEFAULT_INCLUDE_ALL: bool = true;

/// The browser's state.
pub struct PatchBrowser {
    /// The listed patches, in list order.
    pub patches: Vec<Patch>,
    /// The name of the patch whose details are shown.
    pub selected_name: Option<String>,
    /// The text typed into the search field.
    pub search: String,
    /// The message of the error the last load ended in, if it failed.
    pub load_error: Option<String>,
    /// Whether loads include the patches that are no longer relevant.
    pub include_all: bool,
}

// ---------------------------------------------------------------------------
// Specifications
// ---------------------------------------------------------------------------

/// Position of the first patch named `name`, if any.
pub open spec fn first_named(s: Seq<Patch>, name: Seq<char>) -> Option<int>
    decreases s.len(),
{
    if s.len() == 0 {
        None
    } else {
        match first_named(s.drop_last(), name) {
            Some(i) => Some(i),
            None => if s.last().name@ == name {
                Some(s.len() - 1)
            } else {
                None
            },
        }
    }
}

/// Position of the selected patch: the first patch with the selected name.
pub open spec fn selected_index(b: PatchBrowser) -> Option<int> {
    match b.selected_name {
        Some(name) => first_named(b.patches@, name@),
        None => None,
    }
}

/// How many patches of `s` satisfy `pred`.
pub open spec fn count_matching(s: Seq<Patch>, pred: spec_fn(Patch) -> bool) -> nat
    decreases s.len(),
{
    if s.len() == 0 {
        0
    } else {
        count_matching(s.drop_last(), pred) + if pred(s.last()) {
            1nat
        } else {
            0nat
        }
    }
}

/// The name of the first patch of `s`, if there is one.
pub open spec fn first_name(s: Seq<Patch>) -> Option<Seq<char>> {
    if s.len() > 0 {
        Some(s[0].name@)
    } else {
        None
    }
}

/// A search, already lowercased, hits a patch whose fields are already
/// lowercased: the search is empty, or it occurs in the name, the summary or
/// the description, or it starts the category or the status.
pub open spec fn lowered_hit(
    query: Seq<char>,
    name: Seq<char>,
    category: Seq<char>,
    status: Seq<char>,
    summary: Seq<char>,
    description: Seq<char>,
) -> bool {
    ||| query.len() == 0
    ||| is_infix(query, name)
    ||| is_prefix(query, category)
    ||| is_prefix(query, status)
    ||| is_infix(query, summary)
    ||| is_infix(query, description)
}

/// A search, already lowercased, hits a patch: compared with its fields in
/// Unicode lowercase; an omitted category or status counts as empty.
pub open spec fn search_hit(query_lower: Seq<char>, p: Patch) -> bool {
    lowered_hit(
        query_lower,
        unicode_lowercase(p.name@),
        unicode_lowercase(shown(p.category, Seq::empty())),
        unicode_lowercase(shown(p.status, Seq::empty())),
        unicode_lowercase(p.summary@),
        unicode_lowercase(p.description@),
    )
}

/// The selection after a successful load of `patches`: kept while a patch of
/// that name is listed, else the first patch's name.
pub open spec fn selection_after_load(old_name: Option<String>, patches: Seq<Patch>) -> Option<
    Seq<char>,
> {
    match old_name {
        Some(name) => if first_named(patches, name@) is Some {
            Some(name@)
        } else {
            first_name(patches)
        },
        None => first_name(patches),
    }
}

/// The view of an optional name.
pub open spec fn name_view(name: Option<String>) -> Option<Seq<char>> {
    match name {
        Some(n) => Some(n@),
        None => None,
    }
}

/// What `PatchBrowser::new` makes of the first load: the patches sorted, or
/// none and the error's message; the first patch selected; an empty search;
/// the default for including all patches.
pub open spec fn state_after_new(loaded: Result<Vec<Patch>, ZypperError>, b: PatchBrowser) -> bool {
    &&& match loaded {
        Ok(ps) => exists|perm: Seq<int>| stably_sorted(ps@, b.patches@, perm),
        Err(_) => b.patches@.len() == 0,
    }
    &&& match loaded {
        Ok(_) => b.load_error is None,
        Err(e) => b.load_error matches Some(m) && m@ == error_message(e),
    }
    &&& name_view(b.selected_name) == first_name(b.patches@)
    &&& b.search@.len() == 0
    &&& b.include_all == DEFAULT_INCLUDE_ALL
}

/// What `PatchBrowser::refresh` makes of state `before` and a new load. On
/// success the patches are replaced by the sorted new ones, the error is
/// cleared, and the selection stays while a patch of that name is listed, else
/// moves to the first patch. On failure only the error's message is recorded.
/// The search and the choice to include all patches are kept.
pub open spec fn state_after_refresh(
    before: PatchBrowser,
    loaded: Result<Vec<Patch>, ZypperError>,
    after: PatchBrowser,
) -> bool {
    &&& after.search == before.search
    &&& after.include_all == before.include_all
    &&& match loaded {
        Ok(ps) => {
            &&& exists|perm: Seq<int>| stably_sorted(ps@, after.patches@, perm)
            &&& after.load_error is None
            &&& name_view(after.selected_name) == selection_after_load(
                before.selected_name,
                after.patches@,
            )
        },
        Err(e) => {
            &&& after.patches == before.patches
            &&& after.selected_name == before.selected_name
            &&& after.load_error matches Some(m) && m@ == error_message(e)
        },
    }
}

/// What `PatchBrowser::select` makes of state `before`: the patch at `index`
/// is selected by name, and nothing else changes.
pub open spec fn state_after_select(before: PatchBrowser, index: int, after: PatchBrowser) -> bool {
    &&& after.patches == before.patches
    &&& after.search == before.search
    &&& after.load_error == before.load_error
    &&& after.include_all == before.include_all
    &&& name_view(after.selected_name) == Some(before.patches@[index].name@)
}

/// The selection is empty with an empty list, and otherwise names a listed patch.
pub open spec fn selection_valid(b: PatchBrowser) -> bool {
    match b.selected_name {
        Some(name) => first_named(b.patches@, name@) is Some,
        None => b.patches@.len() == 0,
    }
}

/// What holds of the browser after any run of loads and selections: the list
/// is in sort order and the selection is valid.
pub open spec fn browser_invariant(b: PatchBrowser) -> bool {
    &&& crate::order::sorted_by_key(b.patches@)
    &&& selection_valid(b)
}

// ---------------------------------------------------------------------------
// Lemmas
// ---------------------------------------------------------------------------

/// `first_named` finds the first patch with the name, and only it.
pub proof fn lemma_first_named(s: Seq<Patch>, name: Seq<char>)
    ensures
        match first_named(s, name) {
            Some(i) => 0 <= i < s.len() && s[i].name@ == name && forall|j: int|
                0 <= j < i ==> #[trigger] s[j].name@ != name,
            None => forall|j: int| 0 <= j < s.len() ==> #[trigger] s[j].name@ != name,
        },
    decreases s.len(),
{
    if s.len() > 0 {
        let t = s.drop_last();
        lemma_first_named(t, name);
        assert forall|j: int| 0 <= j < t.len() implies t[j] == s[j] by {}
    }
}

/// The first patch with the name in a prefix is the first in the whole list.
proof fn lemma_first_named_prefix(s: Seq<Patch>, name: Seq<char>, i: int)
    requires
        0 <= i <= s.len(),
        first_named(s.take(i), name) is None,
    ensures
        i < s.len() && s[i].name@ == name ==> first_named(s, name) == Some(i),
        i == s.len() ==> first_named(s, name) is None,
    decreases s.len() - i,
{
    if i == s.len() {
        assert(s.take(i) =~= s);
    } else {
        assert(s.take(i + 1).drop_last() =~= s.take(i));
        if s[i].name@ == name {
            assert(first_named(s.take(i + 1), name) == Some(i));
            lemma_first_named(s, name);
            lemma_first_named(s.take(i), name);
            match first_named(s, name) {
                Some(k) => {
                    if k < i {
                        assert(s.take(i)[k] == s[k]);
                    }
                },
                None => {},
            }
        }
    }
}

/// At most every patch is counted.
pub proof fn lemma_count_matching_bound(s: Seq<Patch>, pred: spec_fn(Patch) -> bool)
    ensures
        count_matching(s, pred) <= s.len(),
    decreases s.len(),
{
    if s.len() > 0 {
        lemma_count_matching_bound(s.drop_last(), pred);
    }
}

// ---------------------------------------------------------------------------
// Operations
// ---------------------------------------------------------------------------

/// Whether a lowercased search hits a patch with the given lowercased fields.
pub fn lowered_fields_hit(
    query: &[char],
    name: &[char],
    category: &[char],
    status: &[char],
    summary: &[char],
    description: &[char],
) -> (r: bool)
    ensures
        r == lowered_hit(query@, name@, category@, status@, summary@, description@),
{
    query.len() == 0 || contains(name, query) || starts_with(category, query) || starts_with(
        status,
        query,
    ) || contains(summary, query) || contains(description, query)
}

/// The Unicode lowercase of a text, as characters.
fn lowered(s: &str) -> (r: Vec<char>)
    ensures
        r@ == unicode_lowercase(s@),
{
    let l = to_lowercase(s);
    chars_of(l.as_str())
}

/// The Unicode lowercase of an optional attribute, empty when it is omitted.
fn lowered_field(field: &Option<String>) -> (r: Vec<char>)
    ensures
        r@ == unicode_lowercase(shown(*field, Seq::empty())),
{
    match field {
        Some(value) => lowered(value.as_str()),
        None => {
            let empty = String::new();
            lowered(empty.as_str())
        },
    }
}

/// Whether a search, already lowercased, hits a patch.
pub fn patch_matches_search(query_lower: &[char], p: &Patch) -> (r: bool)
    ensures
        r == search_hit(query_lower@, *p),
{
    if query_lower.len() == 0 {
        return true;
    }
    let name = lowered(p.name.as_str());
    let category = lowered_field(&p.category);
    let status = lowered_field(&p.status);
    let summary = lowered(p.summary.as_str());
    let description = lowered(p.description.as_str());
    lowered_fields_hit(
        query_lower,
        name.as_slice(),
        category.as_slice(),
        status.as_slice(),
        summary.as_slice(),
        description.as_slice(),
    )
}

impl PatchBrowser {
    /// The state after the first load, which lists all patches: the patches
    /// sorted, or none and the error's message; the first patch selected.
    pub fn new(loaded: Result<Vec<Patch>, ZypperError>) -> (b: PatchBrowser)
        ensures
            state_after_new(loaded, b),
    {
        let (mut patches, load_error) = match loaded {
            Ok(patches) => (patches, None),
            Err(error) => (Vec::new(), Some(error.message())),
        };
        sort_patches(&mut patches);
        proof {
            if loaded is Err {
                let perm = choose|perm: Seq<int>| stably_sorted(Seq::<Patch>::empty(), patches@, perm);
                assert(patches@.len() == 0);
            }
        }
        let selected_name = if patches.len() > 0 {
            Some(patches[0].name.clone())
        } else {
            None
        };
        PatchBrowser {
            patches,
            selected_name,
            search: String::new(),
            load_error,
            include_all: DEFAULT_INCLUDE_ALL,
        }
    }

    /// The selected patch: the first patch with the selected name, if any.
    pub fn selected(&self) -> (r: Option<&Patch>)
        ensures
            match selected_index(*self) {
                Some(i) => r == Some(&self.patches@[i]),
                None => r is None,
            },
    {
        match &self.selected_name {
            None => None,
            Some(name) => {
                let mut i: usize = 0;
                proof {
                    assert(self.patches@.take(0) =~= Seq::<Patch>::empty());
                }
                while i < self.patches.len()
                    invariant
                        i <= self.patches@.len(),
                        self.selected_name == Some(*name),
                        first_named(self.patches@.take(i as int), name@) is None,
                    decreases self.patches@.len() - i,
                {
                    if self.patches[i].name == *name {
                        proof {
                            lemma_first_named_prefix(self.patches@, name@, i as int);
                        }
                        return Some(&self.patches[i]);
                    }
                    proof {
                        let s = self.patches@;
                        assert(s.take(i + 1).drop_last() =~= s.take(i as int));
                    }
                    i = i + 1;
                }
                proof {
                    lemma_first_named_prefix(self.patches@, name@, i as int);
                }
                None
            },
        }
    }

    /// Reloads with the outcome of a new listing. On success the patches are
    /// replaced by the sorted new ones, the error is cleared, and the selection
    /// stays while a patch of that name is listed, else moves to the first
    /// patch. On failure only the error's message is recorded.
    pub fn refresh(&mut self, loaded: Result<Vec<Patch>, ZypperError>)
        ensures
            state_after_refresh(*old(self), loaded, *final(self)),
    {
        match loaded {
            Ok(patches) => {
                self.patches = patches;
                sort_patches(&mut self.patches);
                self.load_error = None;
                if self.selected().is_none() {
                    self.selected_name = if self.patches.len() > 0 {
                        Some(self.patches[0].name.clone())
                    } else {
                        None
                    };
                }
            },
            Err(error) => {
                self.load_error = Some(error.message());
            },
        }
    }

    /// Selects the patch at `index` of the list.
    pub fn select(&mut self, index: usize)
        requires
            index < old(self).patches@.len(),
        ensures
            state_after_select(*old(self), index as int, *final(self)),
    {
        let name = self.patches[index].name.clone();
        self.selected_name = Some(name);
    }

    /// Whether the patch at `index` carries the selected name.
    pub fn is_selected(&self, index: usize) -> (r: bool)
        requires
            index < self.patches@.len(),
        ensures
            r == (self.selected_name matches Some(n) && n@ == self.patches@[index as int].name@),
    {
        match &self.selected_name {
            Some(name) => *name == self.patches[index].name,
            None => false,
        }
    }

    /// How many patches have the category, compared up to ASCII case.
    pub fn category_count(&self, category: &str) -> (r: usize)
        ensures
            r == count_matching(self.patches@, |p: Patch| field_is(p.category, category@)),
    {
        let word = chars_of(category);
        let ghost pred = |p: Patch| field_is(p.category, category@);
        let mut count: usize = 0;
        let mut i: usize = 0;
        proof {
            assert(self.patches@.take(0) =~= Seq::<Patch>::empty());
        }
        while i < self.patches.len()
            invariant
                i <= self.patches@.len(),
                word@ == category@,
                pred == (|p: Patch| field_is(p.category, category@)),
                count == count_matching(self.patches@.take(i as int), pred),
            decreases self.patches@.len() - i,
        {
            proof {
                let s = self.patches@;
                assert(s.take(i + 1).drop_last() =~= s.take(i as int));
                lemma_count_matching_bound(s.take(i as int), pred);
            }
            if field_matches(&self.patches[i].category, word.as_slice()) {
                count = count + 1;
            }
            i = i + 1;
        }
        proof {
            assert(self.patches@.take(i as int) =~= self.patches@);
        }
        count
    }

    /// How many patches have the status, compared up to ASCII case.
    pub fn status_count(&self, status: &str) -> (r: usize)
        ensures
            r == count_matching(self.patches@, |p: Patch| field_is(p.status, status@)),
    {
        let word = chars_of(status);
        let ghost pred = |p: Patch| field_is(p.status, status@);
        let mut count: usize = 0;
        let mut i: usize = 0;
        proof {
            assert(self.patches@.take(0) =~= Seq::<Patch>::empty());
        }
        while i < self.patches.len()
            invariant
                i <= self.patches@.len(),
                word@ == status@,
                pred == (|p: Patch| field_is(p.status, status@)),
                count == count_matching(self.patches@.take(i as int), pred),
            decreases self.patches@.len() - i,
        {
            proof {
                let s = self.patches@;
                assert(s.take(i + 1).drop_last() =~= s.take(i as int));
                lemma_count_matching_bound(s.take(i as int), pred);
            }
            if field_matches(&self.patches[i].status, word.as_slice()) {
                count = count + 1;
            }
            i = i + 1;
        }
        proof {
            assert(self.patches@.take(i as int) =~= self.patches@);
        }
        count
    }

    /// The positions of the patches that the search shows, in list order.
    pub fn visible_patches(&self) -> (r: Vec<usize>)
        ensures
            forall|k: int| 0 <= k < r@.len() ==> #[trigger] r@[k] < self.patches@.len(),
            forall|k: int|
                0 <= k < r@.len() ==> search_hit(
                    unicode_lowercase(self.search@),
                    #[trigger] self.patches@[r@[k] as int],
                ),
            forall|k1: int, k2: int| 0 <= k1 < k2 < r@.len() ==> r@[k1] < r@[k2],
            forall|i: int|
                0 <= i < self.patches@.len() && search_hit(
                    unicode_lowercase(self.search@),
                    #[trigger] self.patches@[i],
                ) ==> exists|k: int| 0 <= k < r@.len() && r@[k] == i,
    {
        let query = lowered(self.search.as_str());
        let mut r: Vec<usize> = Vec::new();
        let mut i: usize = 0;
        while i < self.patches.len()
            invariant
                i <= self.patches@.len(),
                query@ == unicode_lowercase(self.search@),
                forall|k: int| 0 <= k < r@.len() ==> #[trigger] r@[k] < i,
                forall|k: int|
                    0 <= k < r@.len() ==> search_hit(query@, #[trigger] self.patches@[r@[k] as int]),
                forall|k1: int, k2: int| 0 <= k1 < k2 < r@.len() ==> r@[k1] < r@[k2],
                forall|j: int|
                    0 <= j < i && search_hit(query@, #[trigger] self.patches@[j]) ==> exists|k: int|
                        0 <= k < r@.len() && r@[k] == j,
            decreases self.patches@.len() - i,
        {
            if patch_matches_search(query.as_slice(), &self.patches[i]) {
                let ghost before = r@;
                r.push(i);
                proof {
                    assert forall|j: int|
                        0 <= j < i + 1 && search_hit(query@, #[trigger] self.patches@[j]) implies exists|k: int|
                        0 <= k < r@.len() && r@[k] == j by {
                        if j < i {
                            let k = choose|k: int| 0 <= k < before.len() && before[k] == j;
                            assert(r@[k] == j);
                        } else {
                            assert(r@[r@.len() - 1] == j);
                        }
                    }
                }
            }
            i = i + 1;
        }
        r
    }
}

/// In the browser's list every patch before a needed patch is needed too,
/// once a load has sorted it.
pub proof fn lemma_needed_on_top(orig: Seq<Patch>, b: PatchBrowser, perm: Seq<int>, i: int, j: int)
    requires
        stably_sorted(orig, b.patches@, perm),
        0 <= i < j < b.patches@.len(),
        is_needed(b.patches@[j]),
    ensures
        is_needed(b.patches@[i]),
{
    crate::order::lemma_stably_sorted_is_sorted(orig, b.patches@, perm);
    crate::order::lemma_needed_first(b.patches@, i, j);
}

/// After a successful load of a non-empty list, the selection names a listed
/// patch, so the details pane shows one.
pub proof fn lemma_load_selects_listed_patch(old_name: Option<String>, patches: Seq<Patch>)
    requires
        patches.len() > 0,
    ensures
        selection_after_load(old_name, patches) matches Some(n) && first_named(patches, n) is Some,
{
    match old_name {
        Some(name) => {
            if first_named(patches, name@) is None {
                lemma_first_named(patches, patches[0].name@);
            }
        },
        None => {
            lemma_first_named(patches, patches[0].name@);
        },
    }
}

/// Counting by category does not depend on ASCII case: two categories equal up
/// to ASCII case count the same patches.
pub proof fn lemma_category_count_ignores_ascii_case(
    s: Seq<Patch>,
    c1: Seq<char>,
    c2: Seq<char>,
)
    requires
        crate::text::eq_ignore_ascii_case_spec(c1, c2),
    ensures
        count_matching(s, |p: Patch| field_is(p.category, c1)) == count_matching(
            s,
            |p: Patch| field_is(p.category, c2),
        ),
{
    let f1 = |p: Patch| field_is(p.category, c1);
    let f2 = |p: Patch| field_is(p.category, c2);
    assert(f1 =~= f2);
}

/// An empty search shows every patch.
pub proof fn lemma_empty_search_shows_all(p: Patch)
    ensures
        search_hit(Seq::empty(), p),
{
}

/// The first load leaves the browser in a state where the list is sorted and
/// the selection is valid, and the error is set exactly when the load failed.
pub proof fn lemma_new_establishes_invariant(loaded: Result<Vec<Patch>, ZypperError>, b: PatchBrowser)
    requires
        state_after_new(loaded, b),
    ensures
        browser_invariant(b),
        b.load_error is Some <==> loaded is Err,
{
    match loaded {
        Ok(ps) => {
            let perm = choose|perm: Seq<int>| stably_sorted(ps@, b.patches@, perm);
            crate::order::lemma_stably_sorted_is_sorted(ps@, b.patches@, perm);
        },
        Err(_) => {},
    }
    if b.patches@.len() > 0 {
        lemma_first_named(b.patches@, b.patches@[0].name@);
    }
}

/// A refresh keeps the list sorted and the selection valid, and afterwards the
/// error is set exactly when this load failed.
pub proof fn lemma_refresh_keeps_invariant(
    before: PatchBrowser,
    loaded: Result<Vec<Patch>, ZypperError>,
    after: PatchBrowser,
)
    requires
        browser_invariant(before),
        state_after_refresh(before, loaded, after),
    ensures
        browser_invariant(after),
        after.load_error is Some <==> loaded is Err,
{
    match loaded {
        Ok(ps) => {
            let perm = choose|perm: Seq<int>| stably_sorted(ps@, after.patches@, perm);
            crate::order::lemma_stably_sorted_is_sorted(ps@, after.patches@, perm);
            if after.patches@.len() > 0 {
                lemma_load_selects_listed_patch(before.selected_name, after.patches@);
            } else {
                match before.selected_name {
                    Some(name) => {
                        assert(first_named(after.patches@, name@) is None);
                    },
                    None => {},
                }
            }
        },
        Err(_) => {},
    }
}

/// Selecting a listed patch keeps the list sorted and the selection valid,
/// and leaves the error as it was.
pub proof fn lemma_select_keeps_invariant(before: PatchBrowser, index: int, after: PatchBrowser)
    requires
        browser_invariant(before),
        0 <= index < before.patches@.len(),
        state_after_select(before, index, after),
    ensures
        browser_invariant(after),
        after.load_error == before.load_error,
{
    lemma_first_named(after.patches@, before.patches@[index].name@);
}

} // verus!
