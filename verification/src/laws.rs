//! What the library's operations mean, stated over sequences and indices
//! rather than over the spec functions that the contracts use.

use vstd::prelude::*;

use crate::browser::{
    count_matching, search_hit, selected_index, state_after_new, state_after_refresh,
    state_after_select, PatchBrowser,
};
use crate::order::{
    in_order, is_index_permutation, key_before, name_number, name_stem, order_key, sorted_by_key,
    stably_sorted,
};
use crate::patch::{field_is, is_needed, listed_patches, Patch, PatchList};
use crate::text::{
    ascii_lower, chars_before, decimal, digits_value, lemma_chars_before_irreflexive,
    lemma_chars_before_asymmetric, lemma_last_index_of, parse_u64_spec, unicode_lowercase,
};
use crate::zypper::{error_message, ZypperError};

verus! {

// ---------------------------------------------------------------------------
// Order of text
// ---------------------------------------------------------------------------

/// `chars_before` is the lexicographic order by code point: `a` sorts before
/// `b` exactly when, after a common prefix of length `k`, either `a` ends and
/// `b` goes on, or `a`'s next character is smaller than `b`'s.
pub proof fn lemma_chars_before_is_lexicographic(a: Seq<char>, b: Seq<char>)
    ensures
        chars_before(a, b) <==> exists|k: int|
            0 <= k <= a.len() && k <= b.len() && #[trigger] a.take(k) == b.take(k) && ((k == a.len()
                && k < b.len()) || (k < a.len() && k < b.len() && a[k] < b[k])),
    decreases a.len(),
{
    if a.len() == 0 {
        if b.len() > 0 {
            assert(a.take(0) =~= b.take(0));
        }
    } else if b.len() == 0 {
    } else if a[0] != b[0] {
        if a[0] < b[0] {
            assert(a.take(0) =~= b.take(0));
        } else {
            assert forall|k: int|
                0 <= k <= a.len() && k <= b.len() && #[trigger] a.take(k) == b.take(k) implies !((k
                == a.len() && k < b.len()) || (k < a.len() && k < b.len() && a[k] < b[k])) by {
                if k > 0 {
                    assert(a.take(k)[0] == b.take(k)[0]);
                }
            }
        }
    } else {
        let a1 = a.drop_first();
        let b1 = b.drop_first();
        lemma_chars_before_is_lexicographic(a1, b1);
        if chars_before(a, b) {
            let k1 = choose|k: int|
                0 <= k <= a1.len() && k <= b1.len() && #[trigger] a1.take(k) == b1.take(k) && ((k
                    == a1.len() && k < b1.len()) || (k < a1.len() && k < b1.len() && a1[k] < b1[k]));
            assert(a.take(k1 + 1) =~= seq![a[0]] + a1.take(k1));
            assert(b.take(k1 + 1) =~= seq![b[0]] + b1.take(k1));
            assert(a.take(k1 + 1) == b.take(k1 + 1));
        }
        assert forall|k: int|
            0 <= k <= a.len() && k <= b.len() && #[trigger] a.take(k) == b.take(k) && ((k == a.len()
                && k < b.len()) || (k < a.len() && k < b.len() && a[k] < b[k])) implies chars_before(
            a,
            b,
        ) by {
            assert(k > 0);
            assert(a1.take(k - 1) =~= a.take(k).drop_first());
            assert(b1.take(k - 1) =~= b.take(k).drop_first());
            assert(a1.take(k - 1) == b1.take(k - 1));
            assert(k - 1 < a1.len() ==> a1[k - 1] == a[k]);
            assert(k - 1 < b1.len() ==> b1[k - 1] == b[k]);
        }
    }
}

// ---------------------------------------------------------------------------
// The sort key
// ---------------------------------------------------------------------------

/// How two sort keys compare: a needed patch (flag `false`) sorts before one
/// that is not; with equal flags, different stems sort lexicographically by
/// code point, whatever their lengths; with equal flags and stems, the higher
/// number sorts first.
pub proof fn lemma_key_order(a: (bool, Seq<char>, u64), b: (bool, Seq<char>, u64))
    ensures
        a.0 != b.0 ==> (key_before(a, b) <==> !a.0),
        a.0 == b.0 && a.1 != b.1 ==> (key_before(a, b) <==> exists|k: int|
            0 <= k <= a.1.len() && k <= b.1.len() && #[trigger] a.1.take(k) == b.1.take(k) && ((k
                == a.1.len() && k < b.1.len()) || (k < a.1.len() && k < b.1.len() && a.1[k]
                < b.1[k]))),
        a.0 == b.0 && a.1 == b.1 ==> (key_before(a, b) <==> a.2 > b.2),
{
    lemma_chars_before_is_lexicographic(a.1, b.1);
    lemma_chars_before_irreflexive(a.1);
}

/// In a sorted list, of two patches with the same needed flag and different
/// lowercase stems, the earlier one has the lexicographically smaller stem.
pub proof fn lemma_sorted_stems_lexicographic(s: Seq<Patch>, i: int, j: int)
    requires
        sorted_by_key(s),
        0 <= i < j < s.len(),
        is_needed(s[i]) == is_needed(s[j]),
        unicode_lowercase(name_stem(s[i].name@)) != unicode_lowercase(name_stem(s[j].name@)),
    ensures
        ({
            let a = unicode_lowercase(name_stem(s[i].name@));
            let b = unicode_lowercase(name_stem(s[j].name@));
            exists|k: int|
                0 <= k <= a.len() && k <= b.len() && #[trigger] a.take(k) == b.take(k) && ((k
                    == a.len() && k < b.len()) || (k < a.len() && k < b.len() && a[k] < b[k]))
        }),
{
    assert(in_order(s, i, j));
    lemma_key_order(order_key(s[i]), order_key(s[j]));
}

/// In a sorted list, every needed patch comes before every patch that is not needed.
pub proof fn lemma_sorted_needed_before_others(s: Seq<Patch>, i: int, j: int)
    requires
        sorted_by_key(s),
        0 <= i < s.len(),
        0 <= j < s.len(),
        is_needed(s[i]),
        !is_needed(s[j]),
    ensures
        i < j,
{
    if j < i {
        assert(in_order(s, j, i));
    }
}

/// The stem and number of a name split at its last `-`: the stem is what
/// precedes it, the number is what follows read as a `u64`, or 0.
pub proof fn lemma_name_split_at_last_dash(name: Seq<char>, i: int)
    requires
        0 <= i < name.len(),
        name[i] == '-',
        forall|j: int| i < j < name.len() ==> name[j] != '-',
    ensures
        name_stem(name) == name.take(i),
        name_number(name) == (match parse_u64_spec(name.skip(i + 1)) {
            Some(n) => n,
            None => 0u64,
        }),
{
    lemma_last_index_of(name, '-');
}

/// A name without `-` is its own stem and has the number 0.
pub proof fn lemma_name_without_dash(name: Seq<char>)
    requires
        forall|j: int| 0 <= j < name.len() ==> name[j] != '-',
    ensures
        name_stem(name) == name,
        name_number(name) == 0,
{
    lemma_last_index_of(name, '-');
}

// ---------------------------------------------------------------------------
// Reading numbers
// ---------------------------------------------------------------------------

/// Empty text, and a lone `+`, are not numbers.
pub proof fn lemma_parse_u64_empty()
    ensures
        parse_u64_spec(Seq::empty()) is None,
        parse_u64_spec(seq!['+']) is None,
{
    assert(seq!['+'].drop_first() =~= Seq::<char>::empty());
}

/// A character other than a digit, except a `+` in front, makes the text no number.
pub proof fn lemma_parse_u64_rejects_non_digit(s: Seq<char>, i: int)
    requires
        0 <= i < s.len(),
        !('0' <= s[i] && s[i] <= '9'),
        !(i == 0 && s[i] == '+'),
    ensures
        parse_u64_spec(s) is None,
{
    if s.len() > 0 && s[0] == '+' {
        assert(s.drop_first()[i - 1] == s[i]);
    }
}

/// One digit reads as its value.
pub proof fn lemma_parse_u64_one_digit(c: char)
    requires
        '0' <= c && c <= '9',
    ensures
        parse_u64_spec(seq![c]) == Some(((c as int) - 48) as u64),
{
    let d = seq![c];
    assert(d.drop_last() =~= Seq::<char>::empty());
    assert(d[0] == c);
    assert(digits_value(Seq::<char>::empty()) == 0);
    assert(digits_value(d) == (c as int) - 48);
    assert(crate::text::all_digits(d));
}

/// Appending a digit to a number multiplies it by ten and adds the digit; the
/// text stops being a number once the value exceeds `u64::MAX`. A leading `+`
/// changes nothing.
pub proof fn lemma_parse_u64_append_digit(d: Seq<char>, c: char)
    requires
        d.len() > 0,
        forall|i: int| 0 <= i < d.len() ==> '0' <= #[trigger] d[i] && d[i] <= '9',
        '0' <= c && c <= '9',
    ensures
        parse_u64_spec(d.push(c)) == (match parse_u64_spec(d) {
            Some(x) => if 10 * x + ((c as int) - 48) <= u64::MAX {
                Some((10 * x + ((c as int) - 48)) as u64)
            } else {
                None
            },
            None => None,
        }),
        parse_u64_spec(seq!['+'] + d) == parse_u64_spec(d),
{
    let e = d.push(c);
    assert(e.drop_last() =~= d);
    assert(d[0] != '+');
    assert(e[0] == d[0]);
    assert((seq!['+'] + d).drop_first() =~= d);
    if digits_value(d) > u64::MAX {
        assert(digits_value(e) >= digits_value(d));
    }
}

/// Decimal notation reads back as the number it writes.
pub proof fn lemma_decimal_reads_back(n: u64)
    ensures
        parse_u64_spec(decimal(n as nat)) == Some(n),
{
    lemma_decimal_digits(n as nat);
    let d = decimal(n as nat);
    assert(d[0] != '+');
}

proof fn lemma_decimal_digits(n: nat)
    ensures
        decimal(n).len() > 0,
        forall|i: int| 0 <= i < decimal(n).len() ==> '0' <= #[trigger] decimal(n)[i] && decimal(n)[i]
            <= '9',
        digits_value(decimal(n)) == n,
    decreases n,
{
    if n >= 10 {
        lemma_decimal_digits(n / 10);
        let d = decimal(n);
        assert(d.drop_last() =~= decimal(n / 10));
        assert(((d.last() as int) - 48) == n % 10);
    } else {
        let d = decimal(n);
        assert(d.drop_last() =~= Seq::<char>::empty());
        assert(((n + 48) as char) as int == n + 48);
        assert(d.last() == crate::text::digit_char(n));
        assert(digits_value(Seq::<char>::empty()) == 0);
    }
}

// ---------------------------------------------------------------------------
// Matching fields and counting
// ---------------------------------------------------------------------------

/// ASCII lowercase moves `A`..`Z` to `a`..`z` and keeps every other character.
pub proof fn lemma_ascii_lower(c: char)
    ensures
        'A' <= c && c <= 'Z' ==> ascii_lower(c) as int == c as int + 32,
        !('A' <= c && c <= 'Z') ==> ascii_lower(c) == c,
{
}

/// An attribute matches a word exactly when it is present and, character by
/// character, equal to the word up to ASCII case; so the whole attribute must
/// match, not a part of it.
pub proof fn lemma_field_is_whole_match(field: Option<String>, word: Seq<char>)
    ensures
        field_is(field, word) <==> (field matches Some(v) && v@.len() == word.len() && forall|i: int|
            0 <= i < word.len() ==> ascii_lower(#[trigger] v@[i]) == ascii_lower(word[i])),
{
    match field {
        Some(v) => {
            let a = crate::text::ascii_lower_seq(v@);
            let b = crate::text::ascii_lower_seq(word);
            if v@.len() == word.len() && forall|i: int|
                0 <= i < word.len() ==> ascii_lower(#[trigger] v@[i]) == ascii_lower(word[i]) {
                assert(a =~= b);
            }
            if a == b {
                assert(a.len() == b.len());
                assert forall|i: int| 0 <= i < word.len() implies ascii_lower(#[trigger] v@[i])
                    == ascii_lower(word[i]) by {
                    assert(a[i] == b[i]);
                }
            }
        },
        None => {},
    }
}

/// A patch is needed exactly when its status is present and spells `needed`
/// up to ASCII case.
pub proof fn lemma_is_needed_spelled(p: Patch)
    ensures
        is_needed(p) <==> (p.status matches Some(s) && s@.len() == 6 && ascii_lower(s@[0]) == 'n'
            && ascii_lower(s@[1]) == 'e' && ascii_lower(s@[2]) == 'e' && ascii_lower(s@[3]) == 'd'
            && ascii_lower(s@[4]) == 'e' && ascii_lower(s@[5]) == 'd'),
{
    lemma_field_is_whole_match(p.status, crate::patch::needed_word());
    let w = crate::patch::needed_word();
    assert(w[0] == 'n' && w[1] == 'e' && w[2] == 'e' && w[3] == 'd' && w[4] == 'e' && w[5] == 'd');
}

/// The counts are the number of patches that satisfy the predicate: the length
/// of the list filtered by it.
pub proof fn lemma_count_is_filter_length(s: Seq<Patch>, pred: spec_fn(Patch) -> bool)
    ensures
        count_matching(s, pred) == s.filter(pred).len(),
    decreases s.len(),
{
    if s.len() > 0 {
        lemma_count_is_filter_length(s.drop_last(), pred);
        s.drop_last().lemma_filter_len_push(pred, s.last());
        assert(s.drop_last().push(s.last()) =~= s);
    } else {
        reveal_with_fuel(Seq::filter, 1);
    }
}

// ---------------------------------------------------------------------------
// Searching
// ---------------------------------------------------------------------------

/// A lowercased search hits a patch exactly when it is empty, or occurs at
/// some position of the lowercased name, summary or description, or is how the
/// lowercased category or status begins (an omitted one being empty).
pub proof fn lemma_search_hit_exact(q: Seq<char>, p: Patch)
    ensures
        search_hit(q, p) <==> ({
            let name = unicode_lowercase(p.name@);
            let category = unicode_lowercase(crate::patch::shown(p.category, Seq::empty()));
            let status = unicode_lowercase(crate::patch::shown(p.status, Seq::empty()));
            let summary = unicode_lowercase(p.summary@);
            let description = unicode_lowercase(p.description@);
            ||| q.len() == 0
            ||| exists|i: int|
                0 <= i && i + q.len() <= name.len() && #[trigger] name.subrange(i, i + q.len()) == q
            ||| (q.len() <= category.len() && category.subrange(0, q.len() as int) == q)
            ||| (q.len() <= status.len() && status.subrange(0, q.len() as int) == q)
            ||| exists|i: int|
                0 <= i && i + q.len() <= summary.len() && #[trigger] summary.subrange(i, i + q.len())
                    == q
            ||| exists|i: int|
                0 <= i && i + q.len() <= description.len() && #[trigger] description.subrange(
                    i,
                    i + q.len(),
                ) == q
        }),
{
}

/// A search that occurs anywhere inside the lowercased name is a hit.
pub proof fn lemma_search_inside_name_hits(q: Seq<char>, p: Patch, i: int)
    requires
        0 <= i,
        i + q.len() <= unicode_lowercase(p.name@).len(),
        unicode_lowercase(p.name@).subrange(i, i + q.len()) == q,
    ensures
        search_hit(q, p),
{
    lemma_search_hit_exact(q, p);
}

// ---------------------------------------------------------------------------
// Listings and refreshing
// ---------------------------------------------------------------------------

/// The patches of a listing with an update status are its whole update list,
/// position by position; without an update status there are none.
pub proof fn lemma_listing_is_update_list(list: PatchList)
    ensures
        list.update_status matches Some(st) ==> listed_patches(list).len()
            == st.update_list.updates@.len() && forall|i: int|
            0 <= i < st.update_list.updates@.len() ==> #[trigger] listed_patches(list)[i]
                == st.update_list.updates@[i],
        list.update_status is None ==> listed_patches(list).len() == 0,
{
}

/// A successful refresh keeps the selected name while some patch of the new
/// list carries it.
pub proof fn lemma_refresh_keeps_listed_selection(
    before: PatchBrowser,
    ps: Vec<Patch>,
    after: PatchBrowser,
    name: String,
    i: int,
)
    requires
        state_after_refresh(before, Ok::<Vec<Patch>, ZypperError>(ps), after),
        before.selected_name == Some(name),
        0 <= i < after.patches@.len(),
        after.patches@[i].name@ == name@,
    ensures
        after.selected_name matches Some(n) && n@ == name@,
{
    crate::browser::lemma_first_named(after.patches@, name@);
}

/// A successful refresh whose new list no longer carries the selected name
/// (or had no selection) selects the first patch, or nothing when the list is empty.
pub proof fn lemma_refresh_moves_unlisted_selection(
    before: PatchBrowser,
    ps: Vec<Patch>,
    after: PatchBrowser,
)
    requires
        state_after_refresh(before, Ok::<Vec<Patch>, ZypperError>(ps), after),
        before.selected_name matches Some(name) ==> forall|i: int|
            0 <= i < after.patches@.len() ==> #[trigger] after.patches@[i].name@ != name@,
    ensures
        after.patches@.len() > 0 ==> (after.selected_name matches Some(n) && n@
            == after.patches@[0].name@),
        after.patches@.len() == 0 ==> after.selected_name is None,
{
    match before.selected_name {
        Some(name) => crate::browser::lemma_first_named(after.patches@, name@),
        None => {},
    }
}

// ---------------------------------------------------------------------------
// Sorting keeps the patches and the order of equal keys
// ---------------------------------------------------------------------------

/// A list of `n` distinct positions below `n` names every position.
pub proof fn lemma_index_permutation_covers(perm: Seq<int>, n: nat, i: int)
    requires
        is_index_permutation(perm, n),
        0 <= i < n,
    ensures
        exists|j: int| 0 <= j < n && perm[j] == i,
{
    assert(perm.no_duplicates()) by {
        assert forall|a: int, b: int|
            0 <= a < perm.len() && 0 <= b < perm.len() && a != b implies perm[a] != perm[b] by {
            if a > b {
            }
        }
    }
    perm.unique_seq_to_set();
    let r = vstd::set_lib::set_int_range(0, n as int);
    vstd::set_lib::lemma_int_range(0, n as int);
    vstd::seq_lib::seq_to_set_is_finite(perm);
    assert(perm.to_set().subset_of(r)) by {
        assert forall|x: int| perm.to_set().contains(x) implies r.contains(x) by {
            let j = choose|j: int| 0 <= j < perm.len() && perm[j] == x;
            assert(0 <= perm[j] < n);
        }
    }
    vstd::set_lib::lemma_subset_equality(perm.to_set(), r);
    assert(r.contains(i));
    assert(perm.to_set().contains(i));
    assert(perm.contains(i));
}

/// Sorting loses no patch: every patch of the input stands somewhere in the output.
pub proof fn lemma_sort_keeps_every_patch(orig: Seq<Patch>, out: Seq<Patch>, perm: Seq<int>, i: int)
    requires
        stably_sorted(orig, out, perm),
        0 <= i < orig.len(),
    ensures
        exists|j: int| 0 <= j < out.len() && out[j] == orig[i],
{
    lemma_index_permutation_covers(perm, orig.len(), i);
    let j = choose|j: int| 0 <= j < orig.len() && perm[j] == i;
    assert(out[j] == orig[perm[j]]);
}

/// Sorting keeps the input order of patches with equal keys: if the input has
/// such patches at `i1 < i2`, their places `j1`, `j2` in the output have `j1 < j2`.
pub proof fn lemma_sort_is_stable(
    orig: Seq<Patch>,
    out: Seq<Patch>,
    perm: Seq<int>,
    j1: int,
    j2: int,
)
    requires
        stably_sorted(orig, out, perm),
        0 <= j1 < out.len(),
        0 <= j2 < out.len(),
        perm[j1] < perm[j2],
        order_key(orig[perm[j1]]) == order_key(orig[perm[j2]]),
    ensures
        j1 < j2,
{
    let keys = orig.map_values(|p: Patch| order_key(p));
    assert(0 <= perm[j1] < orig.len());
    assert(0 <= perm[j2] < orig.len());
    assert(keys[perm[j1]] == order_key(orig[perm[j1]]));
    assert(keys[perm[j2]] == order_key(orig[perm[j2]]));
    crate::order::lemma_key_before_irreflexive(keys[perm[j1]]);
    if j2 < j1 {
        assert(key_before(keys[perm[j2]], keys[perm[j1]]) || (keys[perm[j2]] == keys[perm[j1]]
            && perm[j2] < perm[j1]));
    }
    if j1 == j2 {
        assert(perm[j1] == perm[j2]);
    }
}

/// In a sorted list, of two patches with the same needed flag and the same
/// lowercase stem, the earlier one has the number that is not smaller.
pub proof fn lemma_sorted_numbers_descending(s: Seq<Patch>, i: int, j: int)
    requires
        sorted_by_key(s),
        0 <= i < j < s.len(),
        is_needed(s[i]) == is_needed(s[j]),
        unicode_lowercase(name_stem(s[i].name@)) == unicode_lowercase(name_stem(s[j].name@)),
    ensures
        name_number(s[i].name@) >= name_number(s[j].name@),
{
    assert(in_order(s, i, j));
    lemma_key_order(order_key(s[i]), order_key(s[j]));
}

// ---------------------------------------------------------------------------
// The first load and failed loads
// ---------------------------------------------------------------------------

/// The first load: a successful one keeps every patch and clears the error; a
/// failed one leaves the list empty and records the error's message. The first
/// patch is selected, nothing when there is none; the search is empty.
pub proof fn lemma_new_outcome(loaded: Result<Vec<Patch>, ZypperError>, b: PatchBrowser)
    requires
        state_after_new(loaded, b),
    ensures
        loaded matches Ok(ps) ==> b.load_error is None && b.patches@.len() == ps@.len(),
        loaded matches Err(e) ==> b.patches@.len() == 0 && (b.load_error matches Some(m) && m@
            == error_message(e)),
        b.patches@.len() > 0 ==> (b.selected_name matches Some(n) && n@ == b.patches@[0].name@),
        b.patches@.len() == 0 ==> b.selected_name is None,
        b.search@.len() == 0,
{
}

/// A failed refresh keeps the list and the selection and records the error's message.
pub proof fn lemma_failed_refresh_keeps_list(
    before: PatchBrowser,
    e: ZypperError,
    after: PatchBrowser,
)
    requires
        state_after_refresh(before, Err::<Vec<Patch>, ZypperError>(e), after),
    ensures
        after.patches@ == before.patches@,
        after.selected_name == before.selected_name,
        after.load_error matches Some(m) && m@ == error_message(e),
{
}

/// A successful refresh keeps every patch it was given and clears the error.
pub proof fn lemma_successful_refresh_lists_all(
    before: PatchBrowser,
    ps: Vec<Patch>,
    after: PatchBrowser,
    i: int,
)
    requires
        state_after_refresh(before, Ok::<Vec<Patch>, ZypperError>(ps), after),
        0 <= i < ps@.len(),
    ensures
        after.load_error is None,
        exists|j: int| 0 <= j < after.patches@.len() && after.patches@[j] == ps@[i],
{
    let perm = choose|perm: Seq<int>| stably_sorted(ps@, after.patches@, perm);
    lemma_sort_keeps_every_patch(ps@, after.patches@, perm, i);
}

// ---------------------------------------------------------------------------
// Error messages
// ---------------------------------------------------------------------------

/// Every error message ends with the detail it carries: the operating
/// system's or the parser's text, or what `zypper` wrote to standard error;
/// before it stands a fixed description of the failure.
pub proof fn lemma_message_ends_with_detail(e: ZypperError)
    ensures
        ({
            let m = error_message(e);
            match e {
                ZypperError::Start(t) => m == "could not start zypper: "@ + t@,
                ZypperError::InvalidXml(t) => m == "zypper returned invalid XML: "@ + t@,
                ZypperError::Failed { status, stderr } => m.len() >= stderr@.len() && m.skip(
                    m.len() - stderr@.len(),
                ) == stderr@ && m.take(26) == "zypper failed with status "@,
            }
        }),
{
    match e {
        ZypperError::Failed { status, stderr } => {
            let m = error_message(e);
            let head = "zypper failed with status "@ + crate::zypper::status_debug(status) + ": "@;
            assert(m == head + stderr@);
            assert(m.skip(m.len() - stderr@.len()) =~= stderr@);
            reveal_strlit("zypper failed with status ");
            assert(m.take(26) =~= "zypper failed with status "@);
        },
        _ => {},
    }
}

/// Selecting the patch at `index` shows a patch of that name: the selected
/// patch is the first one carrying the name of the patch at `index`, which is
/// that patch itself unless an earlier one has the same name.
pub proof fn lemma_select_shows_that_patch(before: PatchBrowser, index: int, after: PatchBrowser)
    requires
        0 <= index < before.patches@.len(),
        state_after_select(before, index, after),
    ensures
        selected_index(after) matches Some(k) && k <= index && after.patches@[k].name@
            == before.patches@[index].name@,
        (forall|j: int| 0 <= j < index ==> #[trigger] before.patches@[j].name@
            != before.patches@[index].name@) ==> selected_index(after) == Some(index),
{
    crate::browser::lemma_first_named(after.patches@, before.patches@[index].name@);
}

} // verus!
