//! The order of the patch list: patches still `needed` first, then by name
//! without its trailing `-<number>` (Unicode lowercase), then by that number,
//! highest first. Patches with equal keys keep their order.

use vstd::prelude::*;

use crate::patch::{is_needed, Patch};
use crate::text::{
    chars_before, chars_lt, chars_of, last_index_of, last_position, lemma_chars_before_asymmetric,
    lemma_chars_before_irreflexive, lemma_chars_before_total, lemma_chars_before_transitive,
    lemma_last_index_of, parse_u64, parse_u64_spec, string_of, to_lowercase, unicode_lowercase,
};

verus! {

// ---------------------------------------------------------------------------
// The key
// ---------------------------------------------------------------------------

/// The name without its last `-` and what follows it; the whole name when it has no `-`.
pub open spec fn name_stem(name: Seq<char>) -> Seq<char> {
    match last_index_of(name, '-') {
        Some(i) => name.take(i),
        None => name,
    }
}

/// The number after the last `-` of the name; 0 when there is no `-` or
/// what follows it is not a `u64`.
pub open spec fn name_number(name: Seq<char>) -> u64 {
    match last_index_of(name, '-') {
        Some(i) => match parse_u64_spec(name.skip(i + 1)) {
            Some(n) => n,
            None => 0,
        },
        None => 0,
    }
}

/// The sort key of a patch: whether it is *not* needed, the lowercase stem of
/// its name, and the number of its name.
pub open spec fn order_key(p: Patch) -> (bool, Seq<char>, u64) {
    (!is_needed(p), unicode_lowercase(name_stem(p.name@)), name_number(p.name@))
}

/// Key `a` sorts strictly before key `b`: `false` before `true`, then stems in
/// code-point order, then higher numbers first.
pub open spec fn key_before(a: (bool, Seq<char>, u64), b: (bool, Seq<char>, u64)) -> bool {
    ||| (!a.0 && b.0)
    ||| (a.0 == b.0 && chars_before(a.1, b.1))
    ||| (a.0 == b.0 && a.1 == b.1 && a.2 > b.2)
}

/// The patch at `i` of `s` sorts before the one at `j`, or they have equal
/// keys: the list reads in order from `i` to `j`.
pub open spec fn in_order(s: Seq<Patch>, i: int, j: int) -> bool {
    key_before(order_key(s[i]), order_key(s[j])) || order_key(s[i]) == order_key(s[j])
}

/// Every patch is in order with every later one.
pub open spec fn sorted_by_key(s: Seq<Patch>) -> bool {
    forall|i: int, j: int| 0 <= i < j < s.len() ==> in_order(s, i, j)
}

/// `perm` lists distinct positions of a sequence of length `n`, each once.
pub open spec fn is_index_permutation(perm: Seq<int>, n: nat) -> bool {
    &&& perm.len() == n
    &&& forall|i: int| 0 <= i < n ==> 0 <= #[trigger] perm[i] < n
    &&& forall|i: int, j: int| 0 <= i < j < n ==> perm[i] != perm[j]
}

/// `out` is `orig` sorted stably by the given keys, `keys[i]` being the key of
/// `orig[i]`: `out[j]` is `orig[perm[j]]`, and `(key, original position)`
/// strictly increases along `out`.
pub open spec fn stably_sorted_by(
    orig: Seq<Patch>,
    keys: Seq<(bool, Seq<char>, u64)>,
    out: Seq<Patch>,
    perm: Seq<int>,
) -> bool {
    &&& out.len() == orig.len()
    &&& is_index_permutation(perm, orig.len())
    &&& forall|j: int| 0 <= j < out.len() ==> out[j] == orig[#[trigger] perm[j]]
    &&& forall|i: int, j: int|
        0 <= i < j < out.len() ==> key_before(keys[perm[i]], keys[perm[j]]) || (keys[perm[i]]
            == keys[perm[j]] && perm[i] < perm[j])
}

/// `out` is `orig` sorted stably by `order_key`.
pub open spec fn stably_sorted(orig: Seq<Patch>, out: Seq<Patch>, perm: Seq<int>) -> bool {
    stably_sorted_by(orig, orig.map_values(|p: Patch| order_key(p)), out, perm)
}

// ---------------------------------------------------------------------------
// Laws of the key order
// ---------------------------------------------------------------------------

/// No key sorts before itself.
pub proof fn lemma_key_before_irreflexive(a: (bool, Seq<char>, u64))
    ensures
        !key_before(a, a),
{
    lemma_chars_before_irreflexive(a.1);
}

/// Two keys never sort before each other.
pub proof fn lemma_key_before_asymmetric(a: (bool, Seq<char>, u64), b: (bool, Seq<char>, u64))
    ensures
        !(key_before(a, b) && key_before(b, a)),
{
    lemma_chars_before_asymmetric(a.1, b.1);
    lemma_chars_before_irreflexive(a.1);
}

/// Of two different keys, one sorts before the other.
pub proof fn lemma_key_before_total(a: (bool, Seq<char>, u64), b: (bool, Seq<char>, u64))
    ensures
        a == b || key_before(a, b) || key_before(b, a),
{
    lemma_chars_before_total(a.1, b.1);
}

/// The key order is transitive.
pub proof fn lemma_key_before_transitive(
    a: (bool, Seq<char>, u64),
    b: (bool, Seq<char>, u64),
    c: (bool, Seq<char>, u64),
)
    requires
        key_before(a, b),
        key_before(b, c),
    ensures
        key_before(a, c),
{
    if a.0 == b.0 && b.0 == c.0 {
        if chars_before(a.1, b.1) && chars_before(b.1, c.1) {
            lemma_chars_before_transitive(a.1, b.1, c.1);
        }
    }
}

// ---------------------------------------------------------------------------
// Executable key
// ---------------------------------------------------------------------------

/// The sort key of one patch, computed once per patch.
pub struct OrderKey {
    pub not_needed: bool,
    pub stem: Vec<char>,
    pub number: u64,
}

impl View for OrderKey {
    type V = (bool, Seq<char>, u64);

    open spec fn view(&self) -> (bool, Seq<char>, u64) {
        (self.not_needed, self.stem@, self.number)
    }
}

/// The characters of `s` from `from` up to, not including, `to`.
fn sub_chars(s: &[char], from: usize, to: usize) -> (r: Vec<char>)
    requires
        from <= to <= s@.len(),
    ensures
        r@ == s@.subrange(from as int, to as int),
{
    let mut r: Vec<char> = Vec::new();
    let mut i: usize = from;
    while i < to
        invariant
            from <= i <= to <= s@.len(),
            r@ == s@.subrange(from as int, i as int),
        decreases to - i,
    {
        r.push(s[i]);
        i = i + 1;
        assert(r@ =~= s@.subrange(from as int, i as int));
    }
    r
}

/// The sort key of a patch.
pub fn order_key_of(p: &Patch) -> (k: OrderKey)
    ensures
        k@ == order_key(*p),
{
    let name = chars_of(p.name.as_str());
    proof {
        lemma_last_index_of(name@, '-');
    }
    let (stem, number) = match last_position(name.as_slice(), '-') {
        Some(i) => {
            let stem = sub_chars(name.as_slice(), 0, i);
            let digits = sub_chars(name.as_slice(), i + 1, name.len());
            proof {
                assert(stem@ =~= name@.take(i as int));
                assert(digits@ =~= name@.skip(i + 1));
            }
            let number = match parse_u64(digits.as_slice()) {
                Some(n) => n,
                None => 0,
            };
            (stem, number)
        },
        None => (name, 0),
    };
    let stem_text = string_of(stem.as_slice());
    let lowered = to_lowercase(stem_text.as_str());
    OrderKey { not_needed: !p.is_needed(), stem: chars_of(lowered.as_str()), number }
}

/// Whether key `a` sorts strictly before key `b`.
pub fn key_lt(a: &OrderKey, b: &OrderKey) -> (r: bool)
    ensures
        r == key_before(a@, b@),
{
    if a.not_needed != b.not_needed {
        return !a.not_needed;
    }
    if chars_lt(a.stem.as_slice(), b.stem.as_slice()) {
        return true;
    }
    if chars_lt(b.stem.as_slice(), a.stem.as_slice()) {
        proof {
            lemma_chars_before_asymmetric(a.stem@, b.stem@);
        }
        return false;
    }
    proof {
        lemma_chars_before_total(a.stem@, b.stem@);
    }
    a.number > b.number
}

// ---------------------------------------------------------------------------
// Sorting
// ---------------------------------------------------------------------------

/// The views of a sequence of keys.
pub open spec fn key_views(keys: Seq<OrderKey>) -> Seq<(bool, Seq<char>, u64)> {
    keys.map_values(|k: OrderKey| k@)
}

/// Sorts `items` stably by `keys`, `keys[i]` being the key of `items[i]`:
/// each item goes after every item before it whose key is not greater.
pub fn sort_by_keys(items: Vec<Patch>, keys: Vec<OrderKey>) -> (out: Vec<Patch>)
    requires
        keys@.len() == items@.len(),
    ensures
        exists|perm: Seq<int>| stably_sorted_by(items@, key_views(keys@), out@, perm),
{
    let ghost orig = items@;
    let ghost ks = key_views(keys@);
    let n = items.len();
    let mut items = items;
    let mut keys = keys;
    let mut out: Vec<Patch> = Vec::new();
    let mut out_keys: Vec<OrderKey> = Vec::new();
    let ghost mut perm: Seq<int> = Seq::empty();
    let mut k: usize = 0;
    proof {
        assert(items@ =~= orig.skip(0));
        assert(key_views(keys@) =~= ks.skip(0));
    }
    while k < n
        invariant
            n == orig.len(),
            ks.len() == n,
            k <= n,
            items@ == orig.skip(k as int),
            key_views(keys@) == ks.skip(k as int),
            out@.len() == k,
            out_keys@.len() == k,
            perm.len() == k,
            forall|j: int| 0 <= j < k ==> 0 <= #[trigger] perm[j] < k,
            forall|j: int| 0 <= j < k ==> #[trigger] out_keys@[j]@ == ks[perm[j]],
            forall|i: int, j: int| 0 <= i < j < k ==> perm[i] != perm[j],
            forall|j: int| 0 <= j < k ==> out@[j] == orig[#[trigger] perm[j]],
            forall|i: int, j: int|
                0 <= i < j < k ==> key_before(ks[perm[i]], ks[perm[j]]) || (ks[perm[i]]
                    == ks[perm[j]] && perm[i] < perm[j]),
        decreases n - k,
    {
        assert(items@.len() > 0);
        let ghost kv_before = key_views(keys@);
        let ghost keys_before = keys@;
        assert(keys@.len() > 0) by {
            assert(key_views(keys@).len() == keys@.len());
        }
        let item = items.remove(0);
        let key = keys.remove(0);
        proof {
            assert(item == orig[k as int]);
            assert(items@ =~= orig.skip(k + 1));
            assert(kv_before[0] == keys_before[0]@);
            assert(kv_before[0] == key@);
            assert(key@ == ks[k as int]);
            assert(kv_before.len() == keys_before.len());
            assert(key_views(keys@).len() == keys@.len());
            assert forall|j: int| 0 <= j < keys@.len() implies key_views(keys@)[j] == ks.skip(
                k + 1,
            )[j] by {
                assert(keys@[j] == keys_before[j + 1]);
                assert(kv_before[j + 1] == keys_before[j + 1]@);
            }
            assert(key_views(keys@) =~= ks.skip(k + 1));
        }
        let mut pos: usize = 0;
        while pos < out_keys.len() && !key_lt(&key, &out_keys[pos])
            invariant
                pos <= out_keys@.len(),
                forall|j: int| 0 <= j < pos ==> !key_before(key@, #[trigger] out_keys@[j]@),
            decreases out_keys@.len() - pos,
        {
            pos = pos + 1;
        }
        let ghost old_out = out@;
        let ghost old_perm = perm;
        let ghost old_keys = out_keys@;
        let ghost newkey = key@;
        proof {
            // Everything before `pos` is in order with the new item.
            assert forall|j: int| 0 <= j < pos implies key_before(ks[old_perm[j]], newkey)
                || ks[old_perm[j]] == newkey by {
                assert(!key_before(newkey, old_keys[j]@));
                lemma_key_before_total(newkey, ks[old_perm[j]]);
            }
            // Everything from `pos` on sorts after the new item.
            if pos < k {
                assert(key_before(newkey, old_keys[pos as int]@));
                assert forall|j: int| pos < j < k implies key_before(newkey, ks[old_perm[j]]) by {
                    let a = ks[old_perm[pos as int]];
                    let b = ks[old_perm[j]];
                    if key_before(a, b) {
                        lemma_key_before_transitive(newkey, a, b);
                    }
                }
            }
        }
        out.insert(pos, item);
        out_keys.insert(pos, key);
        proof {
            perm = old_perm.insert(pos as int, k as int);
            assert forall|j: int| 0 <= j < k + 1 implies 0 <= #[trigger] perm[j] < k + 1 by {
                if j > pos {
                    assert(perm[j] == old_perm[j - 1]);
                }
            }
            assert forall|j: int| 0 <= j < k + 1 implies #[trigger] out_keys@[j]@ == ks[perm[j]] by {
                if j < pos {
                    assert(out_keys@[j] == old_keys[j]);
                    assert(perm[j] == old_perm[j]);
                } else if j > pos {
                    assert(out_keys@[j] == old_keys[j - 1]);
                    assert(perm[j] == old_perm[j - 1]);
                }
            }
            assert forall|j: int| 0 <= j < k + 1 implies out@[j] == orig[#[trigger] perm[j]] by {
                if j < pos {
                    assert(perm[j] == old_perm[j]);
                } else if j > pos {
                    assert(perm[j] == old_perm[j - 1]);
                }
            }
            assert forall|i: int, j: int| 0 <= i < j < k + 1 implies perm[i] != perm[j] by {
                if i < pos && j > pos {
                    assert(perm[j] == old_perm[j - 1]);
                } else if i == pos && j > pos {
                    assert(perm[j] == old_perm[j - 1]);
                } else if i > pos {
                    assert(perm[i] == old_perm[i - 1]);
                    assert(perm[j] == old_perm[j - 1]);
                }
            }
            assert forall|i: int, j: int| 0 <= i < j < k + 1 implies key_before(
                ks[perm[i]],
                ks[perm[j]],
            ) || (ks[perm[i]] == ks[perm[j]] && perm[i] < perm[j]) by {
                if i < pos && j < pos {
                    assert(perm[i] == old_perm[i] && perm[j] == old_perm[j]);
                } else if i < pos && j == pos {
                    assert(perm[i] == old_perm[i]);
                } else if i < pos {
                    assert(perm[i] == old_perm[i] && perm[j] == old_perm[j - 1]);
                } else if i == pos {
                    assert(perm[j] == old_perm[j - 1]);
                } else {
                    assert(perm[i] == old_perm[i - 1] && perm[j] == old_perm[j - 1]);
                }
            }
        }
        k = k + 1;
    }
    proof {
        assert(stably_sorted_by(orig, ks, out@, perm));
    }
    out
}

/// Sorts the patches stably by their key (`sort_by_cached_key` of the key
/// `(not needed, lowercase stem, Reverse(number))`).
pub fn sort_patches(patches: &mut Vec<Patch>)
    ensures
        exists|perm: Seq<int>| stably_sorted(old(patches)@, final(patches)@, perm),
{
    let mut keys: Vec<OrderKey> = Vec::new();
    let mut i: usize = 0;
    while i < patches.len()
        invariant
            i <= patches@.len(),
            patches@ == old(patches)@,
            keys@.len() == i,
            forall|j: int| 0 <= j < i ==> #[trigger] keys@[j]@ == order_key(patches@[j]),
        decreases patches@.len() - i,
    {
        let key = order_key_of(&patches[i]);
        keys.push(key);
        i = i + 1;
    }
    let ghost orig = patches@;
    proof {
        assert(key_views(keys@) =~= orig.map_values(|p: Patch| order_key(p)));
    }
    let mut items: Vec<Patch> = Vec::new();
    std::mem::swap(patches, &mut items);
    let sorted = sort_by_keys(items, keys);
    proof {
        let perm = choose|perm: Seq<int>| stably_sorted_by(orig, key_views(keys@), sorted@, perm);
        assert(stably_sorted(orig, sorted@, perm));
    }
    *patches = sorted;
}

// ---------------------------------------------------------------------------
// Laws of the order
// ---------------------------------------------------------------------------

/// A stably sorted list is sorted by key.
pub proof fn lemma_stably_sorted_is_sorted(orig: Seq<Patch>, out: Seq<Patch>, perm: Seq<int>)
    requires
        stably_sorted(orig, out, perm),
    ensures
        sorted_by_key(out),
{
    let keys = orig.map_values(|p: Patch| order_key(p));
    assert forall|i: int| 0 <= i < out.len() implies #[trigger] order_key(out[i]) == keys[perm[i]] by {
        assert(out[i] == orig[perm[i]]);
    }
    assert forall|i: int, j: int| 0 <= i < j < out.len() implies in_order(out, i, j) by {
        assert(order_key(out[i]) == keys[perm[i]]);
        assert(order_key(out[j]) == keys[perm[j]]);
    }
}

/// In a list sorted by key, every patch before a needed patch is needed too:
/// the needed patches stand on top of the list.
pub proof fn lemma_needed_first(s: Seq<Patch>, i: int, j: int)
    requires
        sorted_by_key(s),
        0 <= i < j < s.len(),
        is_needed(s[j]),
    ensures
        is_needed(s[i]),
{
    assert(in_order(s, i, j));
}

/// Among patches that agree on being needed and on their lowercase stem, a
/// sorted list shows higher numbers first (the newest patch of a series on top).
pub proof fn lemma_newest_first(s: Seq<Patch>, i: int, j: int)
    requires
        sorted_by_key(s),
        0 <= i < j < s.len(),
        order_key(s[i]).0 == order_key(s[j]).0,
        order_key(s[i]).1 == order_key(s[j]).1,
    ensures
        order_key(s[i]).2 >= order_key(s[j]).2,
{
    assert(in_order(s, i, j));
    lemma_chars_before_irreflexive(order_key(s[i]).1);
}

} // verus!
