//! The index that a database holds in memory: every key with its value.
use rustc_hash::FxHashMap;
use vstd::prelude::*;

verus! {

/// `rustc_hash::FxBuildHasher`, the hasher of an `FxHashMap`.
#[verifier::external_type_specification]
#[verifier::external_body]
pub struct ExFxBuildHasher(rustc_hash::FxBuildHasher);

/// The keys of a map with their values.
pub uninterp spec fn index_contents(index: FxHashMap<Vec<u8>, Vec<u8>>) -> Map<Seq<u8>, Seq<u8>>;

/// Whether `items` holds every member of `set` once, and nothing else.
pub open spec fn lists_once<A>(items: Seq<A>, set: Set<A>) -> bool {
    items.no_duplicates() && items.to_set() == set
}

/// Whether `set` has `n` members.
pub open spec fn has_size<A>(set: Set<A>, n: nat) -> bool {
    set.finite() && set.len() == n
}

/// A set that can be listed has as many members as the list.
pub proof fn lemma_lists_once<A>(items: Seq<A>, set: Set<A>)
    requires
        lists_once(items, set),
    ensures
        has_size(set, items.len()),
{
    vstd::seq_lib::seq_to_set_is_finite(items);
    items.unique_seq_to_set();
}

/// Calls `FxHashMap::default`: the map holds no key.
#[verifier::external_body]
fn index_new() -> (index: FxHashMap<Vec<u8>, Vec<u8>>)
    ensures
        index_contents(index).dom() == Set::<Seq<u8>>::empty(),
{
    FxHashMap::default()
}

/// Calls `FxHashMap::insert`: the key holds the value, all other keys keep theirs,
/// and the value that the key held before comes back.
#[verifier::external_body]
fn index_insert(index: &mut FxHashMap<Vec<u8>, Vec<u8>>, key: Vec<u8>, value: Vec<u8>) -> (previous:
    Option<Vec<u8>>)
    ensures
        index_contents(*final(index)) == index_contents(*old(index)).insert(key@, value@),
        match previous {
            Some(v) => index_contents(*old(index)).contains_key(key@)
                && v@ == index_contents(*old(index))[key@],
            None => !index_contents(*old(index)).contains_key(key@),
        },
{
    index.insert(key, value)
}

/// Calls `FxHashMap::remove`: the key is gone, all other keys keep their values,
/// and the value that the key held comes back.
#[verifier::external_body]
fn index_remove(index: &mut FxHashMap<Vec<u8>, Vec<u8>>, key: &[u8]) -> (previous: Option<Vec<u8>>)
    ensures
        index_contents(*final(index)) == index_contents(*old(index)).remove(key@),
        match previous {
            Some(v) => index_contents(*old(index)).contains_key(key@)
                && v@ == index_contents(*old(index))[key@],
            None => !index_contents(*old(index)).contains_key(key@),
        },
{
    index.remove(key)
}

/// Calls `FxHashMap::get`: the value of the key, if it holds one.
#[verifier::external_body]
fn index_get<'a>(index: &'a FxHashMap<Vec<u8>, Vec<u8>>, key: &[u8]) -> (value: Option<&'a Vec<u8>>)
    ensures
        match value {
            Some(v) => index_contents(*index).contains_key(key@)
                && v@ == index_contents(*index)[key@],
            None => !index_contents(*index).contains_key(key@),
        },
{
    index.get(key)
}

/// Calls `FxHashMap::len`: the number of keys.
#[verifier::external_body]
fn index_len(index: &FxHashMap<Vec<u8>, Vec<u8>>) -> (len: usize)
    ensures
        has_size(index_contents(*index).dom(), len as nat),
{
    index.len()
}

/// Calls `FxHashMap::keys`: every key once, in an order that is left open.
#[verifier::external_body]
fn index_keys<'a>(index: &'a FxHashMap<Vec<u8>, Vec<u8>>) -> (keys: Vec<&'a Vec<u8>>)
    ensures
        lists_once(keys@.map_values(|k: &Vec<u8>| k@), index_contents(*index).dom()),
{
    index.keys().collect()
}

/// Every key of a database with its value.
pub struct MemoryIndex {
    entries: FxHashMap<Vec<u8>, Vec<u8>>,
}

impl View for MemoryIndex {
    type V = Map<Seq<u8>, Seq<u8>>;

    closed spec fn view(&self) -> Map<Seq<u8>, Seq<u8>> {
        index_contents(self.entries)
    }
}

impl MemoryIndex {
    /// An index without keys.
    pub fn new() -> (index: Self)
        ensures
            index@ == Map::<Seq<u8>, Seq<u8>>::empty(),
    {
        let index = MemoryIndex { entries: index_new() };
        assert(index@ =~= Map::<Seq<u8>, Seq<u8>>::empty());
        index
    }

    /// Gives `key` the value `value`.
    pub fn insert(&mut self, key: Vec<u8>, value: Vec<u8>)
        ensures
            final(self)@ == old(self)@.insert(key@, value@),
    {
        let _ = index_insert(&mut self.entries, key, value);
    }

    /// Takes `key` out, and says whether it was there.
    pub fn remove(&mut self, key: &[u8]) -> (removed: bool)
        ensures
            final(self)@ == old(self)@.remove(key@),
            removed == old(self)@.contains_key(key@),
    {
        index_remove(&mut self.entries, key).is_some()
    }

    /// The value of `key`.
    pub fn get(&self, key: &[u8]) -> (value: Option<&Vec<u8>>)
        ensures
            match value {
                Some(v) => self@.contains_key(key@) && v@ == self@[key@],
                None => !self@.contains_key(key@),
            },
    {
        index_get(&self.entries, key)
    }

    /// The number of keys.
    pub fn len(&self) -> (len: usize)
        ensures
            len == self@.len(),
            self@.dom().finite(),
    {
        index_len(&self.entries)
    }

    /// How long the keys are.
    pub fn key_sizes(&self) -> (sizes: KeySizes)
        ensures
            sizes.count == self@.len(),
            sizes.total == total_len(self@.dom()),
            sizes.count > 0 ==> is_shortest(self@.dom(), sizes.min as nat),
            sizes.count > 0 ==> is_longest(self@.dom(), sizes.max as nat),
    {
        let keys = index_keys(&self.entries);
        let ghost listed = keys@.map_values(|k: &Vec<u8>| k@);
        let mut min: usize = usize::MAX;
        let mut max: usize = 0;
        let mut total: u128 = 0;
        let mut i: usize = 0;
        let ghost mut at_min: int = 0;
        let ghost mut at_max: int = 0;
        while i < keys.len()
            invariant
                i <= keys.len(),
                listed == keys@.map_values(|k: &Vec<u8>| k@),
                total == sum_of_lens(listed.take(i as int)),
                total <= i * 0xffff_ffff_ffff_ffff,
                forall|j: int| 0 <= j < i ==> min <= (#[trigger] listed[j]).len() <= max,
                i > 0 ==> 0 <= at_min < i && listed[at_min].len() == min,
                i > 0 ==> 0 <= at_max < i && listed[at_max].len() == max,
                i == 0 ==> min == usize::MAX && max == 0,
            decreases keys.len() - i,
        {
            let len = keys[i].len();
            assert(listed[i as int].len() == len);
            assert(listed.take(i + 1).drop_last() =~= listed.take(i as int));
            assert(i * 0xffff_ffff_ffff_ffff + len <= (i + 1) * 0xffff_ffff_ffff_ffff);
            assert((i + 1) * 0xffff_ffff_ffff_ffff <= u128::MAX) by (nonlinear_arith)
                requires
                    i + 1 <= 0xffff_ffff_ffff_ffff,
            ;
            if len <= min {
                min = len;
                proof {
                    at_min = i as int;
                }
            }
            if len >= max {
                max = len;
                proof {
                    at_max = i as int;
                }
            }
            total += len as u128;
            i += 1;
        }
        proof {
            lemma_lists_once(listed, self@.dom());
            assert(listed.take(listed.len() as int) =~= listed);
            lemma_sum_is_total(listed, self@.dom());
            assert forall|k: Seq<u8>| self@.dom().contains(k) implies min <= k.len() <= max by {
                assert(listed.contains(k));
            }
            if listed.len() > 0 {
                assert(self@.dom().contains(listed[at_min]));
                assert(self@.dom().contains(listed[at_max]));
            }
        }
        KeySizes { count: keys.len(), min, max, total }
    }

    /// Whether there are no keys.
    pub fn is_empty(&self) -> (empty: bool)
        ensures
            empty == (self@ == Map::<Seq<u8>, Seq<u8>>::empty()),
    {
        let len = self.len();
        proof {
            if len == 0 {
                assert(self@ =~= Map::<Seq<u8>, Seq<u8>>::empty());
            }
        }
        len == 0
    }
}

/// How long the keys of an index are.
pub struct KeySizes {
    /// The number of keys.
    pub count: usize,
    /// The length of the shortest key, if there is one.
    pub min: usize,
    /// The length of the longest key, if there is one.
    pub max: usize,
    /// The lengths of all keys together.
    pub total: u128,
}

/// Whether the shortest member of `keys` has the length `n`.
pub open spec fn is_shortest(keys: Set<Seq<u8>>, n: nat) -> bool {
    &&& exists|k: Seq<u8>| #[trigger] keys.contains(k) && k.len() == n
    &&& forall|k: Seq<u8>| #[trigger] keys.contains(k) ==> n <= k.len()
}

/// Whether the longest member of `keys` has the length `n`.
pub open spec fn is_longest(keys: Set<Seq<u8>>, n: nat) -> bool {
    &&& exists|k: Seq<u8>| #[trigger] keys.contains(k) && k.len() == n
    &&& forall|k: Seq<u8>| #[trigger] keys.contains(k) ==> k.len() <= n
}

/// The lengths of all members of `keys` together.
pub open spec fn total_len(keys: Set<Seq<u8>>) -> nat
    decreases keys.len(),
    when keys.finite()
{
    if keys.len() == 0 {
        0
    } else {
        let key = keys.choose();
        key.len() + total_len(keys.remove(key))
    }
}

/// The lengths of all members of a sequence together.
spec fn sum_of_lens(keys: Seq<Seq<u8>>) -> nat
    decreases keys.len(),
{
    if keys.len() == 0 {
        0
    } else {
        sum_of_lens(keys.drop_last()) + keys.last().len()
    }
}

/// The total counts every key with its length, whichever is counted first.
pub proof fn lemma_total_len_remove(keys: Set<Seq<u8>>, key: Seq<u8>)
    requires
        keys.finite(),
        keys.contains(key),
    ensures
        total_len(keys) == key.len() + total_len(keys.remove(key)),
    decreases keys.len(),
{
    let first = keys.choose();
    assert(keys.len() > 0);
    if first != key {
        assert(keys.contains(first));
        lemma_total_len_remove(keys.remove(first), key);
        lemma_total_len_remove(keys.remove(key), first);
        assert(keys.remove(first).remove(key) =~= keys.remove(key).remove(first));
    }
}

/// The total is the sum of the lengths along any list of the keys, and no key is longer.
pub proof fn lemma_total_len_of_list(items: Seq<Seq<u8>>, keys: Set<Seq<u8>>)
    requires
        lists_once(items, keys),
    ensures
        total_len(keys) == items.fold_left(0int, |sum: int, key: Seq<u8>| sum + key.len()),
        forall|i: int| 0 <= i < items.len() ==> (#[trigger] items[i]).len() <= total_len(keys),
{
    lemma_sum_is_total(items, keys);
    lemma_sum_is_fold(items);
}

proof fn lemma_sum_is_fold(items: Seq<Seq<u8>>)
    ensures
        sum_of_lens(items) == items.fold_left(0int, |sum: int, key: Seq<u8>| sum + key.len()),
        forall|i: int| 0 <= i < items.len() ==> (#[trigger] items[i]).len() <= sum_of_lens(items),
    decreases items.len(),
{
    if items.len() > 0 {
        lemma_sum_is_fold(items.drop_last());
        assert forall|i: int| 0 <= i < items.len() implies (#[trigger] items[i]).len()
            <= sum_of_lens(items) by {
            if i < items.len() - 1 {
                assert(items.drop_last()[i] == items[i]);
            }
        }
    }
}

/// A list of the keys gives their total.
proof fn lemma_sum_is_total(items: Seq<Seq<u8>>, keys: Set<Seq<u8>>)
    requires
        lists_once(items, keys),
    ensures
        sum_of_lens(items) == total_len(keys),
    decreases items.len(),
{
    lemma_lists_once(items, keys);
    if items.len() > 0 {
        let last = items.last();
        let before = items.drop_last();
        assert(keys.contains(last)) by {
            assert(items.contains(last));
        }
        lemma_total_len_remove(keys, last);
        assert(before.to_set() =~= keys.remove(last)) by {
            assert forall|k: Seq<u8>| before.to_set().contains(k) == keys.remove(last).contains(
                k,
            ) by {
                if before.contains(k) {
                    let i = choose|i: int| 0 <= i < before.len() && before[i] == k;
                    assert(items[i] == k);
                    assert(items.contains(k));
                }
                if keys.remove(last).contains(k) {
                    assert(items.contains(k));
                    let i = choose|i: int| 0 <= i < items.len() && items[i] == k;
                    assert(before[i] == k);
                }
            }
        }
        lemma_sum_is_total(before, keys.remove(last));
    }
}

} // verus!
