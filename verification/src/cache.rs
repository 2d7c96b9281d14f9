//! The memory-weighted cache: a store whose capacity is measured in the
//! approximate memory weight of its entries rather than their count,
//! evicting oldest-first under weight pressure, plus the manager that
//! splits a byte budget between full images and thumbnails and keeps a
//! small most-recently-used side list for oversized images that would
//! defeat the weighted accounting.

use vstd::prelude::*;
use crate::image_item::{image_weight_kb, LoadedImage, ThumbnailData};
use crate::strutil::str_eq_str;

verus! {

/// One cached entry: key, payload, and the weight it was admitted with.
pub struct CacheSlot<V> {
    pub path: String,
    pub value: V,
    pub weight: u64,
}

/// Sum of the recorded weights of a run of entries.
pub open spec fn weight_sum<V>(s: Seq<CacheSlot<V>>) -> int
    decreases s.len(),
{
    if s.len() == 0 {
        0
    } else {
        weight_sum(s.drop_last()) + s.last().weight
    }
}

/// Some entry carries the key.
pub open spec fn has_path<V>(s: Seq<CacheSlot<V>>, k: Seq<char>) -> bool {
    exists|i: int| 0 <= i < s.len() && (#[trigger] s[i]).path@ == k
}

/// The position of the entry carrying the key, where one exists.
pub open spec fn path_index<V>(s: Seq<CacheSlot<V>>, k: Seq<char>) -> int {
    choose|i: int| 0 <= i < s.len() && (#[trigger] s[i]).path@ == k
}

/// The payload stored under the key, where one exists.
pub open spec fn stored_value<V>(s: Seq<CacheSlot<V>>, k: Seq<char>) -> V {
    s[path_index(s, k)].value
}

/// The weight recorded for the key, where one exists.
pub open spec fn stored_weight<V>(s: Seq<CacheSlot<V>>, k: Seq<char>) -> u64 {
    s[path_index(s, k)].weight
}

/// No two entries carry the same key.
pub open spec fn paths_unique<V>(s: Seq<CacheSlot<V>>) -> bool {
    forall|i: int, j: int| 0 <= i < j < s.len() ==> (#[trigger] s[i]).path@ != (#[trigger] s[j]).path@
}

proof fn lemma_weight_sum_nonneg<V>(s: Seq<CacheSlot<V>>)
    ensures
        weight_sum(s) >= 0,
    decreases s.len(),
{
    if s.len() > 0 {
        lemma_weight_sum_nonneg(s.drop_last());
    }
}

proof fn lemma_weight_sum_remove<V>(s: Seq<CacheSlot<V>>, i: int)
    requires
        0 <= i < s.len(),
    ensures
        weight_sum(s.remove(i)) == weight_sum(s) - s[i].weight,
    decreases s.len(),
{
    if i == s.len() - 1 {
        assert(s.remove(i) =~= s.drop_last());
    } else {
        lemma_weight_sum_remove(s.drop_last(), i);
        assert(s.remove(i).drop_last() =~= s.drop_last().remove(i));
        assert(s.remove(i).last() == s.last());
    }
}

/// A store bounded by the total recorded weight of its entries, oldest
/// entry first: entries are admitted at the back and evicted from the
/// front when the budget would be exceeded.
pub struct WeightedStore<V> {
    entries: Vec<CacheSlot<V>>,
    used: u64,
    budget: u64,
}

impl<V> WeightedStore<V> {
    /// The entries, oldest first.
    pub closed spec fn view_entries(self) -> Seq<CacheSlot<V>> {
        self.entries@
    }

    /// The configured weight budget.
    pub closed spec fn spec_budget(self) -> u64 {
        self.budget
    }

    /// The key is present.
    pub closed spec fn contains(self, k: Seq<char>) -> bool {
        has_path(self.entries@, k)
    }

    /// The payload under a present key.
    pub closed spec fn value_at(self, k: Seq<char>) -> V {
        stored_value(self.entries@, k)
    }

    /// The recorded weight under a present key.
    pub closed spec fn weight_at(self, k: Seq<char>) -> u64 {
        stored_weight(self.entries@, k)
    }

    /// The retained weights never sum above the budget, keys are unique,
    /// and the running total is accounted exactly.
    pub closed spec fn wf(self) -> bool {
        &&& weight_sum(self.entries@) == self.used
        &&& self.used <= self.budget
        &&& paths_unique(self.entries@)
    }

    /// An empty store with the given weight budget.
    pub fn new(budget: u64) -> (r: Self)
        ensures
            r.wf(),
            r.spec_budget() == budget,
            forall|k: Seq<char>| !r.contains(k),
    {
        WeightedStore { entries: Vec::new(), used: 0, budget }
    }

    /// Find the index of the entry carrying the key, if any.
    fn find(&self, path: &str) -> (r: Option<usize>)
        ensures
            r is Some <==> self.contains(path@),
            r is Some ==> {
                let i = r->0;
                &&& i < self.entries@.len()
                &&& self.entries@[i as int].path@ == path@
            },
    {
        let n = self.entries.len();
        let mut i: usize = 0;
        while i < n
            invariant
                n == self.entries@.len(),
                i <= n,
                forall|j: int| 0 <= j < i ==> (#[trigger] self.entries@[j]).path@ != path@,
            decreases n - i,
        {
            if str_eq_str(self.entries[i].path.as_str(), path) {
                return Some(i);
            }
            i = i + 1;
        }
        None
    }

    /// Non-blocking lookup: the payload under the key, or nothing.
    pub fn get(&self, path: &str) -> (r: Option<&V>)
        requires
            self.wf(),
        ensures
            r is Some <==> self.contains(path@),
            r is Some ==> *r->0 == self.value_at(path@),
    {
        match self.find(path) {
            Some(i) => {
                proof {
                    let j = path_index(self.entries@, path@);
                    assert(0 <= j < self.entries@.len() && self.entries@[j].path@ == path@);
                    if j != i {
                        assert(self.entries@[j].path@ == self.entries@[i as int].path@);
                    }
                }
                Some(&self.entries[i].value)
            },
            None => None,
        }
    }

    /// Drop the entry carrying the key, if any; every other entry is kept
    /// with its payload and weight.
    pub fn remove(&mut self, path: &str)
        requires
            old(self).wf(),
        ensures
            final(self).wf(),
            final(self).spec_budget() == old(self).spec_budget(),
            !final(self).contains(path@),
            forall|k: Seq<char>|
                k != path@ ==> final(self).contains(k) == old(self).contains(k),
            forall|k: Seq<char>|
                k != path@ && old(self).contains(k) ==> final(self).value_at(k) == old(self).value_at(k) && final(self).weight_at(k) == old(self).weight_at(k),
    {
        match self.find(path) {
            Some(i) => {
                proof {
                    lemma_weight_sum_remove(self.entries@, i as int);
                    lemma_weight_sum_nonneg(self.entries@.remove(i as int));
                }
                let slot = self.entries.remove(i);
                self.used = self.used - slot.weight;
                proof {
                    let s_old = old(self).entries@;
                    let s_new = self.entries@;
                    assert(s_new =~= s_old.remove(i as int));
                    assert forall|k: Seq<char>| k != path@ implies final(self).contains(k) == old(self).contains(k) by {
                        lemma_membership_after_remove(s_old, i as int, k);
                    }
                    assert(!final(self).contains(path@)) by {
                        if has_path(s_new, path@) {
                            let j = choose|j: int|
                                0 <= j < s_new.len() && (#[trigger] s_new[j]).path@ == path@;
                            let j_orig: int = if j < i as int {
                                j
                            } else {
                                j + 1
                            };
                            assert(s_old[j_orig].path@ == path@);
                            assert(s_old[i as int].path@ == path@);
                        }
                    }
                    assert forall|k: Seq<char>|
                        k != path@ && old(self).contains(k) implies final(self).value_at(k) == old(self).value_at(k) && final(self).weight_at(k) == old(self).weight_at(k) by {
                        lemma_lookup_after_remove(s_old, i as int, k);
                    }
                }
            },
            None => {
            },
        }
    }

    /// Admit the payload under the key, first dropping any entry already
    /// carrying it, then evicting oldest entries while the budget would be
    /// exceeded. A weight above the whole budget is refused outright and
    /// the store is left unchanged (beyond the removal of the stale entry).
    pub fn insert(&mut self, path: String, value: V, weight: u64) -> (admitted: bool)
        requires
            old(self).wf(),
        ensures
            final(self).wf(),
            final(self).spec_budget() == old(self).spec_budget(),
            admitted == (weight <= old(self).spec_budget()),
            admitted ==> final(self).contains(path@) && final(self).value_at(path@) == value
                && final(self).weight_at(path@) == weight,
            !admitted ==> !final(self).contains(path@),
            forall|k: Seq<char>|
                k != path@ && final(self).contains(k) ==> old(self).contains(k) && final(self).value_at(k) == old(self).value_at(k) && final(self).weight_at(k) == old(self).weight_at(k),
    {
        self.remove(path.as_str());
        let ghost cleaned = *self;
        if weight > self.budget {
            return false;
        }
        while weight > self.budget - self.used
            invariant
                self.wf(),
                self.budget == cleaned.budget,
                weight <= self.budget,
                !self.contains(path@),
                forall|k: Seq<char>| #[trigger]
                    self.contains(k) ==> cleaned.contains(k) && self.value_at(k)
                        == cleaned.value_at(k) && self.weight_at(k) == cleaned.weight_at(k),
            decreases self.entries@.len(),
        {
            proof {
                if self.entries@.len() == 0 {
                    assert(weight_sum(self.entries@) == 0);
                }
                lemma_weight_sum_remove(self.entries@, 0);
                lemma_weight_sum_nonneg(self.entries@.remove(0));
            }
            let ghost before = *self;
            let slot = self.entries.remove(0);
            self.used = self.used - slot.weight;
            proof {
                assert(self.entries@ =~= before.entries@.remove(0));
                assert forall|k: Seq<char>| #[trigger]
                    self.contains(k) implies before.contains(k) && self.value_at(k)
                    == before.value_at(k) && self.weight_at(k) == before.weight_at(k) by {
                    if self.contains(k) {
                        let j = choose|j: int|
                            0 <= j < self.entries@.len() && (#[trigger] self.entries@[j]).path@
                                == k;
                        assert(before.entries@[j + 1].path@ == k);
                        lemma_lookup_after_remove_general(before.entries@, 0, k);
                    }
                }
                assert(!self.contains(path@)) by {
                    if self.contains(path@) {
                        assert(before.contains(path@));
                    }
                }
            }
        }
        let ghost pruned = *self;
        self.used = self.used + weight;
        self.entries.push(CacheSlot { path, value, weight });
        proof {
            let s_new = self.entries@;
            let s_old = pruned.entries@;
            assert(s_new.drop_last() =~= s_old);
            assert(weight_sum(s_new) == weight_sum(s_old) + weight);
            let last_i = s_new.len() - 1;
            assert(s_new[last_i].path@ == path@);
            assert(paths_unique(s_new)) by {
                assert forall|i: int, j: int| 0 <= i < j < s_new.len() implies (
                #[trigger] s_new[i]).path@ != (#[trigger] s_new[j]).path@ by {
                    if j == last_i {
                        assert(s_old[i] == s_new[i]);
                        if s_new[i].path@ == path@ {
                            assert(has_path(s_old, path@));
                        }
                    }
                }
            }
            assert(final(self).contains(path@)) by {
                assert(s_new[last_i].path@ == path@);
            }
            assert(final(self).value_at(path@) == value && final(self).weight_at(path@)
                == weight) by {
                let j = path_index(s_new, path@);
                assert(0 <= j < s_new.len() && s_new[j].path@ == path@);
                if j != last_i {
                    assert(s_old[j].path@ == path@);
                    assert(pruned.contains(path@));
                }
            }
            assert forall|k: Seq<char>|
                k != path@ && final(self).contains(k) implies old(self).contains(k) && final(self).value_at(k) == old(self).value_at(k) && final(self).weight_at(k) == old(self).weight_at(k) by {
                let j = choose|j: int| 0 <= j < s_new.len() && (#[trigger] s_new[j]).path@ == k;
                assert(j != last_i);
                assert(s_old[j].path@ == k);
                assert(pruned.contains(k));
                let jp = path_index(s_new, k);
                assert(0 <= jp < s_new.len() && s_new[jp].path@ == k);
                assert(jp != last_i);
                assert(s_old[jp] == s_new[jp]);
                let jq = path_index(s_old, k);
                assert(0 <= jq < s_old.len() && s_old[jq].path@ == k);
                if jq != jp {
                    assert(s_old[jq].path@ == s_old[jp].path@);
                }
            }
        }
        true
    }
}

/// Membership under any other key is unchanged by removing position `i`.
proof fn lemma_membership_after_remove<V>(s: Seq<CacheSlot<V>>, i: int, k: Seq<char>)
    requires
        0 <= i < s.len(),
        s[i].path@ != k,
    ensures
        has_path(s.remove(i), k) == has_path(s, k),
{
    let t = s.remove(i);
    if has_path(s, k) {
        let j = choose|j: int| 0 <= j < s.len() && (#[trigger] s[j]).path@ == k;
        if j < i {
            assert(t[j].path@ == k);
        } else {
            assert(j != i);
            assert(t[j - 1].path@ == k);
        }
    }
    if has_path(t, k) {
        let j = choose|j: int| 0 <= j < t.len() && (#[trigger] t[j]).path@ == k;
        if j < i {
            assert(s[j].path@ == k);
        } else {
            assert(s[j + 1].path@ == k);
        }
    }
}

/// Lookup under any other key is unchanged by removing position `i`,
/// given unique keys.
proof fn lemma_lookup_after_remove<V>(s: Seq<CacheSlot<V>>, i: int, k: Seq<char>)
    requires
        0 <= i < s.len(),
        s[i].path@ != k,
        paths_unique(s),
        has_path(s, k),
    ensures
        has_path(s.remove(i), k),
        stored_value(s.remove(i), k) == stored_value(s, k),
        stored_weight(s.remove(i), k) == stored_weight(s, k),
{
    lemma_membership_after_remove(s, i, k);
    lemma_lookup_after_remove_general(s, i, k);
}

/// The entry found under a key after a removal is the entry found before.
proof fn lemma_lookup_after_remove_general<V>(s: Seq<CacheSlot<V>>, i: int, k: Seq<char>)
    requires
        0 <= i < s.len(),
        s[i].path@ != k,
        paths_unique(s),
        has_path(s.remove(i), k),
    ensures
        has_path(s, k),
        stored_value(s.remove(i), k) == stored_value(s, k),
        stored_weight(s.remove(i), k) == stored_weight(s, k),
{
    let t = s.remove(i);
    let jt = path_index(t, k);
    assert(0 <= jt < t.len() && t[jt].path@ == k);
    let j_orig: int = if jt < i {
        jt
    } else {
        jt + 1
    };
    assert(s[j_orig].path@ == k);
    let js = path_index(s, k);
    assert(0 <= js < s.len() && s[js].path@ == k);
    if js != j_orig {
        assert(s[js].path@ == s[j_orig].path@);
    }
    assert(t[jt] == s[j_orig]);
}

/// Relies on sysinfo::System::total_memory: the machine's total physical
/// memory in bytes. The value depends on the machine, so nothing further
/// is promised of it.
#[verifier::external_body]
fn system_total_memory_bytes() -> u64 {
    let mut sys = sysinfo::System::new();
    sys.refresh_memory();
    sys.total_memory()
}

/// How many entries the oversized side list retains.
pub const OVERSIZED_CAPACITY: usize = 3;

/// The weighted full-image budget derived from the machine's memory: 80
/// percent of the configured fraction of the total, with a one-mebibyte
/// floor.
pub open spec fn spec_image_budget(total_ram_kb: u64, max_memory_percent: u64) -> u64 {
    let limit_kb = (total_ram_kb / 100) * max_memory_percent;
    let image_part = (limit_kb / 5) * 4;
    if image_part < 1024 {
        1024u64
    } else {
        image_part as u64
    }
}

/// The weighted thumbnail budget: the remaining 20 percent, with the same
/// floor.
pub open spec fn spec_thumb_budget(total_ram_kb: u64, max_memory_percent: u64) -> u64 {
    let limit_kb = (total_ram_kb / 100) * max_memory_percent;
    let thumb_part = limit_kb / 5;
    if thumb_part < 1024 {
        1024u64
    } else {
        thumb_part as u64
    }
}

/// An oversized image parked outside the weighted accounting.
pub struct OversizedEntry {
    pub path: String,
    pub image: LoadedImage,
}

/// The keys of a run of side-list entries, least recently used first.
pub open spec fn side_keys_of(s: Seq<OversizedEntry>) -> Seq<Seq<char>> {
    s.map(|i: int, e: OversizedEntry| e.path@)
}

/// Some side-list entry carries the key.
pub open spec fn side_has(s: Seq<OversizedEntry>, k: Seq<char>) -> bool {
    exists|i: int| 0 <= i < s.len() && (#[trigger] s[i]).path@ == k
}

/// The image a side-list run holds under a present key.
pub open spec fn side_image(s: Seq<OversizedEntry>, k: Seq<char>) -> LoadedImage {
    let i = choose|i: int| 0 <= i < s.len() && (#[trigger] s[i]).path@ == k;
    s[i].image
}

/// A memory-weighted, path-keyed store of decoded full images and
/// thumbnails. Full images whose weight would defeat the weighted
/// accounting granularity are kept instead in a small most-recently-used
/// side list that bypasses weight-based eviction; a path is never in both
/// the weighted store and the side list at once.
pub struct CacheManager {
    full: WeightedStore<LoadedImage>,
    thumbs: WeightedStore<ThumbnailData>,
    oversized: Vec<OversizedEntry>,
    image_limit_kb: u64,
}

impl CacheManager {
    /// The weighted full-image budget, in kibibytes.
    pub closed spec fn image_budget_kb(self) -> u64 {
        self.full.spec_budget()
    }

    /// The weighted thumbnail budget, in kibibytes.
    pub closed spec fn thumb_budget_kb(self) -> u64 {
        self.thumbs.spec_budget()
    }

    /// The largest weight the weighted store accounts reliably; anything
    /// heavier goes to the side list.
    pub closed spec fn granularity_kb(self) -> u64 {
        (self.image_limit_kb / 64) as u64
    }

    /// The path is in the oversized side list.
    pub closed spec fn in_side_list(self, k: Seq<char>) -> bool {
        side_has(self.oversized@, k)
    }

    /// The image parked in the side list under the path.
    pub closed spec fn side_value(self, k: Seq<char>) -> LoadedImage {
        side_image(self.oversized@, k)
    }

    /// The side list's keys, least recently used first.
    pub closed spec fn side_paths(self) -> Seq<Seq<char>> {
        side_keys_of(self.oversized@)
    }

    /// A full image is retained under the path, in either place.
    pub closed spec fn full_contains(self, k: Seq<char>) -> bool {
        self.in_side_list(k) || self.full.contains(k)
    }

    /// The full image retained under the path.
    pub closed spec fn full_value(self, k: Seq<char>) -> LoadedImage {
        if self.in_side_list(k) {
            self.side_value(k)
        } else {
            self.full.value_at(k)
        }
    }

    /// A thumbnail is retained under the path.
    pub closed spec fn thumb_contains(self, k: Seq<char>) -> bool {
        self.thumbs.contains(k)
    }

    /// The thumbnail retained under the path.
    pub closed spec fn thumb_value(self, k: Seq<char>) -> ThumbnailData {
        self.thumbs.value_at(k)
    }

    /// Total weight the weighted full-image store currently retains.
    pub closed spec fn full_weight_total(self) -> int {
        weight_sum(self.full.view_entries())
    }

    /// The path has an entry in the weighted store proper (not the side
    /// list).
    pub closed spec fn in_weighted_store(self, k: Seq<char>) -> bool {
        self.full.contains(k)
    }

    /// The weight recorded for a weighted full-image entry.
    pub closed spec fn full_weight_at(self, k: Seq<char>) -> u64 {
        self.full.weight_at(k)
    }

    /// Both weighted stores respect their budgets, every weighted entry is
    /// accounted at its image's weight, the side list is bounded with
    /// unique keys, and no path is in both the weighted store and the side
    /// list.
    pub closed spec fn wf(self) -> bool {
        &&& self.full.wf()
        &&& self.thumbs.wf()
        &&& self.full.spec_budget() == self.image_limit_kb
        &&& self.oversized@.len() <= OVERSIZED_CAPACITY
        &&& forall|i: int, j: int|
            0 <= i < j < self.oversized@.len() ==> (#[trigger] self.oversized@[i]).path@ != (
            #[trigger] self.oversized@[j]).path@
        &&& forall|k: Seq<char>| #[trigger] self.in_side_list(k) ==> !self.full.contains(k)
        &&& forall|k: Seq<char>| #[trigger]
            self.full.contains(k) ==> self.full.weight_at(k) == image_weight_kb(
                self.full.value_at(k),
            )
    }

    /// The budget law: the weights retained in the weighted full-image
    /// store sum to no more than its configured budget, and each is the
    /// weight of the image it accounts; only the bounded side list stands
    /// outside this accounting.
    pub proof fn lemma_weight_accounting(self)
        requires
            self.wf(),
        ensures
            self.full_weight_total() <= self.image_budget_kb(),
            forall|k: Seq<char>| #[trigger]
                self.in_weighted_store(k) ==> self.full_weight_at(k) == image_weight_kb(
                    self.full_value(k),
                ),
    {
        assert forall|k: Seq<char>| #[trigger]
            self.in_weighted_store(k) implies self.full_weight_at(k) == image_weight_kb(
            self.full_value(k),
        ) by {
            assert(!self.in_side_list(k)) by {
                if self.in_side_list(k) {
                    assert(!self.full.contains(k));
                }
            }
        }
    }

    /// The residence law: a well-formed cache never retains a path in
    /// both the weighted full-image store and the oversized side list —
    /// each full image lives in exactly one of the two places.
    pub proof fn lemma_single_residence(self, k: Seq<char>)
        requires
            self.wf(),
        ensures
            !(self.in_side_list(k) && self.in_weighted_store(k)),
    {
        if self.in_side_list(k) {
            assert(!self.full.contains(k));
        }
    }

    /// An empty cache sized from the machine's memory: the overall budget
    /// is the given percentage of the total, split 80/20 between full
    /// images and thumbnails, each with a floor of one mebibyte.
    pub fn new(total_ram_kb: u64, max_memory_percent: u64) -> (r: Self)
        requires
            max_memory_percent <= 100,
        ensures
            r.wf(),
            r.image_budget_kb() == spec_image_budget(total_ram_kb, max_memory_percent),
            r.thumb_budget_kb() == spec_thumb_budget(total_ram_kb, max_memory_percent),
            forall|k: Seq<char>| !r.full_contains(k) && !r.thumb_contains(k),
    {
        proof {
            assert((total_ram_kb as int / 100) * (max_memory_percent as int) <= total_ram_kb as int)
                by (nonlinear_arith)
                requires
                    max_memory_percent as int <= 100,
                    0 <= total_ram_kb as int,
            ;
        }
        let limit_kb: u64 = (total_ram_kb / 100) * max_memory_percent;
        let image_part: u64 = (limit_kb / 5) * 4;
        let image_limit_kb: u64 = if image_part < 1024 {
            1024
        } else {
            image_part
        };
        let thumb_part: u64 = limit_kb / 5;
        let thumb_limit_kb: u64 = if thumb_part < 1024 {
            1024
        } else {
            thumb_part
        };
        let r = CacheManager {
            full: WeightedStore::new(image_limit_kb),
            thumbs: WeightedStore::new(thumb_limit_kb),
            oversized: Vec::new(),
            image_limit_kb,
        };
        proof {
            assert(forall|k: Seq<char>| !r.in_side_list(k));
        }
        r
    }

    /// An empty cache sized from this machine's physical memory.
    pub fn new_from_system(max_memory_percent: u64) -> (r: Self)
        requires
            max_memory_percent <= 100,
        ensures
            r.wf(),
            forall|k: Seq<char>| !r.full_contains(k) && !r.thumb_contains(k),
    {
        let total_bytes = system_total_memory_bytes();
        Self::new(total_bytes / 1024, max_memory_percent)
    }

    /// Find a path in the side list.
    fn find_oversized(&self, path: &str) -> (r: Option<usize>)
        ensures
            r is Some <==> self.in_side_list(path@),
            r is Some ==> {
                let i = r->0;
                &&& i < self.oversized@.len()
                &&& self.oversized@[i as int].path@ == path@
            },
    {
        let n = self.oversized.len();
        let mut i: usize = 0;
        while i < n
            invariant
                n == self.oversized@.len(),
                i <= n,
                forall|j: int| 0 <= j < i ==> (#[trigger] self.oversized@[j]).path@ != path@,
            decreases n - i,
        {
            if str_eq_str(self.oversized[i].path.as_str(), path) {
                return Some(i);
            }
            i = i + 1;
        }
        None
    }

    /// Non-blocking lookup of a full image: the side list is tried first,
    /// and a hit there is promoted to most recently used; then the
    /// weighted store. What the cache retains is unchanged.
    pub fn get_image(&mut self, path: &str) -> (r: Option<&LoadedImage>)
        requires
            old(self).wf(),
        ensures
            final(self).wf(),
            r is Some <==> old(self).full_contains(path@),
            r is Some ==> *r->0 == old(self).full_value(path@),
            forall|k: Seq<char>|
                final(self).full_contains(k) == old(self).full_contains(k) && final(self).thumb_contains(k) == old(self).thumb_contains(k),
            forall|k: Seq<char>|
                old(self).full_contains(k) ==> final(self).full_value(k) == old(self).full_value(
                    k,
                ),
            forall|k: Seq<char>|
                old(self).thumb_contains(k) ==> final(self).thumb_value(k) == old(self).thumb_value(k),
            final(self).image_budget_kb() == old(self).image_budget_kb(),
            final(self).thumb_budget_kb() == old(self).thumb_budget_kb(),
            // the side list keeps its members; a hit there is promoted to
            // the most-recently-used (back) position, a miss leaves the
            // order alone
            forall|k: Seq<char>| final(self).in_side_list(k) == old(self).in_side_list(k),
            !old(self).in_side_list(path@) ==> final(self).side_paths() == old(self).side_paths(),
            old(self).in_side_list(path@) ==> exists|i: int|
                0 <= i < old(self).side_paths().len() && old(self).side_paths()[i] == path@
                    && final(self).side_paths() == old(self).side_paths().remove(i).push(path@),
    {
        match self.find_oversized(path) {
            Some(i) => {
                let ghost before = *self;
                let entry = self.oversized.remove(i);
                self.oversized.push(entry);
                let n = self.oversized.len();
                proof {
                    let s_old = before.oversized@;
                    let s_new = self.oversized@;
                    assert(s_new =~= s_old.remove(i as int).push(s_old[i as int]));
                    lemma_side_rotate(s_old, i as int);
                    assert(s_new[n - 1].path@ == path@);
                    assert(self.in_side_list(path@));
                    lemma_side_values_rotate(s_old, i as int, before, *self);
                    // the key order after promotion
                    assert(old(self).side_paths()[i as int] == path@);
                    assert(side_keys_of(s_new) =~= side_keys_of(s_old).remove(i as int).push(
                        path@,
                    )) by {
                        assert forall|j: int| 0 <= j < s_new.len() implies side_keys_of(s_new)[j]
                            == side_keys_of(s_old).remove(i as int).push(path@)[j] by {
                            if j < i as int {
                                assert(s_new[j] == s_old[j]);
                            } else if j < s_new.len() - 1 {
                                assert(s_new[j] == s_old[j + 1]);
                            } else {
                                assert(s_new[j] == s_old[i as int]);
                            }
                        }
                    }
                }
                Some(&self.oversized[n - 1].image)
            },
            None => {
                proof {
                    if old(self).full_contains(path@) {
                        assert(old(self).full.contains(path@));
                    }
                }
                self.full.get(path)
            },
        }
    }

    /// Non-blocking lookup of a thumbnail.
    pub fn get_thumbnail(&self, path: &str) -> (r: Option<&ThumbnailData>)
        requires
            self.wf(),
        ensures
            r is Some <==> self.thumb_contains(path@),
            r is Some ==> *r->0 == self.thumb_value(path@),
    {
        self.thumbs.get(path)
    }
}

/// Rotating one entry of a unique-keyed run to the back keeps membership,
/// keeps uniqueness, and keeps every entry.
proof fn lemma_side_rotate(s: Seq<OversizedEntry>, i: int)
    requires
        0 <= i < s.len(),
        forall|a: int, b: int|
            0 <= a < b < s.len() ==> (#[trigger] s[a]).path@ != (#[trigger] s[b]).path@,
    ensures
        forall|a: int, b: int|
            0 <= a < b < s.remove(i).push(s[i]).len() ==> (#[trigger] s.remove(i).push(
                s[i],
            )[a]).path@ != (#[trigger] s.remove(i).push(s[i])[b]).path@,
        forall|k: Seq<char>| #[trigger] side_has(s.remove(i).push(s[i]), k) == side_has(s, k),
{
    let t = s.remove(i).push(s[i]);
    assert forall|a: int, b: int| 0 <= a < b < t.len() implies (#[trigger] t[a]).path@ != (
    #[trigger] t[b]).path@ by {
        lemma_rotate_entry_source(s, i, a);
        lemma_rotate_entry_source(s, i, b);
    }
    assert forall|k: Seq<char>| #[trigger] side_has(t, k) == side_has(s, k) by {
        if side_has(t, k) {
            let a = choose|a: int| 0 <= a < t.len() && (#[trigger] t[a]).path@ == k;
            lemma_rotate_entry_source(s, i, a);
            let b = choose|b: int| 0 <= b < s.len() && t[a] == #[trigger] s[b];
            assert(s[b].path@ == k);
        }
        if side_has(s, k) {
            let a = choose|a: int| 0 <= a < s.len() && (#[trigger] s[a]).path@ == k;
            if a == i {
                assert(t[t.len() - 1].path@ == k);
            } else if a < i {
                assert(t[a].path@ == k);
            } else {
                assert(t[a - 1].path@ == k);
            }
        }
    }
}

/// Every entry of the rotated run is an entry of the original.
proof fn lemma_rotate_entry_source(s: Seq<OversizedEntry>, i: int, a: int)
    requires
        0 <= i < s.len(),
        0 <= a < s.len(),
    ensures
        exists|b: int| 0 <= b < s.len() && s.remove(i).push(s[i])[a] == #[trigger] s[b],
        a < s.len() - 1 ==> s.remove(i).push(s[i])[a] == s[if a < i {
            a
        } else {
            a + 1
        }],
        a == s.len() - 1 ==> s.remove(i).push(s[i])[a] == s[i],
{
    let t = s.remove(i).push(s[i]);
    if a == s.len() - 1 {
        assert(t[a] == s[i]);
    } else if a < i {
        assert(t[a] == s[a]);
    } else {
        assert(t[a] == s[a + 1]);
    }
}

/// Rotating a side-list entry to the back keeps the value stored under
/// every present key.
proof fn lemma_side_values_rotate(s: Seq<OversizedEntry>, i: int, before: CacheManager, after: CacheManager)
    requires
        0 <= i < s.len(),
        before.oversized@ == s,
        after.oversized@ == s.remove(i).push(s[i]),
        after.full == before.full,
        after.thumbs == before.thumbs,
        after.image_limit_kb == before.image_limit_kb,
        forall|a: int, b: int|
            0 <= a < b < s.len() ==> (#[trigger] s[a]).path@ != (#[trigger] s[b]).path@,
    ensures
        forall|k: Seq<char>| after.in_side_list(k) == before.in_side_list(k),
        forall|k: Seq<char>| #[trigger]
            before.in_side_list(k) ==> after.side_value(k) == before.side_value(k),
{
    lemma_side_rotate(s, i);
    assert forall|k: Seq<char>| after.in_side_list(k) == before.in_side_list(k) by {
        assert(side_has(s.remove(i).push(s[i]), k) == side_has(s, k));
    }
    assert forall|k: Seq<char>| #[trigger]
        before.in_side_list(k) implies after.side_value(k) == before.side_value(k) by {
        let a_new = choose|a: int|
            0 <= a < after.oversized@.len() && (#[trigger] after.oversized@[a]).path@ == k;
        let a_old = choose|a: int| 0 <= a < s.len() && (#[trigger] s[a]).path@ == k;
        lemma_rotate_entry_source(s, i, a_new);
        let b = choose|b: int|
            0 <= b < s.len() && after.oversized@[a_new] == #[trigger] s[b];
        if b != a_old {
            assert(s[b].path@ == s[a_old].path@);
        }
    }
}

/// Membership and lookup under any other key are unchanged by removing
/// one side-list entry, given unique keys.
proof fn lemma_side_after_remove(s: Seq<OversizedEntry>, i: int, k: Seq<char>)
    requires
        0 <= i < s.len(),
        forall|a: int, b: int|
            0 <= a < b < s.len() ==> (#[trigger] s[a]).path@ != (#[trigger] s[b]).path@,
        s[i].path@ != k,
    ensures
        side_has(s.remove(i), k) == side_has(s, k),
        side_has(s, k) ==> side_image(s.remove(i), k) == side_image(s, k),
{
    let t = s.remove(i);
    if side_has(s, k) {
        let a = choose|a: int| 0 <= a < s.len() && (#[trigger] s[a]).path@ == k;
        if a < i {
            assert(t[a].path@ == k);
        } else {
            assert(t[a - 1].path@ == k);
        }
        let at = choose|a: int| 0 <= a < t.len() && (#[trigger] t[a]).path@ == k;
        let a_orig: int = if at < i {
            at
        } else {
            at + 1
        };
        assert(s[a_orig].path@ == k);
        if a_orig != a {
            assert(s[a_orig].path@ == s[a].path@);
        }
        assert(t[at] == s[a]);
    } else {
        if side_has(t, k) {
            let at = choose|a: int| 0 <= a < t.len() && (#[trigger] t[a]).path@ == k;
            let a_orig: int = if at < i {
                at
            } else {
                at + 1
            };
            assert(s[a_orig].path@ == k);
        }
    }
}

/// Membership and lookup after appending a side-list entry, given unique
/// keys.
proof fn lemma_side_after_push(s: Seq<OversizedEntry>, e: OversizedEntry, k: Seq<char>)
    requires
        forall|a: int, b: int|
            0 <= a < b < s.len() ==> (#[trigger] s[a]).path@ != (#[trigger] s[b]).path@,
    ensures
        side_has(s.push(e), k) == (side_has(s, k) || e.path@ == k),
        !side_has(s, k) && e.path@ == k ==> side_image(s.push(e), k) == e.image,
        side_has(s, k) && e.path@ != k ==> side_image(s.push(e), k) == side_image(s, k),
{
    let t = s.push(e);
    if side_has(s, k) {
        let a = choose|a: int| 0 <= a < s.len() && (#[trigger] s[a]).path@ == k;
        assert(t[a].path@ == k);
        if e.path@ != k {
            let at = choose|a: int| 0 <= a < t.len() && (#[trigger] t[a]).path@ == k;
            assert(at < s.len()) by {
                if at == s.len() as int {
                    assert(t[at] == e);
                }
            }
            assert(t[at] == s[at]);
            if at != a {
                assert(s[at].path@ == s[a].path@);
            }
            let a2 = choose|a: int| 0 <= a < s.len() && (#[trigger] s[a]).path@ == k;
            if a2 != at {
                assert(s[a2].path@ == s[at].path@);
            }
        }
    }
    if e.path@ == k {
        assert(t[t.len() - 1].path@ == k);
        if !side_has(s, k) {
            let at = choose|a: int| 0 <= a < t.len() && (#[trigger] t[a]).path@ == k;
            if at < s.len() {
                assert(s[at].path@ == k);
            }
            assert(t[at] == e);
        }
    }
    if side_has(t, k) && !(side_has(s, k) || e.path@ == k) {
        let at = choose|a: int| 0 <= a < t.len() && (#[trigger] t[a]).path@ == k;
        if at < s.len() {
            assert(s[at].path@ == k);
        } else {
            assert(t[at] == e);
        }
    }
}

impl CacheManager {
    /// The weight a thumbnail is accounted at, in whole kibibytes.
    pub open spec fn spec_thumb_weight(t: ThumbnailData) -> int {
        let kb = t.pixels@.len() as int / 1024;
        if kb < 1 {
            1
        } else {
            kb
        }
    }

    /// Drop everything retained under the path: the weighted full-image
    /// store, the oversized side list, and the thumbnail store together.
    /// Nothing retained under any other path is touched.
    pub fn remove(&mut self, path: &str)
        requires
            old(self).wf(),
        ensures
            final(self).wf(),
            !final(self).full_contains(path@),
            !final(self).thumb_contains(path@),
            forall|k: Seq<char>|
                k != path@ ==> final(self).full_contains(k) == old(self).full_contains(k)
                    && final(self).thumb_contains(k) == old(self).thumb_contains(k),
            forall|k: Seq<char>|
                k != path@ && old(self).full_contains(k) ==> final(self).full_value(k) == old(
                    self,
                ).full_value(k),
            forall|k: Seq<char>|
                k != path@ && old(self).thumb_contains(k) ==> final(self).thumb_value(k) == old(
                    self,
                ).thumb_value(k),
            final(self).image_budget_kb() == old(self).image_budget_kb(),
            final(self).thumb_budget_kb() == old(self).thumb_budget_kb(),
            // the side list keeps its other members in order
            forall|k: Seq<char>|
                k != path@ ==> final(self).in_side_list(k) == old(self).in_side_list(k),
            !final(self).in_side_list(path@),
            !old(self).in_side_list(path@) ==> final(self).side_paths() == old(self).side_paths(),
            old(self).in_side_list(path@) ==> exists|i: int|
                0 <= i < old(self).side_paths().len() && old(self).side_paths()[i] == path@
                    && final(self).side_paths() == old(self).side_paths().remove(i),
    {
        let ghost before = *self;
        match self.find_oversized(path) {
            Some(i) => {
                self.oversized.remove(i);
                proof {
                    assert(self.oversized@ =~= before.oversized@.remove(i as int));
                    assert(before.side_paths()[i as int] == path@);
                    assert(side_keys_of(self.oversized@) =~= side_keys_of(
                        before.oversized@,
                    ).remove(i as int)) by {
                        assert forall|j: int| 0 <= j < self.oversized@.len() implies side_keys_of(
                            self.oversized@,
                        )[j] == side_keys_of(before.oversized@).remove(i as int)[j] by {
                            if j < i as int {
                                assert(self.oversized@[j] == before.oversized@[j]);
                            } else {
                                assert(self.oversized@[j] == before.oversized@[j + 1]);
                            }
                        }
                    }
                    assert(!side_has(self.oversized@, path@)) by {
                        if side_has(self.oversized@, path@) {
                            let a = choose|a: int|
                                0 <= a < self.oversized@.len() && (
                                #[trigger] self.oversized@[a]).path@ == path@;
                            let a_orig: int = if a < i as int {
                                a
                            } else {
                                a + 1
                            };
                            assert(before.oversized@[a_orig].path@ == path@);
                            assert(before.oversized@[i as int].path@ == path@);
                        }
                    }
                    assert forall|k: Seq<char>| k != path@ implies side_has(self.oversized@, k)
                        == side_has(before.oversized@, k) && (side_has(before.oversized@, k)
                        ==> side_image(self.oversized@, k) == side_image(before.oversized@, k)) by {
                        lemma_side_after_remove(before.oversized@, i as int, k);
                    }
                }
            },
            None => {
            },
        }
        let ghost mid = *self;
        self.full.remove(path);
        self.thumbs.remove(path);
        proof {
            assert forall|k: Seq<char>| #[trigger] self.in_side_list(k) implies !self.full.contains(
                k,
            ) by {
                if k == path@ {
                    assert(!side_has(mid.oversized@, path@));
                } else {
                    assert(side_has(before.oversized@, k));
                    assert(before.in_side_list(k));
                    assert(!before.full.contains(k));
                }
            }
        }
    }

    /// Admit a thumbnail under the path. A thumbnail heavier than the
    /// whole thumbnail budget is refused; otherwise older thumbnails are
    /// evicted as the budget demands.
    pub fn insert_thumbnail(&mut self, path: String, thumb: ThumbnailData) -> (admitted: bool)
        requires
            old(self).wf(),
        ensures
            final(self).wf(),
            admitted == (Self::spec_thumb_weight(thumb) <= old(self).thumb_budget_kb()),
            admitted ==> final(self).thumb_contains(path@) && final(self).thumb_value(path@)
                == thumb,
            !admitted ==> !final(self).thumb_contains(path@),
            forall|k: Seq<char>|
                k != path@ && final(self).thumb_contains(k) ==> old(self).thumb_contains(k)
                    && final(self).thumb_value(k) == old(self).thumb_value(k),
            forall|k: Seq<char>|
                final(self).full_contains(k) == old(self).full_contains(k),
            forall|k: Seq<char>|
                old(self).full_contains(k) ==> final(self).full_value(k) == old(self).full_value(
                    k,
                ),
            final(self).image_budget_kb() == old(self).image_budget_kb(),
            final(self).thumb_budget_kb() == old(self).thumb_budget_kb(),
    {
        let len = thumb.pixels.len();
        let kb64: u64 = (len as u64) / 1024;
        let weight: u64 = if kb64 < 1 {
            1
        } else {
            kb64
        };
        let admitted = self.thumbs.insert(path, thumb, weight);
        proof {
            assert forall|k: Seq<char>| #[trigger] self.in_side_list(k) implies !self.full.contains(
                k,
            ) by {
                assert(old(self).in_side_list(k));
            }
            assert forall|k: Seq<char>| #[trigger] self.full.contains(k) implies self.full.weight_at(
                k,
            ) == image_weight_kb(self.full.value_at(k)) by {
                assert(old(self).full.contains(k));
            }
        }
        admitted
    }
}

impl CacheManager {
    /// Admit a full image under the path. An image whose weight exceeds
    /// the accounting granularity (a 64th of the weighted budget) bypasses
    /// the weighted store and is parked in the bounded side list,
    /// displacing the least recently used entry once the list is full —
    /// the newest entry is always retained. A lighter image goes to the
    /// weighted store, evicting oldest entries under weight pressure. Any
    /// stale entry under the same path in the other place is dropped, so a
    /// path is never retained in both.
    pub fn insert_image(&mut self, path: String, image: LoadedImage)
        requires
            old(self).wf(),
        ensures
            final(self).wf(),
            final(self).full_contains(path@),
            final(self).full_value(path@) == image,
            forall|k: Seq<char>|
                k != path@ && final(self).full_contains(k) ==> old(self).full_contains(k)
                    && final(self).full_value(k) == old(self).full_value(k),
            forall|k: Seq<char>|
                final(self).thumb_contains(k) == old(self).thumb_contains(k),
            forall|k: Seq<char>|
                old(self).thumb_contains(k) ==> final(self).thumb_value(k) == old(
                    self,
                ).thumb_value(k),
            final(self).image_budget_kb() == old(self).image_budget_kb(),
            final(self).thumb_budget_kb() == old(self).thumb_budget_kb(),
            image_weight_kb(image) > old(self).granularity_kb() ==> final(self).in_side_list(
                path@,
            ),
            image_weight_kb(image) > old(self).granularity_kb() && !old(self).in_side_list(path@)
                && old(self).side_paths().len() < OVERSIZED_CAPACITY ==> final(self).side_paths()
                == old(self).side_paths().push(path@),
            image_weight_kb(image) > old(self).granularity_kb() && !old(self).in_side_list(path@)
                && old(self).side_paths().len() == OVERSIZED_CAPACITY ==> final(self).side_paths()
                == old(self).side_paths().subrange(1, OVERSIZED_CAPACITY as int).push(path@),
            image_weight_kb(image) <= old(self).granularity_kb() ==> final(self).in_weighted_store(
                path@,
            ) && !final(self).in_side_list(path@),
            // the path lands in exactly one place: parked oversized, it is
            // purged from the weighted store
            image_weight_kb(image) > old(self).granularity_kb() ==> !final(self).in_weighted_store(
                path@,
            ),
            // which side-list entries survive: everything but the displaced
            // least recently used one, and only a full list displaces
            image_weight_kb(image) <= old(self).granularity_kb() ==> forall|k: Seq<char>|
                k != path@ ==> final(self).in_side_list(k) == old(self).in_side_list(k),
            image_weight_kb(image) > old(self).granularity_kb() && old(self).in_side_list(path@)
                ==> forall|k: Seq<char>|
                k != path@ ==> final(self).in_side_list(k) == old(self).in_side_list(k),
            image_weight_kb(image) > old(self).granularity_kb() && !old(self).in_side_list(path@)
                && old(self).side_paths().len() < OVERSIZED_CAPACITY ==> forall|k: Seq<char>|
                k != path@ ==> final(self).in_side_list(k) == old(self).in_side_list(k),
            image_weight_kb(image) > old(self).granularity_kb() && !old(self).in_side_list(path@)
                && old(self).side_paths().len() == OVERSIZED_CAPACITY ==> forall|k: Seq<char>|
                k != path@ ==> (final(self).in_side_list(k) <==> (old(self).in_side_list(k) && k
                    != old(self).side_paths()[0])),
    {
        let weight = image.size_in_kb();
        let threshold = self.image_limit_kb / 64;
        if weight > threshold {
            self.full.remove(path.as_str());
            let ghost after_full_remove = *self;
            match self.find_oversized(path.as_str()) {
                Some(i) => {
                    let ghost before = self.oversized@;
                    self.oversized.remove(i);
                    proof {
                        assert(self.oversized@ =~= before.remove(i as int));
                        assert(!side_has(self.oversized@, path@)) by {
                            if side_has(self.oversized@, path@) {
                                let a = choose|a: int|
                                    0 <= a < self.oversized@.len() && (
                                    #[trigger] self.oversized@[a]).path@ == path@;
                                let a_orig: int = if a < i as int {
                                    a
                                } else {
                                    a + 1
                                };
                                assert(before[a_orig].path@ == path@);
                                assert(before[i as int].path@ == path@);
                            }
                        }
                        assert forall|k: Seq<char>| k != path@ implies side_has(self.oversized@, k)
                            == side_has(before, k) && (side_has(before, k) ==> side_image(
                            self.oversized@,
                            k,
                        ) == side_image(before, k)) by {
                            lemma_side_after_remove(before, i as int, k);
                        }
                    }
                },
                None => {
                },
            }
            let ghost cleaned = self.oversized@;
            if self.oversized.len() == OVERSIZED_CAPACITY {
                let ghost before_drop = self.oversized@;
                self.oversized.remove(0);
                proof {
                    assert(self.oversized@ =~= before_drop.remove(0));
                    assert forall|k: Seq<char>| #[trigger] side_has(self.oversized@, k) implies
                        side_has(before_drop, k) && side_image(self.oversized@, k) == side_image(
                        before_drop,
                        k,
                    ) by {
                        let a = choose|a: int|
                            0 <= a < self.oversized@.len() && (#[trigger] self.oversized@[a]).path@
                                == k;
                        assert(before_drop[a + 1].path@ == k);
                        if before_drop[0].path@ != k {
                            lemma_side_after_remove(before_drop, 0, k);
                        } else {
                            assert(false) by {
                                assert(before_drop[0].path@ == before_drop[a + 1].path@);
                            }
                        }
                    }
                }
            }
            let ghost pruned = self.oversized@;
            let ghost entry_spec_path = path@;
            self.oversized.push(OversizedEntry { path, image });
            proof {
                let now = self.oversized@;
                assert(now =~= pruned.push(now.last()));
                assert(now.last().path@ == entry_spec_path && now.last().image == image);
                assert forall|k: Seq<char>| true implies {
                    &&& side_has(now, k) == (side_has(pruned, k) || k == entry_spec_path)
                } by {
                    lemma_side_after_push(pruned, now.last(), k);
                }
                lemma_side_after_push(pruned, now.last(), entry_spec_path);
                assert(side_image(now, entry_spec_path) == image);
                assert forall|k: Seq<char>| k != entry_spec_path && #[trigger] side_has(pruned, k)
                    implies side_image(now, k) == side_image(pruned, k) by {
                    lemma_side_after_push(pruned, now.last(), k);
                }
                // uniqueness of the new run
                assert forall|a: int, b: int| 0 <= a < b < now.len() implies (
                #[trigger] now[a]).path@ != (#[trigger] now[b]).path@ by {
                    if b == now.len() - 1 {
                        if now[a].path@ == entry_spec_path {
                            assert(pruned[a].path@ == entry_spec_path);
                            assert(side_has(pruned, entry_spec_path));
                        }
                    }
                }
                // disjointness from the weighted store
                assert forall|k: Seq<char>| #[trigger] self.in_side_list(k) implies !self
                    .full.contains(k) by {
                    if k == entry_spec_path {
                        assert(!self.full.contains(entry_spec_path));
                    } else {
                        assert(side_has(pruned, k));
                        assert(side_has(old(self).oversized@, k));
                        assert(old(self).in_side_list(k));
                    }
                }
                // weight accounting carried over
                assert forall|k: Seq<char>| #[trigger] self.full.contains(k) implies self
                    .full.weight_at(k) == image_weight_kb(self.full.value_at(k)) by {
                    assert(old(self).full.contains(k));
                }
                // survival of the other side-list entries, by sub-case
                assert(!self.full.contains(entry_spec_path));
                assert(old(self).side_paths().len() == old(self).oversized@.len());
                if pruned == cleaned {
                    assert forall|k: Seq<char>| k != entry_spec_path implies side_has(now, k)
                        == side_has(old(self).oversized@, k) by {
                        lemma_side_after_push(pruned, now.last(), k);
                    }
                } else {
                    // the drop ran: the list was full, so nothing was removed
                    // for the path and the dropped entry is the old front
                    assert(cleaned == old(self).oversized@);
                    assert(old(self).side_paths()[0] == old(self).oversized@[0].path@);
                    let first = old(self).oversized@[0].path@;
                    assert(!side_has(pruned, first)) by {
                        if side_has(pruned, first) {
                            let a = choose|a: int|
                                0 <= a < pruned.len() && (#[trigger] pruned[a]).path@ == first;
                            assert(pruned[a] == cleaned[a + 1]);
                            assert(cleaned[a + 1].path@ == cleaned[0].path@);
                        }
                    }
                    assert forall|k: Seq<char>| k != entry_spec_path implies (side_has(now, k)
                        <==> (side_has(old(self).oversized@, k) && k != first)) by {
                        lemma_side_after_push(pruned, now.last(), k);
                        if k != first {
                            lemma_side_after_remove(cleaned, 0, k);
                        }
                    }
                }
            }
        } else {
            match self.find_oversized(path.as_str()) {
                Some(i) => {
                    let ghost before = self.oversized@;
                    self.oversized.remove(i);
                    proof {
                        assert(self.oversized@ =~= before.remove(i as int));
                        assert(!side_has(self.oversized@, path@)) by {
                            if side_has(self.oversized@, path@) {
                                let a = choose|a: int|
                                    0 <= a < self.oversized@.len() && (
                                    #[trigger] self.oversized@[a]).path@ == path@;
                                let a_orig: int = if a < i as int {
                                    a
                                } else {
                                    a + 1
                                };
                                assert(before[a_orig].path@ == path@);
                                assert(before[i as int].path@ == path@);
                            }
                        }
                        assert forall|k: Seq<char>| k != path@ implies side_has(self.oversized@, k)
                            == side_has(before, k) && (side_has(before, k) ==> side_image(
                            self.oversized@,
                            k,
                        ) == side_image(before, k)) by {
                            lemma_side_after_remove(before, i as int, k);
                        }
                    }
                },
                None => {
                },
            }
            let ghost mid = *self;
            let ghost key = path@;
            proof {
                assert(self.image_limit_kb as int / 64 <= self.image_limit_kb as int)
                    by (nonlinear_arith);
            }
            let admitted = self.full.insert(path, image, weight);
            proof {
                assert(admitted);
                assert(!side_has(self.oversized@, key));
                // disjointness
                assert forall|k: Seq<char>| #[trigger] self.in_side_list(k) implies !self
                    .full.contains(k) by {
                    assert(side_has(mid.oversized@, k));
                    assert(k != key);
                    assert(side_has(old(self).oversized@, k));
                    assert(old(self).in_side_list(k));
                    assert(!old(self).full.contains(k));
                }
                // weight accounting
                assert forall|k: Seq<char>| #[trigger] self.full.contains(k) implies self
                    .full.weight_at(k) == image_weight_kb(self.full.value_at(k)) by {
                    if k != key {
                        assert(old(self).full.contains(k));
                    }
                }
                // the side list kept every other entry
                assert(forall|k: Seq<char>|
                    k != key ==> side_has(self.oversized@, k) == side_has(
                        old(self).oversized@,
                        k,
                    ));
            }
        }
    }
}

} // verus!
