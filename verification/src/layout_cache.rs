use vstd::prelude::*;
use std::collections::HashMap;
use vstd::std_specs::hash::spec_hash_map_iter;
use vstd::std_specs::iter::IteratorSpec;

verus! {

/// The most text layouts the diff view keeps.
pub const DIFF_TEXT_LAYOUT_CACHE_MAX_ENTRIES: usize = 4000;

/// A kept text layout and the last frame (epoch) it was used in.
pub struct LayoutEntry<V> {
    pub layout: V,
    pub last_used_epoch: u64,
}

/// The text layouts of the diff view, by key, with the current frame.
pub struct TextLayoutCache<V> {
    pub epoch: u64,
    pub entries: HashMap<u64, LayoutEntry<V>>,
}

/// `after` is `before` with its least recently used entries dropped until
/// `DIFF_TEXT_LAYOUT_CACHE_MAX_ENTRIES` are left: unchanged when there are no more than that,
/// else exactly that many entries of `before`, each dropped entry last used no later than
/// every kept one.
pub open spec fn pruned<V>(before: Map<u64, LayoutEntry<V>>, after: Map<u64, LayoutEntry<V>>) -> bool {
    if before.len() <= DIFF_TEXT_LAYOUT_CACHE_MAX_ENTRIES {
        after == before
    } else {
        &&& after.len() == DIFF_TEXT_LAYOUT_CACHE_MAX_ENTRIES
        &&& after.dom().subset_of(before.dom())
        &&& forall|k: u64| #[trigger] after.contains_key(k) ==> after[k] == before[k]
        &&& forall|gone: u64, kept: u64|
            before.contains_key(gone) && !after.contains_key(gone) && #[trigger] after.contains_key(kept)
                ==> #[trigger] before[gone].last_used_epoch <= before[kept].last_used_epoch
    }
}

/// The entries after a use of `key` in frame `epoch`: a new layout is stored; without one,
/// a kept layout is marked as used.
pub open spec fn touched<V>(m: Map<u64, LayoutEntry<V>>, key: u64, layout: Option<V>, epoch: u64) -> Map<
    u64,
    LayoutEntry<V>,
> {
    match layout {
        Some(l) => m.insert(key, LayoutEntry { layout: l, last_used_epoch: epoch }),
        None => if m.contains_key(key) {
            m.insert(key, LayoutEntry { layout: m[key].layout, last_used_epoch: epoch })
        } else {
            m
        },
    }
}

impl<V> TextLayoutCache<V> {
    /// Drops the least recently used layouts while more than
    /// `DIFF_TEXT_LAYOUT_CACHE_MAX_ENTRIES` are kept (see `pruned`). Which of several
    /// equally old layouts go depends on the order the map hands its entries out in.
    pub fn prune_diff_text_layout_cache(&mut self)
        ensures
            final(self).epoch == old(self).epoch,
            pruned(old(self).entries@, final(self).entries@),
    {
        broadcast use vstd::std_specs::hash::group_hash_axioms;

        let n = self.entries.len();
        if n <= DIFF_TEXT_LAYOUT_CACHE_MAX_ENTRIES {
            return;
        }
        let over_by = n - DIFF_TEXT_LAYOUT_CACHE_MAX_ENTRIES;
        let ghost m0 = self.entries@;
        let iter = self.entries.iter();
        let ghost s = iter.remaining();
        proof {
            assert(s.no_duplicates());
        }
        let mut pairs: Vec<(u64, u64)> = Vec::new();
        for kv in it: iter
            invariant
                it.seq() == s,
                s == spec_hash_map_iter(&self.entries).remaining(),
                pairs@.len() == it.index(),
                forall|i: int|
                    0 <= i < it.index() ==> #[trigger] pairs@[i] == (*s[i].0, s[i].1.last_used_epoch),
        {
            let (k, e) = kv;
            pairs.push((*k, e.last_used_epoch));
        }
        proof {
            assert(pairs@.len() == s.len());
            assert forall|i: int| 0 <= i < pairs@.len() implies m0.contains_key(#[trigger] pairs@[i].0)
                && m0[pairs@[i].0].last_used_epoch == pairs@[i].1 by {
                assert(m0.contains_key(*s[i].0));
            }
            assert forall|k: u64| m0.contains_key(k) implies exists|i: int|
                0 <= i < pairs@.len() && #[trigger] pairs@[i].0 == k by {
                assert(s.contains((&k, &m0[k])));
                let i = choose|i: int| 0 <= i < s.len() && s[i] == (&k, &m0[k]);
                assert(pairs@[i].0 == k);
            }
            assert forall|i: int, j: int|
                0 <= i < pairs@.len() && 0 <= j < pairs@.len() && i != j implies #[trigger] pairs@[i].0
                != #[trigger] pairs@[j].0 by {
                if pairs@[i].0 == pairs@[j].0 {
                    assert(m0.contains_key(*s[i].0));
                    assert(m0.contains_key(*s[j].0));
                    assert(s[i] == s[j]);
                }
            }
        }
        let mut removed: Vec<bool> = Vec::new();
        let mut i: usize = 0;
        while i < pairs.len()
            invariant
                i <= pairs@.len(),
                removed@.len() == i,
                forall|j: int| 0 <= j < i ==> !#[trigger] removed@[j],
            decreases pairs@.len() - i,
        {
            removed.push(false);
            i = i + 1;
        }
        let mut t: usize = 0;
        while t < over_by
            invariant
                t <= over_by,
                self.epoch == old(self).epoch,
                m0 == old(self).entries@,
                over_by == m0.len() - DIFF_TEXT_LAYOUT_CACHE_MAX_ENTRIES,
                forall|i: int, j: int|
                    0 <= i < pairs@.len() && 0 <= j < pairs@.len() && i != j ==> #[trigger] pairs@[i].0
                        != #[trigger] pairs@[j].0,
                m0.dom().finite(),
                removed@.len() == pairs@.len(),
                self.entries@.dom().finite(),
                self.entries@.len() == m0.len() - t,
                forall|k: u64| #[trigger] self.entries@.contains_key(k) ==> m0.contains_key(k)
                    && self.entries@[k] == m0[k],
                forall|i: int| 0 <= i < pairs@.len() ==> (#[trigger] removed@[i] <==> !self.entries@.contains_key(pairs@[i].0)),
                forall|i: int| 0 <= i < pairs@.len() ==> m0.contains_key(#[trigger] pairs@[i].0)
                    && m0[pairs@[i].0].last_used_epoch == pairs@[i].1,
                forall|k: u64| m0.contains_key(k) ==> exists|i: int|
                    0 <= i < pairs@.len() && #[trigger] pairs@[i].0 == k,
                forall|i: int, j: int|
                    0 <= i < pairs@.len() && 0 <= j < pairs@.len() && #[trigger] removed@[i]
                        && !#[trigger] removed@[j] ==> pairs@[i].1 <= pairs@[j].1,
            decreases over_by - t,
        {
            proof {
                let k = self.entries@.dom().choose();
                assert(self.entries@.len() > 0);
                assert(self.entries@.dom().contains(k));
                assert(m0.contains_key(k));
                let i0 = choose|i: int| 0 <= i < pairs@.len() && #[trigger] pairs@[i].0 == k;
                assert(!removed@[i0]);
            }
            let mut best: usize = 0;
            let mut found = false;
            let mut j: usize = 0;
            while j < pairs.len()
                invariant
                    j <= pairs@.len(),
                    removed@.len() == pairs@.len(),
                    found ==> best < j && !removed@[best as int],
                    found ==> forall|q: int| 0 <= q < j && !removed@[q] ==> pairs@[best as int].1 <= #[trigger] pairs@[q].1,
                    !found ==> forall|q: int| 0 <= q < j ==> #[trigger] removed@[q],
                decreases pairs@.len() - j,
            {
                if !removed[j] {
                    if !found || pairs[j].1 < pairs[best].1 {
                        best = j;
                        found = true;
                    }
                }
                j = j + 1;
            }
            proof {
                if !found {
                    let k = self.entries@.dom().choose();
                    let i0 = choose|i: int| 0 <= i < pairs@.len() && #[trigger] pairs@[i].0 == k;
                    assert(removed@[i0]);
                }
            }
            let key = pairs[best].0;
            let ghost before = self.entries@;
            let ghost removed_before = removed@;
            removed.set(best, true);
            self.entries.remove(&key);
            proof {
                before.lemma_remove_key_len(key);
                assert forall|i: int| 0 <= i < pairs@.len() implies (#[trigger] removed@[i]
                    <==> !self.entries@.contains_key(pairs@[i].0)) by {
                    if i != best {
                        assert(pairs@[i].0 != pairs@[best as int].0);
                    }
                }
                assert forall|i: int, j: int|
                    0 <= i < pairs@.len() && 0 <= j < pairs@.len() && #[trigger] removed@[i]
                        && !#[trigger] removed@[j] implies pairs@[i].1 <= pairs@[j].1 by {
                    assert(!removed_before[j]);
                    if i != best {
                        assert(removed_before[i]);
                    }
                }
            }
            t = t + 1;
        }
        proof {
            let after = self.entries@;
            assert forall|gone: u64, kept: u64|
                m0.contains_key(gone) && !after.contains_key(gone) && #[trigger] after.contains_key(kept)
                    implies #[trigger] m0[gone].last_used_epoch <= m0[kept].last_used_epoch by {
                let ig = choose|i: int| 0 <= i < pairs@.len() && #[trigger] pairs@[i].0 == gone;
                let ik = choose|i: int| 0 <= i < pairs@.len() && #[trigger] pairs@[i].0 == kept;
                assert(removed@[ig]);
                assert(!removed@[ik]);
            }
        }
    }

    /// Records a use of `key` in the current frame: a new layout is stored, or a kept one is
    /// marked as used; then the least recently used layouts are dropped (see `touched` and
    /// `pruned`).
    pub fn touch_diff_text_layout_cache(&mut self, key: u64, layout: Option<V>)
        ensures
            final(self).epoch == old(self).epoch,
            pruned(touched(old(self).entries@, key, layout, old(self).epoch), final(self).entries@),
    {
        broadcast use vstd::std_specs::hash::group_hash_axioms;

        let epoch = self.epoch;
        let ghost m0 = self.entries@;
        match layout {
            Some(l) => {
                self.entries.insert(key, LayoutEntry { layout: l, last_used_epoch: epoch });
            },
            None => {
                match self.entries.remove(&key) {
                    Some(e) => {
                        self.entries.insert(key, LayoutEntry { layout: e.layout, last_used_epoch: epoch });
                        assert(self.entries@ =~= touched(m0, key, layout, epoch));
                    },
                    None => {
                        assert(self.entries@ =~= touched(m0, key, layout, epoch));
                    },
                }
            },
        }
        self.prune_diff_text_layout_cache();
    }
}

} // verus!

verus! {

/// Keeps `value` as the styled text of row `key`, growing the cache with empty slots up
/// to it; returns the kept value.
pub fn diff_text_segments_cache_set<T>(cache: &mut Vec<Option<T>>, key: usize, value: T) -> (kept: &T)
    requires
        key < usize::MAX,
    ensures
        final(cache)@.len() == vstd::math::max(old(cache)@.len() as int, key + 1),
        final(cache)@[key as int] == Some(value),
        forall|i: int|
            0 <= i < final(cache)@.len() && i != key ==> #[trigger] final(cache)@[i] == if i < old(
                cache,
            )@.len() {
                old(cache)@[i]
            } else {
                None
            },
        *kept == value,
{
    while cache.len() <= key
        invariant
            key < usize::MAX,
            cache@.len() <= vstd::math::max(old(cache)@.len() as int, key + 1),
            cache@.len() >= old(cache)@.len(),
            forall|i: int|
                0 <= i < cache@.len() ==> #[trigger] cache@[i] == if i < old(cache)@.len() {
                    old(cache)@[i]
                } else {
                    None
                },
        decreases key + 1 - cache@.len(),
    {
        cache.push(None);
    }
    cache.set(key, Some(value));
    cache[key].as_ref().unwrap()
}

} // verus!
