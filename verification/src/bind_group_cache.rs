use std::collections::HashMap;

use vstd::prelude::*;
use vstd::std_specs::iter::IteratorSpec;

use crate::bind_group::BindGroup;

verus! {

/// How many bind groups the cache holds at most.
pub const BIND_GROUP_CACHE_MAX_ENTRIES: usize = 256;

/// How many accesses an epoch lasts at least, so that tiny scenes do not thrash.
pub const MIN_EPOCH_LEN: u64 = 32;

/// A bind group and the epoch in which it was last asked for.
#[derive(Debug)]
pub struct CachedBindGroup {
    pub bind_group: BindGroup,
    pub epoch: u64,
}

/// Two-generation bind group cache. Entries survive up to two epochs, each of
/// about one render frame. Those that are not asked for again across epochs are
/// dropped, which releases their references to GPU buffers and textures. A hard
/// cap keeps the cache from growing without bound, even in pathological cases.
///
/// The first epoch measures the frame: the first access, counting from the
/// `MIN_EPOCH_LEN`-th, to a bind group that is held at that moment ends it, as
/// the next frame's first access does. Every later epoch lasts as many accesses
/// as the first one did.
#[derive(Debug)]
pub struct BindGroupCache {
    map: HashMap<u64, CachedBindGroup>,
    epoch: u64,
    access_count: u64,
    epoch_start: u64,
    accesses_first_epoch: u64,
}

/// What a cache holds, as mathematical values.
#[verifier::ext_equal]
pub struct CacheState {
    /// The cached bind groups by key.
    pub entries: Map<u64, CachedBindGroup>,
    /// The current epoch.
    pub epoch: int,
    /// How many accesses there have been.
    pub access_count: int,
    /// How many accesses there had been when the current epoch began.
    pub epoch_start: int,
    /// How many accesses the first epoch lasted; 0 until it is over.
    pub accesses_first_epoch: int,
}

impl CacheState {
    /// The state of a cache that was never accessed.
    pub open spec fn empty() -> CacheState {
        CacheState {
            entries: Map::empty(),
            epoch: 0,
            access_count: 0,
            epoch_start: 0,
            accesses_first_epoch: 0,
        }
    }

    /// How many accesses the current epoch lasts.
    pub open spec fn epoch_len(self) -> int {
        if self.accesses_first_epoch > MIN_EPOCH_LEN {
            self.accesses_first_epoch
        } else {
            MIN_EPOCH_LEN as int
        }
    }

    /// The entries that were last asked for in `min_epoch` or later.
    pub open spec fn entries_since(self, min_epoch: int) -> Map<u64, CachedBindGroup> {
        self.entries.filter_keys(|key: u64| self.entries[key].epoch >= min_epoch)
    }

    /// The state with one more access counted.
    pub open spec fn accessed(self) -> CacheState {
        CacheState { access_count: self.access_count + 1, ..self }
    }

    /// The state once an epoch that is over has made room for the next one.
    pub open spec fn advanced(self) -> CacheState {
        let spent = self.access_count - self.epoch_start;
        if spent >= self.epoch_len() {
            CacheState {
                entries: self.entries_since(self.epoch),
                epoch: self.epoch + 1,
                access_count: self.access_count,
                epoch_start: self.access_count,
                accesses_first_epoch: if self.epoch == 0 {
                    spent
                } else {
                    self.accesses_first_epoch
                },
            }
        } else {
            self
        }
    }

    /// The state in which the next access, to `key`, looks its key up. The first
    /// epoch ends only with an access to a bind group that is held.
    pub open spec fn before_lookup(self, key: u64) -> CacheState {
        if self.epoch > 0 || self.entries.contains_key(key) {
            self.accessed().advanced()
        } else {
            self.accessed()
        }
    }

    /// The next access, if it is to `key`, finds a bind group.
    pub open spec fn hits(self, key: u64) -> bool {
        self.before_lookup(key).entries.contains_key(key)
    }

    /// The bind group that the next access finds under `key`.
    pub open spec fn found(self, key: u64) -> BindGroup
        recommends
            self.hits(key),
    {
        self.before_lookup(key).entries[key].bind_group
    }

    /// The state with `bind_group` under `key`, asked for in the current epoch.
    pub open spec fn with_entry(self, key: u64, bind_group: BindGroup) -> CacheState {
        CacheState {
            entries: self.entries.insert(
                key,
                CachedBindGroup { bind_group, epoch: self.epoch as u64 },
            ),
            ..self
        }
    }

    /// The state under the hard cap: one with too many entries loses all of them.
    pub open spec fn capped(self) -> CacheState {
        if self.entries.len() > BIND_GROUP_CACHE_MAX_ENTRIES {
            CacheState { entries: Map::empty(), ..self }
        } else {
            self
        }
    }

    /// The state after an access to `key` that handed out `bind_group`.
    pub open spec fn after_access(self, key: u64, bind_group: BindGroup) -> CacheState {
        if self.hits(key) {
            self.before_lookup(key).with_entry(key, bind_group)
        } else {
            self.before_lookup(key).with_entry(key, bind_group).capped()
        }
    }

    /// The bind group that the next access hands out for `key`, where `made`
    /// is what is made when none is found.
    pub open spec fn handed_out(self, key: u64, made: BindGroup) -> BindGroup {
        if self.hits(key) {
            self.found(key)
        } else {
            made
        }
    }

    /// The state after a run of accesses, each given by its key and by the bind
    /// group that is made when none is found.
    pub open spec fn after_accesses(self, accesses: Seq<(u64, BindGroup)>) -> CacheState
        decreases accesses.len(),
    {
        if accesses.len() == 0 {
            self
        } else {
            let before = self.after_accesses(accesses.drop_last());
            let (key, made) = accesses.last();
            before.after_access(key, before.handed_out(key, made))
        }
    }

    /// The next access, to `key`, drops everything: it finds nothing, and the
    /// cache is full.
    pub open spec fn overflows(self, key: u64) -> bool {
        !self.hits(key) && self.before_lookup(key).entries.len() >= BIND_GROUP_CACHE_MAX_ENTRIES
    }

    /// One of the accesses of a run drops everything.
    pub open spec fn overflows_during(self, accesses: Seq<(u64, BindGroup)>) -> bool {
        exists|i: int|
            0 <= i < accesses.len() && self.after_accesses(accesses.take(i)).overflows(
                (#[trigger] accesses[i]).0,
            )
    }

    /// The counters are in order: what an epoch needs in order to end.
    pub open spec fn ordered(self) -> bool {
        0 <= self.epoch <= self.epoch_start <= self.access_count
    }

    /// What holds of a cache between two accesses.
    pub open spec fn valid(self) -> bool {
        &&& self.entries.dom().finite()
        &&& self.entries.len() <= BIND_GROUP_CACHE_MAX_ENTRIES
        &&& forall|key: u64| #[trigger]
            self.entries.contains_key(key) ==> self.epoch - 1 <= self.entries[key].epoch
                <= self.epoch
        &&& self.ordered()
        &&& self.epoch == 0 ==> self.epoch_start == 0 && self.accesses_first_epoch == 0
        &&& self.epoch > 0 ==> self.accesses_first_epoch >= MIN_EPOCH_LEN && self.access_count
            < self.epoch_start + self.accesses_first_epoch
    }
}

/// Dropping entries of earlier epochs keeps a state valid.
proof fn lemma_advance_keeps_valid(state: CacheState)
    requires
        state.valid(),
    ensures
        state.advanced().valid(),
{
    let next = state.advanced();
    assert(next.entries.dom().subset_of(state.entries.dom()));
    vstd::set_lib::lemma_len_subset(next.entries.dom(), state.entries.dom());
}

/// An access keeps the cache valid, whatever bind group it hands out: the cap
/// holds, and every entry is of the current or the previous epoch.
pub proof fn law_access_keeps_valid(state: CacheState, key: u64)
    requires
        state.valid(),
        state.access_count < u64::MAX,
    ensures
        forall|bind_group: BindGroup| (#[trigger] state.after_access(key, bind_group)).valid(),
{
    let next = state.before_lookup(key);
    assert(next.entries.dom().subset_of(state.entries.dom()));
    vstd::set_lib::lemma_len_subset(next.entries.dom(), state.entries.dom());
    assert forall|bind_group: BindGroup| (#[trigger] state.after_access(key, bind_group)).valid() by {
        let stored = next.with_entry(key, bind_group);
        if state.hits(key) {
            assert(stored.entries.dom() =~= next.entries.dom());
        }
    }
}

impl View for BindGroupCache {
    type V = CacheState;

    closed spec fn view(&self) -> CacheState {
        CacheState {
            entries: self.map@,
            epoch: self.epoch as int,
            access_count: self.access_count as int,
            epoch_start: self.epoch_start as int,
            accesses_first_epoch: self.accesses_first_epoch as int,
        }
    }
}

/// Drops the entries that were last asked for before `min_epoch`.
fn evict_before(map: &mut HashMap<u64, CachedBindGroup>, min_epoch: u64)
    ensures
        final(map)@ == old(map)@.filter_keys(|key: u64| old(map)@[key].epoch >= min_epoch),
{
    let ghost all = map@;
    let mut stale: Vec<u64> = Vec::new();
    for (key, entry) in it: map.iter()
        invariant
            map@ == all,
            it.seq() == map.iter().remaining(),
            forall|i: int|
                0 <= i < stale.len() ==> all.contains_key(#[trigger] stale[i])
                    && all[stale[i]].epoch < min_epoch,
            forall|i: int|
                0 <= i < it.index() && (#[trigger] it.seq()[i]).1.epoch < min_epoch
                    ==> stale@.contains(*it.seq()[i].0),
    {
        let ghost before = stale@;
        if entry.epoch < min_epoch {
            stale.push(*key);
            assert(stale@.last() == *key);
            assert forall|other: u64| before.contains(other) implies stale@.contains(other) by {
                let i = before.index_of(other);
                assert(stale@[i] == other);
            }
        }
    }
    assert forall|key: u64| all.contains_key(key) && all[key].epoch < min_epoch implies stale@.contains(
        key,
    ) by {
        assert(map.iter().remaining().contains((&key, &all[key])));
    }
    let mut i: usize = 0;
    while i < stale.len()
        invariant
            i <= stale.len(),
            map@ == all.remove_keys(stale@.take(i as int).to_set()),
        decreases stale.len() - i,
    {
        map.remove(&stale[i]);
        i = i + 1;
        assert(stale@.take(i as int) == stale@.take(i - 1).push(stale@[i - 1]));
        proof {
            stale@.take(i - 1).lemma_push_to_set_commute(stale@[i - 1]);
        }
    }
    assert(stale@.take(i as int) == stale@);
    assert(map@ =~= all.filter_keys(|key: u64| all[key].epoch >= min_epoch));
}

impl BindGroupCache {
    /// An empty cache.
    pub fn new() -> (cache: BindGroupCache)
        ensures
            cache@ == CacheState::empty(),
            cache@.valid(),
            cache@.entries == Map::<u64, CachedBindGroup>::empty(),
            cache@.epoch == 0,
            cache@.access_count == 0,
            cache@.epoch_start == 0,
            cache@.accesses_first_epoch == 0,
    {
        BindGroupCache {
            map: HashMap::new(),
            epoch: 0,
            access_count: 0,
            epoch_start: 0,
            accesses_first_epoch: 0,
        }
    }

    /// How many accesses there have been.
    pub fn access_count(&self) -> (count: u64)
        ensures
            count == self@.access_count,
    {
        self.access_count
    }

    /// Ends the current epoch if it has lasted long enough, and drops the
    /// entries that were not asked for in it.
    pub fn maybe_advance_epoch(&mut self)
        requires
            old(self)@.ordered(),
        ensures
            final(self)@ == old(self)@.advanced(),
            old(self)@.valid() ==> final(self)@.valid(),
    {
        proof {
            if self@.valid() {
                lemma_advance_keeps_valid(self@);
            }
        }
        let accesses_this_epoch: u64 = self.access_count - self.epoch_start;
        let epoch_len: u64 = if self.accesses_first_epoch > MIN_EPOCH_LEN {
            self.accesses_first_epoch
        } else {
            MIN_EPOCH_LEN
        };
        if accesses_this_epoch >= epoch_len {
            if self.epoch == 0 {
                self.accesses_first_epoch = accesses_this_epoch;
            }
            self.epoch = self.epoch + 1;
            self.epoch_start = self.access_count;
            let min_epoch: u64 = self.epoch.saturating_sub(1);
            evict_before(&mut self.map, min_epoch);
        }
    }

    /// Hands out the bind group under `key`, which `create` makes if, and only
    /// if, the cache does not hold it.
    pub fn get_or_insert<F: FnOnce() -> BindGroup>(&mut self, key: u64, create: F) -> (bind_group:
        BindGroup)
        requires
            old(self)@.valid(),
            old(self)@.access_count < u64::MAX,
            !old(self)@.hits(key) ==> create.requires(()),
        ensures
            old(self)@.hits(key) ==> bind_group == old(self)@.found(key),
            !old(self)@.hits(key) ==> create.ensures((), bind_group),
            final(self)@ == old(self)@.after_access(key, bind_group),
            final(self)@.valid(),
    {
        proof {
            law_access_keeps_valid(self@, key);
        }
        self.access_count = self.access_count + 1;
        // The first epoch measures a frame, which ends when a bind group comes up again.
        if self.epoch > 0 || self.map.contains_key(&key) {
            self.maybe_advance_epoch();
        }

        if let Some(entry) = self.map.remove(&key) {
            let bind_group = entry.bind_group.clone();
            self.map.insert(key, CachedBindGroup { bind_group: entry.bind_group, epoch: self.epoch });
            return bind_group;
        }
        let bind_group = create();
        self.map.insert(
            key,
            CachedBindGroup { bind_group: bind_group.clone(), epoch: self.epoch },
        );

        // Hard cap: a cache over the limit drops everything.
        if self.map.len() > BIND_GROUP_CACHE_MAX_ENTRIES {
            self.map.clear();
        }
        bind_group
    }
}

} // verus!
