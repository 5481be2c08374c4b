use vstd::prelude::*;

use crate::bind_group::BindGroup;
use crate::bind_group_cache::{
    law_access_keeps_valid, CacheState, CachedBindGroup, BIND_GROUP_CACHE_MAX_ENTRIES,
    MIN_EPOCH_LEN,
};

verus! {

/// The first epoch sets the length of all: once it is over, every epoch lasts
/// as many accesses as it did, and the length does not change any more.
pub proof fn law_first_epoch_sets_the_length(state: CacheState, key: u64, bind_group: BindGroup)
    requires
        state.valid(),
        state.access_count < u64::MAX,
    ensures
        ({
            let after = state.after_access(key, bind_group);
            let spent = state.access_count + 1 - state.epoch_start;
            &&& after.epoch == state.epoch || after.epoch == state.epoch + 1
            &&& state.epoch > 0 ==> {
                &&& after.epoch_len() == state.epoch_len()
                &&& after.epoch == state.epoch + 1 <==> spent == state.epoch_len()
            }
            &&& state.epoch == 0 ==> {
                &&& after.epoch == 1 ==> after.epoch_len() == spent
                &&& after.epoch == 1 <==> state.entries.contains_key(key) && spent >= MIN_EPOCH_LEN
            }
        }),
{
}

/// A run of accesses keeps a valid cache valid, and each is counted once.
pub proof fn law_accesses_keep_valid(state: CacheState, accesses: Seq<(u64, BindGroup)>)
    requires
        state.valid(),
        state.access_count + accesses.len() <= u64::MAX,
    ensures
        state.after_accesses(accesses).valid(),
        state.after_accesses(accesses).access_count == state.access_count + accesses.len(),
    decreases accesses.len(),
{
    if accesses.len() > 0 {
        law_accesses_keep_valid(state, accesses.drop_last());
        law_access_keeps_valid(state.after_accesses(accesses.drop_last()), accesses.last().0);
    }
}

/// A cache that starts out empty is valid after any run of accesses: it never
/// holds more than `BIND_GROUP_CACHE_MAX_ENTRIES` bind groups, and none that
/// was last asked for before the previous epoch.
pub proof fn law_cache_is_bounded(accesses: Seq<(u64, BindGroup)>, key: u64)
    requires
        accesses.len() <= u64::MAX,
    ensures
        CacheState::empty().after_accesses(accesses).valid(),
        ({
            let state = CacheState::empty().after_accesses(accesses);
            &&& state.entries.len() <= BIND_GROUP_CACHE_MAX_ENTRIES
            &&& state.entries.contains_key(key) ==> state.entries[key].epoch >= state.epoch - 1
        }),
{
    law_accesses_keep_valid(CacheState::empty(), accesses);
}

/// The entries that an access stores among are no more than there were.
proof fn lemma_stored_entries(state: CacheState, key: u64, bind_group: BindGroup)
    requires
        state.valid(),
    ensures
        ({
            let next = state.before_lookup(key);
            let stored = next.with_entry(key, bind_group);
            &&& next.entries.dom().finite()
            &&& next.entries.dom().subset_of(state.entries.dom())
            &&& next.entries.len() <= state.entries.len()
            &&& stored.entries.dom() == next.entries.dom().insert(key)
            &&& state.overflows(key) <==> state.after_access(key, bind_group) != stored
        }),
{
    let next = state.before_lookup(key);
    let stored = next.with_entry(key, bind_group);
    assert(next.entries.dom().subset_of(state.entries.dom()));
    vstd::set_lib::lemma_len_subset(next.entries.dom(), state.entries.dom());
    assert(stored.entries.dom() =~= next.entries.dom().insert(key));
    assert(stored.entries.contains_key(key));
    assert(!Map::<u64, CachedBindGroup>::empty().contains_key(key));
}

/// An access leaves the bind group that it handed out under its key, asked for
/// in the current epoch; if it overflows, it leaves nothing at all.
pub proof fn law_access_stores_or_clears(state: CacheState, key: u64, bind_group: BindGroup)
    requires
        state.valid(),
        state.access_count < u64::MAX,
    ensures
        state.overflows(key) ==> state.after_access(key, bind_group).entries == Map::<
            u64,
            CachedBindGroup,
        >::empty(),
        !state.overflows(key) ==> {
            let after = state.after_access(key, bind_group);
            &&& after.entries.contains_key(key)
            &&& after.entries[key].bind_group == bind_group
            &&& after.entries[key].epoch == after.epoch
        },
{
    law_access_keeps_valid(state, key);
    lemma_stored_entries(state, key, bind_group);
}

/// An access finds the bind group that is held under its very key, and no other:
/// a miss if none is held there, or if it was not asked for in the epoch that
/// the access ends.
pub proof fn law_access_finds_what_is_held(state: CacheState, key: u64, bind_group: BindGroup)
    ensures
        ({
            let after = state.after_access(key, bind_group);
            let ends_epoch = after.epoch != state.epoch;
            &&& state.hits(key) <==> state.entries.contains_key(key) && (ends_epoch
                ==> state.entries[key].epoch >= state.epoch)
            &&& state.hits(key) ==> state.found(key) == state.entries[key].bind_group
        }),
{
}

/// An access loses nothing but what an epoch that it ends leaves unused, unless
/// it would leave more than 256 bind groups, and then it loses all of them. What
/// it does not lose stays as it is, but for its own bind group.
pub proof fn law_only_a_full_cache_is_cleared(state: CacheState, key: u64, bind_group: BindGroup)
    requires
        state.entries.dom().finite(),
    ensures
        ({
            let after = state.after_access(key, bind_group);
            let kept = if after.epoch == state.epoch {
                state.entries
            } else {
                state.entries.filter_keys(|k: u64| state.entries[k].epoch >= state.epoch)
            };
            let left = kept.insert(
                key,
                CachedBindGroup { bind_group, epoch: after.epoch as u64 },
            );
            &&& left.len() <= 256 || kept.contains_key(key) ==> after.entries == left
            &&& left.len() > 256 && !kept.contains_key(key) ==> after.entries == Map::<
                u64,
                CachedBindGroup,
            >::empty()
            &&& state.overflows(key) <==> left.len() > 256 && !kept.contains_key(key)
        }),
{
    let after = state.after_access(key, bind_group);
    let kept = if after.epoch == state.epoch {
        state.entries
    } else {
        state.entries.filter_keys(|k: u64| state.entries[k].epoch >= state.epoch)
    };
    assert(kept =~= state.before_lookup(key).entries);
    assert(kept.dom().subset_of(state.entries.dom()));
    vstd::set_lib::lemma_len_subset(kept.dom(), state.entries.dom());
    let left = kept.insert(key, CachedBindGroup { bind_group, epoch: after.epoch as u64 });
    assert(left.dom() =~= kept.dom().insert(key));
}

/// Every access is counted. It ends the epoch if the epoch has then lasted for
/// 32 accesses, and for as many as the first one lasted; but the first epoch
/// only by asking for a bind group that is held. The next epoch begins with it.
pub proof fn law_access_counts_and_ends_epochs(
    state: CacheState,
    key: u64,
    bind_group: BindGroup,
)
    ensures
        ({
            let after = state.after_access(key, bind_group);
            let spent = after.access_count - state.epoch_start;
            &&& after.access_count == state.access_count + 1
            &&& after.epoch != state.epoch <==> spent >= 32 && spent >= state.accesses_first_epoch
                && (state.epoch > 0 || state.entries.contains_key(key))
            &&& after.epoch != state.epoch ==> {
                &&& after.epoch == state.epoch + 1
                &&& after.epoch_start == after.access_count
                &&& state.epoch == 0 ==> after.accesses_first_epoch == spent
            }
            &&& after.epoch == state.epoch ==> after.epoch_start == state.epoch_start
            &&& after.epoch == state.epoch || state.epoch != 0 ==> after.accesses_first_epoch
                == state.accesses_first_epoch
            &&& state.epoch_len() >= 32 && state.epoch_len() >= state.accesses_first_epoch
            &&& state.epoch_len() == 32 || state.epoch_len() == state.accesses_first_epoch
        }),
{
}

/// An epoch that has not lasted for 32 accesses, or not for as many as the first
/// one, goes on unchanged. One that has makes room for the next: what was asked
/// for in it stays, everything older goes. Nothing is left to do after that.
pub proof fn law_epoch_makes_room(state: CacheState, key: u64)
    ensures
        ({
            let after = state.advanced();
            let spent = state.access_count - state.epoch_start;
            let over = spent >= 32 && spent >= state.accesses_first_epoch;
            &&& !over ==> after == state
            &&& over ==> {
                &&& after.epoch == state.epoch + 1
                &&& after.access_count == state.access_count
                &&& after.epoch_start == state.access_count
                &&& state.epoch == 0 ==> after.accesses_first_epoch == spent
                &&& state.epoch != 0 ==> after.accesses_first_epoch == state.accesses_first_epoch
                &&& after.entries.contains_key(key) <==> state.entries.contains_key(key)
                    && state.entries[key].epoch >= state.epoch
                &&& after.entries.contains_key(key) ==> after.entries[key] == state.entries[key]
            }
            &&& after.advanced() == after
        }),
{
}

/// The accesses of a run come one after the other: each hands out what it finds,
/// or else what is made for it.
pub proof fn law_runs_are_accesses_in_turn(
    state: CacheState,
    accesses: Seq<(u64, BindGroup)>,
    key: u64,
    made: BindGroup,
)
    ensures
        state.after_accesses(Seq::empty()) == state,
        ({
            let before = state.after_accesses(accesses);
            let after = state.after_accesses(accesses.push((key, made)));
            &&& before.hits(key) ==> after == before.after_access(key, before.found(key))
            &&& !before.hits(key) ==> after == before.after_access(key, made)
        }),
{
    assert(accesses.push((key, made)).drop_last() =~= accesses);
}

/// `bind_group` was made for `key` by an access of the run that found none, and
/// every later access to `key` found it.
spec fn made_for(accesses: Seq<(u64, BindGroup)>, key: u64, bind_group: BindGroup) -> bool {
    exists|i: int|
        {
            &&& 0 <= i < accesses.len()
            &&& (#[trigger] accesses[i]) == (key, bind_group)
            &&& !CacheState::empty().after_accesses(accesses.take(i)).hits(key)
            &&& forall|j: int|
                i < j < accesses.len() && (#[trigger] accesses[j]).0 == key ==> {
                    let earlier = CacheState::empty().after_accesses(accesses.take(j));
                    earlier.hits(key) && earlier.found(key) == bind_group
                }
        }
}

/// What a run made stays so while the run goes on, up to the next miss.
proof fn lemma_made_for_longer_run(
    accesses: Seq<(u64, BindGroup)>,
    key: u64,
    bind_group: BindGroup,
    next: (u64, BindGroup),
)
    requires
        made_for(accesses, key, bind_group),
        next.0 == key ==> {
            let state = CacheState::empty().after_accesses(accesses);
            state.hits(key) && state.found(key) == bind_group
        },
    ensures
        made_for(accesses.push(next), key, bind_group),
{
    let longer = accesses.push(next);
    let i = choose|i: int|
        {
            &&& 0 <= i < accesses.len()
            &&& (#[trigger] accesses[i]) == (key, bind_group)
            &&& !CacheState::empty().after_accesses(accesses.take(i)).hits(key)
            &&& forall|j: int|
                i < j < accesses.len() && (#[trigger] accesses[j]).0 == key ==> {
                    let earlier = CacheState::empty().after_accesses(accesses.take(j));
                    earlier.hits(key) && earlier.found(key) == bind_group
                }
        };
    assert(longer.take(i) =~= accesses.take(i));
    assert(longer[i] == accesses[i]);
    assert forall|j: int| i < j < longer.len() && (#[trigger] longer[j]).0 == key implies {
        let earlier = CacheState::empty().after_accesses(longer.take(j));
        earlier.hits(key) && earlier.found(key) == bind_group
    } by {
        assert(longer.take(j) =~= accesses.take(j));
        if j < accesses.len() {
            assert(longer[j] == accesses[j]);
        } else {
            assert(accesses.take(j) =~= accesses);
        }
    }
}

/// Whatever a cache holds after a run was made for its key.
proof fn lemma_held_was_made(accesses: Seq<(u64, BindGroup)>, key: u64)
    requires
        CacheState::empty().after_accesses(accesses).entries.contains_key(key),
    ensures
        made_for(
            accesses,
            key,
            CacheState::empty().after_accesses(accesses).entries[key].bind_group,
        ),
    decreases accesses.len(),
{
    if accesses.len() > 0 {
        let shorter = accesses.drop_last();
        let before = CacheState::empty().after_accesses(shorter);
        let (last_key, made) = accesses.last();
        assert(accesses =~= shorter.push(accesses.last()));
        law_runs_are_accesses_in_turn(CacheState::empty(), shorter, last_key, made);
        if last_key != key || before.hits(key) {
            assert(before.entries.contains_key(key));
            lemma_held_was_made(shorter, key);
            lemma_made_for_longer_run(
                shorter,
                key,
                before.entries[key].bind_group,
                accesses.last(),
            );
        } else {
            let last = accesses.len() - 1;
            assert(accesses.take(last) =~= shorter);
            assert(accesses[last] == (key, made));
        }
    }
}

/// An access finds a bind group only if its very key was asked for before: in a
/// cache that starts out empty, what a run lets the next access find was made for
/// that key, by an access of the run that found none, and handed out by every
/// access to the key since. A key that was not asked for is a miss.
pub proof fn law_found_was_made_for_its_key(accesses: Seq<(u64, BindGroup)>, key: u64)
    ensures
        ({
            let state = CacheState::empty().after_accesses(accesses);
            state.hits(key) ==> exists|i: int|
                {
                    &&& 0 <= i < accesses.len()
                    &&& (#[trigger] accesses[i]) == (key, state.found(key))
                    &&& !CacheState::empty().after_accesses(accesses.take(i)).hits(key)
                    &&& forall|j: int|
                        i < j < accesses.len() && (#[trigger] accesses[j]).0 == key ==> {
                            let earlier = CacheState::empty().after_accesses(accesses.take(j));
                            earlier.hits(key) && earlier.found(key) == state.found(key)
                        }
                }
        }),
{
    let state = CacheState::empty().after_accesses(accesses);
    if state.hits(key) {
        assert(state.entries.contains_key(key));
        lemma_held_was_made(accesses, key);
    }
}

/// A run that does not overflow does not overflow on the way either.
proof fn lemma_shorter_run(state: CacheState, accesses: Seq<(u64, BindGroup)>)
    requires
        accesses.len() > 0,
        !state.overflows_during(accesses),
    ensures
        !state.overflows_during(accesses.drop_last()),
        !state.after_accesses(accesses.drop_last()).overflows(accesses.last().0),
{
    let shorter = accesses.drop_last();
    assert forall|i: int| 0 <= i < shorter.len() implies !state.after_accesses(
        shorter.take(i),
    ).overflows((#[trigger] shorter[i]).0) by {
        assert(shorter.take(i) =~= accesses.take(i));
        assert(shorter[i] == accesses[i]);
    }
    assert(accesses.take(accesses.len() - 1) =~= shorter);
    assert(accesses[accesses.len() - 1] == accesses.last());
}

/// An entry of the current epoch outlasts as many accesses as an epoch has.
proof fn lemma_entry_outlasts(state: CacheState, key: u64, accesses: Seq<(u64, BindGroup)>)
    requires
        state.valid(),
        state.entries.contains_key(key),
        state.entries[key].epoch == state.epoch,
        accesses.len() <= state.epoch_len(),
        state.access_count + accesses.len() <= u64::MAX,
        !state.overflows_during(accesses),
    ensures
        ({
            let after = state.after_accesses(accesses);
            &&& after.entries.contains_key(key)
            &&& after.entries[key].bind_group == state.entries[key].bind_group
            &&& after.entries[key].epoch >= state.epoch
            &&& state.epoch <= after.epoch <= state.epoch + 1
            &&& after.epoch > state.epoch ==> after.epoch_start > state.access_count
            &&& after.epoch_len() >= state.epoch_len()
        }),
    decreases accesses.len(),
{
    if accesses.len() > 0 {
        let shorter = accesses.drop_last();
        let before = state.after_accesses(shorter);
        let (last_key, made) = accesses.last();
        let handed = before.handed_out(last_key, made);
        lemma_shorter_run(state, accesses);
        lemma_entry_outlasts(state, key, shorter);
        law_accesses_keep_valid(state, shorter);
        law_access_keeps_valid(before, last_key);
        lemma_stored_entries(before, last_key, handed);
        law_first_epoch_sets_the_length(before, last_key, handed);
        assert(before.before_lookup(last_key).entries.contains_key(key));
    }
}

/// A bind group that was handed out is handed out again for the same key, by
/// any of as many accesses as the epoch lasts, unless the cache overflowed.
pub proof fn law_recent_bind_group_is_reused(
    state: CacheState,
    key: u64,
    bind_group: BindGroup,
    accesses: Seq<(u64, BindGroup)>,
)
    requires
        state.valid(),
        accesses.len() < state.after_access(key, bind_group).epoch_len(),
        state.access_count + 1 + accesses.len() <= u64::MAX,
        !state.overflows(key),
        !state.after_access(key, bind_group).overflows_during(accesses),
    ensures
        ({
            let later = state.after_access(key, bind_group).after_accesses(accesses);
            later.hits(key) && later.found(key) == bind_group
        }),
{
    law_access_keeps_valid(state, key);
    law_access_stores_or_clears(state, key, bind_group);
    let start = state.after_access(key, bind_group);
    lemma_entry_outlasts(start, key, accesses);
    law_accesses_keep_valid(start, accesses);
}

/// While its key is not asked for, an entry is held through the epoch in which
/// it was last asked for and the next one, and no longer.
proof fn lemma_unused_entry(state: CacheState, key: u64, accesses: Seq<(u64, BindGroup)>)
    requires
        state.valid(),
        state.entries.contains_key(key),
        state.entries[key].epoch == state.epoch,
        state.access_count + accesses.len() <= u64::MAX,
        forall|i: int| 0 <= i < accesses.len() ==> (#[trigger] accesses[i]).0 != key,
        !state.overflows_during(accesses),
    ensures
        ({
            let after = state.after_accesses(accesses);
            &&& after.entries.contains_key(key) <==> after.epoch <= state.epoch + 1
            &&& after.entries.contains_key(key) ==> after.entries[key] == state.entries[key]
            &&& after.epoch >= state.epoch
        }),
    decreases accesses.len(),
{
    if accesses.len() > 0 {
        let shorter = accesses.drop_last();
        let before = state.after_accesses(shorter);
        let (last_key, made) = accesses.last();
        lemma_shorter_run(state, accesses);
        lemma_unused_entry(state, key, shorter);
        law_accesses_keep_valid(state, shorter);
        lemma_stored_entries(before, last_key, before.handed_out(last_key, made));
        assert(accesses[accesses.len() - 1].0 != key);
    }
}

/// An entry lives through its own epoch and the next one: if its key is not
/// asked for and the cache does not overflow, the bind group is found again
/// exactly as long as the epoch is at most the one after it was handed out.
pub proof fn law_entry_lives_two_epochs(
    state: CacheState,
    key: u64,
    bind_group: BindGroup,
    accesses: Seq<(u64, BindGroup)>,
)
    requires
        state.valid(),
        state.access_count + 1 + accesses.len() <= u64::MAX,
        forall|i: int| 0 <= i < accesses.len() ==> (#[trigger] accesses[i]).0 != key,
        !state.overflows(key),
        !state.after_access(key, bind_group).overflows_during(accesses),
    ensures
        ({
            let start = state.after_access(key, bind_group);
            let later = start.after_accesses(accesses);
            &&& later.hits(key) <==> later.before_lookup(key).epoch <= start.epoch + 1
            &&& later.hits(key) ==> later.found(key) == bind_group
        }),
{
    law_access_keeps_valid(state, key);
    law_access_stores_or_clears(state, key, bind_group);
    let start = state.after_access(key, bind_group);
    lemma_unused_entry(start, key, accesses);
    law_accesses_keep_valid(start, accesses);
}

/// Accesses to other keys do not renew an entry, and an epoch after the first
/// does not outlast its length.
proof fn lemma_unused_entry_ages(state: CacheState, key: u64, accesses: Seq<(u64, BindGroup)>)
    requires
        state.valid(),
        state.epoch > 0,
        state.access_count + accesses.len() <= u64::MAX,
        forall|i: int| 0 <= i < accesses.len() ==> (#[trigger] accesses[i]).0 != key,
    ensures
        ({
            let after = state.after_accesses(accesses);
            &&& after.entries.contains_key(key) ==> after.entries[key].epoch <= state.epoch
            &&& after.accesses_first_epoch == state.accesses_first_epoch
            &&& after.epoch >= state.epoch
            &&& after.epoch == state.epoch ==> after.epoch_start == state.epoch_start
            &&& after.epoch == state.epoch + 1 ==> after.epoch_start == state.epoch_start
                + state.accesses_first_epoch
        }),
    decreases accesses.len(),
{
    if accesses.len() > 0 {
        lemma_unused_entry_ages(state, key, accesses.drop_last());
        law_accesses_keep_valid(state, accesses.drop_last());
        assert(accesses[accesses.len() - 1].0 != key);
    }
}

/// Once the first epoch is over, a bind group that is not asked for during
/// twice as many accesses as an epoch has is no longer held.
pub proof fn law_unused_bind_group_is_dropped(
    state: CacheState,
    key: u64,
    accesses: Seq<(u64, BindGroup)>,
)
    requires
        state.valid(),
        state.epoch > 0,
        state.access_count + accesses.len() <= u64::MAX,
        accesses.len() >= 2 * state.epoch_len(),
        forall|i: int| 0 <= i < accesses.len() ==> (#[trigger] accesses[i]).0 != key,
    ensures
        !state.after_accesses(accesses).entries.contains_key(key),
{
    law_accesses_keep_valid(state, accesses);
    lemma_unused_entry_ages(state, key, accesses);
}

/// The key at a place of a frame did not come up earlier in the frame.
pub open spec fn new_at(frame: Seq<u64>, place: int) -> bool {
    !frame.take(place).contains(frame[place])
}

/// A frame that the first epoch can measure: it has no more different keys than
/// the cache holds, and from its `MIN_EPOCH_LEN`-th access on every key is new.
pub open spec fn measurable_frame(frame: Seq<u64>) -> bool {
    &&& 0 < frame.len()
    &&& frame.to_set().len() <= BIND_GROUP_CACHE_MAX_ENTRIES
    &&& forall|i: int| MIN_EPOCH_LEN - 1 <= i < frame.len() ==> #[trigger] new_at(frame, i)
}

/// A run of accesses that asks for the keys of a frame over and over.
pub open spec fn repeats_frame(frame: Seq<u64>, accesses: Seq<(u64, BindGroup)>) -> bool {
    forall|j: int|
        0 <= j < accesses.len() ==> (#[trigger] accesses[j]).0 == frame[j % (frame.len() as int)]
}

/// `bind_group` is what was made when `key` first came up in the frame.
spec fn made_first(
    frame: Seq<u64>,
    accesses: Seq<(u64, BindGroup)>,
    key: u64,
    bind_group: BindGroup,
) -> bool {
    forall|i: int|
        0 <= i < frame.len() && i < accesses.len() && frame[i] == key && #[trigger] new_at(frame, i)
            ==> bind_group == accesses[i].1
}

/// What a cache is like after a run that repeats a frame: it holds the bind
/// groups of the last frame's worth of accesses, none of them due to be dropped,
/// and nothing else.
spec fn holds_frame(frame: Seq<u64>, accesses: Seq<(u64, BindGroup)>, state: CacheState) -> bool {
    let f = frame.len() as int;
    let n = accesses.len() as int;
    &&& state.entries.dom().subset_of(frame.take(if n < f { n } else { f }).to_set())
    &&& n <= f ==> state.epoch == 0
    &&& state.epoch > 0 ==> state.accesses_first_epoch >= f
    &&& forall|j: int|
        0 <= j < n && n - f <= j ==> {
            let key = (#[trigger] accesses[j]).0;
            &&& state.entries.contains_key(key)
            &&& made_first(frame, accesses, key, state.entries[key].bind_group)
            &&& state.entries[key].epoch >= state.epoch - 1
            &&& j + 1 >= state.epoch_start ==> state.entries[key].epoch == state.epoch
        }
}

/// What the next access of a repeated frame finds.
proof fn lemma_frame_lookup(
    frame: Seq<u64>,
    accesses: Seq<(u64, BindGroup)>,
    state: CacheState,
    key: u64,
)
    requires
        measurable_frame(frame),
        repeats_frame(frame, accesses),
        state.valid(),
        state.access_count == accesses.len() < u64::MAX,
        holds_frame(frame, accesses, state),
        key == frame[accesses.len() as int % (frame.len() as int)],
    ensures
        state.hits(key) <==> accesses.len() >= frame.len() || !new_at(
            frame,
            accesses.len() as int,
        ),
        state.hits(key) ==> made_first(frame, accesses, key, state.found(key)),
        !state.overflows(key),
        accesses.len() < frame.len() ==> state.before_lookup(key).epoch == 0,
        forall|j: int|
            0 <= j < accesses.len() && accesses.len() - frame.len() <= j
                ==> state.before_lookup(key).entries.contains_key((#[trigger] accesses[j]).0),
{
    let f = frame.len() as int;
    let n = accesses.len() as int;
    if n < f {
        vstd::arithmetic::div_mod::lemma_small_mod(n as nat, f as nat);
        if new_at(frame, n) {
            assert(!state.entries.contains_key(key));
            assert forall|k: u64| state.entries.contains_key(k) implies frame.to_set().remove(
                key,
            ).contains(k) by {
                assert(frame.take(n).contains(k));
                assert(frame.contains(k));
            }
            assert(frame.to_set().contains(key));
            vstd::seq_lib::seq_to_set_is_finite(frame);
            vstd::set_lib::lemma_len_subset(state.entries.dom(), frame.to_set().remove(key));
        } else {
            let i = frame.take(n).index_of(key);
            assert(frame[i] == key);
            vstd::arithmetic::div_mod::lemma_small_mod(i as nat, f as nat);
            assert(accesses[i].0 == key);
        }
    } else {
        vstd::arithmetic::div_mod::lemma_mod_sub_multiples_vanish(n, f);
        assert((n - f) % f == n % f);
        assert(accesses[n - f].0 == key);
    }
}

/// An access of a repeated frame keeps what the cache is like.
proof fn lemma_frame_access(
    frame: Seq<u64>,
    accesses: Seq<(u64, BindGroup)>,
    state: CacheState,
    made: BindGroup,
)
    requires
        measurable_frame(frame),
        repeats_frame(frame, accesses),
        state.valid(),
        state.access_count == accesses.len() < u64::MAX,
        holds_frame(frame, accesses, state),
    ensures
        ({
            let key = frame[accesses.len() as int % (frame.len() as int)];
            holds_frame(
                frame,
                accesses.push((key, made)),
                state.after_access(key, state.handed_out(key, made)),
            )
        }),
{
    let f = frame.len() as int;
    let n = accesses.len() as int;
    let key = frame[n % f];
    let longer = accesses.push((key, made));
    let handed = state.handed_out(key, made);
    let after = state.after_access(key, handed);
    lemma_frame_lookup(frame, accesses, state, key);
    lemma_stored_entries(state, key, handed);
    law_access_keeps_valid(state, key);
    law_access_stores_or_clears(state, key, handed);
    if n < f {
        vstd::arithmetic::div_mod::lemma_small_mod(n as nat, f as nat);
    }
    let upto = frame.take(if n < f { n } else { f });
    let upto_next = frame.take(if n + 1 < f { n + 1 } else { f });
    assert forall|k: u64| after.entries.contains_key(k) implies upto_next.to_set().contains(k) by {
        if k == key {
            assert(upto_next[n % f] == key);
        } else {
            assert(upto.contains(k));
            let i = upto.index_of(k);
            assert(upto_next[i] == k);
        }
    }
    // Whatever was made first stays so: a place that the longer run reaches for
    // the first time is new only for the key that is asked for now.
    assert forall|k: u64, group: BindGroup| #[trigger] made_first(frame, accesses, k, group) && (k
        != key || n >= f || !new_at(frame, n)) implies made_first(frame, longer, k, group) by {
        assert forall|i: int|
            0 <= i < f && i < n + 1 && frame[i] == k && #[trigger] new_at(frame, i) implies group
            == longer[i].1 by {
            assert(i < n);
            assert(longer[i] == accesses[i]);
        }
    }
    if n < f && new_at(frame, n) {
        assert(handed == made);
        assert forall|i: int|
            0 <= i < f && i < n + 1 && frame[i] == key && #[trigger] new_at(frame, i) implies handed
            == longer[i].1 by {
            if i < n {
                assert(frame.take(n)[i] == key);
            }
        }
        assert(made_first(frame, longer, key, handed));
    } else {
        assert(made_first(frame, longer, key, handed));
    }
    assert forall|j: int| 0 <= j < n + 1 && n + 1 - f <= j implies {
        let k = (#[trigger] longer[j]).0;
        &&& after.entries.contains_key(k)
        &&& made_first(frame, longer, k, after.entries[k].bind_group)
        &&& after.entries[k].epoch >= after.epoch - 1
        &&& j + 1 >= after.epoch_start ==> after.entries[k].epoch == after.epoch
    } by {
        if j < n {
            assert(longer[j] == accesses[j]);
            if accesses[j].0 != key {
                assert(made_first(
                    frame,
                    accesses,
                    accesses[j].0,
                    state.entries[accesses[j].0].bind_group,
                ));
            }
        }
    }
}

/// A cache that starts out empty is like that after any run that repeats a frame.
proof fn lemma_frames(frame: Seq<u64>, accesses: Seq<(u64, BindGroup)>)
    requires
        measurable_frame(frame),
        repeats_frame(frame, accesses),
        accesses.len() <= u64::MAX,
    ensures
        holds_frame(frame, accesses, CacheState::empty().after_accesses(accesses)),
    decreases accesses.len(),
{
    if accesses.len() > 0 {
        let shorter = accesses.drop_last();
        assert forall|j: int| 0 <= j < shorter.len() implies (#[trigger] shorter[j]).0 == frame[j % (
        frame.len() as int)] by {
            assert(shorter[j] == accesses[j]);
        }
        lemma_frames(frame, shorter);
        law_accesses_keep_valid(CacheState::empty(), shorter);
        lemma_frame_access(
            frame,
            shorter,
            CacheState::empty().after_accesses(shorter),
            accesses.last().1,
        );
        assert(accesses[accesses.len() - 1] == accesses.last());
        assert(accesses =~= shorter.push(accesses.last()));
    } else {
        assert(CacheState::empty().entries.dom() =~= Set::empty());
    }
}

/// The place where a key of a frame first comes up.
proof fn lemma_first_place(frame: Seq<u64>, place: int) -> (first: int)
    requires
        0 <= place < frame.len(),
    ensures
        0 <= first <= place,
        frame[first] == frame[place],
        new_at(frame, first),
        !new_at(frame, place) ==> first < place,
    decreases place,
{
    if new_at(frame, place) {
        place
    } else {
        let earlier = frame.take(place).index_of(frame[place]);
        lemma_first_place(frame, earlier)
    }
}

/// Identical bind groups are not created anew every frame: in a cache that
/// starts out empty, when the keys of a frame are asked for frame after frame,
/// each bind group is made when its key first comes up in the first frame, and
/// every other access finds that one.
pub proof fn law_later_frames_create_nothing(frame: Seq<u64>, accesses: Seq<(u64, BindGroup)>)
    requires
        measurable_frame(frame),
        repeats_frame(frame, accesses),
        accesses.len() < u64::MAX,
    ensures
        ({
            let state = CacheState::empty().after_accesses(accesses);
            let key = frame[accesses.len() as int % (frame.len() as int)];
            &&& state.hits(key) <==> accesses.len() >= frame.len() || !new_at(
                frame,
                accesses.len() as int,
            )
            &&& state.hits(key) ==> exists|i: int|
                0 <= i < frame.len() && i < accesses.len() && frame[i] == key && #[trigger] new_at(
                    frame,
                    i,
                ) && state.found(key) == accesses[i].1
        }),
{
    let place = accesses.len() as int % (frame.len() as int);
    let first = lemma_first_place(frame, place);
    if accesses.len() < frame.len() {
        vstd::arithmetic::div_mod::lemma_small_mod(accesses.len(), frame.len());
    }
    lemma_frames(frame, accesses);
    law_accesses_keep_valid(CacheState::empty(), accesses);
    lemma_frame_lookup(
        frame,
        accesses,
        CacheState::empty().after_accesses(accesses),
        frame[place],
    );
    assert(new_at(frame, first));
}

} // verus!
