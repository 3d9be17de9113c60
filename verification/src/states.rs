//! The state log: which snapshots of the dataset were imported in full.
//! Entries are only ever appended; the entry with the latest time is the
//! current state.
//!
//! [`StateLog`] keeps its entries in memory, and what this module proves
//! it proves of that log. A new entry is the current one only if the
//! clock has not gone back behind the entries that are there.

use vstd::prelude::*;
use crate::manifest::StateInfo;
use crate::models::{NewState, State, StateView};
use crate::outside::{fresh_id, is_random_id, now_micros};

verus! {

/// What each entry of a list holds.
pub open spec fn state_views(entries: Seq<State>) -> Seq<StateView> {
    Seq::new(entries.len(), |i: int| entries[i]@)
}

/// The current state of a log: the entry with the latest time, and of
/// several with that time the one appended last. An empty log has none.
pub open spec fn latest(entries: Seq<StateView>) -> Option<StateView>
    decreases entries.len(),
{
    if entries.len() == 0 {
        None
    } else {
        match latest(entries.drop_last()) {
            Some(before) => if before.processed_at > entries.last().processed_at {
                Some(before)
            } else {
                Some(entries.last())
            },
            None => Some(entries.last()),
        }
    }
}

/// The current state is an entry of the log, and no entry has a later
/// time. Only an empty log has no current state.
pub proof fn lemma_latest_is_maximum(entries: Seq<StateView>)
    ensures
        latest(entries) is None <==> entries.len() == 0,
        latest(entries) matches Some(current) ==> (exists|i: int|
            0 <= i < entries.len() && #[trigger] entries[i] == current) && forall|i: int|
            0 <= i < entries.len() ==> (#[trigger] entries[i]).processed_at
                <= current.processed_at,
    decreases entries.len(),
{
    if entries.len() > 0 {
        let head = entries.drop_last();
        lemma_latest_is_maximum(head);
        let current = latest(entries)->0;
        if current == entries.last() {
            assert(entries[entries.len() - 1] == current);
        } else {
            let i = choose|i: int| 0 <= i < head.len() && #[trigger] head[i] == current;
            assert(entries[i] == current);
        }
        assert forall|i: int| 0 <= i < entries.len() implies (#[trigger] entries[i]).processed_at
            <= current.processed_at by {
            if i < head.len() {
                assert(head[i] == entries[i]);
            }
        }
    }
}

/// The state log.
pub struct StateLog {
    entries: Vec<State>,
}

impl View for StateLog {
    type V = Seq<StateView>;

    closed spec fn view(&self) -> Seq<StateView> {
        state_views(self.entries@)
    }
}

impl StateLog {
    /// A log without entries.
    pub fn new() -> (log: Self)
        ensures
            log@ == Seq::<StateView>::empty(),
    {
        let log = StateLog { entries: Vec::new() };
        assert(log@ =~= Seq::<StateView>::empty());
        log
    }

    /// The number of entries.
    pub fn len(&self) -> (count: usize)
        ensures
            count == self@.len(),
    {
        self.entries.len()
    }

    /// The entries, in the order in which they were appended.
    pub fn entries(&self) -> (entries: &Vec<State>)
        ensures
            state_views(entries@) == self@,
    {
        &self.entries
    }

    /// Appends an entry. No entry of the log is changed or removed.
    pub fn append(&mut self, new: &NewState)
        ensures
            final(self)@ == old(self)@.push(new@),
    {
        self.entries.push(
            State {
                id: new.id,
                hash: new.hash.to_owned(),
                version: new.version.to_owned(),
                processed_at: new.processed_at,
            },
        );
        assert(self@ =~= old(self)@.push(new@));
    }
}

/// The current state: the entry of the log with the latest time.
pub fn current_state(log: &StateLog) -> (current: Option<State>)
    ensures
        match current {
            Some(state) => latest(log@) == Some(state@),
            None => latest(log@) is None,
        },
{
    let entries = log.entries();
    let ghost views = log@;
    let mut best: Option<usize> = None;
    let mut at: usize = 0;
    assert(views.take(0) =~= Seq::<StateView>::empty());
    while at < entries.len()
        invariant
            at <= entries.len(),
            views == log@,
            state_views(entries@) == views,
            match best {
                Some(b) => b < at && latest(views.take(at as int)) == Some(views[b as int]),
                None => latest(views.take(at as int)) is None,
            },
        decreases entries.len() - at,
    {
        proof {
            let longer = views.take(at as int + 1);
            assert(longer.drop_last() =~= views.take(at as int));
            assert(longer.last() == views[at as int]);
            assert(views[at as int] == entries@[at as int]@);
            if best is Some {
                assert(views[best->0 as int] == entries@[best->0 as int]@);
            }
        }
        let later = match best {
            Some(b) => !(entries[b].processed_at > entries[at].processed_at),
            None => true,
        };
        if later {
            best = Some(at);
        }
        at += 1;
    }
    assert(views.take(at as int) =~= views);
    match best {
        Some(b) => {
            assert(views[b as int] == entries@[b as int]@);
            Some(entries[b].clone())
        },
        None => None,
    }
}

/// What the log holds of a snapshot once its import is recorded: the
/// entries that it had, and after them one with the hash and version of
/// the snapshot, under the number of a random UUID. The time of the entry
/// is that of the clock, of which nothing is known.
pub open spec fn recorded(before: Seq<StateView>, after: Seq<StateView>, hash: Seq<char>, version: Seq<char>) -> bool {
    &&& after.len() == before.len() + 1
    &&& after.drop_last() == before
    &&& after.last().hash == hash
    &&& after.last().version == version
    &&& is_random_id(after.last().id)
}

/// The entry that records the import of the snapshot `state_info`: its
/// hash and version, under a fresh identifier and with the present time.
pub fn new_state<'a>(state_info: &'a StateInfo) -> (entry: NewState<'a>)
    ensures
        entry@.hash == state_info@.hash,
        entry@.version == state_info@.version,
        is_random_id(entry@.id),
{
    NewState {
        id: fresh_id(),
        hash: state_info.hash.as_str(),
        version: state_info.version.as_str(),
        processed_at: now_micros(),
    }
}

/// Records that the snapshot `state_info` was imported: appends the
/// entry that [`new_state`] makes. Returns the number of entries
/// appended, which is one.
pub fn create_new_state(log: &mut StateLog, state_info: &StateInfo) -> (count: usize)
    ensures
        recorded(old(log)@, final(log)@, state_info@.hash, state_info@.version),
        count == 1,
{
    let entry = new_state(state_info);
    log.append(&entry);
    assert(log@.drop_last() =~= old(log)@);
    1
}

} // verus!
