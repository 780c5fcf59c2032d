//! The roster of an event: its scenarios, which of them are done, and who
//! has reserved which for how long.

use crate::error::EngineError;
use crate::lemmas::{filter_agrees, filter_is_monotonic, filter_keeps_members, filter_of_nothing, filter_take_step};
use crate::progress::Progress;
use crate::sampling::{draw, drawing, drawing_is_listing, drawn_from, is_listing, is_sample};
use vstd::prelude::*;

verus! {

/// The time for which a reservation holds unless the deployment says
/// otherwise: two hours, in seconds.
pub const LEASE_TTL: u64 = 7200;

/// A reservation: who holds it, and since which second.
#[derive(Clone, Copy, Debug, PartialEq, Eq)]
pub struct Lease {
    pub since: i64,
    pub user_id: i64,
}

/// One scenario on the roster of one event.
#[derive(Clone, Copy, Debug, PartialEq, Eq)]
pub struct RosterEntry {
    pub event_id: i64,
    pub scenario_id: i64,
    pub complete: bool,
    pub checkout: Option<Lease>,
    pub updated_at: i64,
}

/// What can be done with an entry at a given time.
#[derive(Clone, Copy, Debug, PartialEq, Eq)]
pub enum EntryState {
    /// Not done and not reserved: it can be claimed.
    Open,
    /// Reserved by `by` until the second `expires_at`.
    Leased { by: i64, expires_at: i128 },
    /// Done, for good.
    Completed,
}

/// How a claim ended.
#[derive(Clone, Copy, Debug, PartialEq, Eq)]
pub enum ClaimOutcome {
    /// The entry is now reserved for the claimant.
    Claimed,
    /// Somebody holds the entry; nothing was changed.
    AlreadyLeased { by: i64, expires_at: i128 },
    /// The entry is done and takes no more reservations; nothing was changed.
    AlreadyCompleted,
}

/// Whether a reservation made at `since` has run out at `now`: it has once
/// `ttl` seconds have passed.
pub open spec fn expired(since: int, now: int, ttl: int) -> bool {
    now - since >= ttl
}

impl RosterEntry {
    /// The entry as it is when a scenario is put on a roster.
    pub open spec fn fresh(event_id: i64, scenario_id: i64, now: i64) -> RosterEntry {
        RosterEntry { event_id, scenario_id, complete: false, checkout: None, updated_at: now }
    }

    /// Whether this is the entry of that scenario in that event.
    pub open spec fn is_for(self, event_id: i64, scenario_id: i64) -> bool {
        self.event_id == event_id && self.scenario_id == scenario_id
    }

    /// The state of the entry at `now`, worked out from what is stored: no
    /// sweep ever clears a reservation that has run out.
    pub open spec fn state(self, now: i64, ttl: u64) -> EntryState {
        if self.complete {
            EntryState::Completed
        } else {
            match self.checkout {
                Some(lease) => if expired(lease.since as int, now as int, ttl as int) {
                    EntryState::Open
                } else {
                    EntryState::Leased {
                        by: lease.user_id,
                        expires_at: (lease.since + ttl) as i128,
                    }
                },
                None => EntryState::Open,
            }
        }
    }

    /// Whether the entry shows in the listing of an event at `now`.
    pub open spec fn available_in(self, event_id: i64, now: i64, ttl: u64) -> bool {
        self.event_id == event_id && self.state(now, ttl) == EntryState::Open
    }

    /// Whether a listing of the event shows the entry at `now`. A listing
    /// may leave out what is done, and what is held under a reservation
    /// that still runs.
    pub open spec fn listed_in(
        self,
        event_id: i64,
        exclude_completed: bool,
        exclude_leased: bool,
        now: i64,
        ttl: u64,
    ) -> bool {
        &&& self.event_id == event_id
        &&& exclude_completed ==> !self.complete
        &&& exclude_leased ==> !(self.checkout matches Some(lease) && !expired(
            lease.since as int,
            now as int,
            ttl as int,
        ))
    }

    /// The entry, reserved for `user_id` from `now` on.
    pub open spec fn leased_to(self, user_id: i64, now: i64) -> RosterEntry {
        RosterEntry {
            checkout: Some(Lease { since: now, user_id }),
            updated_at: now,
            ..self
        }
    }

    /// The entry, done at `now`.
    pub open spec fn done_at(self, now: i64) -> RosterEntry {
        RosterEntry { complete: true, updated_at: now, ..self }
    }

    /// The state of the entry at `now`.
    pub fn current_state(&self, now: i64, ttl: u64) -> (state: EntryState)
        ensures
            state == self.state(now, ttl),
    {
        if self.complete {
            return EntryState::Completed;
        }
        match self.checkout {
            Some(lease) => {
                let age: i128 = (now as i128) - (lease.since as i128);
                if age >= ttl as i128 {
                    EntryState::Open
                } else {
                    EntryState::Leased {
                        by: lease.user_id,
                        expires_at: (lease.since as i128) + (ttl as i128),
                    }
                }
            },
            None => EntryState::Open,
        }
    }
}

/// Whether `i` is the first place of `entries` that holds the entry of that
/// scenario in that event.
pub open spec fn is_place(entries: Seq<RosterEntry>, event_id: i64, scenario_id: i64, i: int) -> bool {
    &&& 0 <= i < entries.len()
    &&& entries[i].is_for(event_id, scenario_id)
    &&& forall|j: int| 0 <= j < i ==> !(#[trigger] entries[j]).is_for(event_id, scenario_id)
}

/// The place of the entry of that scenario in that event, if it has one.
pub open spec fn place(entries: Seq<RosterEntry>, event_id: i64, scenario_id: i64) -> Option<int> {
    if exists|i: int| is_place(entries, event_id, scenario_id, i) {
        Some(choose|i: int| is_place(entries, event_id, scenario_id, i))
    } else {
        None
    }
}

/// Whether no scenario is on the roster of one event twice.
pub open spec fn unique_keys(entries: Seq<RosterEntry>) -> bool {
    forall|i: int, j: int|
        0 <= i < j < entries.len() ==> !(#[trigger] entries[i]).is_for(
            (#[trigger] entries[j]).event_id,
            entries[j].scenario_id,
        )
}

/// The roster after the scenario was put on it: as it was where the scenario
/// stood on it already, and longer by one fresh entry where it did not.
pub open spec fn after_enroll(
    entries: Seq<RosterEntry>,
    event_id: i64,
    scenario_id: i64,
    now: i64,
) -> Seq<RosterEntry> {
    if place(entries, event_id, scenario_id) is Some {
        entries
    } else {
        entries.push(RosterEntry::fresh(event_id, scenario_id, now))
    }
}

/// What a claim made at `now` answers.
pub open spec fn claim_result(
    entries: Seq<RosterEntry>,
    event_id: i64,
    scenario_id: i64,
    now: i64,
    ttl: u64,
) -> Result<ClaimOutcome, EngineError> {
    match place(entries, event_id, scenario_id) {
        None => Err(EngineError::NotFound),
        Some(i) => Ok(
            match entries[i].state(now, ttl) {
                EntryState::Open => ClaimOutcome::Claimed,
                EntryState::Leased { by, expires_at } => ClaimOutcome::AlreadyLeased {
                    by,
                    expires_at,
                },
                EntryState::Completed => ClaimOutcome::AlreadyCompleted,
            },
        ),
    }
}

/// The roster after a claim made at `now` by `user_id`: the entry is
/// reserved where it was open, and nothing is changed where it was not.
pub open spec fn after_claim(
    entries: Seq<RosterEntry>,
    event_id: i64,
    scenario_id: i64,
    user_id: i64,
    now: i64,
    ttl: u64,
) -> Seq<RosterEntry> {
    match place(entries, event_id, scenario_id) {
        Some(i) => if entries[i].state(now, ttl) == EntryState::Open {
            entries.update(i, entries[i].leased_to(user_id, now))
        } else {
            entries
        },
        None => entries,
    }
}

/// What marking the scenario as done answers: whether it was done before.
pub open spec fn complete_result(
    entries: Seq<RosterEntry>,
    event_id: i64,
    scenario_id: i64,
) -> Result<bool, EngineError> {
    match place(entries, event_id, scenario_id) {
        None => Err(EngineError::NotFound),
        Some(i) => Ok(entries[i].complete),
    }
}

/// The roster after the scenario was marked as done at `now`: an entry that
/// was done already is left as it was.
pub open spec fn after_complete(
    entries: Seq<RosterEntry>,
    event_id: i64,
    scenario_id: i64,
    now: i64,
) -> Seq<RosterEntry> {
    match place(entries, event_id, scenario_id) {
        Some(i) => if entries[i].complete {
            entries
        } else {
            entries.update(i, entries[i].done_at(now))
        },
        None => entries,
    }
}

/// Whether every entry of `before` still stands at its place in `after`,
/// for the same scenario and event, and done if it was done.
pub open spec fn keeps_completions(before: Seq<RosterEntry>, after: Seq<RosterEntry>) -> bool {
    &&& before.len() <= after.len()
    &&& forall|i: int|
        0 <= i < before.len() ==> {
            &&& (#[trigger] after[i]).event_id == before[i].event_id
            &&& after[i].scenario_id == before[i].scenario_id
            &&& before[i].complete ==> after[i].complete
        }
}

/// The entries of one event.
pub open spec fn of_event(event_id: i64) -> spec_fn(RosterEntry) -> bool {
    |entry: RosterEntry| entry.event_id == event_id
}

/// The entries of one event that are done.
pub open spec fn done_of_event(event_id: i64) -> spec_fn(RosterEntry) -> bool {
    |entry: RosterEntry| entry.event_id == event_id && entry.complete
}

/// The entries of one event that can be claimed at `now`.
pub open spec fn available_of_event(event_id: i64, now: i64, ttl: u64) -> spec_fn(
    RosterEntry,
) -> bool {
    |entry: RosterEntry| entry.available_in(event_id, now, ttl)
}

/// The entries of one event that a listing shows at `now`.
pub open spec fn listed_of_event(
    event_id: i64,
    exclude_completed: bool,
    exclude_leased: bool,
    now: i64,
    ttl: u64,
) -> spec_fn(RosterEntry) -> bool {
    |entry: RosterEntry| entry.listed_in(event_id, exclude_completed, exclude_leased, now, ttl)
}

/// A place has at most one first entry for a key: `place` names it.
pub proof fn place_is_determined(
    entries: Seq<RosterEntry>,
    event_id: i64,
    scenario_id: i64,
    i: int,
)
    requires
        is_place(entries, event_id, scenario_id, i),
    ensures
        place(entries, event_id, scenario_id) == Some(i),
{
    let k = choose|k: int| is_place(entries, event_id, scenario_id, k);
    assert(is_place(entries, event_id, scenario_id, k));
    if k < i {
        assert(!entries[k].is_for(event_id, scenario_id));
    } else if i < k {
        assert(!entries[i].is_for(event_id, scenario_id));
    }
}

/// Where no entry is for the key, `place` finds none.
pub proof fn place_is_none(entries: Seq<RosterEntry>, event_id: i64, scenario_id: i64)
    requires
        forall|j: int|
            0 <= j < entries.len() ==> !(#[trigger] entries[j]).is_for(event_id, scenario_id),
    ensures
        place(entries, event_id, scenario_id) is None,
{
    if exists|i: int| is_place(entries, event_id, scenario_id, i) {
        let k = choose|k: int| is_place(entries, event_id, scenario_id, k);
        assert(entries[k].is_for(event_id, scenario_id));
    }
}

/// The roster after each of the scenarios was put on it that did not stand
/// on it, one after the other.
pub open spec fn after_enroll_all(
    entries: Seq<RosterEntry>,
    event_id: i64,
    scenario_ids: Seq<i64>,
    now: i64,
) -> Seq<RosterEntry>
    decreases scenario_ids.len(),
{
    if scenario_ids.len() == 0 {
        entries
    } else {
        after_enroll(
            after_enroll_all(entries, event_id, scenario_ids.drop_last(), now),
            event_id,
            scenario_ids.last(),
            now,
        )
    }
}

/// The rosters of all events: one row for each scenario of each event.
pub struct Roster {
    pub entries: Vec<RosterEntry>,
}

impl View for Roster {
    type V = Seq<RosterEntry>;

    open spec fn view(&self) -> Seq<RosterEntry> {
        self.entries@
    }
}

impl Roster {
    /// Whether no scenario is on the roster of one event twice.
    pub open spec fn wf(&self) -> bool {
        unique_keys(self@)
    }

    /// A roster without entries.
    pub fn new() -> (roster: Self)
        ensures
            roster@.len() == 0,
            roster.wf(),
    {
        Roster { entries: Vec::new() }
    }

    /// The roster that holds `entries`, unless a scenario stands twice on
    /// the roster of one event.
    pub fn from_entries(entries: Vec<RosterEntry>) -> (roster: Option<Self>)
        ensures
            roster is Some <==> unique_keys(entries@),
            roster matches Some(r) ==> r@ == entries@,
    {
        let mut j: usize = 0;
        while j < entries.len()
            invariant
                j <= entries.len(),
                unique_keys(entries@.take(j as int)),
            decreases entries.len() - j,
        {
            let mut i: usize = 0;
            while i < j
                invariant
                    i <= j < entries.len(),
                    forall|k: int|
                        0 <= k < i ==> !(#[trigger] entries@[k]).is_for(
                            entries@[j as int].event_id,
                            entries@[j as int].scenario_id,
                        ),
                decreases j - i,
            {
                if entries[i].event_id == entries[j].event_id && entries[i].scenario_id
                    == entries[j].scenario_id {
                    return None;
                }
                i += 1;
            }
            assert(unique_keys(entries@.take(j + 1))) by {
                let longer = entries@.take(j + 1);
                let shorter = entries@.take(j as int);
                assert forall|a: int, b: int| 0 <= a < b < longer.len() implies !(
                #[trigger] longer[a]).is_for((#[trigger] longer[b]).event_id, longer[b].scenario_id) by {
                    if b < j {
                        assert(shorter[a] == longer[a] && shorter[b] == longer[b]);
                    }
                }
            }
            j += 1;
        }
        assert(entries@.take(entries@.len() as int) == entries@);
        Some(Roster { entries })
    }

    /// The place of the entry of that scenario in that event.
    pub fn position(&self, event_id: i64, scenario_id: i64) -> (found: Option<usize>)
        ensures
            match found {
                Some(i) => place(self@, event_id, scenario_id) == Some(i as int)
                    && is_place(self@, event_id, scenario_id, i as int),
                None => place(self@, event_id, scenario_id) is None,
            },
    {
        let mut i: usize = 0;
        while i < self.entries.len()
            invariant
                i <= self.entries.len(),
                forall|j: int|
                    0 <= j < i ==> !(#[trigger] self@[j]).is_for(event_id, scenario_id),
            decreases self.entries.len() - i,
        {
            if self.entries[i].event_id == event_id && self.entries[i].scenario_id == scenario_id {
                proof {
                    place_is_determined(self@, event_id, scenario_id, i as int);
                }
                return Some(i);
            }
            i += 1;
        }
        proof {
            place_is_none(self@, event_id, scenario_id);
        }
        None
    }

    /// Puts the scenario on the roster of the event, unless it stands there
    /// already. Says whether an entry was added.
    pub fn enroll(&mut self, event_id: i64, scenario_id: i64, now: i64) -> (added: bool)
        ensures
            added == (place(old(self)@, event_id, scenario_id) is None),
            final(self)@ == after_enroll(old(self)@, event_id, scenario_id, now),
            keeps_completions(old(self)@, final(self)@),
            old(self).wf() ==> final(self).wf(),
    {
        match self.position(event_id, scenario_id) {
            Some(_) => false,
            None => {
                self.entries.push(
                    RosterEntry {
                        event_id,
                        scenario_id,
                        complete: false,
                        checkout: None,
                        updated_at: now,
                    },
                );
                proof {
                    if old(self).wf() {
                        enroll_keeps_keys_unique(old(self)@, event_id, scenario_id, now);
                    }
                }
                true
            },
        }
    }

    /// Reserves the entry for `user_id` from `now` on, if it is there, not
    /// done, and not held under a reservation that still runs.
    pub fn claim(&mut self, event_id: i64, scenario_id: i64, user_id: i64, now: i64, ttl: u64) -> (outcome:
        Result<ClaimOutcome, EngineError>)
        ensures
            outcome == claim_result(old(self)@, event_id, scenario_id, now, ttl),
            final(self)@ == after_claim(old(self)@, event_id, scenario_id, user_id, now, ttl),
            keeps_completions(old(self)@, final(self)@),
            old(self).wf() ==> final(self).wf(),
    {
        match self.position(event_id, scenario_id) {
            None => Err(EngineError::NotFound),
            Some(i) => {
                let entry = self.entries[i];
                match entry.current_state(now, ttl) {
                    EntryState::Open => {
                        self.entries.set(
                            i,
                            RosterEntry {
                                event_id: entry.event_id,
                                scenario_id: entry.scenario_id,
                                complete: entry.complete,
                                checkout: Some(Lease { since: now, user_id }),
                                updated_at: now,
                            },
                        );
                        Ok(ClaimOutcome::Claimed)
                    },
                    EntryState::Leased { by, expires_at } => Ok(
                        ClaimOutcome::AlreadyLeased { by, expires_at },
                    ),
                    EntryState::Completed => Ok(ClaimOutcome::AlreadyCompleted),
                }
            },
        }
    }

    /// Marks the entry as done. Says whether it was done before: marking it
    /// again changes nothing and is no error.
    pub fn complete(&mut self, event_id: i64, scenario_id: i64, now: i64) -> (before: Result<
        bool,
        EngineError,
    >)
        ensures
            before == complete_result(old(self)@, event_id, scenario_id),
            final(self)@ == after_complete(old(self)@, event_id, scenario_id, now),
            keeps_completions(old(self)@, final(self)@),
            old(self).wf() ==> final(self).wf(),
    {
        match self.position(event_id, scenario_id) {
            None => Err(EngineError::NotFound),
            Some(i) => {
                let entry = self.entries[i];
                if entry.complete {
                    Ok(true)
                } else {
                    self.entries.set(
                        i,
                        RosterEntry {
                            event_id: entry.event_id,
                            scenario_id: entry.scenario_id,
                            complete: true,
                            checkout: entry.checkout,
                            updated_at: now,
                        },
                    );
                    Ok(false)
                }
            },
        }
    }

    /// Puts each of the scenarios on the roster of the event that does not
    /// stand there yet. Says how many entries were added.
    pub fn enroll_all(&mut self, event_id: i64, scenario_ids: &Vec<i64>, now: i64) -> (added: usize)
        ensures
            final(self)@ == after_enroll_all(old(self)@, event_id, scenario_ids@, now),
            added == final(self)@.len() - old(self)@.len(),
            keeps_completions(old(self)@, final(self)@),
            old(self).wf() ==> final(self).wf(),
    {
        let mut added: usize = 0;
        let mut i: usize = 0;
        assert(scenario_ids@.take(0).len() == 0);
        while i < scenario_ids.len()
            invariant
                i <= scenario_ids.len(),
                self@ == after_enroll_all(old(self)@, event_id, scenario_ids@.take(i as int), now),
                added == self@.len() - old(self)@.len(),
                added <= i,
                keeps_completions(old(self)@, self@),
                old(self).wf() ==> self.wf(),
            decreases scenario_ids.len() - i,
        {
            assert(scenario_ids@.take(i + 1).drop_last() == scenario_ids@.take(i as int));
            if self.enroll(event_id, scenario_ids[i], now) {
                added += 1;
            }
            i += 1;
        }
        assert(scenario_ids@.take(scenario_ids@.len() as int) == scenario_ids@);
        added
    }

    /// How many scenarios the event has on its roster, and how many of them
    /// are done.
    pub fn progress(&self, event_id: i64) -> (progress: Progress)
        ensures
            progress.total == self@.filter(of_event(event_id)).len(),
            progress.completed == self@.filter(done_of_event(event_id)).len(),
            progress.wf(),
    {
        let mut completed: usize = 0;
        let mut total: usize = 0;
        let mut i: usize = 0;
        proof {
            filter_of_nothing(self@.take(0), of_event(event_id));
            filter_of_nothing(self@.take(0), done_of_event(event_id));
        }
        while i < self.entries.len()
            invariant
                i <= self.entries.len(),
                total == self@.take(i as int).filter(of_event(event_id)).len(),
                completed == self@.take(i as int).filter(done_of_event(event_id)).len(),
                completed <= total <= i,
            decreases self.entries.len() - i,
        {
            proof {
                filter_take_step(self@, of_event(event_id), i as int);
                filter_take_step(self@, done_of_event(event_id), i as int);
            }
            if self.entries[i].event_id == event_id {
                total += 1;
                if self.entries[i].complete {
                    completed += 1;
                }
            }
            i += 1;
        }
        assert(self@.take(self@.len() as int) == self@);
        Progress { completed, total }
    }

    /// Up to `limit` entries of the event, drawn at random without
    /// replacement; where no more than `limit` can be listed, all of them
    /// are. What is done is left out where `exclude_completed` says so,
    /// and what is held under a reservation that still runs at `now` where
    /// `exclude_leased` says so. Which entries are drawn goes by the seed.
    /// Listing reserves nothing.
    pub fn list(
        &self,
        event_id: i64,
        exclude_completed: bool,
        exclude_leased: bool,
        limit: usize,
        seed: u64,
        now: i64,
        ttl: u64,
    ) -> (found: Vec<RosterEntry>)
        ensures
            found@ == drawing(
                self@.filter(
                    listed_of_event(event_id, exclude_completed, exclude_leased, now, ttl),
                ),
                limit as nat,
                seed,
            ),
            is_listing(
                found@,
                self@.filter(
                    listed_of_event(event_id, exclude_completed, exclude_leased, now, ttl),
                ),
                limit as nat,
            ),
    {
        let ghost keep = listed_of_event(event_id, exclude_completed, exclude_leased, now, ttl);
        let mut candidates: Vec<RosterEntry> = Vec::new();
        let mut i: usize = 0;
        proof {
            filter_of_nothing(self@.take(0), keep);
        }
        while i < self.entries.len()
            invariant
                i <= self.entries.len(),
                keep == listed_of_event(event_id, exclude_completed, exclude_leased, now, ttl),
                candidates@ == self@.take(i as int).filter(keep),
            decreases self.entries.len() - i,
        {
            proof {
                filter_take_step(self@, keep, i as int);
            }
            let entry = self.entries[i];
            if entry.event_id == event_id && !(exclude_completed && entry.complete) {
                let held = match entry.checkout {
                    Some(lease) => (now as i128) - (lease.since as i128) < (ttl as i128),
                    None => false,
                };
                if !(exclude_leased && held) {
                    candidates.push(entry);
                }
            }
            i += 1;
        }
        assert(self@.take(self@.len() as int) == self@);
        let places = draw(candidates.len(), limit, seed);
        let mut found: Vec<RosterEntry> = Vec::new();
        let mut k: usize = 0;
        while k < places.len()
            invariant
                k <= places.len(),
                found.len() == k,
                is_sample(places@, candidates@.len(), limit as nat),
                forall|j: int| 0 <= j < k ==> found@[j] == candidates@[places@[j] as int],
            decreases places.len() - k,
        {
            found.push(candidates[places[k]]);
            k += 1;
        }
        proof {
            assert(found@ =~= drawing(candidates@, limit as nat, seed));
            drawing_is_listing(candidates@, limit as nat, seed);
        }
        found
    }

    /// Up to `limit` entries of the event that can be claimed at `now`:
    /// not done, and not held under a reservation that still runs. They are
    /// drawn at random without replacement; where no more than `limit` can
    /// be claimed, all of them are listed. Which entries are drawn goes
    /// by the seed. Listing reserves nothing.
    pub fn list_available(&self, event_id: i64, limit: usize, seed: u64, now: i64, ttl: u64) -> (found:
        Vec<RosterEntry>)
        ensures
            found@ == drawing(
                self@.filter(available_of_event(event_id, now, ttl)),
                limit as nat,
                seed,
            ),
            is_listing(found@, self@.filter(available_of_event(event_id, now, ttl)), limit as nat),
    {
        proof {
            filter_agrees(
                self@,
                listed_of_event(event_id, true, true, now, ttl),
                available_of_event(event_id, now, ttl),
            );
        }
        self.list(event_id, true, true, limit, seed, now, ttl)
    }
}

/// A fresh entry for a key that the roster lacks leaves the keys unique.
pub proof fn enroll_keeps_keys_unique(
    entries: Seq<RosterEntry>,
    event_id: i64,
    scenario_id: i64,
    now: i64,
)
    requires
        unique_keys(entries),
    ensures
        unique_keys(after_enroll(entries, event_id, scenario_id, now)),
{
    if place(entries, event_id, scenario_id) is None {
        let after = entries.push(RosterEntry::fresh(event_id, scenario_id, now));
        assert forall|i: int, j: int| 0 <= i < j < after.len() implies !(#[trigger] after[i]).is_for(
            (#[trigger] after[j]).event_id,
            after[j].scenario_id,
        ) by {
            if j == entries.len() {
                if entries[i].is_for(event_id, scenario_id) {
                    first_place_exists(entries, event_id, scenario_id, i);
                }
            } else {
                assert(after[i] == entries[i] && after[j] == entries[j]);
            }
        }
    }
}

/// Where some entry is for the key, there is a first one.
pub proof fn first_place_exists(
    entries: Seq<RosterEntry>,
    event_id: i64,
    scenario_id: i64,
    i: int,
)
    requires
        0 <= i < entries.len(),
        entries[i].is_for(event_id, scenario_id),
    ensures
        place(entries, event_id, scenario_id) is Some,
    decreases i,
{
    if exists|j: int| 0 <= j < i && (#[trigger] entries[j]).is_for(event_id, scenario_id) {
        let j = choose|j: int| 0 <= j < i && (#[trigger] entries[j]).is_for(event_id, scenario_id);
        first_place_exists(entries, event_id, scenario_id, j);
    } else {
        assert(is_place(entries, event_id, scenario_id, i));
    }
}

/// The entries of one scenario in one event.
pub open spec fn for_key(event_id: i64, scenario_id: i64) -> spec_fn(RosterEntry) -> bool {
    |entry: RosterEntry| entry.is_for(event_id, scenario_id)
}

/// An update at a place leaves every key where it was, so the place of each
/// key stays what it was.
pub proof fn update_keeps_places(
    entries: Seq<RosterEntry>,
    i: int,
    entry: RosterEntry,
    event_id: i64,
    scenario_id: i64,
)
    requires
        0 <= i < entries.len(),
        entry.event_id == entries[i].event_id,
        entry.scenario_id == entries[i].scenario_id,
    ensures
        place(entries.update(i, entry), event_id, scenario_id) == place(
            entries,
            event_id,
            scenario_id,
        ),
{
    let after = entries.update(i, entry);
    assert forall|k: int| is_place(entries, event_id, scenario_id, k) == is_place(
        after,
        event_id,
        scenario_id,
        k,
    ) by {
        if is_place(entries, event_id, scenario_id, k) {
            assert forall|j: int| 0 <= j < k implies !(#[trigger] after[j]).is_for(
                event_id,
                scenario_id,
            ) by {
                assert(!entries[j].is_for(event_id, scenario_id));
            }
        }
        if is_place(after, event_id, scenario_id, k) {
            assert forall|j: int| 0 <= j < k implies !(#[trigger] entries[j]).is_for(
                event_id,
                scenario_id,
            ) by {
                assert(!after[j].is_for(event_id, scenario_id));
            }
        }
    }
    if let Some(k) = place(entries, event_id, scenario_id) {
        place_is_determined(after, event_id, scenario_id, k);
    } else if let Some(k) = place(after, event_id, scenario_id) {
        place_is_determined(entries, event_id, scenario_id, k);
    }
}

/// On a roster without doubles, a key has one entry or none.
pub proof fn key_stands_once(entries: Seq<RosterEntry>, event_id: i64, scenario_id: i64)
    requires
        unique_keys(entries),
    ensures
        entries.filter(for_key(event_id, scenario_id)).len() == if place(
            entries,
            event_id,
            scenario_id,
        ) is Some {
            1nat
        } else {
            0nat
        },
    decreases entries.len(),
{
    reveal(Seq::filter);
    let keep = for_key(event_id, scenario_id);
    if entries.len() == 0 {
        place_is_none(entries, event_id, scenario_id);
    } else {
        let rest = entries.drop_last();
        let last = entries.last();
        assert forall|i: int, j: int| 0 <= i < j < rest.len() implies !(#[trigger] rest[i]).is_for(
            (#[trigger] rest[j]).event_id,
            rest[j].scenario_id,
        ) by {
            assert(rest[i] == entries[i] && rest[j] == entries[j]);
        }
        key_stands_once(rest, event_id, scenario_id);
        if keep(last) {
            assert forall|j: int| 0 <= j < rest.len() implies !(#[trigger] rest[j]).is_for(
                event_id,
                scenario_id,
            ) by {
                assert(rest[j] == entries[j]);
                assert(entries[entries.len() - 1] == last);
            }
            place_is_none(rest, event_id, scenario_id);
            first_place_exists(entries, event_id, scenario_id, entries.len() - 1);
        } else {
            if let Some(i) = place(rest, event_id, scenario_id) {
                assert forall|j: int| 0 <= j < i implies !(#[trigger] entries[j]).is_for(
                    event_id,
                    scenario_id,
                ) by {
                    assert(rest[j] == entries[j]);
                }
                assert(entries[i] == rest[i]);
                place_is_determined(entries, event_id, scenario_id, i);
            } else if let Some(i) = place(entries, event_id, scenario_id) {
                assert(i < rest.len());
                assert forall|j: int| 0 <= j < i implies !(#[trigger] rest[j]).is_for(
                    event_id,
                    scenario_id,
                ) by {
                    assert(rest[j] == entries[j]);
                }
                assert(entries[i] == rest[i]);
                place_is_determined(rest, event_id, scenario_id, i);
            }
        }
    }
}

/// Putting a scenario on the roster of an event twice leaves one entry for
/// it: the second time changes nothing.
pub proof fn enrolling_twice_adds_once(
    entries: Seq<RosterEntry>,
    event_id: i64,
    scenario_id: i64,
    first_at: i64,
    second_at: i64,
)
    requires
        unique_keys(entries),
    ensures
        ({
            let once = after_enroll(entries, event_id, scenario_id, first_at);
            let twice = after_enroll(once, event_id, scenario_id, second_at);
            &&& twice == once
            &&& twice.filter(for_key(event_id, scenario_id)).len() == 1
        }),
{
    let once = after_enroll(entries, event_id, scenario_id, first_at);
    if place(entries, event_id, scenario_id) is None {
        first_place_exists(once, event_id, scenario_id, once.len() - 1);
    }
    enroll_keeps_keys_unique(entries, event_id, scenario_id, first_at);
    key_stands_once(once, event_id, scenario_id);
}

/// What is done stays done: none of putting on the roster, claiming and
/// marking as done takes an entry away or makes a done entry undone.
pub proof fn completion_is_kept(
    entries: Seq<RosterEntry>,
    event_id: i64,
    scenario_id: i64,
    user_id: i64,
    now: i64,
    ttl: u64,
)
    ensures
        keeps_completions(entries, after_enroll(entries, event_id, scenario_id, now)),
        keeps_completions(entries, after_claim(entries, event_id, scenario_id, user_id, now, ttl)),
        keeps_completions(entries, after_complete(entries, event_id, scenario_id, now)),
{
}

/// Marking as done a second time answers that the entry was done, and
/// changes nothing.
pub proof fn completing_twice_changes_nothing(
    entries: Seq<RosterEntry>,
    event_id: i64,
    scenario_id: i64,
    first_at: i64,
    second_at: i64,
)
    requires
        place(entries, event_id, scenario_id) is Some,
    ensures
        ({
            let once = after_complete(entries, event_id, scenario_id, first_at);
            &&& complete_result(once, event_id, scenario_id) == Ok::<bool, EngineError>(true)
            &&& after_complete(once, event_id, scenario_id, second_at) == once
        }),
{
    let i = place(entries, event_id, scenario_id)->0;
    if !entries[i].complete {
        update_keeps_places(entries, i, entries[i].done_at(first_at), event_id, scenario_id);
    }
}

/// Of two claims for an open entry, the first is granted and the second,
/// made before the reservation has run out, is told who holds the entry and
/// until when; it changes nothing.
pub proof fn claims_exclude_each_other(
    entries: Seq<RosterEntry>,
    event_id: i64,
    scenario_id: i64,
    first_user: i64,
    second_user: i64,
    first_at: i64,
    second_at: i64,
    ttl: u64,
)
    requires
        claim_result(entries, event_id, scenario_id, first_at, ttl) == Ok::<
            ClaimOutcome,
            EngineError,
        >(ClaimOutcome::Claimed),
        !expired(first_at as int, second_at as int, ttl as int),
    ensures
        ({
            let held = after_claim(entries, event_id, scenario_id, first_user, first_at, ttl);
            &&& claim_result(held, event_id, scenario_id, second_at, ttl) == Ok::<
                ClaimOutcome,
                EngineError,
            >(
                ClaimOutcome::AlreadyLeased {
                    by: first_user,
                    expires_at: (first_at + ttl) as i128,
                },
            )
            &&& after_claim(held, event_id, scenario_id, second_user, second_at, ttl) == held
        }),
{
    let i = place(entries, event_id, scenario_id)->0;
    update_keeps_places(entries, i, entries[i].leased_to(first_user, first_at), event_id, scenario_id);
}

/// A claim made once the reservation of an earlier claim has run out is
/// granted like the first, and the entry goes to the new claimant.
pub proof fn claim_after_expiry_is_granted(
    entries: Seq<RosterEntry>,
    event_id: i64,
    scenario_id: i64,
    first_user: i64,
    second_user: i64,
    first_at: i64,
    second_at: i64,
    ttl: u64,
)
    requires
        claim_result(entries, event_id, scenario_id, first_at, ttl) == Ok::<
            ClaimOutcome,
            EngineError,
        >(ClaimOutcome::Claimed),
        expired(first_at as int, second_at as int, ttl as int),
    ensures
        ({
            let held = after_claim(entries, event_id, scenario_id, first_user, first_at, ttl);
            let i = place(entries, event_id, scenario_id)->0;
            &&& claim_result(held, event_id, scenario_id, second_at, ttl) == Ok::<
                ClaimOutcome,
                EngineError,
            >(ClaimOutcome::Claimed)
            &&& after_claim(held, event_id, scenario_id, second_user, second_at, ttl)[i].checkout
                == Some(Lease { since: second_at, user_id: second_user })
        }),
{
    let i = place(entries, event_id, scenario_id)->0;
    update_keeps_places(entries, i, entries[i].leased_to(first_user, first_at), event_id, scenario_id);
}

/// No more scenarios of an event are done than it has on its roster.
pub proof fn done_is_part_of_all(entries: Seq<RosterEntry>, event_id: i64)
    ensures
        entries.filter(done_of_event(event_id)).len() <= entries.filter(of_event(event_id)).len(),
{
    filter_is_monotonic(entries, done_of_event(event_id), of_event(event_id));
}

/// A listing holds `limit` entries, or all that can be listed where those
/// are fewer; each of them stands on the roster and is one that the listing
/// may show; and on a roster without doubles none is listed twice.
pub proof fn listing_is_bounded(
    found: Seq<RosterEntry>,
    entries: Seq<RosterEntry>,
    keep: spec_fn(RosterEntry) -> bool,
    limit: nat,
)
    requires
        is_listing(found, entries.filter(keep), limit),
    ensures
        found.len() == if entries.filter(keep).len() < limit {
            entries.filter(keep).len()
        } else {
            limit
        },
        forall|k: int|
            0 <= k < found.len() ==> entries.contains(#[trigger] found[k]) && keep(found[k]),
        unique_keys(entries) ==> forall|k: int, l: int|
            0 <= k < l < found.len() ==> !(#[trigger] found[k]).is_for(
                (#[trigger] found[l]).event_id,
                found[l].scenario_id,
            ),
{
    let candidates = entries.filter(keep);
    let places = choose|places: Seq<usize>| drawn_from(found, candidates, places, limit);
    filter_keeps_members(entries, keep);
    assert forall|k: int| 0 <= k < found.len() implies entries.contains(#[trigger] found[k])
        && keep(found[k]) by {
        assert(found[k] == candidates[places[k] as int]);
        assert(keep(candidates[places[k] as int]));
    }
    if unique_keys(entries) {
        filter_keeps_keys_unique(entries, keep);
        assert forall|k: int, l: int| 0 <= k < l < found.len() implies !(#[trigger] found[k]).is_for(
            (#[trigger] found[l]).event_id,
            found[l].scenario_id,
        ) by {
            let a = places[k] as int;
            let b = places[l] as int;
            assert(found[k] == candidates[a] && found[l] == candidates[b]);
            assert(a != b);
            if a < b {
                assert(!candidates[a].is_for(candidates[b].event_id, candidates[b].scenario_id));
            } else {
                assert(!candidates[b].is_for(candidates[a].event_id, candidates[a].scenario_id));
            }
        }
    }
}

/// What a filter keeps of a roster without doubles is without doubles.
pub proof fn filter_keeps_keys_unique(entries: Seq<RosterEntry>, keep: spec_fn(RosterEntry) -> bool)
    requires
        unique_keys(entries),
    ensures
        unique_keys(entries.filter(keep)),
    decreases entries.len(),
{
    reveal(Seq::filter);
    if entries.len() > 0 {
        let rest = entries.drop_last();
        let last = entries.last();
        assert forall|i: int, j: int| 0 <= i < j < rest.len() implies !(#[trigger] rest[i]).is_for(
            (#[trigger] rest[j]).event_id,
            rest[j].scenario_id,
        ) by {
            assert(rest[i] == entries[i] && rest[j] == entries[j]);
        }
        filter_keeps_keys_unique(rest, keep);
        filter_keeps_members(rest, keep);
        let kept = entries.filter(keep);
        assert forall|i: int, j: int| 0 <= i < j < kept.len() implies !(#[trigger] kept[i]).is_for(
            (#[trigger] kept[j]).event_id,
            kept[j].scenario_id,
        ) by {
            if j < rest.filter(keep).len() {
                assert(kept[i] == rest.filter(keep)[i] && kept[j] == rest.filter(keep)[j]);
            } else {
                let x = rest.filter(keep)[i];
                assert(rest.contains(x));
                let at = choose|at: int| 0 <= at < rest.len() && rest[at] == x;
                assert(entries[at] == x);
                assert(entries[entries.len() - 1] == last);
            }
        }
    }
}

} // verus!
