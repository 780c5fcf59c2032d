//! Which challenges an event holds, from when on, and who has completed
//! which of them.

use crate::error::EngineError;
use crate::lemmas::{filter_of_nothing, filter_take_step, top_id, top_id_is_greatest};
use vstd::prelude::*;

verus! {

/// One challenge on the roster of one event. It counts from `active_date`
/// on, so that an event can bring its challenges out in stages.
#[derive(Clone, Copy, Debug, PartialEq, Eq)]
pub struct ChallengeEntry {
    pub id: i64,
    pub event_id: i64,
    pub challenge_id: i64,
    pub active_date: i64,
}

/// The record that a player has completed a challenge of an event.
#[derive(Clone, Copy, Debug, PartialEq, Eq)]
pub struct CompletionRecord {
    pub challenge_event_id: i64,
    pub user_id: i64,
}

impl ChallengeEntry {
    /// Whether this is the entry of that challenge in that event.
    pub open spec fn is_for(self, event_id: i64, challenge_id: i64) -> bool {
        self.event_id == event_id && self.challenge_id == challenge_id
    }

    /// Whether the challenge counts at `now`.
    pub open spec fn active_at(self, now: i64) -> bool {
        self.active_date <= now
    }
}

/// The ids of the entries of a roster of challenges.
pub open spec fn entry_ids(entries: Seq<ChallengeEntry>) -> Seq<i64> {
    Seq::new(entries.len(), |i: int| entries[i].id)
}

/// Whether `i` is the first place of the entry of that challenge in that
/// event.
pub open spec fn is_entry_place(
    entries: Seq<ChallengeEntry>,
    event_id: i64,
    challenge_id: i64,
    i: int,
) -> bool {
    &&& 0 <= i < entries.len()
    &&& entries[i].is_for(event_id, challenge_id)
    &&& forall|j: int| 0 <= j < i ==> !(#[trigger] entries[j]).is_for(event_id, challenge_id)
}

/// Whether the event holds the challenge.
pub open spec fn holds_challenge(entries: Seq<ChallengeEntry>, event_id: i64, challenge_id: i64) -> bool {
    exists|i: int| 0 <= i < entries.len() && (#[trigger] entries[i]).is_for(event_id, challenge_id)
}

/// The entry of that challenge in that event; the first, should there be
/// several.
pub open spec fn entry_of(entries: Seq<ChallengeEntry>, event_id: i64, challenge_id: i64) -> ChallengeEntry {
    entries[choose|i: int| is_entry_place(entries, event_id, challenge_id, i)]
}

/// Whether the entry with that id stands on the roster of the event.
pub open spec fn entry_in_event(entries: Seq<ChallengeEntry>, id: i64, event_id: i64) -> bool {
    exists|i: int|
        0 <= i < entries.len() && (#[trigger] entries[i]).id == id && entries[i].event_id
            == event_id
}

/// The records that a player has in an event: those of the player whose
/// entry stands on the roster of the event.
pub open spec fn records_of_player(entries: Seq<ChallengeEntry>, event_id: i64, user_id: i64) -> spec_fn(
    CompletionRecord,
) -> bool {
    |record: CompletionRecord|
        record.user_id == user_id && entry_in_event(entries, record.challenge_event_id, event_id)
}

/// Whether no entry has the id of another, and no challenge stands twice
/// on the roster of one event.
pub open spec fn unique_entries(entries: Seq<ChallengeEntry>) -> bool {
    forall|i: int, j: int|
        0 <= i < j < entries.len() ==> (#[trigger] entries[i]).id != (#[trigger] entries[j]).id
            && !entries[i].is_for(entries[j].event_id, entries[j].challenge_id)
}

/// The roster after the challenge was put on it, to count from
/// `active_date` on: as it was where the event held the challenge, and
/// longer by one entry under the next id where it did not.
pub open spec fn after_load(
    entries: Seq<ChallengeEntry>,
    event_id: i64,
    challenge_id: i64,
    active_date: i64,
) -> Seq<ChallengeEntry> {
    if holds_challenge(entries, event_id, challenge_id) {
        entries
    } else {
        entries.push(
            ChallengeEntry {
                id: (top_id(entry_ids(entries)) + 1) as i64,
                event_id,
                challenge_id,
                active_date,
            },
        )
    }
}

/// The roster after each of the challenges was put on it, one after the
/// other.
pub open spec fn after_load_all(
    entries: Seq<ChallengeEntry>,
    event_id: i64,
    challenge_ids: Seq<i64>,
    active_date: i64,
) -> Seq<ChallengeEntry>
    decreases challenge_ids.len(),
{
    if challenge_ids.len() == 0 {
        entries
    } else {
        after_load(
            after_load_all(entries, event_id, challenge_ids.drop_last(), active_date),
            event_id,
            challenge_ids.last(),
            active_date,
        )
    }
}

/// Loading adds at most one entry for each challenge, and none goes away.
pub proof fn load_all_grows_by_at_most(
    entries: Seq<ChallengeEntry>,
    event_id: i64,
    challenge_ids: Seq<i64>,
    active_date: i64,
)
    ensures
        entries.len() <= after_load_all(entries, event_id, challenge_ids, active_date).len()
            <= entries.len() + challenge_ids.len(),
        top_id(entry_ids(after_load_all(entries, event_id, challenge_ids, active_date))) <= top_id(
            entry_ids(entries),
        ) + challenge_ids.len(),
    decreases challenge_ids.len(),
{
    if challenge_ids.len() > 0 {
        load_all_grows_by_at_most(entries, event_id, challenge_ids.drop_last(), active_date);
        let middle = after_load_all(entries, event_id, challenge_ids.drop_last(), active_date);
        let after = after_load(middle, event_id, challenge_ids.last(), active_date);
        top_id_is_greatest(entry_ids(middle));
        if after != middle {
            assert(entry_ids(after).drop_last() == entry_ids(middle));
        }
    }
}

/// The rosters of challenges of all events.
pub struct ChallengeRoster {
    pub entries: Vec<ChallengeEntry>,
}

impl View for ChallengeRoster {
    type V = Seq<ChallengeEntry>;

    open spec fn view(&self) -> Seq<ChallengeEntry> {
        self.entries@
    }
}

impl ChallengeRoster {
    /// Whether the rows of the roster are in order.
    pub open spec fn wf(&self) -> bool {
        unique_entries(self@)
    }

    /// A roster without entries.
    pub fn new() -> (roster: Self)
        ensures
            roster@.len() == 0,
            roster.wf(),
    {
        ChallengeRoster { entries: Vec::new() }
    }

    /// The entry of that challenge in that event.
    pub fn find(&self, event_id: i64, challenge_id: i64) -> (found: Option<ChallengeEntry>)
        ensures
            found is Some <==> holds_challenge(self@, event_id, challenge_id),
            found matches Some(entry) ==> entry == entry_of(self@, event_id, challenge_id)
                && entry.is_for(event_id, challenge_id) && self@.contains(entry),
    {
        let mut i: usize = 0;
        while i < self.entries.len()
            invariant
                i <= self.entries.len(),
                forall|j: int| 0 <= j < i ==> !(#[trigger] self@[j]).is_for(event_id, challenge_id),
            decreases self.entries.len() - i,
        {
            let entry = self.entries[i];
            if entry.event_id == event_id && entry.challenge_id == challenge_id {
                proof {
                    assert(is_entry_place(self@, event_id, challenge_id, i as int));
                    let k = choose|k: int| is_entry_place(self@, event_id, challenge_id, k);
                    assert(k == i);
                }
                return Some(entry);
            }
            i += 1;
        }
        None
    }

    /// Whether the entry with that id stands on the roster of the event.
    pub fn holds_entry(&self, id: i64, event_id: i64) -> (held: bool)
        ensures
            held == entry_in_event(self@, id, event_id),
    {
        let mut i: usize = 0;
        while i < self.entries.len()
            invariant
                i <= self.entries.len(),
                forall|j: int|
                    0 <= j < i ==> !((#[trigger] self@[j]).id == id && self@[j].event_id == event_id),
            decreases self.entries.len() - i,
        {
            if self.entries[i].id == id && self.entries[i].event_id == event_id {
                return true;
            }
            i += 1;
        }
        false
    }

    /// The greatest id of the roster.
    fn top(&self) -> (top: i64)
        ensures
            top == top_id(entry_ids(self@)),
    {
        let mut top: i64 = 0;
        let mut i: usize = 0;
        assert(entry_ids(self@).take(0) == Seq::<i64>::empty());
        while i < self.entries.len()
            invariant
                i <= self.entries.len(),
                top == top_id(entry_ids(self@).take(i as int)),
            decreases self.entries.len() - i,
        {
            proof {
                let ids = entry_ids(self@);
                assert(ids.take(i + 1).drop_last() == ids.take(i as int));
                assert(ids.take(i + 1).last() == self@[i as int].id);
            }
            if top < self.entries[i].id {
                top = self.entries[i].id;
            }
            i += 1;
        }
        assert(entry_ids(self@).take(self@.len() as int) == entry_ids(self@));
        top
    }

    /// Puts each of the challenges on the roster of the event that it does
    /// not hold yet, to count from `active_date` on, and says how many
    /// entries that made. Fails with `StoreUnavailable`, before anything is
    /// changed, where the ids left may not do for all of them.
    pub fn load(&mut self, event_id: i64, challenge_ids: &Vec<i64>, active_date: i64) -> (added: Result<
        usize,
        EngineError,
    >)
        ensures
            match added {
                Ok(count) => {
                    &&& final(self)@ == after_load_all(
                        old(self)@,
                        event_id,
                        challenge_ids@,
                        active_date,
                    )
                    &&& count == final(self)@.len() - old(self)@.len()
                },
                Err(error) => error == EngineError::StoreUnavailable && final(self)@ == old(self)@,
            },
            added is Err <==> top_id(entry_ids(old(self)@)) + challenge_ids@.len() > i64::MAX,
            old(self).wf() ==> final(self).wf(),
    {
        let top = self.top();
        if (top as i128) + (challenge_ids.len() as i128) > (i64::MAX as i128) {
            return Err(EngineError::StoreUnavailable);
        }
        let mut added: usize = 0;
        let mut i: usize = 0;
        while i < challenge_ids.len()
            invariant
                i <= challenge_ids.len(),
                top_id(entry_ids(old(self)@)) + challenge_ids@.len() <= i64::MAX,
                self@ == after_load_all(
                    old(self)@,
                    event_id,
                    challenge_ids@.take(i as int),
                    active_date,
                ),
                added == self@.len() - old(self)@.len(),
                added <= i,
                old(self).wf() ==> self.wf(),
            decreases challenge_ids.len() - i,
        {
            let ghost before = self@;
            proof {
                assert(challenge_ids@.take(i + 1).drop_last() == challenge_ids@.take(i as int));
                load_all_grows_by_at_most(
                    old(self)@,
                    event_id,
                    challenge_ids@.take(i as int),
                    active_date,
                );
                top_id_is_greatest(entry_ids(before));
            }
            if self.find(event_id, challenge_ids[i]).is_none() {
                let id = self.top() + 1;
                self.entries.push(
                    ChallengeEntry { id, event_id, challenge_id: challenge_ids[i], active_date },
                );
                added += 1;
                proof {
                    if old(self).wf() {
                        let after = self@;
                        assert forall|a: int, b: int| 0 <= a < b < after.len() implies (
                        #[trigger] after[a]).id != (#[trigger] after[b]).id && !after[a].is_for(
                            after[b].event_id,
                            after[b].challenge_id,
                        ) by {
                            assert(after[a] == before[a]);
                            if b < before.len() {
                                assert(after[b] == before[b]);
                            } else {
                                assert(entry_ids(before)[a] == before[a].id);
                            }
                        }
                    }
                }
            }
            i += 1;
        }
        assert(challenge_ids@.take(challenge_ids@.len() as int) == challenge_ids@);
        Ok(added)
    }
}

/// The record that the player has completed the challenge of the event.
pub open spec fn record_of(challenge_event_id: i64, user_id: i64) -> CompletionRecord {
    CompletionRecord { challenge_event_id, user_id }
}

/// The records after one was put in: as they were where it stood among
/// them, and longer by it where it did not.
pub open spec fn after_record(records: Seq<CompletionRecord>, record: CompletionRecord) -> Seq<
    CompletionRecord,
> {
    if records.contains(record) {
        records
    } else {
        records.push(record)
    }
}

/// The records after each of the players was put in for the challenge, one
/// after the other.
pub open spec fn after_records(
    records: Seq<CompletionRecord>,
    challenge_event_id: i64,
    user_ids: Seq<i64>,
) -> Seq<CompletionRecord>
    decreases user_ids.len(),
{
    if user_ids.len() == 0 {
        records
    } else {
        after_record(
            after_records(records, challenge_event_id, user_ids.drop_last()),
            record_of(challenge_event_id, user_ids.last()),
        )
    }
}

/// The players, in their order, for whom putting them in one after the
/// other made a record: those who had not completed the challenge, each
/// once.
pub open spec fn newly_completed(
    records: Seq<CompletionRecord>,
    challenge_event_id: i64,
    user_ids: Seq<i64>,
) -> Seq<i64>
    decreases user_ids.len(),
{
    if user_ids.len() == 0 {
        Seq::empty()
    } else {
        let earlier = newly_completed(records, challenge_event_id, user_ids.drop_last());
        if after_records(records, challenge_event_id, user_ids.drop_last()).contains(
            record_of(challenge_event_id, user_ids.last()),
        ) {
            earlier
        } else {
            earlier.push(user_ids.last())
        }
    }
}

/// The records of who has completed what.
pub struct Completions {
    pub records: Vec<CompletionRecord>,
}

impl View for Completions {
    type V = Seq<CompletionRecord>;

    open spec fn view(&self) -> Seq<CompletionRecord> {
        self.records@
    }
}

impl Completions {
    /// Whether no record stands twice.
    pub open spec fn wf(&self) -> bool {
        self@.no_duplicates()
    }

    /// No records.
    pub fn new() -> (completions: Self)
        ensures
            completions@.len() == 0,
            completions.wf(),
    {
        Completions { records: Vec::new() }
    }

    /// Whether the player has completed the challenge of the event.
    pub fn holds(&self, challenge_event_id: i64, user_id: i64) -> (held: bool)
        ensures
            held == self@.contains(record_of(challenge_event_id, user_id)),
    {
        let mut i: usize = 0;
        while i < self.records.len()
            invariant
                i <= self.records.len(),
                forall|j: int| 0 <= j < i ==> self@[j] != record_of(challenge_event_id, user_id),
            decreases self.records.len() - i,
        {
            let record = self.records[i];
            if record.challenge_event_id == challenge_event_id && record.user_id == user_id {
                assert(self@[i as int] == record_of(challenge_event_id, user_id));
                return true;
            }
            i += 1;
        }
        false
    }

    /// Whether anybody has completed the challenge of the event.
    pub fn holds_any(&self, challenge_event_id: i64) -> (held: bool)
        ensures
            held == completed_by_anyone(self@, challenge_event_id),
    {
        let mut i: usize = 0;
        while i < self.records.len()
            invariant
                i <= self.records.len(),
                forall|j: int| 0 <= j < i ==> (#[trigger] self@[j]).challenge_event_id != challenge_event_id,
            decreases self.records.len() - i,
        {
            if self.records[i].challenge_event_id == challenge_event_id {
                return true;
            }
            i += 1;
        }
        false
    }

    /// How many records the player has in the event.
    pub fn count_of_player(&self, roster: &ChallengeRoster, event_id: i64, user_id: i64) -> (count:
        usize)
        ensures
            count == self@.filter(records_of_player(roster@, event_id, user_id)).len(),
    {
        let ghost keep = records_of_player(roster@, event_id, user_id);
        let mut count: usize = 0;
        let mut i: usize = 0;
        proof {
            filter_of_nothing(self@.take(0), keep);
        }
        while i < self.records.len()
            invariant
                i <= self.records.len(),
                keep == records_of_player(roster@, event_id, user_id),
                count == self@.take(i as int).filter(keep).len(),
                count <= i,
            decreases self.records.len() - i,
        {
            proof {
                filter_take_step(self@, keep, i as int);
            }
            let record = self.records[i];
            if record.user_id == user_id && roster.holds_entry(record.challenge_event_id, event_id) {
                count += 1;
            }
            i += 1;
        }
        assert(self@.take(self@.len() as int) == self@);
        count
    }

    /// Records that the player has completed the challenge, unless that is
    /// on record. Says whether a record was made.
    pub fn record(&mut self, challenge_event_id: i64, user_id: i64) -> (made: bool)
        ensures
            made == !old(self)@.contains(record_of(challenge_event_id, user_id)),
            final(self)@ == after_record(old(self)@, record_of(challenge_event_id, user_id)),
            old(self).wf() ==> final(self).wf(),
    {
        if self.holds(challenge_event_id, user_id) {
            false
        } else {
            self.records.push(CompletionRecord { challenge_event_id, user_id });
            true
        }
    }

    /// Records for each of the players that they have completed the
    /// challenge, and hands back those for whom that was news: a player who
    /// had completed it, or who is named a second time, is passed over in
    /// silence.
    pub fn complete_challenge(&mut self, challenge_event_id: i64, user_ids: &Vec<i64>) -> (news: Vec<
        i64,
    >)
        ensures
            final(self)@ == after_records(old(self)@, challenge_event_id, user_ids@),
            news@ == newly_completed(old(self)@, challenge_event_id, user_ids@),
            old(self).wf() ==> final(self).wf(),
    {
        let mut news: Vec<i64> = Vec::new();
        let mut i: usize = 0;
        while i < user_ids.len()
            invariant
                i <= user_ids.len(),
                self@ == after_records(old(self)@, challenge_event_id, user_ids@.take(i as int)),
                news@ == newly_completed(old(self)@, challenge_event_id, user_ids@.take(i as int)),
                old(self).wf() ==> self.wf(),
            decreases user_ids.len() - i,
        {
            assert(user_ids@.take(i + 1).drop_last() == user_ids@.take(i as int));
            if self.record(challenge_event_id, user_ids[i]) {
                news.push(user_ids[i]);
            }
            i += 1;
        }
        assert(user_ids@.take(user_ids@.len() as int) == user_ids@);
        news
    }
}

/// Whether anybody has completed the challenge of the event.
pub open spec fn completed_by_anyone(records: Seq<CompletionRecord>, challenge_event_id: i64) -> bool {
    exists|i: int|
        0 <= i < records.len() && (#[trigger] records[i]).challenge_event_id == challenge_event_id
}

/// Putting players in takes no record away, and leaves on record each of
/// them.
pub proof fn records_hold_all(records: Seq<CompletionRecord>, challenge_event_id: i64, user_ids: Seq<i64>)
    ensures
        forall|record: CompletionRecord|
            records.contains(record) ==> #[trigger] after_records(
                records,
                challenge_event_id,
                user_ids,
            ).contains(record),
        forall|i: int|
            0 <= i < user_ids.len() ==> after_records(records, challenge_event_id, user_ids).contains(
                record_of(challenge_event_id, #[trigger] user_ids[i]),
            ),
    decreases user_ids.len(),
{
    if user_ids.len() > 0 {
        let rest = user_ids.drop_last();
        records_hold_all(records, challenge_event_id, rest);
        let middle = after_records(records, challenge_event_id, rest);
        let last = record_of(challenge_event_id, user_ids.last());
        let after = after_records(records, challenge_event_id, user_ids);
        assert forall|record: CompletionRecord| middle.contains(record) implies after.contains(
            record,
        ) by {
            if !middle.contains(last) {
                let at = choose|at: int| 0 <= at < middle.len() && middle[at] == record;
                assert(after[at] == record);
            }
        }
        assert(after.contains(last)) by {
            if !middle.contains(last) {
                assert(after[after.len() - 1] == last);
            }
        }
        assert forall|i: int| 0 <= i < user_ids.len() implies after.contains(
            record_of(challenge_event_id, #[trigger] user_ids[i]),
        ) by {
            if i < rest.len() {
                assert(rest[i] == user_ids[i]);
                assert(middle.contains(record_of(challenge_event_id, rest[i])));
            }
        }
    }
}

/// Where every one of the players is on record, putting them in changes
/// nothing and is news for nobody.
pub proof fn records_of_known_players(
    records: Seq<CompletionRecord>,
    challenge_event_id: i64,
    user_ids: Seq<i64>,
)
    requires
        forall|i: int|
            0 <= i < user_ids.len() ==> records.contains(
                record_of(challenge_event_id, #[trigger] user_ids[i]),
            ),
    ensures
        after_records(records, challenge_event_id, user_ids) == records,
        newly_completed(records, challenge_event_id, user_ids) == Seq::<i64>::empty(),
    decreases user_ids.len(),
{
    if user_ids.len() > 0 {
        let rest = user_ids.drop_last();
        assert forall|i: int| 0 <= i < rest.len() implies records.contains(
            record_of(challenge_event_id, #[trigger] rest[i]),
        ) by {
            assert(rest[i] == user_ids[i]);
        }
        records_of_known_players(records, challenge_event_id, rest);
        assert(user_ids[user_ids.len() - 1] == user_ids.last());
    }
}

/// Completing a challenge a second time for the same players leaves the
/// records as the first time left them, as many as they were, and is news
/// for none of the players.
pub proof fn completing_again_adds_nothing(
    records: Seq<CompletionRecord>,
    challenge_event_id: i64,
    user_ids: Seq<i64>,
)
    ensures
        ({
            let once = after_records(records, challenge_event_id, user_ids);
            &&& after_records(once, challenge_event_id, user_ids) == once
            &&& after_records(once, challenge_event_id, user_ids).len() == once.len()
            &&& newly_completed(once, challenge_event_id, user_ids) == Seq::<i64>::empty()
        }),
{
    records_hold_all(records, challenge_event_id, user_ids);
    records_of_known_players(
        after_records(records, challenge_event_id, user_ids),
        challenge_event_id,
        user_ids,
    );
}

} // verus!
