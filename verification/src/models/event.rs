//! Events, and which of them is the one that runs.

use crate::error::EngineError;
use crate::models::challenge::{insert_by_code, is_selection, Challenge, ChallengeView};
use crate::models::completion::{
    completed_by_anyone, entry_of, holds_challenge, ChallengeEntry, ChallengeRoster,
    CompletionRecord, Completions,
};
use crate::lemmas::{filter_of_nothing, filter_take_step, top_id, top_id_is_greatest, views};
use crate::text::same_text;
use vstd::prelude::*;
use vstd::string::StringExecFns;

verus! {

/// An event. At most one event is active at a time, and an event that was
/// archived is never active again.
pub struct Event {
    pub id: i64,
    pub name: String,
    pub active: bool,
    pub archived: bool,
}

/// What an event holds, as plain values.
pub struct EventView {
    pub id: i64,
    pub name: Seq<char>,
    pub active: bool,
    pub archived: bool,
}

impl View for Event {
    type V = EventView;

    open spec fn view(&self) -> EventView {
        EventView { id: self.id, name: self.name@, active: self.active, archived: self.archived }
    }
}

impl Clone for Event {
    fn clone(&self) -> (copy: Self)
        ensures
            copy@ == self@,
    {
        Event {
            id: self.id,
            name: self.name.clone(),
            active: self.active,
            archived: self.archived,
        }
    }
}

/// The ids of the events of a table.
pub open spec fn event_ids(events: Seq<EventView>) -> Seq<i64> {
    Seq::new(events.len(), |i: int| events[i].id)
}

/// Whether the table of events is in order: no id and no name twice, at
/// most one event active, and none that is archived.
pub open spec fn registry_wf(events: Seq<EventView>) -> bool {
    &&& forall|i: int, j: int|
        0 <= i < j < events.len() ==> (#[trigger] events[i]).id != (#[trigger] events[j]).id
            && events[i].name != events[j].name && !(events[i].active && events[j].active)
    &&& forall|i: int| 0 <= i < events.len() ==> !((#[trigger] events[i]).active && events[i].archived)
}

/// The events that are active, or those that are not.
pub open spec fn with_active(active: bool) -> spec_fn(EventView) -> bool {
    |event: EventView| event.active == active
}

/// The events that are archived, or those that are not.
pub open spec fn with_archived(archived: bool) -> spec_fn(EventView) -> bool {
    |event: EventView| event.archived == archived
}

/// Whether `i` is the place of the event with that id; the first, should
/// there be several.
pub open spec fn is_event_place(events: Seq<EventView>, id: i64, i: int) -> bool {
    &&& 0 <= i < events.len()
    &&& events[i].id == id
    &&& forall|j: int| 0 <= j < i ==> (#[trigger] events[j]).id != id
}

/// Whether the table holds an event with that id.
pub open spec fn has_event(events: Seq<EventView>, id: i64) -> bool {
    exists|i: int| 0 <= i < events.len() && (#[trigger] events[i]).id == id
}

/// The event with that id; the first, should there be several.
pub open spec fn event_of(events: Seq<EventView>, id: i64) -> EventView {
    events[choose|i: int| is_event_place(events, id, i)]
}

/// The table after the event with that id was made the active one: it
/// alone is active.
pub open spec fn after_activate(events: Seq<EventView>, id: i64) -> Seq<EventView> {
    Seq::new(events.len(), |i: int| EventView { active: events[i].id == id, ..events[i] })
}

/// The table after the event with that id was archived: it is archived and
/// not active, and the others are as they were.
pub open spec fn after_archive(events: Seq<EventView>, id: i64) -> Seq<EventView> {
    Seq::new(
        events.len(),
        |i: int|
            if events[i].id == id {
                EventView { active: false, archived: true, ..events[i] }
            } else {
                events[i]
            },
    )
}

/// Whether the table knows an event of that name.
pub open spec fn has_name(events: Seq<EventView>, name: Seq<char>) -> bool {
    exists|i: int| 0 <= i < events.len() && (#[trigger] events[i]).name == name
}

/// The place of the event with that id.
pub fn event_position(events: &Vec<Event>, id: i64) -> (found: Option<usize>)
    ensures
        match found {
            Some(i) => is_event_place(views(events@), id, i as int),
            None => !has_event(views(events@), id),
        },
        found is Some <==> has_event(views(events@), id),
        found matches Some(i) ==> views(events@)[i as int] == event_of(views(events@), id),
{
    let mut i: usize = 0;
    while i < events.len()
        invariant
            i <= events.len(),
            forall|j: int| 0 <= j < i ==> (#[trigger] views(events@)[j]).id != id,
        decreases events.len() - i,
    {
        if events[i].id == id {
            proof {
                let vs = views(events@);
                assert(is_event_place(vs, id, i as int));
                let k = choose|k: int| is_event_place(vs, id, k);
                assert(k == i);
            }
            return Some(i);
        }
        i += 1;
    }
    None
}

/// The event that is active, or with `false` one that is not: the last of
/// the table where several answer.
pub open spec fn found_by_active(events: Seq<EventView>, active: bool) -> Option<EventView> {
    let those = events.filter(with_active(active));
    if those.len() > 0 {
        Some(those.last())
    } else {
        None
    }
}

/// The event that runs.
pub open spec fn active_event(events: Seq<EventView>) -> Option<EventView> {
    found_by_active(events, true)
}

impl Event {
    /// The event that is active, or with `false` one that is not: the last
    /// of the table where several answer.
    pub fn find_by_active(events: &Vec<Event>, active: bool) -> (found: Option<Event>)
        ensures
            match found {
                Some(event) => found_by_active(views(events@), active) == Some(event@),
                None => found_by_active(views(events@), active) is None,
            },
    {
        let mut found = Event::find_by_archive_or_active(events, active, true);
        found.pop()
    }

    /// The events that are archived, or with `false` those that are not, in
    /// the order of the table.
    pub fn find_by_archive(events: &Vec<Event>, archive: bool) -> (found: Vec<Event>)
        ensures
            views(found@) == views(events@).filter(with_archived(archive)),
    {
        Event::find_by_archive_or_active(events, archive, false)
    }

    fn find_by_archive_or_active(events: &Vec<Event>, flag: bool, by_active: bool) -> (found: Vec<
        Event,
    >)
        ensures
            views(found@) == views(events@).filter(
                if by_active {
                    with_active(flag)
                } else {
                    with_archived(flag)
                },
            ),
    {
        let ghost rows = views(events@);
        let ghost keep = if by_active {
            with_active(flag)
        } else {
            with_archived(flag)
        };
        let mut found: Vec<Event> = Vec::new();
        let mut i: usize = 0;
        proof {
            filter_of_nothing(rows.take(0), keep);
            assert(views(found@) == rows.take(0).filter(keep));
        }
        while i < events.len()
            invariant
                i <= events.len(),
                rows == views(events@),
                keep == if by_active {
                    with_active(flag)
                } else {
                    with_archived(flag)
                },
                views(found@) == rows.take(i as int).filter(keep),
            decreases events.len() - i,
        {
            proof {
                filter_take_step(rows, keep, i as int);
            }
            let wanted = if by_active {
                events[i].active == flag
            } else {
                events[i].archived == flag
            };
            if wanted {
                let ghost before = found@;
                found.push(events[i].clone());
                assert(views(found@) == views(before).push(rows[i as int]));
            }
            i += 1;
        }
        assert(rows.take(rows.len() as int) == rows);
        found
    }

    /// Adds an event of that name, neither active nor archived, under the
    /// next id, and says how many rows that made: one. Fails with `Conflict`
    /// where an event of that name exists, with `StoreUnavailable` where no
    /// id is left; the table is then left as it was.
    pub fn create(events: &mut Vec<Event>, name: &str) -> (made: Result<u64, EngineError>)
        ensures
            made is Ok <==> !has_name(views(old(events)@), name@) && top_id(
                event_ids(views(old(events)@)),
            ) < i64::MAX,
            match made {
                Ok(rows) => {
                    &&& rows == 1
                    &&& !has_name(views(old(events)@), name@)
                    &&& views(final(events)@) == views(old(events)@).push(
                        EventView {
                            id: (top_id(event_ids(views(old(events)@))) + 1) as i64,
                            name: name@,
                            active: false,
                            archived: false,
                        },
                    )
                },
                Err(error) => {
                    &&& final(events)@ == old(events)@
                    &&& error == if has_name(views(old(events)@), name@) {
                        EngineError::Conflict
                    } else {
                        EngineError::StoreUnavailable
                    }
                    &&& !has_name(views(old(events)@), name@) ==> top_id(
                        event_ids(views(old(events)@)),
                    ) == i64::MAX
                },
            },
            registry_wf(views(old(events)@)) ==> registry_wf(views(final(events)@)),
    {
        let ghost rows = views(events@);
        let mut top: i64 = 0;
        let mut i: usize = 0;
        assert(event_ids(rows).take(0) == Seq::<i64>::empty());
        while i < events.len()
            invariant
                i <= events.len(),
                events@ == old(events)@,
                rows == views(events@),
                top == top_id(event_ids(rows).take(i as int)),
                forall|j: int| 0 <= j < i ==> (#[trigger] rows[j]).name != name@,
            decreases events.len() - i,
        {
            if same_text(events[i].name.as_str(), name) {
                assert(rows[i as int].name == name@);
                return Err(EngineError::Conflict);
            }
            proof {
                let ids = event_ids(rows);
                assert(ids.take(i + 1).drop_last() == ids.take(i as int));
                assert(ids.take(i + 1).last() == rows[i as int].id);
            }
            if top < events[i].id {
                top = events[i].id;
            }
            i += 1;
        }
        proof {
            assert(event_ids(rows).take(rows.len() as int) == event_ids(rows));
            top_id_is_greatest(event_ids(rows));
        }
        if top == i64::MAX {
            return Err(EngineError::StoreUnavailable);
        }
        events.push(Event { id: top + 1, name: String::from_str(name), active: false, archived: false });
        proof {
            let after = views(events@);
            assert(after == rows.push(after.last()));
            assert forall|j: int| 0 <= j < rows.len() implies (#[trigger] rows[j]).id != top + 1 by {
                assert(event_ids(rows)[j] == rows[j].id);
            }
            if registry_wf(rows) {
                assert forall|a: int, b: int| 0 <= a < b < after.len() implies (#[trigger] after[a]).id
                    != (#[trigger] after[b]).id && after[a].name != after[b].name && !(after[a].active
                    && after[b].active) by {
                    assert(after[a] == rows[a]);
                    if b < rows.len() {
                        assert(after[b] == rows[b]);
                    }
                }
            }
        }
        Ok(1)
    }

    /// Makes the event with that id the active one, and every other event
    /// inactive. Fails with `NotFound` where no event has that id and with
    /// `InvalidState` where the event is archived; nothing is changed then.
    pub fn activate(events: &mut Vec<Event>, id: i64) -> (done: Result<(), EngineError>)
        ensures
            match done {
                Ok(_) => {
                    &&& has_event(views(old(events)@), id)
                    &&& !event_of(views(old(events)@), id).archived
                    &&& views(final(events)@) == after_activate(views(old(events)@), id)
                },
                Err(error) => {
                    &&& final(events)@ == old(events)@
                    &&& error == if has_event(views(old(events)@), id) {
                        EngineError::InvalidState
                    } else {
                        EngineError::NotFound
                    }
                    &&& has_event(views(old(events)@), id) ==> event_of(
                        views(old(events)@),
                        id,
                    ).archived
                },
            },
            registry_wf(views(old(events)@)) ==> registry_wf(views(final(events)@)),
    {
        let ghost rows = views(events@);
        match event_position(events, id) {
            None => Err(EngineError::NotFound),
            Some(at) => {
                if events[at].archived {
                    return Err(EngineError::InvalidState);
                }
                let mut i: usize = 0;
                while i < events.len()
                    invariant
                        i <= events.len(),
                        events.len() == rows.len(),
                        rows == views(old(events)@),
                        forall|j: int|
                            0 <= j < i ==> (#[trigger] events@[j])@ == after_activate(rows, id)[j],
                        forall|j: int| i <= j < events.len() ==> (#[trigger] events@[j])@ == rows[j],
                    decreases events.len() - i,
                {
                    let event = Event {
                        id: events[i].id,
                        name: events[i].name.clone(),
                        active: events[i].id == id,
                        archived: events[i].archived,
                    };
                    events.set(i, event);
                    i += 1;
                }
                proof {
                    let after = views(events@);
                    assert(after =~= after_activate(rows, id));
                    if registry_wf(rows) {
                        assert forall|a: int, b: int| 0 <= a < b < after.len() implies (
                        #[trigger] after[a]).id != (#[trigger] after[b]).id && after[a].name
                            != after[b].name && !(after[a].active && after[b].active) by {
                            assert(rows[a].id != rows[b].id);
                        }
                        assert forall|a: int| 0 <= a < after.len() implies !((#[trigger] after[a]).active
                            && after[a].archived) by {
                            if after[a].active {
                                assert(rows[a].id == id);
                                if a != at {
                                    if a < at {
                                        assert(rows[a].id != rows[at as int].id);
                                    } else {
                                        assert(rows[at as int].id != rows[a].id);
                                    }
                                }
                            }
                        }
                    }
                }
                Ok(())
            },
        }
    }

    /// Archives the event with that id, for good: it is not active any more
    /// and cannot become so. Fails with `NotFound`, and changes nothing,
    /// where no event has that id.
    pub fn archive(events: &mut Vec<Event>, id: i64) -> (done: Result<(), EngineError>)
        ensures
            match done {
                Ok(_) => has_event(views(old(events)@), id) && views(final(events)@)
                    == after_archive(views(old(events)@), id),
                Err(error) => error == EngineError::NotFound && !has_event(views(old(events)@), id)
                    && final(events)@ == old(events)@,
            },
            registry_wf(views(old(events)@)) ==> registry_wf(views(final(events)@)),
    {
        let ghost rows = views(events@);
        match event_position(events, id) {
            None => Err(EngineError::NotFound),
            Some(_) => {
                let mut i: usize = 0;
                while i < events.len()
                    invariant
                        i <= events.len(),
                        events.len() == rows.len(),
                        rows == views(old(events)@),
                        forall|j: int|
                            0 <= j < i ==> (#[trigger] events@[j])@ == after_archive(rows, id)[j],
                        forall|j: int| i <= j < events.len() ==> (#[trigger] events@[j])@ == rows[j],
                    decreases events.len() - i,
                {
                    if events[i].id == id {
                        let event = Event {
                            id: events[i].id,
                            name: events[i].name.clone(),
                            active: false,
                            archived: true,
                        };
                        events.set(i, event);
                    }
                    i += 1;
                }
                proof {
                    let after = views(events@);
                    assert(after =~= after_archive(rows, id));
                    if registry_wf(rows) {
                        assert forall|a: int, b: int| 0 <= a < b < after.len() implies (
                        #[trigger] after[a]).id != (#[trigger] after[b]).id && after[a].name
                            != after[b].name && !(after[a].active && after[b].active) by {
                            assert(rows[a].id != rows[b].id);
                        }
                        assert forall|a: int| 0 <= a < after.len() implies !((#[trigger] after[a]).active
                            && after[a].archived) by {
                            assert(!(rows[a].active && rows[a].archived));
                        }
                    }
                }
                Ok(())
            },
        }
    }
}

/// Which challenges of an event are asked for.
#[derive(Clone, Copy, Debug, PartialEq, Eq)]
pub enum Selection {
    /// All that the event holds.
    All,
    /// Those that count by now.
    Active,
    /// Those that count by now and that somebody has completed.
    Completed,
    /// Those that count by now and that nobody has completed.
    Incomplete,
}

/// The challenges with a scenario that the event holds.
pub open spec fn enrolled_in(entries: Seq<ChallengeEntry>, event_id: i64) -> spec_fn(
    ChallengeView,
) -> bool {
    |challenge: ChallengeView|
        challenge.scenario is Some && holds_challenge(entries, event_id, challenge.id)
}

/// The challenges with a scenario that the event holds and that count at
/// `now`.
pub open spec fn active_in(entries: Seq<ChallengeEntry>, event_id: i64, now: i64) -> spec_fn(
    ChallengeView,
) -> bool {
    |challenge: ChallengeView|
        enrolled_in(entries, event_id)(challenge) && entry_of(
            entries,
            event_id,
            challenge.id,
        ).active_at(now)
}

/// Those of the event's active challenges that somebody has completed.
pub open spec fn completed_in(
    entries: Seq<ChallengeEntry>,
    records: Seq<CompletionRecord>,
    event_id: i64,
    now: i64,
) -> spec_fn(ChallengeView) -> bool {
    |challenge: ChallengeView|
        active_in(entries, event_id, now)(challenge) && completed_by_anyone(
            records,
            entry_of(entries, event_id, challenge.id).id,
        )
}

/// Those of the event's active challenges that nobody has completed.
pub open spec fn incomplete_in(
    entries: Seq<ChallengeEntry>,
    records: Seq<CompletionRecord>,
    event_id: i64,
    now: i64,
) -> spec_fn(ChallengeView) -> bool {
    |challenge: ChallengeView|
        active_in(entries, event_id, now)(challenge) && !completed_by_anyone(
            records,
            entry_of(entries, event_id, challenge.id).id,
        )
}

/// The challenges that a selection asks for.
pub open spec fn selected(
    which: Selection,
    entries: Seq<ChallengeEntry>,
    records: Seq<CompletionRecord>,
    event_id: i64,
    now: i64,
) -> spec_fn(ChallengeView) -> bool {
    match which {
        Selection::All => enrolled_in(entries, event_id),
        Selection::Active => active_in(entries, event_id, now),
        Selection::Completed => completed_in(entries, records, event_id, now),
        Selection::Incomplete => incomplete_in(entries, records, event_id, now),
    }
}

impl Event {
    /// The challenges of the event that a selection asks for, in the order
    /// of their codes.
    pub fn select_challenges(
        &self,
        which: Selection,
        challenges: &Vec<Challenge>,
        roster: &ChallengeRoster,
        completions: &Completions,
        now: i64,
    ) -> (found: Vec<Challenge>)
        ensures
            is_selection(
                views(found@),
                views(challenges@).filter(selected(which, roster@, completions@, self.id, now)),
            ),
    {
        let ghost rows = views(challenges@);
        let ghost keep = selected(which, roster@, completions@, self.id, now);
        let mut found: Vec<Challenge> = Vec::new();
        let mut i: usize = 0;
        proof {
            filter_of_nothing(rows.take(0), keep);
            assert(views(found@) =~= rows.take(0).filter(keep));
        }
        while i < challenges.len()
            invariant
                i <= challenges.len(),
                rows == views(challenges@),
                keep == selected(which, roster@, completions@, self.id, now),
                is_selection(views(found@), rows.take(i as int).filter(keep)),
            decreases challenges.len() - i,
        {
            proof {
                filter_take_step(rows, keep, i as int);
            }
            let challenge = &challenges[i];
            assert(challenge@ == rows[i as int]);
            let wanted = challenge.scenario.is_some() && match roster.find(self.id, challenge.id) {
                None => false,
                Some(entry) => match which {
                    Selection::All => true,
                    Selection::Active => entry.active_date <= now,
                    Selection::Completed => entry.active_date <= now && completions.holds_any(
                        entry.id,
                    ),
                    Selection::Incomplete => entry.active_date <= now && !completions.holds_any(
                        entry.id,
                    ),
                },
            };
            assert(wanted == keep(rows[i as int]));
            if wanted {
                let ghost kept = rows.take(i as int).filter(keep);
                insert_by_code(&mut found, challenge.clone());
                proof {
                    vstd::seq_lib::to_multiset_build(kept, rows[i as int]);
                }
            }
            i += 1;
        }
        assert(rows.take(rows.len() as int) == rows);
        found
    }

    /// The challenges that the event holds and that somebody has completed,
    /// in the order of their codes. Only challenges that count at `now`
    /// are asked for.
    pub fn find_completed_challenges(
        &self,
        challenges: &Vec<Challenge>,
        roster: &ChallengeRoster,
        completions: &Completions,
        now: i64,
    ) -> (found: Vec<Challenge>)
        ensures
            is_selection(
                views(found@),
                views(challenges@).filter(completed_in(roster@, completions@, self.id, now)),
            ),
    {
        self.select_challenges(Selection::Completed, challenges, roster, completions, now)
    }

    /// All challenges that the event holds, in the order of their codes.
    pub fn find_all_challenges(&self, challenges: &Vec<Challenge>, roster: &ChallengeRoster) -> (found:
        Vec<Challenge>)
        ensures
            is_selection(views(found@), views(challenges@).filter(enrolled_in(roster@, self.id))),
    {
        let nobody = Completions::new();
        self.select_challenges(Selection::All, challenges, roster, &nobody, 0)
    }

    /// The challenges that the event holds and that count at `now`, in the
    /// order of their codes.
    pub fn find_all_active_challenges(
        &self,
        challenges: &Vec<Challenge>,
        roster: &ChallengeRoster,
        now: i64,
    ) -> (found: Vec<Challenge>)
        ensures
            is_selection(
                views(found@),
                views(challenges@).filter(active_in(roster@, self.id, now)),
            ),
    {
        let nobody = Completions::new();
        self.select_challenges(Selection::Active, challenges, roster, &nobody, now)
    }

    /// The challenges that the event holds, that count at `now` and that
    /// nobody has completed, in the order of their codes.
    pub fn find_incomplete_active_challenges(
        &self,
        challenges: &Vec<Challenge>,
        roster: &ChallengeRoster,
        completions: &Completions,
        now: i64,
    ) -> (found: Vec<Challenge>)
        ensures
            is_selection(
                views(found@),
                views(challenges@).filter(incomplete_in(roster@, completions@, self.id, now)),
            ),
    {
        self.select_challenges(Selection::Incomplete, challenges, roster, completions, now)
    }
}

} // verus!
