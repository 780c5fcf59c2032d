//! The commands of events whose challenges the whole group completes.

use crate::commands::event::{one_message, show_groups, shows_groups, GAUNTLET_TAG};
use crate::lemmas::views;
use crate::models::challenge::{is_selection, Challenge, ChallengeView};
use crate::models::completion::{ChallengeEntry, ChallengeRoster, CompletionRecord, Completions};
use crate::models::event::{
    active_event, active_in, incomplete_in, Event, EventView,
};
use crate::progress::{done_in_scope, event_scope, group_challenge_progress, in_scope, Progress};
use crate::text::texts;
use vstd::prelude::*;
use vstd::string::StringExecFns;

verus! {

/// Whether the messages answer a question for the challenges of the event
/// that runs, of which `wanted` tells those that are asked for.
pub open spec fn group_reply(
    messages: Seq<Seq<char>>,
    events: Seq<EventView>,
    challenges: Seq<ChallengeView>,
    wanted: spec_fn(i64) -> spec_fn(ChallengeView) -> bool,
) -> bool {
    match active_event(events) {
        None => messages == seq!["No active event found."@],
        Some(event) => {
            let source = challenges.filter(wanted(event.id));
            if source.len() == 0 {
                messages == seq!["No challenges found."@]
            } else {
                exists|found: Seq<ChallengeView>| #[trigger]
                    is_selection(found, source) && shows_groups(messages, found)
            }
        },
    }
}

fn answer(found: Vec<Challenge>, Ghost(source): Ghost<Seq<ChallengeView>>) -> (messages: Vec<String>)
    requires
        is_selection(views(found@), source),
    ensures
        if source.len() == 0 {
            texts(messages@) == seq!["No challenges found."@]
        } else {
            exists|shown: Seq<ChallengeView>| #[trigger]
                is_selection(shown, source) && shows_groups(texts(messages@), shown)
        },
{
    proof {
        vstd::seq_lib::to_multiset_len(views(found@));
        vstd::seq_lib::to_multiset_len(source);
    }
    if found.len() == 0 {
        one_message("No challenges found.")
    } else {
        let ghost shown = views(found@);
        let messages = show_groups(found);
        assert(is_selection(shown, source) && shows_groups(texts(messages@), shown));
        messages
    }
}

/// The challenges of an event that count at `now` and that nobody has
/// completed.
pub open spec fn left_at(entries: Seq<ChallengeEntry>, records: Seq<CompletionRecord>, now: i64) -> spec_fn(
    i64,
) -> spec_fn(ChallengeView) -> bool {
    |event_id: i64| incomplete_in(entries, records, event_id, now)
}

/// The challenges of an event that count at `now`.
pub open spec fn counting_at(entries: Seq<ChallengeEntry>, now: i64) -> spec_fn(i64) -> spec_fn(
    ChallengeView,
) -> bool {
    |event_id: i64| active_in(entries, event_id, now)
}

/// Lists the challenges of the event that runs which are left for the
/// group, by scenario.
pub fn cgroup(
    events: &Vec<Event>,
    challenges: &Vec<Challenge>,
    roster: &ChallengeRoster,
    completions: &Completions,
    now: i64,
) -> (messages: Vec<String>)
    ensures
        group_reply(
            texts(messages@),
            views(events@),
            views(challenges@),
            left_at(roster@, completions@, now),
        ),
{
    let event = match Event::find_by_active(events, true) {
        Some(event) => event,
        None => {
            return one_message("No active event found.");
        },
    };
    let found = event.find_incomplete_active_challenges(challenges, roster, completions, now);
    answer(
        found,
        Ghost(views(challenges@).filter(incomplete_in(roster@, completions@, event.id, now))),
    )
}

/// Lists all challenges of the event that runs which count by now, by
/// scenario.
pub fn cgroupall(
    events: &Vec<Event>,
    challenges: &Vec<Challenge>,
    roster: &ChallengeRoster,
    now: i64,
) -> (messages: Vec<String>)
    ensures
        group_reply(
            texts(messages@),
            views(events@),
            views(challenges@),
            counting_at(roster@, now),
        ),
{
    let event = match Event::find_by_active(events, true) {
        Some(event) => event,
        None => {
            return one_message("No active event found.");
        },
    };
    let found = event.find_all_active_challenges(challenges, roster, now);
    answer(found, Ghost(views(challenges@).filter(active_in(roster@, event.id, now))))
}

/// The progress of the group in the challenges of the event that runs;
/// nothing where no event runs.
pub fn cgroupprogress(
    events: &Vec<Event>,
    challenges: &Vec<Challenge>,
    roster: &ChallengeRoster,
    completions: &Completions,
    now: i64,
) -> (counted: Option<Progress>)
    ensures
        match active_event(views(events@)) {
            None => counted is None,
            Some(event) => counted matches Some(p) && p.wf() && p.total == views(
                challenges@,
            ).filter(in_scope(event_scope(GAUNTLET_TAG@), roster@, event.id, now)).len()
                && p.completed == views(challenges@).filter(
                done_in_scope(
                    event_scope(GAUNTLET_TAG@),
                    roster@,
                    completions@,
                    event.id,
                    now,
                    None,
                ),
            ).len(),
        },
{
    match Event::find_by_active(events, true) {
        Some(event) => Some(
            group_challenge_progress(challenges, roster, completions, event.id, now, GAUNTLET_TAG),
        ),
        None => None,
    }
}

} // verus!
