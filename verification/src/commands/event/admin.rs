//! The commands of those who run the events.

use crate::lemmas::{filter_of_nothing, filter_take_step, views};
use crate::models::challenge::{Challenge, ChallengeView};
use crate::models::completion::{after_load_all, entry_ids, ChallengeRoster};
use crate::models::event::{
    after_activate, after_archive, has_name, registry_wf, with_archived, Event, EventView,
};
use crate::models::roster::{after_enroll_all, place, Roster, RosterEntry};
use crate::models::scenario::{Scenario, ScenarioView};
use crate::models::set::{ScenarioSet, SetView};
use crate::text::{decimal, decimal_chars, digits_in, is_number, join_lines, number_of, push_chars, texts};
use crate::utils::{format_collection, numbered_lines, pick_collection, picked, PickError};
use vstd::prelude::*;
use vstd::string::StringExecFns;

verus! {

/// What a command does next in a talk with a player.
pub enum Turn {
    /// It says the text and waits for a reply.
    Ask(String),
    /// It says the text and is done.
    Say(String),
    /// It is done and says nothing.
    Silent,
}

/// What a turn holds, as plain values.
pub enum TurnView {
    Ask(Seq<char>),
    Say(Seq<char>),
    Silent,
}

impl View for Turn {
    type V = TurnView;

    open spec fn view(&self) -> TurnView {
        match self {
            Turn::Ask(text) => TurnView::Ask(text@),
            Turn::Say(text) => TurnView::Say(text@),
            Turn::Silent => TurnView::Silent,
        }
    }
}

/// The names of the events.
pub open spec fn names_of(events: Seq<EventView>) -> Seq<Seq<char>> {
    Seq::new(events.len(), |i: int| events[i].name)
}

/// The events that can be made the active one: those that are neither
/// active nor archived.
pub open spec fn can_be_set() -> spec_fn(EventView) -> bool {
    |event: EventView| !event.active && !event.archived
}

fn names(events: &Vec<Event>) -> (names: Vec<String>)
    ensures
        texts(names@) == names_of(views(events@)),
{
    let mut names: Vec<String> = Vec::new();
    let mut i: usize = 0;
    while i < events.len()
        invariant
            i <= events.len(),
            names.len() == i,
            forall|j: int| 0 <= j < i ==> names@[j]@ == events@[j].name@,
        decreases events.len() - i,
    {
        names.push(events[i].name.clone());
        i += 1;
    }
    assert(texts(names@) =~= names_of(views(events@)));
    names
}

fn settable(events: &Vec<Event>) -> (found: Vec<Event>)
    ensures
        views(found@) == views(events@).filter(can_be_set()),
{
    let ghost rows = views(events@);
    let mut found: Vec<Event> = Vec::new();
    let mut i: usize = 0;
    proof {
        filter_of_nothing(rows.take(0), can_be_set());
        assert(views(found@) =~= rows.take(0).filter(can_be_set()));
    }
    while i < events.len()
        invariant
            i <= events.len(),
            rows == views(events@),
            views(found@) == rows.take(i as int).filter(can_be_set()),
        decreases events.len() - i,
    {
        proof {
            filter_take_step(rows, can_be_set(), i as int);
        }
        if !events[i].active && !events[i].archived {
            let ghost before = views(found@);
            found.push(events[i].clone());
            assert(views(found@) =~= before.push(rows[i as int]));
        }
        i += 1;
    }
    assert(rows.take(rows.len() as int) == rows);
    found
}

/// What is said of an event that was asked for.
pub open spec fn create_reply(name: Seq<char>, made: bool) -> Seq<char> {
    if name.len() == 0 {
        "Must specify a name: !event create <name>"@
    } else if made {
        "Created event '"@ + name + "'"@
    } else {
        "Could not create an event by that name. It already exists."@
    }
}

/// Adds an event of that name, and says so. Nothing is added where the
/// name is empty, is taken, or no id is left.
pub fn create(events: &mut Vec<Event>, name: &str) -> (reply: String)
    ensures
        ({
            let before = views(old(events)@);
            let made = name@.len() > 0 && !has_name(before, name@) && crate::lemmas::top_id(
                crate::models::event::event_ids(before),
            ) < i64::MAX;
            &&& reply@ == create_reply(name@, made)
            &&& if made {
                views(final(events)@) == before.push(
                    EventView {
                        id: (crate::lemmas::top_id(crate::models::event::event_ids(before)) + 1) as i64,
                        name: name@,
                        active: false,
                        archived: false,
                    },
                )
            } else {
                final(events)@ == old(events)@
            }
        }),
        registry_wf(views(old(events)@)) ==> registry_wf(views(final(events)@)),
{
    if name.unicode_len() == 0 {
        return String::from_str("Must specify a name: !event create <name>");
    }
    proof {
        crate::lemmas::top_id_is_greatest(crate::models::event::event_ids(views(events@)));
    }
    match Event::create(events, name) {
        Ok(_) => {
            let mut reply = String::from_str("Created event '");
            reply.append(name);
            reply.append("'");
            reply
        },
        Err(_) => String::from_str("Could not create an event by that name. It already exists."),
    }
}

/// The list of the events that can be made the active one.
pub fn set_prompt(events: &Vec<Event>) -> (prompt: String)
    ensures
        prompt@ == join_lines(numbered_lines(names_of(views(events@).filter(can_be_set())))),
{
    let found = settable(events);
    format_collection(&names(&found))
}

/// What is said of an event that was made the active one.
pub open spec fn set_reply(name: Seq<char>) -> Seq<char> {
    "'"@ + name + "' is now the active event."@
}

/// Whether the reply is a number that the machine can hold.
pub open spec fn is_choice(reply: Seq<char>) -> bool {
    is_number(reply) && number_of(digits_in(reply)) <= usize::MAX
}

/// Whether there is a reply and it is no number that the machine can hold.
pub open spec fn is_no_choice(reply: Option<Seq<char>>) -> bool {
    match reply {
        Some(text) => !is_choice(text),
        None => false,
    }
}

/// The event that a reply picks from a list, if it picks one.
pub open spec fn picked_event(events: Seq<EventView>, reply: Option<Seq<char>>) -> Option<EventView> {
    match reply {
        None => None,
        Some(text) => match picked(text, events.len()) {
            Some(at) => Some(events[at as int]),
            None => None,
        },
    }
}

/// The view of a reply.
pub open spec fn reply_view(reply: Option<&str>) -> Option<Seq<char>> {
    match reply {
        Some(text) => Some(text@),
        None => None,
    }
}

/// Makes the event that the reply picks from the list the active one, and
/// says so; no reply, or one that picks nothing, changes nothing and gets no
/// answer. A reply that is no number is an error. Where the table is out
/// of order, so that the id of the event picked is that of an archived one
/// before it, nothing is changed either.
pub fn set(events: &mut Vec<Event>, reply: Option<&str>) -> (said: Result<Option<String>, PickError>)
    ensures
        if is_no_choice(reply_view(reply)) {
            said == Err::<Option<String>, PickError>(PickError::NotANumber) && final(events)@
                == old(events)@
        } else {
            match picked_event(views(old(events)@).filter(can_be_set()), reply_view(reply)) {
                Some(event) => if crate::models::event::event_of(
                    views(old(events)@),
                    event.id,
                ).archived {
                    said == Ok::<Option<String>, PickError>(None) && final(events)@ == old(events)@
                } else {
                    &&& said matches Ok(Some(text)) && text@ == set_reply(event.name)
                    &&& views(final(events)@) == after_activate(views(old(events)@), event.id)
                },
                None => said == Ok::<Option<String>, PickError>(None) && final(events)@ == old(
                    events,
                )@,
            }
        },
        registry_wf(views(old(events)@)) ==> registry_wf(views(final(events)@)),
{
    let found = settable(events);
    assert(views(found@).len() == found@.len());
    let choice = match pick_collection(reply, &found) {
        Ok(choice) => choice,
        Err(error) => {
            return Err(error);
        },
    };
    match choice {
        None => Ok(None),
        Some(event) => {
            proof {
                crate::lemmas::filter_keeps_members(views(events@), can_be_set());
                let rows = views(events@);
                let kept = rows.filter(can_be_set());
                let at = picked(reply_view(reply)->0, kept.len())->0 as int;
                assert(event@ == kept[at]);
                assert(rows.contains(kept[at]));
            }
            match Event::activate(events, event.id) {
                Ok(_) => {
                    let mut text = String::from_str("'");
                    text.append(event.name.as_str());
                    text.append("' is now the active event.");
                    Ok(Some(text))
                },
                Err(_) => Ok(None),
            }
        },
    }
}

/// Why a command of those who run the events fails.
#[derive(Clone, Copy, Debug, PartialEq, Eq)]
pub enum AdminError {
    /// The reply is not a number that the machine can hold.
    NotANumber,
    /// The store cannot take the rows.
    StoreUnavailable,
}

/// What is said where every event is archived.
pub open spec fn no_unarchived_reply() -> Seq<char> {
    "There are no unarchived events. Please create one."@
}

/// The turn that opens a talk about one of the events that are not
/// archived: their list, or word that there is none.
pub open spec fn unarchived_turn(events: Seq<EventView>) -> TurnView {
    let open = events.filter(with_archived(false));
    if open.len() == 0 {
        TurnView::Say(no_unarchived_reply())
    } else {
        TurnView::Ask(join_lines(numbered_lines(names_of(open))))
    }
}

/// Opens a talk about one of the events that are not archived.
pub fn unarchived_prompt(events: &Vec<Event>) -> (turn: Turn)
    ensures
        turn@ == unarchived_turn(views(events@)),
{
    let open = Event::find_by_archive(events, false);
    assert(views(open@).len() == open@.len());
    if open.len() == 0 {
        Turn::Say(String::from_str("There are no unarchived events. Please create one."))
    } else {
        Turn::Ask(format_collection(&names(&open)))
    }
}

/// What is said of an event that was archived, or could not be.
pub open spec fn archive_reply(archived: Option<EventView>) -> Seq<char> {
    match archived {
        Some(event) => "'"@ + event.name + "' is now archived."@,
        None => "Could not archive event."@,
    }
}

/// Archives the event that the reply picks from the list of those that are
/// not archived, and says so. No reply, or one that picks nothing, changes
/// nothing. A reply that is no number is an error.
pub fn archive(events: &mut Vec<Event>, reply: Option<&str>) -> (said: Result<String, PickError>)
    ensures
        if is_no_choice(reply_view(reply)) {
            said == Err::<String, PickError>(PickError::NotANumber) && final(events)@ == old(
                events,
            )@
        } else {
            let chosen = picked_event(
                views(old(events)@).filter(with_archived(false)),
                reply_view(reply),
            );
            &&& said matches Ok(text) && text@ == archive_reply(chosen)
            &&& match chosen {
                Some(event) => views(final(events)@) == after_archive(
                    views(old(events)@),
                    event.id,
                ),
                None => final(events)@ == old(events)@,
            }
        },
        registry_wf(views(old(events)@)) ==> registry_wf(views(final(events)@)),
{
    let open = Event::find_by_archive(events, false);
    assert(views(open@).len() == open@.len());
    let choice = match pick_collection(reply, &open) {
        Ok(choice) => choice,
        Err(error) => {
            return Err(error);
        },
    };
    match choice {
        None => Ok(String::from_str("Could not archive event.")),
        Some(event) => {
            proof {
                crate::lemmas::filter_keeps_members(views(events@), with_archived(false));
                let rows = views(events@);
                let kept = rows.filter(with_archived(false));
                let at = picked(reply_view(reply)->0, kept.len())->0 as int;
                assert(event@ == kept[at]);
                assert(rows.contains(kept[at]));
            }
            let _ = Event::archive(events, event.id);
            let mut text = String::from_str("'");
            text.append(event.name.as_str());
            text.append("' is now archived.");
            Ok(text)
        },
    }
}

/// The id of a challenge whose scenario stands on the roster of the event;
/// nothing for another challenge.
pub open spec fn loadable(scenarios_of_event: Seq<RosterEntry>, event_id: i64) -> spec_fn(
    ChallengeView,
) -> Option<i64> {
    |challenge: ChallengeView|
        match challenge.scenario {
            Some(scenario) => if place(scenarios_of_event, event_id, scenario.id) is Some {
                Some(challenge.id)
            } else {
                None
            },
            None => None,
        }
}

/// What is said of challenges that were put on a roster.
pub open spec fn loaded_reply(count: nat) -> Seq<char> {
    decimal(count) + " challenges added."@
}

fn counted(count: usize, what: &str) -> (text: String)
    ensures
        text@ == decimal(count as nat) + what@,
{
    let mut text = String::new();
    push_chars(&mut text, &decimal_chars(count as u64));
    text.append(what);
    text
}

/// Puts on the roster of the event that the reply picks all challenges
/// whose scenario stands on its roster, to count from `now` on, and says
/// how many that were. No reply, or one that picks nothing, changes nothing
/// and gets no answer. Fails where the reply is no number, and where the
/// store cannot take the rows.
pub fn cload(
    events: &Vec<Event>,
    challenges: &Vec<Challenge>,
    scenarios_of_event: &Roster,
    roster: &mut ChallengeRoster,
    reply: Option<&str>,
    now: i64,
) -> (said: Result<Option<String>, AdminError>)
    ensures
        if is_no_choice(reply_view(reply)) {
            said == Err::<Option<String>, AdminError>(AdminError::NotANumber) && final(roster)@
                == old(roster)@
        } else {
            match picked_event(views(events@).filter(with_archived(false)), reply_view(reply)) {
                None => said == Ok::<Option<String>, AdminError>(None) && final(roster)@ == old(
                    roster,
                )@,
                Some(event) => {
                    let ids = views(challenges@).filter_map(
                        loadable(scenarios_of_event@, event.id),
                    );
                    if crate::lemmas::top_id(entry_ids(old(roster)@)) + ids.len() > i64::MAX {
                        said == Err::<Option<String>, AdminError>(AdminError::StoreUnavailable)
                            && final(roster)@ == old(roster)@
                    } else {
                        &&& final(roster)@ == after_load_all(old(roster)@, event.id, ids, now)
                        &&& said matches Ok(Some(text)) && text@ == loaded_reply(
                            (final(roster)@.len() - old(roster)@.len()) as nat,
                        )
                    }
                },
            }
        },
        old(roster).wf() ==> final(roster).wf(),
{
    let open = Event::find_by_archive(events, false);
    assert(views(open@).len() == open@.len());
    let choice = match pick_collection(reply, &open) {
        Ok(choice) => choice,
        Err(_) => {
            return Err(AdminError::NotANumber);
        },
    };
    let event = match choice {
        None => {
            return Ok(None);
        },
        Some(event) => event,
    };
    let ghost rows = views(challenges@);
    let ghost pick = loadable(scenarios_of_event@, event.id);
    let mut ids: Vec<i64> = Vec::new();
    let mut i: usize = 0;
    assert(ids@ =~= rows.take(0).filter_map(pick));
    while i < challenges.len()
        invariant
            i <= challenges.len(),
            rows == views(challenges@),
            pick == loadable(scenarios_of_event@, event.id),
            ids@ == rows.take(i as int).filter_map(pick),
        decreases challenges.len() - i,
    {
        proof {
            rows.lemma_filter_map_take_succ(pick, i as int);
        }
        let challenge = &challenges[i];
        assert(challenge@ == rows[i as int]);
        match &challenge.scenario {
            Some(scenario) => {
                if scenarios_of_event.position(event.id, scenario.id).is_some() {
                    ids.push(challenge.id);
                }
            },
            None => {},
        }
        i += 1;
    }
    assert(rows.take(rows.len() as int) == rows);
    match roster.load(event.id, &ids, now) {
        Ok(count) => Ok(Some(counted(count, " challenges added."))),
        Err(_) => Err(AdminError::StoreUnavailable),
    }
}

/// Where the talk about adding scenarios to an event stands: what the next
/// reply is taken for.
#[derive(Clone, Copy, Debug, PartialEq, Eq)]
pub enum AddState {
    /// The number of an event that is not archived.
    PickEvent,
    /// The way to add: one scenario, a set, or all.
    PickMode { event_id: i64 },
    /// The number of a set; `single` tells that one scenario of it comes
    /// next, not the whole set.
    PickSet { event_id: i64, single: bool },
    /// The number of a scenario of the set.
    PickScenario { event_id: i64, set_id: i64 },
}

/// What a step of the talk leads to.
pub struct AddStep {
    /// What the next reply is taken for; nothing where the talk is over.
    pub next: Option<AddState>,
    /// What is said.
    pub say: Option<String>,
}

/// What a step holds, as plain values.
pub struct AddStepView {
    pub next: Option<AddState>,
    pub say: Option<Seq<char>>,
}

impl View for AddStep {
    type V = AddStepView;

    open spec fn view(&self) -> AddStepView {
        AddStepView {
            next: self.next,
            say: match self.say {
                Some(text) => Some(text@),
                None => None,
            },
        }
    }
}

/// The question for the way to add.
pub open spec fn mode_menu() -> Seq<char> {
    "Do you want to add individual scenarios or by set?\n1.) Scenarios\n2.) Set\n3.) All\n"@
}

/// The names of the sets.
pub open spec fn set_names(sets: Seq<SetView>) -> Seq<Seq<char>> {
    Seq::new(sets.len(), |i: int| sets[i].name)
}

/// The titles of the scenarios.
pub open spec fn titles_of(scenarios: Seq<ScenarioView>) -> Seq<Seq<char>> {
    Seq::new(scenarios.len(), |i: int| scenarios[i].title)
}

/// The ids of the scenarios.
pub open spec fn scenario_ids(scenarios: Seq<ScenarioView>) -> Seq<i64> {
    Seq::new(scenarios.len(), |i: int| scenarios[i].id)
}

/// The scenarios of a set.
pub open spec fn in_set(set_id: i64) -> spec_fn(ScenarioView) -> bool {
    |scenario: ScenarioView| scenario.set_id == set_id
}

/// The list of all sets, under its heading.
pub open spec fn sets_prompt(sets: Seq<SetView>) -> Seq<char> {
    "Here are all the sets:\n"@ + join_lines(numbered_lines(set_names(sets)))
}

/// What is said of scenarios that were put on a roster.
pub open spec fn added_reply(count: nat) -> Seq<char> {
    decimal(count) + " scenarios added."@
}

/// The place that a reply picks in a list of `len`, if it picks one.
pub open spec fn picked_place(reply: Option<Seq<char>>, len: nat) -> Option<nat> {
    match reply {
        None => None,
        Some(text) => picked(text, len),
    }
}

/// What a step of the talk says and leads to, and what it leaves on the
/// roster, given a reply that is a number where a number is asked for.
pub open spec fn add_step(
    state: AddState,
    reply: Option<Seq<char>>,
    events: Seq<EventView>,
    sets: Seq<SetView>,
    scenarios: Seq<ScenarioView>,
    roster: Seq<RosterEntry>,
    now: i64,
) -> (AddStepView, Seq<RosterEntry>) {
    match state {
        AddState::PickEvent => {
            let open = events.filter(with_archived(false));
            match picked_place(reply, open.len()) {
                Some(at) => (
                    AddStepView {
                        next: Some(AddState::PickMode { event_id: open[at as int].id }),
                        say: Some(mode_menu()),
                    },
                    roster,
                ),
                None => (AddStepView { next: None, say: None }, roster),
            }
        },
        AddState::PickMode { event_id } => {
            if reply == Some("1"@) {
                (
                    AddStepView {
                        next: Some(AddState::PickSet { event_id, single: true }),
                        say: Some(sets_prompt(sets)),
                    },
                    roster,
                )
            } else if reply == Some("2"@) {
                (
                    AddStepView {
                        next: Some(AddState::PickSet { event_id, single: false }),
                        say: Some(sets_prompt(sets)),
                    },
                    roster,
                )
            } else if reply == Some("3"@) {
                let after = after_enroll_all(roster, event_id, scenario_ids(scenarios), now);
                (
                    AddStepView {
                        next: None,
                        say: Some(added_reply((after.len() - roster.len()) as nat)),
                    },
                    after,
                )
            } else {
                (AddStepView { next: None, say: None }, roster)
            }
        },
        AddState::PickSet { event_id, single } => {
            match picked_place(reply, sets.len()) {
                None => (AddStepView { next: None, say: Some("Not a valid index."@) }, roster),
                Some(at) => {
                    let set_id = sets[at as int].id;
                    let members = scenarios.filter(in_set(set_id));
                    if single {
                        (
                            AddStepView {
                                next: Some(AddState::PickScenario { event_id, set_id }),
                                say: Some(join_lines(numbered_lines(titles_of(members)))),
                            },
                            roster,
                        )
                    } else {
                        let after = after_enroll_all(roster, event_id, scenario_ids(members), now);
                        (
                            AddStepView {
                                next: None,
                                say: Some(added_reply((after.len() - roster.len()) as nat)),
                            },
                            after,
                        )
                    }
                },
            }
        },
        AddState::PickScenario { event_id, set_id } => {
            let members = scenarios.filter(in_set(set_id));
            match picked_place(reply, members.len()) {
                None => (AddStepView { next: None, say: Some("Not a valid choice."@) }, roster),
                Some(at) => {
                    let after = after_enroll_all(roster, event_id, seq![members[at as int].id], now);
                    (
                        AddStepView {
                            next: None,
                            say: Some(added_reply((after.len() - roster.len()) as nat)),
                        },
                        after,
                    )
                },
            }
        },
    }
}

/// Whether the state asks for a number.
pub open spec fn asks_number(state: AddState) -> bool {
    !(state is PickMode)
}

fn members_of(scenarios: &Vec<Scenario>, set_id: i64) -> (members: Vec<Scenario>)
    ensures
        views(members@) == views(scenarios@).filter(in_set(set_id)),
{
    let ghost rows = views(scenarios@);
    let mut members: Vec<Scenario> = Vec::new();
    let mut i: usize = 0;
    proof {
        filter_of_nothing(rows.take(0), in_set(set_id));
        assert(views(members@) =~= rows.take(0).filter(in_set(set_id)));
    }
    while i < scenarios.len()
        invariant
            i <= scenarios.len(),
            rows == views(scenarios@),
            views(members@) == rows.take(i as int).filter(in_set(set_id)),
        decreases scenarios.len() - i,
    {
        proof {
            filter_take_step(rows, in_set(set_id), i as int);
        }
        if scenarios[i].set_id == set_id {
            let ghost before = views(members@);
            members.push(scenarios[i].clone());
            assert(views(members@) =~= before.push(rows[i as int]));
        }
        i += 1;
    }
    assert(rows.take(rows.len() as int) == rows);
    members
}

fn ids_of(scenarios: &Vec<Scenario>) -> (ids: Vec<i64>)
    ensures
        ids@ == scenario_ids(views(scenarios@)),
{
    let mut ids: Vec<i64> = Vec::new();
    let mut i: usize = 0;
    while i < scenarios.len()
        invariant
            i <= scenarios.len(),
            ids.len() == i,
            forall|j: int| 0 <= j < i ==> ids@[j] == scenarios@[j].id,
        decreases scenarios.len() - i,
    {
        ids.push(scenarios[i].id);
        i += 1;
    }
    assert(ids@ =~= scenario_ids(views(scenarios@)));
    ids
}

fn titles(scenarios: &Vec<Scenario>) -> (titles: Vec<String>)
    ensures
        texts(titles@) == titles_of(views(scenarios@)),
{
    let mut titles: Vec<String> = Vec::new();
    let mut i: usize = 0;
    while i < scenarios.len()
        invariant
            i <= scenarios.len(),
            titles.len() == i,
            forall|j: int| 0 <= j < i ==> titles@[j]@ == scenarios@[j].title@,
        decreases scenarios.len() - i,
    {
        titles.push(scenarios[i].title.clone());
        i += 1;
    }
    assert(texts(titles@) =~= titles_of(views(scenarios@)));
    titles
}

fn sets_list(sets: &Vec<ScenarioSet>) -> (prompt: String)
    ensures
        prompt@ == sets_prompt(views(sets@)),
{
    let mut names: Vec<String> = Vec::new();
    let mut i: usize = 0;
    while i < sets.len()
        invariant
            i <= sets.len(),
            names.len() == i,
            forall|j: int| 0 <= j < i ==> names@[j]@ == sets@[j].name@,
        decreases sets.len() - i,
    {
        names.push(sets[i].name.clone());
        i += 1;
    }
    assert(texts(names@) =~= set_names(views(sets@)));
    let mut prompt = String::from_str("Here are all the sets:\n");
    prompt.append(format_collection(&names).as_str());
    prompt
}

/// Takes one step in the talk about adding scenarios to an event: reads
/// the reply for what the state asks, puts scenarios on the roster where the
/// talk has come to that, and says what is due. A scenario that stands on
/// the roster already is not put there again. Where the state asks for a
/// number and the reply is none that the machine can hold, that is an
/// error, and nothing is changed.
pub fn add(
    state: AddState,
    reply: Option<&str>,
    events: &Vec<Event>,
    sets: &Vec<ScenarioSet>,
    scenarios: &Vec<Scenario>,
    roster: &mut Roster,
    now: i64,
) -> (step: Result<AddStep, PickError>)
    ensures
        if asks_number(state) && is_no_choice(reply_view(reply)) {
            step is Err && final(roster)@ == old(roster)@
        } else {
            let due = add_step(
                state,
                reply_view(reply),
                views(events@),
                views(sets@),
                views(scenarios@),
                old(roster)@,
                now,
            );
            &&& step matches Ok(taken) && taken@ == due.0
            &&& final(roster)@ == due.1
        },
        old(roster).wf() ==> final(roster).wf(),
{
    match state {
        AddState::PickEvent => {
            let open = Event::find_by_archive(events, false);
            assert(views(open@).len() == open@.len());
            match pick_collection(reply, &open) {
                Err(error) => Err(error),
                Ok(None) => Ok(AddStep { next: None, say: None }),
                Ok(Some(event)) => Ok(
                    AddStep {
                        next: Some(AddState::PickMode { event_id: event.id }),
                        say: Some(
                            String::from_str(
                                "Do you want to add individual scenarios or by set?\n1.) Scenarios\n2.) Set\n3.) All\n",
                            ),
                        ),
                    },
                ),
            }
        },
        AddState::PickMode { event_id } => {
            let choice = match reply {
                Some(text) => if crate::text::same_text(text, "1") {
                    1u8
                } else if crate::text::same_text(text, "2") {
                    2u8
                } else if crate::text::same_text(text, "3") {
                    3u8
                } else {
                    0u8
                },
                None => 0u8,
            };
            proof {
                reveal_strlit("1");
                reveal_strlit("2");
                reveal_strlit("3");
            }
            if choice == 1 {
                Ok(
                    AddStep {
                        next: Some(AddState::PickSet { event_id, single: true }),
                        say: Some(sets_list(sets)),
                    },
                )
            } else if choice == 2 {
                Ok(
                    AddStep {
                        next: Some(AddState::PickSet { event_id, single: false }),
                        say: Some(sets_list(sets)),
                    },
                )
            } else if choice == 3 {
                let count = roster.enroll_all(event_id, &ids_of(scenarios), now);
                Ok(AddStep { next: None, say: Some(counted(count, " scenarios added.")) })
            } else {
                Ok(AddStep { next: None, say: None })
            }
        },
        AddState::PickSet { event_id, single } => {
            assert(views(sets@).len() == sets@.len());
            match pick_collection(reply, sets) {
                Err(error) => Err(error),
                Ok(None) => Ok(
                    AddStep { next: None, say: Some(String::from_str("Not a valid index.")) },
                ),
                Ok(Some(set)) => {
                    let members = members_of(scenarios, set.id);
                    if single {
                        Ok(
                            AddStep {
                                next: Some(AddState::PickScenario { event_id, set_id: set.id }),
                                say: Some(format_collection(&titles(&members))),
                            },
                        )
                    } else {
                        let count = roster.enroll_all(event_id, &ids_of(&members), now);
                        Ok(AddStep { next: None, say: Some(counted(count, " scenarios added.")) })
                    }
                },
            }
        },
        AddState::PickScenario { event_id, set_id } => {
            let members = members_of(scenarios, set_id);
            assert(views(members@).len() == members@.len());
            match pick_collection(reply, &members) {
                Err(error) => Err(error),
                Ok(None) => Ok(
                    AddStep { next: None, say: Some(String::from_str("Not a valid choice.")) },
                ),
                Ok(Some(scenario)) => {
                    let mut one: Vec<i64> = Vec::new();
                    one.push(scenario.id);
                    assert(one@ =~= seq![scenario@.id]);
                    let count = roster.enroll_all(event_id, &one, now);
                    Ok(AddStep { next: None, say: Some(counted(count, " scenarios added.")) })
                },
            }
        },
    }
}

} // verus!
