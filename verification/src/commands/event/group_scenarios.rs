//! The commands of events whose scenarios the whole group completes.

use crate::chat::{Player, PlayerView};
use crate::error::EngineError;
use crate::lemmas::{filter_of_nothing, filter_take_step, views};
use crate::models::roster::{available_of_event, EntryState};
use crate::models::set::{set_with_id, ScenarioSet, SetView};
use crate::models::scenario::scenario_with_id;
use crate::sampling::{draw_strings, drawing};
use crate::text::{join_lines, texts};
use crate::utils::{format_collection, numbered_lines};
use crate::models::event::{active_event, Event, EventView};
use crate::models::roster::{
    after_claim, after_complete, claim_after_expiry_is_granted, claim_result,
    claims_exclude_each_other, complete_result, expired, place, ClaimOutcome, Lease, Roster,
    RosterEntry,
};
use crate::models::scenario::{coded, has_code, Scenario, ScenarioView};
use crate::models::user::{can_keep, id_for, stored_id, upserted, User};
use crate::progress::Progress;
use vstd::prelude::*;
use vstd::string::StringExecFns;

verus! {

/// What is said where no event runs.
pub open spec fn no_event_reply() -> Seq<char> {
    "No active event found."@
}

/// What is said where no scenario answers to the code.
pub open spec fn no_scenario_reply(code: Seq<char>) -> Seq<char> {
    "No scenario found by that code: "@ + code
}

/// What is said to a claim.
pub open spec fn claim_reply(outcome: Result<ClaimOutcome, EngineError>, title: Seq<char>, code: Seq<char>) -> Seq<char> {
    match outcome {
        Ok(ClaimOutcome::Claimed) => "Reserving Quest **"@ + title + "**"@,
        Ok(ClaimOutcome::AlreadyLeased { .. }) => "Quest **"@ + title + "** is already reserved."@,
        Ok(ClaimOutcome::AlreadyCompleted) => "Quest **"@ + title + "** is already completed."@,
        Err(_) => no_scenario_reply(code),
    }
}

/// What is said when a scenario is marked as done.
pub open spec fn complete_reply(result: Result<bool, EngineError>, title: Seq<char>, code: Seq<char>) -> Seq<char> {
    match result {
        Ok(_) => "Completed Quest: "@ + title,
        Err(_) => no_scenario_reply(code),
    }
}

fn no_event() -> (reply: String)
    ensures
        reply@ == no_event_reply(),
{
    String::from_str("No active event found.")
}

fn no_scenario(code: &str) -> (reply: String)
    ensures
        reply@ == no_scenario_reply(code@),
{
    let mut reply = String::from_str("No scenario found by that code: ");
    reply.append(code);
    reply
}

/// Marks the scenario with that code as done in the event that runs, and
/// says so. Whoever says that a scenario is done is believed: nobody has to
/// hold it. Nothing is changed where no event runs or no scenario of its
/// roster answers to the code.
pub fn complete(
    events: &Vec<Event>,
    scenarios: &Vec<Scenario>,
    roster: &mut Roster,
    code: &str,
    now: i64,
) -> (reply: String)
    ensures
        match active_event(views(events@)) {
            None => reply@ == no_event_reply() && final(roster)@ == old(roster)@,
            Some(event) => if has_code(views(scenarios@), code@) {
                let scenario = coded(views(scenarios@), code@);
                &&& reply@ == complete_reply(
                    complete_result(old(roster)@, event.id, scenario.id),
                    scenario.title,
                    code@,
                )
                &&& final(roster)@ == after_complete(old(roster)@, event.id, scenario.id, now)
            } else {
                reply@ == no_scenario_reply(code@) && final(roster)@ == old(roster)@
            },
        },
        old(roster).wf() ==> final(roster).wf(),
{
    let event = match Event::find_by_active(events, true) {
        Some(event) => event,
        None => {
            return no_event();
        },
    };
    let scenario = match Scenario::find_by_code(scenarios, code) {
        Some(scenario) => scenario,
        None => {
            return no_scenario(code);
        },
    };
    match roster.complete(event.id, scenario.id, now) {
        Ok(_) => {
            let mut reply = String::from_str("Completed Quest: ");
            reply.append(scenario.title.as_str());
            reply
        },
        Err(_) => no_scenario(code),
    }
}

/// Whether a checkout comes to the claim: an event runs, a scenario answers
/// to the code, and the table of users can keep the player.
pub open spec fn comes_to_claim(
    events: Seq<EventView>,
    scenarios: Seq<ScenarioView>,
    users: Seq<User>,
    code: Seq<char>,
    author: PlayerView,
) -> bool {
    &&& active_event(events) is Some
    &&& has_code(scenarios, code)
    &&& can_keep(users, stored_id(author.discord_id))
}

/// What a checkout answers: word that no event runs or that no scenario
/// answers to the code, `StoreUnavailable` where the player cannot be kept,
/// and else what is said to the claim.
pub open spec fn checkout_reply(
    events: Seq<EventView>,
    scenarios: Seq<ScenarioView>,
    users: Seq<User>,
    roster: Seq<RosterEntry>,
    code: Seq<char>,
    author: PlayerView,
    now: i64,
    ttl: u64,
) -> Result<Seq<char>, EngineError> {
    match active_event(events) {
        None => Ok(no_event_reply()),
        Some(event) => if !has_code(scenarios, code) {
            Ok(no_scenario_reply(code))
        } else if !can_keep(users, stored_id(author.discord_id)) {
            Err(EngineError::StoreUnavailable)
        } else {
            let scenario = coded(scenarios, code);
            Ok(
                claim_reply(
                    claim_result(roster, event.id, scenario.id, now, ttl),
                    scenario.title,
                    code,
                ),
            )
        },
    }
}

/// The roster after a checkout: as the claim of the player leaves it where
/// the checkout comes to the claim, and as it was where it does not.
pub open spec fn roster_after_checkout(
    events: Seq<EventView>,
    scenarios: Seq<ScenarioView>,
    users: Seq<User>,
    roster: Seq<RosterEntry>,
    code: Seq<char>,
    author: PlayerView,
    now: i64,
    ttl: u64,
) -> Seq<RosterEntry> {
    if comes_to_claim(events, scenarios, users, code, author) {
        after_claim(
            roster,
            active_event(events)->0.id,
            coded(scenarios, code).id,
            id_for(users, stored_id(author.discord_id)) as i64,
            now,
            ttl,
        )
    } else {
        roster
    }
}

/// What a reply says, as plain values.
pub open spec fn said(reply: Result<String, EngineError>) -> Result<Seq<char>, EngineError> {
    match reply {
        Ok(text) => Ok(text@),
        Err(error) => Err(error),
    }
}

/// Reserves the scenario with that code for the player, in the event that
/// runs, and says how that went. The player is looked up, and so made
/// known, before the claim is tried. Fails, with the roster as it was, only
/// where the player cannot be kept.
pub fn checkout(
    events: &Vec<Event>,
    scenarios: &Vec<Scenario>,
    users: &mut Vec<User>,
    roster: &mut Roster,
    code: &str,
    author: &Player,
    now: i64,
    ttl: u64,
) -> (reply: Result<String, EngineError>)
    ensures
        said(reply) == checkout_reply(
            views(events@),
            views(scenarios@),
            old(users)@,
            old(roster)@,
            code@,
            author@,
            now,
            ttl,
        ),
        final(roster)@ == roster_after_checkout(
            views(events@),
            views(scenarios@),
            old(users)@,
            old(roster)@,
            code@,
            author@,
            now,
            ttl,
        ),
        if comes_to_claim(views(events@), views(scenarios@), old(users)@, code@, author@) {
            upserted(old(users)@, final(users)@, stored_id(author.discord_id), author.name@)
        } else {
            final(users)@ == old(users)@
        },
        old(roster).wf() ==> final(roster).wf(),
{
    let event = match Event::find_by_active(events, true) {
        Some(event) => event,
        None => {
            return Ok(no_event());
        },
    };
    let scenario = match Scenario::find_by_code(scenarios, code) {
        Some(scenario) => scenario,
        None => {
            return Ok(no_scenario(code));
        },
    };
    let user = match User::find_or_create(users, &author.discord_id, author.name.as_str()) {
        Ok(user) => user,
        Err(error) => {
            return Err(error);
        },
    };
    let outcome = roster.claim(event.id, scenario.id, user.id, now, ttl);
    let title = scenario.title.as_str();
    let reply = match outcome {
        Ok(ClaimOutcome::Claimed) => {
            let mut text = String::from_str("Reserving Quest **");
            text.append(title);
            text.append("**");
            text
        },
        Ok(ClaimOutcome::AlreadyLeased { by: _, expires_at: _ }) => {
            let mut text = String::from_str("Quest **");
            text.append(title);
            text.append("** is already reserved.");
            text
        },
        Ok(ClaimOutcome::AlreadyCompleted) => {
            let mut text = String::from_str("Quest **");
            text.append(title);
            text.append("** is already completed.");
            text
        },
        Err(_) => no_scenario(code),
    };
    Ok(reply)
}

/// Of two checkouts of an open quest, the first reserves it and the second,
/// made before the reservation has run out, is told that the quest is
/// reserved and changes nothing: the quest stays with the first player,
/// from the time of the first checkout. This holds where the table of users
/// can keep both players.
pub proof fn checkouts_exclude_each_other(
    events: Seq<EventView>,
    scenarios: Seq<ScenarioView>,
    users: Seq<User>,
    users_between: Seq<User>,
    roster: Seq<RosterEntry>,
    code: Seq<char>,
    first: PlayerView,
    second: PlayerView,
    first_at: i64,
    second_at: i64,
    ttl: u64,
)
    requires
        comes_to_claim(events, scenarios, users, code, first),
        upserted(users, users_between, stored_id(first.discord_id), first.name),
        comes_to_claim(events, scenarios, users_between, code, second),
        claim_result(
            roster,
            active_event(events)->0.id,
            coded(scenarios, code).id,
            first_at,
            ttl,
        ) == Ok::<ClaimOutcome, EngineError>(ClaimOutcome::Claimed),
        !expired(first_at as int, second_at as int, ttl as int),
    ensures
        ({
            let title = coded(scenarios, code).title;
            let held = roster_after_checkout(
                events,
                scenarios,
                users,
                roster,
                code,
                first,
                first_at,
                ttl,
            );
            let at = place(roster, active_event(events)->0.id, coded(scenarios, code).id)->0;
            &&& checkout_reply(events, scenarios, users, roster, code, first, first_at, ttl)
                == Ok::<Seq<char>, EngineError>(
                claim_reply(Ok(ClaimOutcome::Claimed), title, code),
            )
            &&& checkout_reply(
                events,
                scenarios,
                users_between,
                held,
                code,
                second,
                second_at,
                ttl,
            ) == Ok::<Seq<char>, EngineError>("Quest **"@ + title + "** is already reserved."@)
            &&& roster_after_checkout(
                events,
                scenarios,
                users_between,
                held,
                code,
                second,
                second_at,
                ttl,
            ) == held
            &&& held[at].checkout == Some(
                Lease {
                    since: first_at,
                    user_id: id_for(users, stored_id(first.discord_id)) as i64,
                },
            )
        }),
{
    claims_exclude_each_other(
        roster,
        active_event(events)->0.id,
        coded(scenarios, code).id,
        id_for(users, stored_id(first.discord_id)) as i64,
        id_for(users_between, stored_id(second.discord_id)) as i64,
        first_at,
        second_at,
        ttl,
    );
}

/// A checkout made once the reservation of an earlier checkout has run out
/// reserves the quest like the first: the quest goes to the second player,
/// from the time of the second checkout. This holds where the table of users
/// can keep both players.
pub proof fn checkout_after_expiry_is_granted(
    events: Seq<EventView>,
    scenarios: Seq<ScenarioView>,
    users: Seq<User>,
    users_between: Seq<User>,
    roster: Seq<RosterEntry>,
    code: Seq<char>,
    first: PlayerView,
    second: PlayerView,
    first_at: i64,
    second_at: i64,
    ttl: u64,
)
    requires
        comes_to_claim(events, scenarios, users, code, first),
        upserted(users, users_between, stored_id(first.discord_id), first.name),
        comes_to_claim(events, scenarios, users_between, code, second),
        claim_result(
            roster,
            active_event(events)->0.id,
            coded(scenarios, code).id,
            first_at,
            ttl,
        ) == Ok::<ClaimOutcome, EngineError>(ClaimOutcome::Claimed),
        expired(first_at as int, second_at as int, ttl as int),
    ensures
        ({
            let title = coded(scenarios, code).title;
            let held = roster_after_checkout(
                events,
                scenarios,
                users,
                roster,
                code,
                first,
                first_at,
                ttl,
            );
            let at = place(roster, active_event(events)->0.id, coded(scenarios, code).id)->0;
            &&& checkout_reply(events, scenarios, users, roster, code, first, first_at, ttl)
                == Ok::<Seq<char>, EngineError>(
                claim_reply(Ok(ClaimOutcome::Claimed), title, code),
            )
            &&& checkout_reply(
                events,
                scenarios,
                users_between,
                held,
                code,
                second,
                second_at,
                ttl,
            ) == Ok::<Seq<char>, EngineError>(
                claim_reply(Ok(ClaimOutcome::Claimed), title, code),
            )
            &&& roster_after_checkout(
                events,
                scenarios,
                users_between,
                held,
                code,
                second,
                second_at,
                ttl,
            )[at].checkout == Some(
                Lease {
                    since: second_at,
                    user_id: id_for(users_between, stored_id(second.discord_id)) as i64,
                },
            )
        }),
{
    claim_after_expiry_is_granted(
        roster,
        active_event(events)->0.id,
        coded(scenarios, code).id,
        id_for(users, stored_id(first.discord_id)) as i64,
        id_for(users_between, stored_id(second.discord_id)) as i64,
        first_at,
        second_at,
        ttl,
    );
}

/// How many scenarios the event that runs has on its roster, and how many
/// of them are done; nothing where no event runs.
pub fn progress(events: &Vec<Event>, roster: &Roster) -> (counted: Option<Progress>)
    ensures
        match active_event(views(events@)) {
            None => counted is None,
            Some(event) => counted matches Some(p) && p.total == roster@.filter(
                crate::models::roster::of_event(event.id),
            ).len() && p.completed == roster@.filter(
                crate::models::roster::done_of_event(event.id),
            ).len() && p.wf(),
        },
{
    match Event::find_by_active(events, true) {
        Some(event) => Some(roster.progress(event.id)),
        None => None,
    }
}

/// The line of a quest in the listing.
pub open spec fn quest_text(scenario: ScenarioView, set: SetView) -> Seq<char> {
    scenario.title + " from "@ + set.name + " **with Code**: "@ + scenario.code
}

/// The line of the quest that a roster entry stands for: nothing where the
/// scenario or its set is not known.
pub open spec fn quest_of(scenarios: Seq<ScenarioView>, sets: Seq<SetView>) -> spec_fn(RosterEntry) -> Option<
    Seq<char>,
> {
    |entry: RosterEntry|
        match scenario_with_id(scenarios, entry.scenario_id) {
            Some(scenario) => match set_with_id(sets, scenario.set_id) {
                Some(set) => Some(quest_text(scenario, set)),
                None => None,
            },
            None => None,
        }
}

/// The lines of the quests of an event that can be claimed at `now`, in
/// the order of the roster.
pub open spec fn open_quests(
    entries: Seq<RosterEntry>,
    scenarios: Seq<ScenarioView>,
    sets: Seq<SetView>,
    event_id: i64,
    now: i64,
    ttl: u64,
) -> Seq<Seq<char>> {
    entries.filter(available_of_event(event_id, now, ttl)).filter_map(quest_of(scenarios, sets))
}

/// What is said of the quests that were drawn.
pub open spec fn quests_reply(drawn: Seq<Seq<char>>) -> Seq<char> {
    if drawn.len() == 0 {
        "No more quests registered with this event."@
    } else {
        join_lines(numbered_lines(drawn))
    }
}

/// Lists up to `quantity` quests of the event that runs which are neither
/// done nor reserved at `now`, drawn at random without replacement: those
/// that the draw gives for the seed. The listing reserves nothing.
pub fn equest(
    events: &Vec<Event>,
    scenarios: &Vec<Scenario>,
    sets: &Vec<ScenarioSet>,
    roster: &Roster,
    quantity: usize,
    seed: u64,
    now: i64,
    ttl: u64,
) -> (reply: String)
    ensures
        match active_event(views(events@)) {
            None => reply@ == no_event_reply(),
            Some(event) => reply@ == quests_reply(
                drawing(
                    open_quests(roster@, views(scenarios@), views(sets@), event.id, now, ttl),
                    quantity as nat,
                    seed,
                ),
            ),
        },
{
    let event = match Event::find_by_active(events, true) {
        Some(event) => event,
        None => {
            return no_event();
        },
    };
    let ghost keep = available_of_event(event.id, now, ttl);
    let ghost line = quest_of(views(scenarios@), views(sets@));
    let mut lines: Vec<String> = Vec::new();
    let mut i: usize = 0;
    proof {
        filter_of_nothing(roster@.take(0), keep);
        assert(texts(lines@) =~= roster@.take(0).filter(keep).filter_map(line));
    }
    while i < roster.entries.len()
        invariant
            i <= roster.entries.len(),
            keep == available_of_event(event.id, now, ttl),
            line == quest_of(views(scenarios@), views(sets@)),
            texts(lines@) == roster@.take(i as int).filter(keep).filter_map(line),
        decreases roster.entries.len() - i,
    {
        let entry = roster.entries[i];
        let ghost kept = roster@.take(i as int).filter(keep);
        proof {
            filter_take_step(roster@, keep, i as int);
        }
        let open = entry.event_id == event.id && match entry.current_state(now, ttl) {
            EntryState::Open => true,
            _ => false,
        };
        if open {
            assert(kept.push(entry).drop_last() == kept);
            match Scenario::find_by_id(scenarios, entry.scenario_id) {
                Some(scenario) => match ScenarioSet::find_by_id(sets, scenario.set_id) {
                    Some(set) => {
                        let mut text = String::new();
                        text.append(scenario.title.as_str());
                        text.append(" from ");
                        text.append(set.name.as_str());
                        text.append(" **with Code**: ");
                        text.append(scenario.code.as_str());
                        let ghost before = texts(lines@);
                        lines.push(text);
                        assert(texts(lines@) =~= before.push(quest_text(scenario@, set@)));
                    },
                    None => {},
                },
                None => {},
            }
        }
        i += 1;
    }
    assert(roster@.take(roster@.len() as int) == roster@);
    let drawn = draw_strings(&lines, quantity, seed);
    let reply = if drawn.len() == 0 {
        String::from_str("No more quests registered with this event.")
    } else {
        format_collection(&drawn)
    };
    proof {
        let quests = open_quests(roster@, views(scenarios@), views(sets@), event.id, now, ttl);
        assert(texts(lines@) == quests);
        assert(texts(drawn@).len() == drawn@.len());
        assert(reply@ == quests_reply(texts(drawn@)));
    }
    reply
}

} // verus!
