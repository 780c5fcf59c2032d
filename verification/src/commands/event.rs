//! The commands on the challenges of the event that runs.

pub mod admin;
pub mod group_challenges;
pub mod group_scenarios;
pub mod kang;

use crate::chat::{mentions_of, push_mentions, Player, PlayerView};
use crate::error::EngineError;
use crate::lemmas::views;
use crate::models::challenge::{Challenge, ChallengeView};
use crate::models::completion::{
    after_records, entry_of, holds_challenge, record_of, records_of_player, ChallengeEntry,
    ChallengeRoster, CompletionRecord, Completions,
};
use crate::models::event::{active_event, Event};
use crate::models::challenge::{group_by_scenario, is_grouping, ScenarioGroup, ScenarioGroupView};
use crate::models::roster::{place, Roster, RosterEntry};
use crate::progress::{
    actor_challenge_progress, event_scope, group_challenge_progress, in_scope,
    Progress,
};
use crate::models::scenario::{scenario_with_id, Scenario, ScenarioView};
use crate::sampling::{draw, drawing, is_sample};
use crate::text::texts;
use crate::utils::{format_challenges_by_scenario, group_message};
use crate::models::user::{
    can_keep, id_for, knows_user, stored_id, upsert_keeps_ids, upsert_makes_known, upserted,
    User,
};
use vstd::prelude::*;
use vstd::string::StringExecFns;

verus! {

/// The players of a completion: who says so, then who is mentioned.
pub open spec fn players_of(author: PlayerView, mentions: Seq<PlayerView>) -> Seq<PlayerView> {
    seq![author] + mentions
}

/// The ids that the chat service has for the players.
pub open spec fn discord_ids_of(players: Seq<PlayerView>) -> Seq<u64> {
    Seq::new(players.len(), |k: int| players[k].discord_id)
}

/// The ids under which the table of users keeps the players.
pub open spec fn player_ids(users: Seq<User>, players: Seq<PlayerView>) -> Seq<i64> {
    Seq::new(players.len(), |k: int| id_for(users, stored_id(players[k].discord_id)) as i64)
}

/// Whether `after` is the table `before` once the player was looked up,
/// which the table could do.
pub open spec fn upserted_player(before: Seq<User>, after: Seq<User>, player: PlayerView) -> bool {
    &&& can_keep(before, stored_id(player.discord_id))
    &&& upserted(before, after, stored_id(player.discord_id), player.name)
}

/// Whether `after` is the table `before` once each of the players was
/// looked up, one after the other, and could be kept.
pub open spec fn upserted_all(before: Seq<User>, after: Seq<User>, players: Seq<PlayerView>) -> bool
    decreases players.len(),
{
    if players.len() == 0 {
        after == before
    } else {
        exists|middle: Seq<User>|
            upserted_all(before, middle, players.drop_last()) && #[trigger] upserted_player(
                middle,
                after,
                players.last(),
            )
    }
}

/// One more player looked up carries the table one step on.
pub proof fn upserted_one_more(
    before: Seq<User>,
    middle: Seq<User>,
    after: Seq<User>,
    players: Seq<PlayerView>,
)
    requires
        players.len() > 0,
        upserted_all(before, middle, players.drop_last()),
        can_keep(middle, stored_id(players.last().discord_id)),
        upserted(middle, after, stored_id(players.last().discord_id), players.last().name),
    ensures
        upserted_all(before, after, players),
{
    assert(upserted_player(middle, after, players.last()));
}

/// The ids of the chat service of those players for whom recording them one
/// after the other made a record, in their order.
pub open spec fn newly_mentioned(
    records: Seq<CompletionRecord>,
    challenge_event_id: i64,
    user_ids: Seq<i64>,
    discord_ids: Seq<u64>,
) -> Seq<u64>
    decreases user_ids.len(),
{
    if user_ids.len() == 0 || discord_ids.len() != user_ids.len() {
        Seq::empty()
    } else {
        let earlier = newly_mentioned(
            records,
            challenge_event_id,
            user_ids.drop_last(),
            discord_ids.drop_last(),
        );
        if after_records(records, challenge_event_id, user_ids.drop_last()).contains(
            record_of(challenge_event_id, user_ids.last()),
        ) {
            earlier
        } else {
            earlier.push(discord_ids.last())
        }
    }
}

/// What is said of a completion: those for whom it is news are told so;
/// where it is news for nobody, everybody is told that.
pub open spec fn completion_reply(everybody: Seq<u64>, news: Seq<u64>, challenge: Seq<char>) -> Seq<char> {
    if news.len() == 0 {
        mentions_of(everybody) + "All users have already completed challenge '"@ + challenge + "'"@
    } else {
        mentions_of(news) + "You completed challenge '"@ + challenge + "'"@
    }
}

/// Whether the table of users got as far as the player at `k` and could not
/// keep that player, with the records made for the players before.
pub open spec fn stopped_at(
    users_before: Seq<User>,
    users_after: Seq<User>,
    records_before: Seq<CompletionRecord>,
    records_after: Seq<CompletionRecord>,
    challenge_event_id: i64,
    players: Seq<PlayerView>,
    k: int,
) -> bool {
    &&& 0 <= k < players.len()
    &&& upserted_all(users_before, users_after, players.take(k))
    &&& !can_keep(users_after, stored_id(players[k].discord_id))
    &&& records_after == after_records(
        records_before,
        challenge_event_id,
        player_ids(users_after, players.take(k)),
    )
}

/// Whether the tables and the reply are as recording the players leaves
/// them: either everybody was looked up and recorded and the reply says for
/// whom that was news, or the table of users could not keep one of the
/// players, and what was recorded for the players before stays.
pub open spec fn recorded(
    users_before: Seq<User>,
    users_after: Seq<User>,
    records_before: Seq<CompletionRecord>,
    records_after: Seq<CompletionRecord>,
    challenge_event_id: i64,
    challenge: Seq<char>,
    players: Seq<PlayerView>,
    reply: Result<String, EngineError>,
) -> bool {
    match reply {
        Ok(text) => {
            let ids = player_ids(users_after, players);
            &&& upserted_all(users_before, users_after, players)
            &&& records_after == after_records(records_before, challenge_event_id, ids)
            &&& text@ == completion_reply(
                discord_ids_of(players),
                newly_mentioned(records_before, challenge_event_id, ids, discord_ids_of(players)),
                challenge,
            )
        },
        Err(error) => error == EngineError::StoreUnavailable && exists|k: int|
            stopped_at(
                users_before,
                users_after,
                records_before,
                records_after,
                challenge_event_id,
                players,
                k,
            ),
    }
}

/// Records that the author and everybody mentioned have completed the
/// challenge with that entry, and says for whom that was news. Each player
/// is looked up, and so made known, before the record is made. Fails with
/// `StoreUnavailable` at the first player who cannot be kept; what was
/// recorded for the players before stays.
pub fn record_completions(
    users: &mut Vec<User>,
    completions: &mut Completions,
    challenge_event_id: i64,
    challenge: &str,
    author: &Player,
    mentions: &Vec<Player>,
) -> (reply: Result<String, EngineError>)
    ensures
        recorded(
            old(users)@,
            final(users)@,
            old(completions)@,
            final(completions)@,
            challenge_event_id,
            challenge@,
            players_of(author@, views(mentions@)),
            reply,
        ),
        old(completions).wf() ==> final(completions).wf(),
{
    let ghost players = players_of(author@, views(mentions@));
    let ghost dids = discord_ids_of(players);
    let ghost users0 = users@;
    let ghost records0 = completions@;
    let mut everybody: Vec<u64> = Vec::new();
    let mut news: Vec<u64> = Vec::new();
    let mut first: bool = true;
    let mut m: usize = 0;
    let ghost mut i: int = 0;
    proof {
        assert(players.take(0) =~= Seq::<PlayerView>::empty());
        assert(player_ids(users@, players.take(0)) =~= Seq::<i64>::empty());
        assert(dids.take(0) =~= Seq::<u64>::empty());
    }
    // The author stands at place 0, the mentions behind.
    while first || m < mentions.len()
        invariant
            m <= mentions.len(),
            first ==> m == 0,
            i == if first {
                0
            } else {
                m + 1
            },
            players == players_of(author@, views(mentions@)),
            dids == discord_ids_of(players),
            users0 == old(users)@,
            records0 == old(completions)@,
            upserted_all(users0, users@, players.take(i as int)),
            forall|k: int| 0 <= k < i ==> knows_user(users@, stored_id(#[trigger] players[k].discord_id)),
            completions@ == after_records(
                records0,
                challenge_event_id,
                player_ids(users@, players.take(i as int)),
            ),
            news@ == newly_mentioned(
                records0,
                challenge_event_id,
                player_ids(users@, players.take(i as int)),
                dids.take(i as int),
            ),
            everybody@ == dids.take(i as int),
            old(completions).wf() ==> completions.wf(),
        decreases mentions.len() + 1 - i,
    {
        let player: &Player = if first {
            author
        } else {
            &mentions[m]
        };
        assert(player@ == players[i as int]);
        let ghost before = users@;
        let ghost key = stored_id(player.discord_id);
        let ghost done = players.take(i);
        let ghost next = players.take(i + 1);
        let user = match User::find_or_create(users, &player.discord_id, player.name.as_str()) {
            Ok(user) => user,
            Err(error) => {
                proof {
                    assert(stopped_at(
                        users0,
                        users@,
                        records0,
                        completions@,
                        challenge_event_id,
                        players,
                        i as int,
                    ));
                }
                return Err(error);
            },
        };
        proof {
            assert(next.drop_last() == done);
            assert(next.last() == players[i as int]);
            upsert_makes_known(before, users@, key, player.name@);
            assert forall|k: int| 0 <= k < i + 1 implies knows_user(
                users@,
                stored_id(#[trigger] players[k].discord_id),
            ) by {
                if k < i {
                    upsert_keeps_ids(
                        before,
                        users@,
                        key,
                        player.name@,
                        stored_id(players[k].discord_id),
                    );
                }
            }
            assert forall|k: int| 0 <= k < i implies id_for(
                users@,
                stored_id(#[trigger] players[k].discord_id),
            ) == id_for(before, stored_id(players[k].discord_id)) by {
                upsert_keeps_ids(before, users@, key, player.name@, stored_id(players[k].discord_id));
            }
            assert(player_ids(users@, done) =~= player_ids(before, done));
            assert(player_ids(users@, next).drop_last() =~= player_ids(users@, done));
            assert(player_ids(users@, next).last() == user.id);
            assert(dids.take(i + 1).drop_last() =~= dids.take(i as int));
            assert(dids.take(i + 1).last() == player.discord_id);
            assert(upserted_all(users0, before, next.drop_last()));
            assert(can_keep(before, stored_id(next.last().discord_id)));
            assert(upserted(before, users@, stored_id(next.last().discord_id), next.last().name));
            upserted_one_more(users0, before, users@, next);
        }
        if completions.record(challenge_event_id, user.id) {
            news.push(player.discord_id);
        }
        everybody.push(player.discord_id);
        if first {
            first = false;
        } else {
            m += 1;
        }
        proof {
            i = i + 1;
        }
    }
    proof {
        assert(players.take(players.len() as int) == players);
        assert(dids.take(dids.len() as int) == dids);
    }
    let mut text = String::new();
    if news.len() == 0 {
        push_mentions(&mut text, &everybody);
        text.append("All users have already completed challenge '");
    } else {
        push_mentions(&mut text, &news);
        text.append("You completed challenge '");
    }
    text.append(challenge);
    text.append("'");
    Ok(text)
}

/// Whether the challenge answers to the code in the event, and carries the
/// tag where one is asked for.
pub open spec fn answers(
    challenge: ChallengeView,
    entries: Seq<ChallengeEntry>,
    event_id: i64,
    code: Seq<char>,
    tag: Option<Seq<char>>,
) -> bool {
    &&& challenge.code == code
    &&& holds_challenge(entries, event_id, challenge.id)
    &&& tag matches Some(text) ==> challenge.attributes.contains(text)
}

/// Whether `i` is the place of the first challenge that answers.
pub open spec fn is_target_place(
    challenges: Seq<ChallengeView>,
    entries: Seq<ChallengeEntry>,
    event_id: i64,
    code: Seq<char>,
    tag: Option<Seq<char>>,
    i: int,
) -> bool {
    &&& 0 <= i < challenges.len()
    &&& answers(challenges[i], entries, event_id, code, tag)
    &&& forall|j: int|
        0 <= j < i ==> !answers(#[trigger] challenges[j], entries, event_id, code, tag)
}

/// The first challenge that answers to the code in the event, if any does.
pub open spec fn target(
    challenges: Seq<ChallengeView>,
    entries: Seq<ChallengeEntry>,
    event_id: i64,
    code: Seq<char>,
    tag: Option<Seq<char>>,
) -> Option<ChallengeView> {
    if exists|i: int| is_target_place(challenges, entries, event_id, code, tag, i) {
        Some(challenges[choose|i: int| is_target_place(challenges, entries, event_id, code, tag, i)])
    } else {
        None
    }
}

/// The first challenge that answers to the code in the event, with its
/// entry on the roster of the event.
pub fn find_target<'a>(
    challenges: &'a Vec<Challenge>,
    roster: &ChallengeRoster,
    event_id: i64,
    code: &str,
    tag: Option<&str>,
) -> (found: Option<(&'a Challenge, ChallengeEntry)>)
    ensures
        match found {
            Some((challenge, entry)) => target(
                views(challenges@),
                roster@,
                event_id,
                code@,
                crate::progress::tag_view(tag),
            ) == Some(challenge@) && entry == entry_of(roster@, event_id, challenge.id),
            None => target(
                views(challenges@),
                roster@,
                event_id,
                code@,
                crate::progress::tag_view(tag),
            ) is None,
        },
{
    let ghost rows = views(challenges@);
    let ghost wanted = crate::progress::tag_view(tag);
    let mut i: usize = 0;
    while i < challenges.len()
        invariant
            i <= challenges.len(),
            rows == views(challenges@),
            wanted == crate::progress::tag_view(tag),
            forall|j: int| 0 <= j < i ==> !answers(#[trigger] rows[j], roster@, event_id, code@, wanted),
        decreases challenges.len() - i,
    {
        let challenge = &challenges[i];
        assert(challenge@ == rows[i as int]);
        if crate::text::same_text(challenge.code.as_str(), code) {
            let tagged = match tag {
                Some(text) => challenge.has_attribute(text),
                None => true,
            };
            if tagged {
                match roster.find(event_id, challenge.id) {
                    Some(entry) => {
                        proof {
                            assert(is_target_place(rows, roster@, event_id, code@, wanted, i as int));
                            let k = choose|k: int|
                                is_target_place(rows, roster@, event_id, code@, wanted, k);
                            assert(k == i);
                        }
                        return Some((challenge, entry));
                    },
                    None => {},
                }
            }
        }
        i += 1;
    }
    proof {
        if exists|k: int| is_target_place(rows, roster@, event_id, code@, wanted, k) {
            let k = choose|k: int| is_target_place(rows, roster@, event_id, code@, wanted, k);
            assert(answers(rows[k], roster@, event_id, code@, wanted));
        }
    }
    None
}

/// Records for each of the players that they have completed the challenge
/// with that code in the event, and hands back those for whom that was
/// news. Fails with `NotFound`, and changes nothing, where no challenge of
/// the event answers to the code.
pub fn complete_challenge(
    challenges: &Vec<Challenge>,
    roster: &ChallengeRoster,
    completions: &mut Completions,
    event_id: i64,
    code: &str,
    user_ids: &Vec<i64>,
) -> (news: Result<Vec<i64>, EngineError>)
    ensures
        match target(views(challenges@), roster@, event_id, code@, None) {
            None => news == Err::<Vec<i64>, EngineError>(EngineError::NotFound) && final(completions)@
                == old(completions)@,
            Some(challenge) => {
                let entry = entry_of(roster@, event_id, challenge.id).id;
                &&& news matches Ok(new) && new@ == crate::models::completion::newly_completed(
                    old(completions)@,
                    entry,
                    user_ids@,
                )
                &&& final(completions)@ == after_records(old(completions)@, entry, user_ids@)
            },
        },
        old(completions).wf() ==> final(completions).wf(),
{
    match find_target(challenges, roster, event_id, code, None) {
        None => Err(EngineError::NotFound),
        Some((_, entry)) => Ok(completions.complete_challenge(entry.id, user_ids)),
    }
}

/// Records that the author and everybody mentioned have completed the
/// challenge with that code in the event that runs, and says for whom that
/// was news. Nothing is changed where no event runs or no challenge of it
/// answers to the code.
pub fn ccomplete(
    events: &Vec<Event>,
    challenges: &Vec<Challenge>,
    roster: &ChallengeRoster,
    users: &mut Vec<User>,
    completions: &mut Completions,
    code: &str,
    author: &Player,
    mentions: &Vec<Player>,
) -> (reply: Result<String, EngineError>)
    ensures
        match active_event(views(events@)) {
            None => {
                &&& reply matches Ok(text) && text@ == "There is no active event."@
                &&& final(users)@ == old(users)@
                &&& final(completions)@ == old(completions)@
            },
            Some(event) => match target(views(challenges@), roster@, event.id, code@, None) {
                None => {
                    &&& reply matches Ok(text) && text@ == "Could not find a challenge by that code."@
                    &&& final(users)@ == old(users)@
                    &&& final(completions)@ == old(completions)@
                },
                Some(challenge) => recorded(
                    old(users)@,
                    final(users)@,
                    old(completions)@,
                    final(completions)@,
                    entry_of(roster@, event.id, challenge.id).id,
                    challenge.name,
                    players_of(author@, views(mentions@)),
                    reply,
                ),
            },
        },
        old(completions).wf() ==> final(completions).wf(),
{
    let event = match Event::find_by_active(events, true) {
        Some(event) => event,
        None => {
            return Ok(String::from_str("There is no active event."));
        },
    };
    match find_target(challenges, roster, event.id, code, None) {
        None => Ok(String::from_str("Could not find a challenge by that code.")),
        Some((challenge, entry)) => record_completions(
            users,
            completions,
            entry.id,
            challenge.name.as_str(),
            author,
            mentions,
        ),
    }
}

/// The tag of the challenges that are drawn one by one and not counted.
pub const GAUNTLET_TAG: &'static str = "Gauntlet";

/// Whether the messages show the challenges by scenario: one message for
/// each scenario, in the order of the scenarios' codes.
pub open spec fn shows_groups(messages: Seq<Seq<char>>, challenges: Seq<ChallengeView>) -> bool {
    exists|groups: Seq<ScenarioGroupView>|
        {
            &&& #[trigger] is_grouping(groups, challenges)
            &&& messages.len() == groups.len()
            &&& forall|i: int|
                0 <= i < messages.len() ==> #[trigger] messages[i] == group_message(
                    i as nat,
                    groups.len() / 10,
                    groups[i],
                )
        }
}

/// The messages that show the challenges by scenario.
pub fn show_groups(challenges: Vec<Challenge>) -> (messages: Vec<String>)
    ensures
        shows_groups(texts(messages@), views(challenges@)),
{
    let groups = group_by_scenario(challenges);
    let messages = format_challenges_by_scenario(&groups);
    proof {
        let shown = texts(messages@);
        let model = views(groups@);
        assert(is_grouping(model, views(challenges@)));
        assert(shown.len() == model.len());
        assert forall|i: int| 0 <= i < shown.len() implies #[trigger] shown[i] == group_message(
            i as nat,
            model.len() / 10,
            model[i],
        ) by {
            assert(shown[i] == messages@[i]@);
        }
    }
    messages
}

/// The challenges that the listing of all challenges of an event shows:
/// those that the event holds, whose scenario stands on its roster, and
/// that do not carry the tag of the gauntlet.
pub open spec fn listed_in_call(
    scenarios_of_event: Seq<RosterEntry>,
    entries: Seq<ChallengeEntry>,
    event_id: i64,
) -> spec_fn(ChallengeView) -> bool {
    |challenge: ChallengeView|
        {
            &&& challenge.scenario matches Some(scenario) && place(
                scenarios_of_event,
                event_id,
                scenario.id,
            ) is Some
            &&& holds_challenge(entries, event_id, challenge.id)
            &&& !challenge.attributes.contains(GAUNTLET_TAG@)
        }
}

/// The messages that answer a call for all challenges.
pub open spec fn call_reply(
    messages: Seq<Seq<char>>,
    events: Seq<crate::models::event::EventView>,
    challenges: Seq<ChallengeView>,
    scenarios_of_event: Seq<RosterEntry>,
    entries: Seq<ChallengeEntry>,
) -> bool {
    match active_event(events) {
        None => messages == seq!["No active event found."@],
        Some(event) => {
            let listed = challenges.filter(listed_in_call(scenarios_of_event, entries, event.id));
            if listed.len() == 0 {
                messages == seq!["No challenges found."@]
            } else {
                shows_groups(messages, listed)
            }
        },
    }
}

/// The text as the one message of a reply.
pub(crate) fn one_message(text: &str) -> (messages: Vec<String>)
    ensures
        texts(messages@) == seq![text@],
{
    let mut messages: Vec<String> = Vec::new();
    messages.push(String::from_str(text));
    assert(texts(messages@) =~= seq![text@]);
    messages
}

/// Lists all challenges of the event that runs, by scenario, a message for
/// each scenario.
pub fn call(
    events: &Vec<Event>,
    challenges: &Vec<Challenge>,
    scenarios_of_event: &Roster,
    roster: &ChallengeRoster,
) -> (messages: Vec<String>)
    ensures
        call_reply(
            texts(messages@),
            views(events@),
            views(challenges@),
            scenarios_of_event@,
            roster@,
        ),
{
    let event = match Event::find_by_active(events, true) {
        Some(event) => event,
        None => {
            return one_message("No active event found.");
        },
    };
    let ghost rows = views(challenges@);
    let ghost keep = listed_in_call(scenarios_of_event@, roster@, event.id);
    let mut listed: Vec<Challenge> = Vec::new();
    let mut i: usize = 0;
    proof {
        crate::lemmas::filter_of_nothing(rows.take(0), keep);
        assert(views(listed@) =~= rows.take(0).filter(keep));
    }
    while i < challenges.len()
        invariant
            i <= challenges.len(),
            rows == views(challenges@),
            keep == listed_in_call(scenarios_of_event@, roster@, event.id),
            views(listed@) == rows.take(i as int).filter(keep),
        decreases challenges.len() - i,
    {
        proof {
            crate::lemmas::filter_take_step(rows, keep, i as int);
        }
        let challenge = &challenges[i];
        assert(challenge@ == rows[i as int]);
        let on_roster = match &challenge.scenario {
            Some(scenario) => scenarios_of_event.position(event.id, scenario.id).is_some(),
            None => false,
        };
        if on_roster && roster.find(event.id, challenge.id).is_some() && !challenge.has_attribute(
            GAUNTLET_TAG,
        ) {
            let ghost before = views(listed@);
            listed.push(challenge.clone());
            assert(views(listed@) =~= before.push(rows[i as int]));
        }
        i += 1;
    }
    assert(rows.take(rows.len() as int) == rows);
    if listed.len() == 0 {
        one_message("No challenges found.")
    } else {
        show_groups(listed)
    }
}

/// The progress of the player in the challenges of the event that runs:
/// how many challenges count, and how many records the player has in the
/// event; nothing where no event runs. A player whom the keeper does not
/// know has no records.
pub fn cprogress(
    events: &Vec<Event>,
    challenges: &Vec<Challenge>,
    roster: &ChallengeRoster,
    completions: &Completions,
    users: &Vec<User>,
    author: &Player,
    now: i64,
) -> (counted: Option<Progress>)
    ensures
        match active_event(views(events@)) {
            None => counted is None,
            Some(event) => {
                let key = stored_id(author.discord_id);
                &&& counted matches Some(p) && p.total == views(challenges@).filter(
                    in_scope(event_scope(GAUNTLET_TAG@), roster@, event.id, now),
                ).len() && p.completed == if knows_user(users@, key) {
                    completions@.filter(
                        records_of_player(roster@, event.id, id_for(users@, key) as i64),
                    ).len()
                } else {
                    0
                }
            },
        },
{
    let event = match Event::find_by_active(events, true) {
        Some(event) => event,
        None => {
            return None;
        },
    };
    match User::find_by_discord_id(users, author.discord_id) {
        Some(user) => Some(
            actor_challenge_progress(
                challenges,
                roster,
                completions,
                event.id,
                now,
                GAUNTLET_TAG,
                user.id,
            ),
        ),
        None => {
            let all = group_challenge_progress(
                challenges,
                roster,
                completions,
                event.id,
                now,
                GAUNTLET_TAG,
            );
            Some(Progress { completed: 0, total: all.total })
        },
    }
}

/// How many scenarios a player is shown to pick challenges from.
pub const QUEST_COUNT: usize = 3;

/// The challenges of a scenario that the event holds and that do not carry
/// the tag of the gauntlet.
pub open spec fn counting_in(entries: Seq<ChallengeEntry>, event_id: i64, scenario_id: i64) -> spec_fn(
    ChallengeView,
) -> bool {
    |challenge: ChallengeView|
        {
            &&& challenge.scenario matches Some(scenario) && scenario.id == scenario_id
            &&& holds_challenge(entries, event_id, challenge.id)
            &&& !challenge.attributes.contains(GAUNTLET_TAG@)
        }
}

/// Whether the player, if there is one, has completed the challenge of the
/// event.
pub open spec fn has_completed(
    challenge: ChallengeView,
    entries: Seq<ChallengeEntry>,
    records: Seq<CompletionRecord>,
    event_id: i64,
    user: Option<i64>,
) -> bool {
    user matches Some(user_id) && records.contains(
        record_of(entry_of(entries, event_id, challenge.id).id, user_id),
    )
}

/// Those counted challenges of a scenario that the player has completed,
/// or with `done` false those that the player has not.
pub open spec fn counting_and(
    entries: Seq<ChallengeEntry>,
    records: Seq<CompletionRecord>,
    event_id: i64,
    scenario_id: i64,
    user: Option<i64>,
    done: bool,
) -> spec_fn(ChallengeView) -> bool {
    |challenge: ChallengeView|
        counting_in(entries, event_id, scenario_id)(challenge) && has_completed(
            challenge,
            entries,
            records,
            event_id,
            user,
        ) == done
}

/// Whether the player is through with a scenario: it has counted
/// challenges that the player has completed, and none that the player has
/// not.
pub open spec fn is_through(
    challenges: Seq<ChallengeView>,
    entries: Seq<ChallengeEntry>,
    records: Seq<CompletionRecord>,
    event_id: i64,
    scenario_id: i64,
    user: Option<i64>,
) -> bool {
    &&& challenges.filter(counting_and(entries, records, event_id, scenario_id, user, true)).len()
        > 0
    &&& challenges.filter(counting_and(entries, records, event_id, scenario_id, user, false)).len()
        == 0
}

/// The scenario of a roster entry of the event, if the keeper knows it and
/// the player is not through with it.
pub open spec fn quest_candidate(
    scenarios: Seq<ScenarioView>,
    challenges: Seq<ChallengeView>,
    entries: Seq<ChallengeEntry>,
    records: Seq<CompletionRecord>,
    event_id: i64,
    user: Option<i64>,
) -> spec_fn(RosterEntry) -> Option<ScenarioView> {
    |entry: RosterEntry|
        if entry.event_id == event_id && scenario_with_id(scenarios, entry.scenario_id) is Some
            && !is_through(challenges, entries, records, event_id, entry.scenario_id, user) {
            scenario_with_id(scenarios, entry.scenario_id)
        } else {
            None
        }
}

/// A scenario with the counted challenges that the player has left in it;
/// nothing where none is left.
pub open spec fn quest_group(
    challenges: Seq<ChallengeView>,
    entries: Seq<ChallengeEntry>,
    records: Seq<CompletionRecord>,
    event_id: i64,
    user: Option<i64>,
) -> spec_fn(ScenarioView) -> Option<ScenarioGroupView> {
    |scenario: ScenarioView|
        {
            let left = challenges.filter(
                counting_and(entries, records, event_id, scenario.id, user, false),
            );
            if left.len() > 0 {
                Some(ScenarioGroupView { scenario, challenges: left })
            } else {
                None
            }
        }
}

/// The texts one after the other.
pub open spec fn concat(parts: Seq<Seq<char>>) -> Seq<char>
    decreases parts.len(),
{
    if parts.len() == 0 {
        Seq::empty()
    } else {
        concat(parts.drop_last()) + parts.last()
    }
}

/// What is shown of the groups: each as in a listing by scenario, all in
/// one message.
pub open spec fn quests_text(groups: Seq<ScenarioGroupView>) -> Seq<char> {
    if groups.len() == 0 {
        "No challenges found."@
    } else {
        concat(Seq::new(groups.len(), |i: int| group_message(i as nat, groups.len() / 10, groups[i])))
    }
}

/// What answers a player who asks for challenges: no more than three
/// scenarios are drawn from those that the player is not through with, those
/// that the draw gives for the seed, and the challenges that the player has
/// left in them are shown.
pub open spec fn cquest_reply(
    events: Seq<crate::models::event::EventView>,
    scenarios: Seq<ScenarioView>,
    challenges: Seq<ChallengeView>,
    scenarios_of_event: Seq<RosterEntry>,
    entries: Seq<ChallengeEntry>,
    records: Seq<CompletionRecord>,
    user: Option<i64>,
    seed: u64,
) -> Seq<char> {
    match active_event(events) {
        None => "No active event found."@,
        Some(event) => quests_text(
            drawing(
                scenarios_of_event.filter_map(
                    quest_candidate(scenarios, challenges, entries, records, event.id, user),
                ),
                QUEST_COUNT as nat,
                seed,
            ).filter_map(quest_group(challenges, entries, records, event.id, user)),
        ),
    }
}

/// The counted challenges of a scenario that the player has completed, or
/// with `done` false those that the player has not.
fn counting(
    challenges: &Vec<Challenge>,
    roster: &ChallengeRoster,
    completions: &Completions,
    event_id: i64,
    scenario_id: i64,
    user: Option<i64>,
    done: bool,
) -> (found: Vec<Challenge>)
    ensures
        views(found@) == views(challenges@).filter(
            counting_and(roster@, completions@, event_id, scenario_id, user, done),
        ),
{
    let ghost rows = views(challenges@);
    let ghost keep = counting_and(roster@, completions@, event_id, scenario_id, user, done);
    let mut found: Vec<Challenge> = Vec::new();
    let mut i: usize = 0;
    proof {
        crate::lemmas::filter_of_nothing(rows.take(0), keep);
        assert(views(found@) =~= rows.take(0).filter(keep));
    }
    while i < challenges.len()
        invariant
            i <= challenges.len(),
            rows == views(challenges@),
            keep == counting_and(roster@, completions@, event_id, scenario_id, user, done),
            views(found@) == rows.take(i as int).filter(keep),
        decreases challenges.len() - i,
    {
        proof {
            crate::lemmas::filter_take_step(rows, keep, i as int);
        }
        let challenge = &challenges[i];
        assert(challenge@ == rows[i as int]);
        let of_scenario = match &challenge.scenario {
            Some(scenario) => scenario.id == scenario_id,
            None => false,
        };
        if of_scenario && !challenge.has_attribute(GAUNTLET_TAG) {
            match roster.find(event_id, challenge.id) {
                Some(entry) => {
                    let completed = match user {
                        Some(user_id) => completions.holds(entry.id, user_id),
                        None => false,
                    };
                    if completed == done {
                        let ghost before = views(found@);
                        found.push(challenge.clone());
                        assert(views(found@) =~= before.push(rows[i as int]));
                    }
                },
                None => {},
            }
        }
        i += 1;
    }
    assert(rows.take(rows.len() as int) == rows);
    found
}

fn joined_messages(messages: &Vec<String>) -> (text: String)
    ensures
        text@ == concat(texts(messages@)),
{
    let ghost parts = texts(messages@);
    let mut text = String::new();
    let mut i: usize = 0;
    assert(parts.take(0).len() == 0);
    while i < messages.len()
        invariant
            i <= messages.len(),
            parts == texts(messages@),
            text@ == concat(parts.take(i as int)),
        decreases messages.len() - i,
    {
        assert(parts.take(i + 1).drop_last() == parts.take(i as int));
        assert(parts.take(i + 1).last() == messages@[i as int]@);
        text.append(messages[i].as_str());
        i += 1;
    }
    assert(parts.take(parts.len() as int) == parts);
    text
}

/// Shows a player challenges to take on: up to three scenarios of the
/// event that runs are drawn from those that the player is not through
/// with, and of each the challenges that the player has left are listed.
/// Challenges of the gauntlet are never counted nor shown. A player whom
/// the keeper does not know has completed nothing.
pub fn cquest(
    events: &Vec<Event>,
    scenarios: &Vec<Scenario>,
    challenges: &Vec<Challenge>,
    scenarios_of_event: &Roster,
    roster: &ChallengeRoster,
    completions: &Completions,
    users: &Vec<User>,
    author: &Player,
    seed: u64,
) -> (reply: String)
    ensures
        reply@ == cquest_reply(
            views(events@),
            views(scenarios@),
            views(challenges@),
            scenarios_of_event@,
            roster@,
            completions@,
            if knows_user(users@, stored_id(author.discord_id)) {
                Some(id_for(users@, stored_id(author.discord_id)) as i64)
            } else {
                None
            },
            seed,
        ),
{
    let event = match Event::find_by_active(events, true) {
        Some(event) => event,
        None => {
            return String::from_str("No active event found.");
        },
    };
    let user: Option<i64> = match User::find_by_discord_id(users, author.discord_id) {
        Some(found) => Some(found.id),
        None => None,
    };
    let ghost pick = quest_candidate(
        views(scenarios@),
        views(challenges@),
        roster@,
        completions@,
        event.id,
        user,
    );
    let ghost rows = scenarios_of_event@;
    let mut candidates: Vec<Scenario> = Vec::new();
    let mut i: usize = 0;
    assert(views(candidates@) =~= rows.take(0).filter_map(pick));
    while i < scenarios_of_event.entries.len()
        invariant
            i <= scenarios_of_event.entries.len(),
            rows == scenarios_of_event@,
            pick == quest_candidate(
                views(scenarios@),
                views(challenges@),
                roster@,
                completions@,
                event.id,
                user,
            ),
            views(candidates@) == rows.take(i as int).filter_map(pick),
        decreases scenarios_of_event.entries.len() - i,
    {
        proof {
            rows.lemma_filter_map_take_succ(pick, i as int);
        }
        let entry = scenarios_of_event.entries[i];
        if entry.event_id == event.id {
            match Scenario::find_by_id(scenarios, entry.scenario_id) {
                Some(scenario) => {
                    let done = counting(
                        challenges,
                        roster,
                        completions,
                        event.id,
                        entry.scenario_id,
                        user,
                        true,
                    );
                    let left = counting(
                        challenges,
                        roster,
                        completions,
                        event.id,
                        entry.scenario_id,
                        user,
                        false,
                    );
                    assert(views(done@).len() == done@.len());
                    assert(views(left@).len() == left@.len());
                    if !(done.len() > 0 && left.len() == 0) {
                        let ghost before = views(candidates@);
                        candidates.push(scenario.clone());
                        assert(views(candidates@) =~= before.push(scenario@));
                    }
                },
                None => {},
            }
        }
        i += 1;
    }
    assert(rows.take(rows.len() as int) == rows);
    let places = draw(candidates.len(), QUEST_COUNT, seed);
    let ghost chosen = Seq::new(places@.len(), |k: int| candidates@[places@[k] as int]@);
    let ghost group = quest_group(views(challenges@), roster@, completions@, event.id, user);
    let mut groups: Vec<ScenarioGroup> = Vec::new();
    let mut k: usize = 0;
    assert(views(groups@) =~= chosen.take(0).filter_map(group));
    while k < places.len()
        invariant
            k <= places.len(),
            is_sample(places@, candidates@.len(), QUEST_COUNT as nat),
            chosen == Seq::new(places@.len(), |k: int| candidates@[places@[k] as int]@),
            group == quest_group(views(challenges@), roster@, completions@, event.id, user),
            views(groups@) == chosen.take(k as int).filter_map(group),
        decreases places.len() - k,
    {
        proof {
            chosen.lemma_filter_map_take_succ(group, k as int);
        }
        let scenario = &candidates[places[k]];
        assert(scenario@ == chosen[k as int]);
        let left = counting(challenges, roster, completions, event.id, scenario.id, user, false);
        assert(views(left@).len() == left@.len());
        if left.len() > 0 {
            let ghost before = views(groups@);
            let fresh = ScenarioGroup { scenario: scenario.clone(), challenges: left };
            let ghost added = fresh@;
            groups.push(fresh);
            assert(views(groups@) =~= before.push(added));
        }
        k += 1;
    }
    assert(chosen.take(chosen.len() as int) == chosen);
    assert(views(groups@).len() == groups@.len());
    let reply = if groups.len() == 0 {
        String::from_str("No challenges found.")
    } else {
        let messages = format_challenges_by_scenario(&groups);
        proof {
            let shown = views(groups@);
            assert(texts(messages@) =~= Seq::new(
                shown.len(),
                |i: int| group_message(i as nat, shown.len() / 10, shown[i]),
            ));
        }
        joined_messages(&messages)
    };
    proof {
        assert(chosen =~= drawing(views(candidates@), QUEST_COUNT as nat, seed));
        assert(reply@ == quests_text(chosen.filter_map(group)));
        assert(active_event(views(events@)) == Some(event@));
        assert(user == if knows_user(users@, stored_id(author.discord_id)) {
            Some(id_for(users@, stored_id(author.discord_id)) as i64)
        } else {
            None::<i64>
        });
    }
    reply
}

} // verus!
