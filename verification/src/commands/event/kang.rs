//! The commands of the challenge against the council of Kangs.

use crate::chat::Player;
use crate::commands::event::{
    find_target, players_of, record_completions, recorded, target,
};
use crate::error::EngineError;
use crate::lemmas::views;
use crate::models::challenge::{Challenge, ChallengeView};
use crate::models::completion::{
    completed_by_anyone, entry_of, holds_challenge, ChallengeEntry, ChallengeRoster,
    CompletionRecord, Completions,
};
use crate::models::event::{active_event, Event};
use crate::models::user::User;
use crate::progress::{done_in_scope, in_scope, kind_progress, kind_scope, Progress};
use crate::sampling::{draw_strings, drawing};
use crate::text::{join_lines, lowercase, lowercase_of, same_text, texts};
use crate::utils::{format_collection, format_large_collection, numbered_lines, paged};
use vstd::prelude::*;
use vstd::string::StringExecFns;

verus! {

/// The mode that is meant where the player names none.
pub const KANG_DEFAULT_MODE: &'static str = "all";

/// The tag of the challenges against a Kang.
pub const KANG_TAG: &'static str = "Council of 100 Kangs";

/// The tag of the challenges of the convention.
pub const CONVENTION_TAG: &'static str = "LeacgueCG Con 2021: The Return of the Kang";

/// Whether a text in lower case names a mode.
pub open spec fn is_mode(lowered: Seq<char>) -> bool {
    lowered == "standard"@ || lowered == "expert"@ || lowered == "all"@
}

/// The tag that the challenges of a mode carry: the name of the mode with
/// a capital.
pub open spec fn mode_tag(lowered: Seq<char>) -> Seq<char> {
    if lowered == "standard"@ {
        "Standard"@
    } else if lowered == "expert"@ {
        "Expert"@
    } else {
        "All"@
    }
}

/// Whether a text that is in lower case names a mode.
pub fn known_mode(lowered: &str) -> (known: bool)
    ensures
        known == is_mode(lowered@),
{
    same_text(lowered, "standard") || same_text(lowered, "expert") || same_text(lowered, "all")
}

/// Whether the text names a mode, in capitals or not.
pub fn valid_mode(mode: &str) -> (valid: bool)
    ensures
        valid == is_mode(lowercase_of(mode@)),
{
    let lowered = lowercase(mode);
    known_mode(lowered.as_str())
}

fn tag_of(lowered: &str) -> (tag: &'static str)
    ensures
        tag@ == mode_tag(lowered@),
{
    if same_text(lowered, "standard") {
        "Standard"
    } else if same_text(lowered, "expert") {
        "Expert"
    } else {
        "All"
    }
}

/// What is said of a mode that is none.
pub open spec fn invalid_mode_reply() -> Seq<char> {
    "The only valid modes are 'standard', 'expert', 'all'."@
}

/// The line of a Kang in a list.
pub open spec fn kang_line(challenge: ChallengeView) -> Seq<char> {
    "**"@ + challenge.name + "** with Code: *"@ + challenge.code + "*"@
}

/// Whether a challenge is one of the Kangs of a mode. With the mode `all`,
/// written so, every Kang is; with another, the Kangs of the convention
/// that carry the tag of the mode are.
pub open spec fn is_kang_of(challenge: ChallengeView, mode: Seq<char>, lowered: Seq<char>) -> bool {
    if mode == "all"@ {
        challenge.attributes.contains(KANG_TAG@)
    } else {
        &&& challenge.attributes.contains(CONVENTION_TAG@)
        &&& challenge.attributes.contains(KANG_TAG@)
        &&& challenge.attributes.contains(mode_tag(lowered))
    }
}

/// The line of a challenge that is a Kang of the mode; nothing for another.
pub open spec fn listed_kang(mode: Seq<char>, lowered: Seq<char>) -> spec_fn(ChallengeView) -> Option<
    Seq<char>,
> {
    |challenge: ChallengeView|
        if is_kang_of(challenge, mode, lowered) {
            Some(kang_line(challenge))
        } else {
            None
        }
}

/// The messages that list every Kang of a mode.
pub open spec fn kall_reply(challenges: Seq<ChallengeView>, mode: Seq<char>, lowered: Seq<char>) -> Seq<
    Seq<char>,
> {
    if !is_mode(lowered) {
        seq![invalid_mode_reply()]
    } else {
        let lines = challenges.filter_map(listed_kang(mode, lowered));
        if lines.len() == 0 {
            seq!["No Kangs could be found for that query."@]
        } else {
            paged(lines)
        }
    }
}

fn line_of(challenge: &Challenge) -> (line: String)
    ensures
        line@ == kang_line(challenge@),
{
    let mut line = String::from_str("**");
    line.append(challenge.name.as_str());
    line.append("** with Code: *");
    line.append(challenge.code.as_str());
    line.append("*");
    line
}

/// Lists every Kang of a mode, given the mode as the player wrote it and in
/// lower case.
pub fn kall_in(challenges: &Vec<Challenge>, mode: &str, lowered: &str) -> (messages: Vec<String>)
    ensures
        texts(messages@) == kall_reply(views(challenges@), mode@, lowered@),
{
    if !known_mode(lowered) {
        let mut messages: Vec<String> = Vec::new();
        messages.push(String::from_str("The only valid modes are 'standard', 'expert', 'all'."));
        assert(texts(messages@) =~= seq![invalid_mode_reply()]);
        return messages;
    }
    let every = same_text(mode, "all");
    let tag = tag_of(lowered);
    let ghost rows = views(challenges@);
    let ghost pick = listed_kang(mode@, lowered@);
    let mut lines: Vec<String> = Vec::new();
    let mut i: usize = 0;
    assert(texts(lines@) =~= rows.take(0).filter_map(pick));
    while i < challenges.len()
        invariant
            i <= challenges.len(),
            rows == views(challenges@),
            pick == listed_kang(mode@, lowered@),
            every == (mode@ == "all"@),
            tag@ == mode_tag(lowered@),
            texts(lines@) == rows.take(i as int).filter_map(pick),
        decreases challenges.len() - i,
    {
        proof {
            rows.lemma_filter_map_take_succ(pick, i as int);
        }
        let challenge = &challenges[i];
        assert(challenge@ == rows[i as int]);
        let wanted = if every {
            challenge.has_attribute(KANG_TAG)
        } else {
            challenge.has_attribute(CONVENTION_TAG) && challenge.has_attribute(KANG_TAG)
                && challenge.has_attribute(tag)
        };
        if wanted {
            let ghost before = texts(lines@);
            lines.push(line_of(challenge));
            assert(texts(lines@) =~= before.push(kang_line(challenge@)));
        }
        i += 1;
    }
    assert(rows.take(rows.len() as int) == rows);
    if lines.len() == 0 {
        let mut messages: Vec<String> = Vec::new();
        messages.push(String::from_str("No Kangs could be found for that query."));
        assert(texts(messages@) =~= seq!["No Kangs could be found for that query."@]);
        messages
    } else {
        format_large_collection(&lines)
    }
}

/// Lists every Kang of a mode, twenty to a message.
pub fn kall(challenges: &Vec<Challenge>, mode: &str) -> (messages: Vec<String>)
    ensures
        texts(messages@) == kall_reply(views(challenges@), mode@, lowercase_of(mode@)),
{
    let lowered = lowercase(mode);
    kall_in(challenges, mode, lowered.as_str())
}

/// The line of a challenge that is a Kang of the mode, stands on the roster
/// of the event and has been completed by nobody; nothing for another. With
/// the mode `all`, written so, every Kang counts; with another, those that
/// carry the tag of the mode.
pub open spec fn open_kang(
    entries: Seq<ChallengeEntry>,
    records: Seq<CompletionRecord>,
    event_id: i64,
    mode: Seq<char>,
    lowered: Seq<char>,
) -> spec_fn(ChallengeView) -> Option<Seq<char>> {
    |challenge: ChallengeView|
        if {
            &&& holds_challenge(entries, event_id, challenge.id)
            &&& challenge.attributes.contains(KANG_TAG@)
            &&& mode != "all"@ ==> challenge.attributes.contains(mode_tag(lowered))
            &&& !completed_by_anyone(records, entry_of(entries, event_id, challenge.id).id)
        } {
            Some(kang_line(challenge))
        } else {
            None
        }
}

/// What is said of the Kangs that were drawn.
pub open spec fn mission_text(drawn: Seq<Seq<char>>) -> Seq<char> {
    if drawn.len() == 0 {
        "Couldn't find any Kangs."@
    } else {
        join_lines(numbered_lines(drawn))
    }
}

/// What answers the call for a mission: word of a mode that is none, or
/// that no event runs, or the Kangs that the draw gives for the seed.
pub open spec fn mission_reply(
    events: Seq<crate::models::event::EventView>,
    challenges: Seq<ChallengeView>,
    entries: Seq<ChallengeEntry>,
    records: Seq<CompletionRecord>,
    mode: Seq<char>,
    lowered: Seq<char>,
    limit: nat,
    seed: u64,
) -> Seq<char> {
    if !is_mode(lowered) {
        invalid_mode_reply()
    } else {
        match active_event(events) {
            None => "No active event found."@,
            Some(event) => mission_text(
                drawing(
                    challenges.filter_map(open_kang(entries, records, event.id, mode, lowered)),
                    limit,
                    seed,
                ),
            ),
        }
    }
}

/// Draws up to `quantity` Kangs of a mode that nobody has beaten, from the
/// event that runs, given the mode as the player wrote it and in lower
/// case.
pub fn mission_in(
    events: &Vec<Event>,
    challenges: &Vec<Challenge>,
    roster: &ChallengeRoster,
    completions: &Completions,
    mode: &str,
    lowered: &str,
    quantity: usize,
    seed: u64,
) -> (reply: String)
    ensures
        reply@ == mission_reply(
            views(events@),
            views(challenges@),
            roster@,
            completions@,
            mode@,
            lowered@,
            quantity as nat,
            seed,
        ),
{
    if !known_mode(lowered) {
        return String::from_str("The only valid modes are 'standard', 'expert', 'all'.");
    }
    let event = match Event::find_by_active(events, true) {
        Some(event) => event,
        None => {
            return String::from_str("No active event found.");
        },
    };
    let every = same_text(mode, "all");
    let tag = tag_of(lowered);
    let ghost rows = views(challenges@);
    let ghost pick = open_kang(roster@, completions@, event.id, mode@, lowered@);
    let mut lines: Vec<String> = Vec::new();
    let mut i: usize = 0;
    assert(texts(lines@) =~= rows.take(0).filter_map(pick));
    while i < challenges.len()
        invariant
            i <= challenges.len(),
            rows == views(challenges@),
            pick == open_kang(roster@, completions@, event.id, mode@, lowered@),
            every == (mode@ == "all"@),
            tag@ == mode_tag(lowered@),
            texts(lines@) == rows.take(i as int).filter_map(pick),
        decreases challenges.len() - i,
    {
        proof {
            rows.lemma_filter_map_take_succ(pick, i as int);
        }
        let challenge = &challenges[i];
        assert(challenge@ == rows[i as int]);
        let wanted = match roster.find(event.id, challenge.id) {
            None => false,
            Some(entry) => challenge.has_attribute(KANG_TAG) && (every || challenge.has_attribute(
                tag,
            )) && !completions.holds_any(entry.id),
        };
        if wanted {
            let ghost before = texts(lines@);
            lines.push(line_of(challenge));
            assert(texts(lines@) =~= before.push(kang_line(challenge@)));
        }
        i += 1;
    }
    assert(rows.take(rows.len() as int) == rows);
    let drawn = draw_strings(&lines, quantity, seed);
    let reply = if drawn.len() == 0 {
        String::from_str("Couldn't find any Kangs.")
    } else {
        format_collection(&drawn)
    };
    proof {
        assert(texts(drawn@).len() == drawn@.len());
        assert(active_event(views(events@)) == Some(event@));
    }
    reply
}

/// Draws up to `quantity` Kangs of a mode that nobody has beaten, from the
/// event that runs.
pub fn mission(
    events: &Vec<Event>,
    challenges: &Vec<Challenge>,
    roster: &ChallengeRoster,
    completions: &Completions,
    mode: &str,
    quantity: usize,
    seed: u64,
) -> (reply: String)
    ensures
        reply@ == mission_reply(
            views(events@),
            views(challenges@),
            roster@,
            completions@,
            mode@,
            lowercase_of(mode@),
            quantity as nat,
            seed,
        ),
{
    let lowered = lowercase(mode);
    mission_in(events, challenges, roster, completions, mode, lowered.as_str(), quantity, seed)
}

/// How many Kangs the event that runs holds, and how many of them are
/// beaten; nothing where no event runs.
pub fn kprogress(
    events: &Vec<Event>,
    challenges: &Vec<Challenge>,
    roster: &ChallengeRoster,
    completions: &Completions,
) -> (counted: Option<Progress>)
    ensures
        match active_event(views(events@)) {
            None => counted is None,
            Some(event) => counted matches Some(p) && p.wf() && p.total == views(
                challenges@,
            ).filter(in_scope(kind_scope(KANG_TAG@), roster@, event.id, 0)).len() && p.completed
                == views(challenges@).filter(
                done_in_scope(kind_scope(KANG_TAG@), roster@, completions@, event.id, 0, None),
            ).len(),
        },
{
    match Event::find_by_active(events, true) {
        Some(event) => Some(kind_progress(challenges, roster, completions, event.id, KANG_TAG)),
        None => None,
    }
}

/// Records that the author and everybody mentioned have beaten the Kang
/// with that code in the event that runs, and says for whom that was news.
/// Nothing is changed where no event runs or no Kang of it answers to the
/// code.
pub fn conquer(
    events: &Vec<Event>,
    challenges: &Vec<Challenge>,
    roster: &ChallengeRoster,
    users: &mut Vec<User>,
    completions: &mut Completions,
    code: &str,
    author: &Player,
    mentions: &Vec<Player>,
) -> (reply: Result<String, EngineError>)
    ensures
        match active_event(views(events@)) {
            None => {
                &&& reply matches Ok(text) && text@ == "No active event found."@
                &&& final(users)@ == old(users)@
                &&& final(completions)@ == old(completions)@
            },
            Some(event) => match target(
                views(challenges@),
                roster@,
                event.id,
                code@,
                Some(KANG_TAG@),
            ) {
                None => {
                    &&& reply matches Ok(text) && text@ == "No scenario found by that code: "@
                        + code@
                    &&& final(users)@ == old(users)@
                    &&& final(completions)@ == old(completions)@
                },
                Some(challenge) => recorded(
                    old(users)@,
                    final(users)@,
                    old(completions)@,
                    final(completions)@,
                    entry_of(roster@, event.id, challenge.id).id,
                    challenge.name,
                    players_of(author@, views(mentions@)),
                    reply,
                ),
            },
        },
        old(completions).wf() ==> final(completions).wf(),
{
    let event = match Event::find_by_active(events, true) {
        Some(event) => event,
        None => {
            return Ok(String::from_str("No active event found."));
        },
    };
    match find_target(challenges, roster, event.id, code, Some(KANG_TAG)) {
        None => {
            let mut text = String::from_str("No scenario found by that code: ");
            text.append(code);
            Ok(text)
        },
        Some((challenge, entry)) => record_completions(
            users,
            completions,
            entry.id,
            challenge.name.as_str(),
            author,
            mentions,
        ),
    }
}

} // verus!
