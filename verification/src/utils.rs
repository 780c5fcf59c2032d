//! Numbered lists for the chat, and the choice that a player makes from one.

use crate::lemmas::views;
use crate::models::challenge::{ScenarioGroup, ScenarioGroupView, ChallengeView};
use crate::text::{
    decimal, decimal_chars, digits_in, is_number, join_lines, joined, joined_range, number_of,
    pad_left, parse_number, push_padded, texts,
};
use vstd::prelude::*;
use vstd::string::StringExecFns;

verus! {

/// The seconds for which a choice is waited for.
pub const SELECTION_TIMEOUT: u64 = 60;

/// The lines that go into one message of a long list: the chat takes no
/// message of more than 2000 characters.
pub const LINES_PER_MESSAGE: usize = 20;

/// The line of the item at `index` in a list: its number, counted from one
/// and padded with blanks to `width`, then the item.
pub open spec fn numbered(index: nat, width: nat, item: Seq<char>) -> Seq<char> {
    pad_left(decimal(index + 1), width, ' ') + ".) "@ + item
}

/// The lines of a list. The numbers are padded to a tenth of the number of
/// items.
pub open spec fn numbered_lines(items: Seq<Seq<char>>) -> Seq<Seq<char>> {
    Seq::new(items.len(), |i: int| numbered(i as nat, items.len() / 10, items[i]))
}

/// The lines of the list of the items.
fn lines_of(collection: &Vec<String>) -> (lines: Vec<String>)
    ensures
        texts(lines@) == numbered_lines(texts(collection@)),
        lines@.len() == collection@.len(),
{
    let width: usize = collection.len() / 10;
    let mut lines: Vec<String> = Vec::new();
    let mut i: usize = 0;
    while i < collection.len()
        invariant
            i <= collection.len(),
            width == collection.len() / 10,
            lines.len() == i,
            forall|j: int|
                0 <= j < i ==> (#[trigger] lines@[j])@ == numbered(
                    j as nat,
                    width as nat,
                    collection@[j]@,
                ),
        decreases collection.len() - i,
    {
        let mut line = String::new();
        push_padded(&mut line, &decimal_chars((i + 1) as u64), width, ' ');
        line.append(".) ");
        line.append(collection[i].as_str());
        lines.push(line);
        i += 1;
    }
    assert(texts(lines@) =~= numbered_lines(texts(collection@)));
    lines
}

/// The items as a list, one per line, numbered from one.
pub fn format_collection(collection: &Vec<String>) -> (text: String)
    ensures
        text@ == join_lines(numbered_lines(texts(collection@))),
{
    joined(&lines_of(collection))
}

/// The lines of a list in messages of twenty lines each; the last message
/// holds what is left.
pub open spec fn paged(items: Seq<Seq<char>>) -> Seq<Seq<char>> {
    Seq::new(
        ((items.len() + 19) / 20) as nat,
        |k: int|
            join_lines(
                numbered_lines(items).subrange(
                    20 * k,
                    if 20 * k + 20 <= items.len() {
                        20 * k + 20
                    } else {
                        items.len() as int
                    },
                ),
            ),
    )
}

/// The items as a list in messages of twenty lines each; the last message
/// holds what is left.
pub fn format_large_collection(collection: &Vec<String>) -> (messages: Vec<String>)
    ensures
        texts(messages@) == paged(texts(collection@)),
{
    let lines = lines_of(collection);
    let mut messages: Vec<String> = Vec::new();
    let mut from: usize = 0;
    while from < lines.len()
        invariant
            from <= lines.len(),
            lines@.len() == collection@.len(),
            texts(lines@) == numbered_lines(texts(collection@)),
            from == 20 * messages@.len() || (from == lines.len() && messages@.len() == (lines@.len()
                + 19) / 20),
            from < lines.len() ==> from == 20 * messages@.len(),
            forall|k: int|
                0 <= k < messages@.len() ==> (#[trigger] messages@[k])@ == join_lines(
                    numbered_lines(texts(collection@)).subrange(
                        20 * k,
                        if 20 * k + 20 <= collection@.len() {
                            20 * k + 20
                        } else {
                            collection@.len() as int
                        },
                    ),
                ),
        decreases lines.len() - from,
    {
        let to: usize = if lines.len() - from >= LINES_PER_MESSAGE {
            from + LINES_PER_MESSAGE
        } else {
            lines.len()
        };
        messages.push(joined_range(&lines, from, to));
        from = to;
    }
    assert(texts(messages@) =~= paged(texts(collection@)));
    messages
}

/// The place in a list of `len` items that a reply picks: the number in
/// the reply, counted from one. No place is picked where the number is
/// zero or greater than `len`.
pub open spec fn picked(reply: Seq<char>, len: nat) -> Option<nat> {
    let number = number_of(digits_in(reply));
    if 1 <= number <= len {
        Some((number - 1) as nat)
    } else {
        None
    }
}

/// Why a reply picks nothing.
#[derive(Clone, Copy, Debug, PartialEq, Eq)]
pub enum PickError {
    /// The reply is not a number that the machine can hold.
    NotANumber,
}

/// The item of the collection that the reply picks. No reply picks nothing,
/// and so does a number that is no place of the collection; a reply that is
/// no number is an error.
pub fn pick_collection<'a, T>(reply: Option<&str>, collection: &'a Vec<T>) -> (choice: Result<
    Option<&'a T>,
    PickError,
>)
    ensures
        match reply {
            None => choice == Ok::<Option<&T>, PickError>(None),
            Some(text) => if is_number(text@) && number_of(digits_in(text@)) <= usize::MAX {
                match picked(text@, collection@.len()) {
                    Some(place) => choice == Ok::<Option<&T>, PickError>(
                        Some(&collection@[place as int]),
                    ),
                    None => choice == Ok::<Option<&T>, PickError>(None),
                }
            } else {
                choice == Err::<Option<&T>, PickError>(PickError::NotANumber)
            },
        },
{
    match reply {
        None => Ok(None),
        Some(text) => match parse_number(text) {
            None => Err(PickError::NotANumber),
            Some(number) => {
                if number > usize::MAX as u64 {
                    Err(PickError::NotANumber)
                } else if number == 0 || number > collection.len() as u64 {
                    Ok(None)
                } else {
                    Ok(Some(&collection[(number - 1) as usize]))
                }
            },
        },
    }
}

/// The line of a challenge in the list of a scenario.
pub open spec fn challenge_line(challenge: ChallengeView) -> Seq<char> {
    "- (Code: **"@ + challenge.code + "**) *"@ + challenge.name + "* - "@ + match challenge.description {
        Some(text) => text,
        None => Seq::empty(),
    } + seq!['\n']
}

/// The lines of the challenges, one after the other.
pub open spec fn challenge_lines(challenges: Seq<ChallengeView>) -> Seq<char>
    decreases challenges.len(),
{
    if challenges.len() == 0 {
        Seq::empty()
    } else {
        challenge_lines(challenges.drop_last()) + challenge_line(challenges.last())
    }
}

/// The message for the group at `index`: the numbered title of the
/// scenario, then its challenges, a line each.
pub open spec fn group_message(index: nat, width: nat, group: ScenarioGroupView) -> Seq<char> {
    numbered(index, width, group.scenario.title) + seq!['\n'] + challenge_lines(group.challenges)
}

/// One message for each scenario: its title, numbered, and below it the
/// challenges that belong to it.
pub fn format_challenges_by_scenario(scenarios: &Vec<ScenarioGroup>) -> (messages: Vec<String>)
    ensures
        messages@.len() == scenarios@.len(),
        forall|i: int|
            0 <= i < messages@.len() ==> (#[trigger] messages@[i])@ == group_message(
                i as nat,
                scenarios@.len() / 10,
                scenarios@[i]@,
            ),
{
    let width: usize = scenarios.len() / 10;
    let mut messages: Vec<String> = Vec::new();
    let mut i: usize = 0;
    while i < scenarios.len()
        invariant
            i <= scenarios.len(),
            width == scenarios.len() / 10,
            messages.len() == i,
            forall|j: int|
                0 <= j < i ==> (#[trigger] messages@[j])@ == group_message(
                    j as nat,
                    width as nat,
                    scenarios@[j]@,
                ),
        decreases scenarios.len() - i,
    {
        let group = &scenarios[i];
        let mut content = String::new();
        push_padded(&mut content, &decimal_chars((i + 1) as u64), width, ' ');
        content.append(".) ");
        content.append(group.scenario.title.as_str());
        content.append("\n");
        proof {
            reveal_strlit("\n");
            assert("\n"@ =~= seq!['\n']);
        }
        let ghost head = content@;
        let ghost members = views(group.challenges@);
        let mut k: usize = 0;
        while k < group.challenges.len()
            invariant
                k <= group.challenges.len(),
                members == views(group.challenges@),
                content@ == head + challenge_lines(members.take(k as int)),
            decreases group.challenges.len() - k,
        {
            let challenge = &group.challenges[k];
            assert(members.take(k + 1).drop_last() == members.take(k as int));
            assert(members.take(k + 1).last() == challenge@);
            let ghost before = content@;
            content.append("- (Code: **");
            content.append(challenge.code.as_str());
            content.append("**) *");
            content.append(challenge.name.as_str());
            content.append("* - ");
            match &challenge.description {
                Some(text) => {
                    content.append(text.as_str());
                },
                None => {},
            }
            content.append("\n");
            proof {
                reveal_strlit("\n");
                assert("\n"@ =~= seq!['\n']);
            }
            assert(content@ =~= before + challenge_line(challenge@));
            k += 1;
        }
        assert(members.take(members.len() as int) == members);
        messages.push(content);
        i += 1;
    }
    messages
}

} // verus!
