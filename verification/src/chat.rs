//! What the chat service reads in a message.

use crate::text::{decimal, decimal_chars, push_chars};
use serenity::model::id::UserId;
use serenity::utils::MessageBuilder;
use vstd::prelude::*;
use vstd::string::StringExecFns;

verus! {

/// A player as the chat service names one.
pub struct Player {
    pub discord_id: u64,
    pub name: String,
}

/// What a player holds, as plain values.
pub struct PlayerView {
    pub discord_id: u64,
    pub name: Seq<char>,
}

impl View for Player {
    type V = PlayerView;

    open spec fn view(&self) -> PlayerView {
        PlayerView { discord_id: self.discord_id, name: self.name@ }
    }
}

/// The text that the chat service shows as the name of the user with that
/// id, and tells that user about.
pub open spec fn mention_of(discord_id: u64) -> Seq<char> {
    "<@"@ + decimal(discord_id as nat) + ">"@
}

/// `MessageBuilder::mention` of serenity, on a builder that is new and for
/// the id of a user: the builder then holds the id in decimal between `<@`
/// and `>`. The id of a user is never zero, and serenity takes no such id.
#[verifier::external_body]
fn built_mention(discord_id: u64) -> (text: String)
    requires
        discord_id != 0,
    ensures
        text@ == mention_of(discord_id),
{
    MessageBuilder::new().mention(&UserId::new(discord_id)).build()
}

/// The mention of the user with that id.
pub fn mention(discord_id: u64) -> (text: String)
    ensures
        text@ == mention_of(discord_id),
{
    if discord_id != 0 {
        built_mention(discord_id)
    } else {
        let mut text = String::new();
        text.append("<@");
        push_chars(&mut text, &decimal_chars(discord_id));
        text.append(">");
        text
    }
}

/// The mentions of the users with those ids, a blank behind each.
pub open spec fn mentions_of(discord_ids: Seq<u64>) -> Seq<char>
    decreases discord_ids.len(),
{
    if discord_ids.len() == 0 {
        Seq::empty()
    } else {
        mentions_of(discord_ids.drop_last()) + mention_of(discord_ids.last()) + " "@
    }
}

/// Appends the mentions of the users with those ids, a blank behind each.
pub fn push_mentions(out: &mut String, discord_ids: &Vec<u64>)
    ensures
        final(out)@ == old(out)@ + mentions_of(discord_ids@),
{
    let mut i: usize = 0;
    assert(discord_ids@.take(0).len() == 0);
    while i < discord_ids.len()
        invariant
            i <= discord_ids.len(),
            out@ == old(out)@ + mentions_of(discord_ids@.take(i as int)),
        decreases discord_ids.len() - i,
    {
        assert(discord_ids@.take(i + 1).drop_last() == discord_ids@.take(i as int));
        out.append(mention(discord_ids[i]).as_str());
        out.append(" ");
        assert(out@ =~= old(out)@ + mentions_of(discord_ids@.take(i + 1)));
        i += 1;
    }
    assert(discord_ids@.take(discord_ids@.len() as int) == discord_ids@);
}

} // verus!
