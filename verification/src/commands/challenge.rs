//! A challenge of the gauntlet, drawn at random.

use crate::commands::event::GAUNTLET_TAG;
use crate::lemmas::{filter_of_nothing, filter_take_step, views};
use crate::models::challenge::{Challenge, ChallengeView};
use crate::sampling::{draw, drawing};
use vstd::prelude::*;
use vstd::string::StringExecFns;

verus! {

/// The challenges of the gauntlet.
pub open spec fn of_gauntlet() -> spec_fn(ChallengeView) -> bool {
    |challenge: ChallengeView| challenge.attributes.contains(GAUNTLET_TAG@)
}

/// What is said of the challenge that was drawn, or of none.
pub open spec fn gauntlet_text(drawn: Seq<ChallengeView>) -> Seq<char> {
    if drawn.len() == 0 {
        "Could not find any challenges."@
    } else {
        "You've selected the following challenge:\n*"@ + drawn[0].name + "* - "@
            + match drawn[0].description {
            Some(text) => text,
            None => Seq::empty(),
        }
    }
}

/// Draws one challenge of the gauntlet, the one that the draw gives for
/// the seed, and shows it.
pub fn gauntlet(challenges: &Vec<Challenge>, seed: u64) -> (reply: String)
    ensures
        reply@ == gauntlet_text(drawing(views(challenges@).filter(of_gauntlet()), 1, seed)),
{
    let ghost rows = views(challenges@);
    let ghost keep = of_gauntlet();
    let mut places: Vec<usize> = Vec::new();
    let mut i: usize = 0;
    proof {
        filter_of_nothing(rows.take(0), keep);
    }
    // The places of the challenges of the gauntlet, in their order.
    while i < challenges.len()
        invariant
            i <= challenges.len(),
            rows == views(challenges@),
            keep == of_gauntlet(),
            places@.len() == rows.take(i as int).filter(keep).len(),
            forall|k: int|
                0 <= k < places@.len() ==> (#[trigger] places@[k]) < i && rows[places@[k] as int]
                    == rows.take(i as int).filter(keep)[k],
        decreases challenges.len() - i,
    {
        proof {
            filter_take_step(rows, keep, i as int);
        }
        assert(challenges@[i as int]@ == rows[i as int]);
        if challenges[i].has_attribute(GAUNTLET_TAG) {
            places.push(i);
        }
        i += 1;
    }
    assert(rows.take(rows.len() as int) == rows);
    let ghost candidates = rows.filter(keep);
    let picks = draw(places.len(), 1, seed);
    if picks.len() == 0 {
        let reply = String::from_str("Could not find any challenges.");
        assert(drawing(candidates, 1, seed).len() == 0);
        reply
    } else {
        let challenge = &challenges[places[picks[0]]];
        let mut reply = String::from_str("You've selected the following challenge:\n*");
        reply.append(challenge.name.as_str());
        reply.append("* - ");
        match &challenge.description {
            Some(text) => {
                reply.append(text.as_str());
            },
            None => {},
        }
        proof {
            let drawn = seq![challenge@];
            assert(picks@.len() == 1);
            assert(challenge@ == candidates[picks@[0] as int]);
            assert(drawn =~= drawing(candidates, 1, seed));
            assert(reply@ =~= gauntlet_text(drawn));
        }
        reply
    }
}

} // verus!
