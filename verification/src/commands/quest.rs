//! Quests drawn from all scenarios that the keeper knows.

use crate::lemmas::views;
use crate::models::scenario::ScenarioView as CatalogScenarioView;
use crate::models::set::{set_with_id, ScenarioSet, SetView};
use crate::sampling::{draw, drawing, is_sample};
use crate::text::{decimal, decimal_chars, join_lines, joined, push_chars, texts};
use vstd::prelude::*;
use vstd::string::StringExecFns;

verus! {

/// How many quests are drawn where the player names no number.
pub const DEFAULT_QUESTS_NUM: i64 = 3;

/// A scenario as a quest shows it: its title and the name of its set.
pub struct Scenario {
    pub title: String,
    pub set_name: String,
}

/// What a quest holds, as plain values.
pub struct ScenarioView {
    pub title: Seq<char>,
    pub set_name: Seq<char>,
}

impl View for Scenario {
    type V = ScenarioView;

    open spec fn view(&self) -> ScenarioView {
        ScenarioView { title: self.title@, set_name: self.set_name@ }
    }
}

impl Clone for Scenario {
    fn clone(&self) -> (copy: Self)
        ensures
            copy@ == self@,
    {
        Scenario { title: self.title.clone(), set_name: self.set_name.clone() }
    }
}

/// The line of the quest at `index`, counted from zero.
pub open spec fn quest_line(index: nat, quest: ScenarioView) -> Seq<char> {
    "**Quest "@ + decimal(index + 1) + "**: "@ + quest.title + " from "@ + quest.set_name
}

/// The lines of the quests.
pub open spec fn quest_lines(quests: Seq<ScenarioView>) -> Seq<Seq<char>> {
    Seq::new(quests.len(), |i: int| quest_line(i as nat, quests[i]))
}

/// The quests, one per line, numbered from one.
pub fn format_quests_display(scenarios: &Vec<Scenario>) -> (text: String)
    ensures
        text@ == join_lines(quest_lines(views(scenarios@))),
{
    let mut lines: Vec<String> = Vec::new();
    let mut i: usize = 0;
    while i < scenarios.len()
        invariant
            i <= scenarios.len(),
            lines.len() == i,
            forall|j: int| 0 <= j < i ==> (#[trigger] lines@[j])@ == quest_line(j as nat, scenarios@[j]@),
        decreases scenarios.len() - i,
    {
        let mut line = String::new();
        line.append("**Quest ");
        push_chars(&mut line, &decimal_chars((i + 1) as u64));
        line.append("**: ");
        line.append(scenarios[i].title.as_str());
        line.append(" from ");
        line.append(scenarios[i].set_name.as_str());
        lines.push(line);
        i += 1;
    }
    assert(texts(lines@) =~= quest_lines(views(scenarios@)));
    joined(&lines)
}

/// The quest that a scenario makes: nothing where its set is not known.
pub open spec fn as_quest(sets: Seq<SetView>) -> spec_fn(CatalogScenarioView) -> Option<ScenarioView> {
    |scenario: CatalogScenarioView|
        match set_with_id(sets, scenario.set_id) {
            Some(set) => Some(ScenarioView { title: scenario.title, set_name: set.name }),
            None => None,
        }
}

/// Up to `quantity` quests out of all scenarios whose set is known, drawn at
/// random without replacement, as they are displayed: those that the draw
/// gives for the seed.
pub fn quest(
    scenarios: &Vec<crate::models::scenario::Scenario>,
    sets: &Vec<ScenarioSet>,
    quantity: usize,
    seed: u64,
) -> (reply: String)
    ensures
        reply@ == join_lines(
            quest_lines(
                drawing(
                    views(scenarios@).filter_map(as_quest(views(sets@))),
                    quantity as nat,
                    seed,
                ),
            ),
        ),
{
    let ghost rows = views(scenarios@);
    let ghost make = as_quest(views(sets@));
    let mut quests: Vec<Scenario> = Vec::new();
    let mut i: usize = 0;
    assert(views(quests@) =~= rows.take(0).filter_map(make));
    while i < scenarios.len()
        invariant
            i <= scenarios.len(),
            rows == views(scenarios@),
            make == as_quest(views(sets@)),
            views(quests@) == rows.take(i as int).filter_map(make),
        decreases scenarios.len() - i,
    {
        proof {
            rows.lemma_filter_map_take_succ(make, i as int);
        }
        let scenario = &scenarios[i];
        assert(scenario@ == rows[i as int]);
        match ScenarioSet::find_by_id(sets, scenario.set_id) {
            Some(set) => {
                let ghost before = views(quests@);
                quests.push(Scenario { title: scenario.title.clone(), set_name: set.name.clone() });
                assert(views(quests@) =~= before.push(make(rows[i as int])->0));
            },
            None => {},
        }
        i += 1;
    }
    assert(rows.take(rows.len() as int) == rows);
    let places = draw(quests.len(), quantity, seed);
    let mut drawn: Vec<Scenario> = Vec::new();
    let mut k: usize = 0;
    while k < places.len()
        invariant
            k <= places.len(),
            drawn.len() == k,
            is_sample(places@, quests@.len(), quantity as nat),
            forall|j: int| 0 <= j < k ==> drawn@[j]@ == quests@[places@[j] as int]@,
        decreases places.len() - k,
    {
        drawn.push(quests[places[k]].clone());
        k += 1;
    }
    let reply = format_quests_display(&drawn);
    assert(views(drawn@) =~= drawing(views(quests@), quantity as nat, seed));
    reply
}

} // verus!
