//! Challenges, their tags, and how they fall to the scenarios that they
//! belong to.

use crate::lemmas::{filter_take_step, views};
use crate::models::scenario::{Scenario, ScenarioView};
use crate::text::{
    chars_of, copy_of, holds_text, order_of, precedes, precedes_is_irreflexive,
    precedes_is_total, precedes_is_transitive, texts, Order,
};
use vstd::prelude::*;

verus! {

/// A challenge. Its attributes are tags: which of them a challenge carries
/// decides how it is drawn and counted.
pub struct Challenge {
    pub id: i64,
    pub name: String,
    pub code: String,
    pub description: Option<String>,
    pub scenario: Option<Scenario>,
    pub attributes: Vec<String>,
}

/// What a challenge holds, as plain values.
pub struct ChallengeView {
    pub id: i64,
    pub name: Seq<char>,
    pub code: Seq<char>,
    pub description: Option<Seq<char>>,
    pub scenario: Option<ScenarioView>,
    pub attributes: Seq<Seq<char>>,
}

impl View for Challenge {
    type V = ChallengeView;

    open spec fn view(&self) -> ChallengeView {
        ChallengeView {
            id: self.id,
            name: self.name@,
            code: self.code@,
            description: match self.description {
                Some(text) => Some(text@),
                None => None,
            },
            scenario: match self.scenario {
                Some(scenario) => Some(scenario@),
                None => None,
            },
            attributes: texts(self.attributes@),
        }
    }
}

impl Clone for Challenge {
    fn clone(&self) -> (copy: Self)
        ensures
            copy@ == self@,
    {
        Challenge {
            id: self.id,
            name: self.name.clone(),
            code: self.code.clone(),
            description: match &self.description {
                Some(text) => Some(text.clone()),
                None => None,
            },
            scenario: match &self.scenario {
                Some(scenario) => Some(scenario.clone()),
                None => None,
            },
            attributes: copy_of(&self.attributes),
        }
    }
}

impl Challenge {
    /// Whether the challenge carries the tag.
    pub fn has_attribute(&self, tag: &str) -> (tagged: bool)
        ensures
            tagged == self@.attributes.contains(tag@),
    {
        holds_text(&self.attributes, tag)
    }
}

/// A scenario with the challenges that belong to it.
pub struct ScenarioGroup {
    pub scenario: Scenario,
    pub challenges: Vec<Challenge>,
}

/// What a group holds, as plain values.
pub struct ScenarioGroupView {
    pub scenario: ScenarioView,
    pub challenges: Seq<ChallengeView>,
}

impl View for ScenarioGroup {
    type V = ScenarioGroupView;

    open spec fn view(&self) -> ScenarioGroupView {
        ScenarioGroupView { scenario: self.scenario@, challenges: views(self.challenges@) }
    }
}

/// The challenges of the scenario with that code.
pub open spec fn with_code(code: Seq<char>) -> spec_fn(ChallengeView) -> bool {
    |challenge: ChallengeView| challenge.scenario is Some && challenge.scenario->0.code == code
}

/// Whether the groups are in the order of the codes of their scenarios, and
/// no code has two groups.
pub open spec fn in_code_order(groups: Seq<ScenarioGroupView>) -> bool {
    forall|i: int, j: int|
        0 <= i < j < groups.len() ==> precedes(
            (#[trigger] groups[i]).scenario.code,
            (#[trigger] groups[j]).scenario.code,
        )
}

/// Whether a group holds, in their order, the challenges of its scenario's
/// code, and heads them with the scenario of the first of them.
pub open spec fn is_group_of(group: ScenarioGroupView, challenges: Seq<ChallengeView>) -> bool {
    &&& group.challenges == challenges.filter(with_code(group.scenario.code))
    &&& group.challenges.len() > 0
    &&& group.challenges[0].scenario == Some(group.scenario)
}

/// Whether some group is for the scenario with that code.
pub open spec fn has_group(groups: Seq<ScenarioGroupView>, code: Seq<char>) -> bool {
    exists|i: int| 0 <= i < groups.len() && (#[trigger] groups[i]).scenario.code == code
}

/// Whether `groups` is the grouping of `challenges` by scenario: one group
/// for each code of a scenario that a challenge has, in the order of the
/// codes, each with all challenges of its code. Challenges without a
/// scenario are in no group.
pub open spec fn is_grouping(groups: Seq<ScenarioGroupView>, challenges: Seq<ChallengeView>) -> bool {
    &&& in_code_order(groups)
    &&& forall|i: int| 0 <= i < groups.len() ==> is_group_of(#[trigger] groups[i], challenges)
    &&& forall|k: int|
        0 <= k < challenges.len() && (#[trigger] challenges[k]).scenario is Some ==> has_group(
            groups,
            challenges[k].scenario->0.code,
        )
}

/// Groups the challenges by the scenario that they belong to, in the order
/// of the scenarios' codes.
pub fn group_by_scenario(challenges: Vec<Challenge>) -> (groups: Vec<ScenarioGroup>)
    ensures
        is_grouping(views(groups@), views(challenges@)),
{
    let ghost all = views(challenges@);
    let mut groups: Vec<ScenarioGroup> = Vec::new();
    let mut i: usize = 0;
    while i < challenges.len()
        invariant
            i <= challenges.len(),
            all == views(challenges@),
            is_grouping(views(groups@), all.take(i as int)),
        decreases challenges.len() - i,
    {
        let ghost done = all.take(i as int);
        let ghost next = all.take(i + 1);
        let ghost before = views(groups@);
        let challenge = challenges[i].clone();
        assert(challenge@ == all[i as int]);
        match &challenges[i].scenario {
            None => {
                proof {
                    assert forall|g: int| 0 <= g < before.len() implies is_group_of(
                        #[trigger] before[g],
                        next,
                    ) by {
                        assert(is_group_of(before[g], done));
                        filter_take_step(all, with_code(before[g].scenario.code), i as int);
                    }
                    assert forall|k: int|
                        0 <= k < next.len() && (#[trigger] next[k]).scenario is Some implies has_group(
                        before,
                        next[k].scenario->0.code,
                    ) by {
                        assert(done[k] == next[k]);
                    }
                }
            },
            Some(scenario) => {
                let code = chars_of(scenario.code.as_str());
                let ghost key = code@;
                assert(all[i as int].scenario->0.code == key);
                // The first group whose code does not come before the key.
                let mut at: usize = 0;
                let mut same: bool = false;
                let mut stop: bool = false;
                while at < groups.len() && !stop
                    invariant
                        at <= groups.len(),
                        before == views(groups@),
                        key == code@,
                        forall|g: int| 0 <= g < at ==> precedes((#[trigger] before[g]).scenario.code, key),
                        same ==> stop,
                        stop ==> at < before.len(),
                        stop && same ==> before[at as int].scenario.code == key,
                        stop && !same ==> precedes(key, before[at as int].scenario.code),
                    decreases groups.len() - at, if stop { 0int } else { 1int },
                {
                    let other = chars_of(groups[at].scenario.code.as_str());
                    assert(other@ == before[at as int].scenario.code);
                    match order_of(&other, &code) {
                        Order::Before => {
                            at += 1;
                        },
                        Order::Same => {
                            same = true;
                            stop = true;
                        },
                        Order::After => {
                            stop = true;
                        },
                    }
                }
                if same {
                    let mut group = groups.remove(at);
                    assert(group@ == before[at as int]);
                    group.challenges.push(challenge);
                    let ghost grown = group@;
                    groups.insert(at, group);
                    proof {
                        let after = views(groups@);
                        assert(after =~= before.update(at as int, grown));
                        assert(grown.scenario == before[at as int].scenario);
                        assert(grown.challenges == before[at as int].challenges.push(all[i as int]));
                        assert forall|g: int| 0 <= g < after.len() implies is_group_of(
                            #[trigger] after[g],
                            next,
                        ) by {
                            assert(is_group_of(before[g], done));
                            filter_take_step(all, with_code(before[g].scenario.code), i as int);
                            if g != at {
                                if g < at {
                                    precedes_is_total(before[g].scenario.code, key);
                                } else {
                                    precedes_is_total(key, before[g].scenario.code);
                                }
                            }
                        }
                        assert forall|a: int, b: int| 0 <= a < b < after.len() implies precedes(
                            (#[trigger] after[a]).scenario.code,
                            (#[trigger] after[b]).scenario.code,
                        ) by {
                            assert(precedes(before[a].scenario.code, before[b].scenario.code));
                        }
                        assert forall|k: int|
                            0 <= k < next.len() && (#[trigger] next[k]).scenario is Some implies has_group(
                            after,
                            next[k].scenario->0.code,
                        ) by {
                            if k < i {
                                assert(done[k] == next[k]);
                                let g = choose|g: int|
                                    0 <= g < before.len() && (#[trigger] before[g]).scenario.code
                                        == next[k].scenario->0.code;
                                assert(after[g].scenario.code == next[k].scenario->0.code);
                            } else {
                                assert(after[at as int].scenario.code == key);
                            }
                        }
                    }
                } else {
                    let mut members: Vec<Challenge> = Vec::new();
                    members.push(challenge);
                    let group = ScenarioGroup { scenario: scenario.clone(), challenges: members };
                    let ghost fresh = group@;
                    groups.insert(at, group);
                    proof {
                        let after = views(groups@);
                        assert(after =~= before.insert(at as int, fresh));
                        assert(fresh.challenges == seq![all[i as int]]);
                        assert(fresh.scenario.code == key);
                        // No group had the key, so no challenge before had it.
                        assert forall|g: int| 0 <= g < before.len() implies (
                        #[trigger] before[g]).scenario.code != key by {
                            if g < at {
                                precedes_is_total(before[g].scenario.code, key);
                            } else {
                                if g > at {
                                    precedes_is_transitive(
                                        key,
                                        before[at as int].scenario.code,
                                        before[g].scenario.code,
                                    );
                                }
                                precedes_is_total(key, before[g].scenario.code);
                            }
                        }
                        assert forall|k: int| 0 <= k < done.len() implies !with_code(key)(
                            #[trigger] done[k],
                        ) by {
                            if done[k].scenario is Some && done[k].scenario->0.code == key {
                                assert(has_group(before, done[k].scenario->0.code));
                            }
                        }
                        done.lemma_all_neg_filter_empty(with_code(key));
                        filter_take_step(all, with_code(key), i as int);
                        assert(next.filter(with_code(key)) == seq![all[i as int]]);
                        assert forall|g: int| 0 <= g < after.len() implies is_group_of(
                            #[trigger] after[g],
                            next,
                        ) by {
                            if g < at {
                                assert(after[g] == before[g]);
                                assert(is_group_of(before[g], done));
                                filter_take_step(all, with_code(before[g].scenario.code), i as int);
                            } else if g > at {
                                assert(after[g] == before[g - 1]);
                                assert(is_group_of(before[g - 1], done));
                                filter_take_step(
                                    all,
                                    with_code(before[g - 1].scenario.code),
                                    i as int,
                                );
                            }
                        }
                        assert forall|a: int, b: int| 0 <= a < b < after.len() implies precedes(
                            (#[trigger] after[a]).scenario.code,
                            (#[trigger] after[b]).scenario.code,
                        ) by {
                            let x = if a < at {
                                a
                            } else {
                                a - 1
                            };
                            let y = if b < at {
                                b
                            } else {
                                b - 1
                            };
                            if a == at {
                                if y > at {
                                    precedes_is_transitive(
                                        key,
                                        before[at as int].scenario.code,
                                        before[y].scenario.code,
                                    );
                                }
                            } else if b == at {
                                assert(precedes(before[x].scenario.code, key));
                            } else {
                                assert(precedes(before[x].scenario.code, before[y].scenario.code));
                            }
                        }
                        assert forall|k: int|
                            0 <= k < next.len() && (#[trigger] next[k]).scenario is Some implies has_group(
                            after,
                            next[k].scenario->0.code,
                        ) by {
                            if k < i {
                                assert(done[k] == next[k]);
                                let g = choose|g: int|
                                    0 <= g < before.len() && (#[trigger] before[g]).scenario.code
                                        == next[k].scenario->0.code;
                                if g < at {
                                    assert(after[g] == before[g]);
                                } else {
                                    assert(after[g + 1] == before[g]);
                                }
                            } else {
                                assert(after[at as int].scenario.code == key);
                            }
                        }
                    }
                }
            },
        }
        i += 1;
    }
    assert(all.take(all.len() as int) == all);
    groups
}

/// Whether the challenges stand in the order of their codes.
pub open spec fn ordered_by_code(challenges: Seq<ChallengeView>) -> bool {
    forall|a: int, b: int|
        0 <= a < b < challenges.len() ==> !precedes(
            (#[trigger] challenges[b]).code,
            (#[trigger] challenges[a]).code,
        )
}

/// Whether `found` holds what `source` holds, each as often, in the order
/// of the codes.
pub open spec fn is_selection(found: Seq<ChallengeView>, source: Seq<ChallengeView>) -> bool {
    ordered_by_code(found) && found.to_multiset() == source.to_multiset()
}

/// Puts the challenge where its code belongs: behind all that do not come
/// after it.
pub fn insert_by_code(sorted: &mut Vec<Challenge>, challenge: Challenge)
    requires
        ordered_by_code(views(old(sorted)@)),
    ensures
        ordered_by_code(views(final(sorted)@)),
        views(final(sorted)@).to_multiset() == views(old(sorted)@).to_multiset().insert(challenge@),
        final(sorted)@.len() == old(sorted)@.len() + 1,
{
    let ghost before = views(sorted@);
    let code = chars_of(challenge.code.as_str());
    let ghost key = code@;
    let mut at: usize = 0;
    let mut stop: bool = false;
    while at < sorted.len() && !stop
        invariant
            at <= sorted.len(),
            before == views(sorted@),
            key == code@,
            forall|g: int| 0 <= g < at ==> !precedes(key, (#[trigger] before[g]).code),
            stop ==> at < before.len() && precedes(key, before[at as int].code),
        decreases sorted.len() - at, if stop { 0int } else { 1int },
    {
        let other = chars_of(sorted[at].code.as_str());
        assert(other@ == before[at as int].code);
        match order_of(&other, &code) {
            Order::After => {
                stop = true;
            },
            _ => {
                proof {
                    precedes_is_total(other@, key);
                }
                at += 1;
            },
        }
    }
    let ghost added = challenge@;
    sorted.insert(at, challenge);
    proof {
        let after = views(sorted@);
        assert(after =~= before.insert(at as int, added));
        vstd::seq_lib::to_multiset_insert(before, at as int, added);
        assert forall|a: int, b: int| 0 <= a < b < after.len() implies !precedes(
            (#[trigger] after[b]).code,
            (#[trigger] after[a]).code,
        ) by {
            let x = if a < at {
                a
            } else {
                a - 1
            };
            let y = if b < at {
                b
            } else {
                b - 1
            };
            if a == at {
                // What follows the place does not come before what stands there.
                assert(after[b] == before[y]);
                if precedes(before[y].code, key) {
                    precedes_is_transitive(before[y].code, key, before[at as int].code);
                    assert(!precedes(before[y].code, before[at as int].code)) by {
                        if y > at {
                            assert(!precedes(before[y].code, before[at as int].code));
                        } else {
                            precedes_is_irreflexive(before[y].code);
                        }
                    }
                }
            } else if b == at {
                assert(after[a] == before[x]);
            } else {
                assert(after[a] == before[x] && after[b] == before[y]);
            }
        }
    }
}

} // verus!
