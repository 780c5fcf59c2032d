//! Scenarios and the codes by which players name them.

use crate::text::{pad_left, push_padded, same_text, signed_decimal, signed_decimal_chars};
use crate::error::EngineError;
use crate::lemmas::{top_id, top_id_is_greatest, views};
use vstd::string::StringExecFns;
use vstd::prelude::*;

verus! {

/// A scenario of a set. Its code is the only handle that players see.
pub struct Scenario {
    pub id: i64,
    pub title: String,
    pub code: String,
    pub set_id: i64,
    pub number: Option<i16>,
}

/// What a scenario holds, as plain values.
pub struct ScenarioView {
    pub id: i64,
    pub title: Seq<char>,
    pub code: Seq<char>,
    pub set_id: i64,
    pub number: Option<i16>,
}

impl View for Scenario {
    type V = ScenarioView;

    open spec fn view(&self) -> ScenarioView {
        ScenarioView {
            id: self.id,
            title: self.title@,
            code: self.code@,
            set_id: self.set_id,
            number: self.number,
        }
    }
}

impl Clone for Scenario {
    fn clone(&self) -> (copy: Self)
        ensures
            copy@ == self@,
    {
        Scenario {
            id: self.id,
            title: self.title.clone(),
            code: self.code.clone(),
            set_id: self.set_id,
            number: self.number,
        }
    }
}

/// The code of the scenario with number `set_number` in the set `set_id`:
/// both numbers in decimal, each filled up with zeros to two characters.
pub open spec fn code_of(set_id: int, set_number: int) -> Seq<char> {
    pad_left(signed_decimal(set_id), 2, '0') + pad_left(signed_decimal(set_number), 2, '0')
}

/// The code of a scenario, made from the id of its set and its number in it.
pub fn generate_code(set_id: i64, set_number: i16) -> (code: String)
    ensures
        code@ == code_of(set_id as int, set_number as int),
{
    let mut code = String::new();
    push_padded(&mut code, &signed_decimal_chars(set_id), 2, '0');
    push_padded(&mut code, &signed_decimal_chars(set_number as i64), 2, '0');
    code
}

/// Whether `i` is the place of the last scenario of `scenarios` with `title`.
pub open spec fn last_titled(scenarios: Seq<ScenarioView>, title: Seq<char>, i: int) -> bool {
    &&& 0 <= i < scenarios.len()
    &&& scenarios[i].title == title
    &&& forall|j: int| i < j < scenarios.len() ==> scenarios[j].title != title
}

/// The scenario with that title; the last of the table where several have
/// it.
pub open spec fn scenario_titled(scenarios: Seq<ScenarioView>, title: Seq<char>) -> Option<
    ScenarioView,
> {
    if exists|i: int| last_titled(scenarios, title, i) {
        Some(scenarios[choose|i: int| last_titled(scenarios, title, i)])
    } else {
        None
    }
}

/// Whether `i` is the place of the first scenario of `scenarios` with `code`.
pub open spec fn first_coded(scenarios: Seq<ScenarioView>, code: Seq<char>, i: int) -> bool {
    &&& 0 <= i < scenarios.len()
    &&& scenarios[i].code == code
    &&& forall|j: int| 0 <= j < i ==> (#[trigger] scenarios[j]).code != code
}

/// Whether a scenario of `scenarios` has `code`.
pub open spec fn has_code(scenarios: Seq<ScenarioView>, code: Seq<char>) -> bool {
    exists|i: int| 0 <= i < scenarios.len() && (#[trigger] scenarios[i]).code == code
}

/// The first scenario of `scenarios` with `code`.
pub open spec fn coded(scenarios: Seq<ScenarioView>, code: Seq<char>) -> ScenarioView {
    scenarios[choose|i: int| first_coded(scenarios, code, i)]
}

impl Scenario {
    /// The scenario with this code; the first of the table, should several
    /// have it.
    pub fn find_by_code<'a>(scenarios: &'a Vec<Scenario>, code: &str) -> (found: Option<&'a Scenario>)
        ensures
            found is Some <==> has_code(views(scenarios@), code@),
            found matches Some(scenario) ==> scenario@ == coded(views(scenarios@), code@)
                && scenario@.code == code@,
    {
        let mut i: usize = 0;
        while i < scenarios.len()
            invariant
                i <= scenarios.len(),
                forall|j: int| 0 <= j < i ==> (#[trigger] views(scenarios@)[j]).code != code@,
            decreases scenarios.len() - i,
        {
            if same_text(scenarios[i].code.as_str(), code) {
                proof {
                    let rows = views(scenarios@);
                    assert(first_coded(rows, code@, i as int));
                    let k = choose|k: int| first_coded(rows, code@, k);
                    assert(k == i);
                }
                return Some(&scenarios[i]);
            }
            i += 1;
        }
        None
    }

    /// The scenario with this title; the last of the table where several
    /// have it.
    pub fn find_by_title(scenarios: &Vec<Scenario>, title: &str) -> (found: Option<Scenario>)
        ensures
            match found {
                Some(scenario) => scenario_titled(views(scenarios@), title@) == Some(scenario@),
                None => scenario_titled(views(scenarios@), title@) is None,
            },
    {
        let ghost rows = views(scenarios@);
        let mut i: usize = scenarios.len();
        while i > 0
            invariant
                i <= scenarios.len(),
                rows == views(scenarios@),
                forall|j: int| i <= j < scenarios.len() ==> (#[trigger] rows[j]).title != title@,
            decreases i,
        {
            i -= 1;
            if same_text(scenarios[i].title.as_str(), title) {
                proof {
                    assert(last_titled(rows, title@, i as int));
                    let k = choose|k: int| last_titled(rows, title@, k);
                    if k < i {
                        assert(rows[i as int].title != title@);
                    } else if i < k {
                        assert(rows[k].title != title@);
                    }
                }
                return Some(scenarios[i].clone());
            }
        }
        proof {
            if exists|k: int| last_titled(rows, title@, k) {
                let k = choose|k: int| last_titled(rows, title@, k);
                assert(rows[k].title == title@);
            }
        }
        None
    }
}

/// Whether `i` is the place of the first scenario of `scenarios` with that id.
pub open spec fn is_scenario_place(scenarios: Seq<ScenarioView>, id: i64, i: int) -> bool {
    &&& 0 <= i < scenarios.len()
    &&& scenarios[i].id == id
    &&& forall|j: int| 0 <= j < i ==> (#[trigger] scenarios[j]).id != id
}

/// The scenario with that id; the first of the table, should several have it.
pub open spec fn scenario_with_id(scenarios: Seq<ScenarioView>, id: i64) -> Option<ScenarioView> {
    if exists|i: int| is_scenario_place(scenarios, id, i) {
        Some(scenarios[choose|i: int| is_scenario_place(scenarios, id, i)])
    } else {
        None
    }
}

impl Scenario {
    /// The scenario with that id.
    pub fn find_by_id<'a>(scenarios: &'a Vec<Scenario>, id: i64) -> (found: Option<&'a Scenario>)
        ensures
            match found {
                Some(row) => scenario_with_id(views(scenarios@), id) == Some(row@),
                None => scenario_with_id(views(scenarios@), id) is None,
            },
    {
        let ghost rows = views(scenarios@);
        let mut i: usize = 0;
        while i < scenarios.len()
            invariant
                i <= scenarios.len(),
                rows == views(scenarios@),
                forall|j: int| 0 <= j < i ==> (#[trigger] rows[j]).id != id,
            decreases scenarios.len() - i,
        {
            if scenarios[i].id == id {
                proof {
                    assert(is_scenario_place(rows, id, i as int));
                    let k = choose|k: int| is_scenario_place(rows, id, k);
                    assert(k == i);
                }
                return Some(&scenarios[i]);
            }
            i += 1;
        }
        proof {
            if exists|k: int| is_scenario_place(rows, id, k) {
                let k = choose|k: int| is_scenario_place(rows, id, k);
                assert(rows[k].id == id);
            }
        }
        None
    }
}

/// The ids of the scenarios of a table.
pub open spec fn all_ids(scenarios: Seq<ScenarioView>) -> Seq<i64> {
    Seq::new(scenarios.len(), |i: int| scenarios[i].id)
}

/// Whether the table holds a scenario of that title, set and number.
pub open spec fn is_registered(
    scenarios: Seq<ScenarioView>,
    title: Seq<char>,
    set_id: i64,
    number: i16,
) -> bool {
    exists|i: int|
        0 <= i < scenarios.len() && (#[trigger] scenarios[i]).title == title && scenarios[i].set_id
            == set_id && scenarios[i].number == Some(number)
}

impl Scenario {
    /// Adds the scenario of that title, set and number, under the next id
    /// and with the code that set and number give, unless the table holds
    /// it; says whether it was added. Fails with `StoreUnavailable`, and
    /// changes nothing, only where the scenario is new and no id is left.
    pub fn register(scenarios: &mut Vec<Scenario>, title: &str, set_id: i64, number: i16) -> (added:
        Result<bool, EngineError>)
        ensures
            added is Ok <==> is_registered(views(old(scenarios)@), title@, set_id, number) || top_id(
                all_ids(views(old(scenarios)@)),
            ) < i64::MAX,
            match added {
                Ok(new) => {
                    &&& new == !is_registered(views(old(scenarios)@), title@, set_id, number)
                    &&& views(final(scenarios)@) == if new {
                        views(old(scenarios)@).push(
                            ScenarioView {
                                id: (top_id(all_ids(views(old(scenarios)@))) + 1) as i64,
                                title: title@,
                                code: code_of(set_id as int, number as int),
                                set_id,
                                number: Some(number),
                            },
                        )
                    } else {
                        views(old(scenarios)@)
                    }
                },
                Err(error) => error == EngineError::StoreUnavailable && final(scenarios)@ == old(
                    scenarios,
                )@,
            },
    {
        let ghost rows = views(scenarios@);
        let mut top: i64 = 0;
        let mut i: usize = 0;
        assert(all_ids(rows).take(0) == Seq::<i64>::empty());
        while i < scenarios.len()
            invariant
                i <= scenarios.len(),
                scenarios@ == old(scenarios)@,
                rows == views(scenarios@),
                top == top_id(all_ids(rows).take(i as int)),
                forall|j: int|
                    0 <= j < i ==> !((#[trigger] rows[j]).title == title@ && rows[j].set_id == set_id
                        && rows[j].number == Some(number)),
            decreases scenarios.len() - i,
        {
            let row = &scenarios[i];
            assert(row@ == rows[i as int]);
            let same_number = match row.number {
                Some(n) => n == number,
                None => false,
            };
            if row.set_id == set_id && same_number && same_text(row.title.as_str(), title) {
                return Ok(false);
            }
            proof {
                let ids = all_ids(rows);
                assert(ids.take(i + 1).drop_last() == ids.take(i as int));
                assert(ids.take(i + 1).last() == rows[i as int].id);
            }
            if top < row.id {
                top = row.id;
            }
            i += 1;
        }
        proof {
            assert(all_ids(rows).take(rows.len() as int) == all_ids(rows));
            top_id_is_greatest(all_ids(rows));
        }
        if top == i64::MAX {
            return Err(EngineError::StoreUnavailable);
        }
        let scenario = Scenario {
            id: top + 1,
            title: String::from_str(title),
            code: generate_code(set_id, number),
            set_id,
            number: Some(number),
        };
        let ghost added = scenario@;
        scenarios.push(scenario);
        assert(views(scenarios@) =~= rows.push(added));
        Ok(true)
    }
}

} // verus!
