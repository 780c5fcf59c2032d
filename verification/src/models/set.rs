//! Sets: the products that scenarios come in.

use crate::error::EngineError;
use crate::lemmas::{top_id, top_id_is_greatest, views};
use crate::text::same_text;
use vstd::string::StringExecFns;
use vstd::prelude::*;

verus! {

/// A set of scenarios.
pub struct ScenarioSet {
    pub id: i64,
    pub name: String,
}

/// What a set holds, as plain values.
pub struct SetView {
    pub id: i64,
    pub name: Seq<char>,
}

impl View for ScenarioSet {
    type V = SetView;

    open spec fn view(&self) -> SetView {
        SetView { id: self.id, name: self.name@ }
    }
}

impl Clone for ScenarioSet {
    fn clone(&self) -> (copy: Self)
        ensures
            copy@ == self@,
    {
        ScenarioSet { id: self.id, name: self.name.clone() }
    }
}

impl ScenarioSet {
    /// All the sets of the table, in its order.
    pub fn find_all(sets: &Vec<ScenarioSet>) -> (all: Vec<ScenarioSet>)
        ensures
            views(all@) == views(sets@),
    {
        let mut all: Vec<ScenarioSet> = Vec::new();
        let mut i: usize = 0;
        while i < sets.len()
            invariant
                i <= sets.len(),
                all.len() == i,
                forall|j: int| 0 <= j < i ==> all@[j]@ == sets@[j]@,
            decreases sets.len() - i,
        {
            all.push(sets[i].clone());
            i += 1;
        }
        assert(views(all@) =~= views(sets@));
        all
    }
}

/// Whether `i` is the place of the first set of `sets` with that id.
pub open spec fn is_set_place(sets: Seq<SetView>, id: i64, i: int) -> bool {
    &&& 0 <= i < sets.len()
    &&& sets[i].id == id
    &&& forall|j: int| 0 <= j < i ==> (#[trigger] sets[j]).id != id
}

/// The set with that id; the first of the table, should several have it.
pub open spec fn set_with_id(sets: Seq<SetView>, id: i64) -> Option<SetView> {
    if exists|i: int| is_set_place(sets, id, i) {
        Some(sets[choose|i: int| is_set_place(sets, id, i)])
    } else {
        None
    }
}

impl ScenarioSet {
    /// The set with that id.
    pub fn find_by_id<'a>(sets: &'a Vec<ScenarioSet>, id: i64) -> (found: Option<&'a ScenarioSet>)
        ensures
            match found {
                Some(row) => set_with_id(views(sets@), id) == Some(row@),
                None => set_with_id(views(sets@), id) is None,
            },
    {
        let ghost rows = views(sets@);
        let mut i: usize = 0;
        while i < sets.len()
            invariant
                i <= sets.len(),
                rows == views(sets@),
                forall|j: int| 0 <= j < i ==> (#[trigger] rows[j]).id != id,
            decreases sets.len() - i,
        {
            if sets[i].id == id {
                proof {
                    assert(is_set_place(rows, id, i as int));
                    let k = choose|k: int| is_set_place(rows, id, k);
                    assert(k == i);
                }
                return Some(&sets[i]);
            }
            i += 1;
        }
        proof {
            if exists|k: int| is_set_place(rows, id, k) {
                let k = choose|k: int| is_set_place(rows, id, k);
                assert(rows[k].id == id);
            }
        }
        None
    }
}

/// The ids of the sets of a table.
pub open spec fn set_ids(sets: Seq<SetView>) -> Seq<i64> {
    Seq::new(sets.len(), |i: int| sets[i].id)
}

/// Whether `i` is the place of the first set of that name.
pub open spec fn is_named_place(sets: Seq<SetView>, name: Seq<char>, i: int) -> bool {
    &&& 0 <= i < sets.len()
    &&& sets[i].name == name
    &&& forall|j: int| 0 <= j < i ==> (#[trigger] sets[j]).name != name
}

/// Whether a set has that name.
pub open spec fn has_set(sets: Seq<SetView>, name: Seq<char>) -> bool {
    exists|i: int| is_named_place(sets, name, i)
}

/// The id of the set of that name: the one that the table has, or the next
/// free one where it has none.
pub open spec fn set_id_for(sets: Seq<SetView>, name: Seq<char>) -> int {
    if has_set(sets, name) {
        sets[choose|i: int| is_named_place(sets, name, i)].id as int
    } else {
        top_id(set_ids(sets)) + 1
    }
}

impl ScenarioSet {
    /// The id of the set of that name, which is added under the next id
    /// where the table has none of that name. Fails with
    /// `StoreUnavailable`, and changes nothing, only where a set is to be
    /// added and no id is left.
    pub fn find_or_create(sets: &mut Vec<ScenarioSet>, name: &str) -> (found: Result<i64, EngineError>)
        ensures
            found is Ok <==> has_set(views(old(sets)@), name@) || top_id(
                set_ids(views(old(sets)@)),
            ) < i64::MAX,
            match found {
                Ok(id) => {
                    &&& id == set_id_for(views(old(sets)@), name@)
                    &&& views(final(sets)@) == if has_set(views(old(sets)@), name@) {
                        views(old(sets)@)
                    } else {
                        views(old(sets)@).push(SetView { id, name: name@ })
                    }
                },
                Err(error) => error == EngineError::StoreUnavailable && final(sets)@ == old(sets)@,
            },
    {
        let ghost rows = views(sets@);
        let mut top: i64 = 0;
        let mut i: usize = 0;
        assert(set_ids(rows).take(0) == Seq::<i64>::empty());
        while i < sets.len()
            invariant
                i <= sets.len(),
                sets@ == old(sets)@,
                rows == views(sets@),
                top == top_id(set_ids(rows).take(i as int)),
                forall|j: int| 0 <= j < i ==> (#[trigger] rows[j]).name != name@,
            decreases sets.len() - i,
        {
            if same_text(sets[i].name.as_str(), name) {
                proof {
                    assert(is_named_place(rows, name@, i as int));
                    let k = choose|k: int| is_named_place(rows, name@, k);
                    assert(k == i);
                }
                return Ok(sets[i].id);
            }
            proof {
                let ids = set_ids(rows);
                assert(ids.take(i + 1).drop_last() == ids.take(i as int));
                assert(ids.take(i + 1).last() == rows[i as int].id);
            }
            if top < sets[i].id {
                top = sets[i].id;
            }
            i += 1;
        }
        proof {
            assert(set_ids(rows).take(rows.len() as int) == set_ids(rows));
            top_id_is_greatest(set_ids(rows));
            if has_set(rows, name@) {
                let k = choose|k: int| is_named_place(rows, name@, k);
                assert(rows[k].name == name@);
            }
        }
        if top == i64::MAX {
            return Err(EngineError::StoreUnavailable);
        }
        sets.push(ScenarioSet { id: top + 1, name: String::from_str(name) });
        assert(views(sets@) =~= rows.push(SetView { id: (top + 1) as i64, name: name@ }));
        Ok(top + 1)
    }
}

} // verus!
