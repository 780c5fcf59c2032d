//! Scenarios as the Hall of Beorn lists them, brought to the sets that the
//! keeper files them under.

use crate::lemmas::views;
use crate::text::{digits_in, is_number, number_of, parse_number, same_text};
use vstd::prelude::*;
use vstd::string::StringExecFns;

verus! {

/// A scenario as the catalogue lists it.
pub struct HobScenario {
    pub title: String,
    pub product: String,
    pub number: i16,
}

/// What a listed scenario holds, as plain values.
pub struct HobScenarioView {
    pub title: Seq<char>,
    pub product: Seq<char>,
    pub number: i16,
}

impl View for HobScenario {
    type V = HobScenarioView;

    open spec fn view(&self) -> HobScenarioView {
        HobScenarioView { title: self.title@, product: self.product@, number: self.number }
    }
}

/// A scenario with the set that it is filed under and its number in it.
#[derive(Debug)]
pub struct Scenario {
    pub title: String,
    pub set: String,
    pub number: i16,
}

/// What a filed scenario holds, as plain values.
pub struct ScenarioView {
    pub title: Seq<char>,
    pub set: Seq<char>,
    pub number: i16,
}

impl View for Scenario {
    type V = ScenarioView;

    open spec fn view(&self) -> ScenarioView {
        ScenarioView { title: self.title@, set: self.set@, number: self.number }
    }
}

/// Why a list cannot be filed.
#[derive(Clone, Copy, Debug, PartialEq, Eq)]
pub enum FileError {
    /// A product that belongs to a cycle is listed before any deluxe
    /// expansion, so that no cycle is known for it.
    NoCycle,
    /// More standalone scenarios are listed than can be numbered.
    TooManyStandalones,
}

/// Whether the product is left out: the keeper holds nothing of the First
/// Age.
pub open spec fn is_first_age(product: Seq<char>) -> bool {
    ||| product == "First Age"@
    ||| product == "Trial Upon the Marches"@
    ||| product == "Among the Outlaws"@
    ||| product == "The Betrayal of Mîm"@
    ||| product == "The Fall of Nargothrond"@
}

/// The cycle that a deluxe expansion opens; nothing for another product.
pub open spec fn cycle_of(product: Seq<char>) -> Option<Seq<char>> {
    if product == "Core Set"@ {
        Some("Shadows of Mirkwood"@)
    } else if product == "Khazad-dûm"@ {
        Some("Dwarrowdelf"@)
    } else if product == "Heirs of Númenor"@ {
        Some("Against the Shadow"@)
    } else if product == "The Voice of Isengard"@ {
        Some("The Ring-maker"@)
    } else if product == "The Lost Realm"@ {
        Some("Angmar Awakened"@)
    } else if product == "The Grey Havens"@ {
        Some("Dream-chaser"@)
    } else if product == "The Sands of Harad"@ {
        Some("Haradrim"@)
    } else if product == "The Wilds of Rhovanion"@ {
        Some("Ered Mithrin"@)
    } else if product == "A Shadow in the East"@ {
        Some("Vengeance of Mordor"@)
    } else if product == "Children of Eorl"@ {
        Some("Oaths of the Rohirrim"@)
    } else {
        None
    }
}

/// Whether the product is a set by itself, outside the cycles.
pub open spec fn is_saga(product: Seq<char>) -> bool {
    ||| product == "The Hobbit: Over Hill and Under Hill"@
    ||| product == "The Hobbit: On the Doorstep"@
    ||| product == "The Black Riders"@
    ||| product == "The Road Darkens"@
    ||| product == "The Treason of Saruman"@
    ||| product == "The Land of Shadow"@
    ||| product == "The Flame of the West"@
    ||| product == "The Mountain of Fire"@
    ||| product == "Two-Player Limited Edition Starter"@
}

/// Whether the product is a standalone scenario: those are named by the
/// year they came out in, but for two.
pub open spec fn is_standalone(product: Seq<char>) -> bool {
    ||| is_number(product) && number_of(digits_in(product)) <= u32::MAX
    ||| product == "The Hunt for the Dreadnaught"@
    ||| product == "The Scouring of the Shire"@
}

/// The deluxe expansion that was listed last, once `product` is read.
pub open spec fn deluxe_after(last: Seq<char>, product: Seq<char>) -> Seq<char> {
    if product != last && cycle_of(product) is Some {
        product
    } else {
        last
    }
}

/// The set that a product is filed under while `last` is the deluxe
/// expansion listed last; nothing where the product belongs to a cycle and
/// no deluxe expansion was listed.
pub open spec fn set_of(product: Seq<char>, last: Seq<char>) -> Option<Seq<char>> {
    if is_standalone(product) {
        Some("Standalone Scenarios"@)
    } else if is_saga(product) {
        Some(product)
    } else if product != last {
        cycle_of(last)
    } else {
        Some(last)
    }
}

/// The number of a scenario in its set. The standalone scenarios are
/// counted in the order of the list, but for two whose place is known.
pub open spec fn number_of_scenario(
    set: Seq<char>,
    title: Seq<char>,
    standalones: int,
    listed: i16,
) -> int {
    if set == "Standalone Scenarios"@ {
        if title == "Fog on the Barrow-downs"@ {
            5
        } else if title == "The Ruins of Belegost"@ {
            6
        } else {
            standalones
        }
    } else {
        listed as int
    }
}

/// The deluxe expansion listed last in a list.
pub open spec fn last_deluxe(list: Seq<HobScenarioView>) -> Seq<char>
    decreases list.len(),
{
    if list.len() == 0 {
        Seq::empty()
    } else if is_first_age(list.last().product) {
        last_deluxe(list.drop_last())
    } else {
        deluxe_after(last_deluxe(list.drop_last()), list.last().product)
    }
}

/// How many standalone scenarios a list holds.
pub open spec fn standalones(list: Seq<HobScenarioView>) -> nat
    decreases list.len(),
{
    if list.len() == 0 {
        0
    } else if !is_first_age(list.last().product) && is_standalone(list.last().product) {
        standalones(list.drop_last()) + 1
    } else {
        standalones(list.drop_last())
    }
}

/// Whether the last scenario of a list can be filed.
pub open spec fn can_file_last(list: Seq<HobScenarioView>) -> bool
    recommends
        list.len() > 0,
{
    is_first_age(list.last().product) || (set_of(list.last().product, last_deluxe(list)) is Some
        && standalones(list) <= i16::MAX)
}

/// The last scenario of a list as it is filed.
pub open spec fn filed_last(list: Seq<HobScenarioView>) -> ScenarioView
    recommends
        list.len() > 0,
{
    let set = set_of(list.last().product, last_deluxe(list))->0;
    ScenarioView {
        title: list.last().title,
        set,
        number: number_of_scenario(
            set,
            list.last().title,
            standalones(list) as int,
            list.last().number,
        ) as i16,
    }
}

/// Whether every scenario of the list can be filed.
pub open spec fn can_file(list: Seq<HobScenarioView>) -> bool {
    forall|n: int| 1 <= n <= list.len() ==> can_file_last(#[trigger] list.take(n))
}

/// The scenarios of a list as they are filed, in the order of the list;
/// those of the First Age are left out.
pub open spec fn filed(list: Seq<HobScenarioView>) -> Seq<ScenarioView>
    decreases list.len(),
{
    if list.len() == 0 {
        Seq::empty()
    } else if is_first_age(list.last().product) {
        filed(list.drop_last())
    } else {
        filed(list.drop_last()).push(filed_last(list))
    }
}

fn first_age(product: &str) -> (left_out: bool)
    ensures
        left_out == is_first_age(product@),
{
    same_text(product, "First Age") || same_text(product, "Trial Upon the Marches") || same_text(
        product,
        "Among the Outlaws",
    ) || same_text(product, "The Betrayal of Mîm") || same_text(product, "The Fall of Nargothrond")
}

fn cycle(product: &str) -> (name: Option<&'static str>)
    ensures
        match name {
            Some(text) => cycle_of(product@) == Some(text@),
            None => cycle_of(product@) is None,
        },
{
    if same_text(product, "Core Set") {
        Some("Shadows of Mirkwood")
    } else if same_text(product, "Khazad-dûm") {
        Some("Dwarrowdelf")
    } else if same_text(product, "Heirs of Númenor") {
        Some("Against the Shadow")
    } else if same_text(product, "The Voice of Isengard") {
        Some("The Ring-maker")
    } else if same_text(product, "The Lost Realm") {
        Some("Angmar Awakened")
    } else if same_text(product, "The Grey Havens") {
        Some("Dream-chaser")
    } else if same_text(product, "The Sands of Harad") {
        Some("Haradrim")
    } else if same_text(product, "The Wilds of Rhovanion") {
        Some("Ered Mithrin")
    } else if same_text(product, "A Shadow in the East") {
        Some("Vengeance of Mordor")
    } else if same_text(product, "Children of Eorl") {
        Some("Oaths of the Rohirrim")
    } else {
        None
    }
}

fn saga(product: &str) -> (alone: bool)
    ensures
        alone == is_saga(product@),
{
    same_text(product, "The Hobbit: Over Hill and Under Hill") || same_text(
        product,
        "The Hobbit: On the Doorstep",
    ) || same_text(product, "The Black Riders") || same_text(product, "The Road Darkens")
        || same_text(product, "The Treason of Saruman") || same_text(product, "The Land of Shadow")
        || same_text(product, "The Flame of the West") || same_text(product, "The Mountain of Fire")
        || same_text(product, "Two-Player Limited Edition Starter")
}

fn standalone(product: &str) -> (alone: bool)
    ensures
        alone == is_standalone(product@),
{
    let year = match parse_number(product) {
        Some(number) => number <= 0xFFFF_FFFF,
        None => false,
    };
    year || same_text(product, "The Hunt for the Dreadnaught") || same_text(
        product,
        "The Scouring of the Shire",
    )
}

/// Files the scenarios of a list, in its order, under the sets of the
/// keeper. Fails where a scenario of the list cannot be filed; which of the
/// two reasons is given goes by the first such scenario.
pub fn fetch(hob_scenarios: Vec<HobScenario>) -> (scenarios: Result<Vec<Scenario>, FileError>)
    ensures
        match scenarios {
            Ok(found) => can_file(views(hob_scenarios@)) && views(found@) == filed(
                views(hob_scenarios@),
            ),
            Err(error) => exists|n: int|
                {
                    &&& 1 <= n <= hob_scenarios@.len()
                    &&& !can_file_last(#[trigger] views(hob_scenarios@).take(n))
                    &&& forall|m: int|
                        1 <= m < n ==> can_file_last(#[trigger] views(hob_scenarios@).take(m))
                    &&& error == if set_of(
                        views(hob_scenarios@)[n - 1].product,
                        last_deluxe(views(hob_scenarios@).take(n)),
                    ) is None {
                        FileError::NoCycle
                    } else {
                        FileError::TooManyStandalones
                    }
                },
        },
{
    let ghost list = views(hob_scenarios@);
    let mut last = String::new();
    let mut count: i16 = 0;
    let mut found: Vec<Scenario> = Vec::new();
    let mut i: usize = 0;
    assert(views(found@) =~= filed(list.take(0)));
    while i < hob_scenarios.len()
        invariant
            i <= hob_scenarios.len(),
            list == views(hob_scenarios@),
            last@ == last_deluxe(list.take(i as int)),
            count == standalones(list.take(i as int)),
            views(found@) == filed(list.take(i as int)),
            forall|m: int| 1 <= m <= i ==> can_file_last(#[trigger] list.take(m)),
        decreases hob_scenarios.len() - i,
    {
        let listed = &hob_scenarios[i];
        let ghost now = list.take(i + 1);
        proof {
            assert(now.drop_last() == list.take(i as int));
            assert(now.last() == listed@);
        }
        let product = listed.product.as_str();
        if !first_age(product) {
            if !same_text(product, last.as_str()) && cycle(product).is_some() {
                last = listed.product.clone();
            }
            assert(last@ == last_deluxe(now));
            let alone = standalone(product);
            let set: String = if alone {
                if count == i16::MAX {
                    assert(!can_file_last(list.take(i + 1)));
                    return Err(FileError::TooManyStandalones);
                }
                count = count + 1;
                String::from_str("Standalone Scenarios")
            } else if saga(product) {
                listed.product.clone()
            } else if !same_text(product, last.as_str()) {
                match cycle(last.as_str()) {
                    Some(name) => String::from_str(name),
                    None => {
                        assert(!can_file_last(list.take(i + 1)));
                        return Err(FileError::NoCycle);
                    },
                }
            } else {
                last.clone()
            };
            assert(Some(set@) == set_of(listed@.product, last_deluxe(now)));
            assert(count == standalones(now));
            let number: i16 = if same_text(set.as_str(), "Standalone Scenarios") {
                if same_text(listed.title.as_str(), "Fog on the Barrow-downs") {
                    5
                } else if same_text(listed.title.as_str(), "The Ruins of Belegost") {
                    6
                } else {
                    count
                }
            } else {
                listed.number
            };
            let ghost before = found@;
            let scenario = Scenario { title: listed.title.clone(), set, number };
            assert(scenario@ == filed_last(now));
            found.push(scenario);
            assert(views(found@) =~= views(before).push(filed_last(now)));
        }
        assert(can_file_last(list.take(i + 1)));
        i += 1;
    }
    assert(list.take(list.len() as int) == list);
    Ok(found)
}

} // verus!
