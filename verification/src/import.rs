//! Challenges as the lists of a convention name them, made ready for the
//! keeper.

use crate::lemmas::{top_id, top_id_is_greatest, views};
use crate::models::scenario::{scenario_titled, Scenario, ScenarioView};
use crate::text::{
    chars_of, copy_of, decimal, decimal_chars, pad_left, push_chars, push_padded,
    signed_decimal, signed_decimal_chars, texts,
};
use vstd::prelude::*;
use vstd::string::StringExecFns;

verus! {

/// A challenge as a list names it: by the title of its scenario, not yet
/// by a code.
pub struct Challenge {
    pub name: String,
    pub description: String,
    pub scenario: String,
    pub attributes: Vec<String>,
}

/// What a listed challenge holds, as plain values.
pub struct ChallengeView {
    pub name: Seq<char>,
    pub description: Seq<char>,
    pub scenario: Seq<char>,
    pub attributes: Seq<Seq<char>>,
}

impl View for Challenge {
    type V = ChallengeView;

    open spec fn view(&self) -> ChallengeView {
        ChallengeView {
            name: self.name@,
            description: self.description@,
            scenario: self.scenario@,
            attributes: texts(self.attributes@),
        }
    }
}

/// Why an achievement makes no challenge.
#[derive(Clone, Copy, Debug, PartialEq, Eq)]
pub enum ImportError {
    /// No colon and blank part the name from a description.
    NoDescription,
    /// The rows of a list are not of one length.
    UnevenRows,
}

/// Whether a colon and a blank stand at `at` in the text.
pub open spec fn parts_at(text: Seq<char>, at: int) -> bool {
    0 <= at && at + 1 < text.len() && text[at] == ':' && text[at + 1] == ' '
}

/// Whether `at` is the first place of the text where a colon and a blank
/// stand.
pub open spec fn first_parts_at(text: Seq<char>, at: int) -> bool {
    parts_at(text, at) && forall|j: int| 0 <= j < at ==> !parts_at(text, j)
}

/// The challenge that an achievement makes, where a colon and a blank
/// stand first at `at`: its name is what comes before them, its
/// description what comes behind.
pub open spec fn challenge_of(
    scenario: Seq<char>,
    attributes: Seq<Seq<char>>,
    achievement: Seq<char>,
    at: int,
) -> ChallengeView {
    ChallengeView {
        name: achievement.take(at),
        description: achievement.skip(at + 2),
        scenario,
        attributes,
    }
}

/// The challenge that an achievement makes for a scenario; nothing where no
/// colon and blank part a name from a description.
pub open spec fn made_of(scenario: Seq<char>, attributes: Seq<Seq<char>>, achievement: Seq<char>) -> Option<
    ChallengeView,
> {
    if exists|at: int| first_parts_at(achievement, at) {
        Some(
            challenge_of(
                scenario,
                attributes,
                achievement,
                choose|at: int| first_parts_at(achievement, at),
            ),
        )
    } else {
        None
    }
}

/// Appends the characters of `chars` from `from` up to `to`.
fn push_range(out: &mut String, chars: &Vec<char>, from: usize, to: usize)
    requires
        from <= to <= chars.len(),
    ensures
        final(out)@ == old(out)@ + chars@.subrange(from as int, to as int),
{
    let mut part: Vec<char> = Vec::new();
    let mut i: usize = from;
    while i < to
        invariant
            from <= i <= to <= chars.len(),
            part@ == chars@.subrange(from as int, i as int),
        decreases to - i,
    {
        part.push(chars[i]);
        assert(chars@.subrange(from as int, i + 1) == chars@.subrange(from as int, i as int).push(
            chars@[i as int],
        ));
        i += 1;
    }
    push_chars(out, &part);
}

impl Challenge {
    /// The challenge of a scenario that an achievement names: the name
    /// stands before the first colon and blank, the description behind. An
    /// achievement without them is an error.
    pub fn new(scenario: String, attributes: &Vec<String>, achievement: &str) -> (made: Result<
        Challenge,
        ImportError,
    >)
        ensures
            match made {
                Ok(challenge) => made_of(scenario@, texts(attributes@), achievement@) == Some(
                    challenge@,
                ),
                Err(error) => error == ImportError::NoDescription && made_of(
                    scenario@,
                    texts(attributes@),
                    achievement@,
                ) is None,
            },
    {
        let chars = chars_of(achievement);
        let mut at: usize = 0;
        while at < chars.len() && at + 1 < chars.len()
            invariant
                at <= chars.len(),
                chars@ == achievement@,
                forall|j: int| 0 <= j < at ==> !parts_at(achievement@, j),
            decreases chars.len() - at,
        {
            if chars[at] == ':' && chars[at + 1] == ' ' {
                let mut name = String::new();
                push_range(&mut name, &chars, 0, at);
                let mut description = String::new();
                push_range(&mut description, &chars, at + 2, chars.len());
                let challenge = Challenge {
                    name,
                    description,
                    scenario,
                    attributes: copy_of(attributes),
                };
                proof {
                    assert(first_parts_at(achievement@, at as int));
                    let k = choose|k: int| first_parts_at(achievement@, k);
                    if k < at {
                        assert(!parts_at(achievement@, k));
                    } else if at < k {
                        assert(!parts_at(achievement@, at as int));
                    }
                    assert(chars@.subrange(0, at as int) == achievement@.take(at as int));
                    assert(chars@.subrange(at + 2, chars@.len() as int) == achievement@.skip(at + 2));
                    assert(challenge@ == challenge_of(
                        scenario@,
                        texts(attributes@),
                        achievement@,
                        at as int,
                    ));
                }
                return Ok(challenge);
            }
            at += 1;
        }
        proof {
            if exists|k: int| first_parts_at(achievement@, k) {
                let k = choose|k: int| first_parts_at(achievement@, k);
                assert(parts_at(achievement@, k));
            }
        }
        Err(ImportError::NoDescription)
    }
}

/// The tag of the challenges of the convention of 2020.
pub const CONVENTION_2020_TAG: &'static str = "Con of the Rings 2020";

/// The challenges that a list of a convention makes: for each scenario,
/// in the order of the list, one of its first and one of its second
/// achievement; nothing where an achievement makes no challenge.
pub open spec fn listed_challenges(
    scenarios: Seq<Seq<char>>,
    first: Seq<Seq<char>>,
    second: Seq<Seq<char>>,
) -> Option<Seq<ChallengeView>>
    decreases scenarios.len(),
{
    if scenarios.len() == 0 {
        Some(Seq::empty())
    } else if first.len() != scenarios.len() || second.len() != scenarios.len() {
        None
    } else {
        match (
            listed_challenges(scenarios.drop_last(), first.drop_last(), second.drop_last()),
            made_of(scenarios.last(), seq![CONVENTION_2020_TAG@], first.last()),
            made_of(scenarios.last(), seq![CONVENTION_2020_TAG@], second.last()),
        ) {
            (Some(before), Some(one), Some(other)) => Some(before.push(one).push(other)),
            _ => None,
        }
    }
}

/// The challenges of a list of a convention: a row of scenarios, and two
/// rows with an achievement for each scenario. Fails with `UnevenRows`
/// where the rows are not of one length, and else with `NoDescription`
/// where an achievement makes no challenge.
pub fn challenges_of(scenarios: &Vec<String>, first: &Vec<String>, second: &Vec<String>) -> (made:
    Result<Vec<Challenge>, ImportError>)
    ensures
        match made {
            Ok(challenges) => listed_challenges(
                texts(scenarios@),
                texts(first@),
                texts(second@),
            ) == Some(views(challenges@)),
            Err(error) => if first@.len() != scenarios@.len() || second@.len()
                != scenarios@.len() {
                error == ImportError::UnevenRows
            } else {
                error == ImportError::NoDescription && listed_challenges(
                    texts(scenarios@),
                    texts(first@),
                    texts(second@),
                ) is None
            },
        },
{
    if first.len() != scenarios.len() || second.len() != scenarios.len() {
        return Err(ImportError::UnevenRows);
    }
    let ghost titles = texts(scenarios@);
    let ghost ones = texts(first@);
    let ghost others = texts(second@);
    let mut attributes: Vec<String> = Vec::new();
    attributes.push(String::from_str(CONVENTION_2020_TAG));
    assert(texts(attributes@) =~= seq![CONVENTION_2020_TAG@]);
    let mut challenges: Vec<Challenge> = Vec::new();
    let mut i: usize = 0;
    assert(views(challenges@) =~= Seq::<ChallengeView>::empty());
    while i < scenarios.len()
        invariant
            i <= scenarios.len(),
            first.len() == scenarios.len(),
            second.len() == scenarios.len(),
            titles == texts(scenarios@),
            ones == texts(first@),
            others == texts(second@),
            texts(attributes@) == seq![CONVENTION_2020_TAG@],
            listed_challenges(titles.take(i as int), ones.take(i as int), others.take(i as int))
                == Some(views(challenges@)),
        decreases scenarios.len() - i,
    {
        proof {
            assert(titles.take(i + 1).drop_last() == titles.take(i as int));
            assert(ones.take(i + 1).drop_last() == ones.take(i as int));
            assert(others.take(i + 1).drop_last() == others.take(i as int));
            assert(titles.take(i + 1).last() == scenarios@[i as int]@);
            assert(ones.take(i + 1).last() == first@[i as int]@);
            assert(others.take(i + 1).last() == second@[i as int]@);
        }
        let one = Challenge::new(scenarios[i].clone(), &attributes, first[i].as_str());
        let other = Challenge::new(scenarios[i].clone(), &attributes, second[i].as_str());
        match (one, other) {
            (Ok(a), Ok(b)) => {
                let ghost before = views(challenges@);
                let ghost va = a@;
                let ghost vb = b@;
                challenges.push(a);
                challenges.push(b);
                assert(views(challenges@) =~= before.push(va).push(vb));
            },
            _ => {
                proof {
                    unlisted_stays_unlisted(titles, ones, others, i + 1);
                }
                return Err(ImportError::NoDescription);
            },
        }
        i += 1;
    }
    proof {
        assert(titles.take(titles.len() as int) == titles);
        assert(ones.take(ones.len() as int) == ones);
        assert(others.take(others.len() as int) == others);
    }
    Ok(challenges)
}

/// Where the beginning of a list makes no challenges, the list makes none.
pub proof fn unlisted_stays_unlisted(
    scenarios: Seq<Seq<char>>,
    first: Seq<Seq<char>>,
    second: Seq<Seq<char>>,
    n: int,
)
    requires
        0 <= n <= scenarios.len(),
        first.len() == scenarios.len(),
        second.len() == scenarios.len(),
        listed_challenges(scenarios.take(n), first.take(n), second.take(n)) is None,
    ensures
        listed_challenges(scenarios, first, second) is None,
    decreases scenarios.len() - n,
{
    if n < scenarios.len() {
        assert(scenarios.take(n + 1).drop_last() == scenarios.take(n));
        assert(first.take(n + 1).drop_last() == first.take(n));
        assert(second.take(n + 1).drop_last() == second.take(n));
        unlisted_stays_unlisted(scenarios, first, second, n + 1);
    } else {
        assert(scenarios.take(n) == scenarios);
        assert(first.take(n) == first);
        assert(second.take(n) == second);
    }
}

/// The code of the challenge at place `ordinal` of a batch, counted from
/// one: the prefix of the batch, then the place in decimal, filled up with
/// a zero to two characters.
pub open spec fn batch_code(prefix: Seq<char>, ordinal: nat) -> Seq<char> {
    prefix + pad_left(decimal(ordinal), 2, '0')
}

/// The code of the challenge at place `ordinal` of a batch, counted from
/// one.
pub fn challenge_code(prefix: &str, ordinal: usize) -> (code: String)
    ensures
        code@ == batch_code(prefix@, ordinal as nat),
{
    let mut code = String::from_str(prefix);
    push_padded(&mut code, &decimal_chars(ordinal as u64), 2, '0');
    code
}

/// The prefix of the codes of the Kangs.
pub const KANG_CODE_PREFIX: &'static str = "ROTK2021-MC";

/// The code of the Kang with that number in a mode: the prefix, the
/// initial of the mode, then the number in decimal, filled up with a zero to
/// two characters.
pub open spec fn kang_code_of(expert: bool, id: int) -> Seq<char> {
    KANG_CODE_PREFIX@ + seq![if expert {
        'E'
    } else {
        'S'
    }] + pad_left(signed_decimal(id), 2, '0')
}

/// The code of the Kang with that number, in expert mode or in standard
/// mode.
pub fn kang_code(expert: bool, id: i64) -> (code: String)
    ensures
        code@ == kang_code_of(expert, id as int),
{
    let mut code = String::from_str(KANG_CODE_PREFIX);
    let mut initial: Vec<char> = Vec::new();
    initial.push(if expert {
        'E'
    } else {
        'S'
    });
    push_chars(&mut code, &initial);
    push_padded(&mut code, &signed_decimal_chars(id), 2, '0');
    code
}

/// A challenge of a batch that is to be loaded: it names its scenario, if
/// it has one, by title.
pub struct BatchChallenge {
    pub name: String,
    pub description: String,
    pub scenario: Option<String>,
    pub attributes: Vec<String>,
}

/// What a challenge of a batch holds, as plain values.
pub struct BatchChallengeView {
    pub name: Seq<char>,
    pub description: Seq<char>,
    pub scenario: Option<Seq<char>>,
    pub attributes: Seq<Seq<char>>,
}

impl View for BatchChallenge {
    type V = BatchChallengeView;

    open spec fn view(&self) -> BatchChallengeView {
        BatchChallengeView {
            name: self.name@,
            description: self.description@,
            scenario: match self.scenario {
                Some(title) => Some(title@),
                None => None,
            },
            attributes: texts(self.attributes@),
        }
    }
}

/// Why a batch is not loaded.
#[derive(Clone, Copy, Debug, PartialEq, Eq)]
pub enum LoadError {
    /// The challenge at this place names a scenario that the keeper does
    /// not know.
    UnknownScenario { place: usize },
    /// The store has not the ids for the batch.
    StoreUnavailable,
}

/// The ids of the challenges of a table.
pub open spec fn challenge_ids(challenges: Seq<crate::models::challenge::ChallengeView>) -> Seq<i64> {
    Seq::new(challenges.len(), |i: int| challenges[i].id)
}

/// Whether the scenario that a challenge of a batch names is known.
pub open spec fn resolves(scenarios: Seq<ScenarioView>, item: BatchChallengeView) -> bool {
    item.scenario matches Some(title) ==> scenario_titled(scenarios, title) is Some
}

/// The row that the challenge at place `i` of a batch makes, where `top`
/// is the greatest id before the batch: the ids go on from there, and the
/// code is the prefix of the batch with the place, counted from one.
pub open spec fn loaded_row(
    scenarios: Seq<ScenarioView>,
    code_prefix: Seq<char>,
    top: int,
    item: BatchChallengeView,
    i: int,
) -> crate::models::challenge::ChallengeView {
    crate::models::challenge::ChallengeView {
        id: (top + 1 + i) as i64,
        name: item.name,
        code: batch_code(code_prefix, (i + 1) as nat),
        description: Some(item.description),
        scenario: match item.scenario {
            Some(title) => scenario_titled(scenarios, title),
            None => None,
        },
        attributes: item.attributes,
    }
}

/// The rows that a batch makes.
pub open spec fn loaded_rows(
    scenarios: Seq<ScenarioView>,
    code_prefix: Seq<char>,
    top: int,
    batch: Seq<BatchChallengeView>,
) -> Seq<crate::models::challenge::ChallengeView> {
    Seq::new(batch.len(), |i: int| loaded_row(scenarios, code_prefix, top, batch[i], i))
}

/// Loads a batch of challenges: each gets the next id, the code of its
/// place in the batch, and the scenario that it names. Says how many were
/// loaded. Nothing is loaded where a challenge names a scenario that the
/// keeper does not know, which fails with the place of the first such
/// challenge, nor where the ids left do not do for the batch.
pub fn load_challenges(
    challenges: &mut Vec<crate::models::challenge::Challenge>,
    scenarios: &Vec<Scenario>,
    code_prefix: &str,
    batch: &Vec<BatchChallenge>,
) -> (loaded: Result<usize, LoadError>)
    ensures
        match loaded {
            Ok(count) => {
                &&& count == batch@.len()
                &&& forall|i: int|
                    0 <= i < batch@.len() ==> resolves(views(scenarios@), #[trigger] views(batch@)[i])
                &&& views(final(challenges)@) == views(old(challenges)@) + loaded_rows(
                    views(scenarios@),
                    code_prefix@,
                    top_id(challenge_ids(views(old(challenges)@))),
                    views(batch@),
                )
            },
            Err(LoadError::UnknownScenario { place }) => {
                &&& place < batch@.len()
                &&& !resolves(views(scenarios@), views(batch@)[place as int])
                &&& forall|i: int|
                    0 <= i < place ==> resolves(views(scenarios@), #[trigger] views(batch@)[i])
                &&& final(challenges)@ == old(challenges)@
            },
            Err(LoadError::StoreUnavailable) => {
                &&& forall|i: int|
                    0 <= i < batch@.len() ==> resolves(views(scenarios@), #[trigger] views(batch@)[i])
                &&& top_id(challenge_ids(views(old(challenges)@))) + batch@.len() > i64::MAX
                &&& final(challenges)@ == old(challenges)@
            },
        },
{
    let ghost before = views(challenges@);
    let ghost known = views(scenarios@);
    let ghost items = views(batch@);
    // The scenarios of all challenges, before anything is loaded.
    let mut found: Vec<Option<Scenario>> = Vec::new();
    let mut i: usize = 0;
    while i < batch.len()
        invariant
            i <= batch.len(),
            known == views(scenarios@),
            items == views(batch@),
            found.len() == i,
            forall|j: int| 0 <= j < i ==> resolves(known, #[trigger] items[j]),
            forall|j: int|
                0 <= j < i ==> match (#[trigger] found@[j]) {
                    Some(scenario) => items[j].scenario is Some && scenario_titled(
                        known,
                        items[j].scenario->0,
                    ) == Some(scenario@),
                    None => items[j].scenario is None,
                },
        decreases batch.len() - i,
    {
        assert(batch@[i as int]@ == items[i as int]);
        match &batch[i].scenario {
            Some(title) => match Scenario::find_by_title(scenarios, title.as_str()) {
                Some(scenario) => {
                    found.push(Some(scenario));
                },
                None => {
                    return Err(LoadError::UnknownScenario { place: i });
                },
            },
            None => {
                found.push(None);
            },
        }
        i += 1;
    }
    let mut top: i64 = 0;
    let mut k: usize = 0;
    assert(challenge_ids(before).take(0) == Seq::<i64>::empty());
    while k < challenges.len()
        invariant
            k <= challenges.len(),
            before == views(challenges@),
            top == top_id(challenge_ids(before).take(k as int)),
        decreases challenges.len() - k,
    {
        proof {
            let ids = challenge_ids(before);
            assert(ids.take(k + 1).drop_last() == ids.take(k as int));
            assert(ids.take(k + 1).last() == before[k as int].id);
        }
        if top < challenges[k].id {
            top = challenges[k].id;
        }
        k += 1;
    }
    proof {
        assert(challenge_ids(before).take(before.len() as int) == challenge_ids(before));
        top_id_is_greatest(challenge_ids(before));
    }
    if (top as i128) + (batch.len() as i128) > (i64::MAX as i128) {
        return Err(LoadError::StoreUnavailable);
    }
    let ghost rows = loaded_rows(known, code_prefix@, top as int, items);
    let mut n: usize = 0;
    assert(views(challenges@) =~= before + rows.take(0));
    while n < batch.len()
        invariant
            n <= batch.len(),
            found.len() == batch.len(),
            known == views(scenarios@),
            items == views(batch@),
            top + batch.len() <= i64::MAX,
            0 <= top,
            rows == loaded_rows(known, code_prefix@, top as int, items),
            views(challenges@) == before + rows.take(n as int),
            forall|j: int|
                0 <= j < batch.len() ==> match (#[trigger] found@[j]) {
                    Some(scenario) => items[j].scenario is Some && scenario_titled(
                        known,
                        items[j].scenario->0,
                    ) == Some(scenario@),
                    None => items[j].scenario is None,
                },
        decreases batch.len() - n,
    {
        let item = &batch[n];
        assert(item@ == items[n as int]);
        let scenario = match &found[n] {
            Some(scenario) => Some(scenario.clone()),
            None => None,
        };
        let row = crate::models::challenge::Challenge {
            id: top + 1 + (n as i64),
            name: item.name.clone(),
            code: challenge_code(code_prefix, n + 1),
            description: Some(item.description.clone()),
            scenario,
            attributes: copy_of(&item.attributes),
        };
        let ghost earlier = views(challenges@);
        assert(row@ == rows[n as int]);
        challenges.push(row);
        assert(views(challenges@) =~= earlier.push(rows[n as int]));
        assert(rows.take(n + 1) =~= rows.take(n as int).push(rows[n as int]));
        n += 1;
    }
    assert(rows.take(rows.len() as int) == rows);
    Ok(batch.len())
}

} // verus!
