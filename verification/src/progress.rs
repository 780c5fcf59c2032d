//! How much of a roster is done.

use crate::lemmas::{filter_is_monotonic, filter_of_nothing, filter_take_step, views};
use crate::models::challenge::{Challenge, ChallengeView};
use crate::models::completion::{
    completed_by_anyone, entry_of, holds_challenge, record_of, records_of_player,
    ChallengeEntry, ChallengeRoster, CompletionRecord, Completions,
};
use crate::text::{decimal, decimal_digits, pad_left, push_chars, push_padded};
use vstd::prelude::*;

verus! {

/// A count of what is done out of a count of all there is.
#[derive(Clone, Copy, Debug, PartialEq, Eq, Structural)]
pub struct Progress {
    pub completed: usize,
    pub total: usize,
}

/// The share of `completed` in `total`, in hundredths of a percent and
/// rounded down: 7500 stands for 75.00 %.
pub open spec fn share(completed: nat, total: nat) -> nat
    recommends
        total > 0,
{
    completed * 10000 / total
}

/// A share lies between nothing and the whole.
pub proof fn share_is_bounded(completed: nat, total: nat)
    requires
        completed <= total,
        total > 0,
    ensures
        0 <= share(completed, total) <= 10000,
        completed == total ==> share(completed, total) == 10000,
        completed == 0 ==> share(completed, total) == 0,
{
    assert(completed * 10000 <= total * 10000) by (nonlinear_arith)
        requires
            completed <= total,
    ;
    assert(completed * 10000 / total <= 10000) by (nonlinear_arith)
        requires
            completed * 10000 <= total * 10000,
            total > 0,
    ;
    if completed == total {
        assert(total * 10000 / total == 10000) by (nonlinear_arith)
            requires
                total > 0,
        ;
    }
    if completed == 0 {
        assert(0nat * 10000 / total == 0) by (nonlinear_arith)
            requires
                total > 0,
        ;
    }
}

/// The share of `completed` in `total`, in hundredths of a percent and
/// rounded to the nearest, a half upwards: 6667 stands for 66.67 %.
pub open spec fn rounded_share(completed: nat, total: nat) -> nat
    recommends
        total > 0,
{
    (completed * 20000 + total) / (2 * total)
}

/// A share in hundredths of a percent as it is shown: the percent, a point,
/// and the hundredths in two digits.
pub open spec fn share_text(hundredths: nat) -> Seq<char> {
    decimal(hundredths / 100) + seq!['.'] + pad_left(decimal(hundredths % 100), 2, '0')
}

/// A rounded share, too, lies between nothing and the whole.
pub proof fn rounded_share_is_bounded(completed: nat, total: nat)
    requires
        completed <= total,
        total > 0,
    ensures
        0 <= rounded_share(completed, total) <= 10000,
        completed == total ==> rounded_share(completed, total) == 10000,
        completed == 0 ==> rounded_share(completed, total) == 0,
{
    let top = completed * 20000 + total;
    let bottom = 2 * total;
    assert(top / bottom <= 10000) by (nonlinear_arith)
        requires
            top < 10001 * bottom,
            bottom > 0,
    ;
    if completed == total {
        assert(top / bottom == 10000) by (nonlinear_arith)
            requires
                10000 * bottom <= top < 10001 * bottom,
                bottom > 0,
        ;
    }
    if completed == 0 {
        assert(top / bottom == 0) by (nonlinear_arith)
            requires
                0 <= top < bottom,
        ;
    }
}

impl Progress {
    /// The share that is done as it is shown, in percent to two decimals:
    /// three of four are `75.00`. `None` where nothing is counted at all,
    /// which is no data and not zero.
    pub fn percent(&self) -> (shown: Option<String>)
        ensures
            self.total == 0 <==> shown is None,
            shown matches Some(text) ==> text@ == share_text(
                rounded_share(self.completed as nat, self.total as nat),
            ),
    {
        if self.total == 0 {
            return None;
        }
        let scaled: u128 = (self.completed as u128) * 20000u128 + (self.total as u128);
        let hundredths: u128 = scaled / (2u128 * (self.total as u128));
        let mut whole: Vec<char> = Vec::new();
        decimal_digits(&mut whole, hundredths / 100);
        let mut part: Vec<char> = Vec::new();
        decimal_digits(&mut part, hundredths % 100);
        let mut point: Vec<char> = Vec::new();
        point.push('.');
        let mut text = String::new();
        push_chars(&mut text, &whole);
        push_chars(&mut text, &point);
        push_padded(&mut text, &part, 2, '0');
        Some(text)
    }

    /// Whether no more is counted as done than there is.
    pub open spec fn wf(self) -> bool {
        self.completed <= self.total
    }

    /// The share that is done, in hundredths of a percent; `None` where
    /// nothing is counted at all, which is no data and not zero.
    pub fn hundredths(&self) -> (percent: Option<u64>)
        requires
            self.wf(),
        ensures
            self.total == 0 <==> percent is None,
            percent matches Some(p) ==> p == share(self.completed as nat, self.total as nat)
                && p <= 10000,
    {
        if self.total == 0 {
            None
        } else {
            proof {
                share_is_bounded(self.completed as nat, self.total as nat);
            }
            let scaled: u128 = (self.completed as u128) * 10000u128;
            let percent: u128 = scaled / (self.total as u128);
            Some(percent as u64)
        }
    }
}

/// Which challenges of an event are counted.
pub struct Scope {
    /// The tag that a challenge must carry to be counted, if any.
    pub with_tag: Option<Seq<char>>,
    /// The tag that keeps a challenge from being counted, if any.
    pub without_tag: Option<Seq<char>>,
    /// Whether a challenge is counted only once its date has come.
    pub active_only: bool,
}

/// The challenges of an event that are counted.
pub open spec fn in_scope(scope: Scope, entries: Seq<ChallengeEntry>, event_id: i64, now: i64) -> spec_fn(
    ChallengeView,
) -> bool {
    |challenge: ChallengeView|
        {
            &&& holds_challenge(entries, event_id, challenge.id)
            &&& scope.active_only ==> entry_of(entries, event_id, challenge.id).active_at(now)
            &&& scope.with_tag matches Some(tag) ==> challenge.attributes.contains(tag)
            &&& scope.without_tag matches Some(tag) ==> !challenge.attributes.contains(tag)
        }
}

/// The challenges of an event that are counted as done: by `user` where
/// one is named, and else by anybody at all.
pub open spec fn done_in_scope(
    scope: Scope,
    entries: Seq<ChallengeEntry>,
    records: Seq<CompletionRecord>,
    event_id: i64,
    now: i64,
    user: Option<i64>,
) -> spec_fn(ChallengeView) -> bool {
    |challenge: ChallengeView|
        {
            &&& in_scope(scope, entries, event_id, now)(challenge)
            &&& match user {
                Some(user_id) => records.contains(
                    record_of(entry_of(entries, event_id, challenge.id).id, user_id),
                ),
                None => completed_by_anyone(records, entry_of(entries, event_id, challenge.id).id),
            }
        }
}

/// The scope of the progress of an event: its challenges that count by
/// now, but for those that carry the tag `excluded`.
pub open spec fn event_scope(excluded: Seq<char>) -> Scope {
    Scope { with_tag: None, without_tag: Some(excluded), active_only: true }
}

/// The scope of the progress in the challenges of one kind: those that
/// carry the tag `kind`.
pub open spec fn kind_scope(kind: Seq<char>) -> Scope {
    Scope { with_tag: Some(kind), without_tag: None, active_only: false }
}

/// What a view of a tag is.
pub open spec fn tag_view(tag: Option<&str>) -> Option<Seq<char>> {
    match tag {
        Some(text) => Some(text@),
        None => None,
    }
}

/// Counts the challenges of an event that are in scope, and those of them
/// that are done.
pub fn tally(
    challenges: &Vec<Challenge>,
    roster: &ChallengeRoster,
    completions: &Completions,
    event_id: i64,
    now: i64,
    with_tag: Option<&str>,
    without_tag: Option<&str>,
    active_only: bool,
    user: Option<i64>,
) -> (progress: Progress)
    ensures
        ({
            let scope = Scope {
                with_tag: tag_view(with_tag),
                without_tag: tag_view(without_tag),
                active_only,
            };
            &&& progress.total == views(challenges@).filter(
                in_scope(scope, roster@, event_id, now),
            ).len()
            &&& progress.completed == views(challenges@).filter(
                done_in_scope(scope, roster@, completions@, event_id, now, user),
            ).len()
        }),
        progress.wf(),
{
    let ghost scope = Scope {
        with_tag: tag_view(with_tag),
        without_tag: tag_view(without_tag),
        active_only,
    };
    let ghost rows = views(challenges@);
    let ghost all = in_scope(scope, roster@, event_id, now);
    let ghost done = done_in_scope(scope, roster@, completions@, event_id, now, user);
    let mut completed: usize = 0;
    let mut total: usize = 0;
    let mut i: usize = 0;
    proof {
        filter_of_nothing(rows.take(0), all);
        filter_of_nothing(rows.take(0), done);
    }
    while i < challenges.len()
        invariant
            i <= challenges.len(),
            rows == views(challenges@),
            scope == (Scope {
                with_tag: tag_view(with_tag),
                without_tag: tag_view(without_tag),
                active_only,
            }),
            all == in_scope(scope, roster@, event_id, now),
            done == done_in_scope(scope, roster@, completions@, event_id, now, user),
            total == rows.take(i as int).filter(all).len(),
            completed == rows.take(i as int).filter(done).len(),
            completed <= total <= i,
        decreases challenges.len() - i,
    {
        proof {
            filter_take_step(rows, all, i as int);
            filter_take_step(rows, done, i as int);
        }
        let challenge = &challenges[i];
        assert(challenge@ == rows[i as int]);
        match roster.find(event_id, challenge.id) {
            None => {},
            Some(entry) => {
                let dated = !active_only || entry.active_date <= now;
                let tagged = match with_tag {
                    Some(tag) => challenge.has_attribute(tag),
                    None => true,
                };
                let barred = match without_tag {
                    Some(tag) => challenge.has_attribute(tag),
                    None => false,
                };
                if dated && tagged && !barred {
                    assert(all(rows[i as int]));
                    total += 1;
                    let finished = match user {
                        Some(user_id) => completions.holds(entry.id, user_id),
                        None => completions.holds_any(entry.id),
                    };
                    if finished {
                        completed += 1;
                    }
                } else {
                    assert(!all(rows[i as int]));
                }
            },
        }
        i += 1;
    }
    assert(rows.take(rows.len() as int) == rows);
    Progress { completed, total }
}

/// How many challenges the event holds that count by now and do not carry
/// the tag `excluded`, and how many of them somebody has completed: one
/// record is enough for a challenge to be done for the group.
pub fn group_challenge_progress(
    challenges: &Vec<Challenge>,
    roster: &ChallengeRoster,
    completions: &Completions,
    event_id: i64,
    now: i64,
    excluded: &str,
) -> (progress: Progress)
    ensures
        progress.total == views(challenges@).filter(
            in_scope(event_scope(excluded@), roster@, event_id, now),
        ).len(),
        progress.completed == views(challenges@).filter(
            done_in_scope(event_scope(excluded@), roster@, completions@, event_id, now, None),
        ).len(),
        progress.wf(),
{
    tally(challenges, roster, completions, event_id, now, None, Some(excluded), true, None)
}

/// The progress of one player: how many challenges count for the event,
/// the same as for the group, and how many records the player has in the
/// event. The records are counted whatever challenge they are for, so a
/// player may have more than count.
pub fn actor_challenge_progress(
    challenges: &Vec<Challenge>,
    roster: &ChallengeRoster,
    completions: &Completions,
    event_id: i64,
    now: i64,
    excluded: &str,
    user_id: i64,
) -> (progress: Progress)
    ensures
        progress.total == views(challenges@).filter(
            in_scope(event_scope(excluded@), roster@, event_id, now),
        ).len(),
        progress.completed == completions@.filter(
            records_of_player(roster@, event_id, user_id),
        ).len(),
{
    let all = tally(challenges, roster, completions, event_id, now, None, Some(excluded), true, None);
    Progress {
        completed: completions.count_of_player(roster, event_id, user_id),
        total: all.total,
    }
}

/// How many challenges of one kind the event holds, and how many of them
/// somebody has completed.
pub fn kind_progress(
    challenges: &Vec<Challenge>,
    roster: &ChallengeRoster,
    completions: &Completions,
    event_id: i64,
    kind: &str,
) -> (progress: Progress)
    ensures
        progress.total == views(challenges@).filter(
            in_scope(kind_scope(kind@), roster@, event_id, 0),
        ).len(),
        progress.completed == views(challenges@).filter(
            done_in_scope(kind_scope(kind@), roster@, completions@, event_id, 0, None),
        ).len(),
        progress.wf(),
{
    tally(challenges, roster, completions, event_id, 0, Some(kind), None, false, None)
}

/// No more challenges are done than are counted, whoever is asked for.
pub proof fn done_is_part_of_scope(
    challenges: Seq<ChallengeView>,
    scope: Scope,
    entries: Seq<ChallengeEntry>,
    records: Seq<CompletionRecord>,
    event_id: i64,
    now: i64,
    user: Option<i64>,
)
    ensures
        challenges.filter(done_in_scope(scope, entries, records, event_id, now, user)).len()
            <= challenges.filter(in_scope(scope, entries, event_id, now)).len(),
{
    filter_is_monotonic(
        challenges,
        done_in_scope(scope, entries, records, event_id, now, user),
        in_scope(scope, entries, event_id, now),
    );
}

} // verus!
