//! The players, as the keeper knows them.

use crate::error::EngineError;
use crate::lemmas::{top_id, top_id_is_greatest};
use vstd::prelude::*;
use vstd::string::StringExecFns;

verus! {

/// A player: the keeper's own id, the id that the chat service gave, and the
/// name under which the player was last seen.
pub struct User {
    pub id: i64,
    pub discord_id: i64,
    pub name: Option<String>,
}

/// What a user holds, as plain values.
pub struct UserView {
    pub id: i64,
    pub discord_id: i64,
    pub name: Option<Seq<char>>,
}

impl View for User {
    type V = UserView;

    open spec fn view(&self) -> UserView {
        UserView {
            id: self.id,
            discord_id: self.discord_id,
            name: match self.name {
                Some(name) => Some(name@),
                None => None,
            },
        }
    }
}

impl Clone for User {
    fn clone(&self) -> (copy: Self)
        ensures
            copy@ == self@,
    {
        User {
            id: self.id,
            discord_id: self.discord_id,
            name: match &self.name {
                Some(name) => Some(name.clone()),
                None => None,
            },
        }
    }
}

/// The id of the chat service as the store keeps it: the same 64 bits, read
/// as a signed number.
pub open spec fn stored_id(discord_id: u64) -> i64 {
    if discord_id <= i64::MAX {
        discord_id as i64
    } else {
        (discord_id - 0x1_0000_0000_0000_0000) as i64
    }
}

/// The id of the chat service as the store keeps it.
pub fn to_stored_id(discord_id: u64) -> (stored: i64)
    ensures
        stored == stored_id(discord_id),
{
    if discord_id <= 0x7FFF_FFFF_FFFF_FFFF {
        discord_id as i64
    } else {
        let high: u64 = discord_id - 0x8000_0000_0000_0000;
        (high as i64) + i64::MIN
    }
}

/// The ids of the users of a table.
pub open spec fn user_ids(users: Seq<User>) -> Seq<i64> {
    Seq::new(users.len(), |i: int| users[i].id)
}

/// Whether `i` is the first place of a user with that id of the chat service.
pub open spec fn is_user_place(users: Seq<User>, discord_id: i64, i: int) -> bool {
    &&& 0 <= i < users.len()
    &&& users[i].discord_id == discord_id
    &&& forall|j: int| 0 <= j < i ==> (#[trigger] users[j]).discord_id != discord_id
}

/// Whether no two users have the same id, of the keeper or of the chat
/// service.
pub open spec fn unique_users(users: Seq<User>) -> bool {
    forall|i: int, j: int|
        0 <= i < j < users.len() ==> (#[trigger] users[i]).id != (#[trigger] users[j]).id
            && users[i].discord_id != users[j].discord_id
}

/// Whether the table knows a user with that id of the chat service.
pub open spec fn knows_user(users: Seq<User>, discord_id: i64) -> bool {
    exists|i: int| is_user_place(users, discord_id, i)
}

/// The id under which the user with that id of the chat service is kept:
/// the one that the table has, or the next free one where it has none.
pub open spec fn id_for(users: Seq<User>, discord_id: i64) -> int {
    if knows_user(users, discord_id) {
        users[choose|i: int| is_user_place(users, discord_id, i)].id as int
    } else {
        top_id(user_ids(users)) + 1
    }
}

/// Whether the table can keep the user: it knows the user, or has an id
/// left.
pub open spec fn can_keep(users: Seq<User>, discord_id: i64) -> bool {
    knows_user(users, discord_id) || top_id(user_ids(users)) < i64::MAX
}

/// Whether `after` is the table `before` once the user was looked up under
/// `name`: the name of a user who is known is brought up to date, one who
/// is not is added at the end, and every other row is as it was.
pub open spec fn upserted(before: Seq<User>, after: Seq<User>, discord_id: i64, name: Seq<char>) -> bool {
    let user = UserView { id: id_for(before, discord_id) as i64, discord_id, name: Some(name) };
    if knows_user(before, discord_id) {
        let i = choose|i: int| is_user_place(before, discord_id, i);
        &&& after.len() == before.len()
        &&& after[i]@ == user
        &&& forall|j: int| 0 <= j < before.len() && j != i ==> after[j] == before[j]
    } else {
        &&& after.len() == before.len() + 1
        &&& after.last()@ == user
        &&& after.drop_last() == before
    }
}

impl User {
    /// The user with this id of the chat service, if the table knows one.
    pub fn find_by_discord_id<'a>(users: &'a Vec<User>, discord_id: u64) -> (found: Option<&'a User>)
        ensures
            found is Some <==> knows_user(users@, stored_id(discord_id)),
            found matches Some(user) ==> user.id == id_for(users@, stored_id(discord_id))
                && user.discord_id == stored_id(discord_id),
    {
        let key = to_stored_id(discord_id);
        let mut i: usize = 0;
        while i < users.len()
            invariant
                i <= users.len(),
                key == stored_id(discord_id),
                forall|j: int| 0 <= j < i ==> (#[trigger] users@[j]).discord_id != key,
            decreases users.len() - i,
        {
            if users[i].discord_id == key {
                proof {
                    assert(is_user_place(users@, key, i as int));
                    user_place_is_determined(users@, key, i as int);
                }
                return Some(&users[i]);
            }
            i += 1;
        }
        proof {
            if knows_user(users@, key) {
                let k = choose|k: int| is_user_place(users@, key, k);
                assert(users@[k].discord_id == key);
            }
        }
        None
    }

    /// The user with this id of the chat service, under the name given: the
    /// name of a user who is known is brought up to date, and one who is not
    /// is added under the next id. Fails with `StoreUnavailable`, and changes
    /// nothing, only where a new user is due and no id is left.
    pub fn find_or_create(users: &mut Vec<User>, discord_id: &u64, name: &str) -> (found: Result<
        User,
        EngineError,
    >)
        ensures
            found is Ok <==> can_keep(old(users)@, stored_id(*discord_id)),
            match found {
                Ok(user) => {
                    &&& user@ == UserView {
                        id: id_for(old(users)@, stored_id(*discord_id)) as i64,
                        discord_id: stored_id(*discord_id),
                        name: Some(name@),
                    }
                    &&& upserted(old(users)@, final(users)@, stored_id(*discord_id), name@)
                },
                Err(error) => error == EngineError::StoreUnavailable && final(users)@ == old(users)@,
            },
            unique_users(old(users)@) ==> unique_users(final(users)@),
    {
        let key = to_stored_id(*discord_id);
        let mut top: i64 = 0;
        let mut i: usize = 0;
        assert(user_ids(users@).take(0) == Seq::<i64>::empty());
        while i < users.len()
            invariant
                i <= users.len(),
                users@ == old(users)@,
                key == stored_id(*discord_id),
                top == top_id(user_ids(users@).take(i as int)),
                forall|j: int| 0 <= j < i ==> (#[trigger] users@[j]).discord_id != key,
            decreases users.len() - i,
        {
            if users[i].discord_id == key {
                let user = User { id: users[i].id, discord_id: key, name: Some(String::from_str(name)) };
                let copy = user.clone();
                users.set(i, user);
                proof {
                    assert(is_user_place(old(users)@, key, i as int));
                    let k = choose|k: int| is_user_place(old(users)@, key, k);
                    assert(k == i);
                }
                return Ok(copy);
            }
            proof {
                let ids = user_ids(users@);
                assert(ids.take(i + 1).drop_last() == ids.take(i as int));
                assert(ids.take(i + 1).last() == users@[i as int].id);
            }
            if top < users[i].id {
                top = users[i].id;
            }
            i += 1;
        }
        proof {
            assert(user_ids(users@).take(users@.len() as int) == user_ids(users@));
            top_id_is_greatest(user_ids(users@));
        }
        if top == i64::MAX {
            return Err(EngineError::StoreUnavailable);
        }
        let user = User { id: top + 1, discord_id: key, name: Some(String::from_str(name)) };
        let copy = user.clone();
        users.push(user);
        proof {
            assert(final(users)@.drop_last() == old(users)@);
            assert forall|j: int| 0 <= j < old(users)@.len() implies (#[trigger] old(users)@[j]).id
                != top + 1 by {
                assert(user_ids(old(users)@)[j] == old(users)@[j].id);
            }
        }
        Ok(copy)
    }
}

/// The first place of a user is the one that the table answers with.
pub proof fn user_place_is_determined(users: Seq<User>, discord_id: i64, i: int)
    requires
        is_user_place(users, discord_id, i),
    ensures
        knows_user(users, discord_id),
        (choose|k: int| is_user_place(users, discord_id, k)) == i,
        id_for(users, discord_id) == users[i].id,
{
    let k = choose|k: int| is_user_place(users, discord_id, k);
    if k < i {
        assert(users[k].discord_id != discord_id);
    } else if i < k {
        assert(users[i].discord_id != discord_id);
    }
}

/// Looking a user up makes that user known, under the id that was due.
pub proof fn upsert_makes_known(before: Seq<User>, after: Seq<User>, discord_id: i64, name: Seq<char>)
    requires
        upserted(before, after, discord_id, name),
        can_keep(before, discord_id),
    ensures
        knows_user(after, discord_id),
        id_for(after, discord_id) == id_for(before, discord_id),
{
    if knows_user(before, discord_id) {
        let i = choose|i: int| is_user_place(before, discord_id, i);
        assert forall|j: int| 0 <= j < i implies (#[trigger] after[j]).discord_id != discord_id by {
            assert(after[j] == before[j]);
        }
        assert(is_user_place(after, discord_id, i));
        user_place_is_determined(after, discord_id, i);
    } else {
        let i = before.len() as int;
        assert forall|j: int| 0 <= j < i implies (#[trigger] after[j]).discord_id != discord_id by {
            assert(after[j] == after.drop_last()[j]);
            if before[j].discord_id == discord_id {
                user_first_place_exists(before, discord_id, j);
            }
        }
        assert(after[i] == after.last());
        assert(is_user_place(after, discord_id, i));
        user_place_is_determined(after, discord_id, i);
    }
}

/// Where some user has the id of the chat service, there is a first one.
pub proof fn user_first_place_exists(users: Seq<User>, discord_id: i64, i: int)
    requires
        0 <= i < users.len(),
        users[i].discord_id == discord_id,
    ensures
        knows_user(users, discord_id),
    decreases i,
{
    if exists|j: int| 0 <= j < i && (#[trigger] users[j]).discord_id == discord_id {
        let j = choose|j: int| 0 <= j < i && (#[trigger] users[j]).discord_id == discord_id;
        user_first_place_exists(users, discord_id, j);
    } else {
        assert(is_user_place(users, discord_id, i));
    }
}

/// Looking a user up leaves every user who was known under the id that
/// the user had.
pub proof fn upsert_keeps_ids(
    before: Seq<User>,
    after: Seq<User>,
    discord_id: i64,
    name: Seq<char>,
    other: i64,
)
    requires
        upserted(before, after, discord_id, name),
        knows_user(before, other),
    ensures
        knows_user(after, other),
        id_for(after, other) == id_for(before, other),
{
    let at = choose|at: int| is_user_place(before, other, at);
    if knows_user(before, discord_id) {
        let i = choose|i: int| is_user_place(before, discord_id, i);
        if other == discord_id {
            user_place_is_determined(before, other, i);
        }
        assert forall|j: int| 0 <= j < at implies (#[trigger] after[j]).discord_id != other by {
            if j != i {
                assert(after[j] == before[j]);
            }
        }
        if at != i {
            assert(after[at] == before[at]);
        }
        assert(is_user_place(after, other, at));
    } else {
        assert forall|j: int| 0 <= j < at implies (#[trigger] after[j]).discord_id != other by {
            assert(after[j] == after.drop_last()[j]);
        }
        assert(after[at] == after.drop_last()[at]);
        assert(is_user_place(after, other, at));
    }
    user_place_is_determined(after, other, at);
}

} // verus!
