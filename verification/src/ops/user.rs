use vstd::prelude::*;
use crate::fault::Fault;
use crate::store::{
    email_taken, email_taken_by_other, has_challenge_id, has_translation_id, has_user_id,
    lemma_deep_push, lemma_deep_update, lemma_has_user_id_pointwise, lemma_has_user_id_push, email_index,
    new_uuid, user_index, user_shape_ok, Store, StoreV,
};
use crate::text::{clone_opt_string, str_eq};

verus! {

/// A registered identity. A guest has neither email nor credential digest; a
/// non-guest has both, and its email is unique across the registry.
#[derive(Debug)]
pub struct User {
    pub id: String,
    pub name: String,
    pub email: Option<String>,
    pub hash: Option<String>,
    pub is_guest: bool,
    pub avatar_seed: String,
    pub created_at: u64,
    pub updated_at: Option<u64>,
    pub score: i32,
}

pub ghost struct UserV {
    pub id: Seq<char>,
    pub name: Seq<char>,
    pub email: Option<Seq<char>>,
    pub hash: Option<Seq<char>>,
    pub is_guest: bool,
    pub avatar_seed: Seq<char>,
    pub created_at: u64,
    pub updated_at: Option<u64>,
    pub score: i32,
}

impl View for User {
    type V = UserV;

    open spec fn view(&self) -> UserV {
        UserV {
            id: self.id@,
            name: self.name@,
            email: self.email.deep_view(),
            hash: self.hash.deep_view(),
            is_guest: self.is_guest,
            avatar_seed: self.avatar_seed@,
            created_at: self.created_at,
            updated_at: self.updated_at,
            score: self.score,
        }
    }
}

impl DeepView for User {
    type V = UserV;

    open spec fn deep_view(&self) -> UserV {
        self.view()
    }
}

impl Clone for User {
    fn clone(&self) -> (r: Self)
        ensures
            r@ == self@,
    {
        User {
            id: self.id.clone(),
            name: self.name.clone(),
            email: clone_opt_string(&self.email),
            hash: clone_opt_string(&self.hash),
            is_guest: self.is_guest,
            avatar_seed: self.avatar_seed.clone(),
            created_at: self.created_at,
            updated_at: self.updated_at,
            score: self.score,
        }
    }
}

impl Default for User {
    fn default() -> (r: Self)
        ensures
            r@.id.len() == 0,
            r@.name.len() == 0,
            r@.email is None,
            r@.hash is None,
            r@.is_guest,
            r@.avatar_seed.len() == 0,
            r@.created_at == 0,
            r@.updated_at is None,
            r@.score == 0,
    {
        User {
            id: String::new(),
            name: String::new(),
            email: None,
            hash: None,
            is_guest: true,
            avatar_seed: String::new(),
            created_at: 0,
            updated_at: None,
            score: 0,
        }
    }
}

/// A partial overwrite of a user row: provided fields replace the stored
/// ones, omitted fields keep their previous values.
#[derive(Debug)]
pub struct UserPatch {
    pub name: Option<String>,
    pub email: Option<String>,
    pub avatar_seed: Option<String>,
    pub hash: Option<String>,
    pub is_guest: Option<bool>,
    pub score: Option<i32>,
}

pub ghost struct UserPatchV {
    pub name: Option<Seq<char>>,
    pub email: Option<Seq<char>>,
    pub avatar_seed: Option<Seq<char>>,
    pub hash: Option<Seq<char>>,
    pub is_guest: Option<bool>,
    pub score: Option<i32>,
}

impl View for UserPatch {
    type V = UserPatchV;

    open spec fn view(&self) -> UserPatchV {
        UserPatchV {
            name: self.name.deep_view(),
            email: self.email.deep_view(),
            avatar_seed: self.avatar_seed.deep_view(),
            hash: self.hash.deep_view(),
            is_guest: self.is_guest,
            score: self.score,
        }
    }
}

impl Default for UserPatch {
    fn default() -> (r: Self)
        ensures
            r@.name is None,
            r@.email is None,
            r@.avatar_seed is None,
            r@.hash is None,
            r@.is_guest is None,
            r@.score is None,
    {
        UserPatch {
            name: None,
            email: None,
            avatar_seed: None,
            hash: None,
            is_guest: None,
            score: None,
        }
    }
}

/// The row the registry stores for a candidate `u` inserted under `id` at
/// time `now`: the score starts at zero whatever the candidate carried.
pub open spec fn stored_user(id: Seq<char>, u: UserV, now: u64) -> UserV {
    UserV {
        id,
        name: u.name,
        email: u.email,
        hash: u.hash,
        is_guest: u.is_guest,
        avatar_seed: u.avatar_seed,
        created_at: now,
        updated_at: None,
        score: 0,
    }
}

/// Coalesce semantics: each provided patch field overwrites, each omitted
/// field keeps the stored value. Identity and creation time never change.
pub open spec fn apply_patch(u: UserV, p: UserPatchV) -> UserV {
    UserV {
        id: u.id,
        name: match p.name {
            Some(x) => x,
            None => u.name,
        },
        email: match p.email {
            Some(x) => Some(x),
            None => u.email,
        },
        hash: match p.hash {
            Some(x) => Some(x),
            None => u.hash,
        },
        is_guest: match p.is_guest {
            Some(x) => x,
            None => u.is_guest,
        },
        avatar_seed: match p.avatar_seed {
            Some(x) => x,
            None => u.avatar_seed,
        },
        created_at: u.created_at,
        updated_at: u.updated_at,
        score: match p.score {
            Some(x) => x,
            None => u.score,
        },
    }
}

/// The index of the user holding `id`, or `None` if no row does.
pub(crate) fn find_user_index(store: &Store, id: &str) -> (r: Option<usize>)
    ensures
        r matches Some(i) ==> 0 <= i < store@.users.len() && store@.users[i as int].id == id@,
        r is None ==> !has_user_id(store@.users, id@),
{
    let n = store.users.len();
    let mut i: usize = 0;
    while i < n
        invariant
            i <= n,
            n == store.users.len(),
            forall|k: int| 0 <= k < i ==> (#[trigger] store@.users[k]).id != id@,
        decreases n - i,
    {
        if str_eq(store.users[i].id.as_str(), id) {
            return Some(i);
        }
        i = i + 1;
    }
    None
}

/// The index of the user holding `email`, or `None` if no row does.
fn find_user_index_by_email(store: &Store, email: &str) -> (r: Option<usize>)
    ensures
        r matches Some(i) ==> 0 <= i < store@.users.len() && store@.users[i as int].email == Some(
            email@,
        ),
        r is None ==> !email_taken(store@.users, email@),
{
    let n = store.users.len();
    let mut i: usize = 0;
    while i < n
        invariant
            i <= n,
            n == store.users.len(),
            forall|k: int| 0 <= k < i ==> (#[trigger] store@.users[k]).email != Some(email@),
        decreases n - i,
    {
        match &store.users[i].email {
            Some(e) => {
                if str_eq(e.as_str(), email) {
                    return Some(i);
                }
            },
            None => {},
        }
        i = i + 1;
    }
    None
}

/// Inserts a candidate user under a caller-chosen fresh id. Returns the new
/// id, `Ok(None)` when the id or the non-null email is already taken (a
/// normal outcome, not an error), and `Validation` when the candidate
/// violates the guest invariant; nothing is written except on success.
pub fn insert_user_with_id(store: &mut Store, id: String, user: &User, now: u64) -> (r: Result<
    Option<String>,
    Fault,
>)
    requires
        old(store)@.wf(),
    ensures
        final(store)@.wf(),
        !user_shape_ok(user@) ==> (r matches Err(f) && f == Fault::Validation) && final(store)@
            == old(store)@,
        (user_shape_ok(user@) && (has_user_id(old(store)@.users, id@) || (user@.email matches Some(
            e,
        ) && email_taken(old(store)@.users, e)))) ==> (r matches Ok(o) && o is None) && final(store)@ == old(store)@,
        (user_shape_ok(user@) && !has_user_id(old(store)@.users, id@) && !(user@.email matches Some(
            e,
        ) && email_taken(old(store)@.users, e))) ==> (r matches Ok(o) && o matches Some(rid)
            && rid@ == id@) && final(store)@ == old(store)@.with_users(
            old(store)@.users.push(stored_user(id@, user@, now)),
        ),
{
    let shape_ok = if user.is_guest {
        user.hash.is_none() && user.email.is_none()
    } else {
        user.hash.is_some() && user.email.is_some()
    };
    if !shape_ok {
        return Err(Fault::Validation);
    }
    if find_user_index(store, id.as_str()).is_some() {
        return Ok(None);
    }
    match &user.email {
        Some(e) => {
            if find_user_index_by_email(store, e.as_str()).is_some() {
                return Ok(None);
            }
        },
        None => {},
    }
    let row = User {
        id: id.clone(),
        name: user.name.clone(),
        email: clone_opt_string(&user.email),
        hash: clone_opt_string(&user.hash),
        is_guest: user.is_guest,
        avatar_seed: user.avatar_seed.clone(),
        created_at: now,
        updated_at: None,
        score: 0,
    };
    let ghost olds = store@;
    let ghost prev = store.users@;
    let ghost prevdeep = store.users.deep_view();
    let ghost growv = row;
    store.users.push(row);
    proof {
        let newrow = stored_user(id@, user@, now);
        assert(growv.deep_view() == newrow);
        lemma_deep_push(store.users, prev, prevdeep, growv);
        assert(store@.users =~= olds.users.push(newrow));
        assert(store@ == olds.with_users(olds.users.push(newrow)));
        lemma_insert_user_wf(olds, newrow);
    }
    Ok(Some(id))
}

/// A fresh user row whose id and email are unused keeps the store
/// well-formed.
proof fn lemma_insert_user_wf(s: StoreV, u: UserV)
    requires
        s.wf(),
        user_shape_ok(u),
        !has_user_id(s.users, u.id),
        u.email matches Some(e) ==> !email_taken(s.users, e),
    ensures
        s.with_users(s.users.push(u)).wf(),
{
    let users2 = s.users.push(u);
    let s2 = s.with_users(users2);
    assert forall|i: int, j: int| 0 <= i < j < users2.len() implies (#[trigger] users2[i]).id != (
    #[trigger] users2[j]).id by {
        if j < s.users.len() {
            assert(users2[i] == s.users[i] && users2[j] == s.users[j]);
        } else {
            assert(users2[j] == u);
            assert(users2[i] == s.users[i]);
            if s.users[i].id == u.id {
                assert(has_user_id(s.users, u.id));
            }
        }
    }
    assert forall|i: int, j: int|
        0 <= i < j < users2.len() && (#[trigger] users2[i]).email is Some && (
        #[trigger] users2[j]).email is Some implies users2[i].email != users2[j].email by {
        if j < s.users.len() {
            assert(users2[i] == s.users[i] && users2[j] == s.users[j]);
        } else {
            assert(users2[j] == u);
            assert(users2[i] == s.users[i]);
            if s.users[i].email == u.email {
                let e = u.email->0;
                assert(s.users[i].email == Some(e));
                assert(email_taken(s.users, e));
            }
        }
    }
    assert forall|i: int| 0 <= i < users2.len() implies user_shape_ok(#[trigger] users2[i]) by {
        if i < s.users.len() {
            assert(users2[i] == s.users[i]);
        } else {
            assert(users2[i] == u);
        }
    }
    lemma_has_user_id_push(s.users, u);
    assert forall|i: int| 0 <= i < s2.quizzes.len() implies has_translation_id(
        s2.translations,
        (#[trigger] s2.quizzes[i]).title,
    ) && has_user_id(s2.users, s2.quizzes[i].created_by) by {
        assert(has_user_id(s.users, s.quizzes[i].created_by));
    }
    assert forall|i: int| 0 <= i < s2.user_challenges.len() implies has_user_id(
        s2.users,
        (#[trigger] s2.user_challenges[i]).user_id,
    ) && has_challenge_id(s2.challenges, s2.user_challenges[i].challenge_id) by {
        assert(has_user_id(s.users, s.user_challenges[i].user_id));
    }
}

/// Fetches the user holding `id`, if any.
pub fn get_user(store: &Store, id: &str) -> (r: Option<User>)
    requires
        store@.wf(),
    ensures
        r matches Some(u) ==> has_user_id(store@.users, id@) && u@ == store@.users[user_index(
            store@.users,
            id@,
        )],
        r is None ==> !has_user_id(store@.users, id@),
{
    match find_user_index(store, id) {
        Some(i) => {
            let u = store.users[i].clone();
            proof {
                assert(has_user_id(store@.users, id@));
                let j = user_index(store@.users, id@);
                assert(0 <= j < store@.users.len() && store@.users[j].id == id@);
                if i as int != j {
                    assert((store@.users[i as int]).id == (store@.users[j]).id);
                    assert(false);
                }
            }
            Some(u)
        },
        None => None,
    }
}

/// Fetches the user holding the non-null email `email`, if any.
pub fn get_user_by_email(store: &Store, email: &str) -> (r: Option<User>)
    requires
        store@.wf(),
    ensures
        r matches Some(u) ==> email_taken(store@.users, email@) && u@ == store@.users[email_index(
            store@.users,
            email@,
        )],
        r is None ==> !email_taken(store@.users, email@),
{
    match find_user_index_by_email(store, email) {
        Some(i) => {
            let u = store.users[i].clone();
            proof {
                assert(email_taken(store@.users, email@));
                let j = email_index(store@.users, email@);
                assert(0 <= j < store@.users.len() && store@.users[j].email == Some(email@));
                if i as int != j {
                    assert((store@.users[i as int]).email is Some);
                    assert((store@.users[j]).email is Some);
                    assert(false);
                }
            }
            Some(u)
        },
        None => None,
    }
}

/// Registers a candidate user under a freshly drawn id. `Ok(None)` reports
/// an id or email collision; the guest invariant is enforced before any row
/// is written.
pub fn insert_user(store: &mut Store, user: &User, now: u64) -> (r: Result<Option<String>, Fault>)
    requires
        old(store)@.wf(),
    ensures
        final(store)@.wf(),
        !user_shape_ok(user@) ==> (r matches Err(f) && f == Fault::Validation) && final(store)@
            == old(store)@,
        (user_shape_ok(user@) && (user@.email matches Some(e) && email_taken(
            old(store)@.users,
            e,
        ))) ==> (r matches Ok(o) && o is None) && final(store)@ == old(store)@,
        (r matches Ok(o) && o is None) ==> final(store)@ == old(store)@,
        r matches Ok(o) ==> (o is None ==> ((user@.email matches Some(e) && email_taken(
            old(store)@.users,
            e,
        )) || old(store)@.users.len() > 0)),
        r matches Ok(o) ==> (o matches Some(rid) ==> user_shape_ok(user@) && !has_user_id(
            old(store)@.users,
            rid@,
        ) && !(user@.email matches Some(e) && email_taken(old(store)@.users, e)) && final(store)@
            == old(store)@.with_users(old(store)@.users.push(stored_user(rid@, user@, now)))),
        user_shape_ok(user@) ==> r is Ok,
{
    let id = new_uuid();
    let ghost idv = id@;
    let r = insert_user_with_id(store, id, user, now);
    proof {
        let olds = old(store)@;
        match &r {
            Ok(None) => {
                if !(user@.email matches Some(e) && email_taken(olds.users, e)) {
                    assert(user_shape_ok(user@));
                    assert(has_user_id(olds.users, idv));
                    let w = choose|i: int|
                        0 <= i < olds.users.len() && (#[trigger] olds.users[i]).id == idv;
                    assert(olds.users.len() > 0);
                }
            },
            Ok(Some(rr)) => {
                assert(user_shape_ok(user@));
                assert(rr@ == idv);
                assert(!has_user_id(olds.users, rr@));
                assert(!(user@.email matches Some(e) && email_taken(olds.users, e)));
                assert(store@ == olds.with_users(
                    olds.users.push(stored_user(rr@, user@, now)),
                ));
            },
            _ => {},
        }
    }
    r
}

/// The user at `i` with its score replaced.
pub open spec fn user_with_score(u: UserV, s: i32) -> UserV {
    UserV {
        id: u.id,
        name: u.name,
        email: u.email,
        hash: u.hash,
        is_guest: u.is_guest,
        avatar_seed: u.avatar_seed,
        created_at: u.created_at,
        updated_at: u.updated_at,
        score: s,
    }
}

/// Whether a user other than the one at `except` holds `email`.
fn find_other_with_email(store: &Store, email: &str, except: usize) -> (r: bool)
    ensures
        r == email_taken_by_other(store@.users, email@, except as int),
{
    let n = store.users.len();
    let mut i: usize = 0;
    while i < n
        invariant
            i <= n,
            n == store.users.len(),
            forall|k: int|
                0 <= k < i && k != except ==> (#[trigger] store@.users[k]).email != Some(email@),
        decreases n - i,
    {
        if i != except {
            match &store.users[i].email {
                Some(e) => {
                    if str_eq(e.as_str(), email) {
                        assert(store@.users[i as int].email == Some(email@));
                        return true;
                    }
                },
                None => {},
            }
        }
        i = i + 1;
    }
    false
}

/// Replacing the user at `i` with a row of the same id, valid shape, and
/// non-conflicting email keeps the store well-formed.
proof fn lemma_update_user_wf(s: StoreV, i: int, u2: UserV)
    requires
        s.wf(),
        0 <= i < s.users.len(),
        u2.id == s.users[i].id,
        user_shape_ok(u2),
        u2.email matches Some(e) ==> !email_taken_by_other(s.users, e, i),
    ensures
        s.with_users(s.users.update(i, u2)).wf(),
{
    let users2 = s.users.update(i, u2);
    let s2 = s.with_users(users2);
    assert forall|a: int, b: int| 0 <= a < b < users2.len() implies (#[trigger] users2[a]).id != (
    #[trigger] users2[b]).id by {
        assert((s.users[a]).id != (s.users[b]).id);
        if a == i {
            assert(users2[a].id == s.users[a].id);
        } else if b == i {
            assert(users2[b].id == s.users[b].id);
        }
    }
    assert forall|a: int, b: int|
        0 <= a < b < users2.len() && (#[trigger] users2[a]).email is Some && (
        #[trigger] users2[b]).email is Some implies users2[a].email != users2[b].email by {
        if a != i && b != i {
            assert(users2[a] == s.users[a] && users2[b] == s.users[b]);
        } else {
            let other = if a == i { b } else { a };
            assert(users2[other] == s.users[other]);
            if users2[other].email == u2.email {
                let e = u2.email->0;
                assert(s.users[other].email == Some(e));
                assert(email_taken_by_other(s.users, e, i));
            }
        }
    }
    assert forall|a: int| 0 <= a < users2.len() implies user_shape_ok(#[trigger] users2[a]) by {
        if a != i {
            assert(users2[a] == s.users[a]);
            assert(user_shape_ok(s.users[a]));
        }
    }
    assert forall|k: int| 0 <= k < s.users.len() implies (#[trigger] s.users[k]).id == (
    #[trigger] users2[k]).id by {}
    lemma_has_user_id_pointwise(s.users, users2);
    assert forall|k: int| 0 <= k < s2.quizzes.len() implies has_translation_id(
        s2.translations,
        (#[trigger] s2.quizzes[k]).title,
    ) && has_user_id(s2.users, s2.quizzes[k].created_by) by {
        assert(has_user_id(s.users, s.quizzes[k].created_by));
    }
    assert forall|k: int| 0 <= k < s2.user_challenges.len() implies has_user_id(
        s2.users,
        (#[trigger] s2.user_challenges[k]).user_id,
    ) && has_challenge_id(s2.challenges, s2.user_challenges[k].challenge_id) by {
        assert(has_user_id(s.users, s.user_challenges[k].user_id));
    }
}

/// Patches the user holding `id`: provided fields overwrite, omitted fields
/// keep their stored values, atomically for the row. Rejects a patch that
/// breaks the guest invariant (`Validation`) or collides on email
/// (`Conflict`); `Ok(None)` reports an unknown id.
pub fn update_user(store: &mut Store, id: &str, patch: &UserPatch) -> (r: Result<
    Option<User>,
    Fault,
>)
    requires
        old(store)@.wf(),
    ensures
        final(store)@.wf(),
        !has_user_id(old(store)@.users, id@) ==> (r matches Ok(o) && o is None) && final(store)@
            == old(store)@,
        has_user_id(old(store)@.users, id@) ==> ({
            let i = user_index(old(store)@.users, id@);
            let u2 = apply_patch(old(store)@.users[i], patch@);
            &&& !user_shape_ok(u2) ==> (r matches Err(f) && f == Fault::Validation) && final(store)@ == old(store)@
            &&& (user_shape_ok(u2) && (u2.email matches Some(e) && email_taken_by_other(
                old(store)@.users,
                e,
                i,
            ))) ==> (r matches Err(f) && f == Fault::Conflict) && final(store)@ == old(store)@
            &&& (user_shape_ok(u2) && !(u2.email matches Some(e) && email_taken_by_other(
                old(store)@.users,
                e,
                i,
            ))) ==> (r matches Ok(o) && o matches Some(u) && u@ == u2) && final(store)@ == old(store)@.with_users(old(store)@.users.update(i, u2))
        }),
{
    let idx = match find_user_index(store, id) {
        Some(i) => i,
        None => {
            return Ok(None);
        },
    };
    proof {
        assert(has_user_id(store@.users, id@));
        let j = user_index(store@.users, id@);
        assert(0 <= j < store@.users.len() && store@.users[j].id == id@);
        if idx as int != j {
            assert((store@.users[idx as int]).id == (store@.users[j]).id);
            assert(false);
        }
    }
    let cur = &store.users[idx];
    let row = User {
        id: cur.id.clone(),
        name: match &patch.name {
            Some(x) => x.clone(),
            None => cur.name.clone(),
        },
        email: match &patch.email {
            Some(x) => Some(x.clone()),
            None => clone_opt_string(&cur.email),
        },
        hash: match &patch.hash {
            Some(x) => Some(x.clone()),
            None => clone_opt_string(&cur.hash),
        },
        is_guest: match patch.is_guest {
            Some(b) => b,
            None => cur.is_guest,
        },
        avatar_seed: match &patch.avatar_seed {
            Some(x) => x.clone(),
            None => cur.avatar_seed.clone(),
        },
        created_at: cur.created_at,
        updated_at: cur.updated_at,
        score: match patch.score {
            Some(v) => v,
            None => cur.score,
        },
    };
    assert(row@ == apply_patch(store@.users[idx as int], patch@));
    let shape_ok = if row.is_guest {
        row.hash.is_none() && row.email.is_none()
    } else {
        row.hash.is_some() && row.email.is_some()
    };
    if !shape_ok {
        return Err(Fault::Validation);
    }
    match &row.email {
        Some(e) => {
            if find_other_with_email(store, e.as_str(), idx) {
                return Err(Fault::Conflict);
            }
        },
        None => {},
    }
    let result = row.clone();
    let ghost olds = store@;
    let ghost prev = store.users@;
    let ghost prevdeep = store.users.deep_view();
    let ghost growv = row;
    let ghost u2 = apply_patch(olds.users[idx as int], patch@);
    store.users[idx] = row;
    proof {
        lemma_deep_update(store.users, prev, prevdeep, idx as int, growv);
        assert(store@.users =~= olds.users.update(idx as int, u2));
        assert(store@ == olds.with_users(olds.users.update(idx as int, u2)));
        lemma_update_user_wf(olds, idx as int, u2);
    }
    Ok(Some(result))
}

/// Reads the current score and writes `score + delta` through a patch. This
/// read-then-write pair is not atomic against concurrent increases for the
/// same user; callers must serialize increases per user.
pub fn increase_score(store: &mut Store, id: &str, score: i32) -> (r: Result<Option<()>, Fault>)
    requires
        old(store)@.wf(),
    ensures
        final(store)@.wf(),
        !has_user_id(old(store)@.users, id@) ==> (r matches Ok(o) && o is None) && final(store)@
            == old(store)@,
        has_user_id(old(store)@.users, id@) ==> ({
            let i = user_index(old(store)@.users, id@);
            let s2 = old(store)@.users[i].score + score;
            &&& (i32::MIN <= s2 <= i32::MAX) ==> (r matches Ok(o) && o is Some) && final(store)@
                == old(store)@.with_users(
                old(store)@.users.update(i, user_with_score(old(store)@.users[i], s2 as i32)),
            )
            &&& !(i32::MIN <= s2 <= i32::MAX) ==> (r matches Err(f) && f == Fault::Validation)
                && final(store)@ == old(store)@
        }),
{
    let u = match get_user(store, id) {
        Some(u) => u,
        None => {
            return Ok(None);
        },
    };
    let s0 = u.score;
    let fits = if score >= 0 {
        s0 <= i32::MAX - score
    } else {
        s0 >= i32::MIN - score
    };
    if !fits {
        return Err(Fault::Validation);
    }
    let mut patch = UserPatch::default();
    patch.score = Some(s0 + score);
    let ghost olds = store@;
    let ghost i = user_index(olds.users, id@);
    proof {
        let u2 = apply_patch(olds.users[i], patch@);
        assert(u2 == user_with_score(olds.users[i], (olds.users[i].score + score) as i32));
        assert(user_shape_ok(olds.users[i]));
        assert(user_shape_ok(u2));
        match u2.email {
            Some(e) => {
                if email_taken_by_other(olds.users, e, i) {
                    let j = choose|j: int|
                        0 <= j < olds.users.len() && j != i && (#[trigger] olds.users[j]).email
                            == Some(e);
                    assert((olds.users[i]).email is Some && (olds.users[j]).email is Some);
                    assert(false);
                }
            },
            None => {},
        }
    }
    match update_user(store, id, &patch) {
        Ok(Some(_)) => Ok(Some(())),
        Ok(None) => {
            proof {
                assert(false);
            }
            Ok(None)
        },
        Err(f) => {
            proof {
                assert(false);
            }
            Err(f)
        },
    }
}

/// Guest invariant: in a well-formed registry no guest row carries a
/// credential digest or an email, and every non-guest row carries both.
/// Every operation of this crate that writes the store keeps it well-formed,
/// so the invariant holds in every reachable state.
pub proof fn lemma_guest_invariant(s: StoreV)
    requires
        s.wf(),
    ensures
        forall|i: int|
            0 <= i < s.users.len() && (#[trigger] s.users[i]).is_guest ==> s.users[i].hash is None
                && s.users[i].email is None,
        forall|i: int|
            0 <= i < s.users.len() && !(#[trigger] s.users[i]).is_guest ==> s.users[i].hash
                is Some && s.users[i].email is Some,
{
    assert forall|i: int|
        0 <= i < s.users.len() && (#[trigger] s.users[i]).is_guest implies s.users[i].hash is None
        && s.users[i].email is None by {
        assert(user_shape_ok(s.users[i]));
    }
    assert forall|i: int|
        0 <= i < s.users.len() && !(#[trigger] s.users[i]).is_guest implies s.users[i].hash
        is Some && s.users[i].email is Some by {
        assert(user_shape_ok(s.users[i]));
    }
}

/// Registration uniqueness: once a registration with email `e` has landed,
/// the registry holds `e`; by `insert_user`'s contract a second registration
/// under `e` then reports "already exists" instead of adding a row, and a
/// well-formed registry never holds two rows with one email.
pub proof fn lemma_registration_uniqueness(
    s: StoreV,
    id: Seq<char>,
    u: UserV,
    e: Seq<char>,
    now: u64,
)
    requires
        u.email == Some(e),
    ensures
        email_taken(s.with_users(s.users.push(stored_user(id, u, now))).users, e),
{
    let users2 = s.users.push(stored_user(id, u, now));
    assert(users2[users2.len() - 1].email == Some(e));
}

} // verus!
