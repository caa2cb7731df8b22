use vstd::prelude::*;
use crate::fault::Fault;
use crate::entities::challenge::{Challenge, ChallengeV, UserChallenge, UserChallengeV};
use crate::entities::quiz::Translation;
use crate::ops::quiz::{
    find_translation_index, lemma_insert_translation_wf, new_translation,
};
use crate::ops::user::find_user_index;
use crate::store::{
    challenge_index, has_challenge_id, has_progress, has_quiz_id, has_translation_id, has_user_id,
    lemma_deep_push, lemma_deep_remove, lemma_deep_update, lemma_has_challenge_id_push, new_uuid,
    progress_index, translation_index, Store, StoredChallenge, StoredChallengeV, StoreV,
};
use crate::text::str_eq;

verus! {

/// The challenge row written for candidate `c` under `id`, with its
/// description stored as translation `tid`.
pub open spec fn challenge_row(id: Seq<char>, c: ChallengeV, tid: Seq<char>) -> StoredChallengeV {
    StoredChallengeV {
        id,
        challenge_type: c.challenge_type,
        goal: c.goal,
        title: c.title,
        category: c.category,
        description: tid,
    }
}

/// The challenge at index `i`, joined with its description translation.
pub open spec fn joined_challenge(s: StoreV, i: int) -> ChallengeV {
    let row = s.challenges[i];
    ChallengeV {
        id: row.id,
        title: row.title,
        category: row.category,
        challenge_type: row.challenge_type,
        goal: row.goal,
        description: s.translations[translation_index(s.translations, row.description)].content,
    }
}

/// The index of the challenge holding `id`, or `None` if no row does.
pub(crate) fn find_challenge_index(store: &Store, id: &str) -> (r: Option<usize>)
    ensures
        r matches Some(i) ==> 0 <= i < store@.challenges.len() && store@.challenges[i as int].id
            == id@,
        r is None ==> !has_challenge_id(store@.challenges, id@),
{
    let n = store.challenges.len();
    let mut i: usize = 0;
    while i < n
        invariant
            i <= n,
            n == store.challenges.len(),
            forall|k: int| 0 <= k < i ==> (#[trigger] store@.challenges[k]).id != id@,
        decreases n - i,
    {
        if str_eq(store.challenges[i].id.as_str(), id) {
            return Some(i);
        }
        i = i + 1;
    }
    None
}

/// The index of the ledger row keyed `(user_id, challenge_id)`, if any.
pub(crate) fn find_progress_index(store: &Store, user_id: &str, challenge_id: &str) -> (r: Option<
    usize,
>)
    ensures
        r matches Some(i) ==> 0 <= i < store@.user_challenges.len()
            && store@.user_challenges[i as int].user_id == user_id@
            && store@.user_challenges[i as int].challenge_id == challenge_id@,
        r is None ==> !has_progress(store@.user_challenges, user_id@, challenge_id@),
{
    let n = store.user_challenges.len();
    let mut i: usize = 0;
    while i < n
        invariant
            i <= n,
            n == store.user_challenges.len(),
            forall|k: int|
                0 <= k < i ==> !((#[trigger] store@.user_challenges[k]).user_id == user_id@
                    && store@.user_challenges[k].challenge_id == challenge_id@),
        decreases n - i,
    {
        let row = &store.user_challenges[i];
        if str_eq(row.user_id.as_str(), user_id) && str_eq(row.challenge_id.as_str(), challenge_id)
        {
            return Some(i);
        }
        i = i + 1;
    }
    None
}

/// A fresh challenge row whose description translation exists keeps the
/// store well-formed.
proof fn lemma_insert_challenge_wf(s: StoreV, c: StoredChallengeV)
    requires
        s.wf(),
        !has_challenge_id(s.challenges, c.id),
        has_translation_id(s.translations, c.description),
    ensures
        s.with_challenges(s.challenges.push(c)).wf(),
{
    let cs2 = s.challenges.push(c);
    let s2 = s.with_challenges(cs2);
    assert forall|i: int, j: int| 0 <= i < j < cs2.len() implies (#[trigger] cs2[i]).id != (
    #[trigger] cs2[j]).id by {
        if j < s.challenges.len() {
            assert(cs2[i] == s.challenges[i] && cs2[j] == s.challenges[j]);
        } else {
            assert(cs2[j] == c);
            assert(cs2[i] == s.challenges[i]);
            if s.challenges[i].id == c.id {
                assert(has_challenge_id(s.challenges, c.id));
            }
        }
    }
    lemma_has_challenge_id_push(s.challenges, c);
    assert forall|i: int| 0 <= i < s2.challenges.len() implies has_translation_id(
        s2.translations,
        (#[trigger] s2.challenges[i]).description,
    ) by {
        if i < s.challenges.len() {
            assert(s2.challenges[i] == s.challenges[i]);
            assert(has_translation_id(s.translations, s.challenges[i].description));
        } else {
            assert(s2.challenges[i] == c);
        }
    }
    assert forall|i: int| 0 <= i < s2.user_challenges.len() implies has_user_id(
        s2.users,
        (#[trigger] s2.user_challenges[i]).user_id,
    ) && has_challenge_id(s2.challenges, s2.user_challenges[i].challenge_id) by {
        assert(has_challenge_id(s.challenges, s.user_challenges[i].challenge_id));
    }
}

/// Inserts the description as a translation, then the challenge row, as one
/// atomic unit of work, and returns the challenge's fresh id. The one
/// failure is a drawn-id collision (`Conflict`) — possible only against a
/// nonempty table — and on any error nothing at all is written.
pub fn insert_challenge(store: &mut Store, challenge: &Challenge) -> (r: Result<String, Fault>)
    requires
        old(store)@.wf(),
    ensures
        final(store)@.wf(),
        r is Err ==> final(store)@ == old(store)@,
        r matches Err(f) ==> f == Fault::Conflict && (old(store)@.translations.len() > 0 || old(
            store,
        )@.challenges.len() > 0),
        r matches Ok(id) ==> exists|tid: Seq<char>|
            #![auto]
            !has_translation_id(old(store)@.translations, tid) && !has_challenge_id(
                old(store)@.challenges,
                id@,
            ) && final(store)@ == old(store)@.with_translations(
                old(store)@.translations.push(
                    new_translation(tid, None, challenge@.description),
                ),
            ).with_challenges(
                old(store)@.challenges.push(challenge_row(id@, challenge@, tid)),
            ),
{
    let ghost olds = store@;
    let tid = new_uuid();
    if find_translation_index(store, tid.as_str()).is_some() {
        return Err(Fault::Conflict);
    }
    let id = new_uuid();
    if find_challenge_index(store, id.as_str()).is_some() {
        return Err(Fault::Conflict);
    }
    let ghost tidv = tid@;
    let trow = Translation {
        id: tid.clone(),
        language_code: "en-GB".to_owned(),
        content: challenge.description.clone(),
    };
    let ghost tprev = store.translations@;
    let ghost tprevdeep = store.translations.deep_view();
    let ghost gtrow = trow;
    store.translations.push(trow);
    proof {
        lemma_deep_push(store.translations, tprev, tprevdeep, gtrow);
        assert(store@.translations =~= olds.translations.push(gtrow.deep_view()));
        assert(store@ == olds.with_translations(olds.translations.push(gtrow.deep_view())));
        lemma_insert_translation_wf(olds, gtrow.deep_view());
        assert(gtrow.deep_view() == new_translation(tidv, None, challenge@.description));
    }
    let row = StoredChallenge {
        id: id.clone(),
        challenge_type: challenge.challenge_type,
        goal: challenge.goal,
        title: challenge.title.clone(),
        category: challenge.category.clone(),
        description: tid,
    };
    let ghost mids = store@;
    let ghost prev = store.challenges@;
    let ghost prevdeep = store.challenges.deep_view();
    let ghost growv = row;
    store.challenges.push(row);
    proof {
        lemma_deep_push(store.challenges, prev, prevdeep, growv);
        assert(store@.challenges =~= mids.challenges.push(growv.deep_view()));
        assert(store@ == mids.with_challenges(mids.challenges.push(growv.deep_view())));
        assert(growv.deep_view().description == tidv);
        assert(mids.translations[mids.translations.len() - 1].id == tidv);
        assert(has_translation_id(mids.translations, tidv));
        lemma_insert_challenge_wf(mids, growv.deep_view());
    }
    Ok(id)
}

/// Fetches the challenge holding `id`, joined with its description text.
pub fn get_challenge(store: &Store, id: &str) -> (r: Option<Challenge>)
    requires
        store@.wf(),
    ensures
        r matches Some(c) ==> has_challenge_id(store@.challenges, id@) && c@ == joined_challenge(
            store@,
            challenge_index(store@.challenges, id@),
        ),
        r is None ==> !has_challenge_id(store@.challenges, id@),
{
    let idx = match find_challenge_index(store, id) {
        Some(i) => i,
        None => {
            return None;
        },
    };
    proof {
        assert(has_challenge_id(store@.challenges, id@));
        let j = challenge_index(store@.challenges, id@);
        assert(0 <= j < store@.challenges.len() && store@.challenges[j].id == id@);
        if idx as int != j {
            assert((store@.challenges[idx as int]).id == (store@.challenges[j]).id);
            assert(false);
        }
    }
    let row = &store.challenges[idx];
    let tix = match find_translation_index(store, row.description.as_str()) {
        Some(t) => t,
        None => {
            proof {
                assert(has_translation_id(store@.translations, store@.challenges[idx as int].description));
                assert(false);
            }
            return None;
        },
    };
    proof {
        let j = translation_index(store@.translations, store@.challenges[idx as int].description);
        assert(0 <= j < store@.translations.len() && store@.translations[j].id
            == store@.challenges[idx as int].description);
        if tix as int != j {
            assert((store@.translations[tix as int]).id == (store@.translations[j]).id);
            assert(false);
        }
    }
    Some(
        Challenge {
            id: row.id.clone(),
            title: row.title.clone(),
            category: row.category.clone(),
            challenge_type: row.challenge_type,
            goal: row.goal,
            description: store.translations[tix].content.clone(),
        },
    )
}

/// The ledger row written on first submission and the merged row written on
/// later ones.
pub open spec fn progress_row(
    user_id: Seq<char>,
    challenge_id: Seq<char>,
    progress: i32,
    now: u64,
) -> UserChallengeV {
    UserChallengeV { user_id, challenge_id, progress, updated_at: Some(now) }
}

/// A fresh ledger row with live references keeps the store well-formed.
proof fn lemma_insert_progress_wf(s: StoreV, uc: UserChallengeV)
    requires
        s.wf(),
        !has_progress(s.user_challenges, uc.user_id, uc.challenge_id),
        has_user_id(s.users, uc.user_id),
        has_challenge_id(s.challenges, uc.challenge_id),
    ensures
        s.with_user_challenges(s.user_challenges.push(uc)).wf(),
{
    let ucs2 = s.user_challenges.push(uc);
    let s2 = s.with_user_challenges(ucs2);
    assert forall|i: int, j: int| 0 <= i < j < ucs2.len() implies !((#[trigger] ucs2[i]).user_id
        == (#[trigger] ucs2[j]).user_id && ucs2[i].challenge_id == ucs2[j].challenge_id) by {
        if j < s.user_challenges.len() {
            assert(ucs2[i] == s.user_challenges[i] && ucs2[j] == s.user_challenges[j]);
        } else {
            assert(ucs2[j] == uc);
            assert(ucs2[i] == s.user_challenges[i]);
            if ucs2[i].user_id == uc.user_id && ucs2[i].challenge_id == uc.challenge_id {
                assert(has_progress(s.user_challenges, uc.user_id, uc.challenge_id));
            }
        }
    }
    assert forall|i: int| 0 <= i < ucs2.len() implies has_user_id(
        s2.users,
        (#[trigger] ucs2[i]).user_id,
    ) && has_challenge_id(s2.challenges, ucs2[i].challenge_id) by {
        if i < s.user_challenges.len() {
            assert(ucs2[i] == s.user_challenges[i]);
            assert(has_user_id(s.users, s.user_challenges[i].user_id));
        } else {
            assert(ucs2[i] == uc);
        }
    }
}

/// Replacing a ledger row by one with the same key keeps the store
/// well-formed.
proof fn lemma_update_progress_wf(s: StoreV, i: int, uc2: UserChallengeV)
    requires
        s.wf(),
        0 <= i < s.user_challenges.len(),
        uc2.user_id == s.user_challenges[i].user_id,
        uc2.challenge_id == s.user_challenges[i].challenge_id,
    ensures
        s.with_user_challenges(s.user_challenges.update(i, uc2)).wf(),
{
    let ucs2 = s.user_challenges.update(i, uc2);
    let s2 = s.with_user_challenges(ucs2);
    assert forall|a: int, b: int| 0 <= a < b < ucs2.len() implies !((#[trigger] ucs2[a]).user_id
        == (#[trigger] ucs2[b]).user_id && ucs2[a].challenge_id == ucs2[b].challenge_id) by {
        assert(!((s.user_challenges[a]).user_id == (s.user_challenges[b]).user_id
            && s.user_challenges[a].challenge_id == s.user_challenges[b].challenge_id));
    }
    assert forall|k: int| 0 <= k < ucs2.len() implies has_user_id(
        s2.users,
        (#[trigger] ucs2[k]).user_id,
    ) && has_challenge_id(s2.challenges, ucs2[k].challenge_id) by {
        assert(has_user_id(s.users, (s.user_challenges[k]).user_id));
        assert(has_challenge_id(s.challenges, s.user_challenges[k].challenge_id));
    }
}

/// Removing a ledger row keeps the store well-formed.
proof fn lemma_remove_progress_wf(s: StoreV, i: int)
    requires
        s.wf(),
        0 <= i < s.user_challenges.len(),
    ensures
        s.with_user_challenges(s.user_challenges.remove(i)).wf(),
{
    let ucs2 = s.user_challenges.remove(i);
    let s2 = s.with_user_challenges(ucs2);
    assert forall|a: int, b: int| 0 <= a < b < ucs2.len() implies !((#[trigger] ucs2[a]).user_id
        == (#[trigger] ucs2[b]).user_id && ucs2[a].challenge_id == ucs2[b].challenge_id) by {
        let oa = if a < i {
            a
        } else {
            a + 1
        };
        let ob = if b < i {
            b
        } else {
            b + 1
        };
        assert(ucs2[a] == s.user_challenges[oa]);
        assert(ucs2[b] == s.user_challenges[ob]);
        assert(!((s.user_challenges[oa]).user_id == (s.user_challenges[ob]).user_id
            && s.user_challenges[oa].challenge_id == s.user_challenges[ob].challenge_id));
    }
    assert forall|k: int| 0 <= k < ucs2.len() implies has_user_id(
        s2.users,
        (#[trigger] ucs2[k]).user_id,
    ) && has_challenge_id(s2.challenges, ucs2[k].challenge_id) by {
        let ok = if k < i {
            k
        } else {
            k + 1
        };
        assert(ucs2[k] == s.user_challenges[ok]);
        assert(has_user_id(s.users, (s.user_challenges[ok]).user_id));
        assert(has_challenge_id(s.challenges, s.user_challenges[ok].challenge_id));
    }
}

/// Upsert keyed by `(user_id, challenge_id)`: the first submission creates
/// the row with `progress`, every later one adds to it (merge-add, never
/// overwrite). `Ok(None)` reports that the user or the challenge id is not a
/// live reference; a sum that leaves the storable range is rejected as
/// `Validation` with nothing written.
pub fn add_progress(
    store: &mut Store,
    user_id: &str,
    challenge_id: &str,
    progress: i32,
    now: u64,
) -> (r: Result<Option<UserChallenge>, Fault>)
    requires
        old(store)@.wf(),
    ensures
        final(store)@.wf(),
        (!has_user_id(old(store)@.users, user_id@) || !has_challenge_id(
            old(store)@.challenges,
            challenge_id@,
        )) ==> (r matches Ok(o) && o is None) && final(store)@ == old(store)@,
        (has_user_id(old(store)@.users, user_id@) && has_challenge_id(
            old(store)@.challenges,
            challenge_id@,
        ) && !has_progress(old(store)@.user_challenges, user_id@, challenge_id@)) ==> (
        r matches Ok(o) && o matches Some(uc) && uc@ == progress_row(
            user_id@,
            challenge_id@,
            progress,
            now,
        )) && final(store)@ == old(store)@.with_user_challenges(
            old(store)@.user_challenges.push(
                progress_row(user_id@, challenge_id@, progress, now),
            ),
        ),
        (has_user_id(old(store)@.users, user_id@) && has_challenge_id(
            old(store)@.challenges,
            challenge_id@,
        ) && has_progress(old(store)@.user_challenges, user_id@, challenge_id@)) ==> ({
            let i = progress_index(old(store)@.user_challenges, user_id@, challenge_id@);
            let total = old(store)@.user_challenges[i].progress + progress;
            &&& (i32::MIN <= total <= i32::MAX) ==> (r matches Ok(o) && o matches Some(uc) && uc@
                == progress_row(user_id@, challenge_id@, total as i32, now)) && final(store)@ == old(
                store,
            )@.with_user_challenges(
                old(store)@.user_challenges.update(
                    i,
                    progress_row(user_id@, challenge_id@, total as i32, now),
                ),
            )
            &&& !(i32::MIN <= total <= i32::MAX) ==> (r matches Err(f) && f == Fault::Validation)
                && final(store)@ == old(store)@
        }),
        (has_user_id(old(store)@.users, user_id@) && has_challenge_id(
            old(store)@.challenges,
            challenge_id@,
        ) && (!has_progress(old(store)@.user_challenges, user_id@, challenge_id@) || i32::MIN <= old(
            store,
        )@.user_challenges[progress_index(old(store)@.user_challenges, user_id@, challenge_id@)].progress
            + progress <= i32::MAX)) ==> final(store)@ == spec_add_progress(
            old(store)@,
            user_id@,
            challenge_id@,
            progress,
            now,
        ),
{
    if find_user_index(store, user_id).is_none() {
        return Ok(None);
    }
    if find_challenge_index(store, challenge_id).is_none() {
        return Ok(None);
    }
    match find_progress_index(store, user_id, challenge_id) {
        None => {
            let row = UserChallenge {
                user_id: user_id.to_owned(),
                challenge_id: challenge_id.to_owned(),
                progress,
                updated_at: Some(now),
            };
            let result = row.clone();
            let ghost olds = store@;
            let ghost prev = store.user_challenges@;
            let ghost prevdeep = store.user_challenges.deep_view();
            let ghost growv = row;
            store.user_challenges.push(row);
            proof {
                lemma_deep_push(store.user_challenges, prev, prevdeep, growv);
                assert(store@.user_challenges =~= olds.user_challenges.push(growv.deep_view()));
                assert(store@ == olds.with_user_challenges(
                    olds.user_challenges.push(growv.deep_view()),
                ));
                lemma_insert_progress_wf(olds, growv.deep_view());
            }
            Ok(Some(result))
        },
        Some(i) => {
            proof {
                let j = progress_index(store@.user_challenges, user_id@, challenge_id@);
                assert(0 <= j < store@.user_challenges.len() && store@.user_challenges[j].user_id
                    == user_id@ && store@.user_challenges[j].challenge_id == challenge_id@);
                if i as int != j {
                    assert((store@.user_challenges[i as int]).user_id == (
                    store@.user_challenges[j]).user_id);
                    assert(false);
                }
            }
            let p0 = store.user_challenges[i].progress;
            let fits = if progress >= 0 {
                p0 <= i32::MAX - progress
            } else {
                p0 >= i32::MIN - progress
            };
            if !fits {
                return Err(Fault::Validation);
            }
            let row = UserChallenge {
                user_id: user_id.to_owned(),
                challenge_id: challenge_id.to_owned(),
                progress: p0 + progress,
                updated_at: Some(now),
            };
            let result = row.clone();
            let ghost olds = store@;
            let ghost prev = store.user_challenges@;
            let ghost prevdeep = store.user_challenges.deep_view();
            let ghost growv = row;
            store.user_challenges[i] = row;
            proof {
                lemma_deep_update(store.user_challenges, prev, prevdeep, i as int, growv);
                assert(store@.user_challenges =~= olds.user_challenges.update(
                    i as int,
                    growv.deep_view(),
                ));
                assert(store@ == olds.with_user_challenges(
                    olds.user_challenges.update(i as int, growv.deep_view()),
                ));
                lemma_update_progress_wf(olds, i as int, growv.deep_view());
            }
            Ok(Some(result))
        },
    }
}

/// The rows of the ledger that belong to `user_id`, narrowed to one
/// challenge when `challenge_id` is given, in ledger order.
pub fn get_user_challenges(
    store: &Store,
    user_id: &str,
    challenge_id: &Option<String>,
) -> (r: Vec<UserChallenge>)
    ensures
        r.deep_view() == store@.user_challenges.filter(
            |uc: UserChallengeV|
                uc.user_id == user_id@ && (challenge_id.deep_view() matches Some(c)
                    ==> uc.challenge_id == c),
        ),
{
    let ghost pred = |uc: UserChallengeV|
        uc.user_id == user_id@ && (challenge_id.deep_view() matches Some(c) ==> uc.challenge_id
            == c);
    let n = store.user_challenges.len();
    let mut out: Vec<UserChallenge> = Vec::new();
    let mut i: usize = 0;
    proof {
        reveal(Seq::filter);
        assert(store@.user_challenges.subrange(0, 0) =~= Seq::<UserChallengeV>::empty());
        assert(store@.user_challenges.subrange(0, 0).filter(pred) =~= Seq::<UserChallengeV>::empty());
    }
    while i < n
        invariant
            i <= n,
            n == store.user_challenges.len(),
            out.deep_view() == store@.user_challenges.subrange(0, i as int).filter(pred),
            pred == (|uc: UserChallengeV|
                uc.user_id == user_id@ && (challenge_id.deep_view() matches Some(c)
                    ==> uc.challenge_id == c)),
        decreases n - i,
    {
        let row = &store.user_challenges[i];
        let keep = if str_eq(row.user_id.as_str(), user_id) {
            match challenge_id {
                Some(c) => str_eq(row.challenge_id.as_str(), c.as_str()),
                None => true,
            }
        } else {
            false
        };
        let ghost rowv = store@.user_challenges[i as int];
        proof {
            assert(keep == pred(rowv));
            let prefix = store@.user_challenges.subrange(0, i as int);
            let prefix2 = store@.user_challenges.subrange(0, i as int + 1);
            assert(prefix2.drop_last() =~= prefix);
            assert(prefix2.last() == rowv);
            reveal(Seq::filter);
            assert(prefix2.filter(pred) == if pred(rowv) {
                prefix.filter(pred).push(rowv)
            } else {
                prefix.filter(pred)
            });
        }
        if keep {
            let item = row.clone();
            let ghost prev = out@;
            let ghost prevdeep = out.deep_view();
            let ghost growv = item;
            out.push(item);
            proof {
                lemma_deep_push(out, prev, prevdeep, growv);
            }
        }
        i = i + 1;
    }
    proof {
        assert(store@.user_challenges.subrange(0, n as int) =~= store@.user_challenges);
    }
    out
}

/// Every challenge, each joined with its description text, in store order.
pub fn get_challenges(store: &Store) -> (r: Vec<Challenge>)
    requires
        store@.wf(),
    ensures
        r.deep_view().len() == store@.challenges.len(),
        forall|i: int|
            0 <= i < store@.challenges.len() ==> r.deep_view()[i] == joined_challenge(store@, i),
{
    let n = store.challenges.len();
    let mut out: Vec<Challenge> = Vec::new();
    let mut i: usize = 0;
    while i < n
        invariant
            store@.wf(),
            i <= n,
            n == store.challenges.len(),
            out.deep_view().len() == i,
            forall|k: int| 0 <= k < i ==> out.deep_view()[k] == joined_challenge(store@, k),
        decreases n - i,
    {
        let row = &store.challenges[i];
        let tix = match find_translation_index(store, row.description.as_str()) {
            Some(t) => t,
            None => {
                proof {
                    assert(has_translation_id(
                        store@.translations,
                        store@.challenges[i as int].description,
                    ));
                    assert(false);
                }
                return out;
            },
        };
        proof {
            let j = translation_index(
                store@.translations,
                store@.challenges[i as int].description,
            );
            assert(0 <= j < store@.translations.len() && store@.translations[j].id
                == store@.challenges[i as int].description);
            if tix as int != j {
                assert((store@.translations[tix as int]).id == (store@.translations[j]).id);
                assert(false);
            }
        }
        let item = Challenge {
            id: row.id.clone(),
            title: row.title.clone(),
            category: row.category.clone(),
            challenge_type: row.challenge_type,
            goal: row.goal,
            description: store.translations[tix].content.clone(),
        };
        let ghost prev = out@;
        let ghost prevdeep = out.deep_view();
        let ghost growv = item;
        out.push(item);
        i = i + 1;
        proof {
            lemma_deep_push(out, prev, prevdeep, growv);
            assert(growv.deep_view() == joined_challenge(store@, i as int - 1));
        }
    }
    out
}

/// Removes the ledger row keyed `(user_id, challenge_id)` and returns it, or
/// `None` when no such row exists.
pub fn delete_progress(store: &mut Store, user_id: &str, challenge_id: &str) -> (r: Option<
    UserChallenge,
>)
    requires
        old(store)@.wf(),
    ensures
        final(store)@.wf(),
        !has_progress(old(store)@.user_challenges, user_id@, challenge_id@) ==> r is None && final(store)@ == old(store)@,
        has_progress(old(store)@.user_challenges, user_id@, challenge_id@) ==> (r matches Some(uc)
            && uc@ == old(store)@.user_challenges[progress_index(
            old(store)@.user_challenges,
            user_id@,
            challenge_id@,
        )]) && final(store)@ == old(store)@.with_user_challenges(
            old(store)@.user_challenges.remove(
                progress_index(old(store)@.user_challenges, user_id@, challenge_id@),
            ),
        ),
{
    let idx = match find_progress_index(store, user_id, challenge_id) {
        Some(i) => i,
        None => {
            return None;
        },
    };
    proof {
        assert(has_progress(store@.user_challenges, user_id@, challenge_id@));
        let j = progress_index(store@.user_challenges, user_id@, challenge_id@);
        assert(0 <= j < store@.user_challenges.len() && store@.user_challenges[j].user_id
            == user_id@ && store@.user_challenges[j].challenge_id == challenge_id@);
        if idx as int != j {
            assert((store@.user_challenges[idx as int]).user_id == (
            store@.user_challenges[j]).user_id);
            assert(false);
        }
    }
    let result = store.user_challenges[idx].clone();
    let ghost olds = store@;
    let ghost prev = store.user_challenges@;
    let ghost prevdeep = store.user_challenges.deep_view();
    store.user_challenges.remove(idx);
    proof {
        lemma_deep_remove(store.user_challenges, prev, prevdeep, idx as int);
        assert(store@.user_challenges =~= olds.user_challenges.remove(idx as int));
        assert(store@ == olds.with_user_challenges(olds.user_challenges.remove(idx as int)));
        lemma_remove_progress_wf(olds, idx as int);
    }
    Some(result)
}


/// One ledger upsert at the specification level: create on first
/// submission, merge-add on later ones.
pub open spec fn spec_add_progress(
    s: StoreV,
    user_id: Seq<char>,
    challenge_id: Seq<char>,
    d: i32,
    now: u64,
) -> StoreV {
    if !has_progress(s.user_challenges, user_id, challenge_id) {
        s.with_user_challenges(
            s.user_challenges.push(progress_row(user_id, challenge_id, d, now)),
        )
    } else {
        let i = progress_index(s.user_challenges, user_id, challenge_id);
        s.with_user_challenges(
            s.user_challenges.update(
                i,
                progress_row(
                    user_id,
                    challenge_id,
                    (s.user_challenges[i].progress + d) as i32,
                    now,
                ),
            ),
        )
    }
}

/// A whole sequence of ledger upserts for one `(user, challenge)` key.
pub open spec fn spec_add_progress_all(
    s: StoreV,
    user_id: Seq<char>,
    challenge_id: Seq<char>,
    ds: Seq<i32>,
    now: u64,
) -> StoreV
    decreases ds.len(),
{
    if ds.len() == 0 {
        s
    } else {
        spec_add_progress_all(
            spec_add_progress(s, user_id, challenge_id, ds[0], now),
            user_id,
            challenge_id,
            ds.drop_first(),
            now,
        )
    }
}

pub open spec fn sum_i32(ds: Seq<i32>) -> int
    decreases ds.len(),
{
    if ds.len() == 0 {
        0
    } else {
        ds[0] + sum_i32(ds.drop_first())
    }
}

/// The ledger keys are pairwise distinct.
pub open spec fn ledger_keys_distinct(ucs: Seq<UserChallengeV>) -> bool {
    forall|i: int, j: int|
        0 <= i < j < ucs.len() ==> !((#[trigger] ucs[i]).user_id == (#[trigger] ucs[j]).user_id
            && ucs[i].challenge_id == ucs[j].challenge_id)
}

proof fn lemma_sum_take_step(ds: Seq<i32>, k: int)
    requires
        0 <= k <= ds.len() - 1,
        ds.len() > 0,
    ensures
        sum_i32(ds.take(k + 1)) == ds[0] + sum_i32(ds.drop_first().take(k)),
    decreases k,
{
    let t = ds.take(k + 1);
    assert(t.len() == k + 1);
    assert(t[0] == ds[0]);
    assert(t.drop_first() =~= ds.drop_first().take(k));
}

/// Folding upserts over a row that already exists adds every delta onto it
/// and touches nothing else.
proof fn lemma_progress_fold(
    s: StoreV,
    user_id: Seq<char>,
    challenge_id: Seq<char>,
    ds: Seq<i32>,
    now: u64,
    at: int,
)
    requires
        ledger_keys_distinct(s.user_challenges),
        0 <= at < s.user_challenges.len(),
        s.user_challenges[at].user_id == user_id,
        s.user_challenges[at].challenge_id == challenge_id,
        forall|k: int|
            0 <= k <= ds.len() ==> i32::MIN <= s.user_challenges[at].progress + sum_i32(
                #[trigger] ds.take(k),
            ) <= i32::MAX,
    ensures
        ({
            let s2 = spec_add_progress_all(s, user_id, challenge_id, ds, now);
            &&& s2.user_challenges.len() == s.user_challenges.len()
            &&& s2.user_challenges[at].user_id == user_id
            &&& s2.user_challenges[at].challenge_id == challenge_id
            &&& s2.user_challenges[at].progress == s.user_challenges[at].progress + sum_i32(ds)
            &&& ds.len() > 0 ==> s2.user_challenges[at].updated_at == Some(now)
            &&& ds.len() == 0 ==> s2.user_challenges[at] == s.user_challenges[at]
            &&& forall|j: int|
                0 <= j < s.user_challenges.len() && j != at ==> #[trigger] s2.user_challenges[j]
                    == s.user_challenges[j]
            &&& ledger_keys_distinct(s2.user_challenges)
            &&& s2.users == s.users
            &&& s2.translations == s.translations
            &&& s2.challenges == s.challenges
            &&& s2.quizzes == s.quizzes
            &&& s2.questions == s.questions
        }),
    decreases ds.len(),
{
    if ds.len() == 0 {
        assert(ds.take(0) =~= Seq::<i32>::empty());
    } else {
        assert(has_progress(s.user_challenges, user_id, challenge_id));
        let i = progress_index(s.user_challenges, user_id, challenge_id);
        assert(0 <= i < s.user_challenges.len() && s.user_challenges[i].user_id == user_id
            && s.user_challenges[i].challenge_id == challenge_id);
        if i != at {
            assert(!((s.user_challenges[i]).user_id == (s.user_challenges[at]).user_id
                && s.user_challenges[i].challenge_id == s.user_challenges[at].challenge_id));
            assert(false);
        }
        assert(ds.take(1) =~= seq![ds[0]]);
        assert(seq![ds[0]].drop_first() =~= Seq::<i32>::empty());
        assert(sum_i32(Seq::<i32>::empty()) == 0);
        assert(sum_i32(seq![ds[0]]) == ds[0]);
        assert(sum_i32(ds.take(1)) == ds[0]);
        assert(ds.take(0) =~= Seq::<i32>::empty());
        let p1 = (s.user_challenges[at].progress + ds[0]) as i32;
        let s1 = spec_add_progress(s, user_id, challenge_id, ds[0], now);
        assert(s1.user_challenges == s.user_challenges.update(
            at,
            progress_row(user_id, challenge_id, p1, now),
        ));
        assert(ledger_keys_distinct(s1.user_challenges)) by {
            assert forall|a: int, b: int| 0 <= a < b < s1.user_challenges.len() implies !((
            #[trigger] s1.user_challenges[a]).user_id == (
            #[trigger] s1.user_challenges[b]).user_id && s1.user_challenges[a].challenge_id
                == s1.user_challenges[b].challenge_id) by {
                assert(!((s.user_challenges[a]).user_id == (s.user_challenges[b]).user_id
                    && s.user_challenges[a].challenge_id == s.user_challenges[b].challenge_id));
            }
        }
        assert forall|k: int|
            0 <= k <= ds.drop_first().len() implies i32::MIN <= s1.user_challenges[at].progress
            + sum_i32(#[trigger] ds.drop_first().take(k)) <= i32::MAX by {
            lemma_sum_take_step(ds, k);
            assert(i32::MIN <= s.user_challenges[at].progress + sum_i32(ds.take(k + 1))
                <= i32::MAX);
        }
        lemma_progress_fold(s1, user_id, challenge_id, ds.drop_first(), now, at);
    }
}

/// Accumulation law of the ledger: starting with no row for the key, a
/// sequence of submissions `d1 .. dn` leaves exactly one `(user, challenge)`
/// row, holding exactly the sum of the deltas, and leaves every other row
/// and every other table untouched. Holds whenever each partial sum stays
/// inside the storable range.
pub proof fn lemma_progress_accumulation(
    s: StoreV,
    user_id: Seq<char>,
    challenge_id: Seq<char>,
    ds: Seq<i32>,
    now: u64,
)
    requires
        s.wf(),
        !has_progress(s.user_challenges, user_id, challenge_id),
        ds.len() > 0,
        forall|k: int| 0 <= k <= ds.len() ==> i32::MIN <= sum_i32(#[trigger] ds.take(k)) <= i32::MAX,
    ensures
        ({
            let s2 = spec_add_progress_all(s, user_id, challenge_id, ds, now);
            let at = s.user_challenges.len() as int;
            &&& s2.user_challenges.len() == s.user_challenges.len() + 1
            &&& s2.user_challenges[at].user_id == user_id
            &&& s2.user_challenges[at].challenge_id == challenge_id
            &&& s2.user_challenges[at].progress == sum_i32(ds)
            &&& forall|j: int|
                0 <= j < s2.user_challenges.len() ==> (((#[trigger] s2.user_challenges[j]).user_id
                    == user_id && s2.user_challenges[j].challenge_id == challenge_id) <==> j == at)
            &&& forall|j: int|
                0 <= j < s.user_challenges.len() ==> #[trigger] s2.user_challenges[j]
                    == s.user_challenges[j]
            &&& s2.users == s.users
            &&& s2.challenges == s.challenges
        }),
{
    let at = s.user_challenges.len() as int;
    let s1 = spec_add_progress(s, user_id, challenge_id, ds[0], now);
    assert(s1.user_challenges == s.user_challenges.push(
        progress_row(user_id, challenge_id, ds[0], now),
    ));
    assert(ledger_keys_distinct(s1.user_challenges)) by {
        assert forall|a: int, b: int| 0 <= a < b < s1.user_challenges.len() implies !((
        #[trigger] s1.user_challenges[a]).user_id == (#[trigger] s1.user_challenges[b]).user_id
            && s1.user_challenges[a].challenge_id == s1.user_challenges[b].challenge_id) by {
            if b < at {
                assert(!((s.user_challenges[a]).user_id == (s.user_challenges[b]).user_id
                    && s.user_challenges[a].challenge_id == s.user_challenges[b].challenge_id));
            } else {
                assert(s1.user_challenges[b] == progress_row(user_id, challenge_id, ds[0], now));
                assert(s1.user_challenges[a] == s.user_challenges[a]);
                if s.user_challenges[a].user_id == user_id && s.user_challenges[a].challenge_id
                    == challenge_id {
                    assert(has_progress(s.user_challenges, user_id, challenge_id));
                }
            }
        }
    }
    assert(ds.take(1) =~= seq![ds[0]]);
    assert(seq![ds[0]].drop_first() =~= Seq::<i32>::empty());
    assert(sum_i32(Seq::<i32>::empty()) == 0);
    assert(sum_i32(seq![ds[0]]) == ds[0]);
    assert(sum_i32(ds.take(1)) == ds[0]);
    assert forall|k: int|
        0 <= k <= ds.drop_first().len() implies i32::MIN <= s1.user_challenges[at].progress
        + sum_i32(#[trigger] ds.drop_first().take(k)) <= i32::MAX by {
        lemma_sum_take_step(ds, k);
        assert(i32::MIN <= sum_i32(ds.take(k + 1)) <= i32::MAX);
    }
    lemma_progress_fold(s1, user_id, challenge_id, ds.drop_first(), now, at);
    let s2 = spec_add_progress_all(s, user_id, challenge_id, ds, now);
    assert(s2 == spec_add_progress_all(s1, user_id, challenge_id, ds.drop_first(), now));
    assert(s2.user_challenges[at].progress == ds[0] + sum_i32(ds.drop_first()));
    assert forall|j: int| 0 <= j < s2.user_challenges.len() implies (((
    #[trigger] s2.user_challenges[j]).user_id == user_id && s2.user_challenges[j].challenge_id
        == challenge_id) <==> j == at) by {
        if j != at {
            assert(s2.user_challenges[j] == s1.user_challenges[j]);
            assert(s1.user_challenges[j] == s.user_challenges[j]);
            if s.user_challenges[j].user_id == user_id && s.user_challenges[j].challenge_id
                == challenge_id {
                assert(has_progress(s.user_challenges, user_id, challenge_id));
            }
        }
    }
}

} // verus!
