use vstd::prelude::*;
use crate::entities::challenge::{Challenge, UserChallenge, UserChallengeV};
use crate::ops::challenge::{
    add_progress, challenge_row, delete_progress, get_challenge, get_challenges,
    get_user_challenges, insert_challenge, joined_challenge, progress_row,
};
use crate::ops::quiz::new_translation;
use crate::security::JWTAuthorization;
use crate::store::{
    challenge_index, has_challenge_id, has_progress, has_translation_id, has_user_id,
    progress_index, Store,
};

verus! {

/// The challenge and progress-ledger endpoints.
pub struct ChallengeAPI;

pub enum CreateChallengeResponse {
    Success(String),
    Internal,
}

pub enum GetChallengeResponse {
    Success(Challenge),
    Internal,
    NotFound,
}

pub struct AddProgressRequest {
    pub progress: i32,
}

pub enum AddProgressResponse {
    Success(UserChallenge),
    Internal,
    NotFound,
}

pub enum GetUserChallengesResponse {
    Success(Vec<UserChallenge>),
    Internal,
}

pub enum GetChallengesResponse {
    Success(Vec<Challenge>),
    Internal,
}

pub enum DeleteProgressResponse {
    Success,
    NotFound,
    Internal,
}

impl ChallengeAPI {
    /// Creates a challenge on behalf of an authenticated actor: the
    /// description translation and the challenge row land as one atomic
    /// unit, and an internal fault writes nothing.
    pub fn create_challenge(
        &self,
        store: &mut Store,
        req: &Challenge,
        auth: &JWTAuthorization,
    ) -> (r: CreateChallengeResponse)
        requires
            old(store)@.wf(),
        ensures
            final(store)@.wf(),
            r is Internal ==> final(store)@ == old(store)@ && (old(store)@.translations.len() > 0
                || old(store)@.challenges.len() > 0),
            r matches CreateChallengeResponse::Success(id) ==> exists|tid: Seq<char>|
                #![auto]
                !has_translation_id(old(store)@.translations, tid) && !has_challenge_id(
                    old(store)@.challenges,
                    id@,
                ) && final(store)@ == old(store)@.with_translations(
                    old(store)@.translations.push(new_translation(tid, None, req@.description)),
                ).with_challenges(old(store)@.challenges.push(challenge_row(id@, req@, tid))),
    {
        match insert_challenge(store, req) {
            Ok(id) => CreateChallengeResponse::Success(id),
            Err(_) => CreateChallengeResponse::Internal,
        }
    }

    /// Fetches one challenge, joined with its description text.
    pub fn get_challenge(&self, store: &Store, id: &str, auth: &JWTAuthorization) -> (r:
        GetChallengeResponse)
        requires
            store@.wf(),
        ensures
            has_challenge_id(store@.challenges, id@) ==> (r matches GetChallengeResponse::Success(c) && c@
                == joined_challenge(store@, challenge_index(store@.challenges, id@))),
            !has_challenge_id(store@.challenges, id@) ==> r is NotFound,
    {
        match get_challenge(store, id) {
            Some(c) => GetChallengeResponse::Success(c),
            None => GetChallengeResponse::NotFound,
        }
    }

    /// Submits progress for the authenticated user toward one challenge:
    /// merge-add upsert keyed by `(user, challenge)`. `NotFound` reports a
    /// challenge id that is not a live reference.
    pub fn add_progress(
        &self,
        store: &mut Store,
        id: &str,
        auth: &JWTAuthorization,
        req: &AddProgressRequest,
        now: u64,
    ) -> (r: AddProgressResponse)
        requires
            old(store)@.wf(),
        ensures
            final(store)@.wf(),
            (!has_user_id(old(store)@.users, auth.0.id@) || !has_challenge_id(
                old(store)@.challenges,
                id@,
            )) ==> r is NotFound && final(store)@ == old(store)@,
            (has_user_id(old(store)@.users, auth.0.id@) && has_challenge_id(
                old(store)@.challenges,
                id@,
            ) && !has_progress(old(store)@.user_challenges, auth.0.id@, id@)) ==> (r matches AddProgressResponse::Success(uc)
                && uc@ == progress_row(auth.0.id@, id@, req.progress, now)) && final(store)@ == old(store)@.with_user_challenges(
                old(store)@.user_challenges.push(progress_row(auth.0.id@, id@, req.progress, now)),
            ),
            (has_user_id(old(store)@.users, auth.0.id@) && has_challenge_id(
                old(store)@.challenges,
                id@,
            ) && has_progress(old(store)@.user_challenges, auth.0.id@, id@)) ==> ({
                let i = progress_index(old(store)@.user_challenges, auth.0.id@, id@);
                let total = old(store)@.user_challenges[i].progress + req.progress;
                &&& (i32::MIN <= total <= i32::MAX) ==> (r matches AddProgressResponse::Success(uc) && uc@ == progress_row(
                    auth.0.id@,
                    id@,
                    total as i32,
                    now,
                )) && final(store)@ == old(store)@.with_user_challenges(
                    old(store)@.user_challenges.update(
                        i,
                        progress_row(auth.0.id@, id@, total as i32, now),
                    ),
                )
                &&& !(i32::MIN <= total <= i32::MAX) ==> r is Internal && final(store)@ == old(
                    store,
                )@
            }),
    {
        match add_progress(store, auth.0.id.as_str(), id, req.progress, now) {
            Ok(Some(uc)) => AddProgressResponse::Success(uc),
            Ok(None) => AddProgressResponse::NotFound,
            Err(_) => AddProgressResponse::Internal,
        }
    }

    /// The authenticated user's ledger rows, narrowed to one challenge when
    /// a challenge id is given.
    pub fn get_user_challenges(
        &self,
        store: &Store,
        challenge_id: &Option<String>,
        auth: &JWTAuthorization,
    ) -> (r: GetUserChallengesResponse)
        ensures
            r matches GetUserChallengesResponse::Success(v) && v.deep_view() == store@.user_challenges.filter(
                |uc: UserChallengeV|
                    uc.user_id == auth.0.id@ && (challenge_id.deep_view() matches Some(c)
                        ==> uc.challenge_id == c),
            ),
    {
        GetUserChallengesResponse::Success(get_user_challenges(store, auth.0.id.as_str(), challenge_id))
    }

    /// Every challenge, joined with its description text.
    pub fn get_challenges(&self, store: &Store) -> (r: GetChallengesResponse)
        requires
            store@.wf(),
        ensures
            r matches GetChallengesResponse::Success(v) && v.deep_view().len() == store@.challenges.len() && (forall|i: int|
                0 <= i < store@.challenges.len() ==> v.deep_view()[i] == joined_challenge(
                    store@,
                    i,
                )),
    {
        GetChallengesResponse::Success(get_challenges(store))
    }

    /// Removes the authenticated user's ledger row for one challenge.
    pub fn delete_progress(&self, store: &mut Store, id: &str, auth: &JWTAuthorization) -> (r:
        DeleteProgressResponse)
        requires
            old(store)@.wf(),
        ensures
            final(store)@.wf(),
            !has_progress(old(store)@.user_challenges, auth.0.id@, id@) ==> r is NotFound && final(store)@ == old(store)@,
            has_progress(old(store)@.user_challenges, auth.0.id@, id@) ==> r is Success && final(store)@
                == old(store)@.with_user_challenges(
                old(store)@.user_challenges.remove(
                    progress_index(old(store)@.user_challenges, auth.0.id@, id@),
                ),
            ),
    {
        match delete_progress(store, auth.0.id.as_str(), id) {
            Some(_) => DeleteProgressResponse::Success,
            None => DeleteProgressResponse::NotFound,
        }
    }
}

} // verus!
