use vstd::prelude::*;
use crate::entities::quiz::{APIQuiz, DBQuiz, QuizV};
use crate::ops::quiz::{
    get_quiz, insert_quiz, questions_parse_ok, quiz_insert_witness, read_quiz,
};
use crate::security::JWTAuthorization;
use crate::store::{has_quiz_id, has_user_id, Store};

verus! {

/// The quiz aggregate endpoints.
pub struct QuizAPI;

/// The optional language-code query on quiz retrieval; not yet wired to
/// filtering, retrieval is single-locale.
pub struct LocaleQuery {
    pub lang_code: Option<String>,
}

pub enum GetQuizResponse {
    Success(APIQuiz),
    NotFound,
    Internal,
}

pub enum CreateQuizResponse {
    Success(String),
    Internal,
}

/// The candidate aggregate with its creator replaced by the authenticated
/// identity.
pub open spec fn with_creator(q: QuizV, creator: Seq<char>) -> QuizV {
    QuizV {
        id: q.id,
        title: q.title,
        created_at: q.created_at,
        created_by: creator,
        questions: q.questions,
    }
}

impl QuizAPI {
    /// Persists a quiz and its questions as one atomic unit, owned by the
    /// authenticated identity; on failure nothing is written.
    pub fn create_quiz(
        &self,
        store: &mut Store,
        req: &APIQuiz,
        auth: &JWTAuthorization,
        now: u64,
    ) -> (r: CreateQuizResponse)
        requires
            old(store)@.wf(),
        ensures
            final(store)@.wf(),
            r is Internal ==> final(store)@ == old(store)@ && (!has_user_id(
                old(store)@.users,
                auth.0.id@,
            ) || old(store)@.translations.len() > 0 || old(store)@.quizzes.len() > 0 || old(
                store,
            )@.questions.len() > 0 || req@.questions.len() > 0),
            r matches CreateQuizResponse::Success(id) ==> has_user_id(old(store)@.users, auth.0.id@) && exists|
                title_tid: Seq<char>,
                tids: Seq<Seq<char>>,
                qids: Seq<Seq<char>>,
            | #[trigger] quiz_insert_witness(
                old(store)@,
                final(store)@,
                with_creator(req@, auth.0.id@),
                id@,
                title_tid,
                tids,
                qids,
                now,
            ),
    {
        let mut db_quiz: DBQuiz = req.clone().into_db();
        db_quiz.created_by = auth.0.id.clone();
        proof {
            assert(db_quiz@ == with_creator(req@, auth.0.id@));
        }
        let r0 = match insert_quiz(store, &db_quiz, now) {
            Ok(id) => CreateQuizResponse::Success(id),
            Err(_) => CreateQuizResponse::Internal,
        };
        proof {
            match &r0 {
                CreateQuizResponse::Success(id) => {
                    let (tt, ts, qs): (Seq<char>, Seq<Seq<char>>, Seq<Seq<char>>) = choose|
                        tt: Seq<char>,
                        ts: Seq<Seq<char>>,
                        qs: Seq<Seq<char>>,
                    | quiz_insert_witness(old(store)@, store@, db_quiz@, id@, tt, ts, qs, now);
                    assert(quiz_insert_witness(
                        old(store)@,
                        store@,
                        with_creator(req@, auth.0.id@),
                        id@,
                        tt,
                        ts,
                        qs,
                        now,
                    ));
                },
                _ => {},
            }
        }
        r0
    }

    /// Fetches and reassembles one quiz aggregate for the interface.
    pub fn get_quiz(
        &self,
        store: &Store,
        id: &str,
        locale_query: &LocaleQuery,
        auth: &JWTAuthorization,
    ) -> (r: GetQuizResponse)
        requires
            store@.wf(),
        ensures
            !has_quiz_id(store@.quizzes, id@) ==> r is NotFound,
            (has_quiz_id(store@.quizzes, id@) && questions_parse_ok(store@, id@)) ==> (r matches GetQuizResponse::Success(q) && q@ == read_quiz(store@, id@)),
            (has_quiz_id(store@.quizzes, id@) && !questions_parse_ok(store@, id@)) ==> r
                is Internal,
    {
        match get_quiz(store, id) {
            Ok(Some(q)) => GetQuizResponse::Success(q.into_api()),
            Ok(None) => GetQuizResponse::NotFound,
            Err(_) => GetQuizResponse::Internal,
        }
    }
}

} // verus!
