use vstd::prelude::*;
use crate::ops::user::{User, UserV};
use crate::entities::challenge::{ChallengeType, UserChallenge, UserChallengeV};
use crate::entities::quiz::{Translation, TranslationV};

verus! {

/// A challenge row as persisted: `description` holds the id of the
/// translation carrying the description text.
#[derive(Debug)]
pub struct StoredChallenge {
    pub id: String,
    pub challenge_type: ChallengeType,
    pub goal: i32,
    pub title: String,
    pub category: String,
    pub description: String,
}

pub ghost struct StoredChallengeV {
    pub id: Seq<char>,
    pub challenge_type: ChallengeType,
    pub goal: i32,
    pub title: Seq<char>,
    pub category: Seq<char>,
    pub description: Seq<char>,
}

impl View for StoredChallenge {
    type V = StoredChallengeV;

    open spec fn view(&self) -> StoredChallengeV {
        StoredChallengeV {
            id: self.id@,
            challenge_type: self.challenge_type,
            goal: self.goal,
            title: self.title@,
            category: self.category@,
            description: self.description@,
        }
    }
}

impl DeepView for StoredChallenge {
    type V = StoredChallengeV;

    open spec fn deep_view(&self) -> StoredChallengeV {
        self.view()
    }
}

/// A quiz row as persisted: `title` holds the id of the translation carrying
/// the title text.
#[derive(Debug)]
pub struct StoredQuiz {
    pub id: String,
    pub title: String,
    pub created_at: u64,
    pub created_by: String,
}

pub ghost struct StoredQuizV {
    pub id: Seq<char>,
    pub title: Seq<char>,
    pub created_at: u64,
    pub created_by: Seq<char>,
}

impl View for StoredQuiz {
    type V = StoredQuizV;

    open spec fn view(&self) -> StoredQuizV {
        StoredQuizV {
            id: self.id@,
            title: self.title@,
            created_at: self.created_at,
            created_by: self.created_by@,
        }
    }
}

impl DeepView for StoredQuiz {
    type V = StoredQuizV;

    open spec fn deep_view(&self) -> StoredQuizV {
        self.view()
    }
}

/// A question row as persisted: `question` holds a translation id and `data`
/// the serialized tagged payload.
#[derive(Debug)]
pub struct StoredQuestion {
    pub id: String,
    pub quiz_id: String,
    pub question: String,
    pub data: String,
}

pub ghost struct StoredQuestionV {
    pub id: Seq<char>,
    pub quiz_id: Seq<char>,
    pub question: Seq<char>,
    pub data: Seq<char>,
}

impl View for StoredQuestion {
    type V = StoredQuestionV;

    open spec fn view(&self) -> StoredQuestionV {
        StoredQuestionV {
            id: self.id@,
            quiz_id: self.quiz_id@,
            question: self.question@,
            data: self.data@,
        }
    }
}

impl DeepView for StoredQuestion {
    type V = StoredQuestionV;

    open spec fn deep_view(&self) -> StoredQuestionV {
        self.view()
    }
}

/// The state all operations read and write: one vector per table, in
/// insertion order.
#[derive(Debug)]
pub struct Store {
    pub users: Vec<User>,
    pub translations: Vec<Translation>,
    pub challenges: Vec<StoredChallenge>,
    pub user_challenges: Vec<UserChallenge>,
    pub quizzes: Vec<StoredQuiz>,
    pub questions: Vec<StoredQuestion>,
}

pub ghost struct StoreV {
    pub users: Seq<UserV>,
    pub translations: Seq<TranslationV>,
    pub challenges: Seq<StoredChallengeV>,
    pub user_challenges: Seq<UserChallengeV>,
    pub quizzes: Seq<StoredQuizV>,
    pub questions: Seq<StoredQuestionV>,
}

impl View for Store {
    type V = StoreV;

    open spec fn view(&self) -> StoreV {
        StoreV {
            users: self.users.deep_view(),
            translations: self.translations.deep_view(),
            challenges: self.challenges.deep_view(),
            user_challenges: self.user_challenges.deep_view(),
            quizzes: self.quizzes.deep_view(),
            questions: self.questions.deep_view(),
        }
    }
}

/// A non-guest user carries both an email and a credential digest; a guest
/// carries neither.
pub open spec fn user_shape_ok(u: UserV) -> bool {
    if u.is_guest {
        u.hash is None && u.email is None
    } else {
        u.hash is Some && u.email is Some
    }
}

pub open spec fn has_user_id(users: Seq<UserV>, id: Seq<char>) -> bool {
    exists|i: int| 0 <= i < users.len() && (#[trigger] users[i]).id == id
}

pub open spec fn user_index(users: Seq<UserV>, id: Seq<char>) -> int {
    choose|i: int| 0 <= i < users.len() && (#[trigger] users[i]).id == id
}

pub open spec fn email_taken(users: Seq<UserV>, email: Seq<char>) -> bool {
    exists|i: int| 0 <= i < users.len() && (#[trigger] users[i]).email == Some(email)
}

pub open spec fn email_index(users: Seq<UserV>, email: Seq<char>) -> int {
    choose|i: int| 0 <= i < users.len() && (#[trigger] users[i]).email == Some(email)
}

/// Whether some user other than the one at `except` holds `email`.
pub open spec fn email_taken_by_other(users: Seq<UserV>, email: Seq<char>, except: int) -> bool {
    exists|i: int| 0 <= i < users.len() && i != except && (#[trigger] users[i]).email == Some(
        email,
    )
}

pub open spec fn has_translation_id(ts: Seq<TranslationV>, id: Seq<char>) -> bool {
    exists|i: int| 0 <= i < ts.len() && (#[trigger] ts[i]).id == id
}

pub open spec fn translation_index(ts: Seq<TranslationV>, id: Seq<char>) -> int {
    choose|i: int| 0 <= i < ts.len() && (#[trigger] ts[i]).id == id
}

pub open spec fn has_challenge_id(cs: Seq<StoredChallengeV>, id: Seq<char>) -> bool {
    exists|i: int| 0 <= i < cs.len() && (#[trigger] cs[i]).id == id
}

pub open spec fn challenge_index(cs: Seq<StoredChallengeV>, id: Seq<char>) -> int {
    choose|i: int| 0 <= i < cs.len() && (#[trigger] cs[i]).id == id
}

pub open spec fn has_quiz_id(qs: Seq<StoredQuizV>, id: Seq<char>) -> bool {
    exists|i: int| 0 <= i < qs.len() && (#[trigger] qs[i]).id == id
}

pub open spec fn quiz_index(qs: Seq<StoredQuizV>, id: Seq<char>) -> int {
    choose|i: int| 0 <= i < qs.len() && (#[trigger] qs[i]).id == id
}

pub open spec fn has_question_id(qs: Seq<StoredQuestionV>, id: Seq<char>) -> bool {
    exists|i: int| 0 <= i < qs.len() && (#[trigger] qs[i]).id == id
}

pub open spec fn has_progress(ucs: Seq<UserChallengeV>, user_id: Seq<char>, challenge_id: Seq<char>) -> bool {
    exists|i: int| 0 <= i < ucs.len() && (#[trigger] ucs[i]).user_id == user_id && ucs[i].challenge_id == challenge_id
}

pub open spec fn progress_index(ucs: Seq<UserChallengeV>, user_id: Seq<char>, challenge_id: Seq<char>) -> int {
    choose|i: int| 0 <= i < ucs.len() && (#[trigger] ucs[i]).user_id == user_id && ucs[i].challenge_id == challenge_id
}

impl StoreV {
    /// Every id is unique in its table, `(user_id, challenge_id)` is unique
    /// in the ledger, non-null emails are unique, every user satisfies the
    /// guest invariant, and every reference points at an existing row.
    pub open spec fn wf(self) -> bool {
        &&& forall|i: int, j: int|
            0 <= i < j < self.users.len() ==> (#[trigger] self.users[i]).id
                != (#[trigger] self.users[j]).id
        &&& forall|i: int, j: int|
            0 <= i < j < self.users.len() && (#[trigger] self.users[i]).email is Some && (
            #[trigger] self.users[j]).email is Some ==> self.users[i].email != self.users[j].email
        &&& forall|i: int| 0 <= i < self.users.len() ==> user_shape_ok(#[trigger] self.users[i])
        &&& forall|i: int, j: int|
            0 <= i < j < self.translations.len() ==> (#[trigger] self.translations[i]).id
                != (#[trigger] self.translations[j]).id
        &&& forall|i: int, j: int|
            0 <= i < j < self.challenges.len() ==> (#[trigger] self.challenges[i]).id
                != (#[trigger] self.challenges[j]).id
        &&& forall|i: int, j: int|
            0 <= i < j < self.quizzes.len() ==> (#[trigger] self.quizzes[i]).id
                != (#[trigger] self.quizzes[j]).id
        &&& forall|i: int, j: int|
            0 <= i < j < self.questions.len() ==> (#[trigger] self.questions[i]).id
                != (#[trigger] self.questions[j]).id
        &&& forall|i: int, j: int|
            0 <= i < j < self.user_challenges.len() ==> !((#[trigger] self.user_challenges[i]).user_id
                == (#[trigger] self.user_challenges[j]).user_id && self.user_challenges[i].challenge_id
                == self.user_challenges[j].challenge_id)
        &&& forall|i: int|
            0 <= i < self.challenges.len() ==> has_translation_id(
                self.translations,
                (#[trigger] self.challenges[i]).description,
            )
        &&& forall|i: int|
            0 <= i < self.quizzes.len() ==> has_translation_id(
                self.translations,
                (#[trigger] self.quizzes[i]).title,
            ) && has_user_id(self.users, self.quizzes[i].created_by)
        &&& forall|i: int|
            0 <= i < self.questions.len() ==> has_quiz_id(
                self.quizzes,
                (#[trigger] self.questions[i]).quiz_id,
            ) && has_translation_id(self.translations, self.questions[i].question)
        &&& forall|i: int|
            0 <= i < self.user_challenges.len() ==> has_user_id(
                self.users,
                (#[trigger] self.user_challenges[i]).user_id,
            ) && has_challenge_id(self.challenges, self.user_challenges[i].challenge_id)
    }
}

impl Store {
    /// An empty store; trivially well-formed.
    pub fn new() -> (r: Store)
        ensures
            r@.wf(),
            r@.users.len() == 0,
            r@.translations.len() == 0,
            r@.challenges.len() == 0,
            r@.user_challenges.len() == 0,
            r@.quizzes.len() == 0,
            r@.questions.len() == 0,
    {
        Store {
            users: Vec::new(),
            translations: Vec::new(),
            challenges: Vec::new(),
            user_challenges: Vec::new(),
            quizzes: Vec::new(),
            questions: Vec::new(),
        }
    }
}

/// Relies on uuid::Uuid::new_v4 and its hyphenated display form: a freshly
/// drawn random identifier. Nothing is assumed of the value drawn; panics
/// only if the operating system's random source fails.
#[verifier::external_body]
pub(crate) fn new_uuid() -> String {
    uuid::Uuid::new_v4().to_string()
}

impl StoreV {
    pub open spec fn with_users(self, users: Seq<UserV>) -> StoreV {
        StoreV {
            users,
            translations: self.translations,
            challenges: self.challenges,
            user_challenges: self.user_challenges,
            quizzes: self.quizzes,
            questions: self.questions,
        }
    }

    pub open spec fn with_translations(self, translations: Seq<TranslationV>) -> StoreV {
        StoreV {
            users: self.users,
            translations,
            challenges: self.challenges,
            user_challenges: self.user_challenges,
            quizzes: self.quizzes,
            questions: self.questions,
        }
    }

    pub open spec fn with_challenges(self, challenges: Seq<StoredChallengeV>) -> StoreV {
        StoreV {
            users: self.users,
            translations: self.translations,
            challenges,
            user_challenges: self.user_challenges,
            quizzes: self.quizzes,
            questions: self.questions,
        }
    }

    pub open spec fn with_user_challenges(self, user_challenges: Seq<UserChallengeV>) -> StoreV {
        StoreV {
            users: self.users,
            translations: self.translations,
            challenges: self.challenges,
            user_challenges,
            quizzes: self.quizzes,
            questions: self.questions,
        }
    }

    pub open spec fn with_quizzes(self, quizzes: Seq<StoredQuizV>) -> StoreV {
        StoreV {
            users: self.users,
            translations: self.translations,
            challenges: self.challenges,
            user_challenges: self.user_challenges,
            quizzes,
            questions: self.questions,
        }
    }

    pub open spec fn with_questions(self, questions: Seq<StoredQuestionV>) -> StoreV {
        StoreV {
            users: self.users,
            translations: self.translations,
            challenges: self.challenges,
            user_challenges: self.user_challenges,
            quizzes: self.quizzes,
            questions,
        }
    }
}

/// Pushing onto a vector pushes the element's view onto the deep view.
pub proof fn lemma_deep_push<T: DeepView>(v: Vec<T>, prev: Seq<T>, prevdeep: Seq<T::V>, x: T)
    requires
        v@ == prev.push(x),
        prevdeep.len() == prev.len(),
        forall|i: int| 0 <= i < prev.len() ==> prevdeep[i] == (#[trigger] prev[i]).deep_view(),
    ensures
        v.deep_view() == prevdeep.push(x.deep_view()),
{
    assert forall|k: int| 0 <= k < v@.len() implies v.deep_view()[k] == prevdeep.push(
        x.deep_view(),
    )[k] by {
        if k < prev.len() {
            assert(v@[k] == prev[k]);
        } else {
            assert(v@[k] == x);
        }
    }
    assert(v.deep_view() =~= prevdeep.push(x.deep_view()));
}

/// Replacing one element of a vector updates the deep view at that index.
pub proof fn lemma_deep_update<T: DeepView>(
    v: Vec<T>,
    prev: Seq<T>,
    prevdeep: Seq<T::V>,
    i: int,
    x: T,
)
    requires
        0 <= i < prev.len(),
        v@ == prev.update(i, x),
        prevdeep.len() == prev.len(),
        forall|k: int| 0 <= k < prev.len() ==> prevdeep[k] == (#[trigger] prev[k]).deep_view(),
    ensures
        v.deep_view() == prevdeep.update(i, x.deep_view()),
{
    assert forall|k: int| 0 <= k < v@.len() implies v.deep_view()[k] == prevdeep.update(
        i,
        x.deep_view(),
    )[k] by {
        if k != i {
            assert(v@[k] == prev[k]);
        } else {
            assert(v@[k] == x);
        }
    }
    assert(v.deep_view() =~= prevdeep.update(i, x.deep_view()));
}

/// Removing one element of a vector removes it from the deep view.
pub proof fn lemma_deep_remove<T: DeepView>(
    v: Vec<T>,
    prev: Seq<T>,
    prevdeep: Seq<T::V>,
    i: int,
)
    requires
        0 <= i < prev.len(),
        v@ == prev.remove(i),
        prevdeep.len() == prev.len(),
        forall|k: int| 0 <= k < prev.len() ==> prevdeep[k] == (#[trigger] prev[k]).deep_view(),
    ensures
        v.deep_view() == prevdeep.remove(i),
{
    assert forall|k: int| 0 <= k < v@.len() implies v.deep_view()[k] == prevdeep.remove(i)[k] by {
        if k < i {
            assert(v@[k] == prev[k]);
        } else {
            assert(v@[k] == prev[k + 1]);
        }
    }
    assert(v.deep_view() =~= prevdeep.remove(i));
}

/// A user id that is present stays present when a user is appended.
pub proof fn lemma_has_user_id_push(users: Seq<UserV>, u: UserV)
    ensures
        forall|id: Seq<char>| has_user_id(users, id) ==> #[trigger] has_user_id(
            users.push(u),
            id,
        ),
        has_user_id(users.push(u), u.id),
{
    assert forall|id: Seq<char>| has_user_id(users, id) implies #[trigger] has_user_id(
        users.push(u),
        id,
    ) by {
        let w = choose|i: int| 0 <= i < users.len() && (#[trigger] users[i]).id == id;
        assert(users.push(u)[w] == users[w]);
    }
    assert(users.push(u)[users.len() as int] == u);
}

/// Two user tables whose ids agree pointwise hold the same ids.
pub proof fn lemma_has_user_id_pointwise(a: Seq<UserV>, b: Seq<UserV>)
    requires
        a.len() == b.len(),
        forall|k: int| 0 <= k < a.len() ==> (#[trigger] a[k]).id == (#[trigger] b[k]).id,
    ensures
        forall|id: Seq<char>| #[trigger] has_user_id(a, id) == has_user_id(b, id),
{
    assert forall|id: Seq<char>| #[trigger] has_user_id(a, id) == has_user_id(b, id) by {
        if has_user_id(a, id) {
            let w = choose|i: int| 0 <= i < a.len() && (#[trigger] a[i]).id == id;
            assert(b[w].id == id);
        }
        if has_user_id(b, id) {
            let w = choose|i: int| 0 <= i < b.len() && (#[trigger] b[i]).id == id;
            assert(a[w].id == id);
        }
    }
}

/// A translation id that is present stays present when a row is appended.
pub proof fn lemma_has_translation_id_push(ts: Seq<TranslationV>, t: TranslationV)
    ensures
        forall|id: Seq<char>| has_translation_id(ts, id) ==> #[trigger] has_translation_id(
            ts.push(t),
            id,
        ),
        has_translation_id(ts.push(t), t.id),
{
    assert forall|id: Seq<char>| has_translation_id(ts, id) implies #[trigger] has_translation_id(
        ts.push(t),
        id,
    ) by {
        let w = choose|i: int| 0 <= i < ts.len() && (#[trigger] ts[i]).id == id;
        assert(ts.push(t)[w] == ts[w]);
    }
    assert(ts.push(t)[ts.len() as int] == t);
}

/// A challenge id that is present stays present when a row is appended.
pub proof fn lemma_has_challenge_id_push(cs: Seq<StoredChallengeV>, c: StoredChallengeV)
    ensures
        forall|id: Seq<char>| has_challenge_id(cs, id) ==> #[trigger] has_challenge_id(
            cs.push(c),
            id,
        ),
        has_challenge_id(cs.push(c), c.id),
{
    assert forall|id: Seq<char>| has_challenge_id(cs, id) implies #[trigger] has_challenge_id(
        cs.push(c),
        id,
    ) by {
        let w = choose|i: int| 0 <= i < cs.len() && (#[trigger] cs[i]).id == id;
        assert(cs.push(c)[w] == cs[w]);
    }
    assert(cs.push(c)[cs.len() as int] == c);
}

/// A quiz id that is present stays present when a row is appended.
pub proof fn lemma_has_quiz_id_push(qs: Seq<StoredQuizV>, q: StoredQuizV)
    ensures
        forall|id: Seq<char>| has_quiz_id(qs, id) ==> #[trigger] has_quiz_id(qs.push(q), id),
        has_quiz_id(qs.push(q), q.id),
{
    assert forall|id: Seq<char>| has_quiz_id(qs, id) implies #[trigger] has_quiz_id(
        qs.push(q),
        id,
    ) by {
        let w = choose|i: int| 0 <= i < qs.len() && (#[trigger] qs[i]).id == id;
        assert(qs.push(q)[w] == qs[w]);
    }
    assert(qs.push(q)[qs.len() as int] == q);
}

} // verus!
