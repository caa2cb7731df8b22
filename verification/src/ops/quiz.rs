use vstd::prelude::*;
use crate::fault::Fault;
use crate::entities::quiz::{Translation, TranslationV};
use crate::store::{
    has_challenge_id, has_quiz_id, has_translation_id, has_user_id, has_question_id,
    lemma_deep_push, lemma_has_translation_id_push, lemma_has_quiz_id_push, new_uuid,
    quiz_index, translation_index, Store, StoreV, StoredQuiz, StoredQuizV, StoredQuestion,
    StoredQuestionV,
};
use crate::entities::quiz::{DBQuiz, DBQuizQuestion, QuizQuestionV, QuizV};
use crate::ops::user::find_user_index;
use crate::codec::{decode_question, encode_question, parse_question, ser_question};
use crate::text::str_eq;

verus! {

/// The translation row written for `content` under `id`: an absent language
/// code defaults to the base locale.
pub open spec fn new_translation(
    id: Seq<char>,
    language_code: Option<Seq<char>>,
    content: Seq<char>,
) -> TranslationV {
    TranslationV {
        id,
        language_code: match language_code {
            Some(l) => l,
            None => "en-GB"@,
        },
        content,
    }
}

/// The index of the translation holding `id`, or `None` if no row does.
pub(crate) fn find_translation_index(store: &Store, id: &str) -> (r: Option<usize>)
    ensures
        r matches Some(i) ==> 0 <= i < store@.translations.len() && store@.translations[i as int].id
            == id@,
        r is None ==> !has_translation_id(store@.translations, id@),
{
    let n = store.translations.len();
    let mut i: usize = 0;
    while i < n
        invariant
            i <= n,
            n == store.translations.len(),
            forall|k: int| 0 <= k < i ==> (#[trigger] store@.translations[k]).id != id@,
        decreases n - i,
    {
        if str_eq(store.translations[i].id.as_str(), id) {
            return Some(i);
        }
        i = i + 1;
    }
    None
}

/// A fresh translation row keeps the store well-formed.
pub(crate) proof fn lemma_insert_translation_wf(s: StoreV, t: TranslationV)
    requires
        s.wf(),
        !has_translation_id(s.translations, t.id),
    ensures
        s.with_translations(s.translations.push(t)).wf(),
{
    let ts2 = s.translations.push(t);
    let s2 = s.with_translations(ts2);
    assert forall|i: int, j: int| 0 <= i < j < ts2.len() implies (#[trigger] ts2[i]).id != (
    #[trigger] ts2[j]).id by {
        if j < s.translations.len() {
            assert(ts2[i] == s.translations[i] && ts2[j] == s.translations[j]);
        } else {
            assert(ts2[j] == t);
            assert(ts2[i] == s.translations[i]);
            if s.translations[i].id == t.id {
                assert(has_translation_id(s.translations, t.id));
            }
        }
    }
    lemma_has_translation_id_push(s.translations, t);
    assert forall|i: int| 0 <= i < s2.challenges.len() implies has_translation_id(
        s2.translations,
        (#[trigger] s2.challenges[i]).description,
    ) by {
        assert(has_translation_id(s.translations, s.challenges[i].description));
    }
    assert forall|i: int| 0 <= i < s2.quizzes.len() implies has_translation_id(
        s2.translations,
        (#[trigger] s2.quizzes[i]).title,
    ) && has_user_id(s2.users, s2.quizzes[i].created_by) by {
        assert(has_translation_id(s.translations, s.quizzes[i].title));
    }
    assert forall|i: int| 0 <= i < s2.questions.len() implies has_quiz_id(
        s2.quizzes,
        (#[trigger] s2.questions[i]).quiz_id,
    ) && has_translation_id(s2.translations, s2.questions[i].question) by {
        assert(has_translation_id(s.translations, s.questions[i].question));
    }
}

/// Appends an immutable translation record and returns its fresh id. The
/// one failure is a collision of the drawn id (`Conflict`), which needs an
/// existing row to collide with; nothing is written then, and an insert into
/// an empty table always succeeds.
pub fn insert_translation(
    store: &mut Store,
    content: &str,
    language_code: Option<String>,
) -> (r: Result<String, Fault>)
    requires
        old(store)@.wf(),
    ensures
        final(store)@.wf(),
        r matches Ok(id) ==> !has_translation_id(old(store)@.translations, id@) && final(store)@
            == old(store)@.with_translations(
            old(store)@.translations.push(
                new_translation(id@, language_code.deep_view(), content@),
            ),
        ),
        r is Err ==> (r matches Err(f) && f == Fault::Conflict) && final(store)@ == old(store)@
            && old(store)@.translations.len() > 0,
{
    let id = new_uuid();
    if find_translation_index(store, id.as_str()).is_some() {
        return Err(Fault::Conflict);
    }
    let lc = match language_code {
        Some(l) => l,
        None => "en-GB".to_owned(),
    };
    let row = Translation { id: id.clone(), language_code: lc, content: content.to_owned() };
    let ghost olds = store@;
    let ghost prev = store.translations@;
    let ghost prevdeep = store.translations.deep_view();
    let ghost growv = row;
    store.translations.push(row);
    proof {
        lemma_deep_push(store.translations, prev, prevdeep, growv);
        assert(store@.translations =~= olds.translations.push(growv.deep_view()));
        assert(store@ == olds.with_translations(olds.translations.push(growv.deep_view())));
        lemma_insert_translation_wf(olds, growv.deep_view());
    }
    Ok(id)
}


/// The quiz row written for a candidate quiz under `id`, with its title
/// stored as translation `title_tid`.
pub open spec fn quiz_row(
    id: Seq<char>,
    title_tid: Seq<char>,
    created_by: Seq<char>,
    now: u64,
) -> StoredQuizV {
    StoredQuizV { id, title: title_tid, created_at: now, created_by }
}

/// The question row written for question `k` of a quiz: its text stored as
/// translation `tid`, its payload serialized.
pub open spec fn question_row(
    id: Seq<char>,
    quiz_id: Seq<char>,
    tid: Seq<char>,
    data: Seq<char>,
) -> StoredQuestionV {
    StoredQuestionV { id, quiz_id, question: tid, data }
}

/// The index of the quiz holding `id`, or `None` if no row does.
pub(crate) fn find_quiz_index(store: &Store, id: &str) -> (r: Option<usize>)
    ensures
        r matches Some(i) ==> 0 <= i < store@.quizzes.len() && store@.quizzes[i as int].id == id@,
        r is None ==> !has_quiz_id(store@.quizzes, id@),
{
    let n = store.quizzes.len();
    let mut i: usize = 0;
    while i < n
        invariant
            i <= n,
            n == store.quizzes.len(),
            forall|k: int| 0 <= k < i ==> (#[trigger] store@.quizzes[k]).id != id@,
        decreases n - i,
    {
        if str_eq(store.quizzes[i].id.as_str(), id) {
            return Some(i);
        }
        i = i + 1;
    }
    None
}

/// The index of the question holding `id`, or `None` if no row does.
pub(crate) fn find_question_index(store: &Store, id: &str) -> (r: Option<usize>)
    ensures
        r matches Some(i) ==> 0 <= i < store@.questions.len() && store@.questions[i as int].id
            == id@,
        r is None ==> !has_question_id(store@.questions, id@),
{
    let n = store.questions.len();
    let mut i: usize = 0;
    while i < n
        invariant
            i <= n,
            n == store.questions.len(),
            forall|k: int| 0 <= k < i ==> (#[trigger] store@.questions[k]).id != id@,
        decreases n - i,
    {
        if str_eq(store.questions[i].id.as_str(), id) {
            return Some(i);
        }
        i = i + 1;
    }
    None
}

/// A fresh quiz row with a live title translation and creator keeps the
/// store well-formed.
pub(crate) proof fn lemma_insert_quiz_row_wf(s: StoreV, q: StoredQuizV)
    requires
        s.wf(),
        !has_quiz_id(s.quizzes, q.id),
        has_translation_id(s.translations, q.title),
        has_user_id(s.users, q.created_by),
    ensures
        s.with_quizzes(s.quizzes.push(q)).wf(),
{
    let qs2 = s.quizzes.push(q);
    let s2 = s.with_quizzes(qs2);
    assert forall|i: int, j: int| 0 <= i < j < qs2.len() implies (#[trigger] qs2[i]).id != (
    #[trigger] qs2[j]).id by {
        if j < s.quizzes.len() {
            assert(qs2[i] == s.quizzes[i] && qs2[j] == s.quizzes[j]);
        } else {
            assert(qs2[j] == q);
            assert(qs2[i] == s.quizzes[i]);
            if s.quizzes[i].id == q.id {
                assert(has_quiz_id(s.quizzes, q.id));
            }
        }
    }
    lemma_has_quiz_id_push(s.quizzes, q);
    assert forall|i: int| 0 <= i < qs2.len() implies has_translation_id(
        s2.translations,
        (#[trigger] qs2[i]).title,
    ) && has_user_id(s2.users, qs2[i].created_by) by {
        if i < s.quizzes.len() {
            assert(qs2[i] == s.quizzes[i]);
            assert(has_translation_id(s.translations, s.quizzes[i].title));
            assert(has_user_id(s.users, s.quizzes[i].created_by));
        } else {
            assert(qs2[i] == q);
        }
    }
    assert forall|i: int| 0 <= i < s2.questions.len() implies has_quiz_id(
        s2.quizzes,
        (#[trigger] s2.questions[i]).quiz_id,
    ) && has_translation_id(s2.translations, s2.questions[i].question) by {
        assert(has_quiz_id(s.quizzes, s.questions[i].quiz_id));
    }
}

/// A fresh question row referencing a live quiz and translation keeps the
/// store well-formed.
pub(crate) proof fn lemma_insert_question_wf(s: StoreV, q: StoredQuestionV)
    requires
        s.wf(),
        !has_question_id(s.questions, q.id),
        has_quiz_id(s.quizzes, q.quiz_id),
        has_translation_id(s.translations, q.question),
    ensures
        s.with_questions(s.questions.push(q)).wf(),
{
    let qs2 = s.questions.push(q);
    let s2 = s.with_questions(qs2);
    assert forall|i: int, j: int| 0 <= i < j < qs2.len() implies (#[trigger] qs2[i]).id != (
    #[trigger] qs2[j]).id by {
        if j < s.questions.len() {
            assert(qs2[i] == s.questions[i] && qs2[j] == s.questions[j]);
        } else {
            assert(qs2[j] == q);
            assert(qs2[i] == s.questions[i]);
            if s.questions[i].id == q.id {
                assert(has_question_id(s.questions, q.id));
            }
        }
    }
    assert forall|i: int| 0 <= i < qs2.len() implies has_quiz_id(
        s2.quizzes,
        (#[trigger] qs2[i]).quiz_id,
    ) && has_translation_id(s2.translations, qs2[i].question) by {
        if i < s.questions.len() {
            assert(qs2[i] == s.questions[i]);
            assert(has_quiz_id(s.quizzes, s.questions[i].quiz_id));
            assert(has_translation_id(s.translations, s.questions[i].question));
        } else {
            assert(qs2[i] == q);
        }
    }
}

/// Inserts one question under an existing quiz: its text as a translation,
/// then the question row with the serialized payload, as one atomic unit.
/// A missing quiz is rejected as `NotFound` and a drawn-id collision as
/// `Conflict` — possible only against a nonempty table — and on any error
/// nothing at all is written.
pub fn insert_question(store: &mut Store, question: &DBQuizQuestion) -> (r: Result<String, Fault>)
    requires
        old(store)@.wf(),
    ensures
        final(store)@.wf(),
        r is Err ==> final(store)@ == old(store)@,
        !has_quiz_id(old(store)@.quizzes, question@.quiz_id) ==> (r matches Err(f) && f
            == Fault::NotFound),
        r matches Err(f) ==> (has_quiz_id(old(store)@.quizzes, question@.quiz_id) ==> f
            == Fault::Conflict && (old(store)@.translations.len() > 0 || old(
            store,
        )@.questions.len() > 0)),
        r matches Ok(id) ==> has_quiz_id(old(store)@.quizzes, question@.quiz_id) && exists|
            tid: Seq<char>,
        |
            #![auto]
            !has_translation_id(old(store)@.translations, tid) && !has_question_id(
                old(store)@.questions,
                id@,
            ) && final(store)@ == old(store)@.with_translations(
                old(store)@.translations.push(new_translation(tid, None, question@.question)),
            ).with_questions(
                old(store)@.questions.push(
                    question_row(id@, question@.quiz_id, tid, ser_question(question@.data)),
                ),
            ),
{
    if find_quiz_index(store, question.quiz_id.as_str()).is_none() {
        return Err(Fault::NotFound);
    }
    let ghost olds = store@;
    let tid = new_uuid();
    if find_translation_index(store, tid.as_str()).is_some() {
        return Err(Fault::Conflict);
    }
    let qid = new_uuid();
    if find_question_index(store, qid.as_str()).is_some() {
        return Err(Fault::Conflict);
    }
    let ghost tidv = tid@;
    let data = encode_question(&question.data);
    let trow = Translation {
        id: tid.clone(),
        language_code: "en-GB".to_owned(),
        content: question.question.clone(),
    };
    let ghost tprev = store.translations@;
    let ghost tprevdeep = store.translations.deep_view();
    let ghost gtrow = trow;
    store.translations.push(trow);
    proof {
        lemma_deep_push(store.translations, tprev, tprevdeep, gtrow);
        assert(store@.translations =~= olds.translations.push(gtrow.deep_view()));
        assert(store@ == olds.with_translations(olds.translations.push(gtrow.deep_view())));
        lemma_insert_translation_wf(olds, gtrow.deep_view());
        assert(gtrow.deep_view() == new_translation(tidv, None, question@.question));
    }
    let row = StoredQuestion {
        id: qid.clone(),
        quiz_id: question.quiz_id.clone(),
        question: tid,
        data,
    };
    let ghost mids = store@;
    let ghost prev = store.questions@;
    let ghost prevdeep = store.questions.deep_view();
    let ghost growv = row;
    store.questions.push(row);
    proof {
        lemma_deep_push(store.questions, prev, prevdeep, growv);
        assert(store@.questions =~= mids.questions.push(growv.deep_view()));
        assert(store@ == mids.with_questions(mids.questions.push(growv.deep_view())));
        assert(growv.deep_view().question == tidv);
        assert(mids.translations[mids.translations.len() - 1].id == tidv);
        assert(has_translation_id(mids.translations, tidv));
        assert(has_quiz_id(mids.quizzes, growv.deep_view().quiz_id));
        lemma_insert_question_wf(mids, growv.deep_view());
    }
    Ok(qid)
}

/// Whether a string occurs in `v`, by character sequence.
fn contains_str(v: &Vec<String>, s: &str) -> (r: bool)
    ensures
        r == (exists|i: int| 0 <= i < v.deep_view().len() && v.deep_view()[i] == s@),
{
    let n = v.len();
    let mut i: usize = 0;
    while i < n
        invariant
            i <= n,
            n == v.len(),
            forall|k: int| 0 <= k < i ==> v.deep_view()[k] != s@,
        decreases n - i,
    {
        if str_eq(v[i].as_str(), s) {
            assert(v.deep_view()[i as int] == s@);
            return true;
        }
        i = i + 1;
    }
    false
}

/// The translation rows a quiz insert writes: the title first, then one row
/// per question text, in question order.
pub open spec fn quiz_translation_rows(
    title_tid: Seq<char>,
    title: Seq<char>,
    tids: Seq<Seq<char>>,
    questions: Seq<QuizQuestionV>,
) -> Seq<TranslationV> {
    seq![new_translation(title_tid, None, title)] + Seq::new(
        questions.len(),
        |k: int| new_translation(tids[k], None, questions[k].question),
    )
}

/// The question rows a quiz insert writes, in question order.
pub open spec fn quiz_question_rows(
    qids: Seq<Seq<char>>,
    quiz_id: Seq<char>,
    tids: Seq<Seq<char>>,
    questions: Seq<QuizQuestionV>,
) -> Seq<StoredQuestionV> {
    Seq::new(
        questions.len(),
        |k: int| question_row(qids[k], quiz_id, tids[k], ser_question(questions[k].data)),
    )
}

/// All ids drawn for one quiz insert are unused and mutually distinct.
pub open spec fn quiz_ids_fresh(
    s: StoreV,
    quiz_id: Seq<char>,
    title_tid: Seq<char>,
    tids: Seq<Seq<char>>,
    qids: Seq<Seq<char>>,
) -> bool {
    &&& !has_quiz_id(s.quizzes, quiz_id)
    &&& !has_translation_id(s.translations, title_tid)
    &&& forall|k: int|
        0 <= k < tids.len() ==> !has_translation_id(s.translations, #[trigger] tids[k])
            && tids[k] != title_tid
    &&& forall|k: int, l: int| 0 <= k < l < tids.len() ==> tids[k] != tids[l]
    &&& forall|k: int| 0 <= k < qids.len() ==> !has_question_id(s.questions, #[trigger] qids[k])
    &&& forall|k: int, l: int| 0 <= k < l < qids.len() ==> qids[k] != qids[l]
}

/// One witness set of drawn ids explaining a successful quiz insert.
pub open spec fn quiz_insert_witness(
    pre: StoreV,
    post: StoreV,
    q: QuizV,
    id: Seq<char>,
    title_tid: Seq<char>,
    tids: Seq<Seq<char>>,
    qids: Seq<Seq<char>>,
    now: u64,
) -> bool {
    &&& tids.len() == q.questions.len()
    &&& qids.len() == q.questions.len()
    &&& quiz_ids_fresh(pre, id, title_tid, tids, qids)
    &&& post == quiz_insert_result(pre, q, id, title_tid, tids, qids, now)
}

/// The store a successful quiz insert leaves behind.
pub open spec fn quiz_insert_result(
    s: StoreV,
    q: QuizV,
    id: Seq<char>,
    title_tid: Seq<char>,
    tids: Seq<Seq<char>>,
    qids: Seq<Seq<char>>,
    now: u64,
) -> StoreV {
    s.with_translations(
        s.translations + quiz_translation_rows(title_tid, q.title, tids, q.questions),
    ).with_quizzes(s.quizzes.push(quiz_row(id, title_tid, q.created_by, now))).with_questions(
        s.questions + quiz_question_rows(qids, id, tids, q.questions),
    )
}

/// Persists a quiz and its questions as one atomic unit of work: the title
/// translation, the quiz row, and one translation plus one question row per
/// question. A missing creator is rejected as `NotFound` and an id collision
/// as `Conflict`; on any error nothing at all is written.
#[verifier::rlimit(100)]
#[verifier::spinoff_prover]
pub fn insert_quiz(store: &mut Store, quiz: &DBQuiz, now: u64) -> (r: Result<String, Fault>)
    requires
        old(store)@.wf(),
    ensures
        final(store)@.wf(),
        r is Err ==> final(store)@ == old(store)@,
        !has_user_id(old(store)@.users, quiz@.created_by) ==> (r matches Err(f) && f
            == Fault::NotFound),

        r matches Err(f) ==> f == Fault::NotFound || f == Fault::Conflict,
        r matches Err(f) ==> (has_user_id(old(store)@.users, quiz@.created_by) ==> f
            == Fault::Conflict),
        r matches Err(f) ==> (f == Fault::Conflict ==> old(store)@.translations.len() > 0 || old(
            store,
        )@.quizzes.len() > 0 || old(store)@.questions.len() > 0 || quiz@.questions.len() > 0),
        r matches Ok(id) ==> has_user_id(old(store)@.users, quiz@.created_by) && exists|
            title_tid: Seq<char>,
            tids: Seq<Seq<char>>,
            qids: Seq<Seq<char>>,
        |
            #[trigger] quiz_insert_witness(
                old(store)@,
                final(store)@,
                quiz@,
                id@,
                title_tid,
                tids,
                qids,
                now,
            ),
{
    if find_user_index(store, quiz.created_by.as_str()).is_none() {
        return Err(Fault::NotFound);
    }
    let title_tid = new_uuid();
    if find_translation_index(store, title_tid.as_str()).is_some() {
        return Err(Fault::Conflict);
    }
    let quiz_id = new_uuid();
    if find_quiz_index(store, quiz_id.as_str()).is_some() {
        return Err(Fault::Conflict);
    }
    let ghost olds = store@;
    let ghost titlev = title_tid@;
    let ghost quizidv = quiz_id@;
    let ghost qsv = quiz@.questions;
    let nq = quiz.questions.len();
    let mut tids: Vec<String> = Vec::new();
    let mut qids: Vec<String> = Vec::new();
    let mut payloads: Vec<String> = Vec::new();
    let mut k: usize = 0;
    while k < nq
        invariant
            k <= nq,
            nq == quiz.questions.len(),
            qsv == quiz@.questions,
            store@ == olds,
            olds == old(store)@,
            has_user_id(olds.users, quiz@.created_by),
            olds.wf(),
            titlev == title_tid@,
            !has_translation_id(olds.translations, titlev),
            tids.len() == k,
            qids.len() == k,
            payloads.len() == k,
            forall|a: int|
                0 <= a < k ==> !has_translation_id(
                    olds.translations,
                    #[trigger] tids.deep_view()[a],
                ) && tids.deep_view()[a] != titlev,
            forall|a: int, b: int|
                0 <= a < b < k ==> tids.deep_view()[a] != tids.deep_view()[b],
            forall|a: int|
                0 <= a < k ==> !has_question_id(olds.questions, #[trigger] qids.deep_view()[a]),
            forall|a: int, b: int|
                0 <= a < b < k ==> qids.deep_view()[a] != qids.deep_view()[b],
            forall|a: int|
                0 <= a < k ==> payloads.deep_view()[a] == ser_question(qsv[a].data),
        decreases nq - k,
    {
        let tid = new_uuid();
        if find_translation_index(store, tid.as_str()).is_some() {
            return Err(Fault::Conflict);
        }
        if str_eq(tid.as_str(), title_tid.as_str()) {
            return Err(Fault::Conflict);
        }
        if contains_str(&tids, tid.as_str()) {
            return Err(Fault::Conflict);
        }
        let qid = new_uuid();
        if find_question_index(store, qid.as_str()).is_some() {
            return Err(Fault::Conflict);
        }
        if contains_str(&qids, qid.as_str()) {
            return Err(Fault::Conflict);
        }
        let payload = encode_question(&quiz.questions[k].data);
        proof {
            assert(quiz.questions[k as int]@ == qsv[k as int]);
        }
        let ghost tprev = tids@;
        let ghost tprevdeep = tids.deep_view();
        let ghost gtid = tid;
        tids.push(tid);
        let ghost qprev = qids@;
        let ghost qprevdeep = qids.deep_view();
        let ghost gqid = qid;
        qids.push(qid);
        let ghost pprev = payloads@;
        let ghost pprevdeep = payloads.deep_view();
        let ghost gpayload = payload;
        payloads.push(payload);
        k = k + 1;
        proof {
            lemma_deep_push(tids, tprev, tprevdeep, gtid);
            lemma_deep_push(qids, qprev, qprevdeep, gqid);
            lemma_deep_push(payloads, pprev, pprevdeep, gpayload);
        }
    }
    // Commit: all checks passed, so every write below succeeds.
    let ghost tidsv = tids.deep_view();
    let ghost qidsv = qids.deep_view();
    let ghost qtrans = Seq::new(qsv.len(), |a: int| new_translation(tidsv[a], None, qsv[a].question));
    let ghost qrows = Seq::new(
        qsv.len(),
        |a: int| question_row(qidsv[a], quizidv, tidsv[a], ser_question(qsv[a].data)),
    );
    let trow = Translation {
        id: title_tid.clone(),
        language_code: "en-GB".to_owned(),
        content: quiz.title.clone(),
    };
    let ghost tprev = store.translations@;
    let ghost tprevdeep = store.translations.deep_view();
    let ghost gtrow = trow;
    store.translations.push(trow);
    proof {
        lemma_deep_push(store.translations, tprev, tprevdeep, gtrow);
        assert(store@.translations =~= olds.translations.push(gtrow.deep_view()));
        assert(store@ == olds.with_translations(olds.translations.push(gtrow.deep_view())));
        lemma_insert_translation_wf(olds, gtrow.deep_view());
        assert(gtrow.deep_view() == new_translation(titlev, None, quiz@.title));
    }
    let qrow = StoredQuiz {
        id: quiz_id.clone(),
        title: title_tid,
        created_at: now,
        created_by: quiz.created_by.clone(),
    };
    let ghost mids = store@;
    let ghost zprev = store.quizzes@;
    let ghost zprevdeep = store.quizzes.deep_view();
    let ghost gqrow = qrow;
    store.quizzes.push(qrow);
    proof {
        lemma_deep_push(store.quizzes, zprev, zprevdeep, gqrow);
        assert(store@.quizzes =~= mids.quizzes.push(gqrow.deep_view()));
        assert(store@ == mids.with_quizzes(mids.quizzes.push(gqrow.deep_view())));
        assert(gqrow.deep_view() == quiz_row(quizidv, titlev, quiz@.created_by, now));
        assert(mids.translations[mids.translations.len() - 1].id == titlev);
        assert(has_translation_id(mids.translations, titlev));
        assert(mids.users == olds.users);
        lemma_insert_quiz_row_wf(mids, gqrow.deep_view());
    }
    let mut k: usize = 0;
    while k < nq
        invariant
            k <= nq,
            nq == quiz.questions.len(),
            qsv == quiz@.questions,
            qsv.len() == nq,
            olds == old(store)@,
            has_user_id(olds.users, quiz@.created_by),
            olds.wf(),
            store@.wf(),
            tids.len() == nq,
            qids.len() == nq,
            payloads.len() == nq,
            tidsv == tids.deep_view(),
            qidsv == qids.deep_view(),
            quizidv == quiz_id@,
            qtrans == Seq::new(qsv.len(), |a: int| new_translation(tidsv[a], None, qsv[a].question)),
            qrows == Seq::new(
                qsv.len(),
                |a: int| question_row(qidsv[a], quizidv, tidsv[a], ser_question(qsv[a].data)),
            ),
            !has_translation_id(olds.translations, titlev),
            !has_quiz_id(olds.quizzes, quizidv),
            forall|a: int|
                0 <= a < nq ==> !has_translation_id(olds.translations, #[trigger] tidsv[a])
                    && tidsv[a] != titlev,
            forall|a: int, b: int| 0 <= a < b < nq ==> tidsv[a] != tidsv[b],
            forall|a: int| 0 <= a < nq ==> !has_question_id(olds.questions, #[trigger] qidsv[a]),
            forall|a: int, b: int| 0 <= a < b < nq ==> qidsv[a] != qidsv[b],
            forall|a: int| 0 <= a < nq ==> payloads.deep_view()[a] == ser_question(qsv[a].data),
            store@.users == olds.users,
            store@.challenges == olds.challenges,
            store@.user_challenges == olds.user_challenges,
            store@.quizzes == olds.quizzes.push(quiz_row(quizidv, titlev, quiz@.created_by, now)),
            store@.translations =~= olds.translations + seq![
                new_translation(titlev, None, quiz@.title),
            ] + qtrans.take(k as int),
            store@.questions =~= olds.questions + qrows.take(k as int),
        decreases nq - k,
    {
        let trow_k = Translation {
            id: tids[k].clone(),
            language_code: "en-GB".to_owned(),
            content: quiz.questions[k].question.clone(),
        };
        proof {
            assert(tids@[k as int]@ == tidsv[k as int]);
            assert(quiz.questions[k as int]@ == qsv[k as int]);
            assert(trow_k@ == new_translation(tidsv[k as int], None, qsv[k as int].question));
            // the next translation id is fresh in the current table
            assert forall|i: int| 0 <= i < store@.translations.len() implies (
            #[trigger] store@.translations[i]).id != tidsv[k as int] by {
                let base = olds.translations.len() as int;
                if i < base {
                    assert(store@.translations[i] == olds.translations[i]);
                    if olds.translations[i].id == tidsv[k as int] {
                        assert(has_translation_id(olds.translations, tidsv[k as int]));
                    }
                } else if i == base {
                    assert(store@.translations[i].id == titlev);
                } else {
                    assert(store@.translations[i] == qtrans.take(k as int)[i - base - 1]);
                    assert(store@.translations[i].id == tidsv[i - base - 1]);
                }
            }
            if has_translation_id(store@.translations, tidsv[k as int]) {
                let w = choose|i: int|
                    0 <= i < store@.translations.len() && (#[trigger] store@.translations[i]).id
                        == tidsv[k as int];
                assert(false);
            }
        }
        let ghost aprev = store.translations@;
        let ghost aprevdeep = store.translations.deep_view();
        let ghost gtrow_k = trow_k;
        let ghost smid = store@;
        store.translations.push(trow_k);
        proof {
            lemma_deep_push(store.translations, aprev, aprevdeep, gtrow_k);
            assert(store@.translations =~= smid.translations.push(gtrow_k.deep_view()));
            assert(store@ == smid.with_translations(smid.translations.push(gtrow_k.deep_view())));
            lemma_insert_translation_wf(smid, gtrow_k.deep_view());
            assert(qtrans.take(k as int + 1) =~= qtrans.take(k as int).push(
                new_translation(tidsv[k as int], None, qsv[k as int].question),
            ));
            assert(store@.translations =~= olds.translations + seq![
                new_translation(titlev, None, quiz@.title),
            ] + qtrans.take(k as int + 1));
        }
        let qrow_k = StoredQuestion {
            id: qids[k].clone(),
            quiz_id: quiz_id.clone(),
            question: tids[k].clone(),
            data: payloads[k].clone(),
        };
        proof {
            assert(qids@[k as int]@ == qidsv[k as int]);
            assert(payloads@[k as int]@ == payloads.deep_view()[k as int]);
            assert(qrow_k@ == question_row(
                qidsv[k as int],
                quizidv,
                tidsv[k as int],
                ser_question(qsv[k as int].data),
            ));
            // the next question id is fresh in the current table
            assert forall|i: int| 0 <= i < store@.questions.len() implies (
            #[trigger] store@.questions[i]).id != qidsv[k as int] by {
                let base = olds.questions.len() as int;
                if i < base {
                    assert(store@.questions[i] == olds.questions[i]);
                    if olds.questions[i].id == qidsv[k as int] {
                        assert(has_question_id(olds.questions, qidsv[k as int]));
                    }
                } else {
                    assert(store@.questions[i] == qrows.take(k as int)[i - base]);
                    assert(store@.questions[i].id == qidsv[i - base]);
                }
            }
            if has_question_id(store@.questions, qidsv[k as int]) {
                let w = choose|i: int|
                    0 <= i < store@.questions.len() && (#[trigger] store@.questions[i]).id
                        == qidsv[k as int];
                assert(false);
            }
            // the quiz and the fresh translation are live
            assert(store@.quizzes[store@.quizzes.len() - 1].id == quizidv);
            assert(has_quiz_id(store@.quizzes, quizidv));
            assert(store@.translations[store@.translations.len() - 1].id == tidsv[k as int]);
            assert(has_translation_id(store@.translations, tidsv[k as int]));
        }
        let ghost bprev = store.questions@;
        let ghost bprevdeep = store.questions.deep_view();
        let ghost gqrow_k = qrow_k;
        let ghost smid2 = store@;
        store.questions.push(qrow_k);
        k = k + 1;
        proof {
            lemma_deep_push(store.questions, bprev, bprevdeep, gqrow_k);
            assert(store@.questions =~= smid2.questions.push(gqrow_k.deep_view()));
            assert(store@ == smid2.with_questions(smid2.questions.push(gqrow_k.deep_view())));
            lemma_insert_question_wf(smid2, gqrow_k.deep_view());
            assert(qrows.take(k as int) =~= qrows.take(k as int - 1).push(
                question_row(
                    qidsv[k as int - 1],
                    quizidv,
                    tidsv[k as int - 1],
                    ser_question(qsv[k as int - 1].data),
                ),
            ));
            assert(store@.questions =~= olds.questions + qrows.take(k as int));
        }
    }
    proof {
        assert(qtrans.take(nq as int) =~= qtrans);
        assert(qrows.take(nq as int) =~= qrows);
        let expect = quiz_insert_result(olds, quiz@, quizidv, titlev, tidsv, qidsv, now);
        assert(store@.translations =~= expect.translations);
        assert(store@.questions =~= expect.questions);
        assert(store@.quizzes =~= expect.quizzes);
        assert(store@ == expect);
        assert(tidsv.len() == quiz@.questions.len());
        assert(qidsv.len() == quiz@.questions.len());
        assert(quiz_ids_fresh(olds, quizidv, titlev, tidsv, qidsv));
        assert(quiz_insert_witness(
            old(store)@,
            store@,
            quiz@,
            quizidv,
            titlev,
            tidsv,
            qidsv,
            now,
        ));
    }
    let result: Result<String, Fault> = Ok(quiz_id);
    proof {
        assert(result matches Ok(id2) ==> id2@ == quizidv);
        assert(result matches Ok(id2) ==> exists|
            w_title: Seq<char>,
            w_tids: Seq<Seq<char>>,
            w_qids: Seq<Seq<char>>,
        | #[trigger] quiz_insert_witness(
            old(store)@,
            store@,
            quiz@,
            id2@,
            w_title,
            w_tids,
            w_qids,
            now,
        ));
    }
    result
}


/// The stored question rows of one quiz, in store order.
pub open spec fn question_rows_of(s: StoreV, quiz_id: Seq<char>) -> Seq<StoredQuestionV> {
    s.questions.filter(|q: StoredQuestionV| q.quiz_id == quiz_id)
}

/// A stored question row joined with its text translation, its payload
/// parsed back into the tagged variant.
pub open spec fn joined_question(s: StoreV, row: StoredQuestionV) -> QuizQuestionV
    recommends
        parse_question(row.data) is Some,
{
    QuizQuestionV {
        id: row.id,
        quiz_id: row.quiz_id,
        question: s.translations[translation_index(s.translations, row.question)].content,
        data: match parse_question(row.data) {
            Some(d) => d,
            None => vstd::pervasive::arbitrary(),
        },
    }
}

/// Every stored payload of the quiz's questions parses.
pub open spec fn questions_parse_ok(s: StoreV, quiz_id: Seq<char>) -> bool {
    forall|k: int|
        0 <= k < question_rows_of(s, quiz_id).len() ==> parse_question(
            (#[trigger] question_rows_of(s, quiz_id)[k]).data,
        ) is Some
}

/// The reassembled questions of one quiz, in store order.
pub open spec fn read_questions(s: StoreV, quiz_id: Seq<char>) -> Seq<QuizQuestionV> {
    Seq::new(
        question_rows_of(s, quiz_id).len(),
        |k: int| joined_question(s, question_rows_of(s, quiz_id)[k]),
    )
}

/// The reassembled aggregate: the quiz row joined with its title, owning its
/// reassembled questions.
pub open spec fn read_quiz(s: StoreV, id: Seq<char>) -> QuizV
    recommends
        has_quiz_id(s.quizzes, id),
{
    let row = s.quizzes[quiz_index(s.quizzes, id)];
    QuizV {
        id: row.id,
        title: s.translations[translation_index(s.translations, row.title)].content,
        created_at: row.created_at,
        created_by: row.created_by,
        questions: read_questions(s, id),
    }
}

/// Fetches and reassembles every question of the quiz holding `quiz_id`: the
/// stored rows in order, joined with their texts, payloads parsed. A payload
/// outside the format is a fatal `Integrity` fault for the whole read.
#[verifier::rlimit(60)]
pub fn get_questions_by_quiz_id(store: &Store, quiz_id: &str) -> (r: Result<
    Vec<DBQuizQuestion>,
    Fault,
>)
    requires
        store@.wf(),
    ensures
        r matches Ok(v) ==> questions_parse_ok(store@, quiz_id@) && v.deep_view()
            == read_questions(store@, quiz_id@),
        r matches Err(f) ==> f == Fault::Integrity && !questions_parse_ok(store@, quiz_id@),
{
    let ghost pred = |q: StoredQuestionV| q.quiz_id == quiz_id@;
    let n = store.questions.len();
    let mut out: Vec<DBQuizQuestion> = Vec::new();
    let mut i: usize = 0;
    proof {
        reveal(Seq::filter);
        assert(store@.questions.subrange(0, 0) =~= Seq::<StoredQuestionV>::empty());
        assert(store@.questions.subrange(0, 0).filter(pred) =~= Seq::<
            StoredQuestionV,
        >::empty());
    }
    while i < n
        invariant
            store@.wf(),
            i <= n,
            n == store.questions.len(),
            pred == (|q: StoredQuestionV| q.quiz_id == quiz_id@),
            out.deep_view().len() == store@.questions.subrange(0, i as int).filter(pred).len(),
            forall|k: int|
                0 <= k < out.deep_view().len() ==> parse_question(
                    (#[trigger] store@.questions.subrange(0, i as int).filter(pred)[k]).data,
                ) is Some && out.deep_view()[k] == joined_question(
                    store@,
                    store@.questions.subrange(0, i as int).filter(pred)[k],
                ),
        decreases n - i,
    {
        let row = &store.questions[i];
        let keep = str_eq(row.quiz_id.as_str(), quiz_id);
        let ghost rowv = store@.questions[i as int];
        proof {
            assert(keep == pred(rowv));
            let prefix = store@.questions.subrange(0, i as int);
            let prefix2 = store@.questions.subrange(0, i as int + 1);
            assert(prefix2.drop_last() =~= prefix);
            assert(prefix2.last() == rowv);
            reveal(Seq::filter);
            assert(prefix2.filter(pred) == if pred(rowv) {
                prefix.filter(pred).push(rowv)
            } else {
                prefix.filter(pred)
            });
        }
        if keep {
            let tix = match find_translation_index(store, row.question.as_str()) {
                Some(t) => t,
                None => {
                    proof {
                        assert(has_translation_id(
                            store@.translations,
                            store@.questions[i as int].question,
                        ));
                        assert(false);
                    }
                    return Err(Fault::Integrity);
                },
            };
            proof {
                let j = translation_index(store@.translations, rowv.question);
                assert(0 <= j < store@.translations.len() && store@.translations[j].id
                    == rowv.question);
                if tix as int != j {
                    assert((store@.translations[tix as int]).id == (store@.translations[j]).id);
                    assert(false);
                }
            }
            let data = match decode_question(row.data.as_str()) {
                Ok(d) => d,
                Err(_) => {
                    proof {
                        store@.questions.lemma_filter_contains(pred, i as int);
                        let rows = question_rows_of(store@, quiz_id@);
                        assert(rows.contains(rowv));
                        let w = choose|k: int| 0 <= k < rows.len() && rows[k] == rowv;
                        assert(parse_question(rows[w].data) is None);
                    }
                    return Err(Fault::Integrity);
                },
            };
            let item = DBQuizQuestion {
                id: row.id.clone(),
                quiz_id: row.quiz_id.clone(),
                question: store.translations[tix].content.clone(),
                data,
            };
            proof {
                assert(item@ == joined_question(store@, rowv));
            }
            let ghost prev = out@;
            let ghost prevdeep = out.deep_view();
            let ghost growv = item;
            out.push(item);
            proof {
                lemma_deep_push(out, prev, prevdeep, growv);
            }
        }
        i = i + 1;
    }
    proof {
        assert(store@.questions.subrange(0, n as int) =~= store@.questions);
        assert(out.deep_view() =~= read_questions(store@, quiz_id@));
    }
    Ok(out)
}

/// Fetches the quiz holding `id` and reassembles the whole aggregate;
/// `Ok(None)` reports an unknown id, and a question payload outside the
/// format is a fatal `Integrity` fault.
pub fn get_quiz(store: &Store, id: &str) -> (r: Result<Option<DBQuiz>, Fault>)
    requires
        store@.wf(),
    ensures
        !has_quiz_id(store@.quizzes, id@) ==> (r matches Ok(o) && o is None),
        (has_quiz_id(store@.quizzes, id@) && questions_parse_ok(store@, id@)) ==> (r matches Ok(o)
            && o matches Some(q) && q@ == read_quiz(store@, id@)),
        (has_quiz_id(store@.quizzes, id@) && !questions_parse_ok(store@, id@)) ==> (r matches Err(
            f,
        ) && f == Fault::Integrity),
{
    let idx = match find_quiz_index(store, id) {
        Some(i) => i,
        None => {
            return Ok(None);
        },
    };
    proof {
        assert(has_quiz_id(store@.quizzes, id@));
        let j = quiz_index(store@.quizzes, id@);
        assert(0 <= j < store@.quizzes.len() && store@.quizzes[j].id == id@);
        if idx as int != j {
            assert((store@.quizzes[idx as int]).id == (store@.quizzes[j]).id);
            assert(false);
        }
    }
    let row = &store.quizzes[idx];
    let tix = match find_translation_index(store, row.title.as_str()) {
        Some(t) => t,
        None => {
            proof {
                assert(has_translation_id(store@.translations, store@.quizzes[idx as int].title));
                assert(false);
            }
            return Ok(None);
        },
    };
    proof {
        let j = translation_index(store@.translations, store@.quizzes[idx as int].title);
        assert(0 <= j < store@.translations.len() && store@.translations[j].id
            == store@.quizzes[idx as int].title);
        if tix as int != j {
            assert((store@.translations[tix as int]).id == (store@.translations[j]).id);
            assert(false);
        }
    }
    let questions = match get_questions_by_quiz_id(store, id) {
        Ok(v) => v,
        Err(f) => {
            return Err(f);
        },
    };
    Ok(
        Some(
            DBQuiz {
                id: row.id.clone(),
                title: store.translations[tix].content.clone(),
                created_at: row.created_at,
                created_by: row.created_by.clone(),
                questions,
            },
        ),
    )
}


/// A filter that rejects every element yields the empty sequence.
proof fn lemma_filter_none<A>(s: Seq<A>, pred: spec_fn(A) -> bool)
    requires
        forall|i: int| 0 <= i < s.len() ==> !pred(#[trigger] s[i]),
    ensures
        s.filter(pred) =~= Seq::<A>::empty(),
    decreases s.len(),
{
    reveal(Seq::filter);
    if s.len() > 0 {
        assert(forall|i: int| 0 <= i < s.drop_last().len() ==> s.drop_last()[i] == s[i]);
        lemma_filter_none(s.drop_last(), pred);
        assert(!pred(s.last()));
    }
}

/// A filter that keeps every element yields the sequence itself.
proof fn lemma_filter_all<A>(s: Seq<A>, pred: spec_fn(A) -> bool)
    requires
        forall|i: int| 0 <= i < s.len() ==> pred(#[trigger] s[i]),
    ensures
        s.filter(pred) =~= s,
    decreases s.len(),
{
    reveal(Seq::filter);
    if s.len() > 0 {
        assert(forall|i: int| 0 <= i < s.drop_last().len() ==> s.drop_last()[i] == s[i]);
        lemma_filter_all(s.drop_last(), pred);
        assert(pred(s.last()));
        assert(s.filter(pred) =~= s.drop_last() + seq![s.last()]);
        assert(s.drop_last() + seq![s.last()] =~= s);
    }
}

/// In a table whose other rows all carry a different id, the index lookup
/// resolves to `j`.
proof fn lemma_translation_index_resolves(ts: Seq<TranslationV>, j: int)
    requires
        0 <= j < ts.len(),
        forall|i: int| 0 <= i < ts.len() && i != j ==> (#[trigger] ts[i]).id != ts[j].id,
    ensures
        translation_index(ts, ts[j].id) == j,
{
    assert(has_translation_id(ts, ts[j].id));
    let w = translation_index(ts, ts[j].id);
    assert(0 <= w < ts.len() && ts[w].id == ts[j].id);
    if w != j {
        assert(ts[w].id != ts[j].id);
        assert(false);
    }
}

/// Reading a freshly created quiz reconstructs the aggregate exactly: the
/// title, and every question's text and payload, in input order, with the
/// new ids filled in.
#[verifier::rlimit(100)]
pub proof fn lemma_quiz_round_trip(
    s: StoreV,
    q: QuizV,
    id: Seq<char>,
    title_tid: Seq<char>,
    tids: Seq<Seq<char>>,
    qids: Seq<Seq<char>>,
    now: u64,
)
    requires
        s.wf(),
        tids.len() == q.questions.len(),
        qids.len() == q.questions.len(),
        quiz_ids_fresh(s, id, title_tid, tids, qids),
    ensures
        ({
            let s2 = quiz_insert_result(s, q, id, title_tid, tids, qids, now);
            &&& has_quiz_id(s2.quizzes, id)
            &&& questions_parse_ok(s2, id)
            &&& read_quiz(s2, id).id == id
            &&& read_quiz(s2, id).title == q.title
            &&& read_quiz(s2, id).created_at == now
            &&& read_quiz(s2, id).created_by == q.created_by
            &&& read_quiz(s2, id).questions.len() == q.questions.len()
            &&& forall|k: int|
                0 <= k < q.questions.len() ==> {
                    let rq = #[trigger] read_quiz(s2, id).questions[k];
                    rq.id == qids[k] && rq.quiz_id == id && rq.question == q.questions[k].question
                        && rq.data == q.questions[k].data
                }
        }),
{
    let s2 = quiz_insert_result(s, q, id, title_tid, tids, qids, now);
    let n = q.questions.len() as int;
    let tbase = s.translations.len() as int;
    let qbase = s.questions.len() as int;
    let qtrans = Seq::new(
        q.questions.len(),
        |k: int| new_translation(tids[k], None, q.questions[k].question),
    );
    let qrows = Seq::new(
        q.questions.len(),
        |k: int| question_row(qids[k], id, tids[k], ser_question(q.questions[k].data)),
    );
    assert(quiz_translation_rows(title_tid, q.title, tids, q.questions) =~= seq![
        new_translation(title_tid, None, q.title),
    ] + qtrans);
    assert(quiz_question_rows(qids, id, tids, q.questions) =~= qrows);
    // the quiz row is the last one and the only one holding `id`
    let zlen = s2.quizzes.len() as int;
    assert(s2.quizzes[zlen - 1] == quiz_row(id, title_tid, q.created_by, now));
    assert(has_quiz_id(s2.quizzes, id));
    let zi = quiz_index(s2.quizzes, id);
    assert(0 <= zi < zlen && s2.quizzes[zi].id == id);
    if zi != zlen - 1 {
        assert(s2.quizzes[zi] == s.quizzes[zi]);
        assert(has_quiz_id(s.quizzes, id));
        assert(false);
    }
    // every translation id occurs once, so lookups resolve positionally
    assert forall|i: int|
        0 <= i < s2.translations.len() && i != tbase implies (#[trigger] s2.translations[i]).id
        != title_tid by {
        if i < tbase {
            assert(s2.translations[i] == s.translations[i]);
            if s.translations[i].id == title_tid {
                assert(has_translation_id(s.translations, title_tid));
            }
        } else {
            assert(s2.translations[i] == qtrans[i - tbase - 1]);
        }
    }
    assert(s2.translations[tbase].id == title_tid);
    lemma_translation_index_resolves(s2.translations, tbase);
    assert(read_quiz(s2, id).title == q.title);
    // old question rows belong to old quizzes, never to the fresh id
    let pred = |row: StoredQuestionV| row.quiz_id == id;
    assert forall|i: int| 0 <= i < s.questions.len() implies !pred(#[trigger] s.questions[i]) by {
        if s.questions[i].quiz_id == id {
            assert(has_quiz_id(s.quizzes, s.questions[i].quiz_id));
            assert(has_quiz_id(s.quizzes, id));
        }
    }
    lemma_filter_none(s.questions, pred);
    assert forall|i: int| 0 <= i < qrows.len() implies pred(#[trigger] qrows[i]) by {}
    lemma_filter_all(qrows, pred);
    Seq::filter_distributes_over_add(s.questions, qrows, pred);
    assert(s2.questions =~= s.questions + qrows);
    assert(question_rows_of(s2, id) =~= qrows);
    // each question payload parses back, and each text lookup resolves
    assert forall|k: int| 0 <= k < n implies parse_question(
        (#[trigger] question_rows_of(s2, id)[k]).data,
    ) is Some by {
        assert(question_rows_of(s2, id)[k] == qrows[k]);
        crate::codec::lemma_question_round_trip(q.questions[k].data);
    }
    assert forall|k: int| 0 <= k < n implies {
        let rq = #[trigger] read_quiz(s2, id).questions[k];
        rq.id == qids[k] && rq.quiz_id == id && rq.question == q.questions[k].question && rq.data
            == q.questions[k].data
    } by {
        assert(question_rows_of(s2, id)[k] == qrows[k]);
        crate::codec::lemma_question_round_trip(q.questions[k].data);
        assert forall|i: int|
            0 <= i < s2.translations.len() && i != tbase + 1 + k implies (
        #[trigger] s2.translations[i]).id != tids[k] by {
            if i < tbase {
                assert(s2.translations[i] == s.translations[i]);
                if s.translations[i].id == tids[k] {
                    assert(has_translation_id(s.translations, tids[k]));
                }
            } else if i == tbase {
                assert(s2.translations[i].id == title_tid);
            } else {
                assert(s2.translations[i] == qtrans[i - tbase - 1]);
                assert(s2.translations[i].id == tids[i - tbase - 1]);
            }
        }
        assert(s2.translations[tbase + 1 + k].id == tids[k]);
        lemma_translation_index_resolves(s2.translations, tbase + 1 + k);
        assert(s2.translations[translation_index(s2.translations, tids[k])].content
            == q.questions[k].question);
        assert(read_quiz(s2, id).questions[k] == joined_question(s2, qrows[k]));
    }
}

} // verus!
