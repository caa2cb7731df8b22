use quizcore::entities::quiz::{
    APIQuiz, APIQuizQuestion, DBQuiz, DBQuizQuestion, MultipleChoiceQuestion, NumericQuestion,
    QuestionType, TrueOrFalseQuestion,
};
use quizcore::fault::Fault;
use quizcore::ops::user::{insert_user, User};
use quizcore::store::{Store, StoredQuestion};

fn fresh_user(store: &mut Store) -> String {
    insert_user(store, &User::default(), 0).unwrap().unwrap()
}

#[test]
fn require_created_by() {
    let mut store = Store::new();
    let res = quizcore::ops::quiz::insert_quiz(&mut store, &DBQuiz::default(), 0);
    assert!(res.is_err());
    // the failed attempt wrote nothing at all
    assert_eq!(store.translations.len(), 0);
    assert_eq!(store.quizzes.len(), 0);
    assert_eq!(store.questions.len(), 0);
}

#[test]
fn insert_quiz() {
    let mut store = Store::new();
    let user_id = fresh_user(&mut store);
    let mut quiz = DBQuiz::default();
    quiz.created_by = user_id;
    quizcore::ops::quiz::insert_quiz(&mut store, &quiz, 0).unwrap();
}

#[test]
fn get_quiz() {
    let mut store = Store::new();
    let user_id = fresh_user(&mut store);
    let mut quiz = DBQuiz::default();
    quiz.created_by = user_id.clone();
    let quiz_id = quizcore::ops::quiz::insert_quiz(&mut store, &quiz, 0).unwrap();

    let db_quiz = quizcore::ops::quiz::get_quiz(&store, quiz_id.as_str())
        .unwrap()
        .expect("Unable to retrive Quiz from DB");
    assert_eq!(db_quiz.title, quiz.title);
    assert_eq!(db_quiz.created_by, user_id);
}

fn sample_questions() -> Vec<APIQuizQuestion> {
    vec![
        APIQuizQuestion {
            id: String::new(),
            quiz_id: String::new(),
            question: "What is \"H2O\"\\steam?".to_owned(),
            data: QuestionType::MultipleChoice(MultipleChoiceQuestion {
                answers: vec!["water".to_owned(), "a \"gas\"".to_owned(), "back\\slash".to_owned()],
                correct_answer: 0,
            }),
        },
        APIQuizQuestion {
            id: String::new(),
            quiz_id: String::new(),
            question: "Water freezes below which Celsius value?".to_owned(),
            data: QuestionType::Numeric(NumericQuestion { range_start: -1, range_end: 1 }),
        },
        APIQuizQuestion {
            id: String::new(),
            quiz_id: String::new(),
            question: "Ice floats.".to_owned(),
            data: QuestionType::TrueOrFalse(TrueOrFalseQuestion { correct_answer: true }),
        },
    ]
}

#[test]
fn quiz_round_trip() {
    let mut store = Store::new();
    let user_id = fresh_user(&mut store);
    let quiz = APIQuiz {
        id: String::new(),
        title: "Chemistry 101".to_owned(),
        created_at: 0,
        created_by: user_id.clone(),
        questions: sample_questions(),
    };
    let input = quiz.clone();
    let quiz_id =
        quizcore::ops::quiz::insert_quiz(&mut store, &quiz.into_db(), 99).unwrap();
    let read: DBQuiz =
        quizcore::ops::quiz::get_quiz(&store, quiz_id.as_str()).unwrap().unwrap();
    assert_eq!(read.id, quiz_id);
    assert_eq!(read.title, "Chemistry 101");
    assert_eq!(read.created_at, 99);
    assert_eq!(read.created_by, user_id);
    assert_eq!(read.questions.len(), 3);
    for (got, want) in read.questions.iter().zip(input.questions.iter()) {
        assert_eq!(got.quiz_id, quiz_id);
        assert_eq!(got.question, want.question);
        match (&got.data, &want.data) {
            (QuestionType::MultipleChoice(a), QuestionType::MultipleChoice(b)) => {
                assert_eq!(a.answers, b.answers);
                assert_eq!(a.correct_answer, b.correct_answer);
            },
            (QuestionType::Numeric(a), QuestionType::Numeric(b)) => {
                assert_eq!(a.range_start, b.range_start);
                assert_eq!(a.range_end, b.range_end);
            },
            (QuestionType::TrueOrFalse(a), QuestionType::TrueOrFalse(b)) => {
                assert_eq!(a.correct_answer, b.correct_answer);
            },
            _ => panic!("variant changed in round trip"),
        }
    }
}

#[test]
fn question_insert_requires_quiz() {
    let mut store = Store::new();
    let q = DBQuizQuestion {
        id: String::new(),
        quiz_id: "no-such-quiz".to_owned(),
        question: "q".to_owned(),
        data: QuestionType::TrueOrFalse(TrueOrFalseQuestion { correct_answer: false }),
    };
    let r = quizcore::ops::quiz::insert_question(&mut store, &q);
    assert_eq!(r.unwrap_err(), Fault::NotFound);
}

#[test]
fn malformed_payload_is_integrity_fault() {
    let mut store = Store::new();
    let user_id = fresh_user(&mut store);
    let mut quiz = DBQuiz::default();
    quiz.created_by = user_id;
    let quiz_id = quizcore::ops::quiz::insert_quiz(&mut store, &quiz, 0).unwrap();
    let tid =
        quizcore::ops::quiz::insert_translation(&mut store, "broken", None).unwrap();
    store.questions.push(StoredQuestion {
        id: "rogue".to_owned(),
        quiz_id: quiz_id.clone(),
        question: tid,
        data: "{\"type\":\"Mystery\"}".to_owned(),
    });
    let r = quizcore::ops::quiz::get_quiz(&store, quiz_id.as_str());
    assert_eq!(r.unwrap_err(), Fault::Integrity);
}

#[test]
fn translation_rows_accumulate() {
    let mut store = Store::new();
    let a = quizcore::ops::quiz::insert_translation(&mut store, "eins", None).unwrap();
    let b = quizcore::ops::quiz::insert_translation(
        &mut store,
        "one",
        Some("en-US".to_owned()),
    )
    .unwrap();
    assert_ne!(a, b);
    assert_eq!(store.translations.len(), 2);
    assert_eq!(store.translations[0].language_code, "en-GB");
    assert_eq!(store.translations[1].language_code, "en-US");
}
