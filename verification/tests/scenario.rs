use quizcore::entities::challenge::{Challenge, ChallengeType};
use quizcore::entities::quiz::{
    APIQuiz, APIQuizQuestion, MultipleChoiceQuestion, QuestionType, TrueOrFalseQuestion,
};
use quizcore::routes::auth::{AuthAPI, RegisterRequest, RegisterResponse};
use quizcore::routes::challenge::{AddProgressRequest, AddProgressResponse, ChallengeAPI,
    CreateChallengeResponse};
use quizcore::routes::quiz::{CreateQuizResponse, GetQuizResponse, LocaleQuery, QuizAPI};
use quizcore::security::{verify_jwt, JWTAuthorization};
use quizcore::store::Store;

const SECRET: &[u8] = b"scenario-secret";

#[test]
fn end_to_end() {
    let mut store = Store::new();
    let auth_api = AuthAPI;
    let challenge_api = ChallengeAPI;
    let quiz_api = QuizAPI;

    // register a guest: succeeds, returns a token, and stores no digest
    let guest_token = match auth_api.register(
        &mut store,
        &RegisterRequest {
            name: "guest".to_owned(),
            email: None,
            password: None,
            avatar_seed: "g".to_owned(),
            is_guest: true,
        },
        100,
        SECRET,
    ) {
        RegisterResponse::Success(t) => t,
        _ => panic!("guest registration failed"),
    };
    let guest = verify_jwt(guest_token.as_str(), 100, SECRET).unwrap();
    let guest_row = quizcore::ops::user::get_user(&store, guest.id.as_str()).unwrap();
    assert!(guest_row.hash.is_none());

    // register a non-guest without password: rejected before any write
    let users_before = store.users.len();
    let bad = auth_api.register(
        &mut store,
        &RegisterRequest {
            name: "half".to_owned(),
            email: Some("half@x.com".to_owned()),
            password: None,
            avatar_seed: "h".to_owned(),
            is_guest: false,
        },
        100,
        SECRET,
    );
    assert!(matches!(bad, RegisterResponse::BadRequest));
    assert_eq!(store.users.len(), users_before);

    // two registrations under one email: exactly one succeeds
    let member = |pw: &str| RegisterRequest {
        name: "member".to_owned(),
        email: Some("a@x.com".to_owned()),
        password: Some(pw.to_owned()),
        avatar_seed: "m".to_owned(),
        is_guest: false,
    };
    assert!(matches!(
        auth_api.register(&mut store, &member("one"), 100, SECRET),
        RegisterResponse::Success(_)
    ));
    assert!(matches!(
        auth_api.register(&mut store, &member("two"), 100, SECRET),
        RegisterResponse::UserAlreadyExists
    ));

    // create a challenge with goal 100, then add progress 40 and 70
    let auth = JWTAuthorization(guest.clone());
    let challenge_id = match challenge_api.create_challenge(
        &mut store,
        &Challenge {
            id: String::new(),
            title: "century".to_owned(),
            category: "general".to_owned(),
            challenge_type: ChallengeType::Counter,
            goal: 100,
            description: "reach one hundred".to_owned(),
        },
        &auth,
    ) {
        CreateChallengeResponse::Success(id) => id,
        _ => panic!("challenge creation failed"),
    };
    let first = challenge_api.add_progress(
        &mut store,
        challenge_id.as_str(),
        &auth,
        &AddProgressRequest { progress: 40 },
        101,
    );
    match first {
        AddProgressResponse::Success(uc) => assert_eq!(uc.progress, 40),
        _ => panic!("first submission failed"),
    }
    let second = challenge_api.add_progress(
        &mut store,
        challenge_id.as_str(),
        &auth,
        &AddProgressRequest { progress: 70 },
        102,
    );
    match second {
        AddProgressResponse::Success(uc) => assert_eq!(uc.progress, 110),
        _ => panic!("second submission failed"),
    }
    let missing = challenge_api.add_progress(
        &mut store,
        "not-a-challenge",
        &auth,
        &AddProgressRequest { progress: 1 },
        103,
    );
    assert!(matches!(missing, AddProgressResponse::NotFound));

    // create a quiz with two questions and read the aggregate back unchanged
    let quiz_id = match quiz_api.create_quiz(
        &mut store,
        &APIQuiz {
            id: String::new(),
            title: "mixed".to_owned(),
            created_at: 0,
            created_by: String::new(),
            questions: vec![
                APIQuizQuestion {
                    id: String::new(),
                    quiz_id: String::new(),
                    question: "pick one".to_owned(),
                    data: QuestionType::MultipleChoice(MultipleChoiceQuestion {
                        answers: vec!["x".to_owned(), "y".to_owned()],
                        correct_answer: 1,
                    }),
                },
                APIQuizQuestion {
                    id: String::new(),
                    quiz_id: String::new(),
                    question: "truth?".to_owned(),
                    data: QuestionType::TrueOrFalse(TrueOrFalseQuestion {
                        correct_answer: true,
                    }),
                },
            ],
        },
        &auth,
        104,
    ) {
        CreateQuizResponse::Success(id) => id,
        _ => panic!("quiz creation failed"),
    };
    let read = quiz_api.get_quiz(
        &store,
        quiz_id.as_str(),
        &LocaleQuery { lang_code: None },
        &auth,
    );
    match read {
        GetQuizResponse::Success(q) => {
            assert_eq!(q.title, "mixed");
            assert_eq!(q.created_by, guest.id);
            assert_eq!(q.questions.len(), 2);
            assert_eq!(q.questions[0].question, "pick one");
            match &q.questions[0].data {
                QuestionType::MultipleChoice(m) => {
                    assert_eq!(m.answers, vec!["x", "y"]);
                    assert_eq!(m.correct_answer, 1);
                },
                _ => panic!("first question changed shape"),
            }
            match &q.questions[1].data {
                QuestionType::TrueOrFalse(t) => assert!(t.correct_answer),
                _ => panic!("second question changed shape"),
            }
        },
        _ => panic!("quiz read failed"),
    }
}
