use quizcore::codec::{decode_question, encode_question};
use quizcore::entities::quiz::{
    MultipleChoiceQuestion, NumericQuestion, QuestionType, TrueOrFalseQuestion,
};

fn round_trip(q: &QuestionType) -> QuestionType {
    let encoded = encode_question(q);
    decode_question(encoded.as_str()).expect("canonical payload must parse")
}

#[test]
fn encode_is_canonical() {
    let q = QuestionType::MultipleChoice(MultipleChoiceQuestion {
        answers: vec!["a".to_owned(), "b".to_owned()],
        correct_answer: 1,
    });
    assert_eq!(
        encode_question(&q),
        "{\"type\":\"MultipleChoice\",\"answers\":[\"a\",\"b\"],\"correct_answer\":1}"
    );
    let n = QuestionType::Numeric(NumericQuestion { range_start: -5, range_end: 17 });
    assert_eq!(
        encode_question(&n),
        "{\"type\":\"Numeric\",\"range_start\":-5,\"range_end\":17}"
    );
    let t = QuestionType::TrueOrFalse(TrueOrFalseQuestion { correct_answer: false });
    assert_eq!(
        encode_question(&t),
        "{\"type\":\"TrueOrFalse\",\"correct_answer\":false}"
    );
}

#[test]
fn escapes_round_trip() {
    let q = QuestionType::MultipleChoice(MultipleChoiceQuestion {
        answers: vec!["say \"hi\"".to_owned(), "a\\b".to_owned(), String::new()],
        correct_answer: 2,
    });
    match round_trip(&q) {
        QuestionType::MultipleChoice(m) => {
            assert_eq!(m.answers, vec!["say \"hi\"", "a\\b", ""]);
            assert_eq!(m.correct_answer, 2);
        },
        _ => panic!("variant changed"),
    }
}

#[test]
fn empty_answer_list_round_trips() {
    let q = QuestionType::MultipleChoice(MultipleChoiceQuestion {
        answers: vec![],
        correct_answer: 0,
    });
    match round_trip(&q) {
        QuestionType::MultipleChoice(m) => assert!(m.answers.is_empty()),
        _ => panic!("variant changed"),
    }
}

#[test]
fn extreme_numbers_round_trip() {
    let q = QuestionType::Numeric(NumericQuestion {
        range_start: i32::MIN,
        range_end: i32::MAX,
    });
    match round_trip(&q) {
        QuestionType::Numeric(n) => {
            assert_eq!(n.range_start, i32::MIN);
            assert_eq!(n.range_end, i32::MAX);
        },
        _ => panic!("variant changed"),
    }
}

#[test]
fn unicode_answers_round_trip() {
    let q = QuestionType::MultipleChoice(MultipleChoiceQuestion {
        answers: vec!["\u{00e9}\u{0301}\u{1f600}".to_owned()],
        correct_answer: 0,
    });
    match round_trip(&q) {
        QuestionType::MultipleChoice(m) => {
            assert_eq!(m.answers[0], "\u{00e9}\u{0301}\u{1f600}");
        },
        _ => panic!("variant changed"),
    }
}

#[test]
fn malformed_payloads_rejected() {
    for bad in [
        "",
        "{}",
        "{\"type\":\"Mystery\"}",
        "{\"type\":\"TrueOrFalse\",\"correct_answer\":maybe}",
        "{\"type\":\"Numeric\",\"range_start\":1,\"range_end\":2",
        "{\"type\":\"Numeric\",\"range_start\":99999999999,\"range_end\":2}",
        "{\"type\":\"MultipleChoice\",\"answers\":[\"a],\"correct_answer\":0}",
        "{\"type\":\"TrueOrFalse\",\"correct_answer\":true} ",
    ] {
        assert!(decode_question(bad).is_err(), "accepted: {}", bad);
    }
}
