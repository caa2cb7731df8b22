use quizcore::entities::challenge::{Challenge, ChallengeType};
use quizcore::fault::Fault;
use quizcore::ops::challenge::{
    add_progress, delete_progress, get_challenge, get_challenges, get_user_challenges,
    insert_challenge,
};
use quizcore::ops::user::{insert_user, User};
use quizcore::store::Store;

fn fresh_user(store: &mut Store) -> String {
    insert_user(store, &User::default(), 0).unwrap().unwrap()
}

fn sample_challenge() -> Challenge {
    Challenge {
        id: String::new(),
        title: "Daily science".to_owned(),
        category: "science".to_owned(),
        challenge_type: ChallengeType::Counter,
        goal: 100,
        description: "Answer many questions".to_owned(),
    }
}

#[test]
fn challenge_round_trip() {
    let mut store = Store::new();
    let id = insert_challenge(&mut store, &sample_challenge()).unwrap();
    let read = get_challenge(&store, id.as_str()).unwrap();
    assert_eq!(read.id, id);
    assert_eq!(read.title, "Daily science");
    assert_eq!(read.category, "science");
    assert_eq!(read.goal, 100);
    assert_eq!(read.description, "Answer many questions");
    assert!(get_challenge(&store, "missing").is_none());
}

#[test]
fn list_challenges_joins_descriptions() {
    let mut store = Store::new();
    let a = insert_challenge(&mut store, &sample_challenge()).unwrap();
    let mut second = sample_challenge();
    second.description = "Another goal".to_owned();
    second.challenge_type = ChallengeType::DailyChallenge;
    let b = insert_challenge(&mut store, &second).unwrap();
    let all = get_challenges(&store);
    assert_eq!(all.len(), 2);
    assert_eq!(all[0].id, a);
    assert_eq!(all[0].description, "Answer many questions");
    assert_eq!(all[1].id, b);
    assert_eq!(all[1].description, "Another goal");
}

#[test]
fn progress_accumulates() {
    let mut store = Store::new();
    let user = fresh_user(&mut store);
    let ch = insert_challenge(&mut store, &sample_challenge()).unwrap();
    let first = add_progress(&mut store, user.as_str(), ch.as_str(), 40, 10).unwrap().unwrap();
    assert_eq!(first.progress, 40);
    let second = add_progress(&mut store, user.as_str(), ch.as_str(), 70, 11).unwrap().unwrap();
    assert_eq!(second.progress, 110);
    assert_eq!(second.updated_at, Some(11));
    let rows = get_user_challenges(&store, user.as_str(), &None);
    assert_eq!(rows.len(), 1);
    assert_eq!(rows[0].progress, 110);
}

#[test]
fn progress_requires_live_references() {
    let mut store = Store::new();
    let user = fresh_user(&mut store);
    let r = add_progress(&mut store, user.as_str(), "missing", 5, 0).unwrap();
    assert!(r.is_none());
    let ch = insert_challenge(&mut store, &sample_challenge()).unwrap();
    let r = add_progress(&mut store, "ghost", ch.as_str(), 5, 0).unwrap();
    assert!(r.is_none());
}

#[test]
fn progress_overflow_rejected() {
    let mut store = Store::new();
    let user = fresh_user(&mut store);
    let ch = insert_challenge(&mut store, &sample_challenge()).unwrap();
    add_progress(&mut store, user.as_str(), ch.as_str(), i32::MAX, 0).unwrap().unwrap();
    let r = add_progress(&mut store, user.as_str(), ch.as_str(), 1, 0);
    assert_eq!(r.unwrap_err(), Fault::Validation);
    let rows = get_user_challenges(&store, user.as_str(), &Some(ch.clone()));
    assert_eq!(rows.len(), 1);
    assert_eq!(rows[0].progress, i32::MAX);
}

#[test]
fn progress_scoped_by_challenge() {
    let mut store = Store::new();
    let user = fresh_user(&mut store);
    let ch1 = insert_challenge(&mut store, &sample_challenge()).unwrap();
    let ch2 = insert_challenge(&mut store, &sample_challenge()).unwrap();
    add_progress(&mut store, user.as_str(), ch1.as_str(), 3, 0).unwrap().unwrap();
    add_progress(&mut store, user.as_str(), ch2.as_str(), 4, 0).unwrap().unwrap();
    let all = get_user_challenges(&store, user.as_str(), &None);
    assert_eq!(all.len(), 2);
    let only2 = get_user_challenges(&store, user.as_str(), &Some(ch2.clone()));
    assert_eq!(only2.len(), 1);
    assert_eq!(only2[0].challenge_id, ch2);
    assert_eq!(only2[0].progress, 4);
}

#[test]
fn delete_progress_returns_removed_row() {
    let mut store = Store::new();
    let user = fresh_user(&mut store);
    let ch = insert_challenge(&mut store, &sample_challenge()).unwrap();
    add_progress(&mut store, user.as_str(), ch.as_str(), 12, 0).unwrap().unwrap();
    let removed = delete_progress(&mut store, user.as_str(), ch.as_str()).unwrap();
    assert_eq!(removed.progress, 12);
    assert!(delete_progress(&mut store, user.as_str(), ch.as_str()).is_none());
    assert!(get_user_challenges(&store, user.as_str(), &None).is_empty());
}
