use quizcore::fault::Fault;
use quizcore::ops::user::{get_user, increase_score, User, UserPatch};
use quizcore::ops::user::insert_user as register_user;
use quizcore::ops::user::update_user as patch_user;
use quizcore::ops::user::get_user_by_email as lookup_by_email;
use quizcore::store::Store;

fn verified_user() -> User {
    User {
        email: Some(String::from("test@example.com")),
        hash: Some(String::new()),
        is_guest: false,
        ..User::default()
    }
}

#[test]
fn insert_user() {
    let mut store = Store::new();
    let user = quizcore::ops::user::insert_user(&mut store, &verified_user(), 0).unwrap();
    assert!(user.is_some());

    let user = quizcore::ops::user::insert_user(&mut store, &verified_user(), 0).unwrap();
    assert!(user.is_none());
}

#[test]
fn get_nonexistent_user() {
    let store = Store::new();
    let user = get_user(&store, uuid::Uuid::new_v4().to_string().as_str());
    assert!(user.is_none());
}

#[test]
fn get_user_by_email() {
    let mut store = Store::new();
    let base_user = User {
        is_guest: false,
        email: Some("test@example.com".to_owned()),
        hash: Some(String::new()),
        ..User::default()
    };
    let id = register_user(&mut store, &base_user, 0).unwrap();

    let user = quizcore::ops::user::get_user_by_email(&store, "test@example.com");
    assert!(user.is_some());
    assert_ne!(base_user.id, user.as_ref().unwrap().id);
    assert_eq!(id, user.map(|user| user.id));
}

#[test]
fn update_user() {
    let mut store = Store::new();
    let id = register_user(&mut store, &User::default(), 0)
        .unwrap()
        .expect("Retrieved None id");
    let updated = quizcore::ops::user::update_user(
        &mut store,
        id.as_str(),
        &UserPatch {
            name: Some("updated".to_owned()),
            email: Some("updated".to_owned()),
            hash: Some("updated".to_owned()),
            avatar_seed: Some("updated".to_owned()),
            is_guest: Some(false),
            score: Some(133),
        },
    )
    .unwrap()
    .expect("unable to update user");
    assert_eq!(updated.name, "updated");
    assert_eq!(updated.email.unwrap(), "updated");
    assert_eq!(updated.hash.unwrap(), "updated");
    assert_eq!(updated.avatar_seed, "updated");
    assert!(!updated.is_guest);
    assert_eq!(updated.score, 133);
}

#[test]
fn no_password_for_guest() {
    let mut store = Store::new();
    let id = register_user(
        &mut store,
        &User { hash: Some(String::new()), ..User::default() },
        0,
    );
    assert!(id.is_err());
}

#[test]
fn default_score() {
    let mut store = Store::new();
    let candidate = User { score: 55, ..User::default() };
    let user_id = register_user(&mut store, &candidate, 0).unwrap().unwrap();
    let user = get_user(&store, user_id.as_str()).unwrap();
    assert_eq!(user.score, 0);
}

#[test]
fn patch_keeps_omitted_fields() {
    let mut store = Store::new();
    let base = User {
        name: "keeper".to_owned(),
        avatar_seed: "seed".to_owned(),
        ..User::default()
    };
    let id = register_user(&mut store, &base, 7).unwrap().unwrap();
    let patch = UserPatch { score: Some(9), ..UserPatch::default() };
    let updated = patch_user(&mut store, id.as_str(), &patch).unwrap().unwrap();
    assert_eq!(updated.name, "keeper");
    assert_eq!(updated.avatar_seed, "seed");
    assert_eq!(updated.created_at, 7);
    assert_eq!(updated.score, 9);
}

#[test]
fn patch_email_conflict() {
    let mut store = Store::new();
    let first = User {
        email: Some("a@x.com".to_owned()),
        hash: Some("h".to_owned()),
        is_guest: false,
        ..User::default()
    };
    let second = User {
        email: Some("b@x.com".to_owned()),
        hash: Some("h".to_owned()),
        is_guest: false,
        ..User::default()
    };
    register_user(&mut store, &first, 0).unwrap().unwrap();
    let id2 = register_user(&mut store, &second, 0).unwrap().unwrap();
    let patch = UserPatch { email: Some("a@x.com".to_owned()), ..UserPatch::default() };
    let r = patch_user(&mut store, id2.as_str(), &patch);
    assert_eq!(r.unwrap_err(), Fault::Conflict);
}

#[test]
fn patch_guest_shape_rejected() {
    let mut store = Store::new();
    let id = register_user(&mut store, &User::default(), 0).unwrap().unwrap();
    let patch = UserPatch { hash: Some("h".to_owned()), ..UserPatch::default() };
    let r = patch_user(&mut store, id.as_str(), &patch);
    assert_eq!(r.unwrap_err(), Fault::Validation);
}

#[test]
fn score_accumulates_and_overflows() {
    let mut store = Store::new();
    let id = register_user(&mut store, &User::default(), 0).unwrap().unwrap();
    increase_score(&mut store, id.as_str(), 40).unwrap().unwrap();
    increase_score(&mut store, id.as_str(), 2).unwrap().unwrap();
    assert_eq!(get_user(&store, id.as_str()).unwrap().score, 42);
    let r = increase_score(&mut store, id.as_str(), i32::MAX);
    assert_eq!(r.unwrap_err(), Fault::Validation);
    assert_eq!(get_user(&store, id.as_str()).unwrap().score, 42);
    assert!(increase_score(&mut store, "missing", 1).unwrap().is_none());
}

#[test]
fn lookup_by_missing_email() {
    let store = Store::new();
    assert!(lookup_by_email(&store, "nobody@x.com").is_none());
}
