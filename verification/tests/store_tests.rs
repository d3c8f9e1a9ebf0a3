use quizzbuzz_db::codec::QuizRequest;
use quizzbuzz_db::errors::Error;
use quizzbuzz_db::store::QuizStore;

fn request(title: &str, tags: &[&str], body: &str, added_at: i64) -> QuizRequest {
    QuizRequest {
        title: title.to_string(),
        tags: tags.iter().map(|t| t.to_string()).collect(),
        body: body.to_string(),
        added_at,
    }
}

#[test]
fn create_then_fetch_round_trips_every_field() {
    let mut store = QuizStore::new();
    let id = store.create_quiz(request(
        "Rust Basics",
        &["rust", "language"],
        "What does ownership mean?",
        42,
    ));
    assert_eq!(id.len(), 24);
    assert!(id.chars().all(|c| c.is_ascii_hexdigit()));
    let quiz = store.fetch_quiz(&id).expect("created quiz must be fetchable");
    assert_eq!(quiz.id, id);
    assert_eq!(quiz.title, "Rust Basics");
    assert_eq!(quiz.tags, vec!["rust".to_string(), "language".to_string()]);
    assert_eq!(quiz.body, "What does ownership mean?");
    assert_eq!(quiz.added_at, 42);
}

#[test]
fn created_identifiers_are_distinct() {
    let mut store = QuizStore::new();
    let a = store.create_quiz(request("a", &[], "", 1));
    let b = store.create_quiz(request("b", &[], "", 2));
    assert_ne!(a, b);
}

#[test]
fn malformed_ids_are_rejected_by_every_operation() {
    let mut store = QuizStore::new();
    store.create_quiz(request("kept", &[], "", 1));
    for bad in [
        "",
        "123",
        "not-a-hex-identifier!!!!",
        "00000000000000000000000g",
        "00000000000000000000001",
        "0000000000000000000000012",
    ] {
        match store.fetch_quiz(bad) {
            Err(Error::InvalidIDError(s)) => assert_eq!(s, bad),
            _ => panic!("fetch accepted malformed id {:?}", bad),
        }
        match store.edit_quiz(bad, request("x", &[], "", 9)) {
            Err(Error::InvalidIDError(s)) => assert_eq!(s, bad),
            _ => panic!("edit accepted malformed id {:?}", bad),
        }
        match store.delete_quiz(bad) {
            Err(Error::InvalidIDError(s)) => assert_eq!(s, bad),
            _ => panic!("delete accepted malformed id {:?}", bad),
        }
        assert_eq!(store.fetch_quizzes().len(), 1, "store was touched by {:?}", bad);
    }
}

#[test]
fn fetch_of_unknown_id_is_not_found() {
    let store = QuizStore::new();
    match store.fetch_quiz("0123456789abcdef01234567") {
        Err(Error::NotFoundError(s)) => assert_eq!(s, "0123456789abcdef01234567"),
        _ => panic!("expected not-found"),
    }
}

#[test]
fn delete_then_fetch_is_not_found() {
    let mut store = QuizStore::new();
    store.create_quiz(request("other", &[], "", 1));
    let id = store.create_quiz(request("doomed", &[], "", 2));
    store.delete_quiz(&id).expect("delete of valid id succeeds");
    match store.fetch_quiz(&id) {
        Err(Error::NotFoundError(s)) => assert_eq!(s, id),
        _ => panic!("expected not-found after delete"),
    }
    assert_eq!(store.fetch_quizzes().len(), 1);
}

#[test]
fn delete_of_unknown_id_is_silent_success() {
    let mut store = QuizStore::new();
    store.create_quiz(request("kept", &[], "", 1));
    store.delete_quiz("ffffffffffffffffffffffff").expect("no-op delete succeeds");
    assert_eq!(store.fetch_quizzes().len(), 1);
}

#[test]
fn edit_of_unknown_id_is_silent_success() {
    let mut store = QuizStore::new();
    let id = store.create_quiz(request("untouched", &[], "", 1));
    store
        .edit_quiz("ffffffffffffffffffffffff", request("ghost", &[], "", 9))
        .expect("no-op edit succeeds");
    let all = store.fetch_quizzes();
    assert_eq!(all.len(), 1);
    assert_eq!(all[0].title, "untouched");
    assert_eq!(store.fetch_quiz(&id).unwrap().title, "untouched");
}

#[test]
fn edit_replaces_the_whole_document() {
    let mut store = QuizStore::new();
    let id = store.create_quiz(request("before", &["old"], "old body", 1));
    store
        .edit_quiz(&id, request("after", &["new", "tags"], "new body", 7))
        .expect("edit of existing id succeeds");
    let quiz = store.fetch_quiz(&id).unwrap();
    assert_eq!(quiz.id, id);
    assert_eq!(quiz.title, "after");
    assert_eq!(quiz.tags, vec!["new".to_string(), "tags".to_string()]);
    assert_eq!(quiz.body, "new body");
    assert_eq!(quiz.added_at, 7);
}

#[test]
fn fetch_accepts_upper_case_form_of_the_same_id() {
    let mut store = QuizStore::new();
    for i in 0..10 {
        store.create_quiz(request("filler", &[], "", i));
    }
    let id = store.create_quiz(request("cased", &[], "", 1));
    assert_eq!(id, "00000000000000000000000a");
    let upper = id.to_uppercase();
    assert_ne!(id, upper);
    let quiz = store.fetch_quiz(&upper).expect("ids are compared by value");
    assert_eq!(quiz.title, "cased");
}

#[test]
fn fetch_quizzes_returns_all_in_store_order() {
    let mut store = QuizStore::new();
    store.create_quiz(request("first", &[], "", 3));
    store.create_quiz(request("second", &[], "", 1));
    store.create_quiz(request("third", &[], "", 2));
    let all = store.fetch_quizzes();
    let titles: Vec<&str> = all.iter().map(|q| q.title.as_str()).collect();
    assert_eq!(titles, vec!["first", "second", "third"]);
}
