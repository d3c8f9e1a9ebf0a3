use quizzbuzz_db::codec::QuizRequest;
use quizzbuzz_db::errors::Error;
use quizzbuzz_db::store::QuizStore;

fn request(title: &str, added_at: i64) -> QuizRequest {
    QuizRequest {
        title: title.to_string(),
        tags: Vec::new(),
        body: String::new(),
        added_at,
    }
}

#[test]
fn recent_returns_the_eight_newest_in_descending_order() {
    let mut store = QuizStore::new();
    for t in 1..=10i64 {
        store.create_quiz(request(&format!("quiz {}", t), t));
    }
    let recent = store.fetch_recent_quizzes();
    assert_eq!(recent.len(), 8);
    let stamps: Vec<i64> = recent.iter().map(|q| q.added_at).collect();
    assert_eq!(stamps, vec![10, 9, 8, 7, 6, 5, 4, 3]);
}

#[test]
fn recent_returns_fewer_when_the_collection_is_smaller() {
    let mut store = QuizStore::new();
    store.create_quiz(request("a", 5));
    store.create_quiz(request("b", 9));
    store.create_quiz(request("c", 7));
    let recent = store.fetch_recent_quizzes();
    let stamps: Vec<i64> = recent.iter().map(|q| q.added_at).collect();
    assert_eq!(stamps, vec![9, 7, 5]);
}

#[test]
fn recent_keeps_store_order_among_equal_timestamps() {
    let mut store = QuizStore::new();
    store.create_quiz(request("early", 4));
    store.create_quiz(request("late", 4));
    let recent = store.fetch_recent_quizzes();
    let titles: Vec<&str> = recent.iter().map(|q| q.title.as_str()).collect();
    assert_eq!(titles, vec!["early", "late"]);
}

#[test]
fn recent_on_an_empty_collection_is_empty() {
    let store = QuizStore::new();
    assert!(store.fetch_recent_quizzes().is_empty());
}

#[test]
fn search_on_an_empty_collection_is_empty() {
    let store = QuizStore::new();
    assert!(store.search_quizzes("anything").expect("plain term decodes").is_empty());
}

#[test]
fn search_finds_the_single_matching_title() {
    let mut store = QuizStore::new();
    store.create_quiz(request("sorting algorithms", 1));
    store.create_quiz(request("graph theory", 2));
    store.create_quiz(request("number theory", 3));
    let found = store.search_quizzes("graph").expect("plain term decodes");
    assert_eq!(found.len(), 1);
    assert_eq!(found[0].title, "graph theory");
}

#[test]
fn search_orders_results_by_descending_relevance() {
    let mut store = QuizStore::new();
    store.create_quiz(request("tree", 1));
    store.create_quiz(request("graph", 2));
    store.create_quiz(request("graph graph graph", 3));
    store.create_quiz(request("graph graph", 4));
    let found = store.search_quizzes("graph").expect("plain term decodes");
    let titles: Vec<&str> = found.iter().map(|q| q.title.as_str()).collect();
    assert_eq!(titles, vec!["graph graph graph", "graph graph", "graph"]);
}

#[test]
fn search_with_no_match_returns_an_empty_sequence() {
    let mut store = QuizStore::new();
    store.create_quiz(request("something", 1));
    let found = store.search_quizzes("absent").expect("plain term decodes");
    assert!(found.is_empty());
}

#[test]
fn search_decodes_a_percent_encoded_term() {
    let mut store = QuizStore::new();
    store.create_quiz(request("hello world", 1));
    store.create_quiz(request("hello%20world", 2));
    let found = store.search_quizzes("hello%20world").expect("term decodes");
    assert_eq!(found.len(), 1);
    assert_eq!(found[0].title, "hello world");
}

#[test]
fn search_rejects_a_term_that_decodes_to_invalid_text() {
    let store = QuizStore::new();
    match store.search_quizzes("%ff") {
        Err(Error::InvalidQueryError(s)) => assert_eq!(s, "%ff"),
        _ => panic!("expected an invalid-query error"),
    }
}

#[test]
fn delete_quizzes_removes_exactly_the_maintenance_tagged_documents() {
    let mut store = QuizStore::new();
    store.create_quiz(QuizRequest {
        title: "tagged one".to_string(),
        tags: vec!["funner".to_string()],
        body: String::new(),
        added_at: 1,
    });
    store.create_quiz(QuizRequest {
        title: "other tag".to_string(),
        tags: vec!["serious".to_string()],
        body: String::new(),
        added_at: 2,
    });
    store.create_quiz(QuizRequest {
        title: "two tags".to_string(),
        tags: vec!["funner".to_string(), "extra".to_string()],
        body: String::new(),
        added_at: 3,
    });
    store.create_quiz(QuizRequest {
        title: "tagged two".to_string(),
        tags: vec!["funner".to_string()],
        body: String::new(),
        added_at: 4,
    });
    let removed = store.delete_quizzes();
    assert_eq!(removed, 2);
    let titles: Vec<String> = store.fetch_quizzes().into_iter().map(|q| q.title).collect();
    assert_eq!(titles, vec!["other tag".to_string(), "two tags".to_string()]);
}

#[test]
fn delete_quizzes_on_an_untagged_collection_removes_nothing() {
    let mut store = QuizStore::new();
    store.create_quiz(request("plain", 1));
    assert_eq!(store.delete_quizzes(), 0);
    assert_eq!(store.fetch_quizzes().len(), 1);
}
