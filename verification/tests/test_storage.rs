use oparl_validator_rs::grouping::{group_problems, key_before};
use oparl_validator_rs::storage::Storage;
use oparl_validator_rs::visit::{Problem, ProblemKind};

fn storage_problem(kind: ProblemKind, path: &str, detail: &str) -> Problem {
    Problem { kind, path: path.to_string(), detail: detail.to_string() }
}

#[test]
fn new_storage_is_empty() {
    let store = Storage::new();
    assert!(store.problems().is_empty());
    assert!(store.links().is_empty());
    assert!(!store.has_id(""));
    assert!(!store.has_other_url(""));
    assert!(store.problems_grouped().is_empty());
}

#[test]
fn ids_are_a_set() {
    let mut store = Storage::new();
    store.add_id("https://x/1".to_string());
    store.add_id("https://x/1".to_string());
    store.add_id("https://x/2".to_string());
    assert!(store.has_id("https://x/1"));
    assert!(store.has_id("https://x/2"));
    assert!(!store.has_id("https://x/3"));
    assert!(!store.has_other_url("https://x/1"));
}

#[test]
fn links_accumulate_and_are_not_deduplicated() {
    let mut store = Storage::new();
    store.add_link("Meeting", "https://x/m/1".to_string(), "https://x/o/1".to_string());
    store.add_link("Meeting", "https://x/m/1".to_string(), "https://x/o/2".to_string());
    store.add_link("Meeting", "https://x/m/1".to_string(), "https://x/o/1".to_string());
    assert_eq!(store.links().len(), 1);
    assert_eq!(
        store.links()[0].sources(),
        vec![
            "https://x/o/1".to_string(),
            "https://x/o/2".to_string(),
            "https://x/o/1".to_string()
        ]
    );
}

#[test]
fn links_are_kept_apart_by_type_and_by_url() {
    let mut store = Storage::new();
    store.add_link("Meeting", "https://x/1".to_string(), "a".to_string());
    store.add_link("Paper", "https://x/1".to_string(), "b".to_string());
    store.add_link("Meeting", "https://x/2".to_string(), "c".to_string());
    store.add_link("Paper", "https://x/1".to_string(), "d".to_string());
    let links = store.links();
    assert_eq!(links.len(), 3);
    assert_eq!((links[0].object_type, links[0].target.as_str()), ("Meeting", "https://x/1"));
    assert_eq!((links[1].object_type, links[1].target.as_str()), ("Paper", "https://x/1"));
    assert_eq!((links[2].object_type, links[2].target.as_str()), ("Meeting", "https://x/2"));
    assert_eq!(links[0].sources(), vec!["a".to_string()]);
    assert_eq!(links[1].sources(), vec!["b".to_string(), "d".to_string()]);
    assert_eq!(links[2].sources(), vec!["c".to_string()]);
}

#[test]
fn problems_keep_their_order_and_their_duplicates() {
    let mut store = Storage::new();
    let a = storage_problem(ProblemKind::EmptyString, "A.b", "1");
    let b = storage_problem(ProblemKind::UsingHttp, "", "2");
    store.add_problem(a.clone());
    store.add_problem(b.clone());
    store.add_problem(a.clone());
    assert_eq!(store.problems(), &vec![a.clone(), b, a]);
}

#[test]
fn groups_ascend_by_kind_then_path() {
    let mut store = Storage::new();
    store.add_problem(storage_problem(ProblemKind::InvalidJson, "", "j"));
    store.add_problem(storage_problem(ProblemKind::EmptyString, "B.x", "e2"));
    store.add_problem(storage_problem(ProblemKind::RequiredFieldMissing, "Paper.type", "p"));
    store.add_problem(storage_problem(ProblemKind::ObjectNotInList("Location"), "", "l"));
    store.add_problem(storage_problem(ProblemKind::RequiredFieldMissing, "Body.legislativeTerm", "b"));
    store.add_problem(storage_problem(ProblemKind::ObjectMissing("Meeting"), "", "m"));
    store.add_problem(storage_problem(ProblemKind::HttpRequestFailedTooOften, "", "t"));
    store.add_problem(storage_problem(ProblemKind::EmptyString, "A.x", "e1"));
    store.add_problem(storage_problem(ProblemKind::ObjectMissing("File"), "", "f"));
    store.add_problem(storage_problem(ProblemKind::HttpRequestFailedRetrying, "", "r"));
    store.add_problem(storage_problem(ProblemKind::UsingHttp, "", "u"));
    store.add_problem(storage_problem(ProblemKind::RequiredFieldMissing, "Meeting.type", "mt"));
    let groups = store.problems_grouped();
    let keys: Vec<(ProblemKind, String)> =
        groups.iter().map(|g| (g.kind.clone(), g.path.clone())).collect();
    assert_eq!(
        keys,
        vec![
            (ProblemKind::HttpRequestFailedRetrying, String::new()),
            (ProblemKind::HttpRequestFailedTooOften, String::new()),
            (ProblemKind::ObjectMissing("File"), String::new()),
            (ProblemKind::ObjectMissing("Meeting"), String::new()),
            (ProblemKind::ObjectNotInList("Location"), String::new()),
            (ProblemKind::RequiredFieldMissing, "Body.legislativeTerm".to_string()),
            (ProblemKind::RequiredFieldMissing, "Meeting.type".to_string()),
            (ProblemKind::RequiredFieldMissing, "Paper.type".to_string()),
            (ProblemKind::EmptyString, "A.x".to_string()),
            (ProblemKind::EmptyString, "B.x".to_string()),
            (ProblemKind::UsingHttp, String::new()),
            (ProblemKind::InvalidJson, String::new()),
        ]
    );
    for group in &groups {
        assert_eq!(group.problems.len(), 1);
    }
}

#[test]
fn group_keeps_the_order_of_the_log() {
    let problems = vec![
        storage_problem(ProblemKind::EmptyString, "A.x", "3"),
        storage_problem(ProblemKind::UsingHttp, "", "u"),
        storage_problem(ProblemKind::EmptyString, "A.x", "1"),
        storage_problem(ProblemKind::EmptyString, "A.x", "2"),
    ];
    let groups = group_problems(&problems);
    assert_eq!(groups.len(), 2);
    let details: Vec<&str> = groups[0].problems.iter().map(|p| p.detail.as_str()).collect();
    assert_eq!(details, vec!["3", "1", "2"]);
    assert_eq!(groups[1].problems.len(), 1);
}

#[test]
fn grouping_has_the_same_keys_and_counts_in_any_order_of_the_log() {
    let problems = vec![
        storage_problem(ProblemKind::EmptyString, "A.x", "3"),
        storage_problem(ProblemKind::UsingHttp, "", "u"),
        storage_problem(ProblemKind::EmptyString, "A.x", "1"),
        storage_problem(ProblemKind::RequiredFieldMissing, "Z.z", "9"),
        storage_problem(ProblemKind::EmptyString, "A.x", "1"),
    ];
    let mut reversed: Vec<Problem> = problems.clone();
    reversed.reverse();
    let mut rotated: Vec<Problem> = problems.clone();
    rotated.rotate_left(2);
    let summary = |log: &Vec<Problem>| -> Vec<(ProblemKind, String, usize)> {
        group_problems(log)
            .iter()
            .map(|g| (g.kind.clone(), g.path.clone(), g.problems.len()))
            .collect()
    };
    let expected = vec![
        (ProblemKind::RequiredFieldMissing, "Z.z".to_string(), 1),
        (ProblemKind::EmptyString, "A.x".to_string(), 3),
        (ProblemKind::UsingHttp, String::new(), 1),
    ];
    assert_eq!(summary(&problems), expected);
    assert_eq!(summary(&reversed), expected);
    assert_eq!(summary(&rotated), expected);
    assert_eq!(group_problems(&problems), group_problems(&problems));
}

#[test]
fn keys_compare_by_kind_first() {
    assert!(key_before(&ProblemKind::RequiredFieldMissing, "z", &ProblemKind::EmptyString, "a"));
    assert!(!key_before(&ProblemKind::EmptyString, "a", &ProblemKind::RequiredFieldMissing, "z"));
    assert!(key_before(&ProblemKind::EmptyString, "a", &ProblemKind::EmptyString, "b"));
    assert!(!key_before(&ProblemKind::EmptyString, "a", &ProblemKind::EmptyString, "a"));
    assert!(key_before(&ProblemKind::EmptyString, "a", &ProblemKind::EmptyString, "aa"));
    assert!(key_before(&ProblemKind::ObjectMissing("A"), "z", &ProblemKind::ObjectMissing("B"), "a"));
}
