use oparl_validator_rs::reconcile::{
    contains_text, link_problem, lookup, ordered_statuses, ProbeStatus, Reconciler, StatusError,
    MAX_CONCURRENT_PROBES,
};
use oparl_validator_rs::storage::{Link, Storage};
use oparl_validator_rs::visit::{Problem, ProblemKind};

fn reconcile_store() -> Storage {
    let mut store = Storage::new();
    store.add_id("https://x/A".to_string());
    store.add_link("TypeX", "https://x/B".to_string(), "https://x/S".to_string());
    store
}

fn reconcile_run(store: &mut Storage, known: Vec<ProbeStatus>, answer: bool) -> (Vec<String>, Reconciler) {
    let mut reconciler = Reconciler::start(store, known);
    let mut probed = Vec::new();
    loop {
        while let Some(url) = reconciler.next_probe() {
            probed.push(url);
        }
        if reconciler.is_done() {
            break;
        }
        let url = probed[probed.len() - reconciler.in_flight()].clone();
        assert!(reconciler.record(&url, answer));
    }
    reconciler.report(store);
    (probed, reconciler)
}

#[test]
fn reachable_but_unlisted_object_is_not_in_list() {
    let mut store = reconcile_store();
    let (probed, reconciler) = reconcile_run(&mut store, vec![], true);
    assert_eq!(probed, vec!["https://x/B".to_string()]);
    assert_eq!(
        store.problems(),
        &vec![Problem {
            kind: ProblemKind::ObjectNotInList("TypeX"),
            path: String::new(),
            detail: "https://x/B referenced by https://x/S and 0 others".to_string(),
        }]
    );
    assert!(reconciler.probed());
    assert_eq!(
        reconciler.known_statuses(),
        &vec![ProbeStatus { url: "https://x/B".to_string(), reachable: true }]
    );
}

#[test]
fn unreachable_object_is_missing() {
    let mut store = reconcile_store();
    let (probed, _) = reconcile_run(&mut store, vec![], false);
    assert_eq!(probed, vec!["https://x/B".to_string()]);
    assert_eq!(
        store.problems(),
        &vec![Problem {
            kind: ProblemKind::ObjectMissing("TypeX"),
            path: String::new(),
            detail: "https://x/B referenced by https://x/S and 0 others".to_string(),
        }]
    );
}

#[test]
fn listed_object_is_neither_probed_nor_reported() {
    for answer in [true, false] {
        let mut store = reconcile_store();
        store.add_id("https://x/B".to_string());
        let start = Reconciler::start(&store, vec![]);
        assert!(start.nothing_to_do());
        let (probed, reconciler) = reconcile_run(&mut store, vec![], answer);
        assert!(probed.is_empty());
        assert!(store.problems().is_empty());
        assert!(!reconciler.probed());
        assert_eq!(Reconciler::count_missing(&store), 0);
    }
}

#[test]
fn known_status_is_trusted_and_not_probed_again() {
    let mut store = reconcile_store();
    let known = vec![ProbeStatus { url: "https://x/B".to_string(), reachable: true }];
    let start = Reconciler::start(&store, known.clone());
    assert!(!start.nothing_to_do());
    assert!(start.is_done());
    let (probed, reconciler) = reconcile_run(&mut store, known, false);
    assert!(probed.is_empty());
    assert!(!reconciler.probed());
    assert_eq!(store.problems().len(), 1);
    assert_eq!(store.problems()[0].kind, ProblemKind::ObjectNotInList("TypeX"));
}

#[test]
fn status_of_an_unprobed_url_counts_as_unreachable() {
    let mut store = reconcile_store();
    let reconciler = Reconciler::start(&store, vec![]);
    assert!(!reconciler.is_reachable("https://x/B"));
    reconciler.report(&mut store);
    assert_eq!(store.problems()[0].kind, ProblemKind::ObjectMissing("TypeX"));
}

#[test]
fn detail_counts_the_other_sources() {
    let mut store = Storage::new();
    for source in ["https://x/o/1", "https://x/o/2", "https://x/o/1", "https://x/o/3"] {
        store.add_link("Meeting", "https://x/m/1".to_string(), source.to_string());
    }
    let (_, _) = reconcile_run(&mut store, vec![], false);
    assert_eq!(
        store.problems()[0].detail,
        "https://x/m/1 referenced by https://x/o/1 and 3 others"
    );
    assert_eq!(store.problems()[0].kind, ProblemKind::ObjectMissing("Meeting"));
}

#[test]
fn one_url_under_two_types_is_probed_once_and_reported_twice() {
    let mut store = Storage::new();
    store.add_link("Meeting", "https://x/1".to_string(), "a".to_string());
    store.add_link("Paper", "https://x/1".to_string(), "b".to_string());
    store.add_link("Paper", "https://x/2".to_string(), "c".to_string());
    assert_eq!(Reconciler::count_missing(&store), 3);
    let (probed, _) = reconcile_run(&mut store, vec![], true);
    assert_eq!(probed, vec!["https://x/2".to_string(), "https://x/1".to_string()]);
    let kinds: Vec<ProblemKind> = store.problems().iter().map(|p| p.kind.clone()).collect();
    assert_eq!(
        kinds,
        vec![
            ProblemKind::ObjectNotInList("Meeting"),
            ProblemKind::ObjectNotInList("Paper"),
            ProblemKind::ObjectNotInList("Paper"),
        ]
    );
}

#[test]
fn never_more_than_fifty_probes_are_under_way() {
    let mut store = Storage::new();
    for i in 0..120 {
        store.add_link("Paper", format!("https://x/{}", i), "s".to_string());
    }
    let mut reconciler = Reconciler::start(&store, vec![]);
    assert_eq!(MAX_CONCURRENT_PROBES, 50);
    assert_eq!(reconciler.waiting(), 120);
    let mut issued = Vec::new();
    while let Some(url) = reconciler.next_probe() {
        issued.push(url);
    }
    assert_eq!(issued.len(), 50);
    assert_eq!(reconciler.in_flight(), 50);
    assert_eq!(reconciler.waiting(), 70);
    assert_eq!(reconciler.next_probe(), None);
    // Results arrive in any order.
    assert!(reconciler.record(&issued[17], true));
    assert_eq!(reconciler.in_flight(), 49);
    assert!(reconciler.next_probe().is_some());
    assert_eq!(reconciler.next_probe(), None);
    assert_eq!(reconciler.in_flight(), 50);
    assert!(!reconciler.is_done());
    assert!(reconciler.is_reachable(&issued[17]));
    assert!(!reconciler.is_reachable(&issued[18]));
}

#[test]
fn result_for_a_url_that_is_not_probed_is_ignored() {
    let store = reconcile_store();
    let mut reconciler = Reconciler::start(&store, vec![]);
    assert!(!reconciler.record("https://x/B", true));
    assert!(reconciler.known_statuses().is_empty());
    assert_eq!(reconciler.next_probe(), Some("https://x/B".to_string()));
    assert!(!reconciler.record("https://x/other", true));
    assert!(reconciler.record("https://x/B", true));
    assert!(!reconciler.record("https://x/B", false));
    assert!(reconciler.is_reachable("https://x/B"));
    assert!(reconciler.is_done());
}

#[test]
fn lookup_takes_the_latest_status() {
    let entries = vec![
        ProbeStatus { url: "a".to_string(), reachable: true },
        ProbeStatus { url: "b".to_string(), reachable: false },
        ProbeStatus { url: "a".to_string(), reachable: false },
    ];
    assert_eq!(lookup(&entries, "a"), Some(false));
    assert_eq!(lookup(&entries, "b"), Some(false));
    assert_eq!(lookup(&entries, "c"), None);
    assert!(contains_text(&vec!["x".to_string(), "y".to_string()], "y"));
    assert!(!contains_text(&vec!["x".to_string(), "y".to_string()], "z"));
}

#[test]
fn link_problem_names_the_first_source() {
    let link = Link {
        object_type: "Location",
        target: "https://x/location/1".to_string(),
        first_source: "https://x/person/15".to_string(),
        other_sources: vec!["https://x/person/16".to_string()],
    };
    assert_eq!(
        link_problem(&link, true),
        Problem {
            kind: ProblemKind::ObjectNotInList("Location"),
            path: String::new(),
            detail: "https://x/location/1 referenced by https://x/person/15 and 1 others".to_string(),
        }
    );
}

#[test]
fn report_keeps_what_was_in_the_store() {
    let mut store = reconcile_store();
    store.add_problem(Problem {
        kind: ProblemKind::UsingHttp,
        path: String::new(),
        detail: "before".to_string(),
    });
    let (_, _) = reconcile_run(&mut store, vec![], true);
    assert_eq!(store.problems().len(), 2);
    assert_eq!(store.problems()[0].detail, "before");
    assert!(store.has_id("https://x/A"));
    assert_eq!(store.links().len(), 1);
}

#[test]
fn kept_statuses_are_read_from_json() {
    let mut store = reconcile_store();
    store.add_link("TypeX", "https://x/C".to_string(), "https://x/S".to_string());
    let kept = "{\"https://x/B\": true, \"https://x/other\": false}".as_bytes();
    let mut reconciler = Reconciler::load(&store, Some(kept)).unwrap();
    assert!(reconciler.is_reachable("https://x/B"));
    assert!(!reconciler.is_reachable("https://x/other"));
    assert_eq!(lookup(reconciler.known_statuses(), "https://x/other"), Some(false));
    assert_eq!(lookup(reconciler.known_statuses(), "https://x/C"), None);
    assert_eq!(reconciler.next_probe(), Some("https://x/C".to_string()));
    assert_eq!(reconciler.next_probe(), None);
}

#[test]
fn nothing_kept_means_no_statuses() {
    let store = reconcile_store();
    let mut reconciler = Reconciler::load(&store, None).unwrap();
    assert!(reconciler.known_statuses().is_empty());
    assert_eq!(reconciler.next_probe(), Some("https://x/B".to_string()));
}

#[test]
fn corrupted_statuses_break_off_the_reconciliation() {
    let store = reconcile_store();
    for kept in ["", "[]", "{\"a\": 1}", "{\"a\": true", "true", "{\"a\": true} x"] {
        match Reconciler::load(&store, Some(kept.as_bytes())) {
            Err(StatusError::Corrupted(cause)) => {
                assert!(!cause.is_empty(), "{}", kept);
            }
            other => panic!("{}: {:?}", kept, other.map(|_| ())),
        }
    }
    let error = Reconciler::load(&store, Some("[]".as_bytes())).err().unwrap();
    assert_eq!(error.message(), "missing_ids.json is corrupted");
    assert!(error.cause().starts_with("invalid type"));
}

#[test]
fn statuses_are_kept_as_json_after_probing() {
    let mut store = Storage::new();
    store.add_link("Paper", "https://x/2".to_string(), "s".to_string());
    store.add_link("Paper", "https://x/1".to_string(), "s".to_string());
    let kept = "{\"https://x/0\": true}".as_bytes();
    let mut reconciler = Reconciler::load(&store, Some(kept)).unwrap();
    assert!(reconciler.to_keep().is_some());
    let first = reconciler.next_probe().unwrap();
    let second = reconciler.next_probe().unwrap();
    assert!(reconciler.record(&second, false));
    assert!(reconciler.record(&first, true));
    let bytes = reconciler.to_keep().unwrap();
    assert_eq!(
        String::from_utf8(bytes).unwrap(),
        "{\"https://x/0\":true,\"https://x/1\":true,\"https://x/2\":false}"
    );
}

#[test]
fn nothing_is_kept_where_nothing_was_probed() {
    let store = reconcile_store();
    let kept = "{\"https://x/B\": true}".as_bytes();
    let reconciler = Reconciler::load(&store, Some(kept)).unwrap();
    assert!(!reconciler.probed());
    assert_eq!(reconciler.to_keep(), None);
}

#[test]
fn kept_statuses_extend_the_earlier_ones_by_the_results() {
    let mut store = Storage::new();
    store.add_id("https://x/seen".to_string());
    for target in ["https://x/b", "https://x/seen", "https://x/a", "https://x/c"] {
        store.add_link("Paper", target.to_string(), "s".to_string());
    }
    let kept = "{\"https://x/z\": false, \"https://x/c\": true}".as_bytes();
    let mut reconciler = Reconciler::load(&store, Some(kept)).unwrap();
    let mut probed = Vec::new();
    while let Some(url) = reconciler.next_probe() {
        probed.push(url);
    }
    // Neither the listed object nor the one with a status is probed.
    assert_eq!(probed, vec!["https://x/a".to_string(), "https://x/b".to_string()]);
    assert!(reconciler.record("https://x/b", true));
    assert!(reconciler.record("https://x/a", false));
    assert!(reconciler.is_done());
    assert_eq!(
        String::from_utf8(reconciler.to_keep().unwrap()).unwrap(),
        "{\"https://x/a\":false,\"https://x/b\":true,\"https://x/c\":true,\"https://x/z\":false}"
    );
}

#[test]
fn ordered_statuses_ascend_and_keep_the_latest_status() {
    let status = |url: &str, reachable: bool| ProbeStatus { url: url.to_string(), reachable };
    let entries = vec![
        status("c", true),
        status("a", false),
        status("b", true),
        status("a", true),
        status("", false),
        status("c", false),
        status("ä", true),
    ];
    assert_eq!(
        ordered_statuses(&entries),
        vec![
            status("", false),
            status("a", true),
            status("b", true),
            status("c", false),
            status("ä", true),
        ]
    );
    assert_eq!(ordered_statuses(&vec![]), vec![]);
}
