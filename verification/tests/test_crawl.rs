use oparl_validator_rs::crawl::{CrawlAction, ListCrawl, MAX_ATTEMPTS, RETRY_DELAY_SECONDS};
use oparl_validator_rs::external_list::{ExternalList, Links, Pagination};
use oparl_validator_rs::json::next_link;
use oparl_validator_rs::storage::Storage;
use oparl_validator_rs::visit::{Field, OparlObject, Problem, ProblemKind, SchemaValue};

fn crawl_object(id: &str) -> OparlObject {
    OparlObject {
        object_type: "Paper",
        id: Some(id.to_string()),
        fields: vec![Field { name: "name", value: SchemaValue::Text("n".to_string()) }],
        required: vec![],
    }
}

fn crawl_page(ids: &[&str], next: Option<&str>, total_pages: Option<usize>) -> ExternalList<OparlObject> {
    ExternalList {
        data: ids.iter().map(|id| crawl_object(id)).collect(),
        pagination: Pagination { total_pages, ..Pagination::default() },
        links: Links { next: next.map(|x| x.to_string()), ..Links::default() },
    }
}

fn crawl_kinds(store: &Storage) -> Vec<ProblemKind> {
    store.problems().iter().map(|p| p.kind.clone()).collect()
}

#[test]
fn crawl_starts_with_the_first_page() {
    let crawl = ListCrawl::new("Paper", "https://x/paper");
    assert_eq!(crawl.next_action(), CrawlAction::Fetch("https://x/paper".to_string()));
    assert!(!crawl.is_finished());
    assert_eq!(crawl.object_count(), 0);
    assert_eq!(crawl.page_count(), 0);
    assert_eq!(crawl.expected_pages(), None);
}

#[test]
fn crawl_visits_every_object_of_every_page() {
    let mut store = Storage::new();
    let mut crawl = ListCrawl::new("Paper", "https://x/paper");
    let pages = vec![
        crawl_page(&["https://x/p/1", "https://x/p/2"], Some("https://x/paper?page=2"), Some(3)),
        crawl_page(&[], Some("https://x/paper?page=3"), None),
        crawl_page(&["https://x/p/3", "https://x/p/4", "https://x/p/5"], None, Some(3)),
    ];
    let action = crawl.on_page(&mut store, &pages[0]);
    assert_eq!(action, CrawlAction::Fetch("https://x/paper?page=2".to_string()));
    assert_eq!(crawl.expected_pages(), Some(3));
    let action = crawl.on_page(&mut store, &pages[1]);
    assert_eq!(action, CrawlAction::Fetch("https://x/paper?page=3".to_string()));
    assert_eq!(crawl.expected_pages(), Some(3));
    let action = crawl.on_page(&mut store, &pages[2]);
    assert_eq!(action, CrawlAction::Finished);
    assert!(crawl.is_finished());
    assert_eq!(crawl.object_count(), 5);
    assert_eq!(crawl.page_count(), 3);
    for id in ["https://x/p/1", "https://x/p/2", "https://x/p/3", "https://x/p/4", "https://x/p/5"] {
        assert!(store.has_id(id), "{}", id);
    }
    assert!(store.problems().is_empty());
    assert_eq!(crawl.summary(), "Found 5 Paper in 3 pages");
}

#[test]
fn crawl_describes_findings_by_the_url_of_their_page() {
    let mut store = Storage::new();
    let mut crawl = ListCrawl::new("Paper", "https://x/paper");
    let mut first = crawl_page(&["https://x/p/1"], Some("https://x/paper?page=2"), None);
    first.data[0].fields[0].value = SchemaValue::Text(String::new());
    let mut second = crawl_page(&["https://x/p/2"], None, None);
    second.data[0].fields[0].value = SchemaValue::Text(String::new());
    crawl.on_page(&mut store, &first);
    crawl.on_page(&mut store, &second);
    assert_eq!(store.problems()[0].detail, "https://x/p/1 within https://x/paper");
    assert_eq!(store.problems()[1].detail, "https://x/p/2 within https://x/paper?page=2");
    assert_eq!(store.problems()[0].path, "Paper.name");
}

#[test]
fn two_failures_then_success_gives_two_retry_findings() {
    let mut store = Storage::new();
    let mut crawl = ListCrawl::new("Paper", "https://x/paper");
    let retry = CrawlAction::RetryAfter { url: "https://x/paper".to_string(), seconds: 5 };
    assert_eq!(crawl.on_fetch_failed(&mut store, "timeout"), retry);
    assert_eq!(crawl.on_fetch_failed(&mut store, "reset"), retry);
    let action = crawl.on_page(&mut store, &crawl_page(&["https://x/p/1"], None, None));
    assert_eq!(action, CrawlAction::Finished);
    assert_eq!(
        store.problems(),
        &vec![
            Problem {
                kind: ProblemKind::HttpRequestFailedRetrying,
                path: String::new(),
                detail: "Abfrage von https://x/paper ist fehlgeschlagen, wird erneut versucht: timeout"
                    .to_string(),
            },
            Problem {
                kind: ProblemKind::HttpRequestFailedRetrying,
                path: String::new(),
                detail: "Abfrage von https://x/paper ist fehlgeschlagen, wird erneut versucht: reset"
                    .to_string(),
            },
        ]
    );
    assert!(store.has_id("https://x/p/1"));
    assert_eq!(crawl.object_count(), 1);
    assert_eq!(crawl.page_count(), 1);
}

#[test]
fn three_failures_give_up_the_list() {
    let mut store = Storage::new();
    let mut crawl = ListCrawl::new("Paper", "https://x/paper");
    crawl.on_fetch_failed(&mut store, "e1");
    crawl.on_fetch_failed(&mut store, "e2");
    assert_eq!(crawl.on_fetch_failed(&mut store, "e3"), CrawlAction::Finished);
    assert!(crawl.is_finished());
    assert_eq!(
        crawl_kinds(&store),
        vec![
            ProblemKind::HttpRequestFailedRetrying,
            ProblemKind::HttpRequestFailedRetrying,
            ProblemKind::HttpRequestFailedTooOften,
        ]
    );
    assert_eq!(
        store.problems()[2].detail,
        "Die Abfrage https://x/paper ist zu oft fehlgeschlagen, eine Validierung der Liste ist nicht möglich: e3"
    );
    assert_eq!(store.problems()[2].path, "");
    assert_eq!(crawl.next_action(), CrawlAction::Finished);
    // Nothing that is reported afterwards is visited or counted.
    let action = crawl.on_page(&mut store, &crawl_page(&["https://x/p/1"], Some("https://x/2"), None));
    assert_eq!(action, CrawlAction::Finished);
    assert!(!store.has_id("https://x/p/1"));
    assert_eq!(crawl.on_fetch_failed(&mut store, "e4"), CrawlAction::Finished);
    assert_eq!(crawl.skip_page(&mut store, Some("https://x/3".to_string()), "e"), CrawlAction::Finished);
    assert_eq!(store.problems().len(), 3);
    assert_eq!(crawl.object_count(), 0);
    assert_eq!(crawl.page_count(), 0);
}

#[test]
fn every_page_has_its_own_attempts() {
    let mut store = Storage::new();
    let mut crawl = ListCrawl::new("Paper", "https://x/paper");
    crawl.on_fetch_failed(&mut store, "e1");
    crawl.on_fetch_failed(&mut store, "e2");
    crawl.on_page(&mut store, &crawl_page(&[], Some("https://x/paper?page=2"), None));
    let action = crawl.on_fetch_failed(&mut store, "e3");
    assert_eq!(
        action,
        CrawlAction::RetryAfter { url: "https://x/paper?page=2".to_string(), seconds: RETRY_DELAY_SECONDS }
    );
    assert_eq!(MAX_ATTEMPTS, 3);
    assert_eq!(RETRY_DELAY_SECONDS, 5);
    assert!(!crawl.is_finished());
}

#[test]
fn invalid_page_is_reported_and_the_next_link_recovered() {
    let mut store = Storage::new();
    let mut crawl = ListCrawl::new("Meeting", "https://x/meeting");
    let raw: serde_json::Value = serde_json::from_str(
        "{\"data\": 5, \"links\": {\"next\": \"https://x/meeting?page=2\", \"self\": \"https://x/meeting\"}}",
    )
    .unwrap();
    let action = crawl.on_invalid_page(&mut store, &raw, "invalid type: integer `5`");
    assert_eq!(action, CrawlAction::Fetch("https://x/meeting?page=2".to_string()));
    assert_eq!(
        store.problems(),
        &vec![Problem {
            kind: ProblemKind::InvalidJson,
            path: String::new(),
            detail: "Die Liste unter https://x/meeting passt nicht zum Schema von externen Listen: invalid type: integer `5`".to_string(),
        }]
    );
    assert_eq!(crawl.page_count(), 1);
    assert_eq!(crawl.object_count(), 0);
    assert_eq!(crawl.summary(), "Found 0 Meeting in 1 pages");
}

#[test]
fn invalid_page_without_next_link_ends_the_crawl() {
    for text in [
        "{\"data\": []}",
        "{\"links\": {}}",
        "{\"links\": {\"next\": 7}}",
        "{\"links\": {\"next\": null}}",
        "{\"links\": [\"next\"]}",
        "{\"links\": \"next\"}",
        "[1, 2]",
        "\"https://x/next\"",
        "null",
    ] {
        let mut store = Storage::new();
        let mut crawl = ListCrawl::new("Meeting", "https://x/meeting");
        let raw: serde_json::Value = serde_json::from_str(text).unwrap();
        assert_eq!(next_link(&raw), None, "{}", text);
        assert_eq!(crawl.on_invalid_page(&mut store, &raw, "e"), CrawlAction::Finished, "{}", text);
        assert!(crawl.is_finished());
        assert_eq!(store.problems().len(), 1);
    }
}

#[test]
fn next_link_reads_links_next() {
    let raw: serde_json::Value =
        serde_json::from_str("{\"links\": {\"next\": \"https://x/2\"}, \"next\": \"https://x/wrong\"}")
            .unwrap();
    assert_eq!(next_link(&raw), Some("https://x/2".to_string()));
    let raw: serde_json::Value = serde_json::from_str("{\"links\": {\"next\": \"\"}}").unwrap();
    assert_eq!(next_link(&raw), Some(String::new()));
}

#[test]
fn skip_page_moves_on_to_what_was_recovered() {
    let mut store = Storage::new();
    let mut crawl = ListCrawl::new("Meeting", "https://x/meeting");
    crawl.on_fetch_failed(&mut store, "e");
    let action = crawl.skip_page(&mut store, Some("https://x/meeting?page=2".to_string()), "bad");
    assert_eq!(action, CrawlAction::Fetch("https://x/meeting?page=2".to_string()));
    // The retries start anew on the next page.
    crawl.on_fetch_failed(&mut store, "e");
    let action = crawl.on_fetch_failed(&mut store, "e");
    assert_eq!(
        action,
        CrawlAction::RetryAfter { url: "https://x/meeting?page=2".to_string(), seconds: 5 }
    );
}
