use oparl_validator_rs::crawl::{CrawlAction, ListCrawl};
use oparl_validator_rs::external_list::{ExternalList, Links, Pagination};
use oparl_validator_rs::grouping::ProblemGroup;
use oparl_validator_rs::reconcile::Reconciler;
use oparl_validator_rs::report::{
    example_detail, group_details, group_summary, problem_report, write_detail_report,
    DETAIL_LIMIT, DETAIL_NOTICE,
};
use oparl_validator_rs::schema::{OparlUrl, OtherUrl};
use oparl_validator_rs::storage::Storage;
use oparl_validator_rs::validate::{visit_body, visit_system};
use oparl_validator_rs::visit::{OparlObject, Problem, ProblemKind, SchemaValue};

fn report_problem(kind: ProblemKind, path: &str, detail: &str) -> Problem {
    Problem { kind, path: path.to_string(), detail: detail.to_string() }
}

fn report_some(value: SchemaValue) -> SchemaValue {
    SchemaValue::Optional(Some(Box::new(value)))
}

fn report_url(url: &str) -> SchemaValue {
    report_some(SchemaValue::External(OtherUrl::new(url.to_string())))
}

fn report_text(text: &str) -> SchemaValue {
    report_some(SchemaValue::Text(text.to_string()))
}

/// An object of `object_type` in which only the named fields are present.
fn report_object(
    object_type: &'static str,
    id: &str,
    present: Vec<(&'static str, SchemaValue)>,
) -> OparlObject {
    let names = oparl_validator_rs::schema::field_names(object_type).unwrap();
    let mut present = present;
    present.push(("id", report_url(id)));
    let mut values = Vec::new();
    for name in names {
        match present.iter().position(|(n, _)| *n == name) {
            Some(i) => values.push(present.remove(i).1),
            None => values.push(SchemaValue::Optional(None)),
        }
    }
    assert!(present.is_empty());
    OparlObject::assemble(object_type, Some(id.to_string()), values).unwrap()
}

#[test]
fn summary_line_counts_and_shows_the_least_detail() {
    let group = ProblemGroup {
        kind: ProblemKind::RequiredFieldMissing,
        path: "Meeting.type".to_string(),
        problems: vec![
            report_problem(ProblemKind::RequiredFieldMissing, "Meeting.type", "https://x/m/20 within p"),
            report_problem(ProblemKind::RequiredFieldMissing, "Meeting.type", "https://x/m/1082 within p"),
            report_problem(ProblemKind::RequiredFieldMissing, "Meeting.type", "https://x/m/3 within p"),
        ],
    };
    assert_eq!(example_detail(&group.problems), "https://x/m/1082 within p");
    assert_eq!(
        group_summary(&group),
        "Das zwingend vorgeschriebene Feld Meeting.type fehlt (3 cases). Example: https://x/m/1082 within p"
    );
}

#[test]
fn example_of_no_finding_is_empty() {
    assert_eq!(example_detail(&vec![]), "");
}

#[test]
fn example_is_least_by_code_point() {
    let problems = vec![
        report_problem(ProblemKind::UsingHttp, "", "b"),
        report_problem(ProblemKind::UsingHttp, "", "ä"),
        report_problem(ProblemKind::UsingHttp, "", "B"),
        report_problem(ProblemKind::UsingHttp, "", "Ba"),
        report_problem(ProblemKind::UsingHttp, "", "z"),
    ];
    assert_eq!(example_detail(&problems), "B");
}

#[test]
fn summary_report_has_a_header_and_a_line_for_each_group() {
    let mut store = Storage::new();
    store.add_problem(report_problem(ProblemKind::EmptyString, "AgendaItem.number", "y"));
    store.add_problem(report_problem(ProblemKind::ObjectMissing("Meeting"), "", "m2"));
    store.add_problem(report_problem(ProblemKind::EmptyString, "AgendaItem.number", "x"));
    store.add_problem(report_problem(ProblemKind::ObjectMissing("Meeting"), "", "m1"));
    assert_eq!(
        problem_report(&store, true),
        vec![
            "=== Validierungsreport: Zusammenfassung ===".to_string(),
            "Das Objekt vom Typ Meeting wurden von einem anderen Objekt verlinkt, ist aber nicht abrufbar (2 cases). Example: m1".to_string(),
            "Das Feld AgendaItem.number ist angegeben, hat aber keinen Inhalt (2 cases). Example: x".to_string(),
        ]
    );
    assert_eq!(
        problem_report(&store, false)[0],
        "=== ZWISCHENSTAND Zusammenfassung Validierungsreport ==="
    );
    assert_eq!(problem_report(&store, false)[1..], problem_report(&store, true)[1..]);
}

#[test]
fn summary_does_not_depend_on_the_order_of_the_log() {
    let log = vec![
        report_problem(ProblemKind::EmptyString, "A.b", "3"),
        report_problem(ProblemKind::UsingHttp, "", "u"),
        report_problem(ProblemKind::EmptyString, "A.b", "1"),
        report_problem(ProblemKind::EmptyString, "A.a", "2"),
        report_problem(ProblemKind::HttpRequestFailedTooOften, "", "t"),
        report_problem(ProblemKind::HttpRequestFailedRetrying, "", "r"),
    ];
    let mut forward = Storage::new();
    for p in log.iter() {
        forward.add_problem(p.clone());
    }
    let mut backward = Storage::new();
    for p in log.iter().rev() {
        backward.add_problem(p.clone());
    }
    let expected = vec![
        "=== Validierungsreport: Zusammenfassung ===".to_string(),
        "Die Abfrage schlug fehl und musste wiederholt werden (1 cases). Example: r".to_string(),
        "Die Abfrage schlug zu oft fehl und konnte nicht abgeschlossen werden (1 cases). Example: t".to_string(),
        "Das Feld A.a ist angegeben, hat aber keinen Inhalt (1 cases). Example: 2".to_string(),
        "Das Feld A.b ist angegeben, hat aber keinen Inhalt (2 cases). Example: 1".to_string(),
        "Das unsichere HTTP wird verwendet (1 cases). Example: u".to_string(),
    ];
    assert_eq!(problem_report(&forward, true), expected);
    assert_eq!(problem_report(&backward, true), expected);
    assert_eq!(problem_report(&forward, true), problem_report(&forward, true));
}

#[test]
fn empty_store_reports_only_the_headers() {
    let store = Storage::new();
    assert_eq!(problem_report(&store, true), vec!["=== Validierungsreport: Zusammenfassung ===".to_string()]);
    assert_eq!(write_detail_report(&store), vec!["=== Detailreport: Alle Einzelfälle ===".to_string()]);
    assert_eq!(DETAIL_NOTICE, "\nAlle einzelnen Fälle finden sich in report.txt");
}

#[test]
fn detail_report_lists_every_detail_of_a_small_group() {
    let mut store = Storage::new();
    store.add_problem(report_problem(ProblemKind::UsingHttp, "", "b"));
    store.add_problem(report_problem(ProblemKind::RequiredFieldMissing, "Paper.type", "p"));
    store.add_problem(report_problem(ProblemKind::UsingHttp, "", "a"));
    assert_eq!(
        write_detail_report(&store),
        vec![
            "=== Detailreport: Alle Einzelfälle ===".to_string(),
            "== Das zwingend vorgeschriebene Feld Paper.type fehlt (1 Fälle) ==".to_string(),
            "p".to_string(),
            "== Das unsichere HTTP wird verwendet (2 Fälle) ==".to_string(),
            "b".to_string(),
            "a".to_string(),
        ]
    );
}

#[test]
fn detail_report_stops_after_a_hundred_details() {
    assert_eq!(DETAIL_LIMIT, 100);
    let make = |n: usize| ProblemGroup {
        kind: ProblemKind::UsingHttp,
        path: String::new(),
        problems: (0..n).map(|i| report_problem(ProblemKind::UsingHttp, "", &format!("d{}", i))).collect(),
    };
    let exact = group_details(&make(100));
    assert_eq!(exact.len(), 101);
    assert_eq!(exact[0], "== Das unsichere HTTP wird verwendet (100 Fälle) ==");
    assert_eq!(exact[100], "d99");
    let more = group_details(&make(105));
    assert_eq!(more.len(), 102);
    assert_eq!(more[0], "== Das unsichere HTTP wird verwendet (105 Fälle) ==");
    assert_eq!(more[1], "d0");
    assert_eq!(more[100], "d99");
    assert_eq!(more[101], "... and 5 more cases");
    let one_more = group_details(&make(101));
    assert_eq!(one_more[101], "... and 1 more cases");
}

#[test]
fn end_to_end_scenario() {
    let mut store = Storage::new();
    // The entry point names its list of bodies.
    let system = report_object(
        "System",
        "https://x/system",
        vec![
            ("type", report_text("https://schema.oparl.org/1.1/System")),
            ("oparlVersion", report_text("https://schema.oparl.org/1.1/")),
            ("body", report_url("https://x/body")),
        ],
    );
    let body_list = visit_system(&mut store, &system, "https://x/system");
    assert_eq!(body_list, Some("https://x/body".to_string()));
    assert!(store.problems().is_empty());

    // The body names its four lists and leaves out its legislative terms.
    let body = report_object(
        "Body",
        "https://x/body/1",
        vec![
            ("type", report_text("https://schema.oparl.org/1.1/Body")),
            ("name", report_text("Stadt X")),
            ("organization", report_url("https://x/body/1/organization")),
            ("person", report_url("https://x/body/1/person")),
            ("meeting", report_url("https://x/body/1/meeting")),
            ("paper", report_url("https://x/body/1/paper")),
        ],
    );
    let lists = visit_body(&mut store, &body, "https://x/body").unwrap();
    assert_eq!(lists.paper, "https://x/body/1/paper");
    assert_eq!(lists.organization, "https://x/body/1/organization");
    assert_eq!(lists.person, "https://x/body/1/person");
    assert_eq!(lists.meeting, "https://x/body/1/meeting");
    assert_eq!(
        store.problems(),
        &vec![report_problem(
            ProblemKind::RequiredFieldMissing,
            "Body.legislativeTerm",
            "https://x/body/1 within https://x/body"
        )]
    );

    // Twenty-one meetings without a type, on three pages.
    let mut crawl = ListCrawl::new("Meeting", &lists.meeting);
    let mut id = 0;
    for page in 0..3 {
        let url = match crawl.next_action() {
            CrawlAction::Fetch(url) => url,
            other => panic!("{:?}", other),
        };
        let expected = if page == 0 {
            "https://x/body/1/meeting".to_string()
        } else {
            format!("https://x/body/1/meeting?page={}", page + 1)
        };
        assert_eq!(url, expected);
        let mut data = Vec::new();
        for _ in 0..7 {
            id += 1;
            data.push(report_object("Meeting", &format!("https://x/meeting/{}", id), vec![]));
        }
        let next = if page < 2 {
            Some(format!("https://x/body/1/meeting?page={}", page + 2))
        } else {
            None
        };
        crawl.on_page(
            &mut store,
            &ExternalList {
                data,
                pagination: Pagination::default(),
                links: Links { next, ..Links::default() },
            },
        );
    }
    assert!(crawl.is_finished());
    assert_eq!(crawl.summary(), "Found 21 Meeting in 3 pages");

    // An organization refers to a meeting that is in no list, and so does a person.
    let mut crawl = ListCrawl::new("Organization", &lists.organization);
    let organization = |n: usize| {
        report_object(
            "Organization",
            &format!("https://x/organization/{}", n),
            vec![
                ("type", report_text("https://schema.oparl.org/1.1/Organization")),
                (
                    "meeting",
                    report_some(SchemaValue::Reference(OparlUrl::new(
                        "Meeting",
                        "https://x/meeting/99".to_string(),
                    ))),
                ),
            ],
        )
    };
    crawl.on_page(
        &mut store,
        &ExternalList {
            data: vec![organization(1), organization(2), organization(3)],
            pagination: Pagination::default(),
            links: Links::default(),
        },
    );

    // The missing meeting cannot be fetched on its own either.
    let mut reconciler = Reconciler::start(&store, vec![]);
    assert_eq!(reconciler.next_probe(), Some("https://x/meeting/99".to_string()));
    assert_eq!(reconciler.next_probe(), None);
    assert!(reconciler.record("https://x/meeting/99", false));
    assert!(reconciler.is_done());
    reconciler.report(&mut store);

    let missing: Vec<&Problem> = store
        .problems()
        .iter()
        .filter(|p| p.kind == ProblemKind::ObjectMissing("Meeting"))
        .collect();
    assert_eq!(missing.len(), 1);
    assert_eq!(
        missing[0].detail,
        "https://x/meeting/99 referenced by https://x/organization/1 and 2 others"
    );

    let groups = store.problems_grouped();
    let keys: Vec<(ProblemKind, &str, usize)> =
        groups.iter().map(|g| (g.kind.clone(), g.path.as_str(), g.problems.len())).collect();
    assert_eq!(
        keys,
        vec![
            (ProblemKind::ObjectMissing("Meeting"), "", 1),
            (ProblemKind::RequiredFieldMissing, "Body.legislativeTerm", 1),
            (ProblemKind::RequiredFieldMissing, "Meeting.type", 21),
        ]
    );
    assert_eq!(
        problem_report(&store, true),
        vec![
            "=== Validierungsreport: Zusammenfassung ===".to_string(),
            "Das Objekt vom Typ Meeting wurden von einem anderen Objekt verlinkt, ist aber nicht abrufbar (1 cases). Example: https://x/meeting/99 referenced by https://x/organization/1 and 2 others".to_string(),
            "Das zwingend vorgeschriebene Feld Body.legislativeTerm fehlt (1 cases). Example: https://x/body/1 within https://x/body".to_string(),
            "Das zwingend vorgeschriebene Feld Meeting.type fehlt (21 cases). Example: https://x/meeting/1 within https://x/body/1/meeting".to_string(),
        ]
    );
}
