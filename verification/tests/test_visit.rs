use oparl_validator_rs::schema::{OparlUrl, OtherUrl};
use oparl_validator_rs::storage::Storage;
use oparl_validator_rs::visit::{
    format_detail, Field, OparlObject, Problem, ProblemKind, SchemaValue,
};

fn visit_text(s: &str) -> SchemaValue {
    SchemaValue::Optional(Some(Box::new(SchemaValue::Text(s.to_string()))))
}

fn visit_object(
    object_type: &'static str,
    id: Option<&str>,
    fields: Vec<(&'static str, SchemaValue)>,
    required: Vec<&'static str>,
) -> OparlObject {
    OparlObject {
        object_type,
        id: id.map(|x| x.to_string()),
        fields: fields
            .into_iter()
            .map(|(name, value)| Field { name, value })
            .collect(),
        required,
    }
}

#[test]
fn format_detail_of_the_page_itself_is_the_url() {
    assert_eq!(format_detail(Some("https://x/body"), "https://x/body"), "https://x/body");
}

#[test]
fn format_detail_names_id_and_page() {
    assert_eq!(
        format_detail(Some("https://x/body/1"), "https://x/body"),
        "https://x/body/1 within https://x/body"
    );
}

#[test]
fn format_detail_without_id_uses_a_stand_in() {
    assert_eq!(
        format_detail(None, "https://x/body"),
        "object with missing id within https://x/body"
    );
}

#[test]
fn problem_to_string_quotes_the_type() {
    let problem = Problem {
        kind: ProblemKind::ObjectMissing("Meeting"),
        path: String::new(),
        detail: "x".to_string(),
    };
    assert_eq!(problem.to_string(), "ObjectMissing(\"Meeting\"): x");
}

#[test]
fn problem_to_string_with_path() {
    let problem = Problem {
        kind: ProblemKind::EmptyString,
        path: "AgendaItem.number".to_string(),
        detail: "somewhere".to_string(),
    };
    assert_eq!(problem.to_string(), "EmptyString AgendaItem.number: somewhere");
}

#[test]
fn problem_to_string_escapes_the_quoted_type() {
    let problem = Problem {
        kind: ProblemKind::ObjectNotInList("a\"b"),
        path: String::new(),
        detail: "d".to_string(),
    };
    assert_eq!(problem.to_string(), "ObjectNotInList(\"a\\\"b\"): d");
}

#[test]
fn message_of_every_kind() {
    assert_eq!(
        ProblemKind::RequiredFieldMissing.message("Body.legislativeTerm"),
        "Das zwingend vorgeschriebene Feld Body.legislativeTerm fehlt"
    );
    assert_eq!(
        ProblemKind::ObjectMissing("Meeting").message(""),
        "Das Objekt vom Typ Meeting wurden von einem anderen Objekt verlinkt, ist aber nicht abrufbar"
    );
    assert_eq!(
        ProblemKind::ObjectNotInList("Location").message("ignored"),
        "Das Objekt von Typ Location wurde von einem anderen Objekt verlinkt, fehlt aber in den externen Listen"
    );
    assert_eq!(
        ProblemKind::EmptyString.message("AgendaItem.number"),
        "Das Feld AgendaItem.number ist angegeben, hat aber keinen Inhalt"
    );
    assert_eq!(ProblemKind::UsingHttp.message("x"), "Das unsichere HTTP wird verwendet");
    assert_eq!(
        ProblemKind::InvalidJson.message("x"),
        "Es wurde kein gültiges JSON zurückgegeben"
    );
    assert_eq!(
        ProblemKind::HttpRequestFailedRetrying.message("x"),
        "Die Abfrage schlug fehl und musste wiederholt werden"
    );
    assert_eq!(
        ProblemKind::HttpRequestFailedTooOften.message("x"),
        "Die Abfrage schlug zu oft fehl und konnte nicht abgeschlossen werden"
    );
}

#[test]
fn kinds_are_ordered_as_declared() {
    let kinds = vec![
        ProblemKind::HttpRequestFailedRetrying,
        ProblemKind::HttpRequestFailedTooOften,
        ProblemKind::ObjectMissing("A"),
        ProblemKind::ObjectMissing("B"),
        ProblemKind::ObjectNotInList("A"),
        ProblemKind::RequiredFieldMissing,
        ProblemKind::EmptyString,
        ProblemKind::UsingHttp,
        ProblemKind::InvalidJson,
    ];
    for i in 0..kinds.len() {
        for j in 0..kinds.len() {
            assert_eq!(kinds[i].precedes(&kinds[j]), i < j, "{} {}", i, j);
            assert_eq!(kinds[i].same_as(&kinds[j]), i == j, "{} {}", i, j);
        }
    }
}

#[test]
fn empty_text_is_reported() {
    let mut store = Storage::new();
    SchemaValue::Text(String::new()).visit(
        &mut store,
        "https://x/list",
        Some("https://x/1"),
        "AgendaItem.number",
        false,
    );
    assert_eq!(
        store.problems(),
        &vec![Problem {
            kind: ProblemKind::EmptyString,
            path: "AgendaItem.number".to_string(),
            detail: "https://x/1 within https://x/list".to_string(),
        }]
    );
}

#[test]
fn filled_text_numbers_and_flags_are_not_reported() {
    let mut store = Storage::new();
    for value in [
        SchemaValue::Text("a".to_string()),
        SchemaValue::Number(0),
        SchemaValue::Flag(false),
        SchemaValue::Opaque,
    ] {
        value.visit(&mut store, "https://x/list", None, "T.f", true);
    }
    assert!(store.problems().is_empty());
    assert!(store.links().is_empty());
}

#[test]
fn absent_required_value_is_reported() {
    let mut store = Storage::new();
    SchemaValue::Optional(None).visit(
        &mut store,
        "https://x/body",
        Some("https://x/body/1"),
        "Body.legislativeTerm",
        true,
    );
    assert_eq!(
        store.problems(),
        &vec![Problem {
            kind: ProblemKind::RequiredFieldMissing,
            path: "Body.legislativeTerm".to_string(),
            detail: "https://x/body/1 within https://x/body".to_string(),
        }]
    );
}

#[test]
fn absent_optional_value_is_not_reported() {
    let mut store = Storage::new();
    SchemaValue::Optional(None).visit(&mut store, "https://x/body", None, "Body.ags", false);
    assert!(store.problems().is_empty());
}

#[test]
fn is_some_tells_absent_values_apart() {
    assert!(!SchemaValue::Optional(None).is_some());
    assert!(visit_text("a").is_some());
    assert!(SchemaValue::Sequence(vec![]).is_some());
    assert!(SchemaValue::Number(1).is_some());
}

#[test]
fn reference_is_recorded_with_its_owner() {
    let mut store = Storage::new();
    SchemaValue::Reference(OparlUrl::new("Body", "https://x/body/1".to_string())).visit(
        &mut store,
        "https://x/paper?page=1",
        Some("https://x/paper/7"),
        "Paper.body",
        false,
    );
    assert_eq!(store.links().len(), 1);
    assert_eq!(store.links()[0].object_type, "Body");
    assert_eq!(store.links()[0].target, "https://x/body/1");
    assert_eq!(store.links()[0].sources(), vec!["https://x/paper/7".to_string()]);
    assert!(!store.has_id("https://x/body/1"));
}

#[test]
fn reference_without_owner_is_recorded_with_the_page() {
    let mut store = Storage::new();
    SchemaValue::Reference(OparlUrl::new("Body", "https://x/body/1".to_string())).visit(
        &mut store,
        "https://x/paper?page=1",
        None,
        "Paper.body",
        false,
    );
    assert_eq!(store.links()[0].sources(), vec!["https://x/paper?page=1".to_string()]);
}

#[test]
fn other_url_is_recorded() {
    let mut store = Storage::new();
    SchemaValue::External(OtherUrl::new("https://elsewhere/doc.pdf".to_string())).visit(
        &mut store,
        "https://x/list",
        None,
        "File.accessUrl",
        true,
    );
    assert!(store.has_other_url("https://elsewhere/doc.pdf"));
    assert!(!store.has_other_url("https://elsewhere/other.pdf"));
    assert!(store.problems().is_empty());
}

#[test]
fn sequence_visits_every_element_with_the_same_path() {
    let mut store = Storage::new();
    SchemaValue::Sequence(vec![
        SchemaValue::Text(String::new()),
        SchemaValue::Text("x".to_string()),
        SchemaValue::Text(String::new()),
    ])
    .visit(&mut store, "https://x/list", Some("https://x/1"), "Person.title", false);
    assert_eq!(store.problems().len(), 2);
    for problem in store.problems() {
        assert_eq!(problem.kind, ProblemKind::EmptyString);
        assert_eq!(problem.path, "Person.title");
    }
}

#[test]
fn object_records_its_id_and_visits_its_fields() {
    let object = visit_object(
        "Meeting",
        Some("https://x/meeting/1"),
        vec![
            ("id", SchemaValue::Optional(Some(Box::new(SchemaValue::External(OtherUrl::new(
                "https://x/meeting/1".to_string(),
            )))))),
            ("type", SchemaValue::Optional(None)),
            ("name", visit_text("")),
            (
                "organization",
                SchemaValue::Optional(Some(Box::new(SchemaValue::Sequence(vec![
                    SchemaValue::Reference(OparlUrl::new(
                        "Organization",
                        "https://x/organization/5".to_string(),
                    )),
                ])))),
            ),
        ],
        vec!["id", "type"],
    );
    let mut store = Storage::new();
    object.visit(&mut store, "https://x/meeting?page=2");
    assert!(store.has_id("https://x/meeting/1"));
    assert!(store.has_other_url("https://x/meeting/1"));
    assert_eq!(
        store.problems(),
        &vec![
            Problem {
                kind: ProblemKind::RequiredFieldMissing,
                path: "Meeting.type".to_string(),
                detail: "https://x/meeting/1 within https://x/meeting?page=2".to_string(),
            },
            Problem {
                kind: ProblemKind::EmptyString,
                path: "Meeting.name".to_string(),
                detail: "https://x/meeting/1 within https://x/meeting?page=2".to_string(),
            },
        ]
    );
    assert_eq!(store.links().len(), 1);
    assert_eq!(store.links()[0].object_type, "Organization");
    assert_eq!(store.links()[0].sources(), vec!["https://x/meeting/1".to_string()]);
}

#[test]
fn insecure_id_is_reported() {
    let object = visit_object("Paper", Some("http://x/paper/1"), vec![], vec![]);
    let mut store = Storage::new();
    object.visit(&mut store, "https://x/paper");
    assert!(store.has_id("http://x/paper/1"));
    assert_eq!(
        store.problems(),
        &vec![Problem {
            kind: ProblemKind::UsingHttp,
            path: String::new(),
            detail: "Das id Feld verwendet das unsichere http (http://x/paper/1)".to_string(),
        }]
    );
}

#[test]
fn secure_id_is_not_reported() {
    let object = visit_object("Paper", Some("https://x/paper/1"), vec![], vec![]);
    let mut store = Storage::new();
    object.visit(&mut store, "https://x/paper");
    assert!(store.problems().is_empty());
}

#[test]
fn object_without_id_is_described_by_a_stand_in() {
    let object = visit_object("Paper", None, vec![("name", visit_text(""))], vec![]);
    let mut store = Storage::new();
    object.visit(&mut store, "https://x/paper");
    assert_eq!(
        store.problems()[0].detail,
        "object with missing id within https://x/paper"
    );
}

#[test]
fn embedded_object_becomes_the_owner_of_its_fields() {
    let file = visit_object(
        "File",
        Some("https://x/file/9"),
        vec![(
            "masterFile",
            SchemaValue::Reference(OparlUrl::new("File", "https://x/file/1".to_string())),
        )],
        vec![],
    );
    let paper = visit_object(
        "Paper",
        Some("https://x/paper/3"),
        vec![("mainFile", SchemaValue::Embedded(Box::new(file)))],
        vec![],
    );
    let mut store = Storage::new();
    SchemaValue::Embedded(Box::new(paper)).visit(&mut store, "https://x/paper", None, "", false);
    assert!(store.has_id("https://x/paper/3"));
    assert!(store.has_id("https://x/file/9"));
    assert_eq!(store.links()[0].sources(), vec!["https://x/file/9".to_string()]);
}

#[test]
fn visiting_the_same_malformed_object_twice_reports_twice() {
    let object = visit_object("Paper", Some("https://x/paper/1"), vec![("name", visit_text(""))], vec![]);
    let mut store = Storage::new();
    object.visit(&mut store, "https://x/paper");
    object.visit(&mut store, "https://x/paper");
    assert_eq!(store.problems().len(), 2);
    assert_eq!(store.problems()[0], store.problems()[1]);
}

#[test]
fn visit_field_checks_whether_the_field_is_required() {
    let object = visit_object("Body", Some("https://x/body/1"), vec![], vec!["legislativeTerm"]);
    let mut store = Storage::new();
    object.visit_field(
        &mut store,
        &Field { name: "legislativeTerm", value: SchemaValue::Optional(None) },
        "https://x/body",
    );
    object.visit_field(
        &mut store,
        &Field { name: "ags", value: SchemaValue::Optional(None) },
        "https://x/body",
    );
    assert_eq!(store.problems().len(), 1);
    assert_eq!(store.problems()[0].path, "Body.legislativeTerm");
    assert!(object.is_required("legislativeTerm"));
    assert!(!object.is_required("ags"));
    assert_eq!(object.get_id(), Some("https://x/body/1"));
    assert_eq!(object.get_required(), &vec!["legislativeTerm"]);
}

#[test]
fn assemble_names_the_fields_of_the_type() {
    let values: Vec<SchemaValue> = (0..8).map(|_| SchemaValue::Optional(None)).collect();
    let object = OparlObject::assemble("LegislativeTerm", None, values).unwrap();
    let names: Vec<&str> = object.fields.iter().map(|f| f.name).collect();
    assert_eq!(
        names,
        vec!["id", "type", "body", "name", "startDate", "endDate", "keyword", "web"]
    );
    assert_eq!(object.required, vec!["id", "type"]);
    assert_eq!(object.object_type, "LegislativeTerm");
}

#[test]
fn assemble_refuses_a_wrong_number_of_values_and_unknown_types() {
    assert_eq!(OparlObject::assemble("LegislativeTerm", None, vec![]), None);
    assert_eq!(OparlObject::assemble("Nothing", None, vec![]), None);
}
