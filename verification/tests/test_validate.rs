use oparl_validator_rs::schema::OtherUrl;
use oparl_validator_rs::storage::Storage;
use oparl_validator_rs::validate::{
    body_list_unreachable, body_lists, entry_unreachable, field_url, visit_body, visit_system,
    BodyLists, Step, Validation, ValidationError,
};
use oparl_validator_rs::visit::{Field, OparlObject, Problem, ProblemKind, SchemaValue};

fn validate_url(url: &str) -> SchemaValue {
    SchemaValue::Optional(Some(Box::new(SchemaValue::External(OtherUrl::new(url.to_string())))))
}

fn validate_object(object_type: &'static str, fields: Vec<(&'static str, SchemaValue)>) -> OparlObject {
    OparlObject {
        object_type,
        id: Some("https://x/id".to_string()),
        fields: fields.into_iter().map(|(name, value)| Field { name, value }).collect(),
        required: vec![],
    }
}

#[test]
fn unreachable_entry_point_is_reported_with_its_causes() {
    let mut store = Storage::new();
    entry_unreachable(
        &mut store,
        "https://x/system",
        &vec!["API request failed to send".to_string(), "connection refused".to_string()],
    );
    assert_eq!(
        store.problems(),
        &vec![Problem {
            kind: ProblemKind::HttpRequestFailedTooOften,
            path: String::new(),
            detail: "Der Endpunkt unter https://x/system konnte nicht erreicht werden, damit ist keine Validierung möglich: . Caused by: API request failed to send. Caused by: connection refused".to_string(),
        }]
    );
}

#[test]
fn unreachable_entry_point_without_causes() {
    let mut store = Storage::new();
    entry_unreachable(&mut store, "https://x/system", &vec![]);
    assert_eq!(
        store.problems()[0].detail,
        "Der Endpunkt unter https://x/system konnte nicht erreicht werden, damit ist keine Validierung möglich: "
    );
}

#[test]
fn unreachable_body_list_is_reported() {
    let mut store = Storage::new();
    body_list_unreachable(&mut store, "https://x/body", "timeout");
    assert_eq!(
        store.problems(),
        &vec![Problem {
            kind: ProblemKind::HttpRequestFailedTooOften,
            path: String::new(),
            detail: "Der Körperschaftsliste unter https://x/body konnte nicht erreicht werden, damit ist keine Validierung möglich: timeout".to_string(),
        }]
    );
}

#[test]
fn system_without_body_is_reported() {
    let mut store = Storage::new();
    let system = validate_object("System", vec![("body", SchemaValue::Optional(None))]);
    assert_eq!(visit_system(&mut store, &system, "https://x/system"), None);
    assert_eq!(
        store.problems(),
        &vec![Problem {
            kind: ProblemKind::RequiredFieldMissing,
            path: "System.body".to_string(),
            detail: "Das System-Objekt hat kein Body-Feld, damit ist keine Validierung möglich."
                .to_string(),
        }]
    );
    assert!(store.has_id("https://x/id"));
}

#[test]
fn system_with_body_is_visited() {
    let mut store = Storage::new();
    let system = validate_object("System", vec![("body", validate_url("https://x/body"))]);
    assert_eq!(
        visit_system(&mut store, &system, "https://x/system"),
        Some("https://x/body".to_string())
    );
    assert!(store.problems().is_empty());
    assert!(store.has_other_url("https://x/body"));
}

#[test]
fn body_must_name_its_four_lists() {
    let all = vec![
        ("paper", validate_url("https://x/paper")),
        ("organization", validate_url("https://x/organization")),
        ("person", validate_url("https://x/person")),
        ("meeting", validate_url("https://x/meeting")),
    ];
    let expected = [
        ValidationError::NoPapers,
        ValidationError::NoOrganization,
        ValidationError::NoPerson,
        ValidationError::NoMeeting,
    ];
    for leave_out in 0..4 {
        let fields: Vec<(&'static str, SchemaValue)> = (0..4)
            .filter(|i| *i != leave_out)
            .map(|i| (all[i].0, validate_url(&format!("https://x/{}", all[i].0))))
            .collect();
        let mut store = Storage::new();
        let body = validate_object("Body", fields);
        assert_eq!(visit_body(&mut store, &body, "https://x/body"), Err(expected[leave_out].clone()));
        assert_eq!(body_lists(&body), Err(expected[leave_out].clone()));
        assert!(store.has_id("https://x/id"));
    }
    let mut store = Storage::new();
    let body = validate_object("Body", vec![]);
    assert_eq!(visit_body(&mut store, &body, "https://x/body"), Err(ValidationError::NoPapers));
}

#[test]
fn validation_errors_have_messages() {
    let entry = ValidationError::EntrySchema("missing field".to_string());
    assert_eq!(entry.message(), "Could not parse entrypoint into System schema");
    assert_eq!(entry.cause(), Some("missing field"));
    let list = ValidationError::BodyListSchema("invalid type".to_string());
    assert_eq!(list.message(), "Could not parse body list into schema");
    assert_eq!(list.cause(), Some("invalid type"));
    assert_eq!(ValidationError::NoPapers.cause(), None);
    assert_eq!(ValidationError::NoPapers.message(), "body has no papers");
    assert_eq!(ValidationError::NoOrganization.message(), "body has no organization");
    assert_eq!(ValidationError::NoPerson.message(), "body has no person");
    assert_eq!(ValidationError::NoMeeting.message(), "body has no meeting");
}

#[test]
fn field_url_reads_the_first_field_of_that_name() {
    let object = validate_object(
        "Body",
        vec![
            ("name", SchemaValue::Text("n".to_string())),
            ("paper", validate_url("https://x/1")),
            ("paper", validate_url("https://x/2")),
            ("person", SchemaValue::External(OtherUrl::new("https://x/3".to_string()))),
            ("meeting", SchemaValue::Optional(None)),
        ],
    );
    assert_eq!(field_url(&object, "paper"), Some("https://x/1"));
    assert_eq!(field_url(&object, "person"), Some("https://x/3"));
    assert_eq!(field_url(&object, "meeting"), None);
    assert_eq!(field_url(&object, "name"), None);
    assert_eq!(field_url(&object, "other"), None);
}

fn validate_lists(n: usize) -> BodyLists {
    BodyLists {
        paper: format!("https://x/body/{}/paper", n),
        organization: format!("https://x/body/{}/organization", n),
        person: format!("https://x/body/{}/person", n),
        meeting: format!("https://x/body/{}/meeting", n),
    }
}

fn validate_body(n: usize) -> OparlObject {
    let lists = validate_lists(n);
    OparlObject {
        object_type: "Body",
        id: Some(format!("https://x/body/{}", n)),
        fields: vec![
            Field { name: "paper", value: validate_url(&lists.paper) },
            Field { name: "organization", value: validate_url(&lists.organization) },
            Field { name: "person", value: validate_url(&lists.person) },
            Field { name: "meeting", value: validate_url(&lists.meeting) },
        ],
        required: vec![],
    }
}

#[test]
fn validation_goes_through_every_body_and_then_reconciles() {
    let mut store = Storage::new();
    let mut validation = Validation::new("https://x/system");
    assert_eq!(validation.next_step(), Step::FetchEntry("https://x/system".to_string()));
    let system = validate_object("System", vec![("body", validate_url("https://x/body"))]);
    assert_eq!(
        validation.on_entry(&mut store, &system),
        Step::FetchBodyList("https://x/body".to_string())
    );
    assert_eq!(
        validation.on_body_list(&mut store, vec![validate_body(1), validate_body(2)]),
        Step::CrawlLists(validate_lists(1))
    );
    assert!(store.has_id("https://x/body/1"));
    assert!(!store.has_id("https://x/body/2"));
    assert_eq!(validation.next_step(), Step::CrawlLists(validate_lists(1)));
    assert_eq!(validation.on_lists_crawled(&mut store), Step::CrawlLists(validate_lists(2)));
    assert!(store.has_id("https://x/body/2"));
    assert_eq!(validation.on_lists_crawled(&mut store), Step::Reconcile);
    assert_eq!(validation.on_lists_crawled(&mut store), Step::Reconcile);
    assert_eq!(validation.on_reconciled(), Step::Done);
    assert_eq!(validation.on_reconciled(), Step::Done);
    assert!(store.problems().is_empty());
}

#[test]
fn validation_without_bodies_reconciles_at_once() {
    let mut store = Storage::new();
    let mut validation = Validation::new("https://x/system");
    let system = validate_object("System", vec![("body", validate_url("https://x/body"))]);
    validation.on_entry(&mut store, &system);
    assert_eq!(validation.on_body_list(&mut store, vec![]), Step::Reconcile);
}

#[test]
fn validation_ends_where_the_entry_point_is_unreachable() {
    let mut store = Storage::new();
    let mut validation = Validation::new("https://x/system");
    assert_eq!(
        validation.on_entry_unreachable(&mut store, &vec!["refused".to_string()]),
        Step::Done
    );
    assert_eq!(store.problems().len(), 1);
    assert_eq!(store.problems()[0].kind, ProblemKind::HttpRequestFailedTooOften);
    assert_eq!(
        store.problems()[0].detail,
        "Der Endpunkt unter https://x/system konnte nicht erreicht werden, damit ist keine Validierung möglich: . Caused by: refused"
    );
    // What is reported out of turn changes nothing.
    let system = validate_object("System", vec![("body", validate_url("https://x/body"))]);
    assert_eq!(validation.on_entry(&mut store, &system), Step::Done);
    assert_eq!(validation.on_body_list(&mut store, vec![validate_body(1)]), Step::Done);
    assert_eq!(validation.on_entry_invalid("e".to_string()), Step::Done);
    assert_eq!(store.problems().len(), 1);
    assert!(!store.has_id("https://x/id"));
}

#[test]
fn validation_is_broken_off_where_a_schema_does_not_fit() {
    let mut validation = Validation::new("https://x/system");
    assert_eq!(
        validation.on_entry_invalid("missing field".to_string()),
        Step::Abort(ValidationError::EntrySchema("missing field".to_string()))
    );
    let mut store = Storage::new();
    let mut validation = Validation::new("https://x/system");
    let system = validate_object("System", vec![("body", validate_url("https://x/body"))]);
    validation.on_entry(&mut store, &system);
    assert_eq!(
        validation.on_body_list_invalid("bad list".to_string()),
        Step::Abort(ValidationError::BodyListSchema("bad list".to_string()))
    );
    assert_eq!(
        validation.next_step(),
        Step::Abort(ValidationError::BodyListSchema("bad list".to_string()))
    );
}

#[test]
fn validation_ends_where_the_system_names_no_bodies_or_they_are_unreachable() {
    let mut store = Storage::new();
    let mut validation = Validation::new("https://x/system");
    let system = validate_object("System", vec![]);
    assert_eq!(validation.on_entry(&mut store, &system), Step::Done);
    assert_eq!(store.problems().len(), 1);
    assert_eq!(store.problems()[0].path, "System.body");

    let mut store = Storage::new();
    let mut validation = Validation::new("https://x/system");
    let system = validate_object("System", vec![("body", validate_url("https://x/body"))]);
    validation.on_entry(&mut store, &system);
    assert_eq!(validation.on_body_list_unreachable(&mut store, "timeout"), Step::Done);
    assert_eq!(
        store.problems()[0].detail,
        "Der Körperschaftsliste unter https://x/body konnte nicht erreicht werden, damit ist keine Validierung möglich: timeout"
    );
}

#[test]
fn validation_is_broken_off_by_a_body_without_a_list() {
    let mut store = Storage::new();
    let mut validation = Validation::new("https://x/system");
    let system = validate_object("System", vec![("body", validate_url("https://x/body"))]);
    validation.on_entry(&mut store, &system);
    let mut second = validate_body(2);
    second.fields.remove(2);
    assert_eq!(
        validation.on_body_list(&mut store, vec![validate_body(1), second]),
        Step::CrawlLists(validate_lists(1))
    );
    assert_eq!(validation.on_lists_crawled(&mut store), Step::Abort(ValidationError::NoPerson));
    // The body was visited before the validation was broken off.
    assert!(store.has_id("https://x/body/2"));
    assert_eq!(validation.on_lists_crawled(&mut store), Step::Abort(ValidationError::NoPerson));
}

#[test]
fn body_without_legislative_terms_is_reported_exactly_once() {
    let absent = || SchemaValue::Optional(None);
    let text = |t: &str| SchemaValue::Optional(Some(Box::new(SchemaValue::Text(t.to_string()))));
    let location_values: Vec<SchemaValue> = (0..18).map(|_| absent()).collect();
    let location =
        OparlObject::assemble("Location", Some("https://x/location/1".to_string()), location_values)
            .unwrap();
    let names = oparl_validator_rs::schema::field_names("Body").unwrap();
    let values: Vec<SchemaValue> = names
        .iter()
        .map(|name| match *name {
            "id" => validate_url("https://x/body/1"),
            "type" => text("https://schema.oparl.org/1.1/Body"),
            "name" => text("Stadt X"),
            "organization" | "person" | "meeting" | "paper" => {
                validate_url(&format!("https://x/body/1/{}", name))
            }
            "location" => SchemaValue::Optional(Some(Box::new(SchemaValue::Embedded(Box::new(
                OparlObject {
                    object_type: location.object_type,
                    id: location.id.clone(),
                    fields: Vec::new(),
                    required: location.required.clone(),
                },
            ))))),
            _ => absent(),
        })
        .collect();
    let body = OparlObject::assemble("Body", Some("https://x/body/1".to_string()), values).unwrap();
    let mut store = Storage::new();
    let mut validation = Validation::new("https://x/system");
    let system = validate_object("System", vec![("body", validate_url("https://x/body"))]);
    validation.on_entry(&mut store, &system);
    validation.on_body_list(&mut store, vec![body]);
    let found: Vec<&Problem> = store
        .problems()
        .iter()
        .filter(|p| p.kind == ProblemKind::RequiredFieldMissing && p.path == "Body.legislativeTerm")
        .collect();
    assert_eq!(found.len(), 1);
    assert_eq!(found[0].detail, "https://x/body/1 within https://x/body");
}
