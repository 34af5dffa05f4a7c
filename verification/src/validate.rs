//! Validating one endpoint: what to do with the entry object, with the list
//! of bodies and with each body, and how the failures of these steps are
//! reported.

use crate::schema::{field_names_of, names_view, required_of};
use crate::storage::{
    count_findings, count_problems, lemma_apply_all_concat, lemma_apply_all_counts,
    lemma_apply_nothing, lemma_apply_one, texts_view, Storage, StorageView, StoreOp,
};
use crate::text::{concat4, equal};
use crate::visit::{
    describe, field_keeps_off, field_names_view, field_ops, field_path, keeps_off,
    lemma_missing_required_field, names_contain, object_ops, opt_string, opt_text,
    others_keep_off, Field, KindView, OparlObject, Problem, ProblemKind, ProblemView, SchemaValue,
};
use vstd::prelude::*;

verus! {

/// The causes of an error, each introduced by `. Caused by: `, in a row.
pub open spec fn cause_chain(causes: Seq<Seq<char>>, n: nat) -> Seq<char>
    decreases n,
{
    if n == 0 || n > causes.len() {
        Seq::empty()
    } else {
        cause_chain(causes, (n - 1) as nat) + ". Caused by: "@ + causes[n - 1]
    }
}

/// The finding for an entry point that could not be fetched.
pub open spec fn entry_unreachable_problem(
    entrypoint: Seq<char>,
    causes: Seq<Seq<char>>,
) -> ProblemView {
    ProblemView {
        kind: KindView::HttpRequestFailedTooOften,
        path: Seq::empty(),
        detail: "Der Endpunkt unter "@ + entrypoint
            + " konnte nicht erreicht werden, damit ist keine Validierung möglich: "@ + cause_chain(
            causes,
            causes.len(),
        ),
    }
}

/// The finding for a list of bodies that could not be fetched.
pub open spec fn body_list_unreachable_problem(url: Seq<char>, error: Seq<char>) -> ProblemView {
    ProblemView {
        kind: KindView::HttpRequestFailedTooOften,
        path: Seq::empty(),
        detail: "Der Körperschaftsliste unter "@ + url
            + " konnte nicht erreicht werden, damit ist keine Validierung möglich: "@ + error,
    }
}

/// The finding for a system that names no list of bodies.
pub open spec fn no_body_problem() -> ProblemView {
    ProblemView {
        kind: KindView::RequiredFieldMissing,
        path: "System.body"@,
        detail: "Das System-Objekt hat kein Body-Feld, damit ist keine Validierung möglich."@,
    }
}

/// The URL that a value holds: that of a URL out of the graph, also where it
/// is optional and present.
pub open spec fn url_in(value: SchemaValue) -> Option<Seq<char>> {
    match value {
        SchemaValue::External(url) => Some(url.0@),
        SchemaValue::Optional(Some(inner)) => match *inner {
            SchemaValue::External(url) => Some(url.0@),
            _ => None,
        },
        _ => None,
    }
}

/// The URL in the first field called `name`, where that field holds one.
pub open spec fn url_field(fields: Seq<Field>, name: Seq<char>) -> Option<Seq<char>>
    decreases fields.len(),
{
    if fields.len() == 0 {
        None
    } else if fields[0].name@ == name {
        url_in(fields[0].value)
    } else {
        url_field(fields.skip(1), name)
    }
}

/// Reads the URL in the field `name` of `object`.
pub fn field_url<'a>(object: &'a OparlObject, name: &str) -> (r: Option<&'a str>)
    ensures
        match r {
            Some(url) => url_field(object.fields@, name@) == Some(url@),
            None => url_field(object.fields@, name@) is None,
        },
{
    let mut i: usize = 0;
    assert(object.fields@.skip(0) =~= object.fields@);
    while i < object.fields.len()
        invariant
            i <= object.fields@.len(),
            url_field(object.fields@, name@) == url_field(object.fields@.skip(i as int), name@),
        decreases object.fields@.len() - i,
    {
        let field = &object.fields[i];
        assert(object.fields@.skip(i as int)[0] == object.fields@[i as int]);
        if equal(field.name, name) {
            return match &field.value {
                SchemaValue::External(url) => Some(url.as_str()),
                SchemaValue::Optional(Some(inner)) => match &**inner {
                    SchemaValue::External(url) => Some(url.as_str()),
                    _ => None,
                },
                _ => None,
            };
        }
        assert(object.fields@.skip(i as int).skip(1) =~= object.fields@.skip(i + 1));
        i += 1;
    }
    None
}

/// Reports that the entry point could not be fetched; `causes` is the chain
/// of causes of the failure, outermost first. Nothing can be validated then.
pub fn entry_unreachable(store: &mut Storage, entrypoint: &str, causes: &Vec<String>)
    ensures
        final(store)@ == old(store)@.add_problem(
            entry_unreachable_problem(entrypoint@, texts_view(causes@)),
        ),
        old(store)@.wf() ==> final(store)@.wf(),
{
    let ghost views = texts_view(causes@);
    let mut chain = String::new();
    let mut i: usize = 0;
    assert(chain@ =~= cause_chain(views, 0));
    while i < causes.len()
        invariant
            i <= causes@.len(),
            views == texts_view(causes@),
            chain@ == cause_chain(views, i as nat),
        decreases causes@.len() - i,
    {
        chain.append(". Caused by: ");
        chain.append(causes[i].as_str());
        assert(chain@ =~= cause_chain(views, (i + 1) as nat));
        i += 1;
    }
    store.add_problem(
        Problem {
            detail: concat4(
                "Der Endpunkt unter ",
                entrypoint,
                " konnte nicht erreicht werden, damit ist keine Validierung möglich: ",
                chain.as_str(),
            ),
            path: String::new(),
            kind: ProblemKind::HttpRequestFailedTooOften,
        },
    );
}

/// Reports that the list of bodies could not be fetched. Nothing more can be
/// validated then.
pub fn body_list_unreachable(store: &mut Storage, url: &str, error: &str)
    ensures
        final(store)@ == old(store)@.add_problem(body_list_unreachable_problem(url@, error@)),
        old(store)@.wf() ==> final(store)@.wf(),
{
    store.add_problem(
        Problem {
            detail: concat4(
                "Der Körperschaftsliste unter ",
                url,
                " konnte nicht erreicht werden, damit ist keine Validierung möglich: ",
                error,
            ),
            path: String::new(),
            kind: ProblemKind::HttpRequestFailedTooOften,
        },
    );
}

/// The URL of the list of bodies that `system` names.
pub open spec fn body_list_of(system: OparlObject) -> Option<Seq<char>> {
    url_field(system.fields@, "body"@)
}

/// Visits the entry object, which was fetched from `entrypoint`, and returns
/// the URL of its list of bodies. Where it names none, this is reported and
/// nothing more can be validated.
pub fn visit_system(store: &mut Storage, system: &OparlObject, entrypoint: &str) -> (r: Option<
    String,
>)
    ensures
        match r {
            Some(url) => body_list_of(*system) == Some(url@) && final(store)@ == old(
                store,
            )@.apply_all(object_ops(*system, entrypoint@)),
            None => body_list_of(*system) is None && final(store)@ == old(store)@.apply_all(
                object_ops(*system, entrypoint@),
            ).add_problem(no_body_problem()),
        },
        old(store)@.wf() ==> final(store)@.wf(),
{
    system.visit(store, entrypoint);
    match field_url(system, "body") {
        Some(url) => Some(String::from_str(url)),
        None => {
            store.add_problem(
                Problem {
                    detail: String::from_str(
                        "Das System-Objekt hat kein Body-Feld, damit ist keine Validierung möglich.",
                    ),
                    path: String::from_str("System.body"),
                    kind: ProblemKind::RequiredFieldMissing,
                },
            );
            None
        },
    }
}

/// Why the validation of an endpoint was broken off.
#[derive(Debug, PartialEq, Eq)]
pub enum ValidationError {
    /// The entry point is JSON but no system object; with the deserializer's error.
    EntrySchema(String),
    /// The list of bodies is JSON but no list of bodies; with the deserializer's error.
    BodyListSchema(String),
    /// A body names no list of papers.
    NoPapers,
    /// A body names no list of organizations.
    NoOrganization,
    /// A body names no list of persons.
    NoPerson,
    /// A body names no list of meetings.
    NoMeeting,
}

/// Mathematical value of a [`ValidationError`].
pub enum ErrorView {
    EntrySchema(Seq<char>),
    BodyListSchema(Seq<char>),
    NoPapers,
    NoOrganization,
    NoPerson,
    NoMeeting,
}

impl View for ValidationError {
    type V = ErrorView;

    open spec fn view(&self) -> ErrorView {
        match *self {
            ValidationError::EntrySchema(e) => ErrorView::EntrySchema(e@),
            ValidationError::BodyListSchema(e) => ErrorView::BodyListSchema(e@),
            ValidationError::NoPapers => ErrorView::NoPapers,
            ValidationError::NoOrganization => ErrorView::NoOrganization,
            ValidationError::NoPerson => ErrorView::NoPerson,
            ValidationError::NoMeeting => ErrorView::NoMeeting,
        }
    }
}

impl Clone for ValidationError {
    fn clone(&self) -> (r: Self)
        ensures
            r == *self,
    {
        match self {
            ValidationError::EntrySchema(e) => ValidationError::EntrySchema(e.clone()),
            ValidationError::BodyListSchema(e) => ValidationError::BodyListSchema(e.clone()),
            ValidationError::NoPapers => ValidationError::NoPapers,
            ValidationError::NoOrganization => ValidationError::NoOrganization,
            ValidationError::NoPerson => ValidationError::NoPerson,
            ValidationError::NoMeeting => ValidationError::NoMeeting,
        }
    }
}

impl ValidationError {
    /// What was being done when the validation was broken off.
    pub open spec fn message_text(self) -> Seq<char> {
        match self {
            ValidationError::EntrySchema(_) => "Could not parse entrypoint into System schema"@,
            ValidationError::BodyListSchema(_) => "Could not parse body list into schema"@,
            ValidationError::NoPapers => "body has no papers"@,
            ValidationError::NoOrganization => "body has no organization"@,
            ValidationError::NoPerson => "body has no person"@,
            ValidationError::NoMeeting => "body has no meeting"@,
        }
    }

    /// The deserializer's error behind a failure to fit the schema.
    pub open spec fn cause_text(self) -> Option<Seq<char>> {
        match self {
            ValidationError::EntrySchema(e) => Some(e@),
            ValidationError::BodyListSchema(e) => Some(e@),
            _ => None,
        }
    }

    /// What was being done when the validation was broken off.
    pub fn message(&self) -> (r: String)
        ensures
            r@ == self.message_text(),
    {
        match self {
            ValidationError::EntrySchema(_) => String::from_str(
                "Could not parse entrypoint into System schema",
            ),
            ValidationError::BodyListSchema(_) => String::from_str(
                "Could not parse body list into schema",
            ),
            ValidationError::NoPapers => String::from_str("body has no papers"),
            ValidationError::NoOrganization => String::from_str("body has no organization"),
            ValidationError::NoPerson => String::from_str("body has no person"),
            ValidationError::NoMeeting => String::from_str("body has no meeting"),
        }
    }

    /// The deserializer's error behind a failure to fit the schema.
    pub fn cause(&self) -> (r: Option<&str>)
        ensures
            opt_text(r) == self.cause_text(),
    {
        match self {
            ValidationError::EntrySchema(e) => Some(e.as_str()),
            ValidationError::BodyListSchema(e) => Some(e.as_str()),
            _ => None,
        }
    }
}

/// The first URLs of the four lists of a body.
#[derive(Debug, PartialEq, Eq)]
pub struct BodyLists {
    pub paper: String,
    pub organization: String,
    pub person: String,
    pub meeting: String,
}

/// Mathematical value of a [`BodyLists`].
pub struct ListsView {
    pub paper: Seq<char>,
    pub organization: Seq<char>,
    pub person: Seq<char>,
    pub meeting: Seq<char>,
}

impl View for BodyLists {
    type V = ListsView;

    open spec fn view(&self) -> ListsView {
        ListsView {
            paper: self.paper@,
            organization: self.organization@,
            person: self.person@,
            meeting: self.meeting@,
        }
    }
}

impl Clone for BodyLists {
    fn clone(&self) -> (r: Self)
        ensures
            r == *self,
    {
        BodyLists {
            paper: self.paper.clone(),
            organization: self.organization.clone(),
            person: self.person.clone(),
            meeting: self.meeting.clone(),
        }
    }
}

/// The four lists that `body` names, or the first of them that it leaves
/// out, asked for in the order papers, organizations, persons, meetings.
pub open spec fn lists_of(body: OparlObject) -> Result<ListsView, ErrorView> {
    match url_field(body.fields@, "paper"@) {
        None => Err(ErrorView::NoPapers),
        Some(paper) => match url_field(body.fields@, "organization"@) {
            None => Err(ErrorView::NoOrganization),
            Some(organization) => match url_field(body.fields@, "person"@) {
                None => Err(ErrorView::NoPerson),
                Some(person) => match url_field(body.fields@, "meeting"@) {
                    None => Err(ErrorView::NoMeeting),
                    Some(meeting) => Ok(ListsView { paper, organization, person, meeting }),
                },
            },
        },
    }
}

/// View of the outcome of visiting a body.
pub open spec fn lists_result(r: Result<BodyLists, ValidationError>) -> Result<
    ListsView,
    ErrorView,
> {
    match r {
        Ok(lists) => Ok(lists@),
        Err(e) => Err(e@),
    }
}

/// The four lists that `body` names.
pub fn body_lists(body: &OparlObject) -> (r: Result<BodyLists, ValidationError>)
    ensures
        lists_result(r) == lists_of(*body),
{
    let paper = match field_url(body, "paper") {
        Some(u) => String::from_str(u),
        None => {
            return Err(ValidationError::NoPapers);
        },
    };
    let organization = match field_url(body, "organization") {
        Some(u) => String::from_str(u),
        None => {
            return Err(ValidationError::NoOrganization);
        },
    };
    let person = match field_url(body, "person") {
        Some(u) => String::from_str(u),
        None => {
            return Err(ValidationError::NoPerson);
        },
    };
    let meeting = match field_url(body, "meeting") {
        Some(u) => String::from_str(u),
        None => {
            return Err(ValidationError::NoMeeting);
        },
    };
    Ok(BodyLists { paper, organization, person, meeting })
}

/// Visits a body, which stands in the list fetched from `url`, and returns
/// the first URLs of its four lists. A body that leaves one of them out
/// breaks off the validation.
pub fn visit_body(store: &mut Storage, body: &OparlObject, url: &str) -> (r: Result<
    BodyLists,
    ValidationError,
>)
    ensures
        final(store)@ == old(store)@.apply_all(object_ops(*body, url@)),
        old(store)@.wf() ==> final(store)@.wf(),
        lists_result(r) == lists_of(*body),
{
    body.visit(store, url);
    body_lists(body)
}

/// The names of the fields of a body, in declared order.
pub open spec fn body_field_names() -> Seq<Seq<char>> {
    seq![
        "id"@, "type"@, "system"@, "shortName"@, "name"@, "website"@, "license"@,
        "licenseValidSince"@, "oparlSince"@, "ags"@, "rgs"@, "equivalent"@, "contactEmail"@,
        "contactName"@, "organization"@, "person"@, "meeting"@, "paper"@,
        "legislativeTerm"@, "classification"@, "location"@, "keyword"@, "created"@,
        "modified"@, "web"@, "deleted"@,
    ]
}

/// The names of the fields that a body must have.
pub open spec fn body_required_names() -> Seq<Seq<char>> {
    seq![
        "id"@, "type"@, "name"@, "organization"@, "person"@, "meeting"@, "paper"@,
        "legislativeTerm"@,
    ]
}

/// The tables of the schema hold these names for a body.
pub proof fn lemma_body_tables()
    ensures
        field_names_of("Body"@) == Some(body_field_names()),
        required_of("Body"@) == Some(body_required_names()),
{
    reveal_strlit("File");
    reveal_strlit("System");
    reveal_strlit("Organization");
    reveal_strlit("Consultation");
    reveal_strlit("Paper");
    reveal_strlit("LegislativeTerm");
    reveal_strlit("Body");
    assert("File"@[0] != "Body"@[0]);
    assert("System"@[0] != "Body"@[0]);
    assert("Organization"@[0] != "Body"@[0]);
    assert("Consultation"@[0] != "Body"@[0]);
    assert("Paper"@[0] != "Body"@[0]);
    assert("LegislativeTerm"@[0] != "Body"@[0]);
}

/// Among the fields of a body only the one at 18 is called `legislativeTerm`.
proof fn lemma_term_field(i: int)
    requires
        0 <= i < body_field_names().len(),
    ensures
        body_field_names().len() == 26,
        (body_field_names()[i] == "legislativeTerm"@) == (i == 18),
{
    reveal_strlit("id");
    reveal_strlit("type");
    reveal_strlit("system");
    reveal_strlit("shortName");
    reveal_strlit("name");
    reveal_strlit("website");
    reveal_strlit("license");
    reveal_strlit("licenseValidSince");
    reveal_strlit("oparlSince");
    reveal_strlit("ags");
    reveal_strlit("rgs");
    reveal_strlit("equivalent");
    reveal_strlit("contactEmail");
    reveal_strlit("contactName");
    reveal_strlit("organization");
    reveal_strlit("person");
    reveal_strlit("meeting");
    reveal_strlit("paper");
    reveal_strlit("legislativeTerm");
    reveal_strlit("classification");
    reveal_strlit("location");
    reveal_strlit("keyword");
    reveal_strlit("created");
    reveal_strlit("modified");
    reveal_strlit("web");
    reveal_strlit("deleted");
    assert("id"@.len() != "legislativeTerm"@.len());
    assert("type"@.len() != "legislativeTerm"@.len());
    assert("system"@.len() != "legislativeTerm"@.len());
    assert("shortName"@.len() != "legislativeTerm"@.len());
    assert("name"@.len() != "legislativeTerm"@.len());
    assert("website"@.len() != "legislativeTerm"@.len());
    assert("license"@.len() != "legislativeTerm"@.len());
    assert("licenseValidSince"@.len() != "legislativeTerm"@.len());
    assert("oparlSince"@.len() != "legislativeTerm"@.len());
    assert("ags"@.len() != "legislativeTerm"@.len());
    assert("rgs"@.len() != "legislativeTerm"@.len());
    assert("equivalent"@.len() != "legislativeTerm"@.len());
    assert("contactEmail"@.len() != "legislativeTerm"@.len());
    assert("contactName"@.len() != "legislativeTerm"@.len());
    assert("organization"@.len() != "legislativeTerm"@.len());
    assert("person"@.len() != "legislativeTerm"@.len());
    assert("meeting"@.len() != "legislativeTerm"@.len());
    assert("paper"@.len() != "legislativeTerm"@.len());
    assert("classification"@.len() != "legislativeTerm"@.len());
    assert("location"@.len() != "legislativeTerm"@.len());
    assert("keyword"@.len() != "legislativeTerm"@.len());
    assert("created"@.len() != "legislativeTerm"@.len());
    assert("modified"@.len() != "legislativeTerm"@.len());
    assert("web"@.len() != "legislativeTerm"@.len());
    assert("deleted"@.len() != "legislativeTerm"@.len());
}

/// The path of a field determines its name, given the type.
proof fn lemma_field_path_injective(object_type: Seq<char>, a: Seq<char>, b: Seq<char>)
    requires
        field_path(object_type, a) == field_path(object_type, b),
    ensures
        a == b,
{
    let prefix = object_type + "."@;
    assert((prefix + a).subrange(prefix.len() as int, (prefix + a).len() as int) =~= a);
    assert((prefix + b).subrange(prefix.len() as int, (prefix + b).len() as int) =~= b);
}

/// The finding for a body that names no legislative terms.
pub open spec fn no_terms_problem(body: OparlObject, page: Seq<char>) -> ProblemView {
    ProblemView {
        kind: KindView::RequiredFieldMissing,
        path: "Body.legislativeTerm"@,
        detail: describe(opt_string(body.id), page),
    }
}

/// Whether `body` is a body of the schema that leaves out its legislative
/// terms, and nothing that is written out inside its other fields writes
/// under the path `Body.legislativeTerm`.
pub open spec fn lacks_legislative_terms(body: OparlObject) -> bool {
    &&& body.conforms()
    &&& body.object_type@ == "Body"@
    &&& forall|i: int|
        0 <= i < body.fields@.len() ==> if (#[trigger] body.fields@[i]).name@
            == "legislativeTerm"@ {
            body.fields@[i].value == SchemaValue::Optional(None)
        } else {
            keeps_off(body.fields@[i].value, "Body.legislativeTerm"@)
        }
}

/// A body that leaves out its legislative terms is reported for it exactly
/// once: the visit of a body of the schema whose field `legislativeTerm` is
/// absent writes one finding that a required field is missing at
/// `Body.legislativeTerm`, which names the body's id and the page, and the
/// log of the store gains exactly this one finding of that kind at that
/// path. This holds where nothing that is written out inside the other
/// fields of the body writes under that path itself.
pub proof fn lemma_body_without_legislative_terms(
    s: StorageView,
    body: OparlObject,
    page: Seq<char>,
)
    requires
        lacks_legislative_terms(body),
    ensures
        count_findings(
            object_ops(body, page),
            KindView::RequiredFieldMissing,
            "Body.legislativeTerm"@,
        ) == 1,
        exists|k: int|
            0 <= k < body.fields@.len() && #[trigger] field_ops(body, body.fields@[k], page)
                == seq![StoreOp::Finding(no_terms_problem(body, page))],
        count_problems(
            s.apply_all(object_ops(body, page)).problems,
            KindView::RequiredFieldMissing,
            "Body.legislativeTerm"@,
        ) == count_problems(s.problems, KindView::RequiredFieldMissing, "Body.legislativeTerm"@)
            + 1,
{
    let names = field_names_view(body.fields@);
    let k = 18int;
    let path = field_path(body.object_type@, "legislativeTerm"@);
    lemma_body_tables();
    assert(names == body_field_names());
    lemma_term_field(k);
    assert(names[k] == body.fields@[k].name@);
    assert(path =~= "Body.legislativeTerm"@) by {
        reveal_strlit("Body");
        reveal_strlit(".");
        reveal_strlit("legislativeTerm");
        reveal_strlit("Body.legislativeTerm");
    }
    assert(names_contain(body.required@, "legislativeTerm"@)) by {
        assert(names_view(body.required@) == body_required_names());
        assert(body_required_names().len() == 8);
        assert(names_view(body.required@).len() == body.required@.len());
        assert(body_required_names()[7] == "legislativeTerm"@);
        assert(names_view(body.required@)[7] == body.required@[7]@);
    }
    assert(others_keep_off(body, k)) by {
        assert forall|i: int| 0 <= i < body.fields@.len() && i != k implies field_keeps_off(
            body,
            #[trigger] body.fields@[i],
            field_path(body.object_type@, body.fields@[k].name@),
        ) by {
            lemma_term_field(i);
            assert(names[i] == body.fields@[i].name@);
            if field_path(body.object_type@, body.fields@[i].name@) == path {
                lemma_field_path_injective(
                    body.object_type@,
                    body.fields@[i].name@,
                    "legislativeTerm"@,
                );
            }
        }
    }
    lemma_missing_required_field(body, k, page);
    lemma_apply_all_counts(
        s,
        object_ops(body, page),
        KindView::RequiredFieldMissing,
        "Body.legislativeTerm"@,
    );
}

/// What the caller is to do next in the validation of an endpoint.
#[derive(Debug, PartialEq, Eq)]
pub enum Step {
    /// Fetch the entry object from this URL.
    FetchEntry(String),
    /// Fetch the list of bodies from this URL.
    FetchBodyList(String),
    /// Crawl the four lists of a body, all of them to their end.
    CrawlLists(BodyLists),
    /// Reconcile what was referenced with what was listed.
    Reconcile,
    /// Nothing: the validation is over.
    Done,
    /// Nothing: the validation was broken off.
    Abort(ValidationError),
}

/// Mathematical value of a [`Step`].
pub enum StepView {
    FetchEntry(Seq<char>),
    FetchBodyList(Seq<char>),
    CrawlLists(ListsView),
    Reconcile,
    Done,
    Abort(ErrorView),
}

impl View for Step {
    type V = StepView;

    open spec fn view(&self) -> StepView {
        match *self {
            Step::FetchEntry(url) => StepView::FetchEntry(url@),
            Step::FetchBodyList(url) => StepView::FetchBodyList(url@),
            Step::CrawlLists(lists) => StepView::CrawlLists(lists@),
            Step::Reconcile => StepView::Reconcile,
            Step::Done => StepView::Done,
            Step::Abort(e) => StepView::Abort(e@),
        }
    }
}

/// How far the validation of an endpoint has come.
pub enum PhaseView {
    /// The entry object is awaited.
    Entry,
    /// The list of bodies at this URL is awaited.
    BodyList(Seq<char>),
    /// The lists of the body at `current` are being crawled; the bodies
    /// stand in the list fetched from `url`.
    Lists { url: Seq<char>, current: nat, lists: ListsView },
    /// The reconciliation is under way.
    Reconciling,
    /// The validation is over.
    Finished,
    /// The validation was broken off.
    Aborted(ErrorView),
}

/// The observable state of a [`Validation`].
pub struct ValidationView {
    pub entrypoint: Seq<char>,
    pub bodies: Seq<OparlObject>,
    pub phase: PhaseView,
}

impl ValidationView {
    /// The validation before its first step.
    pub open spec fn start(entrypoint: Seq<char>) -> ValidationView {
        ValidationView { entrypoint, bodies: Seq::empty(), phase: PhaseView::Entry }
    }

    /// What the caller is to do in this state.
    pub open spec fn step(self) -> StepView {
        match self.phase {
            PhaseView::Entry => StepView::FetchEntry(self.entrypoint),
            PhaseView::BodyList(url) => StepView::FetchBodyList(url),
            PhaseView::Lists { url, current, lists } => StepView::CrawlLists(lists),
            PhaseView::Reconciling => StepView::Reconcile,
            PhaseView::Finished => StepView::Done,
            PhaseView::Aborted(e) => StepView::Abort(e),
        }
    }

    /// The phase in which the body at `k` is taken up: its lists are crawled
    /// where it names all four, the validation is broken off where it leaves
    /// one out, and the reconciliation begins where there is no such body.
    pub open spec fn body_phase(self, url: Seq<char>, k: nat) -> PhaseView {
        if k >= self.bodies.len() {
            PhaseView::Reconciling
        } else {
            match lists_of(self.bodies[k as int]) {
                Ok(lists) => PhaseView::Lists { url, current: k, lists },
                Err(e) => PhaseView::Aborted(e),
            }
        }
    }

    /// What taking up the body at `k` writes: the visit of the body.
    pub open spec fn body_ops(self, url: Seq<char>, k: nat) -> Seq<StoreOp> {
        if k >= self.bodies.len() {
            Seq::empty()
        } else {
            object_ops(self.bodies[k as int], url)
        }
    }

    /// The state after the entry point could not be fetched.
    pub open spec fn after_entry_unreachable(self) -> ValidationView {
        match self.phase {
            PhaseView::Entry => ValidationView { phase: PhaseView::Finished, ..self },
            _ => self,
        }
    }

    /// What an unreachable entry point writes: one finding.
    pub open spec fn entry_unreachable_ops(self, causes: Seq<Seq<char>>) -> Seq<StoreOp> {
        match self.phase {
            PhaseView::Entry => seq![
                StoreOp::Finding(entry_unreachable_problem(self.entrypoint, causes)),
            ],
            _ => Seq::empty(),
        }
    }

    /// The state after the entry point turned out not to be a system object.
    pub open spec fn after_entry_invalid(self, error: Seq<char>) -> ValidationView {
        match self.phase {
            PhaseView::Entry => ValidationView {
                phase: PhaseView::Aborted(ErrorView::EntrySchema(error)),
                ..self
            },
            _ => self,
        }
    }

    /// The state after the entry object arrived.
    pub open spec fn after_entry(self, system: OparlObject) -> ValidationView {
        match self.phase {
            PhaseView::Entry => match body_list_of(system) {
                Some(url) => ValidationView { phase: PhaseView::BodyList(url), ..self },
                None => ValidationView { phase: PhaseView::Finished, ..self },
            },
            _ => self,
        }
    }

    /// What the entry object writes: its visit, and a finding where it names
    /// no list of bodies.
    pub open spec fn entry_ops(self, system: OparlObject) -> Seq<StoreOp> {
        match self.phase {
            PhaseView::Entry => match body_list_of(system) {
                Some(url) => object_ops(system, self.entrypoint),
                None => object_ops(system, self.entrypoint).push(
                    StoreOp::Finding(no_body_problem()),
                ),
            },
            _ => Seq::empty(),
        }
    }

    /// The state after the list of bodies could not be fetched.
    pub open spec fn after_body_list_unreachable(self) -> ValidationView {
        match self.phase {
            PhaseView::BodyList(_) => ValidationView { phase: PhaseView::Finished, ..self },
            _ => self,
        }
    }

    /// What an unreachable list of bodies writes: one finding.
    pub open spec fn body_list_unreachable_ops(self, error: Seq<char>) -> Seq<StoreOp> {
        match self.phase {
            PhaseView::BodyList(url) => seq![
                StoreOp::Finding(body_list_unreachable_problem(url, error)),
            ],
            _ => Seq::empty(),
        }
    }

    /// The state after the list of bodies turned out not to be one.
    pub open spec fn after_body_list_invalid(self, error: Seq<char>) -> ValidationView {
        match self.phase {
            PhaseView::BodyList(_) => ValidationView {
                phase: PhaseView::Aborted(ErrorView::BodyListSchema(error)),
                ..self
            },
            _ => self,
        }
    }

    /// The state after the list of bodies arrived: the first body is taken up.
    pub open spec fn after_body_list(self, bodies: Seq<OparlObject>) -> ValidationView {
        match self.phase {
            PhaseView::BodyList(url) => {
                let with = ValidationView { bodies, ..self };
                ValidationView { phase: with.body_phase(url, 0), ..with }
            },
            _ => self,
        }
    }

    /// What the arrival of the list of bodies writes: the visit of the first body.
    pub open spec fn body_list_ops(self, bodies: Seq<OparlObject>) -> Seq<StoreOp> {
        match self.phase {
            PhaseView::BodyList(url) => (ValidationView { bodies, ..self }).body_ops(url, 0),
            _ => Seq::empty(),
        }
    }

    /// The state after the lists of the current body were crawled to their
    /// end: the next body is taken up.
    pub open spec fn after_lists(self) -> ValidationView {
        match self.phase {
            PhaseView::Lists { url, current, lists } => ValidationView {
                phase: self.body_phase(url, current + 1),
                ..self
            },
            _ => self,
        }
    }

    /// What the end of the crawls of a body writes: the visit of the next body.
    pub open spec fn lists_ops(self) -> Seq<StoreOp> {
        match self.phase {
            PhaseView::Lists { url, current, lists } => self.body_ops(url, current + 1),
            _ => Seq::empty(),
        }
    }

    /// The state after the reconciliation.
    pub open spec fn after_reconciled(self) -> ValidationView {
        match self.phase {
            PhaseView::Reconciling => ValidationView { phase: PhaseView::Finished, ..self },
            _ => self,
        }
    }
}

/// Where the list of bodies arrives and its first body leaves out its
/// legislative terms, the log gains exactly one finding that a required
/// field is missing at `Body.legislativeTerm`.
pub proof fn lemma_first_body_without_legislative_terms(
    v: ValidationView,
    s: StorageView,
    url: Seq<char>,
    bodies: Seq<OparlObject>,
)
    requires
        v.phase == PhaseView::BodyList(url),
        bodies.len() > 0,
        lacks_legislative_terms(bodies[0]),
    ensures
        v.body_list_ops(bodies) == object_ops(bodies[0], url),
        count_problems(
            s.apply_all(v.body_list_ops(bodies)).problems,
            KindView::RequiredFieldMissing,
            "Body.legislativeTerm"@,
        ) == count_problems(s.problems, KindView::RequiredFieldMissing, "Body.legislativeTerm"@)
            + 1,
{
    lemma_body_without_legislative_terms(s, bodies[0], url);
}

enum Phase {
    Entry,
    BodyList(String),
    Lists { url: String, current: usize, lists: BodyLists },
    Reconciling,
    Finished,
    Aborted(ValidationError),
}

impl View for Phase {
    type V = PhaseView;

    closed spec fn view(&self) -> PhaseView {
        match *self {
            Phase::Entry => PhaseView::Entry,
            Phase::BodyList(url) => PhaseView::BodyList(url@),
            Phase::Lists { url, current, lists } => PhaseView::Lists {
                url: url@,
                current: current as nat,
                lists: lists@,
            },
            Phase::Reconciling => PhaseView::Reconciling,
            Phase::Finished => PhaseView::Finished,
            Phase::Aborted(e) => PhaseView::Aborted(e@),
        }
    }
}

/// The validation of one endpoint, step by step: the entry object, the list
/// of bodies, the four lists of each body in turn, and the reconciliation.
/// The caller performs each step and reports what came of it.
pub struct Validation {
    entrypoint: String,
    bodies: Vec<OparlObject>,
    phase: Phase,
}

impl View for Validation {
    type V = ValidationView;

    closed spec fn view(&self) -> ValidationView {
        ValidationView { entrypoint: self.entrypoint@, bodies: self.bodies@, phase: self.phase@ }
    }
}

impl Validation {
    /// The validation of the endpoint whose entry object is at `entrypoint`.
    pub fn new(entrypoint: &str) -> (r: Validation)
        ensures
            r@ == ValidationView::start(entrypoint@),
    {
        Validation {
            entrypoint: String::from_str(entrypoint),
            bodies: Vec::new(),
            phase: Phase::Entry,
        }
    }

    /// What to do in the current state.
    pub fn next_step(&self) -> (r: Step)
        ensures
            r@ == self@.step(),
    {
        match &self.phase {
            Phase::Entry => Step::FetchEntry(self.entrypoint.clone()),
            Phase::BodyList(url) => Step::FetchBodyList(url.clone()),
            Phase::Lists { url, current, lists } => Step::CrawlLists(lists.clone()),
            Phase::Reconciling => Step::Reconcile,
            Phase::Finished => Step::Done,
            Phase::Aborted(e) => Step::Abort(e.clone()),
        }
    }

    /// Takes up the body at `k` of the list fetched from `url`.
    fn take_up(&mut self, store: &mut Storage, url: String, k: usize)
        ensures
            final(self)@ == (ValidationView {
                phase: old(self)@.body_phase(url@, k as nat),
                ..old(self)@
            }),
            final(store)@ == old(store)@.apply_all(old(self)@.body_ops(url@, k as nat)),
            old(store)@.wf() ==> final(store)@.wf(),
    {
        if k >= self.bodies.len() {
            proof {
                lemma_apply_nothing(store@);
            }
            self.phase = Phase::Reconciling;
        } else {
            match visit_body(store, &self.bodies[k], url.as_str()) {
                Ok(lists) => {
                    self.phase = Phase::Lists { url, current: k, lists };
                },
                Err(e) => {
                    self.phase = Phase::Aborted(e);
                },
            }
        }
    }

    /// The entry point could not be fetched; `causes` is the chain of causes
    /// of the failure, outermost first. This is reported, and the validation
    /// is over.
    pub fn on_entry_unreachable(&mut self, store: &mut Storage, causes: &Vec<String>) -> (r: Step)
        ensures
            final(self)@ == old(self)@.after_entry_unreachable(),
            final(store)@ == old(store)@.apply_all(
                old(self)@.entry_unreachable_ops(texts_view(causes@)),
            ),
            old(store)@.wf() ==> final(store)@.wf(),
            r@ == final(self)@.step(),
    {
        match &self.phase {
            Phase::Entry => {
                proof {
                    lemma_apply_one(
                        store@,
                        StoreOp::Finding(
                            entry_unreachable_problem(
                                self.entrypoint@,
                                texts_view(causes@),
                            ),
                        ),
                    );
                }
                entry_unreachable(store, self.entrypoint.as_str(), causes);
                self.phase = Phase::Finished;
            },
            _ => {
                proof {
                    lemma_apply_nothing(store@);
                }
            },
        }
        self.next_step()
    }

    /// The entry point is JSON but no system object, as the deserializer's
    /// `error` says. The validation is broken off.
    pub fn on_entry_invalid(&mut self, error: String) -> (r: Step)
        ensures
            final(self)@ == old(self)@.after_entry_invalid(error@),
            r@ == final(self)@.step(),
    {
        match &self.phase {
            Phase::Entry => {
                self.phase = Phase::Aborted(ValidationError::EntrySchema(error));
            },
            _ => {},
        }
        self.next_step()
    }

    /// The entry object arrived. It is visited; the list of bodies that it
    /// names is fetched next, and where it names none this is reported and
    /// the validation is over.
    pub fn on_entry(&mut self, store: &mut Storage, system: &OparlObject) -> (r: Step)
        ensures
            final(self)@ == old(self)@.after_entry(*system),
            final(store)@ == old(store)@.apply_all(old(self)@.entry_ops(*system)),
            old(store)@.wf() ==> final(store)@.wf(),
            r@ == final(self)@.step(),
    {
        match &self.phase {
            Phase::Entry => {
                proof {
                    let ops = object_ops(*system, self.entrypoint@);
                    lemma_apply_one(
                        store@.apply_all(ops),
                        StoreOp::Finding(no_body_problem()),
                    );
                    lemma_apply_all_concat(
                        store@,
                        ops,
                        seq![StoreOp::Finding(no_body_problem())],
                    );
                    assert(ops + seq![StoreOp::Finding(no_body_problem())] =~= ops.push(
                        StoreOp::Finding(no_body_problem()),
                    ));
                }
                match visit_system(store, system, self.entrypoint.as_str()) {
                    Some(url) => {
                        self.phase = Phase::BodyList(url);
                    },
                    None => {
                        self.phase = Phase::Finished;
                    },
                }
            },
            _ => {
                proof {
                    lemma_apply_nothing(store@);
                }
            },
        }
        self.next_step()
    }

    /// The list of bodies could not be fetched. This is reported, and the
    /// validation is over.
    pub fn on_body_list_unreachable(&mut self, store: &mut Storage, error: &str) -> (r: Step)
        ensures
            final(self)@ == old(self)@.after_body_list_unreachable(),
            final(store)@ == old(store)@.apply_all(old(self)@.body_list_unreachable_ops(error@)),
            old(store)@.wf() ==> final(store)@.wf(),
            r@ == final(self)@.step(),
    {
        match &self.phase {
            Phase::BodyList(url) => {
                proof {
                    lemma_apply_one(
                        store@,
                        StoreOp::Finding(body_list_unreachable_problem(url@, error@)),
                    );
                }
                body_list_unreachable(store, url.as_str(), error);
                self.phase = Phase::Finished;
            },
            _ => {
                proof {
                    lemma_apply_nothing(store@);
                }
            },
        }
        self.next_step()
    }

    /// The list of bodies is JSON but no list of bodies, as the
    /// deserializer's `error` says. The validation is broken off.
    pub fn on_body_list_invalid(&mut self, error: String) -> (r: Step)
        ensures
            final(self)@ == old(self)@.after_body_list_invalid(error@),
            r@ == final(self)@.step(),
    {
        match &self.phase {
            Phase::BodyList(_) => {
                self.phase = Phase::Aborted(ValidationError::BodyListSchema(error));
            },
            _ => {},
        }
        self.next_step()
    }

    /// The list of bodies arrived. The first body is visited and its lists
    /// are crawled next; a body that leaves out one of its lists breaks off
    /// the validation, and without any body the reconciliation is next.
    pub fn on_body_list(&mut self, store: &mut Storage, bodies: Vec<OparlObject>) -> (r: Step)
        ensures
            final(self)@ == old(self)@.after_body_list(bodies@),
            final(store)@ == old(store)@.apply_all(old(self)@.body_list_ops(bodies@)),
            old(store)@.wf() ==> final(store)@.wf(),
            r@ == final(self)@.step(),
    {
        let url = match &self.phase {
            Phase::BodyList(url) => url.clone(),
            _ => {
                proof {
                    lemma_apply_nothing(store@);
                }
                return self.next_step();
            },
        };
        self.bodies = bodies;
        self.take_up(store, url, 0);
        self.next_step()
    }

    /// The four lists of the current body were crawled to their end. The
    /// next body is visited and its lists are crawled next; after the last
    /// body the reconciliation is next.
    pub fn on_lists_crawled(&mut self, store: &mut Storage) -> (r: Step)
        ensures
            final(self)@ == old(self)@.after_lists(),
            final(store)@ == old(store)@.apply_all(old(self)@.lists_ops()),
            old(store)@.wf() ==> final(store)@.wf(),
            r@ == final(self)@.step(),
    {
        let (url, next) = match &self.phase {
            Phase::Lists { url, current, lists } => {
                if *current < self.bodies.len() {
                    (url.clone(), *current + 1)
                } else {
                    (url.clone(), *current)
                }
            },
            _ => {
                proof {
                    lemma_apply_nothing(store@);
                }
                return self.next_step();
            },
        };
        self.take_up(store, url, next);
        self.next_step()
    }

    /// The reconciliation is done, and with it the validation.
    pub fn on_reconciled(&mut self) -> (r: Step)
        ensures
            final(self)@ == old(self)@.after_reconciled(),
            r@ == final(self)@.step(),
    {
        match &self.phase {
            Phase::Reconciling => {
                self.phase = Phase::Finished;
            },
            _ => {},
        }
        self.next_step()
    }
}

} // verus!
