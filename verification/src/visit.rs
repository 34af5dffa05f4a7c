//! Findings, and the visitor that walks typed objects.

use crate::schema::{
    field_names, field_names_of, names_view, required_fields, required_of, OparlUrl, OtherUrl,
};
use crate::storage::{
    count_findings, lemma_apply_all_concat, lemma_apply_all_keeps_wf, lemma_apply_nothing,
    lemma_apply_one, lemma_count_findings_concat, lemma_count_findings_one,
    lemma_links_accumulate, Storage, StorageView, StoreOp,
};
use crate::text::{concat3, equal, has_prefix, less, quoted, quoted_text, starts_with, text_less};
use vstd::prelude::*;

verus! {

/// What kind of defect a finding reports. The variants are declared in the
/// order in which reports list them.
#[derive(Debug, PartialEq, Eq, Hash)]
pub enum ProblemKind {
    /// A request failed and is tried again.
    HttpRequestFailedRetrying,
    /// A request failed on every attempt.
    HttpRequestFailedTooOften,
    /// An object of the named type is referenced, is in no list and cannot be fetched.
    ObjectMissing(&'static str),
    /// An object of the named type is referenced and can be fetched, but is in no list.
    ObjectNotInList(&'static str),
    /// A required field is absent.
    RequiredFieldMissing,
    /// A text field is present but empty; it should be omitted or `null`.
    EmptyString,
    /// An object's id is an `http:` URL.
    UsingHttp,
    /// A page was JSON, but not of the expected shape.
    InvalidJson,
}

/// Mathematical value of a [`ProblemKind`].
pub enum KindView {
    HttpRequestFailedRetrying,
    HttpRequestFailedTooOften,
    ObjectMissing(Seq<char>),
    ObjectNotInList(Seq<char>),
    RequiredFieldMissing,
    EmptyString,
    UsingHttp,
    InvalidJson,
}

impl View for ProblemKind {
    type V = KindView;

    open spec fn view(&self) -> KindView {
        match *self {
            ProblemKind::HttpRequestFailedRetrying => KindView::HttpRequestFailedRetrying,
            ProblemKind::HttpRequestFailedTooOften => KindView::HttpRequestFailedTooOften,
            ProblemKind::ObjectMissing(t) => KindView::ObjectMissing(t@),
            ProblemKind::ObjectNotInList(t) => KindView::ObjectNotInList(t@),
            ProblemKind::RequiredFieldMissing => KindView::RequiredFieldMissing,
            ProblemKind::EmptyString => KindView::EmptyString,
            ProblemKind::UsingHttp => KindView::UsingHttp,
            ProblemKind::InvalidJson => KindView::InvalidJson,
        }
    }
}

impl KindView {
    /// Position of the kind in the declared order.
    pub open spec fn rank(self) -> int {
        match self {
            KindView::HttpRequestFailedRetrying => 0,
            KindView::HttpRequestFailedTooOften => 1,
            KindView::ObjectMissing(_) => 2,
            KindView::ObjectNotInList(_) => 3,
            KindView::RequiredFieldMissing => 4,
            KindView::EmptyString => 5,
            KindView::UsingHttp => 6,
            KindView::InvalidJson => 7,
        }
    }

    /// The type name that the kind carries, or the empty text.
    pub open spec fn object_type(self) -> Seq<char> {
        match self {
            KindView::ObjectMissing(t) => t,
            KindView::ObjectNotInList(t) => t,
            _ => Seq::empty(),
        }
    }

    /// Strict order of kinds: by declared position, then by the type name carried.
    pub open spec fn less(self, other: KindView) -> bool {
        self.rank() < other.rank() || (self.rank() == other.rank() && text_less(
            self.object_type(),
            other.object_type(),
        ))
    }

    /// The name of the variant.
    pub open spec fn name(self) -> Seq<char> {
        match self {
            KindView::HttpRequestFailedRetrying => "HttpRequestFailedRetrying"@,
            KindView::HttpRequestFailedTooOften => "HttpRequestFailedTooOften"@,
            KindView::ObjectMissing(_) => "ObjectMissing"@,
            KindView::ObjectNotInList(_) => "ObjectNotInList"@,
            KindView::RequiredFieldMissing => "RequiredFieldMissing"@,
            KindView::EmptyString => "EmptyString"@,
            KindView::UsingHttp => "UsingHttp"@,
            KindView::InvalidJson => "InvalidJson"@,
        }
    }

    /// The kind as it is written in a log line: the variant's name, followed
    /// by the quoted type name in brackets where it carries one.
    pub open spec fn label(self) -> Seq<char> {
        match self {
            KindView::ObjectMissing(t) => self.name() + "("@ + quoted_text(t) + ")"@,
            KindView::ObjectNotInList(t) => self.name() + "("@ + quoted_text(t) + ")"@,
            _ => self.name(),
        }
    }

    /// The report line for findings of this kind at `path`.
    pub open spec fn message(self, path: Seq<char>) -> Seq<char> {
        match self {
            KindView::RequiredFieldMissing => "Das zwingend vorgeschriebene Feld "@ + path
                + " fehlt"@,
            KindView::ObjectMissing(t) => "Das Objekt vom Typ "@ + t
                + " wurden von einem anderen Objekt verlinkt, ist aber nicht abrufbar"@,
            KindView::ObjectNotInList(t) => "Das Objekt von Typ "@ + t
                + " wurde von einem anderen Objekt verlinkt, fehlt aber in den externen Listen"@,
            KindView::EmptyString => "Das Feld "@ + path + " ist angegeben, hat aber keinen Inhalt"@,
            KindView::UsingHttp => "Das unsichere HTTP wird verwendet"@,
            KindView::InvalidJson => "Es wurde kein gültiges JSON zurückgegeben"@,
            KindView::HttpRequestFailedRetrying =>
                "Die Abfrage schlug fehl und musste wiederholt werden"@,
            KindView::HttpRequestFailedTooOften =>
                "Die Abfrage schlug zu oft fehl und konnte nicht abgeschlossen werden"@,
        }
    }
}

impl Clone for ProblemKind {
    fn clone(&self) -> (r: Self)
        ensures
            r == *self,
    {
        match self {
            ProblemKind::HttpRequestFailedRetrying => ProblemKind::HttpRequestFailedRetrying,
            ProblemKind::HttpRequestFailedTooOften => ProblemKind::HttpRequestFailedTooOften,
            ProblemKind::ObjectMissing(t) => ProblemKind::ObjectMissing(*t),
            ProblemKind::ObjectNotInList(t) => ProblemKind::ObjectNotInList(*t),
            ProblemKind::RequiredFieldMissing => ProblemKind::RequiredFieldMissing,
            ProblemKind::EmptyString => ProblemKind::EmptyString,
            ProblemKind::UsingHttp => ProblemKind::UsingHttp,
            ProblemKind::InvalidJson => ProblemKind::InvalidJson,
        }
    }
}

impl ProblemKind {
    /// Position of the kind in the declared order.
    pub fn rank(&self) -> (r: u8)
        ensures
            r == self@.rank(),
    {
        match self {
            ProblemKind::HttpRequestFailedRetrying => 0,
            ProblemKind::HttpRequestFailedTooOften => 1,
            ProblemKind::ObjectMissing(_) => 2,
            ProblemKind::ObjectNotInList(_) => 3,
            ProblemKind::RequiredFieldMissing => 4,
            ProblemKind::EmptyString => 5,
            ProblemKind::UsingHttp => 6,
            ProblemKind::InvalidJson => 7,
        }
    }

    /// The type name that the kind carries, or the empty text.
    pub fn object_type(&self) -> (r: &'static str)
        ensures
            r@ == self@.object_type(),
    {
        match self {
            ProblemKind::ObjectMissing(t) => *t,
            ProblemKind::ObjectNotInList(t) => *t,
            _ => {
                proof {
                    reveal_strlit("");
                }
                assert(""@ =~= Seq::<char>::empty());
                ""
            },
        }
    }

    /// Whether the two kinds are the same, type name included.
    pub fn same_as(&self, other: &ProblemKind) -> (r: bool)
        ensures
            r == (self@ == other@),
    {
        self.rank() == other.rank() && equal(self.object_type(), other.object_type())
    }

    /// Whether this kind is listed strictly before `other`.
    pub fn precedes(&self, other: &ProblemKind) -> (r: bool)
        ensures
            r == self@.less(other@),
    {
        let a = self.rank();
        let b = other.rank();
        a < b || (a == b && less(self.object_type(), other.object_type()))
    }

    /// The name of the variant.
    pub fn name(&self) -> (r: &'static str)
        ensures
            r@ == self@.name(),
    {
        match self {
            ProblemKind::HttpRequestFailedRetrying => "HttpRequestFailedRetrying",
            ProblemKind::HttpRequestFailedTooOften => "HttpRequestFailedTooOften",
            ProblemKind::ObjectMissing(_) => "ObjectMissing",
            ProblemKind::ObjectNotInList(_) => "ObjectNotInList",
            ProblemKind::RequiredFieldMissing => "RequiredFieldMissing",
            ProblemKind::EmptyString => "EmptyString",
            ProblemKind::UsingHttp => "UsingHttp",
            ProblemKind::InvalidJson => "InvalidJson",
        }
    }

    /// The kind as it is written in a log line.
    pub fn label(&self) -> (r: String)
        ensures
            r@ == self@.label(),
    {
        match self {
            ProblemKind::ObjectMissing(t) => {
                let q = quoted(t);
                let mut r = concat3(self.name(), "(", q.as_str());
                r.append(")");
                r
            },
            ProblemKind::ObjectNotInList(t) => {
                let q = quoted(t);
                let mut r = concat3(self.name(), "(", q.as_str());
                r.append(")");
                r
            },
            _ => String::from_str(self.name()),
        }
    }

    /// The report line for findings of this kind at `path`.
    pub fn message(&self, detail: &str) -> (r: String)
        ensures
            r@ == self@.message(detail@),
    {
        match self {
            ProblemKind::RequiredFieldMissing => concat3(
                "Das zwingend vorgeschriebene Feld ",
                detail,
                " fehlt",
            ),
            ProblemKind::ObjectMissing(object_type) => concat3(
                "Das Objekt vom Typ ",
                object_type,
                " wurden von einem anderen Objekt verlinkt, ist aber nicht abrufbar",
            ),
            ProblemKind::ObjectNotInList(object_type) => concat3(
                "Das Objekt von Typ ",
                object_type,
                " wurde von einem anderen Objekt verlinkt, fehlt aber in den externen Listen",
            ),
            ProblemKind::EmptyString => concat3(
                "Das Feld ",
                detail,
                " ist angegeben, hat aber keinen Inhalt",
            ),
            ProblemKind::UsingHttp => String::from_str("Das unsichere HTTP wird verwendet"),
            ProblemKind::InvalidJson => String::from_str(
                "Es wurde kein gültiges JSON zurückgegeben",
            ),
            ProblemKind::HttpRequestFailedRetrying => String::from_str(
                "Die Abfrage schlug fehl und musste wiederholt werden",
            ),
            ProblemKind::HttpRequestFailedTooOften => String::from_str(
                "Die Abfrage schlug zu oft fehl und konnte nicht abgeschlossen werden",
            ),
        }
    }
}

/// One reported defect.
#[derive(Debug, PartialEq, Eq, Hash)]
pub struct Problem {
    pub kind: ProblemKind,
    /// `Type.field` for a finding on a field, empty for one on an object.
    pub path: String,
    /// Free text that names the offending URL or id.
    pub detail: String,
}

/// Mathematical value of a [`Problem`].
pub struct ProblemView {
    pub kind: KindView,
    pub path: Seq<char>,
    pub detail: Seq<char>,
}

impl View for Problem {
    type V = ProblemView;

    open spec fn view(&self) -> ProblemView {
        ProblemView { kind: self.kind@, path: self.path@, detail: self.detail@ }
    }
}

impl ProblemView {
    /// The finding as one log line: kind, then the path if there is one, then the detail.
    pub open spec fn line(self) -> Seq<char> {
        if self.path.len() > 0 {
            self.kind.label() + " "@ + self.path + ": "@ + self.detail
        } else {
            self.kind.label() + ": "@ + self.detail
        }
    }
}

impl Clone for Problem {
    fn clone(&self) -> (r: Self)
        ensures
            r == *self,
    {
        Problem { kind: self.kind.clone(), path: self.path.clone(), detail: self.detail.clone() }
    }
}

impl Problem {
    /// The finding as one log line.
    pub fn to_string(&self) -> (r: String)
        ensures
            r@ == self@.line(),
    {
        let mut r = self.kind.label();
        if !self.path.as_str().is_empty() {
            r.append(" ");
            r.append(self.path.as_str());
        }
        r.append(": ");
        r.append(self.detail.as_str());
        assert(r@ =~= self@.line());
        r
    }
}

/// Where a finding was made: the id alone where it is the page's own URL,
/// otherwise the id (or a stand-in for a missing one) and the page.
pub open spec fn describe(id: Option<Seq<char>>, url: Seq<char>) -> Seq<char> {
    if id == Some(url) {
        url
    } else {
        (match id {
            Some(i) => i,
            None => "object with missing id"@,
        }) + " within "@ + url
    }
}

/// View of an optional text.
pub open spec fn opt_text(o: Option<&str>) -> Option<Seq<char>> {
    match o {
        Some(s) => Some(s@),
        None => None,
    }
}

/// Formats where a finding was made, so that every detail locates itself.
pub fn format_detail(id: Option<&str>, url: &str) -> (r: String)
    ensures
        r@ == describe(opt_text(id), url@),
{
    match id {
        Some(i) => {
            if equal(i, url) {
                String::from_str(url)
            } else {
                concat3(i, " within ", url)
            }
        },
        None => concat3("object with missing id", " within ", url),
    }
}

/// A node of a typed object: what a field can hold.
#[derive(Debug, PartialEq, Eq)]
pub enum SchemaValue {
    /// A text.
    Text(String),
    /// A number.
    Number(usize),
    /// A truth value.
    Flag(bool),
    /// Free-form content that is carried along and not looked into.
    Opaque,
    /// A value that may be absent.
    Optional(Option<Box<SchemaValue>>),
    /// Several values of one shape.
    Sequence(Vec<SchemaValue>),
    /// An object that is written out in place.
    Embedded(Box<OparlObject>),
    /// A reference to another object of the graph.
    Reference(OparlUrl),
    /// A URL that leads out of the object graph.
    External(OtherUrl),
}

/// A named field of an object.
#[derive(Debug, PartialEq, Eq)]
pub struct Field {
    pub name: &'static str,
    pub value: SchemaValue,
}

/// A typed object: its declared type, its own id, its fields in declared
/// order, and the names of the fields that the type requires.
#[derive(Debug, PartialEq, Eq)]
pub struct OparlObject {
    pub object_type: &'static str,
    pub id: Option<String>,
    pub fields: Vec<Field>,
    pub required: Vec<&'static str>,
}

/// View of an optional owned text.
pub open spec fn opt_string(o: Option<String>) -> Option<Seq<char>> {
    match o {
        Some(s) => Some(s@),
        None => None,
    }
}

/// Whether `name` is among `required`.
pub open spec fn names_contain(required: Seq<&'static str>, name: Seq<char>) -> bool {
    exists|i: int| 0 <= i < required.len() && (#[trigger] required[i])@ == name
}

/// The finding for an object whose id is an `http:` URL.
pub open spec fn insecure_id_problem(id: Seq<char>) -> ProblemView {
    ProblemView {
        kind: KindView::UsingHttp,
        path: Seq::empty(),
        detail: "Das id Feld verwendet das unsichere http ("@ + id + ")"@,
    }
}

/// What visiting an object's id writes: the id, and a finding where the id is insecure.
pub open spec fn id_ops(id: Option<Seq<char>>) -> Seq<StoreOp> {
    match id {
        Some(i) => if has_prefix(i, "http:"@) {
            seq![StoreOp::Id(i), StoreOp::Finding(insecure_id_problem(i))]
        } else {
            seq![StoreOp::Id(i)]
        },
        None => Seq::empty(),
    }
}

/// The path of a field: the type's name, a dot, the field's name.
pub open spec fn field_path(object_type: Seq<char>, name: Seq<char>) -> Seq<char> {
    object_type + "."@ + name
}

/// What visiting `v` writes, in order. `page` is the URL of the page that is
/// being read, `owner` the id of the object that holds the value, `path` the
/// path of the field that holds it, and `required` says whether that field
/// is required.
pub open spec fn value_ops(
    v: SchemaValue,
    page: Seq<char>,
    owner: Option<Seq<char>>,
    path: Seq<char>,
    required: bool,
) -> Seq<StoreOp>
    decreases v, 0nat,
{
    match v {
        SchemaValue::Text(s) => if s@.len() == 0 {
            seq![
                StoreOp::Finding(
                    ProblemView { kind: KindView::EmptyString, path, detail: describe(owner, page) },
                ),
            ]
        } else {
            Seq::empty()
        },
        SchemaValue::Number(_) => Seq::empty(),
        SchemaValue::Flag(_) => Seq::empty(),
        SchemaValue::Opaque => Seq::empty(),
        SchemaValue::Optional(None) => if required {
            seq![
                StoreOp::Finding(
                    ProblemView {
                        kind: KindView::RequiredFieldMissing,
                        path,
                        detail: describe(owner, page),
                    },
                ),
            ]
        } else {
            Seq::empty()
        },
        SchemaValue::Optional(Some(inner)) => value_ops(*inner, page, owner, path, required),
        SchemaValue::Sequence(items) => items_ops(
            items,
            items@.len(),
            page,
            owner,
            path,
            required,
        ),
        SchemaValue::Embedded(o) => object_ops(*o, page),
        SchemaValue::Reference(link) => seq![
            StoreOp::Link {
                object_type: link.object_type@,
                target: link.url@,
                source: match owner {
                    Some(id) => id,
                    None => page,
                },
            },
        ],
        SchemaValue::External(u) => seq![StoreOp::OtherUrl(u.0@)],
    }
}

/// What visiting the first `n` of `items` writes.
pub open spec fn items_ops(
    items: Vec<SchemaValue>,
    n: nat,
    page: Seq<char>,
    owner: Option<Seq<char>>,
    path: Seq<char>,
    required: bool,
) -> Seq<StoreOp>
    decreases items, n,
{
    if n == 0 || n > items@.len() {
        Seq::empty()
    } else {
        items_ops(items, (n - 1) as nat, page, owner, path, required) + value_ops(
            items@[n - 1],
            page,
            owner,
            path,
            required,
        )
    }
}

/// What visiting the object `o` on `page` writes: its id, then every field in
/// declared order, each with the object as its owner.
pub open spec fn object_ops(o: OparlObject, page: Seq<char>) -> Seq<StoreOp>
    decreases o, o.fields@.len() + 1,
{
    id_ops(opt_string(o.id)) + fields_ops(o, o.fields@.len(), page)
}

/// What visiting the first `n` fields of `o` writes.
pub open spec fn fields_ops(o: OparlObject, n: nat, page: Seq<char>) -> Seq<StoreOp>
    decreases o, n,
{
    if n == 0 || n > o.fields@.len() {
        Seq::empty()
    } else {
        fields_ops(o, (n - 1) as nat, page) + field_ops(o, o.fields@[n - 1], page)
    }
}

/// What visiting one field of `o` writes.
pub open spec fn field_ops(o: OparlObject, f: Field, page: Seq<char>) -> Seq<StoreOp>
    decreases f, 0nat,
{
    value_ops(
        f.value,
        page,
        opt_string(o.id),
        field_path(o.object_type@, f.name@),
        names_contain(o.required@, f.name@),
    )
}

/// The names of `fields`, in order.
pub open spec fn field_names_view(fields: Seq<Field>) -> Seq<Seq<char>> {
    fields.map_values(|f: Field| f.name@)
}

/// The values of `fields`, in order.
pub open spec fn field_values(fields: Seq<Field>) -> Seq<SchemaValue> {
    fields.map_values(|f: Field| f.value)
}

impl OparlObject {
    /// Whether the object has the fields of its type, under their names and
    /// in declared order, and requires what its type requires.
    pub open spec fn conforms(self) -> bool {
        &&& field_names_of(self.object_type@) == Some(field_names_view(self.fields@))
        &&& required_of(self.object_type@) == Some(names_view(self.required@))
    }

    /// Builds an object of a type of the schema from the values of its
    /// fields, given in declared order. There is no such object where the
    /// schema does not know the type or where the number of values is not the
    /// number of fields of the type.
    pub fn assemble(object_type: &'static str, id: Option<String>, values: Vec<SchemaValue>) -> (r:
        Option<OparlObject>)
        ensures
            match r {
                Some(o) => o.object_type == object_type && o.id == id && field_values(o.fields@)
                    == values@ && o.conforms(),
                None => match field_names_of(object_type@) {
                    Some(names) => names.len() != values@.len(),
                    None => true,
                },
            },
    {
        let names = match field_names(object_type) {
            Some(names) => names,
            None => {
                return None;
            },
        };
        let required = match required_fields(object_type) {
            Some(required) => required,
            None => {
                return None;
            },
        };
        if names.len() != values.len() {
            return None;
        }
        let mut rest = values;
        let mut fields: Vec<Field> = Vec::new();
        let mut i: usize = 0;
        while i < names.len()
            invariant
                i <= names@.len(),
                names@.len() == values@.len(),
                fields@.len() == i,
                rest@ == values@.subrange(i as int, values@.len() as int),
                forall|j: int|
                    0 <= j < i ==> (#[trigger] fields@[j]).name == names@[j] && fields@[j].value
                        == values@[j],
            decreases names@.len() - i,
        {
            let value = rest.remove(0);
            fields.push(Field { name: names[i], value });
            assert(rest@ =~= values@.subrange(i + 1, values@.len() as int));
            i += 1;
        }
        assert(field_values(fields@) =~= values@);
        assert(field_names_view(fields@) =~= names_view(names@));
        Some(OparlObject { object_type, id, fields, required })
    }

    /// The object's own id, where it has one.
    pub fn get_id(&self) -> (r: Option<&str>)
        ensures
            opt_text(r) == opt_string(self.id),
    {
        match &self.id {
            Some(id) => Some(id.as_str()),
            None => None,
        }
    }

    /// The names of the fields that the object's type requires.
    pub fn get_required(&self) -> (r: &Vec<&'static str>)
        ensures
            r == self.required,
    {
        &self.required
    }

    /// Whether the object's type requires the field `name`.
    pub fn is_required(&self, name: &str) -> (r: bool)
        ensures
            r == names_contain(self.required@, name@),
    {
        let mut i: usize = 0;
        while i < self.required.len()
            invariant
                i <= self.required@.len(),
                forall|j: int| 0 <= j < i ==> (#[trigger] self.required@[j])@ != name@,
            decreases self.required@.len() - i,
        {
            if equal(self.required[i], name) {
                return true;
            }
            i += 1;
        }
        false
    }

    /// Visits the object as it stands on the page at `url`: records its id,
    /// reports an insecure id, and visits every field in declared order.
    pub fn visit(&self, store: &mut Storage, url: &str)
        ensures
            final(store)@ == old(store)@.apply_all(object_ops(*self, url@)),
            old(store)@.wf() ==> final(store)@.wf(),
        decreases *self, self.fields@.len() + 2,
    {
        match &self.id {
            Some(id) => {
                store.add_id(id.clone());
                if starts_with(id.as_str(), "http:") {
                    store.add_problem(
                        Problem {
                            detail: concat3(
                                "Das id Feld verwendet das unsichere http (",
                                id.as_str(),
                                ")",
                            ),
                            path: String::new(),
                            kind: ProblemKind::UsingHttp,
                        },
                    );
                }
            },
            None => {},
        }
        proof {
            let start = old(store)@;
            let ops = id_ops(opt_string(self.id));
            match opt_string(self.id) {
                Some(id) => {
                    let first = StoreOp::Id(id);
                    lemma_apply_one(start, first);
                    if has_prefix(id, "http:"@) {
                        let second = StoreOp::Finding(insecure_id_problem(id));
                        lemma_apply_one(start.apply(first), second);
                        lemma_apply_all_concat(start, seq![first], seq![second]);
                        assert(ops =~= seq![first] + seq![second]);
                    }
                },
                None => {
                    lemma_apply_nothing(start);
                },
            }
            assert(store@ == start.apply_all(ops));
        }
        let ghost middle = store@;
        self.visit_fields(store, url);
        proof {
            lemma_apply_all_concat(
                old(store)@,
                id_ops(opt_string(self.id)),
                fields_ops(*self, self.fields@.len(), url@),
            );
            lemma_apply_all_keeps_wf(old(store)@, object_ops(*self, url@));
        }
    }

    /// Visits every field of the object in declared order.
    pub fn visit_fields(&self, store: &mut Storage, url: &str)
        ensures
            final(store)@ == old(store)@.apply_all(fields_ops(*self, self.fields@.len(), url@)),
            old(store)@.wf() ==> final(store)@.wf(),
        decreases *self, self.fields@.len() + 1,
    {
        let mut i: usize = 0;
        proof {
            lemma_apply_nothing(store@);
        }
        while i < self.fields.len()
            invariant
                i <= self.fields@.len(),
                store@ == old(store)@.apply_all(fields_ops(*self, i as nat, url@)),
            decreases self.fields@.len() - i,
        {
            proof {
                vstd::std_specs::vec::axiom_vec_index_decreases(self.fields, i as int);
            }
            self.visit_field(store, &self.fields[i], url);
            proof {
                lemma_apply_all_concat(
                    old(store)@,
                    fields_ops(*self, i as nat, url@),
                    field_ops(*self, self.fields@[i as int], url@),
                );
            }
            i += 1;
        }
        proof {
            lemma_apply_all_keeps_wf(
                old(store)@,
                fields_ops(*self, self.fields@.len(), url@),
            );
        }
    }

    /// Visits one field of the object: its value is visited under the path
    /// `Type.field`, with this object as its owner, and is reported where it
    /// is absent although the object's type requires the field.
    pub fn visit_field(&self, store: &mut Storage, field: &Field, url: &str)
        ensures
            final(store)@ == old(store)@.apply_all(field_ops(*self, *field, url@)),
            old(store)@.wf() ==> final(store)@.wf(),
        decreases *field, 1nat,
    {
        let path = concat3(self.object_type, ".", field.name);
        let required = self.is_required(field.name);
        field.value.visit(store, url, self.get_id(), path.as_str(), required);
    }
}

/// Whether nothing inside `v` writes under `path`: no object that is written
/// out inside `v`, however deep, has a field with this path.
pub open spec fn keeps_off(v: SchemaValue, path: Seq<char>) -> bool
    decreases v, 0nat,
{
    match v {
        SchemaValue::Optional(Some(inner)) => keeps_off(*inner, path),
        SchemaValue::Sequence(items) => items_keep_off(items, items@.len(), path),
        SchemaValue::Embedded(o) => object_keeps_off(*o, path),
        _ => true,
    }
}

/// Whether nothing inside the first `n` of `items` writes under `path`.
pub open spec fn items_keep_off(items: Vec<SchemaValue>, n: nat, path: Seq<char>) -> bool
    decreases items, n,
{
    if n == 0 || n > items@.len() {
        true
    } else {
        items_keep_off(items, (n - 1) as nat, path) && keeps_off(items@[n - 1], path)
    }
}

/// Whether neither `o` nor anything inside it writes under `path`.
pub open spec fn object_keeps_off(o: OparlObject, path: Seq<char>) -> bool
    decreases o, o.fields@.len() + 1,
{
    fields_keep_off(o, o.fields@.len(), path)
}

/// Whether none of the first `n` fields of `o` has the path `path`, and
/// nothing inside them writes under it.
pub open spec fn fields_keep_off(o: OparlObject, n: nat, path: Seq<char>) -> bool
    decreases o, n,
{
    if n == 0 || n > o.fields@.len() {
        true
    } else {
        fields_keep_off(o, (n - 1) as nat, path) && field_keeps_off(o, o.fields@[n - 1], path)
    }
}

/// Whether the field `f` of `o` has another path than `path`, and nothing
/// inside it writes under `path`.
pub open spec fn field_keeps_off(o: OparlObject, f: Field, path: Seq<char>) -> bool
    decreases f, 0nat,
{
    field_path(o.object_type@, f.name@) != path && keeps_off(f.value, path)
}

/// A value that stands under another path, and inside which nothing writes
/// under `path`, gives no finding at `path`.
pub proof fn lemma_value_quiet(
    v: SchemaValue,
    page: Seq<char>,
    owner: Option<Seq<char>>,
    own_path: Seq<char>,
    required: bool,
    kind: KindView,
    path: Seq<char>,
)
    requires
        keeps_off(v, path),
        own_path != path,
        path.len() > 0,
    ensures
        count_findings(value_ops(v, page, owner, own_path, required), kind, path) == 0,
    decreases v, 0nat,
{
    let ops = value_ops(v, page, owner, own_path, required);
    match v {
        SchemaValue::Optional(Some(inner)) => {
            lemma_value_quiet(*inner, page, owner, own_path, required, kind, path);
        },
        SchemaValue::Sequence(items) => {
            lemma_items_quiet(items, items@.len(), page, owner, own_path, required, kind, path);
        },
        SchemaValue::Embedded(o) => {
            lemma_object_quiet(*o, page, kind, path);
        },
        _ => {
            if ops.len() > 0 {
                assert(ops =~= seq![ops[0]]);
                lemma_count_findings_one(ops[0], kind, path);
            }
        },
    }
}

/// The first `n` of such values give no finding at `path`.
pub proof fn lemma_items_quiet(
    items: Vec<SchemaValue>,
    n: nat,
    page: Seq<char>,
    owner: Option<Seq<char>>,
    own_path: Seq<char>,
    required: bool,
    kind: KindView,
    path: Seq<char>,
)
    requires
        items_keep_off(items, n, path),
        own_path != path,
        path.len() > 0,
    ensures
        count_findings(items_ops(items, n, page, owner, own_path, required), kind, path) == 0,
    decreases items, n,
{
    if n > 0 && n <= items@.len() {
        lemma_items_quiet(items, (n - 1) as nat, page, owner, own_path, required, kind, path);
        lemma_value_quiet(items@[n - 1], page, owner, own_path, required, kind, path);
        lemma_count_findings_concat(
            items_ops(items, (n - 1) as nat, page, owner, own_path, required),
            value_ops(items@[n - 1], page, owner, own_path, required),
            kind,
            path,
        );
    }
}

/// An object that keeps off `path` gives no finding at `path`.
pub proof fn lemma_object_quiet(o: OparlObject, page: Seq<char>, kind: KindView, path: Seq<char>)
    requires
        object_keeps_off(o, path),
        path.len() > 0,
    ensures
        count_findings(object_ops(o, page), kind, path) == 0,
    decreases o, o.fields@.len() + 1,
{
    lemma_id_quiet(opt_string(o.id), kind, path);
    lemma_fields_quiet(o, o.fields@.len(), page, kind, path);
    lemma_count_findings_concat(
        id_ops(opt_string(o.id)),
        fields_ops(o, o.fields@.len(), page),
        kind,
        path,
    );
}

/// What the id of an object writes holds no finding at a path.
pub proof fn lemma_id_quiet(id: Option<Seq<char>>, kind: KindView, path: Seq<char>)
    requires
        path.len() > 0,
    ensures
        count_findings(id_ops(id), kind, path) == 0,
{
    let ops = id_ops(id);
    if ops.len() == 1 {
        assert(ops =~= seq![ops[0]]);
        lemma_count_findings_one(ops[0], kind, path);
    } else if ops.len() == 2 {
        assert(ops =~= seq![ops[0]] + seq![ops[1]]);
        lemma_count_findings_one(ops[0], kind, path);
        lemma_count_findings_one(ops[1], kind, path);
        lemma_count_findings_concat(seq![ops[0]], seq![ops[1]], kind, path);
    }
}

/// The first `n` fields of an object that keep off `path` give no finding at `path`.
pub proof fn lemma_fields_quiet(
    o: OparlObject,
    n: nat,
    page: Seq<char>,
    kind: KindView,
    path: Seq<char>,
)
    requires
        fields_keep_off(o, n, path),
        path.len() > 0,
    ensures
        count_findings(fields_ops(o, n, page), kind, path) == 0,
    decreases o, n,
{
    if n > 0 && n <= o.fields@.len() {
        lemma_fields_quiet(o, (n - 1) as nat, page, kind, path);
        lemma_field_quiet(o, o.fields@[n - 1], page, kind, path);
        lemma_count_findings_concat(
            fields_ops(o, (n - 1) as nat, page),
            field_ops(o, o.fields@[n - 1], page),
            kind,
            path,
        );
    }
}

/// A field that keeps off `path` gives no finding at `path`.
pub proof fn lemma_field_quiet(
    o: OparlObject,
    f: Field,
    page: Seq<char>,
    kind: KindView,
    path: Seq<char>,
)
    requires
        field_keeps_off(o, f, path),
        path.len() > 0,
    ensures
        count_findings(field_ops(o, f, page), kind, path) == 0,
    decreases f, 0nat,
{
    lemma_value_quiet(
        f.value,
        page,
        opt_string(o.id),
        field_path(o.object_type@, f.name@),
        names_contain(o.required@, f.name@),
        kind,
        path,
    );
}

/// The finding for the required field `name` that an object leaves out.
pub open spec fn missing_field_problem(
    o: OparlObject,
    name: Seq<char>,
    page: Seq<char>,
) -> ProblemView {
    ProblemView {
        kind: KindView::RequiredFieldMissing,
        path: field_path(o.object_type@, name),
        detail: describe(opt_string(o.id), page),
    }
}

/// Whether every field of `o` but the one at `k` keeps off the path of the
/// field at `k`.
pub open spec fn others_keep_off(o: OparlObject, k: int) -> bool {
    forall|i: int|
        0 <= i < o.fields@.len() && i != k ==> field_keeps_off(
            o,
            #[trigger] o.fields@[i],
            field_path(o.object_type@, o.fields@[k].name@),
        )
}

/// A required field that an object leaves out is reported exactly once: the
/// visit of the object writes the finding for it, which names the object's
/// id and the page, and no other finding of that kind at that path, provided
/// that no other field has the same path or holds an object that writes
/// under it.
pub proof fn lemma_missing_required_field(o: OparlObject, k: int, page: Seq<char>)
    requires
        0 <= k < o.fields@.len(),
        o.fields@[k].value == SchemaValue::Optional(None),
        names_contain(o.required@, o.fields@[k].name@),
        others_keep_off(o, k),
    ensures
        field_ops(o, o.fields@[k], page) == seq![
            StoreOp::Finding(missing_field_problem(o, o.fields@[k].name@, page)),
        ],
        count_findings(
            object_ops(o, page),
            KindView::RequiredFieldMissing,
            field_path(o.object_type@, o.fields@[k].name@),
        ) == 1,
{
    let kind = KindView::RequiredFieldMissing;
    let path = field_path(o.object_type@, o.fields@[k].name@);
    assert(path.len() > 0) by {
        reveal_strlit(".");
        assert(path.len() == o.object_type@.len() + "."@.len() + o.fields@[k].name@.len());
    }
    lemma_counted_fields(o, o.fields@.len(), k, page);
    lemma_id_quiet(opt_string(o.id), kind, path);
    lemma_count_findings_concat(
        id_ops(opt_string(o.id)),
        fields_ops(o, o.fields@.len(), page),
        kind,
        path,
    );
}

/// Among the first `n` fields the one at `k` gives its one finding, where it
/// is among them, and the others give none.
proof fn lemma_counted_fields(o: OparlObject, n: nat, k: int, page: Seq<char>)
    requires
        n <= o.fields@.len(),
        0 <= k < o.fields@.len(),
        o.fields@[k].value == SchemaValue::Optional(None),
        names_contain(o.required@, o.fields@[k].name@),
        others_keep_off(o, k),
        field_path(o.object_type@, o.fields@[k].name@).len() > 0,
    ensures
        count_findings(
            fields_ops(o, n, page),
            KindView::RequiredFieldMissing,
            field_path(o.object_type@, o.fields@[k].name@),
        ) == if k < n {
            1nat
        } else {
            0nat
        },
    decreases n,
{
    let kind = KindView::RequiredFieldMissing;
    let path = field_path(o.object_type@, o.fields@[k].name@);
    if n == 0 {
        lemma_count_findings_one(StoreOp::Id(Seq::empty()), kind, path);
    } else {
        lemma_counted_fields(o, (n - 1) as nat, k, page);
        let f = o.fields@[n - 1];
        lemma_count_findings_concat(
            fields_ops(o, (n - 1) as nat, page),
            field_ops(o, f, page),
            kind,
            path,
        );
        if n - 1 == k {
            let op = StoreOp::Finding(missing_field_problem(o, f.name@, page));
            assert(field_ops(o, f, page) =~= seq![op]);
            lemma_count_findings_one(op, kind, path);
        } else {
            assert(field_keeps_off(o, o.fields@[n - 1], path));
            lemma_field_quiet(o, f, page, kind, path);
        }
    }
}

/// Visiting the same reference from two owners leaves both owners among the
/// sources of the referenced object: references are never merged.
pub proof fn lemma_references_accumulate(
    s: StorageView,
    link: OparlUrl,
    page: Seq<char>,
    first_owner: Seq<char>,
    second_owner: Seq<char>,
    path: Seq<char>,
    required: bool,
)
    ensures
        s.apply_all(
            value_ops(SchemaValue::Reference(link), page, Some(first_owner), path, required),
        ).apply_all(
            value_ops(SchemaValue::Reference(link), page, Some(second_owner), path, required),
        ).sources_of(link.object_type@, link.url@) == s.sources_of(
            link.object_type@,
            link.url@,
        ).push(first_owner).push(second_owner),
{
    let object_type = link.object_type@;
    let a = StoreOp::Link { object_type, target: link.url@, source: first_owner };
    let b = StoreOp::Link { object_type, target: link.url@, source: second_owner };
    lemma_apply_one(s, a);
    lemma_apply_one(s.apply(a), b);
    lemma_links_accumulate(
        s,
        link.object_type@,
        link.url@,
        first_owner,
        second_owner,
    );
}

impl SchemaValue {
    /// Whether the value is present: only an absent optional value is not.
    pub fn is_some(&self) -> (r: bool)
        ensures
            r == !(*self matches SchemaValue::Optional(None)),
    {
        match self {
            SchemaValue::Optional(None) => false,
            _ => true,
        }
    }

    /// Visits the value. `url` is the page that is being read, `id` the id of
    /// the object that holds the value, `path` the path of the field that
    /// holds it, and `required` says whether that field is required.
    ///
    /// An empty text and an absent value of a required field are reported, a
    /// reference is recorded with its source (the owner, or the page where
    /// the owner has no id), another URL is recorded, an embedded object is
    /// visited, and the elements of a sequence are visited in order.
    pub fn visit(
        &self,
        store: &mut Storage,
        url: &str,
        id: Option<&str>,
        path: &str,
        required: bool,
    )
        ensures
            final(store)@ == old(store)@.apply_all(
                value_ops(*self, url@, opt_text(id), path@, required),
            ),
            old(store)@.wf() ==> final(store)@.wf(),
        decreases *self, 0nat,
    {
        let ghost start = store@;
        let ghost ops = value_ops(*self, url@, opt_text(id), path@, required);
        proof {
            lemma_apply_nothing(start);
            lemma_apply_all_keeps_wf(start, ops);
        }
        match self {
            SchemaValue::Text(s) => {
                if s.as_str().is_empty() {
                    let problem = Problem {
                        detail: format_detail(id, url),
                        path: String::from_str(path),
                        kind: ProblemKind::EmptyString,
                    };
                    proof {
                        lemma_apply_one(start, StoreOp::Finding(problem@));
                    }
                    store.add_problem(problem);
                }
            },
            SchemaValue::Number(_) => {},
            SchemaValue::Flag(_) => {},
            SchemaValue::Opaque => {},
            SchemaValue::Optional(None) => {
                if required {
                    let problem = Problem {
                        detail: format_detail(id, url),
                        path: String::from_str(path),
                        kind: ProblemKind::RequiredFieldMissing,
                    };
                    proof {
                        lemma_apply_one(start, StoreOp::Finding(problem@));
                    }
                    store.add_problem(problem);
                }
            },
            SchemaValue::Optional(Some(inner)) => {
                inner.visit(store, url, id, path, required);
            },
            SchemaValue::Sequence(items) => {
                let mut i: usize = 0;
                while i < items.len()
                    invariant
                        i <= items@.len(),
                        *self == SchemaValue::Sequence(*items),
                        store@ == start.apply_all(
                            items_ops(*items, i as nat, url@, opt_text(id), path@, required),
                        ),
                    decreases items@.len() - i,
                {
                    proof {
                        vstd::std_specs::vec::axiom_vec_index_decreases(*items, i as int);
                        assert(decreases_to!(*self => self->Sequence_0));
                    }
                    items[i].visit(store, url, id, path, required);
                    proof {
                        lemma_apply_all_concat(
                            start,
                            items_ops(*items, i as nat, url@, opt_text(id), path@, required),
                            value_ops(items@[i as int], url@, opt_text(id), path@, required),
                        );
                    }
                    i += 1;
                }
            },
            SchemaValue::Embedded(object) => {
                object.visit(store, url);
            },
            SchemaValue::Reference(link) => {
                let source = match id {
                    Some(owner) => String::from_str(owner),
                    None => String::from_str(url),
                };
                proof {
                    lemma_apply_one(
                        start,
                        StoreOp::Link {
                            object_type: link.object_type@,
                            target: link.url@,
                            source: source@,
                        },
                    );
                }
                store.add_link(link.object_type, link.url.clone(), source);
            },
            SchemaValue::External(other) => {
                proof {
                    lemma_apply_one(start, StoreOp::OtherUrl(other.0@));
                }
                store.add_other_url(other.0.clone());
            },
        }
    }
}

} // verus!
