//! The two kinds of URL that occur in typed objects, and the tables of the
//! schema: which fields each type of object has, and which of them it requires.

use crate::text::equal;
use vstd::prelude::*;

verus! {

/// A URL that refers to another object of the graph, with the type that the
/// object is declared to have.
#[derive(Debug, Clone, PartialEq, Eq, Hash)]
pub struct OparlUrl {
    pub object_type: &'static str,
    pub url: String,
}

impl OparlUrl {
    /// A reference to the object of type `object_type` at `url`.
    pub fn new(object_type: &'static str, url: String) -> (r: OparlUrl)
        ensures
            r.object_type == object_type,
            r.url == url,
    {
        OparlUrl { object_type, url }
    }

    /// The URL itself.
    pub fn as_str(&self) -> (r: &str)
        ensures
            r@ == self.url@,
    {
        self.url.as_str()
    }
}

/// A URL of a list or of a resource outside the object graph.
#[derive(Debug, Clone, PartialEq, Eq, Hash)]
pub struct OtherUrl(pub String);

impl OtherUrl {
    /// Wraps `url`.
    pub fn new(url: String) -> (r: OtherUrl)
        ensures
            r.0 == url,
    {
        OtherUrl(url)
    }

    /// The URL itself.
    pub fn as_str(&self) -> (r: &str)
        ensures
            r@ == self.0@,
    {
        self.0.as_str()
    }
}

/// Views of a sequence of names.
pub open spec fn names_view(v: Seq<&'static str>) -> Seq<Seq<char>> {
    v.map_values(|s: &'static str| s@)
}

/// The names of the fields that objects of `object_type` have, in declared
/// order; nothing for a type that the schema does not know.
pub open spec fn field_names_of(object_type: Seq<char>) -> Option<Seq<Seq<char>>> {
    if object_type == "File"@ {
        Some(
            seq![
                "id"@, "type"@, "name"@, "fileName"@, "mimeType"@, "date"@, "size"@,
                "sha1Checksum"@, "text"@, "accessUrl"@, "downloadUrl"@,
                "externalServiceUrl"@, "masterFile"@, "derivativeFile"@, "fileLicense"@,
                "meeting"@, "agendaItem"@, "paper"@, "keyword"@, "created"@, "modified"@,
                "web"@, "deleted"@,
            ],
        )
    }     else if object_type == "System"@ {
        Some(
            seq![
                "id"@, "type"@, "oparlVersion"@, "otherOparlVersions"@, "license"@, "body"@,
                "name"@, "contactEmail"@, "contactName"@, "website"@, "vendor"@, "product"@,
                "created"@, "modified"@, "web"@, "deleted"@,
            ],
        )
    }     else if object_type == "Organization"@ {
        Some(
            seq![
                "id"@, "type"@, "body"@, "name"@, "membership"@, "meeting"@, "shortName"@,
                "post"@, "subOrganizationOf"@, "organizationType"@, "classification"@,
                "startDate"@, "endDate"@, "website"@, "location"@, "externalBody"@,
                "keyword"@, "created"@, "modified"@, "web"@, "deleted"@,
            ],
        )
    }     else if object_type == "Consultation"@ {
        Some(
            seq![
                "id"@, "type"@, "paper"@, "agendaItem"@, "meeting"@, "organization"@,
                "authoritative"@, "role"@, "keyword"@, "web"@,
            ],
        )
    }     else if object_type == "Paper"@ {
        Some(
            seq![
                "id"@, "type"@, "body"@, "name"@, "reference"@, "date"@, "paperType"@,
                "relatedPaper"@, "superordinatedPaper"@, "subordinatedPaper"@, "mainFile"@,
                "auxiliaryFile"@, "location"@, "originatorPerson"@, "underDirectionOf"@,
                "originatorOrganization"@, "consultation"@, "keyword"@, "created"@,
                "modified"@, "web"@, "deleted"@,
            ],
        )
    }     else if object_type == "LegislativeTerm"@ {
        Some(
            seq![
                "id"@, "type"@, "body"@, "name"@, "startDate"@, "endDate"@, "keyword"@,
                "web"@,
            ],
        )
    }     else if object_type == "Body"@ {
        Some(
            seq![
                "id"@, "type"@, "system"@, "shortName"@, "name"@, "website"@, "license"@,
                "licenseValidSince"@, "oparlSince"@, "ags"@, "rgs"@, "equivalent"@,
                "contactEmail"@, "contactName"@, "organization"@, "person"@, "meeting"@,
                "paper"@, "legislativeTerm"@, "classification"@, "location"@, "keyword"@,
                "created"@, "modified"@, "web"@, "deleted"@,
            ],
        )
    }     else if object_type == "AgendaItem"@ {
        Some(
            seq![
                "id"@, "type"@, "meeting"@, "number"@, "name"@, "public"@, "consultation"@,
                "result"@, "resolutionText"@, "resolutionFile"@, "auxiliaryFile"@, "start"@,
                "end"@, "keyword"@, "web"@,
            ],
        )
    }     else if object_type == "Meeting"@ {
        Some(
            seq![
                "id"@, "type"@, "name"@, "meetingState"@, "cancelled"@, "start"@, "end"@,
                "location"@, "organization"@, "participant"@, "invitation"@,
                "resultsProtocol"@, "verbatimProtocol"@, "auxiliaryFile"@, "agendaItem"@,
                "keyword"@, "created"@, "modified"@, "web"@, "deleted"@,
            ],
        )
    }     else if object_type == "Location"@ {
        Some(
            seq![
                "id"@, "type"@, "description"@, "geojson"@, "streetAddress"@, "room"@,
                "postalCode"@, "subLocality"@, "locality"@, "bodies"@, "organization"@,
                "meeting"@, "papers"@, "keyword"@, "created"@, "modified"@, "web"@,
                "deleted"@,
            ],
        )
    }     else if object_type == "Membership"@ {
        Some(
            seq![
                "id"@, "type"@, "person"@, "organization"@, "role"@, "votingRight"@,
                "startDate"@, "endDate"@, "onBehalfOf"@, "keyword"@, "web"@,
            ],
        )
    }     else if object_type == "Person"@ {
        Some(
            seq![
                "id"@, "type"@, "body"@, "name"@, "familyName"@, "givenName"@,
                "formOfAddress"@, "affix"@, "title"@, "gender"@, "phone"@, "email"@,
                "location"@, "status"@, "membership"@, "life"@, "lifeSource"@, "keyword"@,
                "created"@, "modified"@, "web"@, "deleted"@,
            ],
        )
    } else {
        None
    }
}

/// The names of the fields that objects of `object_type` must have; nothing
/// for a type that the schema does not know.
pub open spec fn required_of(object_type: Seq<char>) -> Option<Seq<Seq<char>>> {
    if object_type == "File"@ {
        Some(
            seq!["id"@, "type"@, "accessUrl"@],
        )
    }     else if object_type == "System"@ {
        Some(
            seq!["id"@, "type"@, "oparlVersion"@, "body"@],
        )
    }     else if object_type == "Organization"@ {
        Some(
            seq!["id"@, "type"@],
        )
    }     else if object_type == "Consultation"@ {
        Some(
            seq!["id"@, "type"@],
        )
    }     else if object_type == "Paper"@ {
        Some(
            seq!["id"@, "type"@],
        )
    }     else if object_type == "LegislativeTerm"@ {
        Some(
            seq!["id"@, "type"@],
        )
    }     else if object_type == "Body"@ {
        Some(
            seq![
                "id"@, "type"@, "name"@, "organization"@, "person"@, "meeting"@, "paper"@,
                "legislativeTerm"@,
            ],
        )
    }     else if object_type == "AgendaItem"@ {
        Some(
            seq!["id"@, "type"@],
        )
    }     else if object_type == "Meeting"@ {
        Some(
            seq!["id"@, "type"@],
        )
    }     else if object_type == "Location"@ {
        Some(
            seq!["id"@, "type"@],
        )
    }     else if object_type == "Membership"@ {
        Some(
            seq!["id"@, "type"@],
        )
    }     else if object_type == "Person"@ {
        Some(
            seq!["id"@, "type"@],
        )
    } else {
        None
    }
}

/// The names of the fields that objects of `object_type` have, in declared order.
pub fn field_names(object_type: &str) -> (r: Option<Vec<&'static str>>)
    ensures
        match r {
            Some(names) => field_names_of(object_type@) == Some(names_view(names@)),
            None => field_names_of(object_type@) is None,
        },
{
    if equal(object_type, "File") {
        let names = vec![
            "id", "type", "name", "fileName", "mimeType", "date", "size", "sha1Checksum",
            "text", "accessUrl", "downloadUrl", "externalServiceUrl", "masterFile",
            "derivativeFile", "fileLicense", "meeting", "agendaItem", "paper", "keyword",
            "created", "modified", "web", "deleted",
        ];
        assert(names_view(names@) =~= seq![
                "id"@, "type"@, "name"@, "fileName"@, "mimeType"@, "date"@, "size"@,
                "sha1Checksum"@, "text"@, "accessUrl"@, "downloadUrl"@,
                "externalServiceUrl"@, "masterFile"@, "derivativeFile"@, "fileLicense"@,
                "meeting"@, "agendaItem"@, "paper"@, "keyword"@, "created"@, "modified"@,
                "web"@, "deleted"@,
            ]);
        Some(names)
    }     else if equal(object_type, "System") {
        let names = vec![
            "id", "type", "oparlVersion", "otherOparlVersions", "license", "body", "name",
            "contactEmail", "contactName", "website", "vendor", "product", "created",
            "modified", "web", "deleted",
        ];
        assert(names_view(names@) =~= seq![
                "id"@, "type"@, "oparlVersion"@, "otherOparlVersions"@, "license"@, "body"@,
                "name"@, "contactEmail"@, "contactName"@, "website"@, "vendor"@, "product"@,
                "created"@, "modified"@, "web"@, "deleted"@,
            ]);
        Some(names)
    }     else if equal(object_type, "Organization") {
        let names = vec![
            "id", "type", "body", "name", "membership", "meeting", "shortName", "post",
            "subOrganizationOf", "organizationType", "classification", "startDate",
            "endDate", "website", "location", "externalBody", "keyword", "created",
            "modified", "web", "deleted",
        ];
        assert(names_view(names@) =~= seq![
                "id"@, "type"@, "body"@, "name"@, "membership"@, "meeting"@, "shortName"@,
                "post"@, "subOrganizationOf"@, "organizationType"@, "classification"@,
                "startDate"@, "endDate"@, "website"@, "location"@, "externalBody"@,
                "keyword"@, "created"@, "modified"@, "web"@, "deleted"@,
            ]);
        Some(names)
    }     else if equal(object_type, "Consultation") {
        let names = vec![
            "id", "type", "paper", "agendaItem", "meeting", "organization", "authoritative",
            "role", "keyword", "web",
        ];
        assert(names_view(names@) =~= seq![
                "id"@, "type"@, "paper"@, "agendaItem"@, "meeting"@, "organization"@,
                "authoritative"@, "role"@, "keyword"@, "web"@,
            ]);
        Some(names)
    }     else if equal(object_type, "Paper") {
        let names = vec![
            "id", "type", "body", "name", "reference", "date", "paperType", "relatedPaper",
            "superordinatedPaper", "subordinatedPaper", "mainFile", "auxiliaryFile",
            "location", "originatorPerson", "underDirectionOf", "originatorOrganization",
            "consultation", "keyword", "created", "modified", "web", "deleted",
        ];
        assert(names_view(names@) =~= seq![
                "id"@, "type"@, "body"@, "name"@, "reference"@, "date"@, "paperType"@,
                "relatedPaper"@, "superordinatedPaper"@, "subordinatedPaper"@, "mainFile"@,
                "auxiliaryFile"@, "location"@, "originatorPerson"@, "underDirectionOf"@,
                "originatorOrganization"@, "consultation"@, "keyword"@, "created"@,
                "modified"@, "web"@, "deleted"@,
            ]);
        Some(names)
    }     else if equal(object_type, "LegislativeTerm") {
        let names = vec!["id", "type", "body", "name", "startDate", "endDate", "keyword", "web"];
        assert(names_view(names@) =~= seq![
                "id"@, "type"@, "body"@, "name"@, "startDate"@, "endDate"@, "keyword"@,
                "web"@,
            ]);
        Some(names)
    }     else if equal(object_type, "Body") {
        let names = vec![
            "id", "type", "system", "shortName", "name", "website", "license",
            "licenseValidSince", "oparlSince", "ags", "rgs", "equivalent", "contactEmail",
            "contactName", "organization", "person", "meeting", "paper", "legislativeTerm",
            "classification", "location", "keyword", "created", "modified", "web",
            "deleted",
        ];
        assert(names_view(names@) =~= seq![
                "id"@, "type"@, "system"@, "shortName"@, "name"@, "website"@, "license"@,
                "licenseValidSince"@, "oparlSince"@, "ags"@, "rgs"@, "equivalent"@,
                "contactEmail"@, "contactName"@, "organization"@, "person"@, "meeting"@,
                "paper"@, "legislativeTerm"@, "classification"@, "location"@, "keyword"@,
                "created"@, "modified"@, "web"@, "deleted"@,
            ]);
        Some(names)
    }     else if equal(object_type, "AgendaItem") {
        let names = vec![
            "id", "type", "meeting", "number", "name", "public", "consultation", "result",
            "resolutionText", "resolutionFile", "auxiliaryFile", "start", "end", "keyword",
            "web",
        ];
        assert(names_view(names@) =~= seq![
                "id"@, "type"@, "meeting"@, "number"@, "name"@, "public"@, "consultation"@,
                "result"@, "resolutionText"@, "resolutionFile"@, "auxiliaryFile"@, "start"@,
                "end"@, "keyword"@, "web"@,
            ]);
        Some(names)
    }     else if equal(object_type, "Meeting") {
        let names = vec![
            "id", "type", "name", "meetingState", "cancelled", "start", "end", "location",
            "organization", "participant", "invitation", "resultsProtocol",
            "verbatimProtocol", "auxiliaryFile", "agendaItem", "keyword", "created",
            "modified", "web", "deleted",
        ];
        assert(names_view(names@) =~= seq![
                "id"@, "type"@, "name"@, "meetingState"@, "cancelled"@, "start"@, "end"@,
                "location"@, "organization"@, "participant"@, "invitation"@,
                "resultsProtocol"@, "verbatimProtocol"@, "auxiliaryFile"@, "agendaItem"@,
                "keyword"@, "created"@, "modified"@, "web"@, "deleted"@,
            ]);
        Some(names)
    }     else if equal(object_type, "Location") {
        let names = vec![
            "id", "type", "description", "geojson", "streetAddress", "room", "postalCode",
            "subLocality", "locality", "bodies", "organization", "meeting", "papers",
            "keyword", "created", "modified", "web", "deleted",
        ];
        assert(names_view(names@) =~= seq![
                "id"@, "type"@, "description"@, "geojson"@, "streetAddress"@, "room"@,
                "postalCode"@, "subLocality"@, "locality"@, "bodies"@, "organization"@,
                "meeting"@, "papers"@, "keyword"@, "created"@, "modified"@, "web"@,
                "deleted"@,
            ]);
        Some(names)
    }     else if equal(object_type, "Membership") {
        let names = vec![
            "id", "type", "person", "organization", "role", "votingRight", "startDate",
            "endDate", "onBehalfOf", "keyword", "web",
        ];
        assert(names_view(names@) =~= seq![
                "id"@, "type"@, "person"@, "organization"@, "role"@, "votingRight"@,
                "startDate"@, "endDate"@, "onBehalfOf"@, "keyword"@, "web"@,
            ]);
        Some(names)
    }     else if equal(object_type, "Person") {
        let names = vec![
            "id", "type", "body", "name", "familyName", "givenName", "formOfAddress",
            "affix", "title", "gender", "phone", "email", "location", "status",
            "membership", "life", "lifeSource", "keyword", "created", "modified", "web",
            "deleted",
        ];
        assert(names_view(names@) =~= seq![
                "id"@, "type"@, "body"@, "name"@, "familyName"@, "givenName"@,
                "formOfAddress"@, "affix"@, "title"@, "gender"@, "phone"@, "email"@,
                "location"@, "status"@, "membership"@, "life"@, "lifeSource"@, "keyword"@,
                "created"@, "modified"@, "web"@, "deleted"@,
            ]);
        Some(names)
    } else {
        None
    }
}

/// The names of the fields that objects of `object_type` must have.
pub fn required_fields(object_type: &str) -> (r: Option<Vec<&'static str>>)
    ensures
        match r {
            Some(names) => required_of(object_type@) == Some(names_view(names@)),
            None => required_of(object_type@) is None,
        },
{
    if equal(object_type, "File") {
        let names = vec!["id", "type", "accessUrl"];
        assert(names_view(names@) =~= seq!["id"@, "type"@, "accessUrl"@]);
        Some(names)
    }     else if equal(object_type, "System") {
        let names = vec!["id", "type", "oparlVersion", "body"];
        assert(names_view(names@) =~= seq!["id"@, "type"@, "oparlVersion"@, "body"@]);
        Some(names)
    }     else if equal(object_type, "Organization") {
        let names = vec!["id", "type"];
        assert(names_view(names@) =~= seq!["id"@, "type"@]);
        Some(names)
    }     else if equal(object_type, "Consultation") {
        let names = vec!["id", "type"];
        assert(names_view(names@) =~= seq!["id"@, "type"@]);
        Some(names)
    }     else if equal(object_type, "Paper") {
        let names = vec!["id", "type"];
        assert(names_view(names@) =~= seq!["id"@, "type"@]);
        Some(names)
    }     else if equal(object_type, "LegislativeTerm") {
        let names = vec!["id", "type"];
        assert(names_view(names@) =~= seq!["id"@, "type"@]);
        Some(names)
    }     else if equal(object_type, "Body") {
        let names = vec![
            "id", "type", "name", "organization", "person", "meeting", "paper",
            "legislativeTerm",
        ];
        assert(names_view(names@) =~= seq![
                "id"@, "type"@, "name"@, "organization"@, "person"@, "meeting"@, "paper"@,
                "legislativeTerm"@,
            ]);
        Some(names)
    }     else if equal(object_type, "AgendaItem") {
        let names = vec!["id", "type"];
        assert(names_view(names@) =~= seq!["id"@, "type"@]);
        Some(names)
    }     else if equal(object_type, "Meeting") {
        let names = vec!["id", "type"];
        assert(names_view(names@) =~= seq!["id"@, "type"@]);
        Some(names)
    }     else if equal(object_type, "Location") {
        let names = vec!["id", "type"];
        assert(names_view(names@) =~= seq!["id"@, "type"@]);
        Some(names)
    }     else if equal(object_type, "Membership") {
        let names = vec!["id", "type"];
        assert(names_view(names@) =~= seq!["id"@, "type"@]);
        Some(names)
    }     else if equal(object_type, "Person") {
        let names = vec!["id", "type"];
        assert(names_view(names@) =~= seq!["id"@, "type"@]);
        Some(names)
    } else {
        None
    }
}

} // verus!
