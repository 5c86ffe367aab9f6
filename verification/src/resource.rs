//! The general shape that every fact of every domain reduces to.
use vstd::prelude::*;
use crate::model::{Evidence, EvidenceView, Tier};
use crate::table::TextMap;
use crate::text::owned;

verus! {

/// A resource's name.
#[derive(Debug)]
pub struct Identity(pub String);

/// Where a resource lives; `line` is absent for anything that is not one line
/// of source.
#[derive(Debug)]
pub struct Location {
    pub file: String,
    pub line: Option<usize>,
}

/// One fact in the general shape.
#[derive(Debug)]
pub struct Resource {
    pub id: Identity,
    pub kind: String,
    pub domain: String,
    pub location: Location,
    pub attributes: TextMap<String>,
    pub evidence: Vec<Evidence>,
}

pub struct ResourceView {
    pub id: Seq<char>,
    pub kind: Seq<char>,
    pub domain: Seq<char>,
    pub file: Seq<char>,
    pub line: Option<int>,
    pub attributes: Seq<(Seq<char>, Seq<char>)>,
    pub evidence: Seq<EvidenceView>,
}

impl DeepView for Resource {
    type V = ResourceView;

    open spec fn deep_view(&self) -> ResourceView {
        ResourceView {
            id: self.id.0@,
            kind: self.kind@,
            domain: self.domain@,
            file: self.location.file@,
            line: match self.location.line {
                Some(n) => Some(n as int),
                None => None,
            },
            attributes: self.attributes.deep_view(),
            evidence: self.evidence.deep_view(),
        }
    }
}

/// A resource with one piece of evidence.
pub fn resource(
    id: String,
    kind: &str,
    domain: &str,
    file: String,
    attributes: TextMap<String>,
    tier: Tier,
    what: String,
) -> (r: Resource)
    ensures
        r.deep_view() == (ResourceView {
            id: id@,
            kind: kind@,
            domain: domain@,
            file: file@,
            line: None,
            attributes: attributes.deep_view(),
            evidence: seq![EvidenceView { tier, what: what@ }],
        }),
{
    let mut evidence: Vec<Evidence> = Vec::new();
    let ghost e = EvidenceView { tier, what: what@ };
    evidence.push(Evidence { tier, what });
    assert(evidence.deep_view() =~= seq![e]);
    Resource {
        id: Identity(id),
        kind: owned(kind),
        domain: owned(domain),
        location: Location { file, line: None },
        attributes,
        evidence,
    }
}

/// A link between two resources, with the evidence for it.
#[derive(Debug)]
pub struct Relationship {
    pub from: Identity,
    pub kind: String,
    pub to: Identity,
    pub evidence: Evidence,
}

pub struct RelationshipView {
    pub from: Seq<char>,
    pub kind: Seq<char>,
    pub to: Seq<char>,
    pub evidence: EvidenceView,
}

impl DeepView for Relationship {
    type V = RelationshipView;

    open spec fn deep_view(&self) -> RelationshipView {
        RelationshipView {
            from: self.from.0@,
            kind: self.kind@,
            to: self.to.0@,
            evidence: self.evidence.deep_view(),
        }
    }
}

impl Relationship {
    pub fn copy(&self) -> (r: Relationship)
        ensures
            r.deep_view() == self.deep_view(),
    {
        Relationship {
            from: Identity(owned(self.from.0.as_str())),
            kind: owned(self.kind.as_str()),
            to: Identity(owned(self.to.0.as_str())),
            evidence: Evidence {
                tier: self.evidence.tier,
                what: owned(self.evidence.what.as_str()),
            },
        }
    }
}

} // verus!
