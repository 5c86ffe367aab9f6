//! Files of one kind in one directory: names and metadata, never contents.
use vstd::prelude::*;
use crate::model::{EvidenceView, Tier};
use crate::paths::{below, display_name, extension};
use crate::paths::{display_name_of, extension_of, path_below};
use crate::permissions::{attribute_allowed, is_attribute_allowed, PermissionConfig, PermissionConfigView};
use crate::resource::{resource, Resource, ResourceView};
use crate::table::{put, without, TextMap};
use crate::text::{decimal, decimal_int, lowered};
use crate::text::{listed, lowercase, number, owned, signed_number};

verus! {

/// A file as a directory listing shows it.
#[derive(Debug)]
pub struct ListedFile {
    pub name: String,
    pub size: u64,
    pub modified_ms: Option<i64>,
}

pub struct ListedFileView {
    pub name: Seq<char>,
    pub size: nat,
    pub modified_ms: Option<int>,
}

pub open spec fn time_view(t: Option<i64>) -> Option<int> {
    match t {
        Some(m) => Some(m as int),
        None => None,
    }
}

impl DeepView for ListedFile {
    type V = ListedFileView;

    open spec fn deep_view(&self) -> ListedFileView {
        ListedFileView {
            name: self.name@,
            size: self.size as nat,
            modified_ms: time_view(self.modified_ms),
        }
    }
}

pub open spec fn file_attributes(f: ListedFileView, ext: Seq<char>) -> Seq<(Seq<char>, Seq<char>)> {
    let m = put(
        put(put(seq![], "filename"@, f.name), "extension"@, ext),
        "size_bytes"@,
        decimal(f.size),
    );
    match f.modified_ms {
        Some(t) => put(m, "modified_unix_ms"@, decimal_int(t)),
        None => m,
    }
}

pub open spec fn file_resource(
    dir: Seq<char>,
    kind: Seq<char>,
    domain: Seq<char>,
    f: ListedFileView,
    ext: Seq<char>,
) -> ResourceView {
    ResourceView {
        id: display_name(dir) + ":"@ + f.name,
        kind,
        domain,
        file: below(dir, f.name),
        line: None,
        attributes: file_attributes(f, ext),
        evidence: seq![
            EvidenceView {
                tier: Tier::Derived,
                what: "file '"@ + f.name + "' (."@ + ext + ", "@ + decimal(f.size)
                    + " bytes) found via directory listing of '"@ + dir
                    + "' — filename and metadata only, content never read"@,
            },
        ],
    }
}

/// A listed file's resource, where its extension is one of those looked for.
pub open spec fn listed_resource(
    dir: Seq<char>,
    kind: Seq<char>,
    domain: Seq<char>,
    wanted: Seq<Seq<char>>,
    f: ListedFileView,
) -> Option<ResourceView> {
    match extension(f.name) {
        Some(e) => if wanted.contains(lowered(e)) {
            Some(file_resource(dir, kind, domain, f, lowered(e)))
        } else {
            None
        },
        None => None,
    }
}

pub open spec fn each_listed(
    dir: Seq<char>,
    kind: Seq<char>,
    domain: Seq<char>,
    wanted: Seq<Seq<char>>,
) -> spec_fn(ListedFileView) -> Option<ResourceView> {
    |f: ListedFileView| listed_resource(dir, kind, domain, wanted, f)
}

/// The attributes that may be shown.
pub open spec fn shown_attributes(
    m: Seq<(Seq<char>, Seq<char>)>,
    name_allowed: bool,
    metadata_allowed: bool,
) -> Seq<(Seq<char>, Seq<char>)> {
    let m = if name_allowed {
        m
    } else {
        without(m, "filename"@)
    };
    if metadata_allowed {
        m
    } else {
        without(without(without(m, "extension"@), "size_bytes"@), "modified_unix_ms"@)
    }
}

pub open spec fn each_shown(cfg: PermissionConfigView, domain: Seq<char>) -> spec_fn(
    ResourceView,
) -> ResourceView {
    |r: ResourceView|
        ResourceView {
            attributes: shown_attributes(
                r.attributes,
                is_attribute_allowed(cfg, domain, "filename"@),
                is_attribute_allowed(cfg, domain, "metadata"@),
            ),
            ..r
        }
}

fn file_resource_of(dir: &str, kind: &str, domain: &str, f: &ListedFile, ext: &str) -> (r: Resource)
    ensures
        r.deep_view() == file_resource(dir@, kind@, domain@, f.deep_view(), ext@),
{
    let mut id = display_name_of(dir);
    id.append(":");
    id.append(f.name.as_str());
    let none: TextMap<String> = TextMap::new();
    let mut m = none.with(owned("filename"), owned(f.name.as_str())).with(
        owned("extension"),
        owned(ext),
    ).with(owned("size_bytes"), number(f.size));
    if let Some(t) = f.modified_ms {
        m = m.with(owned("modified_unix_ms"), signed_number(t));
    }
    let mut what = owned("file '");
    what.append(f.name.as_str());
    what.append("' (.");
    what.append(ext);
    what.append(", ");
    what.append(number(f.size).as_str());
    what.append(" bytes) found via directory listing of '");
    what.append(dir);
    what.append("' — filename and metadata only, content never read");
    resource(id, kind, domain, path_below(dir, f.name.as_str()), m, Tier::Derived, what)
}

/// The resources of the listed files whose extension is one of `wanted`.
pub fn listed_resources(
    dir: &str,
    kind: &str,
    domain: &str,
    wanted: &Vec<String>,
    files: &Vec<ListedFile>,
) -> (r: Vec<Resource>)
    ensures
        r.deep_view() == files.deep_view().filter_map(
            each_listed(dir@, kind@, domain@, wanted.deep_view()),
        ),
{
    let ghost all = files.deep_view();
    let ghost f = each_listed(dir@, kind@, domain@, wanted.deep_view());
    let mut out: Vec<Resource> = Vec::new();
    let mut i: usize = 0;
    proof {
        assert(all.take(0) =~= seq![]);
        reveal(Seq::filter_map);
    }
    while i < files.len()
        invariant
            i <= files.len(),
            all == files.deep_view(),
            f == each_listed(dir@, kind@, domain@, wanted.deep_view()),
            out.deep_view() =~= all.take(i as int).filter_map(f),
        decreases files.len() - i,
    {
        let ghost so_far = out.deep_view();
        proof {
            all.lemma_filter_map_take_succ(f, i as int);
        }
        assert(all[i as int] == files[i as int].deep_view());
        if let Some(e) = extension_of(files[i].name.as_str()) {
            let ext = lowercase(e.as_str());
            if listed(wanted, ext.as_str()) {
                let r = file_resource_of(dir, kind, domain, &files[i], ext.as_str());
                let ghost x = r.deep_view();
                out.push(r);
                assert(out.deep_view() =~= so_far + seq![x]);
            }
        }
        i += 1;
    }
    assert(all.take(i as int) =~= all);
    out
}

/// Resources with only those attributes that may be shown.
pub fn show_allowed(cfg: &PermissionConfig, domain: &str, resources: Vec<Resource>) -> (r: Vec<
    Resource,
>)
    ensures
        r.deep_view() == resources.deep_view().map_values(each_shown(cfg.deep_view(), domain@)),
{
    let name_allowed = attribute_allowed(cfg, domain, "filename");
    let metadata_allowed = attribute_allowed(cfg, domain, "metadata");
    let ghost rv = resources.deep_view();
    let ghost all = rv.map_values(each_shown(cfg.deep_view(), domain@));
    let mut rest = resources;
    let mut out: Vec<Resource> = Vec::new();
    while rest.len() > 0
        invariant
            rv == resources.deep_view(),
            all == rv.map_values(each_shown(cfg.deep_view(), domain@)),
            name_allowed == is_attribute_allowed(cfg.deep_view(), domain@, "filename"@),
            metadata_allowed == is_attribute_allowed(cfg.deep_view(), domain@, "metadata"@),
            out.len() + rest.len() == rv.len(),
            rest.deep_view() =~= rv.skip(out.len() as int),
            out.deep_view() =~= all.take(out.len() as int),
        decreases rest.len(),
    {
        let ghost n = out.len() as int;
        let ghost so_far = out.deep_view();
        let ghost old_rest = rest.deep_view();
        let r = rest.remove(0);
        assert(r.deep_view() == old_rest[0]);
        assert(old_rest[0] == rv[n]);
        assert(rest.deep_view() =~= rv.skip(n + 1)) by {
            assert forall|j: int| 0 <= j < rest@.len() implies rest.deep_view()[j] == rv.skip(n + 1)[j] by {
                assert(rest.deep_view()[j] == old_rest[j + 1]);
            }
        }
        let mut m = r.attributes;
        if !name_allowed {
            m = m.dropping("filename");
        }
        if !metadata_allowed {
            m = m.dropping("extension").dropping("size_bytes").dropping("modified_unix_ms");
        }
        let shown = Resource {
            id: r.id,
            kind: r.kind,
            domain: r.domain,
            location: r.location,
            attributes: m,
            evidence: r.evidence,
        };
        assert(shown.deep_view() == all[n]);
        out.push(shown);
        assert(out.deep_view() =~= so_far.push(all[n]));
    }
    assert(all.take(out.len() as int) =~= all);
    out
}

/// What a listing says is derived from metadata, whatever the files hold.
pub proof fn law_listings_are_derived(
    dir: Seq<char>,
    kind: Seq<char>,
    domain: Seq<char>,
    wanted: Seq<Seq<char>>,
    f: ListedFileView,
)
    ensures
        listed_resource(dir, kind, domain, wanted, f) matches Some(r) ==> {
            &&& r.evidence.len() == 1
            &&& r.evidence[0].tier == Tier::Derived
            &&& r.domain == domain
        },
{
}

} // verus!
