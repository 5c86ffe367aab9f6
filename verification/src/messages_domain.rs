//! Message stores at well-known places under a home directory: whether they
//! exist, and the metadata of the file or directory itself.
use vstd::prelude::*;
use crate::listing::time_view;
use crate::model::{EvidenceView, Tier};
use crate::paths::{below, path_below};
use crate::permissions::{
    attribute_allowed, domain_allowed_with_confirmation, is_attribute_allowed, is_outcome, str_view,
    Confirmed, ConfirmationAsker, PermissionConfig, PermissionConfigView,
};
use crate::resource::{resource, Resource, ResourceView};
use crate::table::{lookup, put, without, TextMap};
use crate::text::{decimal, decimal_int};
use crate::text::{number, owned, signed_number};

verus! {

#[derive(Clone, Copy, Debug, PartialEq, Eq, Structural)]
pub enum StoreShape {
    /// A single file: its size and time are reported.
    File,
    /// A directory: only its own time is reported.
    Directory,
}

/// Where an application keeps its messages, relative to the home directory.
#[derive(Debug)]
pub struct MessageStoreSpec {
    pub app: &'static str,
    pub relative_path: &'static str,
    pub shape: StoreShape,
}

pub struct StoreSpecView {
    pub app: Seq<char>,
    pub relative_path: Seq<char>,
    pub shape: StoreShape,
}

impl DeepView for MessageStoreSpec {
    type V = StoreSpecView;

    open spec fn deep_view(&self) -> StoreSpecView {
        StoreSpecView {
            app: self.app@,
            relative_path: self.relative_path@,
            shape: self.shape,
        }
    }
}

/// The metadata of a store that exists.
#[derive(Debug)]
pub struct StoreMeta {
    pub size: u64,
    pub modified_ms: Option<i64>,
}

pub struct StoreMetaView {
    pub size: nat,
    pub modified_ms: Option<int>,
}

impl DeepView for StoreMeta {
    type V = StoreMetaView;

    open spec fn deep_view(&self) -> StoreMetaView {
        StoreMetaView { size: self.size as nat, modified_ms: time_view(self.modified_ms) }
    }
}

pub open spec fn store_at(app: Seq<char>, relative_path: Seq<char>, shape: StoreShape) -> StoreSpecView {
    StoreSpecView { app, relative_path, shape }
}

/// The places that are looked at.
pub open spec fn known_stores() -> Seq<StoreSpecView> {
    seq![
        store_at("iMessage/SMS"@, "Library/Messages/chat.db"@, StoreShape::File),
        store_at("Signal"@, "Library/Application Support/Signal"@, StoreShape::Directory),
        store_at("WhatsApp"@, "Library/Application Support/WhatsApp"@, StoreShape::Directory),
        store_at("Slack"@, "Library/Application Support/Slack"@, StoreShape::Directory),
        store_at("Discord"@, "Library/Application Support/discord"@, StoreShape::Directory),
        store_at("Signal"@, ".config/Signal"@, StoreShape::Directory),
        store_at("Slack"@, ".config/Slack"@, StoreShape::Directory),
        store_at("Discord"@, ".config/discord"@, StoreShape::Directory),
    ]
}

pub open spec fn store_attributes(s: StoreSpecView, m: StoreMetaView) -> Seq<(Seq<char>, Seq<char>)> {
    let a = put(seq![], "app"@, s.app);
    let a = if s.shape == StoreShape::File {
        put(a, "size_bytes"@, decimal(m.size))
    } else {
        a
    };
    match m.modified_ms {
        Some(t) => put(a, "modified_unix_ms"@, decimal_int(t)),
        None => a,
    }
}

pub open spec fn store_fact(s: StoreSpecView, path: Seq<char>, m: StoreMetaView) -> Seq<char> {
    match s.shape {
        StoreShape::File => "'"@ + s.app + "' local message store found at '"@ + path + "' ("@
            + decimal(m.size)
            + " bytes) — existence and size/mtime only, never opened or queried"@,
        StoreShape::Directory => "'"@ + s.app + "' local data directory found at '"@ + path
            + "' — existence and the directory's own mtime only, contents never listed"@,
    }
}

pub open spec fn store_resource(home: Seq<char>, s: StoreSpecView, m: StoreMetaView) -> ResourceView {
    let path = below(home, s.relative_path);
    ResourceView {
        id: s.app + ":"@ + path,
        kind: "message_store"@,
        domain: "messages"@,
        file: path,
        line: None,
        attributes: store_attributes(s, m),
        evidence: seq![EvidenceView { tier: Tier::Derived, what: store_fact(s, path, m) }],
    }
}

pub open spec fn each_store(home: Seq<char>, metas: Seq<(Seq<char>, StoreMetaView)>) -> spec_fn(
    StoreSpecView,
) -> Option<ResourceView> {
    |s: StoreSpecView|
        match lookup(metas, s.relative_path) {
            Some(m) => Some(store_resource(home, s, m)),
            None => None,
        }
}

/// The stores that exist. `metas` holds the metadata of those that do, by their
/// relative path.
pub open spec fn stores(home: Seq<char>, metas: Seq<(Seq<char>, StoreMetaView)>) -> Seq<ResourceView> {
    known_stores().filter_map(each_store(home, metas))
}

pub open spec fn each_permitted(cfg: PermissionConfigView) -> spec_fn(ResourceView) -> ResourceView {
    |r: ResourceView|
        {
            let a = if is_attribute_allowed(cfg, "messages"@, "filename"@) {
                r.attributes
            } else {
                without(r.attributes, "app"@)
            };
            let a = if is_attribute_allowed(cfg, "messages"@, "metadata"@) {
                a
            } else {
                without(without(a, "size_bytes"@), "modified_unix_ms"@)
            };
            ResourceView { attributes: a, ..r }
        }
}

pub open spec fn permitted_stores(
    cfg: PermissionConfigView,
    home: Seq<char>,
    metas: Seq<(Seq<char>, StoreMetaView)>,
) -> Seq<ResourceView> {
    stores(home, metas).map_values(each_permitted(cfg))
}

fn spec_of(app: &'static str, relative_path: &'static str, shape: StoreShape) -> (r: MessageStoreSpec)
    ensures
        r.deep_view() == store_at(app@, relative_path@, shape),
{
    MessageStoreSpec { app, relative_path, shape }
}

/// The places that are looked at.
pub fn store_list() -> (r: Vec<MessageStoreSpec>)
    ensures
        r.deep_view() == known_stores(),
{
    let mut v: Vec<MessageStoreSpec> = Vec::new();
    v.push(spec_of("iMessage/SMS", "Library/Messages/chat.db", StoreShape::File));
    v.push(spec_of("Signal", "Library/Application Support/Signal", StoreShape::Directory));
    v.push(spec_of("WhatsApp", "Library/Application Support/WhatsApp", StoreShape::Directory));
    v.push(spec_of("Slack", "Library/Application Support/Slack", StoreShape::Directory));
    v.push(spec_of("Discord", "Library/Application Support/discord", StoreShape::Directory));
    v.push(spec_of("Signal", ".config/Signal", StoreShape::Directory));
    v.push(spec_of("Slack", ".config/Slack", StoreShape::Directory));
    v.push(spec_of("Discord", ".config/discord", StoreShape::Directory));
    assert(v.deep_view() =~= known_stores());
    v
}

fn store_resource_of(home: &str, s: &MessageStoreSpec, m: &StoreMeta) -> (r: Resource)
    ensures
        r.deep_view() == store_resource(home@, s.deep_view(), m.deep_view()),
{
    let path = path_below(home, s.relative_path);
    let mut id = owned(s.app);
    id.append(":");
    id.append(path.as_str());
    let none: TextMap<String> = TextMap::new();
    let mut a = none.with(owned("app"), owned(s.app));
    let mut what = owned("'");
    what.append(s.app);
    match s.shape {
        StoreShape::File => {
            a = a.with(owned("size_bytes"), number(m.size));
            what.append("' local message store found at '");
            what.append(path.as_str());
            what.append("' (");
            what.append(number(m.size).as_str());
            what.append(" bytes) — existence and size/mtime only, never opened or queried");
        },
        StoreShape::Directory => {
            what.append("' local data directory found at '");
            what.append(path.as_str());
            what.append(
                "' — existence and the directory's own mtime only, contents never listed",
            );
        },
    }
    if let Some(t) = m.modified_ms {
        a = a.with(owned("modified_unix_ms"), signed_number(t));
    }
    resource(id, "message_store", "messages", path, a, Tier::Derived, what)
}

/// The stores that exist, without asking for permission.
pub fn scan(home: &str, metas: &TextMap<StoreMeta>) -> (r: Vec<Resource>)
    ensures
        r.deep_view() == stores(home@, metas.deep_view()),
{
    let specs = store_list();
    let ghost all = specs.deep_view();
    let ghost f = each_store(home@, metas.deep_view());
    let mut out: Vec<Resource> = Vec::new();
    let mut i: usize = 0;
    proof {
        assert(all.take(0) =~= seq![]);
        reveal(Seq::filter_map);
    }
    while i < specs.len()
        invariant
            i <= specs.len(),
            all == specs.deep_view(),
            f == each_store(home@, metas.deep_view()),
            out.deep_view() =~= all.take(i as int).filter_map(f),
        decreases specs.len() - i,
    {
        let ghost so_far = out.deep_view();
        proof {
            all.lemma_filter_map_take_succ(f, i as int);
        }
        assert(all[i as int] == specs[i as int].deep_view());
        if let Some(m) = metas.get(specs[i].relative_path) {
            let r = store_resource_of(home, &specs[i], m);
            let ghost x = r.deep_view();
            out.push(r);
            assert(out.deep_view() =~= so_far + seq![x]);
        }
        i += 1;
    }
    assert(all.take(i as int) =~= all);
    out
}

/// The stores that exist with the attributes that may be shown.
pub fn permitted(cfg: &PermissionConfig, home: &str, metas: &TextMap<StoreMeta>) -> (r: Vec<Resource>)
    ensures
        r.deep_view() == permitted_stores(cfg.deep_view(), home@, metas.deep_view()),
{
    let name_allowed = attribute_allowed(cfg, "messages", "filename");
    let metadata_allowed = attribute_allowed(cfg, "messages", "metadata");
    let mut rest = scan(home, metas);
    let ghost rv = rest.deep_view();
    let ghost all = rv.map_values(each_permitted(cfg.deep_view()));
    let mut out: Vec<Resource> = Vec::new();
    while rest.len() > 0
        invariant
            all == rv.map_values(each_permitted(cfg.deep_view())),
            name_allowed == is_attribute_allowed(cfg.deep_view(), "messages"@, "filename"@),
            metadata_allowed == is_attribute_allowed(cfg.deep_view(), "messages"@, "metadata"@),
            out.len() + rest.len() == rv.len(),
            rest.deep_view() =~= rv.skip(out.len() as int),
            out.deep_view() =~= all.take(out.len() as int),
        decreases rest.len(),
    {
        let ghost n = out.len() as int;
        let ghost so_far = out.deep_view();
        let ghost old_rest = rest.deep_view();
        let r = rest.remove(0);
        assert(r.deep_view() == old_rest[0]);
        assert(old_rest[0] == rv[n]);
        assert(rest.deep_view() =~= rv.skip(n + 1)) by {
            assert forall|j: int| 0 <= j < rest@.len() implies rest.deep_view()[j] == rv.skip(n + 1)[j] by {
                assert(rest.deep_view()[j] == old_rest[j + 1]);
            }
        }
        let mut m = r.attributes;
        if !name_allowed {
            m = m.dropping("app");
        }
        if !metadata_allowed {
            m = m.dropping("size_bytes").dropping("modified_unix_ms");
        }
        let shown = Resource {
            id: r.id,
            kind: r.kind,
            domain: r.domain,
            location: r.location,
            attributes: m,
            evidence: r.evidence,
        };
        assert(shown.deep_view() == all[n]);
        out.push(shown);
        assert(out.deep_view() =~= so_far.push(all[n]));
    }
    assert(all.take(out.len() as int) =~= all);
    out
}

/// Asks whether message stores may be looked for, and looks if they may.
pub fn scan_if_allowed<A: ConfirmationAsker>(
    cfg: &PermissionConfig,
    confirmations: Option<&str>,
    home: &str,
    metas: &TextMap<StoreMeta>,
    asker: &A,
) -> (r: (Confirmed, Vec<Resource>))
    ensures
        is_outcome(cfg.deep_view(), str_view(confirmations), "messages"@, asker, r.0),
        r.1.deep_view() == (if r.0.allowed {
            permitted_stores(cfg.deep_view(), home@, metas.deep_view())
        } else {
            seq![]
        }),
{
    let gate = domain_allowed_with_confirmation(cfg, confirmations, "messages", asker);
    if !gate.allowed {
        let none: Vec<Resource> = Vec::new();
        assert(none.deep_view() =~= seq![]);
        return (gate, none);
    }
    (gate, permitted(cfg, home, metas))
}

/// A store that is a directory never reports a size: nothing in it was
/// measured.
pub proof fn law_directories_have_no_size(home: Seq<char>, s: StoreSpecView, m: StoreMetaView)
    requires
        s.shape == StoreShape::Directory,
    ensures
        !crate::table::has_key(store_resource(home, s, m).attributes, "size_bytes"@),
{
    reveal_strlit("app");
    reveal_strlit("size_bytes");
    reveal_strlit("modified_unix_ms");
    assert("app"@.len() != "size_bytes"@.len());
    assert("modified_unix_ms"@.len() != "size_bytes"@.len());
    let none: Seq<(Seq<char>, Seq<char>)> = seq![];
    crate::table::lemma_put(none, "app"@, s.app);
    let a = put(none, "app"@, s.app);
    if let Some(t) = m.modified_ms {
        crate::table::lemma_put(a, "modified_unix_ms"@, decimal_int(t));
    }
}

} // verus!
