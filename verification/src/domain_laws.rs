//! What the domains beside the code report: files and stores by their metadata,
//! repositories, images and services.
use vstd::prelude::*;
use crate::answer_laws::lemma_filtered_from;
use crate::docker_domain::{
    compose_names, compose_resources, docker_resources, dockerfile_resources, each_image,
    empty_scan, image_in, image_resources, images, indent, is_dockerfile, is_passed_over,
    lemma_service_block, observed_resource, observed_resources, opens_services, reference_from,
    service_attributes, service_block, service_line, service_name, service_resource, services,
    services_from, services_line, state_line, states, unquoted, ComposeServiceView, ServiceScan,
};
use crate::documents_domain::{document_extensions, documents, permitted_documents};
use crate::git_domain::{
    git_resources, remote_line, remote_resource, remote_scan, remotes_in, GitFilesView, RemoteScan,
};
use crate::listing::{
    each_listed, file_attributes, listed_resource, shown_attributes, ListedFileView,
};
use crate::messages_domain::{
    each_store, known_stores, permitted_stores, store_attributes, stores, StoreMetaView, StoreShape,
    StoreSpecView,
};
use crate::model::Tier;
use crate::outside::json_tree;
use crate::paths::{below, display_name, extension};
use crate::permissions::{is_attribute_allowed, PermissionConfigView};
use crate::photos_domain::{permitted_photos, photo_extensions, photos};
use crate::query::lemma_kept_by_filter_map;
use crate::scan_laws::lemma_without_lookup;
use crate::table::{has_key, lemma_put, lookup, ordered, put, without};
use crate::text::{
    decimal, decimal_int, ends_with, join, lemma_trim, lemma_trim_stays, lines, lowered, split_once,
    starts_with, strip_prefix, strip_suffix, trim, trim_end, trim_start, words,
};
use crate::tree::{field, TreeView};

verus! {

// ---------------------------------------------------------------------------
// Listed files
// ---------------------------------------------------------------------------

proof fn lemma_empty_table()
    ensures
        ordered(Seq::<(Seq<char>, Seq<char>)>::empty()),
        forall|k: Seq<char>|
            #[trigger] lookup(Seq::<(Seq<char>, Seq<char>)>::empty(), k) is None,
{
}

proof fn lemma_metadata_keys()
    ensures
        "app"@.len() == 3,
        "filename"@.len() == 8,
        "extension"@.len() == 9,
        "size_bytes"@.len() == 10,
        "modified_unix_ms"@.len() == 16,
{
    reveal_strlit("app");
    reveal_strlit("filename");
    reveal_strlit("extension");
    reveal_strlit("size_bytes");
    reveal_strlit("modified_unix_ms");
}

proof fn lemma_file_attributes(f: ListedFileView, ext: Seq<char>)
    ensures
        ({
            let a = file_attributes(f, ext);
            &&& ordered(a)
            &&& lookup(a, "filename"@) == Some(f.name)
            &&& lookup(a, "extension"@) == Some(ext)
            &&& lookup(a, "size_bytes"@) == Some(decimal(f.size))
            &&& f.modified_ms is None ==> lookup(a, "modified_unix_ms"@) is None
            &&& f.modified_ms matches Some(t) ==> lookup(a, "modified_unix_ms"@) == Some(
                decimal_int(t),
            )
        }),
{
    lemma_metadata_keys();
    lemma_empty_table();
    let none: Seq<(Seq<char>, Seq<char>)> = seq![];
    assert(none =~= Seq::empty());
    lemma_put(none, "filename"@, f.name);
    let a = put(none, "filename"@, f.name);
    lemma_put(a, "extension"@, ext);
    let b = put(a, "extension"@, ext);
    lemma_put(b, "size_bytes"@, decimal(f.size));
    let c = put(b, "size_bytes"@, decimal(f.size));
    if let Some(t) = f.modified_ms {
        lemma_put(c, "modified_unix_ms"@, decimal_int(t));
    }
}

/// A file is listed where its extension, in small letters, is one of those that
/// are looked for; it is listed under its own name with the metadata that the
/// listing gave.
pub proof fn law_listed_by_extension(
    dir: Seq<char>,
    kind: Seq<char>,
    domain: Seq<char>,
    wanted: Seq<Seq<char>>,
    f: ListedFileView,
)
    ensures
        listed_resource(dir, kind, domain, wanted, f) is Some <==> (extension(f.name) matches Some(e)
            && wanted.contains(lowered(e))),
        listed_resource(dir, kind, domain, wanted, f) matches Some(r) ==> {
            &&& r.kind == kind
            &&& r.domain == domain
            &&& r.file == below(dir, f.name)
            &&& r.line is None
            &&& r.id == display_name(dir) + ":"@ + f.name
            &&& lookup(r.attributes, "filename"@) == Some(f.name)
            &&& lookup(r.attributes, "extension"@) == Some(lowered(extension(f.name)->0))
            &&& lookup(r.attributes, "size_bytes"@) == Some(decimal(f.size))
            &&& f.modified_ms is None ==> lookup(r.attributes, "modified_unix_ms"@) is None
            &&& f.modified_ms matches Some(t) ==> lookup(r.attributes, "modified_unix_ms"@) == Some(
                decimal_int(t),
            )
        },
{
    if let Some(e) = extension(f.name) {
        lemma_file_attributes(f, lowered(e));
    }
}

/// What may not be shown is left out, and what may be shown stays as it was.
pub proof fn law_hidden_attributes_are_left_out(
    m: Seq<(Seq<char>, Seq<char>)>,
    name_allowed: bool,
    metadata_allowed: bool,
    k: Seq<char>,
)
    requires
        ordered(m),
    ensures
        lookup(shown_attributes(m, name_allowed, metadata_allowed), k) == (if k == "filename"@ {
            if name_allowed {
                lookup(m, k)
            } else {
                None
            }
        } else if k == "extension"@ || k == "size_bytes"@ || k == "modified_unix_ms"@ {
            if metadata_allowed {
                lookup(m, k)
            } else {
                None
            }
        } else {
            lookup(m, k)
        }),
{
    lemma_metadata_keys();
    lemma_without_lookup(m, "filename"@);
    let n = if name_allowed {
        m
    } else {
        without(m, "filename"@)
    };
    lemma_without_lookup(n, "extension"@);
    let a = without(n, "extension"@);
    lemma_without_lookup(a, "size_bytes"@);
    let b = without(a, "size_bytes"@);
    lemma_without_lookup(b, "modified_unix_ms"@);
}

/// Documents are what is written for reading: every file of such a format is
/// reported, and nothing else is.
pub proof fn law_documents_by_format(dir: Seq<char>, files: Seq<ListedFileView>, i: int)
    requires
        0 <= i < files.len(),
        extension(files[i].name) is Some,
    ensures
        ({
            let e = lowered(extension(files[i].name)->0);
            let listed = e == "pdf"@ || e == "docx"@ || e == "txt"@ || e == "md"@ || e == "odt"@;
            &&& listed ==> exists|p: int|
                0 <= p < documents(dir, files).len() && (#[trigger] documents(dir, files)[p]).file
                    == below(dir, files[i].name) && documents(dir, files)[p].kind == "document"@
                    && documents(dir, files)[p].domain == "documents"@
            &&& !listed ==> listed_resource(
                dir,
                "document"@,
                "documents"@,
                document_extensions(),
                files[i],
            ) is None
        }),
{
    let all = document_extensions();
    assert(all[0] == "pdf"@ && all[1] == "docx"@ && all[2] == "txt"@ && all[3] == "md"@ && all[4]
        == "odt"@);
    let f = each_listed(dir, "document"@, "documents"@, all);
    if all.contains(lowered(extension(files[i].name)->0)) {
        lemma_kept_by_filter_map(files, f, i);
        let p = choose|p: int|
            0 <= p < files.filter_map(f).len() && files.filter_map(f)[p] == f(files[i])->Some_0;
        assert(documents(dir, files)[p].file == below(dir, files[i].name));
    }
}

/// Photos likewise.
pub proof fn law_photos_by_format(dir: Seq<char>, files: Seq<ListedFileView>, i: int)
    requires
        0 <= i < files.len(),
        extension(files[i].name) is Some,
    ensures
        ({
            let e = lowered(extension(files[i].name)->0);
            let listed = e == "jpg"@ || e == "jpeg"@ || e == "png"@ || e == "gif"@ || e == "heic"@
                || e == "webp"@;
            &&& listed ==> exists|p: int|
                0 <= p < photos(dir, files).len() && (#[trigger] photos(dir, files)[p]).file
                    == below(dir, files[i].name) && photos(dir, files)[p].kind == "photo"@ && photos(
                    dir,
                    files,
                )[p].domain == "photos"@
            &&& !listed ==> listed_resource(dir, "photo"@, "photos"@, photo_extensions(), files[i])
                is None
        }),
{
    let all = photo_extensions();
    assert(all[0] == "jpg"@ && all[1] == "jpeg"@ && all[2] == "png"@ && all[3] == "gif"@ && all[4]
        == "heic"@ && all[5] == "webp"@);
    let f = each_listed(dir, "photo"@, "photos"@, all);
    if all.contains(lowered(extension(files[i].name)->0)) {
        lemma_kept_by_filter_map(files, f, i);
        let p = choose|p: int|
            0 <= p < files.filter_map(f).len() && files.filter_map(f)[p] == f(files[i])->Some_0;
        assert(photos(dir, files)[p].file == below(dir, files[i].name));
    }
}

/// What is shown of documents and photos is what is permitted of their own
/// domain: the same files, without the attributes that may not be read.
pub proof fn law_only_permitted_attributes_are_shown(
    cfg: PermissionConfigView,
    dir: Seq<char>,
    files: Seq<ListedFileView>,
    p: int,
)
    ensures
        permitted_documents(cfg, dir, files).len() == documents(dir, files).len(),
        permitted_photos(cfg, dir, files).len() == photos(dir, files).len(),
        0 <= p < documents(dir, files).len() ==> {
            let r = permitted_documents(cfg, dir, files)[p];
            let all = documents(dir, files)[p];
            &&& r.id == all.id && r.file == all.file && r.evidence == all.evidence
            &&& lookup(r.attributes, "filename"@) is Some <==> is_attribute_allowed(
                cfg,
                "documents"@,
                "filename"@,
            )
            &&& lookup(r.attributes, "size_bytes"@) is Some <==> is_attribute_allowed(
                cfg,
                "documents"@,
                "metadata"@,
            )
        },
        0 <= p < photos(dir, files).len() ==> {
            let r = permitted_photos(cfg, dir, files)[p];
            let all = photos(dir, files)[p];
            &&& r.id == all.id && r.file == all.file && r.evidence == all.evidence
            &&& lookup(r.attributes, "filename"@) is Some <==> is_attribute_allowed(
                cfg,
                "photos"@,
                "filename"@,
            )
            &&& lookup(r.attributes, "size_bytes"@) is Some <==> is_attribute_allowed(
                cfg,
                "photos"@,
                "metadata"@,
            )
        },
{
    lemma_metadata_keys();
    if 0 <= p < documents(dir, files).len() {
        let f = each_listed(dir, "document"@, "documents"@, document_extensions());
        let i = lemma_filtered_from(files, f, p);
        lemma_file_attributes(files[i], lowered(extension(files[i].name)->0));
        let m = documents(dir, files)[p].attributes;
        let a = is_attribute_allowed(cfg, "documents"@, "filename"@);
        let b = is_attribute_allowed(cfg, "documents"@, "metadata"@);
        law_hidden_attributes_are_left_out(m, a, b, "filename"@);
        law_hidden_attributes_are_left_out(m, a, b, "size_bytes"@);
    }
    if 0 <= p < photos(dir, files).len() {
        let f = each_listed(dir, "photo"@, "photos"@, photo_extensions());
        let i = lemma_filtered_from(files, f, p);
        lemma_file_attributes(files[i], lowered(extension(files[i].name)->0));
        let m = photos(dir, files)[p].attributes;
        let a = is_attribute_allowed(cfg, "photos"@, "filename"@);
        let b = is_attribute_allowed(cfg, "photos"@, "metadata"@);
        law_hidden_attributes_are_left_out(m, a, b, "filename"@);
        law_hidden_attributes_are_left_out(m, a, b, "size_bytes"@);
    }
}

// ---------------------------------------------------------------------------
// Message stores
// ---------------------------------------------------------------------------

proof fn lemma_store_attributes(s: StoreSpecView, m: StoreMetaView)
    ensures
        ({
            let a = store_attributes(s, m);
            &&& ordered(a)
            &&& lookup(a, "app"@) == Some(s.app)
            &&& s.shape == StoreShape::File ==> lookup(a, "size_bytes"@) == Some(decimal(m.size))
            &&& s.shape == StoreShape::Directory ==> lookup(a, "size_bytes"@) is None
            &&& m.modified_ms is None ==> lookup(a, "modified_unix_ms"@) is None
            &&& m.modified_ms matches Some(t) ==> lookup(a, "modified_unix_ms"@) == Some(
                decimal_int(t),
            )
        }),
{
    lemma_metadata_keys();
    lemma_empty_table();
    let none: Seq<(Seq<char>, Seq<char>)> = seq![];
    assert(none =~= Seq::empty());
    lemma_put(none, "app"@, s.app);
    let a = put(none, "app"@, s.app);
    lemma_put(a, "size_bytes"@, decimal(m.size));
    let b = if s.shape == StoreShape::File {
        put(a, "size_bytes"@, decimal(m.size))
    } else {
        a
    };
    if let Some(t) = m.modified_ms {
        lemma_put(b, "modified_unix_ms"@, decimal_int(t));
    }
}

/// A store that exists where an application keeps its messages is reported, with
/// the application's name and the metadata; a place with nothing at it is not.
pub proof fn law_stores_that_exist_are_reported(
    home: Seq<char>,
    metas: Seq<(Seq<char>, StoreMetaView)>,
    i: int,
    p: int,
)
    ensures
        0 <= i < known_stores().len() && lookup(metas, known_stores()[i].relative_path) is Some
            ==> exists|q: int|
            0 <= q < stores(home, metas).len() && (#[trigger] stores(home, metas)[q]).file == below(
                home,
                known_stores()[i].relative_path,
            ),
        0 <= p < stores(home, metas).len() ==> {
            let r = stores(home, metas)[p];
            &&& r.kind == "message_store"@ && r.domain == "messages"@
            &&& r.evidence.len() == 1 && r.evidence[0].tier == Tier::Derived
            &&& exists|j: int| #![trigger known_stores()[j]]
                0 <= j < known_stores().len() && r.file == below(
                    home,
                    known_stores()[j].relative_path,
                ) && lookup(r.attributes, "app"@) == Some(known_stores()[j].app) && has_key(
                    metas,
                    known_stores()[j].relative_path,
                ) && (lookup(r.attributes, "size_bytes"@) is Some <==> known_stores()[j].shape
                    == StoreShape::File)
        },
{
    let f = each_store(home, metas);
    if 0 <= i < known_stores().len() && lookup(metas, known_stores()[i].relative_path) is Some {
        lemma_kept_by_filter_map(known_stores(), f, i);
        let q = choose|q: int|
            0 <= q < stores(home, metas).len() && stores(home, metas)[q] == f(
                known_stores()[i],
            )->Some_0;
        assert(stores(home, metas)[q].file == below(home, known_stores()[i].relative_path));
    }
    if 0 <= p < stores(home, metas).len() {
        let j = lemma_filtered_from(known_stores(), f, p);
        let s = known_stores()[j];
        lemma_store_attributes(s, lookup(metas, s.relative_path)->0);
    }
}

/// The applications that are looked for, each below a home directory; the store
/// of the one that keeps a single file is measured, the others are directories.
pub proof fn law_known_places(i: int)
    requires
        0 <= i < known_stores().len(),
    ensures
        known_stores().len() == 8,
        known_stores()[i].shape == StoreShape::File <==> known_stores()[i].app == "iMessage/SMS"@,
        known_stores()[i].app == "iMessage/SMS"@ ==> known_stores()[i].relative_path
            == "Library/Messages/chat.db"@,
        known_stores()[i].app == "WhatsApp"@ ==> known_stores()[i].relative_path
            == "Library/Application Support/WhatsApp"@,
        seq!["iMessage/SMS"@, "Signal"@, "WhatsApp"@, "Slack"@, "Discord"@].contains(
            known_stores()[i].app,
        ),
        exists|j: int| #![trigger known_stores()[j]]
            0 <= j < 8 && known_stores()[j].app == "Signal"@ && known_stores()[j].relative_path
                == ".config/Signal"@,
        exists|j: int| #![trigger known_stores()[j]]
            0 <= j < 8 && known_stores()[j].app == "Slack"@ && known_stores()[j].relative_path
                == ".config/Slack"@,
        exists|j: int| #![trigger known_stores()[j]]
            0 <= j < 8 && known_stores()[j].app == "Discord"@ && known_stores()[j].relative_path
                == ".config/discord"@,
        exists|j: int| #![trigger known_stores()[j]]
            0 <= j < 8 && known_stores()[j].app == "Signal"@ && known_stores()[j].relative_path
                == "Library/Application Support/Signal"@,
        exists|j: int| #![trigger known_stores()[j]]
            0 <= j < 8 && known_stores()[j].app == "Slack"@ && known_stores()[j].relative_path
                == "Library/Application Support/Slack"@,
        exists|j: int| #![trigger known_stores()[j]]
            0 <= j < 8 && known_stores()[j].app == "Discord"@ && known_stores()[j].relative_path
                == "Library/Application Support/discord"@,
{
    reveal_strlit("iMessage/SMS");
    reveal_strlit("Signal");
    reveal_strlit("WhatsApp");
    reveal_strlit("Slack");
    reveal_strlit("Discord");
    let apps = seq!["iMessage/SMS"@, "Signal"@, "WhatsApp"@, "Slack"@, "Discord"@];
    assert(apps[0] == "iMessage/SMS"@ && apps[1] == "Signal"@ && apps[2] == "WhatsApp"@ && apps[3]
        == "Slack"@ && apps[4] == "Discord"@);
    assert("iMessage/SMS"@.len() == 12 && "Signal"@.len() == 6 && "WhatsApp"@.len() == 8
        && "Slack"@.len() == 5 && "Discord"@.len() == 7);
    let k = known_stores();
    assert(k[0].app == apps[0] && k[1].app == apps[1] && k[2].app == apps[2] && k[3].app == apps[3]
        && k[4].app == apps[4] && k[5].app == apps[1] && k[6].app == apps[3] && k[7].app
        == apps[4]);
}

/// What is shown of a store leaves out what may not be read.
pub proof fn law_only_permitted_store_attributes_are_shown(
    cfg: PermissionConfigView,
    home: Seq<char>,
    metas: Seq<(Seq<char>, StoreMetaView)>,
    p: int,
)
    requires
        0 <= p < stores(home, metas).len(),
    ensures
        permitted_stores(cfg, home, metas).len() == stores(home, metas).len(),
        ({
            let all = stores(home, metas)[p];
            let r = permitted_stores(cfg, home, metas)[p];
            let named = is_attribute_allowed(cfg, "messages"@, "filename"@);
            let measured = is_attribute_allowed(cfg, "messages"@, "metadata"@);
            &&& r.id == all.id && r.file == all.file && r.evidence == all.evidence
            &&& lookup(r.attributes, "app"@) == if named {
                lookup(all.attributes, "app"@)
            } else {
                None
            }
            &&& lookup(r.attributes, "size_bytes"@) == if measured {
                lookup(all.attributes, "size_bytes"@)
            } else {
                None
            }
            &&& lookup(r.attributes, "modified_unix_ms"@) == if measured {
                lookup(all.attributes, "modified_unix_ms"@)
            } else {
                None
            }
        }),
{
    lemma_metadata_keys();
    let j = lemma_filtered_from(known_stores(), each_store(home, metas), p);
    let s = known_stores()[j];
    lemma_store_attributes(s, lookup(metas, s.relative_path)->0);
    let m = stores(home, metas)[p].attributes;
    lemma_without_lookup(m, "app"@);
    let n = if is_attribute_allowed(cfg, "messages"@, "filename"@) {
        m
    } else {
        without(m, "app"@)
    };
    lemma_without_lookup(n, "size_bytes"@);
    lemma_without_lookup(without(n, "size_bytes"@), "modified_unix_ms"@);
}

// ---------------------------------------------------------------------------
// Repositories
// ---------------------------------------------------------------------------

proof fn lemma_prefixed(p: Seq<char>, rest: Seq<char>)
    ensures
        starts_with(p + rest, p),
        strip_prefix(p + rest, p) == Some(rest),
{
    assert((p + rest).take(p.len() as int) =~= p);
    assert((p + rest).skip(p.len() as int) =~= rest);
}

proof fn lemma_suffixed(front: Seq<char>, p: Seq<char>)
    ensures
        ends_with(front + p, p),
        strip_suffix(front + p, p) == Some(front),
{
    assert((front + p).skip(front.len() as int) =~= p);
    assert((front + p).take(front.len() as int) =~= front);
}

/// Where `HEAD` refers to a branch, the repository is reported with it and the
/// branch itself as observed; where it does not, there is no branch.
pub proof fn law_the_branch_that_head_names(root: Seq<char>, git: GitFilesView, branch: Seq<char>)
    requires
        git.head matches Some(h) && trim(h) == "ref: refs/heads/"@ + branch,
    ensures
        ({
            let all = git_resources(root, Some(git));
            &&& all.len() >= 2
            &&& all[0].kind == "git_repository"@ && all[0].id == display_name(root)
            &&& all[0].evidence[0].tier == Tier::Declared
            &&& lookup(all[0].attributes, "current_branch"@) == Some(branch)
            &&& all[0].file == root && all[1].file == below(below(root, ".git"@), "HEAD"@)
            &&& all[1].kind == "git_branch"@ && all[1].id == display_name(root) + ":"@ + branch
            &&& all[1].evidence[0].tier == Tier::Observed
            &&& lookup(all[1].attributes, "repository"@) == Some(display_name(root))
        }),
{
    lemma_prefixed("ref: refs/heads/"@, branch);
    lemma_empty_table();
    let none: Seq<(Seq<char>, Seq<char>)> = seq![];
    assert(none =~= Seq::empty());
    lemma_put(none, "current_branch"@, branch);
    lemma_put(none, "repository"@, display_name(root));
}

/// Without a `.git` directory nothing is reported; with one the repository always
/// is, and every remote of its configuration.
pub proof fn law_repositories_report_their_remotes(root: Seq<char>, git: GitFilesView, i: int)
    ensures
        git_resources(root, None).len() == 0,
        git_resources(root, Some(git)).len() > 0,
        git_resources(root, Some(git))[0].kind == "git_repository"@,
        git.config matches Some(c) ==> (0 <= i < remotes_in(c).len() ==> {
            let all = git_resources(root, Some(git));
            let r = all[all.len() - remotes_in(c).len() + i];
            &&& r.kind == "git_remote"@ && r.domain == "git"@
            &&& r.file == below(below(root, ".git"@), "config"@)
            &&& r.id == display_name(root) + ":remote:"@ + remotes_in(c)[i].0
            &&& lookup(r.attributes, "name"@) == Some(remotes_in(c)[i].0)
            &&& lookup(r.attributes, "url"@) == Some(remotes_in(c)[i].1)
            &&& lookup(r.attributes, "repository"@) == Some(display_name(root))
            &&& r.evidence[0].tier == Tier::Declared
        }),
{
    if let Some(c) = git.config {
        if 0 <= i < remotes_in(c).len() {
            let (name, url) = remotes_in(c)[i];
            let all = git_resources(root, Some(git));
            assert(all[all.len() - remotes_in(c).len() + i] == remote_resource(root, name, url));
            reveal_strlit("repository");
            reveal_strlit("name");
            reveal_strlit("url");
            assert("repository"@.len() == 10 && "name"@.len() == 4 && "url"@.len() == 3);
            lemma_empty_table();
            let none: Seq<(Seq<char>, Seq<char>)> = seq![];
            assert(none =~= Seq::empty());
            lemma_put(none, "repository"@, display_name(root));
            let a = put(none, "repository"@, display_name(root));
            lemma_put(a, "name"@, name);
            lemma_put(put(a, "name"@, name), "url"@, url);
        }
    }
}

/// A remote's section opens with its name between quotes; any other section closes
/// it. Inside it the line that gives the address adds the remote.
pub proof fn law_remotes_are_read_from_their_sections(
    s: RemoteScan,
    name: Seq<char>,
    line: Seq<char>,
    url: Seq<char>,
)
    ensures
        trim(line) == "[remote \""@ + name + "\"]"@ ==> remote_line(s, line) == (RemoteScan {
            remotes: s.remotes,
            current: Some(name),
        }),
        trim(line) == "["@ + name + "]"@ && !starts_with(name, "remote"@) ==> remote_line(s, line)
            == (RemoteScan { remotes: s.remotes, current: None }),
        s.current == Some(name) && !starts_with(trim(line), "["@) && (split_once(
            trim(line),
            "="@,
        ) matches Some((key, value)) && trim(key) == "url"@ && trim(value) == url) ==> remote_line(
            s,
            line,
        ) == (RemoteScan { remotes: s.remotes.push((name, url)), current: s.current }),
        s.current is None && !starts_with(trim(line), "["@) ==> remote_line(s, line) == s,
{
    reveal_strlit("[remote \"");
    reveal_strlit("remote \"");
    reveal_strlit("remote");
    reveal_strlit("[");
    reveal_strlit("]");
    reveal_strlit("\"");
    reveal_strlit("\"]");
    if trim(line) == "[remote \""@ + name + "\"]"@ {
        let section = "remote \""@ + (name + "\""@);
        assert(trim(line) =~= "["@ + (section + "]"@));
        lemma_prefixed("["@, section + "]"@);
        lemma_suffixed(section, "]"@);
        lemma_prefixed("remote \""@, name + "\""@);
        lemma_suffixed(name, "\""@);
    }
    if trim(line) == "["@ + name + "]"@ && !starts_with(name, "remote"@) {
        assert(trim(line) =~= "["@ + (name + "]"@));
        lemma_prefixed("["@, name + "]"@);
        lemma_suffixed(name, "]"@);
        if starts_with(name, "remote \""@) {
            assert(name.take(6) =~= name.take(8).take(6));
            assert("remote \""@.take(6) =~= "remote"@);
        }
    }
}

/// A configuration's remotes are read line by line from the first.
pub proof fn law_remotes_are_read_in_order(front: Seq<Seq<char>>, line: Seq<char>)
    ensures
        remote_scan(front.push(line)) == remote_line(remote_scan(front), line),
        remote_scan(seq![]) == (RemoteScan { remotes: seq![], current: None }),
{
    assert(front.push(line).drop_last() =~= front);
}

// ---------------------------------------------------------------------------
// Images
// ---------------------------------------------------------------------------

proof fn lemma_reference(ws: Seq<Seq<char>>, n: int, i: int)
    requires
        0 <= i <= n < ws.len(),
        forall|k: int| i <= k < n ==> starts_with(#[trigger] ws[k], "--"@),
        !starts_with(ws[n], "--"@),
    ensures
        reference_from(ws, i) == Some(ws[n]),
    decreases n - i,
{
    if i < n {
        lemma_reference(ws, n, i + 1);
    }
}

/// A line of a Dockerfile that begins a stage names its image: the first word
/// behind the instruction that is no option.
pub proof fn law_stages_name_their_image(raw: Seq<char>, rest: Seq<char>, n: int)
    requires
        trim(raw) == "FROM "@ + rest || trim(raw) == "from "@ + rest,
        0 <= n < words(rest).len(),
        forall|k: int| 0 <= k < n ==> starts_with(#[trigger] words(rest)[k], "--"@),
        !starts_with(words(rest)[n], "--"@),
    ensures
        image_in(raw) == Some(words(rest)[n]),
{
    reveal_strlit("FROM ");
    reveal_strlit("from ");
    lemma_prefixed("FROM "@, rest);
    lemma_prefixed("from "@, rest);
    if trim(raw) == "from "@ + rest {
        assert(trim(raw)[0] == 'f');
        assert("FROM "@[0] == 'F');
        if starts_with(trim(raw), "FROM "@) {
            assert(trim(raw).take(5)[0] == 'F');
        }
    }
    lemma_reference(words(rest), n, 0);
}

/// No other line names one.
pub proof fn law_other_lines_name_no_image(raw: Seq<char>)
    requires
        !starts_with(trim(raw), "FROM "@),
        !starts_with(trim(raw), "from "@),
    ensures
        image_in(raw) is None,
{
}

/// Every image that a Dockerfile names is kept.
pub proof fn law_every_stage_is_kept(text: Seq<char>, i: int)
    requires
        0 <= i < lines(text).len(),
        image_in(lines(text)[i]) is Some,
    ensures
        images(text).contains(image_in(lines(text)[i])->0),
{
    lemma_kept_by_filter_map(lines(text), each_image(), i);
}

/// A Dockerfile is called so, or so with an ending of its own.
pub proof fn law_what_is_a_dockerfile(name: Seq<char>, tail: Seq<char>)
    ensures
        is_dockerfile("Dockerfile"@),
        is_dockerfile("Dockerfile."@ + tail),
        is_dockerfile(name) ==> "Dockerfile"@.is_prefix_of(name) && (name.len() == 10 || name[10]
            == '.'),
{
    reveal_strlit("Dockerfile");
    reveal_strlit("Dockerfile.");
    lemma_prefixed("Dockerfile."@, tail);
    if is_dockerfile(name) && name != "Dockerfile"@ {
        assert(name.take(11)[10] == '.');
        assert(name.subrange(0, 10) =~= name.take(11).take(10));
        assert("Dockerfile."@.take(10) =~= "Dockerfile"@);
    }
}

proof fn lemma_images(root: Seq<char>, file: Seq<char>, list: Seq<Seq<char>>, i: int)
    requires
        0 <= i < list.len(),
    ensures
        image_resources(root, file, list).len() == list.len(),
        ({
            let r = image_resources(root, file, list)[i];
            &&& r.kind == "docker_image"@
            &&& r.file == below(root, file)
            &&& lookup(r.attributes, "image"@) == Some(list[i])
            &&& lookup(r.attributes, "source"@) == Some(file)
            &&& r.id == display_name(root) + ":"@ + file + ":"@ + decimal(i as nat) + ":"@ + list[i]
            &&& r.evidence.len() == 1 && r.evidence[0].tier == Tier::Declared
        }),
    decreases list.len(),
{
    if i < list.len() - 1 {
        lemma_images(root, file, list.drop_last(), i);
    } else {
        lemma_image_count(root, file, list);
        reveal_strlit("repository");
        reveal_strlit("image");
        reveal_strlit("source");
        assert("repository"@.len() == 10 && "image"@.len() == 5 && "source"@.len() == 6);
        lemma_empty_table();
        let none: Seq<(Seq<char>, Seq<char>)> = seq![];
        assert(none =~= Seq::empty());
        lemma_put(none, "repository"@, display_name(root));
        let a = put(none, "repository"@, display_name(root));
        lemma_put(a, "image"@, list[i]);
        lemma_put(put(a, "image"@, list[i]), "source"@, file);
    }
    lemma_image_count(root, file, list);
}

proof fn lemma_image_count(root: Seq<char>, file: Seq<char>, list: Seq<Seq<char>>)
    ensures
        image_resources(root, file, list).len() == list.len(),
    decreases list.len(),
{
    if list.len() > 0 {
        lemma_image_count(root, file, list.drop_last());
    }
}

/// Every image of every Dockerfile at a project's root is reported, with the file
/// that names it.
pub proof fn law_every_image_is_reported(
    root: Seq<char>,
    files: Seq<(Seq<char>, Seq<char>)>,
    n: int,
    i: int,
)
    requires
        0 <= n < files.len(),
        is_dockerfile(files[n].0),
        0 <= i < images(files[n].1).len(),
    ensures
        exists|p: int|
            0 <= p < docker_resources(root, files).len() && (#[trigger] docker_resources(
                root,
                files,
            )[p]).kind == "docker_image"@ && docker_resources(root, files)[p].file == below(
                root,
                files[n].0,
            ) && lookup(docker_resources(root, files)[p].attributes, "image"@) == Some(
                images(files[n].1)[i],
            ) && lookup(docker_resources(root, files)[p].attributes, "source"@) == Some(files[n].0),
{
    let q = lemma_image_reported(root, files, n, i);
    assert(docker_resources(root, files)[q] == dockerfile_resources(root, files)[q]);
}

proof fn lemma_image_reported(
    root: Seq<char>,
    files: Seq<(Seq<char>, Seq<char>)>,
    n: int,
    i: int,
) -> (p: int)
    requires
        0 <= n < files.len(),
        is_dockerfile(files[n].0),
        0 <= i < images(files[n].1).len(),
    ensures
        0 <= p < dockerfile_resources(root, files).len(),
        ({
            let r = dockerfile_resources(root, files)[p];
            &&& r.kind == "docker_image"@
            &&& r.file == below(root, files[n].0)
            &&& lookup(r.attributes, "image"@) == Some(images(files[n].1)[i])
            &&& lookup(r.attributes, "source"@) == Some(files[n].0)
        }),
    decreases files.len(),
{
    let front = dockerfile_resources(root, files.drop_last());
    if n < files.len() - 1 {
        let p = lemma_image_reported(root, files.drop_last(), n, i);
        assert(dockerfile_resources(root, files)[p] == front[p]);
        p
    } else {
        lemma_images(root, files[n].0, images(files[n].1), i);
        assert(dockerfile_resources(root, files)[front.len() + i] == image_resources(
            root,
            files[n].0,
            images(files[n].1),
        )[i]);
        front.len() + i
    }
}

// ---------------------------------------------------------------------------
// Services
// ---------------------------------------------------------------------------

/// Quotes round a value are no part of it.
pub proof fn law_quotes_are_no_part_of_a_value(raw: Seq<char>, x: Seq<char>)
    ensures
        trim(raw) == seq!['"'] + x + seq!['"'] ==> unquoted(raw) == x,
        trim(raw) == seq!['\''] + x + seq!['\''] ==> unquoted(raw) == x,
        (trim(raw).len() < 2 || (trim(raw)[0] != '"' && trim(raw)[0] != '\'')) ==> unquoted(raw)
            == trim(raw),
{
    if trim(raw) == seq!['"'] + x + seq!['"'] {
        assert(trim(raw).last() == '"');
        assert(unquoted(raw) =~= x);
    }
    if trim(raw) == seq!['\''] + x + seq!['\''] {
        assert(trim(raw).last() == '\'');
        assert(unquoted(raw) =~= x);
    }
}

proof fn lemma_trim_twice(s: Seq<char>)
    ensures
        trim(trim(s)) == trim(s),
        unquoted(trim(s)) == unquoted(s),
{
    lemma_trim(s);
    lemma_trim_stays(trim(s));
}

proof fn lemma_not_prefixed(line: Seq<char>, p: Seq<char>)
    requires
        line.len() > 0,
        p.len() > 0,
        line[0] != p[0],
    ensures
        !starts_with(line, p),
        line != p,
        strip_prefix(line, p) is None,
{
    if starts_with(line, p) {
        assert(line.take(p.len() as int)[0] == line[0]);
    }
}

proof fn lemma_service_words()
    ensures
        "image:"@.len() == 6 && "image:"@[0] == 'i',
        "ports:"@.len() == 6 && "ports:"@[0] == 'p',
        "- "@.len() == 2 && "- "@[0] == '-',
        "context:"@.len() == 8 && "context:"@[0] == 'c',
        "dockerfile:"@.len() == 11 && "dockerfile:"@[0] == 'd',
        "build:"@.len() == 6 && "build:"@[0] == 'b',
{
    reveal_strlit("image:");
    reveal_strlit("ports:");
    reveal_strlit("- ");
    reveal_strlit("context:");
    reveal_strlit("dockerfile:");
    reveal_strlit("build:");
}

/// A service's image is what its line gives, and an item counts as a port below
/// `ports`.
pub proof fn law_images_and_ports_of_a_service(s: ServiceScan, v: Seq<char>)
    ensures
        service_line(s, "image:"@ + v) == (ServiceScan {
            image: Some(unquoted(v)),
            in_ports: false,
            in_build: false,
            ..s
        }),
        service_line(s, "ports:"@) == (ServiceScan { in_ports: true, in_build: false, ..s }),
        s.in_ports ==> service_line(s, "- "@ + v) == (ServiceScan {
            ports: s.ports.push(unquoted(v)),
            ..s
        }),
        !s.in_ports ==> service_line(s, "- "@ + v) == s,
{
    lemma_service_words();
    lemma_trim_twice(v);
    lemma_prefixed("image:"@, v);
    lemma_prefixed("- "@, v);
    lemma_not_prefixed("ports:"@, "image:"@);
    lemma_not_prefixed("- "@ + v, "image:"@);
    lemma_not_prefixed("- "@ + v, "ports:"@);
}

proof fn lemma_build_keys(line: Seq<char>)
    requires
        line.len() > 0,
        line[0] == 'c' || line[0] == 'd' || line[0] == 'b',
    ensures
        strip_prefix(line, "image:"@) is None,
        line != "ports:"@,
        strip_prefix(line, "- "@) is None,
        line[0] != 'c' ==> strip_prefix(line, "context:"@) is None,
        line[0] != 'd' ==> strip_prefix(line, "dockerfile:"@) is None,
        line[0] != 'b' ==> strip_prefix(line, "build:"@) is None && line != "build:"@,
{
    lemma_service_words();
    lemma_not_prefixed(line, "image:"@);
    lemma_not_prefixed(line, "ports:"@);
    lemma_not_prefixed(line, "- "@);
    if line[0] != 'c' {
        lemma_not_prefixed(line, "context:"@);
    }
    if line[0] != 'd' {
        lemma_not_prefixed(line, "dockerfile:"@);
    }
    if line[0] != 'b' {
        lemma_not_prefixed(line, "build:"@);
    }
}

/// Below `build` the context and the file are what their lines give, unless those
/// are blank; elsewhere such lines say nothing of the build.
pub proof fn law_contexts_and_files_of_a_build(s: ServiceScan, v: Seq<char>)
    ensures
        s.in_build && trim(v).len() > 0 ==> service_line(s, "context:"@ + v) == (ServiceScan {
            build_context: Some(unquoted(v)),
            ..s
        }),
        s.in_build && trim(v).len() > 0 ==> service_line(s, "dockerfile:"@ + v) == (ServiceScan {
            build_dockerfile: Some(unquoted(v)),
            ..s
        }),
        s.in_build && trim(v).len() == 0 ==> service_line(s, "context:"@ + v) == s && service_line(
            s,
            "dockerfile:"@ + v,
        ) == s,
        !s.in_build ==> service_line(s, "context:"@ + v).build_context == s.build_context
            && service_line(s, "dockerfile:"@ + v).build_dockerfile == s.build_dockerfile,
{
    lemma_service_words();
    lemma_trim_twice(v);
    lemma_prefixed("context:"@, v);
    lemma_prefixed("dockerfile:"@, v);
    lemma_build_keys("context:"@ + v);
    lemma_build_keys("dockerfile:"@ + v);
}

/// A build opens with its key alone; with a value behind it the key gives the
/// context.
pub proof fn law_builds_of_a_service(s: ServiceScan, v: Seq<char>)
    ensures
        service_line(s, "build:"@) == (ServiceScan { in_build: true, in_ports: false, ..s }),
        trim(v).len() > 0 ==> service_line(s, "build:"@ + v) == (ServiceScan {
            build_context: Some(unquoted(v)),
            in_ports: false,
            in_build: false,
            ..s
        }),
{
    lemma_service_words();
    lemma_trim_twice(v);
    lemma_prefixed("build:"@, v);
    lemma_build_keys("build:"@);
    lemma_build_keys("build:"@ + v);
    if trim(v).len() > 0 {
        lemma_trim(v);
        assert(("build:"@ + v).len() > "build:"@.len());
    }
}

/// Any other key ends the list of ports and the build.
pub proof fn law_other_keys_end_a_list(s: ServiceScan, line: Seq<char>)
    requires
        ends_with(line, ":"@),
        line.len() > 0,
        !seq!['i', 'p', '-', 'c', 'd', 'b'].contains(line[0]),
    ensures
        service_line(s, line) == (ServiceScan { in_ports: false, in_build: false, ..s }),
{
    lemma_service_words();
    let c = seq!['i', 'p', '-', 'c', 'd', 'b'];
    assert(c[0] == 'i' && c[1] == 'p' && c[2] == '-' && c[3] == 'c' && c[4] == 'd' && c[5] == 'b');
    lemma_not_prefixed(line, "image:"@);
    lemma_not_prefixed(line, "ports:"@);
    lemma_not_prefixed(line, "- "@);
    lemma_not_prefixed(line, "context:"@);
    lemma_not_prefixed(line, "dockerfile:"@);
    lemma_not_prefixed(line, "build:"@);
}

/// A service's block goes on over empty lines and everything that is indented
/// further than its name, and ends at the first line that is not.
pub proof fn law_blocks_end_with_their_indentation(
    ls: Seq<Seq<char>>,
    j: int,
    depth: nat,
    s: ServiceScan,
)
    requires
        0 <= j < ls.len(),
    ensures
        trim(ls[j]).len() == 0 ==> service_block(ls, j, depth, s) == service_block(
            ls,
            j + 1,
            depth,
            s,
        ),
        trim(ls[j]).len() > 0 && indent(ls[j]) <= depth ==> service_block(ls, j, depth, s) == (s, j),
        trim(ls[j]).len() > 0 && indent(ls[j]) > depth ==> service_block(ls, j, depth, s)
            == service_block(ls, j + 1, depth, service_line(s, trim(ls[j]))),
        service_block(ls, ls.len() as int, depth, s) == (s, ls.len() as int),
{
}

/// A key alone on its line opens a service; a key with a value behind it or with
/// a space in it opens none.
pub proof fn law_what_opens_a_service(line: Seq<char>, name: Seq<char>)
    ensures
        trim(line) == name + ":"@ && name.len() > 0 && !name.contains(' ') ==> service_name(line)
            == Some(name),
        service_name(line) matches Some(n) ==> trim(line) == n + ":"@ && n.len() > 0 && !n.contains(
            ' ',
        ),
{
    lemma_suffixed(name, ":"@);
    if let Some(n) = service_name(line) {
        let t = trim(line);
        assert(t =~= n + ":"@) by {
            assert(t.skip(t.len() - ":"@.len()) == ":"@);
            assert(t =~= t.take(t.len() - ":"@.len()) + t.skip(t.len() - ":"@.len()));
        }
    }
}

/// The services of a compose file are read from the line behind the one that
/// opens them: comments and empty lines are passed over, a line that is not
/// indented further than that one ends them, and each name is read with its block.
pub proof fn law_services_are_read_by_their_names(
    ls: Seq<Seq<char>>,
    i: int,
    depth: nat,
    name: Seq<char>,
)
    requires
        0 <= i < ls.len(),
    ensures
        trim(ls[i]).len() == 0 || starts_with(trim_start(ls[i]), "#"@) ==> services_from(ls, i, depth)
            == services_from(ls, i + 1, depth),
        trim(ls[i]).len() > 0 && !starts_with(trim_start(ls[i]), "#"@) && indent(ls[i]) <= depth
            ==> services_from(ls, i, depth).len() == 0,
        trim(ls[i]).len() > 0 && !starts_with(trim_start(ls[i]), "#"@) && indent(ls[i]) > depth
            && trim(ls[i]) == name + ":"@ && name.len() > 0 && !name.contains(' ') ==> {
            let (scan, next) = service_block(ls, i + 1, indent(ls[i]), empty_scan());
            let found = services_from(ls, i, depth);
            &&& found.len() > 0
            &&& found[0] == (ComposeServiceView {
                name,
                image: scan.image,
                ports: scan.ports,
                build_context: scan.build_context,
                build_dockerfile: scan.build_dockerfile,
            })
            &&& found.skip(1) == services_from(ls, next, depth)
        },
{
    law_what_opens_a_service(ls[i], name);
    if !is_passed_over(ls[i]) && indent(ls[i]) > depth && service_name(ls[i]) is Some {
        let block = service_block(ls, i + 1, indent(ls[i]), empty_scan());
        lemma_service_block(ls, i + 1, indent(ls[i]), empty_scan());
        assert(services_from(ls, i, depth).skip(1) =~= services_from(ls, block.1, depth));
    }
}

/// A block starts out with nothing known of its service.
pub proof fn law_blocks_start_empty()
    ensures
        empty_scan().image is None && empty_scan().build_context is None
            && empty_scan().build_dockerfile is None,
        empty_scan().ports.len() == 0,
        !empty_scan().in_ports && !empty_scan().in_build,
{
}

/// The services stand behind the first line that opens them; a file without one
/// declares none.
pub proof fn law_where_services_stand(text: Seq<char>, n: int)
    requires
        0 <= n < lines(text).len(),
        trim_end(lines(text)[n]) == "services:"@,
        forall|k: int| 0 <= k < n ==> trim(#[trigger] lines(text)[k]) != "services:"@,
    ensures
        services(text) == services_from(lines(text), n + 1, indent(lines(text)[n])),
{
    lemma_services_line(lines(text), n, 0);
}

proof fn lemma_opens_services(line: Seq<char>)
    requires
        opens_services(line),
    ensures
        trim(line) == "services:"@,
{
    reveal_strlit("services:");
    let want = "services:"@;
    assert(want[0] == 's' && want.last() == ':' && want.len() == 9);
    lemma_trim_stays(want);
    if trim_start(line) == want {
        crate::text::lemma_back_run(want, crate::text::CharClass::Space);
        assert(crate::text::back_run(want, crate::text::CharClass::Space) == 0);
        assert(trim_end(want) =~= want);
    } else {
        let t = trim_end(line);
        crate::text::lemma_back_run(line, crate::text::CharClass::Space);
        assert(t == want);
        assert(line[0] == t[0]);
        assert(trim_start(line) =~= line);
    }
}

proof fn lemma_services_line(ls: Seq<Seq<char>>, n: int, i: int)
    requires
        0 <= i <= n < ls.len(),
        trim_end(ls[n]) == "services:"@,
        forall|k: int| 0 <= k < n ==> trim(#[trigger] ls[k]) != "services:"@,
    ensures
        services_line(ls, i) == Some(n),
    decreases n - i,
{
    if i < n {
        if opens_services(ls[i]) {
            lemma_opens_services(ls[i]);
        }
        lemma_services_line(ls, n, i + 1);
    }
}

proof fn lemma_service_attributes(root: Seq<char>, file: Seq<char>, s: ComposeServiceView)
    ensures
        ({
            let a = service_attributes(root, file, s);
            &&& lookup(a, "service"@) == Some(s.name)
            &&& lookup(a, "source"@) == Some(file)
            &&& lookup(a, "repository"@) == Some(display_name(root))
            &&& lookup(a, "image"@) == s.image
            &&& lookup(a, "ports"@) == if s.ports.len() > 0 {
                Some(join(s.ports, ","@))
            } else {
                None
            }
            &&& lookup(a, "build_context"@) == s.build_context
            &&& lookup(a, "build_dockerfile"@) == s.build_dockerfile
        }),
{
    reveal_strlit("repository");
    reveal_strlit("service");
    reveal_strlit("source");
    reveal_strlit("image");
    reveal_strlit("ports");
    reveal_strlit("build_context");
    reveal_strlit("build_dockerfile");
    assert("repository"@.len() == 10 && "service"@.len() == 7 && "source"@.len() == 6);
    assert("image"@.len() == 5 && "ports"@.len() == 5 && "image"@[0] == 'i' && "ports"@[0] == 'p');
    assert("build_context"@.len() == 13 && "build_dockerfile"@.len() == 16);
    lemma_empty_table();
    let none: Seq<(Seq<char>, Seq<char>)> = seq![];
    assert(none =~= Seq::empty());
    lemma_put(none, "repository"@, display_name(root));
    let a = put(none, "repository"@, display_name(root));
    lemma_put(a, "service"@, s.name);
    let b = put(a, "service"@, s.name);
    lemma_put(b, "source"@, file);
    let c = put(b, "source"@, file);
    let d = lemma_with_some(c, "image"@, s.image);
    let ports = if s.ports.len() > 0 {
        Some(join(s.ports, ","@))
    } else {
        None
    };
    let e = lemma_with_some(d, "ports"@, ports);
    let f = lemma_with_some(e, "build_context"@, s.build_context);
    let g = lemma_with_some(f, "build_dockerfile"@, s.build_dockerfile);
}

proof fn lemma_with_some(
    m: Seq<(Seq<char>, Seq<char>)>,
    k: Seq<char>,
    v: Option<Seq<char>>,
) -> (r: Seq<(Seq<char>, Seq<char>)>)
    requires
        ordered(m),
        lookup(m, k) is None,
    ensures
        r == crate::docker_domain::with_some(m, k, v),
        ordered(r),
        lookup(r, k) == v,
        forall|x: Seq<char>| x != k ==> #[trigger] lookup(r, x) == lookup(m, x),
{
    if let Some(x) = v {
        lemma_put(m, k, x);
    }
    crate::docker_domain::with_some(m, k, v)
}

/// A declared service is reported with everything that its block gives and with
/// nothing that it does not.
pub proof fn law_services_report_what_they_declare(
    root: Seq<char>,
    file: Seq<char>,
    s: ComposeServiceView,
)
    ensures
        ({
            let r = service_resource(root, file, s);
            &&& r.kind == "docker_service"@ && r.domain == "docker"@
            &&& r.file == below(root, file)
            &&& r.id == display_name(root) + ":"@ + file + ":service:"@ + s.name
            &&& r.evidence.len() == 1 && r.evidence[0].tier == Tier::Declared
            &&& lookup(r.attributes, "service"@) == Some(s.name)
            &&& lookup(r.attributes, "source"@) == Some(file)
            &&& lookup(r.attributes, "image"@) == s.image
            &&& s.ports.len() == 0 ==> lookup(r.attributes, "ports"@) is None
            &&& s.ports.len() > 0 ==> lookup(r.attributes, "ports"@) == Some(join(s.ports, ","@))
            &&& lookup(r.attributes, "build_context"@) == s.build_context
            &&& lookup(r.attributes, "build_dockerfile"@) == s.build_dockerfile
        }),
{
    lemma_service_attributes(root, file, s);
}

/// A service is observed to run where the engine says that it is running, and
/// not to run where the engine says anything else or knows no container of it.
pub proof fn law_running_is_what_the_engine_says(
    root: Seq<char>,
    file: Seq<char>,
    service: Seq<char>,
    state: Option<Seq<char>>,
)
    ensures
        ({
            let r = observed_resource(root, file, service, state);
            &&& lookup(r.attributes, "running"@) == Some(
                if state == Some("running"@) {
                    "true"@
                } else {
                    "false"@
                },
            )
            &&& lookup(r.attributes, "service"@) == Some(service)
            &&& lookup(r.attributes, "source"@) == Some(file)
            &&& r.kind == "docker_service_observed"@
            &&& r.evidence.len() == 1 && r.evidence[0].tier == Tier::Observed
            &&& r.file == below(root, file)
        }),
{
    reveal_strlit("repository");
    reveal_strlit("service");
    reveal_strlit("source");
    reveal_strlit("running");
    assert("repository"@.len() == 10 && "service"@.len() == 7 && "source"@.len() == 6);
    assert("running"@.len() == 7 && "running"@[0] == 'r' && "service"@[0] == 's');
    lemma_empty_table();
    let none: Seq<(Seq<char>, Seq<char>)> = seq![];
    assert(none =~= Seq::empty());
    lemma_put(none, "repository"@, display_name(root));
    let a = put(none, "repository"@, display_name(root));
    lemma_put(a, "service"@, service);
    let b = put(a, "service"@, service);
    lemma_put(b, "source"@, file);
    let c = put(b, "source"@, file);
    let v = if state == Some("running"@) {
        "true"@
    } else {
        "false"@
    };
    lemma_put(c, "running"@, v);
}

proof fn lemma_states(ls: Seq<Seq<char>>)
    ensures
        ordered(states(ls)),
    decreases ls.len(),
{
    if ls.len() > 0 {
        lemma_states(ls.drop_last());
        if let Some((service, state)) = state_line(ls.last()) {
            lemma_put(states(ls.drop_last()), service, state);
        }
    }
}

/// The last line that the engine gives of a service says its state; a line that
/// names no service or no state changes nothing.
pub proof fn law_the_last_state_counts(
    front: Seq<Seq<char>>,
    line: Seq<char>,
    t: TreeView,
    service: Seq<char>,
    state: Seq<char>,
)
    requires
        trim(line).len() > 0,
        json_tree(trim(line)) == Some(t),
    ensures
        field(t, "Service"@) == Some(TreeView::Text(service)) && field(t, "State"@) == Some(
            TreeView::Text(state),
        ) ==> lookup(states(front.push(line)), service) == Some(state),
        forall|other: Seq<char>|
            field(t, "Service"@) != Some(TreeView::Text(other)) ==> #[trigger] lookup(
                states(front.push(line)),
                other,
            ) == lookup(states(front), other),
        !(field(t, "State"@) matches Some(TreeView::Text(_))) ==> states(front.push(line)) == states(
            front,
        ),
{
    assert(front.push(line).drop_last() =~= front);
    lemma_states(front);
    if let Some((a, b)) = state_line(line) {
        lemma_put(states(front), a, b);
    }
}

/// Every service of every compose file is reported, and observed where the engine
/// was asked about its file.
pub proof fn law_every_service_is_reported(
    root: Seq<char>,
    files: Seq<(Seq<char>, Seq<char>)>,
    live: Seq<(Seq<char>, Seq<(Seq<char>, Seq<char>)>)>,
    n: int,
    name: Seq<char>,
    i: int,
)
    requires
        0 <= n < 4,
        name == seq![
            "docker-compose.yml"@,
            "docker-compose.yaml"@,
            "compose.yml"@,
            "compose.yaml"@,
        ][n],
        lookup(files, name) is Some,
        0 <= i < services(lookup(files, name)->0).len(),
    ensures
        docker_resources(root, files).contains(
            service_resource(root, name, services(lookup(files, name)->0)[i]),
        ),
        lookup(live, name) matches Some(st) ==> observed_resources(root, files, live, 4).contains(
            observed_resource(
                root,
                name,
                services(lookup(files, name)->0)[i].name,
                lookup(st, services(lookup(files, name)->0)[i].name),
            ),
        ),
{
    let s = services(lookup(files, name)->0)[i];
    let c = lemma_composed(root, files, n, 4, i);
    let d = dockerfile_resources(root, files);
    assert(docker_resources(root, files)[d.len() + c] == service_resource(root, name, s));
    if lookup(live, name) is Some {
        let o = lemma_observed(root, files, live, n, 4, i);
        assert(observed_resources(root, files, live, 4)[o] == observed_resource(
            root,
            name,
            s.name,
            lookup(lookup(live, name)->0, s.name),
        ));
    }
}

proof fn lemma_composed(
    root: Seq<char>,
    files: Seq<(Seq<char>, Seq<char>)>,
    n: int,
    m: int,
    i: int,
) -> (p: int)
    requires
        0 <= n < m <= 4,
        lookup(files, compose_names()[n]) is Some,
        0 <= i < services(lookup(files, compose_names()[n])->0).len(),
    ensures
        0 <= p < compose_resources(root, files, m).len(),
        compose_resources(root, files, m)[p] == service_resource(
            root,
            compose_names()[n],
            services(lookup(files, compose_names()[n])->0)[i],
        ),
    decreases m,
{
    let front = compose_resources(root, files, m - 1);
    if n < m - 1 {
        let p = lemma_composed(root, files, n, m - 1, i);
        assert(compose_resources(root, files, m)[p] == front[p]);
        p
    } else {
        assert(compose_names().len() == 4);
        front.len() + i
    }
}

proof fn lemma_observed(
    root: Seq<char>,
    files: Seq<(Seq<char>, Seq<char>)>,
    live: Seq<(Seq<char>, Seq<(Seq<char>, Seq<char>)>)>,
    n: int,
    m: int,
    i: int,
) -> (p: int)
    requires
        0 <= n < m <= 4,
        lookup(files, compose_names()[n]) is Some,
        lookup(live, compose_names()[n]) is Some,
        0 <= i < services(lookup(files, compose_names()[n])->0).len(),
    ensures
        0 <= p < observed_resources(root, files, live, m).len(),
        ({
            let name = services(lookup(files, compose_names()[n])->0)[i].name;
            observed_resources(root, files, live, m)[p] == observed_resource(
                root,
                compose_names()[n],
                name,
                lookup(lookup(live, compose_names()[n])->0, name),
            )
        }),
    decreases m,
{
    let front = observed_resources(root, files, live, m - 1);
    if n < m - 1 {
        let p = lemma_observed(root, files, live, n, m - 1, i);
        assert(observed_resources(root, files, live, m)[p] == front[p]);
        p
    } else {
        assert(compose_names().len() == 4);
        front.len() + i
    }
}

} // verus!
