//! Documents in a directory that somebody named: never more than the listing
//! says.
use vstd::prelude::*;
use crate::listing::{each_listed, each_shown, listed_resources, show_allowed, ListedFile, ListedFileView};
use crate::permissions::{
    domain_allowed_with_confirmation, is_outcome, str_view, Confirmed, ConfirmationAsker,
    PermissionConfig, PermissionConfigView,
};
use crate::resource::{Resource, ResourceView};
use crate::text::owned;

verus! {

pub open spec fn document_extensions() -> Seq<Seq<char>> {
    seq!["pdf"@, "docx"@, "txt"@, "md"@, "odt"@]
}

/// The documents of a listing.
pub open spec fn documents(dir: Seq<char>, files: Seq<ListedFileView>) -> Seq<ResourceView> {
    files.filter_map(each_listed(dir, "document"@, "documents"@, document_extensions()))
}

/// The documents of a listing with the attributes that may be shown.
pub open spec fn permitted_documents(
    cfg: PermissionConfigView,
    dir: Seq<char>,
    files: Seq<ListedFileView>,
) -> Seq<ResourceView> {
    documents(dir, files).map_values(each_shown(cfg, "documents"@))
}

fn extensions() -> (r: Vec<String>)
    ensures
        r.deep_view() == document_extensions(),
{
    let mut v: Vec<String> = Vec::new();
    v.push(owned("pdf"));
    v.push(owned("docx"));
    v.push(owned("txt"));
    v.push(owned("md"));
    v.push(owned("odt"));
    assert(v.deep_view() =~= document_extensions());
    v
}

/// Every document of a flat listing of `dir`, without asking for permission.
pub fn scan(dir: &str, files: &Vec<ListedFile>) -> (r: Vec<Resource>)
    ensures
        r.deep_view() == documents(dir@, files.deep_view()),
{
    listed_resources(dir, "document", "documents", &extensions(), files)
}

/// The documents with the attributes that may be shown.
pub fn permitted(cfg: &PermissionConfig, dir: &str, files: &Vec<ListedFile>) -> (r: Vec<Resource>)
    ensures
        r.deep_view() == permitted_documents(cfg.deep_view(), dir@, files.deep_view()),
{
    show_allowed(cfg, "documents", scan(dir, files))
}

/// Asks whether documents may be looked at, and looks if they may. The listing
/// is not touched otherwise.
pub fn scan_if_allowed<A: ConfirmationAsker>(
    cfg: &PermissionConfig,
    confirmations: Option<&str>,
    dir: &str,
    files: &Vec<ListedFile>,
    asker: &A,
) -> (r: (Confirmed, Vec<Resource>))
    ensures
        is_outcome(cfg.deep_view(), str_view(confirmations), "documents"@, asker, r.0),
        r.1.deep_view() == (if r.0.allowed {
            permitted_documents(cfg.deep_view(), dir@, files.deep_view())
        } else {
            seq![]
        }),
{
    let gate = domain_allowed_with_confirmation(cfg, confirmations, "documents", asker);
    if !gate.allowed {
        let none: Vec<Resource> = Vec::new();
        assert(none.deep_view() =~= seq![]);
        return (gate, none);
    }
    (gate, permitted(cfg, dir, files))
}

} // verus!
