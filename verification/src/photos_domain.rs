//! Photos in a directory that somebody named: never more than the listing
//! says.
use vstd::prelude::*;
use crate::listing::{each_listed, each_shown, listed_resources, show_allowed, ListedFile, ListedFileView};
use crate::permissions::{
    domain_allowed_with_confirmation, is_outcome, str_view, Confirmed, ConfirmationAsker,
    PermissionConfig, PermissionConfigView,
};
use crate::resource::{Resource, ResourceView};
use crate::text::owned;

verus! {

pub open spec fn photo_extensions() -> Seq<Seq<char>> {
    seq!["jpg"@, "jpeg"@, "png"@, "gif"@, "heic"@, "webp"@]
}

/// The photos of a listing.
pub open spec fn photos(dir: Seq<char>, files: Seq<ListedFileView>) -> Seq<ResourceView> {
    files.filter_map(each_listed(dir, "photo"@, "photos"@, photo_extensions()))
}

/// The photos of a listing with the attributes that may be shown.
pub open spec fn permitted_photos(
    cfg: PermissionConfigView,
    dir: Seq<char>,
    files: Seq<ListedFileView>,
) -> Seq<ResourceView> {
    photos(dir, files).map_values(each_shown(cfg, "photos"@))
}

fn extensions() -> (r: Vec<String>)
    ensures
        r.deep_view() == photo_extensions(),
{
    let mut v: Vec<String> = Vec::new();
    v.push(owned("jpg"));
    v.push(owned("jpeg"));
    v.push(owned("png"));
    v.push(owned("gif"));
    v.push(owned("heic"));
    v.push(owned("webp"));
    assert(v.deep_view() =~= photo_extensions());
    v
}

/// Every photo of a flat listing of `dir`, without asking for permission.
pub fn scan(dir: &str, files: &Vec<ListedFile>) -> (r: Vec<Resource>)
    ensures
        r.deep_view() == photos(dir@, files.deep_view()),
{
    listed_resources(dir, "photo", "photos", &extensions(), files)
}

/// The photos with the attributes that may be shown.
pub fn permitted(cfg: &PermissionConfig, dir: &str, files: &Vec<ListedFile>) -> (r: Vec<Resource>)
    ensures
        r.deep_view() == permitted_photos(cfg.deep_view(), dir@, files.deep_view()),
{
    show_allowed(cfg, "photos", scan(dir, files))
}

/// Asks whether photos may be looked at, and looks if they may. The listing
/// is not touched otherwise.
pub fn scan_if_allowed<A: ConfirmationAsker>(
    cfg: &PermissionConfig,
    confirmations: Option<&str>,
    dir: &str,
    files: &Vec<ListedFile>,
    asker: &A,
) -> (r: (Confirmed, Vec<Resource>))
    ensures
        is_outcome(cfg.deep_view(), str_view(confirmations), "photos"@, asker, r.0),
        r.1.deep_view() == (if r.0.allowed {
            permitted_photos(cfg.deep_view(), dir@, files.deep_view())
        } else {
            seq![]
        }),
{
    let gate = domain_allowed_with_confirmation(cfg, confirmations, "photos", asker);
    if !gate.allowed {
        let none: Vec<Resource> = Vec::new();
        assert(none.deep_view() =~= seq![]);
        return (gate, none);
    }
    (gate, permitted(cfg, dir, files))
}

} // verus!
