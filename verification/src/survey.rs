//! Views of a whole repository: its state, a tour for newcomers, suspected
//! duplicates and what to do next.
use vstd::prelude::*;
use crate::model::{
    answers_to, first_of, name_tokens, names_concept, shortened, tokens, Concept, ConceptView,
    Decision, DecisionView, Evidence, EvidenceView, Index, IndexView, Tier,
};
use crate::order::{in_order, stable_sort, Ranked};
use crate::ownership::{tally, tally_of, Count};
use crate::permissions::{domain_allowed, is_domain_allowed, PermissionConfig};
use crate::resource::{Identity, Relationship, RelationshipView, Resource, ResourceView};
use crate::scoring::{is_modelled, modelled};
use crate::table::{copied_pairs, lookup, TextMap};
use crate::text::{ends_with, strip_prefix, words};
use crate::text::{after_prefix, ends, owned, same, words_of};

verus! {

// ---------------------------------------------------------------------------
// Use
// ---------------------------------------------------------------------------

pub open spec fn each_unused() -> spec_fn((Seq<char>, ConceptView)) -> Option<Seq<char>> {
    |e: (Seq<char>, ConceptView)|
        if e.1.usage.len() == 0 {
            Some(e.0)
        } else {
            None
        }
}

/// The concepts that nothing was seen to use.
pub open spec fn unused(idx: IndexView) -> Seq<Seq<char>> {
    idx.concepts.filter_map(each_unused())
}

pub open spec fn declares_storage(c: ConceptView) -> bool {
    exists|i: int|
        0 <= i < c.declared_in.len() && (#[trigger] c.declared_in[i]).1 != "prisma-enum"@
}

pub open spec fn each_dead() -> spec_fn((Seq<char>, ConceptView)) -> Option<Seq<char>> {
    |e: (Seq<char>, ConceptView)|
        if e.1.usage.len() == 0 && declares_storage(e.1) {
            Some(e.0)
        } else {
            None
        }
}

fn is_stored(c: &Concept) -> (r: bool)
    ensures
        r == declares_storage(c.deep_view()),
{
    let mut i: usize = 0;
    while i < c.declared_in.len()
        invariant
            i <= c.declared_in.len(),
            forall|j: int|
                0 <= j < i ==> (#[trigger] c.deep_view().declared_in[j]).1 == "prisma-enum"@,
        decreases c.declared_in.len() - i,
    {
        assert(c.deep_view().declared_in[i as int].1 == c.declared_in[i as int].1@);
        if !same(c.declared_in[i].1.as_str(), "prisma-enum") {
            return true;
        }
        i += 1;
    }
    false
}

fn unused_of(idx: &Index) -> (r: Vec<String>)
    ensures
        r.deep_view() == unused(idx.deep_view()),
{
    let ghost all = idx.concepts.deep_view();
    let ghost f = each_unused();
    let n: usize = idx.concepts.len();
    let mut out: Vec<String> = Vec::new();
    let mut i: usize = 0;
    proof {
        assert(all.take(0) =~= seq![]);
        reveal(Seq::filter_map);
    }
    while i < n
        invariant
            i <= n,
            n == all.len(),
            all == idx.concepts.deep_view(),
            f == each_unused(),
            out.deep_view() =~= all.take(i as int).filter_map(f),
        decreases n - i,
    {
        let ghost so_far = out.deep_view();
        proof {
            all.lemma_filter_map_take_succ(f, i as int);
        }
        let c = idx.concepts.value(i);
        assert(c.deep_view().usage.len() == c.usage@.len());
        if c.usage.len() == 0 {
            let k = idx.concepts.key(i);
            out.push(owned(k));
            assert(out.deep_view() =~= so_far.push(k@));
        }
        i += 1;
    }
    assert(all.take(i as int) =~= all);
    out
}

/// The stored concepts that nothing was seen to use.
pub fn dead_of(idx: &Index) -> (r: Vec<String>)
    ensures
        r.deep_view() == idx.deep_view().concepts.filter_map(each_dead()),
{
    let ghost all = idx.concepts.deep_view();
    let ghost f = each_dead();
    let n: usize = idx.concepts.len();
    let mut out: Vec<String> = Vec::new();
    let mut i: usize = 0;
    proof {
        assert(all.take(0) =~= seq![]);
        reveal(Seq::filter_map);
    }
    while i < n
        invariant
            i <= n,
            n == all.len(),
            all == idx.concepts.deep_view(),
            f == each_dead(),
            out.deep_view() =~= all.take(i as int).filter_map(f),
        decreases n - i,
    {
        let ghost so_far = out.deep_view();
        proof {
            all.lemma_filter_map_take_succ(f, i as int);
        }
        let c = idx.concepts.value(i);
        assert(c.deep_view().usage.len() == c.usage@.len());
        if c.usage.len() == 0 && is_stored(c) {
            let k = idx.concepts.key(i);
            out.push(owned(k));
            assert(out.deep_view() =~= so_far.push(k@));
        }
        i += 1;
    }
    assert(all.take(i as int) =~= all);
    out
}

/// A concept with the number of its uses.
#[derive(Debug)]
pub struct UseCount {
    pub name: String,
    pub uses: usize,
}

pub struct UseCountView {
    pub name: Seq<char>,
    pub uses: nat,
}

impl DeepView for UseCount {
    type V = UseCountView;

    open spec fn deep_view(&self) -> UseCountView {
        UseCountView { name: self.name@, uses: self.uses as nat }
    }
}

impl Ranked for UseCount {
    open spec fn leads(a: UseCountView, b: UseCountView) -> bool {
        a.uses > b.uses
    }

    fn goes_before(&self, other: &Self) -> (r: bool) {
        self.uses > other.uses
    }
}

pub open spec fn each_use_count() -> spec_fn((Seq<char>, ConceptView)) -> UseCountView {
    |e: (Seq<char>, ConceptView)| UseCountView { name: e.0, uses: e.1.usage.len() }
}

/// All concepts, the most used first.
pub open spec fn most_used(idx: IndexView) -> Seq<UseCountView> {
    stable_sort::<UseCount>(idx.concepts.map_values(each_use_count()))
}

fn most_used_of(idx: &Index) -> (r: Vec<UseCount>)
    ensures
        r.deep_view() == most_used(idx.deep_view()),
{
    let ghost all = idx.concepts.deep_view().map_values(each_use_count());
    let n: usize = idx.concepts.len();
    let mut out: Vec<UseCount> = Vec::new();
    let mut i: usize = 0;
    while i < n
        invariant
            i <= n,
            n == idx.concepts.deep_view().len(),
            all == idx.concepts.deep_view().map_values(each_use_count()),
            out.deep_view() =~= all.take(i as int),
        decreases n - i,
    {
        let ghost so_far = out.deep_view();
        let c = idx.concepts.value(i);
        assert(c.deep_view().usage.len() == c.usage@.len());
        let x = UseCount { name: owned(idx.concepts.key(i)), uses: c.usage.len() };
        assert(x.deep_view() == all[i as int]);
        out.push(x);
        assert(out.deep_view() =~= so_far.push(all[i as int]));
        i += 1;
    }
    assert(all.take(i as int) =~= all);
    in_order(out)
}

// ---------------------------------------------------------------------------
// State
// ---------------------------------------------------------------------------

/// What an index holds, in numbers, and what nothing uses.
#[derive(Debug)]
pub struct Status {
    pub root: String,
    pub files_scanned: usize,
    pub declaration_files: Vec<(String, String)>,
    pub concepts_declared: usize,
    pub concepts_with_observed_usage: usize,
    pub declared_but_never_observed_in_use: Vec<String>,
}

pub struct StatusView {
    pub root: Seq<char>,
    pub files_scanned: int,
    pub declaration_files: Seq<(Seq<char>, Seq<char>)>,
    pub concepts_declared: int,
    pub concepts_with_observed_usage: int,
    pub declared_but_never_observed_in_use: Seq<Seq<char>>,
}

impl DeepView for Status {
    type V = StatusView;

    open spec fn deep_view(&self) -> StatusView {
        StatusView {
            root: self.root@,
            files_scanned: self.files_scanned as int,
            declaration_files: self.declaration_files.deep_view(),
            concepts_declared: self.concepts_declared as int,
            concepts_with_observed_usage: self.concepts_with_observed_usage as int,
            declared_but_never_observed_in_use: self.declared_but_never_observed_in_use.deep_view(),
        }
    }
}

pub open spec fn status_of(idx: IndexView) -> StatusView {
    StatusView {
        root: idx.root,
        files_scanned: idx.files_scanned,
        declaration_files: idx.declaration_files,
        concepts_declared: idx.concepts.len() as int,
        concepts_with_observed_usage: idx.concepts.len() - unused(idx).len(),
        declared_but_never_observed_in_use: first_of(idx.concepts.filter_map(each_dead()), 25),
    }
}

proof fn lemma_filter_map_shorter<A, B>(s: Seq<A>, f: spec_fn(A) -> Option<B>)
    ensures
        s.filter_map(f).len() <= s.len(),
    decreases s.len(),
{
    if s.len() > 0 {
        s.lemma_filter_map_take_succ(f, s.len() - 1);
        assert(s.take(s.len() as int) =~= s);
        lemma_filter_map_shorter(s.take(s.len() - 1), f);
    } else {
        reveal(Seq::filter_map);
    }
}

/// What an index holds: how many concepts, how many of them used, and the first
/// of those that nothing was seen to use.
pub fn status(idx: &Index) -> (r: Status)
    ensures
        r.deep_view() == status_of(idx.deep_view()),
{
    let idle = unused_of(idx);
    proof {
        lemma_filter_map_shorter(idx.deep_view().concepts, each_unused());
    }
    assert(idle.deep_view().len() == idle@.len());
    let n: usize = idx.concepts.len();
    Status {
        root: owned(idx.root.as_str()),
        files_scanned: idx.files_scanned,
        declaration_files: copied_pairs(&idx.declaration_files),
        concepts_declared: n,
        concepts_with_observed_usage: n - idle.len(),
        declared_but_never_observed_in_use: shortened(dead_of(idx), 25),
    }
}

/// Whether an index outlives the scan that made it.
pub fn index_freshness(persisted: bool) -> (r: &'static str)
    ensures
        r@ == (if persisted {
            "current (incremental)"@
        } else {
            "not persisted (this scan ran in-memory)"@
        }),
{
    if persisted {
        "current (incremental)"
    } else {
        "not persisted (this scan ran in-memory)"
    }
}

// ---------------------------------------------------------------------------
// Links between domains
// ---------------------------------------------------------------------------

/// The first resource of a kind from `i` on.
pub open spec fn kind_from(list: Seq<ResourceView>, kind: Seq<char>, i: int) -> Option<ResourceView>
    decreases list.len() - i,
{
    if i < 0 || i >= list.len() {
        None
    } else if list[i].kind == kind {
        Some(list[i])
    } else {
        kind_from(list, kind, i + 1)
    }
}

pub open spec fn same_project_link(root: Seq<char>, repo: ResourceView) -> RelationshipView {
    RelationshipView {
        from: repo.id,
        kind: "same_project_as"@,
        to: root,
        evidence: EvidenceView {
            tier: Tier::Declared,
            what: "'"@ + repo.id + "' (git domain) and the code resources scanned at '"@ + root
                + "' were extracted from the same root path — a shared location, not a name match"@,
        },
    }
}

/// The link from a repository to the code beside it, where both are there and
/// the domain may be read.
pub open spec fn same_project_links(
    idx: IndexView,
    git_allowed: bool,
    git: Seq<ResourceView>,
) -> Seq<RelationshipView> {
    match kind_from(git, "git_repository"@, 0) {
        Some(repo) => if git_allowed && idx.files_scanned > 0 {
            seq![same_project_link(idx.root, repo)]
        } else {
            seq![]
        },
        None => seq![],
    }
}

/// The link from a repository to the code that was scanned at the same root.
/// `git` are the resources of the git domain.
pub fn same_project_relationships(idx: &Index, cfg: &PermissionConfig, git: &Vec<Resource>) -> (r: Vec<
    Relationship,
>)
    ensures
        r.deep_view() == same_project_links(
            idx.deep_view(),
            is_domain_allowed(cfg.deep_view(), "git"@),
            git.deep_view(),
        ),
{
    let ghost gv = git.deep_view();
    let mut out: Vec<Relationship> = Vec::new();
    assert(out.deep_view() =~= seq![]);
    if !domain_allowed(cfg, "git") || idx.files_scanned == 0 {
        return out;
    }
    let mut i: usize = 0;
    while i < git.len()
        invariant
            i <= git.len(),
            gv == git.deep_view(),
            out.deep_view() =~= seq![],
            out@.len() == 0,
            idx.files_scanned > 0,
            is_domain_allowed(cfg.deep_view(), "git"@),
            kind_from(gv, "git_repository"@, 0) == kind_from(gv, "git_repository"@, i as int),
        decreases git.len() - i,
    {
        let repo = &git[i];
        assert(gv[i as int] == repo.deep_view());
        if same(repo.kind.as_str(), "git_repository") {
            let mut what = owned("'");
            what.append(repo.id.0.as_str());
            what.append("' (git domain) and the code resources scanned at '");
            what.append(idx.root.as_str());
            what.append(
                "' were extracted from the same root path — a shared location, not a name match",
            );
            let link = Relationship {
                from: Identity(owned(repo.id.0.as_str())),
                kind: owned("same_project_as"),
                to: Identity(owned(idx.root.as_str())),
                evidence: Evidence { tier: Tier::Declared, what },
            };
            assert(link.deep_view() == same_project_link(idx.root@, repo.deep_view()));
            let ghost lv = link.deep_view();
            out.push(link);
            assert(out.deep_view() =~= seq![lv]);
            return out;
        }
        i += 1;
    }
    out
}

/// What a path leads to on disk, with all links followed.
#[derive(Debug)]
pub struct Place {
    pub path: String,
    pub is_dir: bool,
}

pub struct PlaceView {
    pub path: Seq<char>,
    pub is_dir: bool,
}

impl DeepView for Place {
    type V = PlaceView;

    open spec fn deep_view(&self) -> PlaceView {
        PlaceView { path: self.path@, is_dir: self.is_dir }
    }
}

pub open spec fn with_slash(dir: Seq<char>) -> Seq<char> {
    if ends_with(dir, "/"@) {
        dir
    } else {
        dir + "/"@
    }
}

/// The path of a directory strictly below a root, from there.
pub open spec fn inner_path(root: Seq<char>, p: PlaceView) -> Option<Seq<char>> {
    match strip_prefix(p.path, with_slash(root)) {
        Some(rest) => if p.is_dir && rest.len() > 0 {
            Some(rest)
        } else {
            None
        },
        None => None,
    }
}

pub open spec fn each_built_from(root: Seq<char>, places: Seq<(Seq<char>, PlaceView)>) -> spec_fn(
    ResourceView,
) -> Option<RelationshipView> {
    |r: ResourceView|
        if r.kind != "docker_service"@ {
            None
        } else {
            match lookup(r.attributes, "build_context"@) {
                None => None,
                Some(context) => match lookup(places, context) {
                    None => None,
                    Some(p) => match inner_path(root, p) {
                        None => None,
                        Some(rest) => Some(
                            RelationshipView {
                                from: r.id,
                                kind: "built_from"@,
                                to: rest,
                                evidence: EvidenceView {
                                    tier: Tier::Declared,
                                    what: "'"@ + r.id + "' declares build.context '"@ + context
                                        + "' in "@ + r.file
                                        + ", which resolves to the real, existing directory '"@
                                        + rest + "' under this project's root"@,
                                },
                            },
                        ),
                    },
                },
            }
        }
}

pub open spec fn built_from_links(
    docker_allowed: bool,
    root: Option<Seq<char>>,
    docker: Seq<ResourceView>,
    places: Seq<(Seq<char>, PlaceView)>,
) -> Seq<RelationshipView> {
    match root {
        Some(r) => if docker_allowed {
            docker.filter_map(each_built_from(r, places))
        } else {
            seq![]
        },
        None => seq![],
    }
}

fn inner_path_of(root: &str, p: &Place) -> (r: Option<String>)
    ensures
        r.deep_view() == inner_path(root@, p.deep_view()),
{
    let mut head = owned(root);
    if !ends(root, "/") {
        head.append("/");
    }
    match after_prefix(p.path.as_str(), head.as_str()) {
        Some(rest) => if p.is_dir && !rest.as_str().is_empty() {
            Some(rest)
        } else {
            None
        },
        None => None,
    }
}

fn built_from(root: &str, places: &TextMap<Place>, r: &Resource) -> (out: Option<Relationship>)
    ensures
        out.deep_view() == each_built_from(root@, places.deep_view())(r.deep_view()),
{
    if !same(r.kind.as_str(), "docker_service") {
        return None;
    }
    let context = match r.attributes.get("build_context") {
        Some(c) => c.as_str(),
        None => {
            return None;
        },
    };
    let place = match places.get(context) {
        Some(p) => p,
        None => {
            return None;
        },
    };
    let rest = match inner_path_of(root, place) {
        Some(p) => p,
        None => {
            return None;
        },
    };
    let mut what = owned("'");
    what.append(r.id.0.as_str());
    what.append("' declares build.context '");
    what.append(context);
    what.append("' in ");
    what.append(r.location.file.as_str());
    what.append(", which resolves to the real, existing directory '");
    what.append(rest.as_str());
    what.append("' under this project's root");
    Some(
        Relationship {
            from: Identity(owned(r.id.0.as_str())),
            kind: owned("built_from"),
            to: Identity(rest),
            evidence: Evidence { tier: Tier::Declared, what },
        },
    )
}

/// The links from services to the directories they are built from. `root` is the
/// project's root with all links followed, `places` what each build context
/// leads to; a context that leads nowhere, to the root itself or out of it
/// links to nothing.
pub fn built_from_relationships(
    cfg: &PermissionConfig,
    root: Option<&str>,
    docker: &Vec<Resource>,
    places: &TextMap<Place>,
) -> (r: Vec<Relationship>)
    ensures
        r.deep_view() == built_from_links(
            is_domain_allowed(cfg.deep_view(), "docker"@),
            match root {
                Some(p) => Some(p@),
                None => None,
            },
            docker.deep_view(),
            places.deep_view(),
        ),
{
    let mut out: Vec<Relationship> = Vec::new();
    assert(out.deep_view() =~= seq![]);
    let base = match root {
        Some(p) => p,
        None => {
            return out;
        },
    };
    if !domain_allowed(cfg, "docker") {
        return out;
    }
    let ghost all = docker.deep_view();
    let ghost f = each_built_from(base@, places.deep_view());
    let mut i: usize = 0;
    proof {
        assert(all.take(0) =~= seq![]);
        reveal(Seq::filter_map);
    }
    while i < docker.len()
        invariant
            i <= docker.len(),
            all == docker.deep_view(),
            f == each_built_from(base@, places.deep_view()),
            out.deep_view() =~= all.take(i as int).filter_map(f),
        decreases docker.len() - i,
    {
        let ghost so_far = out.deep_view();
        proof {
            all.lemma_filter_map_take_succ(f, i as int);
        }
        assert(all[i as int] == docker[i as int].deep_view());
        if let Some(link) = built_from(base, places, &docker[i]) {
            let ghost lv = link.deep_view();
            out.push(link);
            assert(out.deep_view() =~= so_far.push(lv));
        }
        i += 1;
    }
    assert(all.take(i as int) =~= all);
    out
}

/// What a domain holds, or that it may not be read.
#[derive(Debug)]
pub struct Section {
    pub enabled: bool,
    pub resources: Vec<Resource>,
    pub note: Option<String>,
}

/// A domain's part of the status: a domain that may not be read says so, and
/// shows nothing.
pub fn domain_section(cfg: &PermissionConfig, domain: &str, resources: Vec<Resource>) -> (r: Section)
    ensures
        r.enabled == is_domain_allowed(cfg.deep_view(), domain@),
        r.resources.deep_view() == (if r.enabled {
            resources.deep_view()
        } else {
            seq![]
        }),
        r.note.deep_view() == (if r.enabled {
            None
        } else {
            Some(
                "the '"@ + domain@
                    + "' domain is disabled by permission config — see `archietect permissions`"@,
            )
        }),
{
    if domain_allowed(cfg, domain) {
        Section { enabled: true, resources, note: None }
    } else {
        let none: Vec<Resource> = Vec::new();
        assert(none.deep_view() =~= seq![]);
        let mut note = owned("the '");
        note.append(domain);
        note.append("' domain is disabled by permission config — see `archietect permissions`");
        Section { enabled: false, resources: none, note: Some(note) }
    }
}

// ---------------------------------------------------------------------------
// For newcomers
// ---------------------------------------------------------------------------

/// A summary of a repository.
#[derive(Debug)]
pub struct Checkup {
    /// How many declaration files each directory holds.
    pub domains: TextMap<Count>,
    pub top_concepts: Vec<UseCount>,
    pub declared_but_never_observed_in_use: Vec<String>,
    /// Id and text of each decision.
    pub things_to_read: Vec<(String, String)>,
    pub concepts: usize,
    pub files_scanned: usize,
    pub declared_decisions: usize,
    pub declared_aliases: usize,
}

pub struct CheckupView {
    pub domains: Seq<(Seq<char>, nat)>,
    pub top_concepts: Seq<UseCountView>,
    pub declared_but_never_observed_in_use: Seq<Seq<char>>,
    pub things_to_read: Seq<(Seq<char>, Seq<char>)>,
    pub concepts: int,
    pub files_scanned: int,
    pub declared_decisions: int,
    pub declared_aliases: int,
}

impl DeepView for Checkup {
    type V = CheckupView;

    open spec fn deep_view(&self) -> CheckupView {
        CheckupView {
            domains: self.domains.deep_view(),
            top_concepts: self.top_concepts.deep_view(),
            declared_but_never_observed_in_use: self.declared_but_never_observed_in_use.deep_view(),
            things_to_read: self.things_to_read.deep_view(),
            concepts: self.concepts as int,
            files_scanned: self.files_scanned as int,
            declared_decisions: self.declared_decisions as int,
            declared_aliases: self.declared_aliases as int,
        }
    }
}

pub open spec fn each_title() -> spec_fn(DecisionView) -> (Seq<char>, Seq<char>) {
    |d: DecisionView| (d.id, d.decision)
}

pub open spec fn checkup(idx: IndexView) -> CheckupView {
    CheckupView {
        domains: tally(idx.declaration_files),
        top_concepts: first_of(most_used(idx), 10),
        declared_but_never_observed_in_use: first_of(unused(idx), 15),
        things_to_read: idx.decisions.map_values(each_title()),
        concepts: idx.concepts.len() as int,
        files_scanned: idx.files_scanned,
        declared_decisions: idx.decisions.len() as int,
        declared_aliases: idx.aliases.len() as int,
    }
}

fn titles(list: &Vec<Decision>) -> (r: Vec<(String, String)>)
    ensures
        r.deep_view() == list.deep_view().map_values(each_title()),
{
    let ghost all = list.deep_view().map_values(each_title());
    let mut out: Vec<(String, String)> = Vec::new();
    let mut i: usize = 0;
    while i < list.len()
        invariant
            i <= list.len(),
            all == list.deep_view().map_values(each_title()),
            out.deep_view() =~= all.take(i as int),
        decreases list.len() - i,
    {
        let ghost so_far = out.deep_view();
        assert(list.deep_view()[i as int] == list[i as int].deep_view());
        out.push((owned(list[i].id.as_str()), owned(list[i].decision.as_str())));
        assert(out.deep_view() =~= so_far.push(all[i as int]));
        i += 1;
    }
    assert(all.take(i as int) =~= all);
    out
}

/// A summary for somebody who has just cloned a repository.
pub fn doctor(idx: &Index) -> (r: Checkup)
    ensures
        r.deep_view() == checkup(idx.deep_view()),
{
    Checkup {
        domains: tally_of(&idx.declaration_files),
        top_concepts: shortened(most_used_of(idx), 10),
        declared_but_never_observed_in_use: shortened(unused_of(idx), 15),
        things_to_read: titles(&idx.decisions),
        concepts: idx.concepts.len(),
        files_scanned: idx.files_scanned,
        declared_decisions: idx.decisions.len(),
        declared_aliases: idx.aliases.len(),
    }
}

/// What somebody new to a repository should know.
#[derive(Debug)]
pub struct Tour {
    pub important_concepts: Vec<UseCount>,
    pub probably_ignorable: Vec<String>,
    pub common_mistakes: Vec<String>,
    pub decisions_to_read: Vec<(String, String)>,
    pub estimated_reading_minutes: u128,
}

pub struct TourView {
    pub important_concepts: Seq<UseCountView>,
    pub probably_ignorable: Seq<Seq<char>>,
    pub common_mistakes: Seq<Seq<char>>,
    pub decisions_to_read: Seq<(Seq<char>, Seq<char>)>,
    pub estimated_reading_minutes: int,
}

impl DeepView for Tour {
    type V = TourView;

    open spec fn deep_view(&self) -> TourView {
        TourView {
            important_concepts: self.important_concepts.deep_view(),
            probably_ignorable: self.probably_ignorable.deep_view(),
            common_mistakes: self.common_mistakes.deep_view(),
            decisions_to_read: self.decisions_to_read.deep_view(),
            estimated_reading_minutes: self.estimated_reading_minutes as int,
        }
    }
}

pub open spec fn each_alias_mistake() -> spec_fn((Seq<char>, Seq<char>)) -> Seq<char> {
    |e: (Seq<char>, Seq<char>)|
        "Don't create '"@ + e.0 + "' — '"@ + e.1
            + "' already owns that responsibility (declared alias)."@
}

pub open spec fn each_road_taken(d: DecisionView) -> spec_fn(Seq<char>) -> Seq<char> {
    |r: Seq<char>|
        "Don't build '"@ + r + "' — considered and rejected in decision '"@ + d.id + "': "@
            + d.decision
}

/// What the next person is about to propose: everything that was rejected.
pub open spec fn rejected_roads(decisions: Seq<DecisionView>) -> Seq<Seq<char>>
    decreases decisions.len(),
{
    if decisions.len() == 0 {
        seq![]
    } else {
        rejected_roads(decisions.drop_last()) + decisions.last().rejected.map_values(
            each_road_taken(decisions.last()),
        )
    }
}

pub open spec fn words_to_read(decisions: Seq<DecisionView>) -> nat
    decreases decisions.len(),
{
    if decisions.len() == 0 {
        0
    } else {
        words_to_read(decisions.drop_last()) + words(decisions.last().decision).len() + words(
            decisions.last().because,
        ).len()
    }
}

/// Whole minutes at two hundred words a minute, at least one.
pub open spec fn reading_minutes(words: nat) -> int {
    if words / 200 < 1 {
        1
    } else {
        (words / 200) as int
    }
}

pub open spec fn tour_of(idx: IndexView) -> TourView {
    TourView {
        important_concepts: first_of(most_used(idx), 8),
        probably_ignorable: first_of(unused(idx), 10),
        common_mistakes: idx.aliases.map_values(each_alias_mistake()) + rejected_roads(
            idx.decisions,
        ),
        decisions_to_read: idx.decisions.map_values(each_title()),
        estimated_reading_minutes: reading_minutes(words_to_read(idx.decisions)),
    }
}

fn alias_mistakes(idx: &Index) -> (r: Vec<String>)
    ensures
        r.deep_view() == idx.deep_view().aliases.map_values(each_alias_mistake()),
{
    let ghost all = idx.aliases.deep_view().map_values(each_alias_mistake());
    let n: usize = idx.aliases.len();
    let mut out: Vec<String> = Vec::new();
    let mut i: usize = 0;
    while i < n
        invariant
            i <= n,
            n == idx.aliases.deep_view().len(),
            all == idx.aliases.deep_view().map_values(each_alias_mistake()),
            out.deep_view() =~= all.take(i as int),
        decreases n - i,
    {
        let ghost so_far = out.deep_view();
        let mut x = owned("Don't create '");
        x.append(idx.aliases.key(i));
        x.append("' — '");
        x.append(idx.aliases.value(i).as_str());
        x.append("' already owns that responsibility (declared alias).");
        assert(x@ == all[i as int]);
        out.push(x);
        assert(out.deep_view() =~= so_far.push(all[i as int]));
        i += 1;
    }
    assert(all.take(i as int) =~= all);
    out
}

fn add_roads(out: &mut Vec<String>, d: &Decision)
    ensures
        final(out).deep_view() == old(out).deep_view() + d.deep_view().rejected.map_values(
            each_road_taken(d.deep_view()),
        ),
{
    let ghost start = out.deep_view();
    let ghost all = d.deep_view().rejected.map_values(each_road_taken(d.deep_view()));
    let mut i: usize = 0;
    assert(start + all.take(0) =~= start);
    while i < d.rejected.len()
        invariant
            i <= d.rejected.len(),
            all == d.deep_view().rejected.map_values(each_road_taken(d.deep_view())),
            out.deep_view() =~= start + all.take(i as int),
        decreases d.rejected.len() - i,
    {
        let ghost so_far = out.deep_view();
        assert(d.deep_view().rejected[i as int] == d.rejected[i as int]@);
        let mut x = owned("Don't build '");
        x.append(d.rejected[i].as_str());
        x.append("' — considered and rejected in decision '");
        x.append(d.id.as_str());
        x.append("': ");
        x.append(d.decision.as_str());
        assert(x@ == all[i as int]);
        out.push(x);
        assert(out.deep_view() =~= so_far.push(all[i as int]));
        i += 1;
    }
    assert(all.take(i as int) =~= all);
}

fn minutes_for(decisions: &Vec<Decision>) -> (r: u128)
    ensures
        r == reading_minutes(words_to_read(decisions.deep_view())),
{
    let ghost dv = decisions.deep_view();
    let mut whole: u128 = 0;
    let mut rest: u128 = 0;
    let mut i: usize = 0;
    while i < decisions.len()
        invariant
            i <= decisions.len(),
            dv == decisions.deep_view(),
            rest < 200,
            whole * 200 + rest == words_to_read(dv.take(i as int)),
            whole <= i * 0x400_0000_0000_0000,
        decreases decisions.len() - i,
    {
        proof {
            let step = dv.take(i + 1);
            assert(step.drop_last() =~= dv.take(i as int));
            assert(step.last() == decisions[i as int].deep_view());
        }
        let a = words_of(decisions[i].decision.as_str());
        let b = words_of(decisions[i].because.as_str());
        assert(a.deep_view().len() == a@.len());
        assert(b.deep_view().len() == b@.len());
        let more: u128 = rest + a.len() as u128 + b.len() as u128;
        whole = whole + more / 200;
        rest = more % 200;
        i += 1;
    }
    assert(dv.take(i as int) =~= dv);
    if whole < 1 {
        1
    } else {
        whole
    }
}

/// What somebody new should know: what matters, what to leave alone, and the
/// mistakes that are about to be made.
pub fn tour(idx: &Index) -> (r: Tour)
    ensures
        r.deep_view() == tour_of(idx.deep_view()),
{
    let ghost dv = idx.decisions.deep_view();
    let ghost start = idx.deep_view().aliases.map_values(each_alias_mistake());
    let mut common_mistakes = alias_mistakes(idx);
    let mut i: usize = 0;
    assert(start + rejected_roads(dv.take(0)) =~= start);
    while i < idx.decisions.len()
        invariant
            i <= idx.decisions.len(),
            dv == idx.decisions.deep_view(),
            common_mistakes.deep_view() =~= start + rejected_roads(dv.take(i as int)),
        decreases idx.decisions.len() - i,
    {
        proof {
            let step = dv.take(i + 1);
            assert(step.drop_last() =~= dv.take(i as int));
            assert(step.last() == idx.decisions[i as int].deep_view());
        }
        add_roads(&mut common_mistakes, &idx.decisions[i]);
        i += 1;
    }
    assert(dv.take(i as int) =~= dv);
    Tour {
        important_concepts: shortened(most_used_of(idx), 8),
        probably_ignorable: shortened(unused_of(idx), 10),
        common_mistakes,
        decisions_to_read: titles(&idx.decisions),
        estimated_reading_minutes: minutes_for(&idx.decisions),
    }
}

// ---------------------------------------------------------------------------
// Duplicates
// ---------------------------------------------------------------------------

/// Two stored concepts that share a token.
#[derive(Debug)]
pub struct Pair {
    pub first: String,
    pub second: String,
    pub shared_token: String,
    pub first_declared: Option<(String, String)>,
    pub second_declared: Option<(String, String)>,
    /// One is a model and the other a bare table: probably one concept that
    /// nothing links.
    pub unlinked: bool,
}

pub struct PairView {
    pub first: Seq<char>,
    pub second: Seq<char>,
    pub shared_token: Seq<char>,
    pub first_declared: Option<(Seq<char>, Seq<char>)>,
    pub second_declared: Option<(Seq<char>, Seq<char>)>,
    pub unlinked: bool,
}

impl DeepView for Pair {
    type V = PairView;

    open spec fn deep_view(&self) -> PairView {
        PairView {
            first: self.first@,
            second: self.second@,
            shared_token: self.shared_token@,
            first_declared: self.first_declared.deep_view(),
            second_declared: self.second_declared.deep_view(),
            unlinked: self.unlinked,
        }
    }
}

/// The first token from `i` on that another name answers to.
pub open spec fn shared_from(toks: Seq<Seq<char>>, other: Seq<char>, i: int) -> Option<Seq<char>>
    decreases toks.len() - i,
{
    if i < 0 || i >= toks.len() {
        None
    } else if toks[i].len() >= 5 && answers_to(other, toks[i]) {
        Some(toks[i])
    } else {
        shared_from(toks, other, i + 1)
    }
}

pub open spec fn first_site(c: ConceptView) -> Option<(Seq<char>, Seq<char>)> {
    if c.declared_in.len() > 0 {
        Some(c.declared_in[0])
    } else {
        None
    }
}

pub open spec fn pair_of(a: (Seq<char>, ConceptView), b: (Seq<char>, ConceptView)) -> Option<PairView> {
    match shared_from(tokens(a.0), b.0, 0) {
        None => None,
        Some(t) => Some(
            PairView {
                first: a.0,
                second: b.0,
                shared_token: t,
                first_declared: first_site(a.1),
                second_declared: first_site(b.1),
                unlinked: is_modelled(a.1) != is_modelled(b.1),
            },
        ),
    }
}

pub open spec fn is_stored_pair(a: (Seq<char>, ConceptView), b: (Seq<char>, ConceptView)) -> bool {
    a.1.table is Some && b.1.table is Some
}

/// The pairs from `(i, j)` on, row by row, among the concepts that state a table.
pub open spec fn pairs_from(concepts: Seq<(Seq<char>, ConceptView)>, i: int, j: int) -> Seq<PairView>
    decreases concepts.len() - i, concepts.len() - j,
{
    if i < 0 || i >= concepts.len() {
        seq![]
    } else if j >= concepts.len() {
        pairs_from(concepts, i + 1, i + 2)
    } else {
        let rest = pairs_from(concepts, i, j + 1);
        if is_stored_pair(concepts[i], concepts[j]) {
            match pair_of(concepts[i], concepts[j]) {
                Some(p) => seq![p] + rest,
                None => rest,
            }
        } else {
            rest
        }
    }
}

pub open spec fn each_linked() -> spec_fn(PairView) -> Option<PairView> {
    |p: PairView|
        if p.unlinked {
            None
        } else {
            Some(p)
        }
}

pub open spec fn each_unlinked() -> spec_fn(PairView) -> Option<PairView> {
    |p: PairView|
        if p.unlinked {
            Some(p)
        } else {
            None
        }
}

/// Pairs that may be duplicates, and pairs that are probably one concept.
#[derive(Debug)]
pub struct Duplicates {
    pub suspected_duplicates: Vec<Pair>,
    pub likely_same_concept_needs_alias: Vec<Pair>,
}

pub struct DuplicatesView {
    pub suspected_duplicates: Seq<PairView>,
    pub likely_same_concept_needs_alias: Seq<PairView>,
}

impl DeepView for Duplicates {
    type V = DuplicatesView;

    open spec fn deep_view(&self) -> DuplicatesView {
        DuplicatesView {
            suspected_duplicates: self.suspected_duplicates.deep_view(),
            likely_same_concept_needs_alias: self.likely_same_concept_needs_alias.deep_view(),
        }
    }
}

pub open spec fn duplicates_of(idx: IndexView) -> DuplicatesView {
    let all = pairs_from(idx.concepts, 0, 1);
    DuplicatesView {
        suspected_duplicates: first_of(all.filter_map(each_linked()), 40),
        likely_same_concept_needs_alias: first_of(all.filter_map(each_unlinked()), 40),
    }
}

fn shared_token(toks: &Vec<String>, other: &str) -> (r: Option<String>)
    ensures
        r.deep_view() == shared_from(toks.deep_view(), other@, 0),
{
    let ghost tv = toks.deep_view();
    let mut i: usize = 0;
    while i < toks.len()
        invariant
            i <= toks.len(),
            tv == toks.deep_view(),
            shared_from(tv, other@, 0) == shared_from(tv, other@, i as int),
        decreases toks.len() - i,
    {
        let t = toks[i].as_str();
        assert(tv[i as int] == t@);
        if t.unicode_len() >= 5 && names_concept(other, t) {
            return Some(owned(t));
        }
        i += 1;
    }
    None
}

fn site_of(c: &Concept) -> (r: Option<(String, String)>)
    ensures
        r.deep_view() == first_site(c.deep_view()),
{
    assert(c.deep_view().declared_in.len() == c.declared_in@.len());
    if c.declared_in.len() > 0 {
        assert(c.deep_view().declared_in[0] == c.declared_in[0].deep_view());
        Some((owned(c.declared_in[0].0.as_str()), owned(c.declared_in[0].1.as_str())))
    } else {
        None
    }
}

fn pair(idx: &Index, i: usize, j: usize) -> (r: Option<Pair>)
    requires
        i < idx.deep_view().concepts.len(),
        j < idx.deep_view().concepts.len(),
    ensures
        ({
            let a = idx.deep_view().concepts[i as int];
            let b = idx.deep_view().concepts[j as int];
            r.deep_view() == (if is_stored_pair(a, b) {
                pair_of(a, b)
            } else {
                None
            })
        }),
{
    let a = idx.concepts.value(i);
    let b = idx.concepts.value(j);
    if a.table.is_none() || b.table.is_none() {
        return None;
    }
    match shared_token(&name_tokens(idx.concepts.key(i)), idx.concepts.key(j)) {
        None => None,
        Some(t) => Some(
            Pair {
                first: owned(idx.concepts.key(i)),
                second: owned(idx.concepts.key(j)),
                shared_token: t,
                first_declared: site_of(a),
                second_declared: site_of(b),
                unlinked: modelled(a) != modelled(b),
            },
        ),
    }
}

/// The stored concepts that share a token, two by two: those that may be
/// duplicates, and those that are probably one concept that nothing links.
pub fn duplicates(idx: &Index) -> (r: Duplicates)
    ensures
        r.deep_view() == duplicates_of(idx.deep_view()),
{
    let ghost cv = idx.concepts.deep_view();
    let ghost whole = pairs_from(cv, 0, 1);
    let ghost mut so_far: Seq<PairView> = seq![];
    let n: usize = idx.concepts.len();
    let mut linked: Vec<Pair> = Vec::new();
    let mut unlinked: Vec<Pair> = Vec::new();
    let mut i: usize = 0;
    proof {
        reveal(Seq::filter_map);
        assert(whole =~= so_far + pairs_from(cv, 0, 1));
    }
    while i < n
        invariant
            i <= n,
            n == cv.len(),
            cv == idx.deep_view().concepts,
            whole =~= so_far + pairs_from(cv, i as int, i + 1),
            linked.deep_view() =~= so_far.filter_map(each_linked()),
            unlinked.deep_view() =~= so_far.filter_map(each_unlinked()),
        decreases n - i,
    {
        let mut j: usize = i + 1;
        while j < n
            invariant
                i < j <= n,
                n == cv.len(),
                cv == idx.deep_view().concepts,
                whole =~= so_far + pairs_from(cv, i as int, j as int),
                linked.deep_view() =~= so_far.filter_map(each_linked()),
                unlinked.deep_view() =~= so_far.filter_map(each_unlinked()),
            decreases n - j,
        {
            let ghost before = so_far;
            let ghost l = linked.deep_view();
            let ghost u = unlinked.deep_view();
            if let Some(p) = pair(idx, i, j) {
                let ghost pv = p.deep_view();
                proof {
                    so_far = so_far.push(pv);
                    assert(before + (seq![pv] + pairs_from(cv, i as int, j + 1)) =~= so_far
                        + pairs_from(cv, i as int, j + 1));
                    so_far.lemma_filter_map_take_succ(each_linked(), before.len() as int);
                    so_far.lemma_filter_map_take_succ(each_unlinked(), before.len() as int);
                    assert(so_far.take(before.len() as int) =~= before);
                    assert(so_far.take(before.len() as int + 1) =~= so_far);
                }
                if p.unlinked {
                    unlinked.push(p);
                    assert(unlinked.deep_view() =~= u.push(pv));
                } else {
                    linked.push(p);
                    assert(linked.deep_view() =~= l.push(pv));
                }
            }
            j += 1;
        }
        assert(pairs_from(cv, i as int, j as int) == pairs_from(cv, i + 1, i + 2));
        i += 1;
    }
    assert(whole =~= so_far);
    Duplicates {
        suspected_duplicates: shortened(linked, 40),
        likely_same_concept_needs_alias: shortened(unlinked, 40),
    }
}

} // verus!
