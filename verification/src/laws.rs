//! The registry of laws: what the engine is allowed to assert, kept as data.
use vstd::prelude::*;
use crate::shown::{blank, text_or_nothing, whole};
use crate::shown::{count_tree, whole_tree, Page, Shown};
use crate::mutation_policy::{optional_text, strict_list, strict_texts};
use crate::outside::{parse_toml, toml_tree};
use crate::ownership::{seen_so_far, Count};
use crate::scan::EXTRACTOR_VERSION;
use crate::table::{lemma_put, lookup, put, TextMap};
use crate::text::{owned, same};
use crate::tree::{field, lemma_list_view, part, text_field, text_part, Tree, TreeView};

verus! {

/// One law, with where it was learnt and what keeps it.
#[derive(Debug)]
pub struct Law {
    pub id: String,
    pub title: String,
    pub statement: String,
    pub because: String,
    pub discovered_in: Vec<String>,
    pub introduced: String,
    pub status: String,
    pub category: String,
    pub regression: String,
    pub supersedes: Option<String>,
    /// How the law is kept today, which may change without the law.
    pub mechanism: Option<String>,
}

pub struct LawView {
    pub id: Seq<char>,
    pub title: Seq<char>,
    pub statement: Seq<char>,
    pub because: Seq<char>,
    pub discovered_in: Seq<Seq<char>>,
    pub introduced: Seq<char>,
    pub status: Seq<char>,
    pub category: Seq<char>,
    pub regression: Seq<char>,
    pub supersedes: Option<Seq<char>>,
    pub mechanism: Option<Seq<char>>,
}

impl DeepView for Law {
    type V = LawView;

    open spec fn deep_view(&self) -> LawView {
        LawView {
            id: self.id@,
            title: self.title@,
            statement: self.statement@,
            because: self.because@,
            discovered_in: self.discovered_in.deep_view(),
            introduced: self.introduced@,
            status: self.status@,
            category: self.category@,
            regression: self.regression@,
            supersedes: self.supersedes.deep_view(),
            mechanism: self.mechanism.deep_view(),
        }
    }
}

/// A law as a file states it; nothing where a field is missing or of the wrong
/// kind.
pub open spec fn law_in(t: TreeView) -> Option<LawView> {
    match (
        (text_field(t, "id"@), text_field(t, "title"@), text_field(t, "statement"@)),
        (text_field(t, "because"@), text_field(t, "introduced"@), text_field(t, "status"@)),
        (text_field(t, "category"@), text_field(t, "regression"@)),
        if field(t, "discovered_in"@) is Some {
            strict_texts(field(t, "discovered_in"@))
        } else {
            None
        },
        (optional_text(field(t, "supersedes"@)), optional_text(field(t, "mechanism"@))),
    ) {
        (
            (Some(id), Some(title), Some(statement)),
            (Some(because), Some(introduced), Some(status)),
            (Some(category), Some(regression)),
            Some(discovered_in),
            (Some(supersedes), Some(mechanism)),
        ) => Some(
            LawView {
                id,
                title,
                statement,
                because,
                discovered_in,
                introduced,
                status,
                category,
                regression,
                supersedes,
                mechanism,
            },
        ),
        _ => None,
    }
}

pub open spec fn law_in_text(toml: Seq<char>) -> Option<LawView> {
    match toml_tree(toml) {
        Ok(t) => law_in(t),
        Err(_) => None,
    }
}

pub open spec fn each_law() -> spec_fn(Seq<char>) -> Option<LawView> {
    |toml: Seq<char>| law_in_text(toml)
}

fn optional(t: Option<&Tree>) -> (r: Option<Option<String>>)
    ensures
        r.deep_view() == optional_text(
            match t {
                Some(x) => Some(x.deep_view()),
                None => None,
            },
        ),
{
    match t {
        None => Some(None),
        Some(Tree::Text(s)) => Some(Some(owned(s.as_str()))),
        _ => None,
    }
}

/// A law as a settings tree states it.
pub fn law_of(t: &Tree) -> (r: Option<Law>)
    ensures
        r.deep_view() == law_in(t.deep_view()),
{
    let places = t.field("discovered_in");
    if places.is_none() {
        return None;
    }
    match (
        (t.text_field("id"), t.text_field("title"), t.text_field("statement")),
        (t.text_field("because"), t.text_field("introduced"), t.text_field("status")),
        (t.text_field("category"), t.text_field("regression")),
        strict_list(places),
        (optional(t.field("supersedes")), optional(t.field("mechanism"))),
    ) {
        (
            (Some(id), Some(title), Some(statement)),
            (Some(because), Some(introduced), Some(status)),
            (Some(category), Some(regression)),
            Some(discovered_in),
            (Some(supersedes), Some(mechanism)),
        ) => Some(
            Law {
                id,
                title,
                statement,
                because,
                discovered_in,
                introduced,
                status,
                category,
                regression,
                supersedes,
                mechanism,
            },
        ),
        _ => None,
    }
}

/// The laws that a list of files states; a file that states none is passed over.
pub fn all(files: &Vec<String>) -> (r: Vec<Law>)
    ensures
        r.deep_view() == files.deep_view().filter_map(each_law()),
{
    let ghost fv = files.deep_view();
    let ghost f = each_law();
    let mut out: Vec<Law> = Vec::new();
    let mut i: usize = 0;
    proof {
        assert(fv.take(0) =~= seq![]);
        reveal(Seq::filter_map);
    }
    while i < files.len()
        invariant
            i <= files.len(),
            fv == files.deep_view(),
            f == each_law(),
            out.deep_view() =~= fv.take(i as int).filter_map(f),
        decreases files.len() - i,
    {
        let ghost so_far = out.deep_view();
        proof {
            fv.lemma_filter_map_take_succ(f, i as int);
        }
        assert(fv[i as int] == files[i as int]@);
        if let Ok(t) = parse_toml(files[i].as_str()) {
            if let Some(x) = law_of(&t) {
                let ghost xv = x.deep_view();
                out.push(x);
                assert(out.deep_view() =~= so_far.push(xv));
            }
        }
        i += 1;
    }
    assert(fv.take(i as int) =~= fv);
    out
}

// ---------------------------------------------------------------------------
// The registry
// ---------------------------------------------------------------------------

/// The registry in numbers.
#[derive(Debug)]
pub struct Stats {
    pub laws_total: usize,
    pub laws_active: usize,
    pub laws_superseded: usize,
    /// How many active laws there are of each category.
    pub by_category: TextMap<Count>,
    pub extractor_version: u32,
}

pub open spec fn is_active(l: LawView) -> bool {
    l.status == "active"@
}

pub open spec fn active_count(laws: Seq<LawView>) -> nat
    decreases laws.len(),
{
    if laws.len() == 0 {
        0
    } else if is_active(laws.last()) {
        active_count(laws.drop_last()) + 1
    } else {
        active_count(laws.drop_last())
    }
}

pub open spec fn categories(laws: Seq<LawView>) -> Seq<(Seq<char>, nat)>
    decreases laws.len(),
{
    if laws.len() == 0 {
        seq![]
    } else {
        let m = categories(laws.drop_last());
        let l = laws.last();
        if is_active(l) {
            put(m, l.category, seen_so_far(m, l.category) + 1)
        } else {
            m
        }
    }
}

/// The registry in numbers.
pub fn stats(laws: &Vec<Law>) -> (r: Stats)
    ensures
        r.laws_total == laws.deep_view().len(),
        r.laws_active == active_count(laws.deep_view()),
        r.laws_active + r.laws_superseded == r.laws_total,
        r.by_category.deep_view() == categories(laws.deep_view()),
        r.extractor_version == EXTRACTOR_VERSION,
{
    let ghost lv = laws.deep_view();
    let mut active: usize = 0;
    let mut m: TextMap<Count> = TextMap::new();
    let mut i: usize = 0;
    while i < laws.len()
        invariant
            i <= laws.len(),
            lv == laws.deep_view(),
            active <= i,
            active == active_count(lv.take(i as int)),
            m.deep_view() == categories(lv.take(i as int)),
            forall|k: Seq<char>| #[trigger] seen_so_far(m.deep_view(), k) <= i,
        decreases laws.len() - i,
    {
        let l = &laws[i];
        let ghost before = m.deep_view();
        proof {
            let step = lv.take(i + 1);
            assert(step.drop_last() =~= lv.take(i as int));
            assert(step.last() == l.deep_view());
        }
        if same(l.status.as_str(), "active") {
            active += 1;
            let n: usize = match m.get(l.category.as_str()) {
                Some(c) => c.n,
                None => 0,
            };
            assert(n == seen_so_far(before, l.category@));
            let size: usize = m.len();
            proof {
                lemma_put(before, l.category@, (n + 1) as nat);
            }
            m = m.with(owned(l.category.as_str()), Count { n: n + 1 });
            assert forall|k: Seq<char>| #[trigger] seen_so_far(m.deep_view(), k) <= i + 1 by {
                if k != l.category@ {
                    assert(lookup(m.deep_view(), k) == lookup(before, k));
                    assert(seen_so_far(before, k) <= i);
                }
            }
        }
        i += 1;
    }
    assert(lv.take(i as int) =~= lv);
    Stats {
        laws_total: laws.len(),
        laws_active: active,
        laws_superseded: laws.len() - active,
        by_category: m,
        extractor_version: EXTRACTOR_VERSION,
    }
}

// ---------------------------------------------------------------------------
// The corpus
// ---------------------------------------------------------------------------

/// A repository that the engine was tried on, and the laws that it taught.
#[derive(Debug)]
pub struct CorpusRepo {
    pub name: String,
    pub kind: String,
    pub validated: String,
    pub contributed: Vec<String>,
}

pub struct CorpusRepoView {
    pub name: Seq<char>,
    pub kind: Seq<char>,
    pub validated: Seq<char>,
    pub contributed: Seq<Seq<char>>,
}

impl DeepView for CorpusRepo {
    type V = CorpusRepoView;

    open spec fn deep_view(&self) -> CorpusRepoView {
        CorpusRepoView {
            name: self.name@,
            kind: self.kind@,
            validated: self.validated@,
            contributed: self.contributed.deep_view(),
        }
    }
}

pub open spec fn repo_in(t: TreeView) -> Option<CorpusRepoView> {
    match (
        text_part(t, "name"@, 0),
        text_part(t, "kind"@, 1),
        text_part(t, "validated"@, 2),
        if part(t, "contributed"@, 3) is Some {
            strict_texts(part(t, "contributed"@, 3))
        } else {
            None
        },
    ) {
        (Some(name), Some(kind), Some(validated), Some(contributed)) => Some(
            CorpusRepoView { name, kind, validated, contributed },
        ),
        _ => None,
    }
}

/// Every repository of a list; nothing where one of them is malformed.
pub open spec fn repos_in(items: Seq<TreeView>) -> Option<Seq<CorpusRepoView>>
    decreases items.len(),
{
    if items.len() == 0 {
        Some(seq![])
    } else {
        match (repos_in(items.drop_last()), repo_in(items.last())) {
            (Some(earlier), Some(r)) => Some(earlier.push(r)),
            _ => None,
        }
    }
}

/// The repositories that a corpus file lists; none where the file is malformed.
pub open spec fn corpus_in(toml: Seq<char>) -> Seq<CorpusRepoView> {
    match toml_tree(toml) {
        Ok(t) => match field(t, "repo"@) {
            Some(TreeView::List(items)) => match repos_in(items) {
                Some(list) => list,
                None => seq![],
            },
            _ => seq![],
        },
        Err(_) => seq![],
    }
}

fn repo_of(t: &Tree) -> (r: Option<CorpusRepo>)
    ensures
        r.deep_view() == repo_in(t.deep_view()),
{
    let laws = t.part("contributed", 3);
    if laws.is_none() {
        return None;
    }
    match (
        t.text_part("name", 0),
        t.text_part("kind", 1),
        t.text_part("validated", 2),
        strict_list(laws),
    ) {
        (Some(name), Some(kind), Some(validated), Some(contributed)) => Some(
            CorpusRepo { name, kind, validated, contributed },
        ),
        _ => None,
    }
}

fn repos_of(list: &Vec<Tree>) -> (r: Option<Vec<CorpusRepo>>)
    ensures
        r.deep_view() == repos_in(list.deep_view()),
{
    let ghost items = list.deep_view();
    let mut out: Vec<CorpusRepo> = Vec::new();
    assert(out.deep_view() =~= seq![]);
    let mut sound: bool = true;
    let mut i: usize = 0;
    while i < list.len()
        invariant
            i <= list.len(),
            items == list.deep_view(),
            repos_in(items.take(i as int)) == (if sound {
                Some(out.deep_view())
            } else {
                None
            }),
        decreases list.len() - i,
    {
        let ghost so_far = out.deep_view();
        proof {
            let step = items.take(i + 1);
            assert(step.drop_last() =~= items.take(i as int));
            assert(step.last() == list[i as int].deep_view());
        }
        match repo_of(&list[i]) {
            Some(x) => {
                let ghost xv = x.deep_view();
                out.push(x);
                assert(out.deep_view() =~= so_far.push(xv));
            },
            None => {
                sound = false;
            },
        }
        i += 1;
    }
    assert(items.take(i as int) =~= items);
    if sound {
        Some(out)
    } else {
        None
    }
}

/// The repositories that a corpus file lists.
pub fn corpus(toml: &str) -> (r: Vec<CorpusRepo>)
    ensures
        r.deep_view() == corpus_in(toml@),
{
    if let Ok(t) = parse_toml(toml) {
        if let Some(Tree::List(list)) = t.field("repo") {
            proof {
                lemma_list_view(*list);
            }
            if let Some(repos) = repos_of(list) {
                return repos;
            }
        }
    }
    let none: Vec<CorpusRepo> = Vec::new();
    assert(none.deep_view() =~= seq![]);
    none
}

/// The whole registry.
#[derive(Debug)]
pub struct Registry {
    pub laws: Vec<Law>,
    pub stats: Stats,
    pub corpus: Vec<CorpusRepo>,
}

/// The laws that the files state, counted, with the corpus that taught them.
pub fn registry(files: &Vec<String>, corpus_file: &str) -> (r: Registry)
    ensures
        r.laws.deep_view() == files.deep_view().filter_map(each_law()),
        r.stats.laws_total == r.laws.deep_view().len(),
        r.stats.laws_active == active_count(r.laws.deep_view()),
        r.stats.laws_active + r.stats.laws_superseded == r.stats.laws_total,
        r.stats.by_category.deep_view() == categories(r.laws.deep_view()),
        r.stats.extractor_version == EXTRACTOR_VERSION,
        r.corpus.deep_view() == corpus_in(corpus_file@),
{
    let laws = all(files);
    let stats = stats(&laws);
    Registry { laws, stats, corpus: corpus(corpus_file) }
}

// ---------------------------------------------------------------------------
// As trees
// ---------------------------------------------------------------------------

impl Shown for Law {
    open spec fn tree_of(v: LawView) -> TreeView {
        TreeView::Table(
            blank()
                .push(("id"@, TreeView::Text(v.id)))
                .push(("title"@, TreeView::Text(v.title)))
                .push(("statement"@, TreeView::Text(v.statement)))
                .push(("mechanism"@, text_or_nothing(v.mechanism)))
                .push(("because"@, TreeView::Text(v.because)))
                .push(("discovered_in"@, Vec::<String>::tree_of(v.discovered_in)))
                .push(("introduced"@, TreeView::Text(v.introduced)))
                .push(("status"@, TreeView::Text(v.status)))
                .push(("category"@, TreeView::Text(v.category)))
                .push(("supersedes"@, text_or_nothing(v.supersedes)))
                .push(("regression"@, TreeView::Text(v.regression))),
        )
    }

    fn shown(&self) -> Tree {
        Page::new()
            .with_text("id", self.id.as_str())
            .with_text("title", self.title.as_str())
            .with_text("statement", self.statement.as_str())
            .with("mechanism", self.mechanism.shown())
            .with_text("because", self.because.as_str())
            .with("discovered_in", self.discovered_in.shown())
            .with_text("introduced", self.introduced.as_str())
            .with_text("status", self.status.as_str())
            .with_text("category", self.category.as_str())
            .with("supersedes", self.supersedes.shown())
            .with_text("regression", self.regression.as_str())
            .done()
    }
}

impl Shown for CorpusRepo {
    open spec fn tree_of(v: CorpusRepoView) -> TreeView {
        TreeView::Table(
            blank()
                .push(("name"@, TreeView::Text(v.name)))
                .push(("kind"@, TreeView::Text(v.kind)))
                .push(("validated"@, TreeView::Text(v.validated)))
                .push(("contributed"@, Vec::<String>::tree_of(v.contributed))),
        )
    }

    fn shown(&self) -> Tree {
        Page::new()
            .with_text("name", self.name.as_str())
            .with_text("kind", self.kind.as_str())
            .with_text("validated", self.validated.as_str())
            .with("contributed", self.contributed.shown())
            .done()
    }
}

/// Laws with their numbers and the corpus that taught them.
pub open spec fn registry_tree(laws: Seq<LawView>, corpus: Seq<CorpusRepoView>) -> TreeView {
    TreeView::Table(
        blank()
            .push(("laws"@, Vec::<Law>::tree_of(laws)))
            .push(
                (
                    "stats"@,
                    TreeView::Table(
                        blank()
                            .push(("laws_total"@, whole(laws.len() as int)))
                            .push(("laws_active"@, whole(active_count(laws) as int)))
                            .push(("laws_superseded"@, whole(laws.len() - active_count(laws))))
                            .push(("by_category"@, TextMap::<Count>::tree_of(categories(laws))))
                            .push(("corpus_repositories"@, whole(corpus.len() as int)))
                            .push(("extractor_version"@, whole(EXTRACTOR_VERSION as int))),
                    ),
                ),
            )
            .push(("corpus"@, Vec::<CorpusRepo>::tree_of(corpus)))
            .push(
                (
                    "note"@,
                    TreeView::Text(
                        "Laws are the engine's language specification, loaded from laws/*.toml. Each category indicates where the rule naturally lives: 'philosophy' laws are irreducible and stay here permanently; 'parser'/'ranking'/'constraint'/'guard' laws have a home in their implementation layer and their fixture is the regression record. Laws are amended, not edited."@,
                    ),
                ),
            ),
    )
}

/// The laws that the files state, with their numbers and the corpus that taught
/// them, as a tree.
pub fn registry_json(files: &Vec<String>, corpus_file: &str) -> (r: Tree)
    ensures
        r.deep_view() == registry_tree(
            files.deep_view().filter_map(each_law()),
            corpus_in(corpus_file@),
        ),
{
    let g = registry(files, corpus_file);
    assert(g.corpus.deep_view().len() == g.corpus@.len());
    let stats = Page::new()
        .with("laws_total", count_tree(g.stats.laws_total))
        .with("laws_active", count_tree(g.stats.laws_active))
        .with("laws_superseded", count_tree(g.stats.laws_superseded))
        .with("by_category", g.stats.by_category.shown())
        .with("corpus_repositories", count_tree(g.corpus.len()))
        .with("extractor_version", whole_tree(g.stats.extractor_version as i64));
    Page::new()
        .with("laws", g.laws.shown())
        .with("stats", stats.done())
        .with("corpus", g.corpus.shown())
        .with_text(
            "note",
            "Laws are the engine's language specification, loaded from laws/*.toml. Each category indicates where the rule naturally lives: 'philosophy' laws are irreducible and stay here permanently; 'parser'/'ranking'/'constraint'/'guard' laws have a home in their implementation layer and their fixture is the regression record. Laws are amended, not edited.",
        )
        .done()
}

} // verus!
