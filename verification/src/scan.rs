//! Assembling the index: which files count, what a project's own settings say,
//! and how the facts of single files become concepts with their usage.
use vstd::prelude::*;
use vstd::utf8::encode_utf8;
use crate::extract::{declared, extract_declarations};
use crate::model::{Concept, ConceptView, Decision, DecisionView, DeclFragment, DeclFragmentView, FileFacts, FileFactsView, Index, IndexView};
use crate::outside::{escaped, found, toml_tree};
use crate::outside::{escape, found_in, parse_toml};
use crate::paths::{below, extension};
use crate::paths::{extension_of, path_below};
use crate::table::{lookup, ordered, pair_set, put, sorted, without, TextMap};
use crate::table::{copied_pairs, distinct_pairs, sorted_list};
use crate::text::{ascii_lower, before, contains, join, lower_char, lowered, starts_with, trim_end_of, CharClass};
use crate::text::{
    ascii_lowercase, begins, chars_of, copied, copied_option, cut, holds, joined, lowercase,
    owned, push_char, same, same_ignoring_case, trimmed_end_of,
};
use crate::tree::{field, text_field, texts, Tree, TreeView};

verus! {

/// Changes whenever the extractors do, so that older facts are not reused.
pub const EXTRACTOR_VERSION: u32 = 9;

/// Files above this size are not read.
pub const MAX_FILE_BYTES: u64 = 2_000_000;

// ---------------------------------------------------------------------------
// Which files count
// ---------------------------------------------------------------------------

pub open spec fn is_skipped_dir(name: Seq<char>) -> bool {
    ||| name == "node_modules"@
    ||| name == ".git"@
    ||| name == ".next"@
    ||| name == "target"@
    ||| name == "dist"@
    ||| name == "build"@
    ||| name == "__pycache__"@
    ||| name == ".venv"@
    ||| name == "venv"@
    ||| name == ".turbo"@
    ||| name == "coverage"@
    ||| name == ".cache"@
    ||| name == "vendor"@
}

/// A path lies at or below a prefix; a slash at the prefix's end does not
/// matter.
pub open spec fn is_within(path: Seq<char>, prefix: Seq<char>) -> bool {
    let p = trim_end_of(prefix, CharClass::Is('/'));
    path == p || starts_with(path, p + "/"@)
}

pub open spec fn is_excluded(path: Seq<char>, excludes: Seq<Seq<char>>) -> bool {
    exists|i: int| 0 <= i < excludes.len() && is_within(path, #[trigger] excludes[i])
}

/// Whether a directory is never descended into.
pub fn skip_dir(name: &str) -> (r: bool)
    ensures
        r == is_skipped_dir(name@),
{
    same(name, "node_modules") || same(name, ".git") || same(name, ".next") || same(name, "target")
        || same(name, "dist") || same(name, "build") || same(name, "__pycache__") || same(
        name,
        ".venv",
    ) || same(name, "venv") || same(name, ".turbo") || same(name, "coverage") || same(
        name,
        ".cache",
    ) || same(name, "vendor")
}

pub fn within(path: &str, prefix: &str) -> (r: bool)
    ensures
        r == is_within(path@, prefix@),
{
    let mut p = trimmed_end_of(prefix, CharClass::Is('/'));
    if same(path, p.as_str()) {
        return true;
    }
    p.append("/");
    begins(path, p.as_str())
}

/// Whether the project's own settings exclude a path.
pub fn skip_excluded(path: &str, excludes: &Vec<String>) -> (r: bool)
    ensures
        r == is_excluded(path@, excludes.deep_view()),
{
    let mut i: usize = 0;
    while i < excludes.len()
        invariant
            i <= excludes.len(),
            forall|j: int|
                0 <= j < i ==> !is_within(path@, #[trigger] excludes.deep_view()[j]),
        decreases excludes.len() - i,
    {
        if within(path, excludes[i].as_str()) {
            assert(is_within(path@, excludes.deep_view()[i as int]));
            return true;
        }
        i += 1;
    }
    false
}

/// Whether a file with this extension is read: a schema format, or one of the
/// languages that are known, with an extractor or without.
pub fn is_scannable_ext(ext: &str, languages: &Vec<String>, unsupported: &Vec<String>) -> (r: bool)
    ensures
        r == (ext@ == "prisma"@ || ext@ == "sql"@ || languages.deep_view().contains(ext@)
            || unsupported.deep_view().contains(ext@)),
{
    same(ext, "prisma") || same(ext, "sql") || crate::text::listed(languages, ext)
        || crate::text::listed(unsupported, ext)
}

// ---------------------------------------------------------------------------
// The project's own settings
// ---------------------------------------------------------------------------

/// What a project's `archietect.toml` says.
#[derive(Debug)]
pub struct Settings {
    /// Whether there is such a file and it can be read.
    pub present: bool,
    pub aliases: TextMap<String>,
    pub decisions: Vec<Decision>,
    pub excludes: Vec<String>,
}

pub struct SettingsView {
    pub present: bool,
    pub aliases: Seq<(Seq<char>, Seq<char>)>,
    pub decisions: Seq<DecisionView>,
    pub excludes: Seq<Seq<char>>,
}

impl DeepView for Settings {
    type V = SettingsView;

    open spec fn deep_view(&self) -> SettingsView {
        SettingsView {
            present: self.present,
            aliases: self.aliases.deep_view(),
            decisions: self.decisions.deep_view(),
            excludes: self.excludes.deep_view(),
        }
    }
}

/// The aliases of a table: every key in small letters with its text.
pub open spec fn alias_table(entries: Seq<(Seq<char>, TreeView)>) -> Seq<(Seq<char>, Seq<char>)>
    decreases entries.len(),
{
    if entries.len() == 0 {
        seq![]
    } else {
        let front = alias_table(entries.drop_last());
        match crate::tree::text(entries.last().1) {
            Some(s) => put(front, lowered(entries.last().0), s),
            None => front,
        }
    }
}

pub open spec fn text_or_nothing(t: Option<Seq<char>>) -> Seq<char> {
    match t {
        Some(s) => s,
        None => seq![],
    }
}

pub open spec fn decision_from(t: TreeView) -> DecisionView {
    DecisionView {
        id: text_or_nothing(text_field(t, "id"@)),
        decision: text_or_nothing(text_field(t, "decision"@)),
        because: text_or_nothing(text_field(t, "because"@)),
        rejected: texts(field(t, "rejected"@)),
        links: texts(field(t, "links"@)),
        proposed_by: text_or_nothing(text_field(t, "proposed_by"@)),
    }
}

pub open spec fn each_decision() -> spec_fn(TreeView) -> DecisionView {
    |t: TreeView| decision_from(t)
}

/// A list of paths, or a single one.
pub open spec fn exclude_list(t: Option<TreeView>) -> Seq<Seq<char>> {
    match t {
        Some(TreeView::Text(s)) => seq![s],
        _ => texts(t),
    }
}

pub open spec fn no_settings() -> SettingsView {
    SettingsView { present: false, aliases: seq![], decisions: seq![], excludes: seq![] }
}

/// The settings that a document holds.
pub open spec fn settings_in(t: TreeView) -> SettingsView {
    SettingsView {
        present: true,
        aliases: match field(t, "aliases"@) {
            Some(TreeView::Table(entries)) => alias_table(entries),
            _ => seq![],
        },
        decisions: match field(t, "decision"@) {
            Some(TreeView::List(items)) => items.map_values(each_decision()),
            _ => seq![],
        },
        excludes: exclude_list(field(t, "exclude"@)),
    }
}

/// The settings of a project: none where there is no file or where it is no
/// TOML.
pub open spec fn settings(text: Option<Seq<char>>) -> SettingsView {
    match text {
        Some(s) => match toml_tree(s) {
            Ok(t) => settings_in(t),
            Err(_) => no_settings(),
        },
        None => no_settings(),
    }
}

fn or_nothing(t: Option<String>) -> (r: String)
    ensures
        r@ == text_or_nothing(t.deep_view()),
{
    match t {
        Some(s) => s,
        None => {
            let s = String::new();
            assert(s@ =~= seq![]);
            s
        },
    }
}

fn decision_in(t: &Tree) -> (r: Decision)
    ensures
        r.deep_view() == decision_from(t.deep_view()),
{
    Decision {
        id: or_nothing(t.text_field("id")),
        decision: or_nothing(t.text_field("decision")),
        because: or_nothing(t.text_field("because")),
        rejected: t.texts_field("rejected"),
        links: t.texts_field("links"),
        proposed_by: or_nothing(t.text_field("proposed_by")),
    }
}

fn aliases_in(v: &Vec<(String, Tree)>) -> (r: TextMap<String>)
    ensures
        r.deep_view() == alias_table(v.deep_view()),
{
    let mut out: TextMap<String> = TextMap::new();
    let mut i: usize = 0;
    while i < v.len()
        invariant
            i <= v.len(),
            out.deep_view() == alias_table(v.deep_view().take(i as int)),
        decreases v.len() - i,
    {
        let ghost step = v.deep_view().take(i + 1);
        assert(step.drop_last() =~= v.deep_view().take(i as int));
        assert(step.last() == (v[i as int].0@, v[i as int].1.deep_view()));
        if let Some(s) = v[i].1.text() {
            out = out.with(lowercase(v[i].0.as_str()), s);
        }
        i += 1;
    }
    assert(v.deep_view().take(i as int) =~= v.deep_view());
    out
}

fn decisions_in(v: &Vec<Tree>) -> (r: Vec<Decision>)
    ensures
        r.deep_view() == v.deep_view().map_values(each_decision()),
{
    let ghost all = v.deep_view().map_values(each_decision());
    let mut out: Vec<Decision> = Vec::new();
    let mut i: usize = 0;
    while i < v.len()
        invariant
            i <= v.len(),
            all == v.deep_view().map_values(each_decision()),
            out.deep_view() =~= all.take(i as int),
        decreases v.len() - i,
    {
        let ghost so_far = out.deep_view();
        assert(v.deep_view()[i as int] == v[i as int].deep_view());
        out.push(decision_in(&v[i]));
        assert(out.deep_view() =~= so_far.push(all[i as int]));
        i += 1;
    }
    assert(all.take(i as int) =~= all);
    out
}

/// The settings that a parsed document holds.
pub fn read_settings(t: &Tree) -> (r: Settings)
    ensures
        r.deep_view() == settings_in(t.deep_view()),
{
    let aliases = match t.field("aliases") {
        Some(Tree::Table(v)) => {
            proof {
                crate::tree::lemma_table_view(*v);
            }
            aliases_in(v)
        },
        _ => TextMap::new(),
    };
    let decisions = match t.field("decision") {
        Some(Tree::List(v)) => {
            proof {
                crate::tree::lemma_list_view(*v);
            }
            decisions_in(v)
        },
        _ => Vec::new(),
    };
    let excludes = match t.field("exclude") {
        Some(Tree::Text(s)) => {
            let mut v: Vec<String> = Vec::new();
            v.push(owned(s.as_str()));
            v
        },
        _ => t.texts_field("exclude"),
    };
    assert(aliases.deep_view() =~= settings_in(t.deep_view()).aliases);
    assert(decisions.deep_view() =~= settings_in(t.deep_view()).decisions);
    assert(excludes.deep_view() =~= settings_in(t.deep_view()).excludes);
    Settings { present: true, aliases, decisions, excludes }
}

/// The settings of a project from the text of its `archietect.toml`.
pub fn load_settings(text: Option<&str>) -> (r: Settings)
    ensures
        r.deep_view() == settings(
            match text {
                Some(s) => Some(s@),
                None => None,
            },
        ),
{
    if let Some(s) = text {
        if let Ok(t) = parse_toml(s) {
            return read_settings(&t);
        }
    }
    let decisions: Vec<Decision> = Vec::new();
    let excludes: Vec<String> = Vec::new();
    assert(decisions.deep_view() =~= seq![]);
    assert(excludes.deep_view() =~= seq![]);
    Settings { present: false, aliases: TextMap::new(), decisions, excludes }
}

// ---------------------------------------------------------------------------
// Facts of single files
// ---------------------------------------------------------------------------

/// One file of the inventory, with its text where it could be read.
#[derive(Debug)]
pub struct ScannableFile {
    pub rel: String,
    pub size: u64,
    pub mtime_ms: i64,
    pub text: Option<String>,
}

pub struct ScannableFileView {
    pub rel: Seq<char>,
    pub size: int,
    pub mtime_ms: int,
    pub text: Option<Seq<char>>,
}

impl DeepView for ScannableFile {
    type V = ScannableFileView;

    open spec fn deep_view(&self) -> ScannableFileView {
        ScannableFileView {
            rel: self.rel@,
            size: self.size as int,
            mtime_ms: self.mtime_ms as int,
            text: self.text.deep_view(),
        }
    }
}

/// What an earlier scan left that can be reused: nothing, where the extractors
/// have changed since.
pub open spec fn usable(prior: Option<IndexView>) -> Option<IndexView> {
    match prior {
        Some(p) => if p.extractor_version == EXTRACTOR_VERSION {
            prior
        } else {
            None
        },
        None => None,
    }
}

pub open spec fn prior_facts(prior: Option<IndexView>) -> Seq<(Seq<char>, FileFactsView)> {
    match usable(prior) {
        Some(p) => p.file_facts,
        None => seq![],
    }
}

/// A file is unchanged when its size and its modification time are.
pub open spec fn is_unchanged(
    facts: Seq<(Seq<char>, FileFactsView)>,
    f: ScannableFileView,
) -> bool {
    match lookup(facts, f.rel) {
        Some(pf) => pf.size == f.size && pf.mtime_ms == f.mtime_ms,
        None => false,
    }
}

/// What a file declares: what is known of it where it is unchanged, otherwise
/// what is read from its text.
pub open spec fn facts_of(
    root: Seq<char>,
    facts: Seq<(Seq<char>, FileFactsView)>,
    f: ScannableFileView,
) -> FileFactsView {
    let d = if is_unchanged(facts, f) {
        let pf = lookup(facts, f.rel)->0;
        (pf.decls, pf.decl_kinds)
    } else {
        match f.text {
            Some(t) => {
                let d = declared(below(root, f.rel), t);
                (d.decls, d.kinds)
            },
            None => (seq![], seq![]),
        }
    };
    FileFactsView {
        size: f.size,
        mtime_ms: f.mtime_ms,
        decls: d.0,
        usage: seq![],
        decl_kinds: d.1,
    }
}

/// The facts of all files, under their paths.
pub open spec fn all_facts(
    root: Seq<char>,
    facts: Seq<(Seq<char>, FileFactsView)>,
    files: Seq<ScannableFileView>,
) -> Seq<(Seq<char>, FileFactsView)>
    decreases files.len(),
{
    if files.len() == 0 {
        seq![]
    } else {
        put(
            all_facts(root, facts, files.drop_last()),
            files.last().rel,
            facts_of(root, facts, files.last()),
        )
    }
}

pub open spec fn kinds_at(rel: Seq<char>) -> spec_fn(Seq<char>) -> (Seq<char>, Seq<char>) {
    |k: Seq<char>| (rel, k)
}

/// Every file that declares something, with each kind of declaration in it.
pub open spec fn declaration_list(
    root: Seq<char>,
    facts: Seq<(Seq<char>, FileFactsView)>,
    files: Seq<ScannableFileView>,
) -> Seq<(Seq<char>, Seq<char>)>
    decreases files.len(),
{
    if files.len() == 0 {
        seq![]
    } else {
        declaration_list(root, facts, files.drop_last()) + facts_of(
            root,
            facts,
            files.last(),
        ).decl_kinds.map_values(kinds_at(files.last().rel))
    }
}

fn unchanged(facts: &TextMap<FileFacts>, f: &ScannableFile) -> (r: bool)
    ensures
        r == is_unchanged(facts.deep_view(), f.deep_view()),
{
    match facts.get(f.rel.as_str()) {
        Some(pf) => pf.size == f.size && pf.mtime_ms == f.mtime_ms,
        None => false,
    }
}

fn file_facts_of(root: &str, facts: &TextMap<FileFacts>, f: &ScannableFile) -> (r: FileFacts)
    ensures
        r.deep_view() == facts_of(root@, facts.deep_view(), f.deep_view()),
{
    let usage: Vec<(String, String)> = Vec::new();
    assert(usage.deep_view() =~= seq![]);
    if unchanged(facts, f) {
        if let Some(pf) = facts.get(f.rel.as_str()) {
            return FileFacts {
                size: f.size,
                mtime_ms: f.mtime_ms,
                decls: crate::model::copied_fragments(&pf.decls),
                usage,
                decl_kinds: copied(&pf.decl_kinds),
            };
        }
    }
    let (decls, decl_kinds) = match &f.text {
        Some(t) => extract_declarations(path_below(root, f.rel.as_str()).as_str(), t.as_str()),
        None => {
            let decls: Vec<DeclFragment> = Vec::new();
            let kinds: Vec<String> = Vec::new();
            assert(decls.deep_view() =~= seq![]);
            assert(kinds.deep_view() =~= seq![]);
            (decls, kinds)
        },
    };
    FileFacts { size: f.size, mtime_ms: f.mtime_ms, decls, usage, decl_kinds }
}

fn collect_facts(root: &str, facts: &TextMap<FileFacts>, files: &Vec<ScannableFile>) -> (r: (
    TextMap<FileFacts>,
    Vec<(String, String)>,
))
    ensures
        r.0.deep_view() == all_facts(root@, facts.deep_view(), files.deep_view()),
        r.1.deep_view() == declaration_list(root@, facts.deep_view(), files.deep_view()),
{
    let mut out: TextMap<FileFacts> = TextMap::new();
    let mut list: Vec<(String, String)> = Vec::new();
    let ghost fv = facts.deep_view();
    let mut i: usize = 0;
    assert(list.deep_view() =~= seq![]);
    while i < files.len()
        invariant
            i <= files.len(),
            fv == facts.deep_view(),
            out.deep_view() == all_facts(root@, fv, files.deep_view().take(i as int)),
            list.deep_view() == declaration_list(root@, fv, files.deep_view().take(i as int)),
        decreases files.len() - i,
    {
        let ghost step = files.deep_view().take(i + 1);
        assert(step.drop_last() =~= files.deep_view().take(i as int));
        assert(step.last() == files[i as int].deep_view());
        let ff = file_facts_of(root, facts, &files[i]);
        let ghost more = ff.deep_view().decl_kinds.map_values(kinds_at(files[i as int].rel@));
        let ghost start = list.deep_view();
        let mut j: usize = 0;
        while j < ff.decl_kinds.len()
            invariant
                i < files.len(),
                j <= ff.decl_kinds.len(),
                more == ff.decl_kinds.deep_view().map_values(kinds_at(files[i as int].rel@)),
                list.deep_view() =~= start + more.take(j as int),
            decreases ff.decl_kinds.len() - j,
        {
            let ghost so_far = list.deep_view();
            assert(ff.decl_kinds.deep_view()[j as int] == ff.decl_kinds[j as int]@);
            list.push((owned(files[i].rel.as_str()), owned(ff.decl_kinds[j].as_str())));
            assert(list.deep_view() =~= so_far.push(more[j as int]));
            j += 1;
        }
        assert(more.take(j as int) =~= more);
        out = out.with(owned(files[i].rel.as_str()), ff);
        i += 1;
    }
    assert(files.deep_view().take(i as int) =~= files.deep_view());
    (out, list)
}

// ---------------------------------------------------------------------------
// Concepts from fragments
// ---------------------------------------------------------------------------

pub open spec fn new_concept(name: Seq<char>, now: int) -> ConceptView {
    ConceptView {
        name,
        first_seen_ms: now,
        last_verified_ms: 0,
        declared_in: seq![],
        fields: seq![],
        relations: seq![],
        table: None,
        usage: seq![],
    }
}

/// A concept after one more declaration: the place is added, and what the
/// concept lacks so far is taken over.
pub open spec fn absorb(
    c: Option<ConceptView>,
    rel: Seq<char>,
    d: DeclFragmentView,
    now: int,
) -> ConceptView {
    let c = match c {
        Some(c) => c,
        None => new_concept(d.name, now),
    };
    ConceptView {
        declared_in: c.declared_in.push((rel, d.kind)),
        fields: if c.fields.len() == 0 {
            d.fields
        } else {
            c.fields
        },
        relations: if c.relations.len() == 0 {
            d.relations
        } else {
            c.relations
        },
        table: if c.table is None {
            d.table
        } else {
            c.table
        },
        ..c
    }
}

/// The concepts after the declarations of one file.
pub open spec fn absorb_all(
    m: Seq<(Seq<char>, ConceptView)>,
    rel: Seq<char>,
    decls: Seq<DeclFragmentView>,
    now: int,
) -> Seq<(Seq<char>, ConceptView)>
    decreases decls.len(),
{
    if decls.len() == 0 {
        m
    } else {
        let front = absorb_all(m, rel, decls.drop_last(), now);
        let d = decls.last();
        put(front, d.name, absorb(lookup(front, d.name), rel, d, now))
    }
}

/// The concepts that the facts of all files declare.
pub open spec fn assembled(facts: Seq<(Seq<char>, FileFactsView)>, now: int) -> Seq<
    (Seq<char>, ConceptView),
>
    decreases facts.len(),
{
    if facts.len() == 0 {
        seq![]
    } else {
        absorb_all(
            assembled(facts.drop_last(), now),
            facts.last().0,
            facts.last().1.decls,
            now,
        )
    }
}

fn absorbed(c: Option<&Concept>, rel: &str, d: &DeclFragment, now: i64) -> (r: Concept)
    ensures
        r.deep_view() == absorb(
            match c {
                Some(x) => Some(x.deep_view()),
                None => None,
            },
            rel@,
            d.deep_view(),
            now as int,
        ),
{
    let mut x = match c {
        Some(c) => c.copy(),
        None => {
            let mut x: Concept = Default::default();
            x.name = owned(d.name.as_str());
            x.first_seen_ms = now;
            assert(x.declared_in.deep_view() =~= seq![]);
            assert(x.fields.deep_view() =~= seq![]);
            assert(x.relations.deep_view() =~= seq![]);
            assert(x.usage.deep_view() =~= seq![]);
            x
        },
    };
    let ghost base = x.deep_view();
    x.declared_in.push((owned(rel), owned(d.kind.as_str())));
    assert(x.declared_in.deep_view() =~= base.declared_in.push((rel@, d.kind@)));
    if x.fields.len() == 0 {
        x.fields = copied(&d.fields);
    }
    if x.relations.len() == 0 {
        x.relations = copied(&d.relations);
    }
    if x.table.is_none() {
        x.table = copied_option(&d.table);
    }
    x
}

fn assemble_concepts(facts: &TextMap<FileFacts>, now: i64) -> (r: TextMap<Concept>)
    ensures
        r.deep_view() == assembled(facts.deep_view(), now as int),
{
    let mut out: TextMap<Concept> = TextMap::new();
    let ghost fv = facts.deep_view();
    let n: usize = facts.len();
    let mut i: usize = 0;
    while i < n
        invariant
            i <= n,
            n == fv.len(),
            fv == facts.deep_view(),
            out.deep_view() == assembled(fv.take(i as int), now as int),
        decreases n - i,
    {
        let ghost step = fv.take(i + 1);
        assert(step.drop_last() =~= fv.take(i as int));
        assert(step.last() == fv[i as int]);
        let rel = facts.key(i);
        let ff = facts.value(i);
        let ghost start = out.deep_view();
        let mut j: usize = 0;
        while j < ff.decls.len()
            invariant
                j <= ff.decls.len(),
                out.deep_view() == absorb_all(
                    start,
                    rel@,
                    ff.decls.deep_view().take(j as int),
                    now as int,
                ),
            decreases ff.decls.len() - j,
        {
            let ghost part = ff.decls.deep_view().take(j + 1);
            assert(part.drop_last() =~= ff.decls.deep_view().take(j as int));
            assert(part.last() == ff.decls[j as int].deep_view());
            let name = owned(ff.decls[j].name.as_str());
            let c = absorbed(out.get(name.as_str()), rel, &ff.decls[j], now);
            out = out.with(name, c);
            j += 1;
        }
        assert(ff.decls.deep_view().take(j as int) =~= ff.decls.deep_view());
        i += 1;
    }
    assert(fv.take(i as int) =~= fv);
    out
}

/// A concept keeps the time at which it was first seen by an earlier scan.
pub open spec fn dated(c: ConceptView, old: Option<ConceptView>, now: int) -> ConceptView {
    ConceptView {
        first_seen_ms: match old {
            Some(o) => if o.first_seen_ms > 0 {
                o.first_seen_ms
            } else {
                c.first_seen_ms
            },
            None => c.first_seen_ms,
        },
        last_verified_ms: now,
        ..c
    }
}

pub open spec fn each_dated(old: Seq<(Seq<char>, ConceptView)>, now: int) -> spec_fn(
    (Seq<char>, ConceptView),
) -> (Seq<char>, ConceptView) {
    |e: (Seq<char>, ConceptView)| (e.0, dated(e.1, lookup(old, e.0), now))
}

pub open spec fn prior_concepts(prior: Option<IndexView>) -> Seq<(Seq<char>, ConceptView)> {
    match usable(prior) {
        Some(p) => p.concepts,
        None => seq![],
    }
}

proof fn lemma_same_keys<V>(
    m: Seq<(Seq<char>, V)>,
    n: Seq<(Seq<char>, V)>,
    i: int,
)
    requires
        ordered(m),
        0 <= i < m.len(),
        n.len() == i,
        forall|j: int| 0 <= j < i ==> (#[trigger] n[j]).0 == m[j].0,
    ensures
        n.len() == 0 || before(n.last().0, m[i].0),
{
    if n.len() > 0 {
        assert(n[i - 1].0 == m[i - 1].0);
    }
}

fn date_concepts(concepts: TextMap<Concept>, old: &TextMap<Concept>, now: i64) -> (r: TextMap<
    Concept,
>)
    ensures
        r.deep_view() == concepts.deep_view().map_values(each_dated(old.deep_view(), now as int)),
{
    let ghost cv = concepts.deep_view();
    let ghost all = cv.map_values(each_dated(old.deep_view(), now as int));
    let mut out: TextMap<Concept> = TextMap::new();
    let n: usize = concepts.len();
    let mut i: usize = 0;
    while i < n
        invariant
            i <= n,
            n == cv.len(),
            cv == concepts.deep_view(),
            ordered(cv),
            all == cv.map_values(each_dated(old.deep_view(), now as int)),
            out.deep_view() =~= all.take(i as int),
        decreases n - i,
    {
        let name = owned(concepts.key(i));
        let mut c = concepts.value(i).copy();
        if let Some(o) = old.get(name.as_str()) {
            if o.first_seen_ms > 0 {
                c.first_seen_ms = o.first_seen_ms;
            }
        }
        c.last_verified_ms = now;
        assert(all[i as int] == (name@, c.deep_view()));
        proof {
            lemma_same_keys(cv, out.deep_view(), i as int);
        }
        out = out.followed_by(name, c);
        assert(all.take(i + 1) =~= all.take(i as int).push(all[i as int]));
        i += 1;
    }
    assert(all.take(i as int) =~= all);
    out
}

// ---------------------------------------------------------------------------
// Declarations that share a table are one concept
// ---------------------------------------------------------------------------

pub open spec fn is_sql_only(c: ConceptView) -> bool {
    forall|i: int| 0 <= i < c.declared_in.len() ==> (#[trigger] c.declared_in[i]).1 == "sql"@
}

/// A concept is stored in the table of this name.
pub open spec fn stored_in(c: ConceptView, name: Seq<char>) -> bool {
    match c.table {
        Some(t) => ascii_lower(t) == ascii_lower(name),
        None => false,
    }
}

/// The first other concept that is stored in the table `name`.
pub open spec fn table_owner(m: Seq<(Seq<char>, ConceptView)>, name: Seq<char>) -> Option<Seq<char>>
    decreases m.len(),
{
    if m.len() == 0 {
        None
    } else if m[0].0 != name && stored_in(m[0].1, name) {
        Some(m[0].0)
    } else {
        table_owner(m.skip(1), name)
    }
}

pub open spec fn each_merge(m: Seq<(Seq<char>, ConceptView)>) -> spec_fn(
    (Seq<char>, ConceptView),
) -> Option<(Seq<char>, Seq<char>)> {
    |e: (Seq<char>, ConceptView)|
        if is_sql_only(e.1) {
            match table_owner(m, e.0) {
                Some(t) => Some((e.0, t)),
                None => None,
            }
        } else {
            None
        }
}

/// The concepts that are tables of another concept, with that concept.
pub open spec fn merges(m: Seq<(Seq<char>, ConceptView)>) -> Seq<(Seq<char>, Seq<char>)> {
    m.filter_map(each_merge(m))
}

/// A concept with the declarations of its table taken in.
pub open spec fn merged(t: ConceptView, d: ConceptView) -> ConceptView {
    ConceptView {
        declared_in: t.declared_in + d.declared_in,
        first_seen_ms: if d.first_seen_ms > 0 && d.first_seen_ms < t.first_seen_ms {
            d.first_seen_ms
        } else {
            t.first_seen_ms
        },
        table: if t.table is None {
            d.table
        } else {
            t.table
        },
        ..t
    }
}

/// One merge; nothing happens where either concept is gone already.
pub open spec fn merge_one(
    m: Seq<(Seq<char>, ConceptView)>,
    dupe: Seq<char>,
    target: Seq<char>,
) -> Seq<(Seq<char>, ConceptView)> {
    match (lookup(m, dupe), lookup(m, target)) {
        (Some(d), Some(t)) => if dupe != target {
            put(without(m, dupe), target, merged(t, d))
        } else {
            m
        },
        _ => m,
    }
}

pub open spec fn merge_all(
    m: Seq<(Seq<char>, ConceptView)>,
    pairs: Seq<(Seq<char>, Seq<char>)>,
) -> Seq<(Seq<char>, ConceptView)>
    decreases pairs.len(),
{
    if pairs.len() == 0 {
        m
    } else {
        merge_one(merge_all(m, pairs.drop_last()), pairs.last().0, pairs.last().1)
    }
}

fn sql_only(c: &Concept) -> (r: bool)
    ensures
        r == is_sql_only(c.deep_view()),
{
    let mut i: usize = 0;
    while i < c.declared_in.len()
        invariant
            i <= c.declared_in.len(),
            forall|j: int|
                0 <= j < i ==> (#[trigger] c.deep_view().declared_in[j]).1 == "sql"@,
        decreases c.declared_in.len() - i,
    {
        if !same(c.declared_in[i].1.as_str(), "sql") {
            assert(c.deep_view().declared_in[i as int].1 != "sql"@);
            return false;
        }
        i += 1;
    }
    true
}

fn table_owner_of(concepts: &TextMap<Concept>, name: &str) -> (r: Option<String>)
    ensures
        r.deep_view() == table_owner(concepts.deep_view(), name@),
{
    let ghost cv = concepts.deep_view();
    let n: usize = concepts.len();
    let mut i: usize = 0;
    assert(cv.skip(0) =~= cv);
    while i < n
        invariant
            i <= n,
            n == cv.len(),
            cv == concepts.deep_view(),
            table_owner(cv, name@) == table_owner(cv.skip(i as int), name@),
        decreases n - i,
    {
        assert(cv.skip(i as int)[0] == cv[i as int]);
        let c = concepts.value(i);
        if let Some(t) = &c.table {
            if !same(concepts.key(i), name) && same_ignoring_case(t.as_str(), name) {
                return Some(owned(concepts.key(i)));
            }
        }
        assert(cv.skip(i as int).skip(1) =~= cv.skip(i + 1));
        i += 1;
    }
    None
}

fn find_merges(concepts: &TextMap<Concept>) -> (r: Vec<(String, String)>)
    ensures
        r.deep_view() == merges(concepts.deep_view()),
{
    let ghost cv = concepts.deep_view();
    let ghost f = each_merge(cv);
    let n: usize = concepts.len();
    let mut out: Vec<(String, String)> = Vec::new();
    let mut i: usize = 0;
    proof {
        assert(cv.take(0) =~= seq![]);
        reveal(Seq::filter_map);
    }
    while i < n
        invariant
            i <= n,
            n == cv.len(),
            cv == concepts.deep_view(),
            f == each_merge(cv),
            out.deep_view() =~= cv.take(i as int).filter_map(f),
        decreases n - i,
    {
        let ghost so_far = out.deep_view();
        proof {
            cv.lemma_filter_map_take_succ(f, i as int);
        }
        if sql_only(concepts.value(i)) {
            if let Some(t) = table_owner_of(concepts, concepts.key(i)) {
                let ghost p = (cv[i as int].0, t@);
                out.push((owned(concepts.key(i)), t));
                assert(out.deep_view() =~= so_far + seq![p]);
            }
        }
        i += 1;
    }
    assert(cv.take(i as int) =~= cv);
    out
}

fn merge_concepts(concepts: TextMap<Concept>) -> (r: TextMap<Concept>)
    ensures
        r.deep_view() == merge_all(concepts.deep_view(), merges(concepts.deep_view())),
{
    let pairs = find_merges(&concepts);
    let ghost cv = concepts.deep_view();
    let mut out = concepts;
    let mut i: usize = 0;
    while i < pairs.len()
        invariant
            i <= pairs.len(),
            out.deep_view() == merge_all(cv, pairs.deep_view().take(i as int)),
        decreases pairs.len() - i,
    {
        let ghost step = pairs.deep_view().take(i + 1);
        assert(step.drop_last() =~= pairs.deep_view().take(i as int));
        assert(step.last() == (pairs[i as int].0@, pairs[i as int].1@));
        let dupe = pairs[i].0.as_str();
        let target = pairs[i].1.as_str();
        if !same(dupe, target) {
            let d = match out.get(dupe) {
                Some(c) => Some(c.copy()),
                None => None,
            };
            let t = match out.get(target) {
                Some(c) => Some(c.copy()),
                None => None,
            };
            if let (Some(d), Some(t)) = (d, t) {
                let ghost dv = d.deep_view();
                let ghost tv = t.deep_view();
                let mut t = t;
                let mut more = d.declared_in;
                let ghost a = t.declared_in.deep_view();
                let ghost b = more.deep_view();
                t.declared_in.append(&mut more);
                assert(t.declared_in.deep_view() =~= a + b);
                if d.first_seen_ms > 0 && d.first_seen_ms < t.first_seen_ms {
                    t.first_seen_ms = d.first_seen_ms;
                }
                if t.table.is_none() {
                    t.table = d.table;
                }
                assert(t.deep_view() == merged(tv, dv));
                out = out.dropping(dupe).with(owned(target), t);
            }
        }
        i += 1;
    }
    assert(pairs.deep_view().take(i as int) =~= pairs.deep_view());
    out
}

// ---------------------------------------------------------------------------
// The signature of the set of concepts
// ---------------------------------------------------------------------------

/// The FNV-1a hash of a sequence of bytes.
pub open spec fn fnv(bytes: Seq<u8>) -> u64
    decreases bytes.len(),
{
    if bytes.len() == 0 {
        0xcbf29ce484222325
    } else {
        (fnv(bytes.drop_last()) ^ (bytes.last() as u64)).wrapping_mul(0x100000001b3)
    }
}

pub open spec fn hex_digit(d: int) -> char {
    if d < 10 {
        (48 + d) as u32 as char
    } else {
        (87 + d) as u32 as char
    }
}

/// A number in hexadecimal, in small letters and without leading zeros.
pub open spec fn hex(n: nat) -> Seq<char>
    decreases n,
{
    if n < 16 {
        seq![hex_digit(n as int)]
    } else {
        hex(n / 16).push(hex_digit((n % 16) as int))
    }
}

pub open spec fn each_signature_line() -> spec_fn((Seq<char>, ConceptView)) -> Seq<char> {
    |e: (Seq<char>, ConceptView)| e.0 + ":"@ + text_or_nothing(e.1.table)
}

/// What usage depends on: the names of the concepts and their tables.
pub open spec fn signature(m: Seq<(Seq<char>, ConceptView)>) -> Seq<char> {
    hex(
        fnv(
            encode_utf8(join(sorted(m.map_values(each_signature_line())), "|"@)),
        ) as nat,
    )
}

fn fnv_of(bytes: &[u8]) -> (h: u64)
    ensures
        h == fnv(bytes@),
{
    let mut h: u64 = 0xcbf29ce484222325;
    let mut i: usize = 0;
    assert(bytes@.take(0) =~= seq![]);
    while i < bytes.len()
        invariant
            i <= bytes@.len(),
            h == fnv(bytes@.take(i as int)),
        decreases bytes@.len() - i,
    {
        assert(bytes@.take(i + 1).drop_last() =~= bytes@.take(i as int));
        assert(bytes@.take(i + 1).last() == bytes@[i as int]);
        h = (h ^ (bytes[i] as u64)).wrapping_mul(0x100000001b3);
        i += 1;
    }
    assert(bytes@.take(i as int) =~= bytes@);
    h
}

fn hex_letter(d: u64) -> (c: char)
    requires
        d < 16,
    ensures
        c == hex_digit(d as int),
{
    match d {
        0 => '0',
        1 => '1',
        2 => '2',
        3 => '3',
        4 => '4',
        5 => '5',
        6 => '6',
        7 => '7',
        8 => '8',
        9 => '9',
        10 => 'a',
        11 => 'b',
        12 => 'c',
        13 => 'd',
        14 => 'e',
        _ => 'f',
    }
}

/// A number in hexadecimal.
pub fn hex_text(n: u64) -> (r: String)
    ensures
        r@ == hex(n as nat),
    decreases n,
{
    if n < 16 {
        let mut out = String::new();
        push_char(&mut out, hex_letter(n));
        assert(out@ =~= seq![hex_digit(n as int)]);
        out
    } else {
        let mut out = hex_text(n / 16);
        push_char(&mut out, hex_letter(n % 16));
        out
    }
}

/// The signature of a set of concepts.
pub fn concepts_signature(concepts: &TextMap<Concept>) -> (r: String)
    ensures
        r@ == signature(concepts.deep_view()),
{
    let ghost cv = concepts.deep_view();
    let ghost all = cv.map_values(each_signature_line());
    let n: usize = concepts.len();
    let mut lines: Vec<String> = Vec::new();
    let mut i: usize = 0;
    while i < n
        invariant
            i <= n,
            n == cv.len(),
            cv == concepts.deep_view(),
            all == cv.map_values(each_signature_line()),
            lines.deep_view() =~= all.take(i as int),
        decreases n - i,
    {
        let ghost so_far = lines.deep_view();
        let mut line = owned(concepts.key(i));
        line.append(":");
        let c = concepts.value(i);
        if let Some(t) = &c.table {
            line.append(t.as_str());
        }
        assert(line@ =~= all[i as int]);
        lines.push(line);
        assert(lines.deep_view() =~= so_far.push(all[i as int]));
        i += 1;
    }
    assert(all.take(i as int) =~= all);
    let whole = joined(&sorted_list(&lines), "|");
    hex_text(fnv_of(whole.as_str().as_bytes()))
}

// ---------------------------------------------------------------------------
// Usage
// ---------------------------------------------------------------------------

/// A way in which source code touches a concept.
#[derive(Clone, Copy, PartialEq, Eq, Structural)]
pub enum Access {
    OrmClient,
    DjangoOrm,
    Constructed,
    MongooseStatic,
    RailsStatic,
    EloquentStatic,
    GormLiteral,
    DrizzleQuery,
    TypeormRepository,
    RawSql,
}

pub open spec fn access_kind(a: Access) -> Seq<char> {
    match a {
        Access::OrmClient => "orm-client"@,
        Access::DjangoOrm => "django-orm"@,
        Access::Constructed => "constructed"@,
        Access::MongooseStatic => "mongoose-static"@,
        Access::RailsStatic => "rails-static"@,
        Access::EloquentStatic => "eloquent-static"@,
        Access::GormLiteral => "gorm-literal"@,
        Access::DrizzleQuery => "drizzle-query"@,
        Access::TypeormRepository => "typeorm-repository"@,
        Access::RawSql => "raw-sql"@,
    }
}

pub open spec fn has_kind(c: ConceptView, kind: Seq<char>) -> bool {
    exists|i: int| 0 <= i < c.declared_in.len() && (#[trigger] c.declared_in[i]).1 == kind
}

/// A name with its first letter small, if that is an ASCII letter.
pub open spec fn uncapitalized(name: Seq<char>) -> Seq<char> {
    if name.len() > 0 {
        seq![lower_char(name[0])] + name.skip(1)
    } else {
        name
    }
}

/// The text holds the needle, and the expression matches in it.
pub open spec fn seen(text: Seq<char>, needle: Seq<char>, pattern: Seq<char>) -> bool {
    contains(text, needle) && found(pattern, text).len() > 0
}

/// Whether a text touches a concept in this way. A dialect's way counts only
/// for a concept that is declared in that dialect.
pub open spec fn accesses(
    a: Access,
    name: Seq<char>,
    c: ConceptView,
    text: Seq<char>,
    lower: Seq<char>,
) -> bool {
    let e = escaped(name);
    match a {
        Access::OrmClient => seen(
            text,
            "."@ + uncapitalized(name) + "."@,
            r"\b(?:prisma|db|tx|client)\."@ + escaped(uncapitalized(name)) + r"\."@,
        ),
        Access::DjangoOrm => contains(text, name + ".objects."@),
        Access::Constructed => encode_utf8(name).len() >= 5 && seen(
            text,
            name + "("@,
            r"\b"@ + e + r"\("@,
        ),
        Access::MongooseStatic => has_kind(c, "mongoose"@) && seen(
            text,
            name,
            r"\b"@ + e
                + r"\.(?:find|findOne|findById|create|updateOne|deleteOne|countDocuments|aggregate|exists)\("@,
        ),
        Access::RailsStatic => has_kind(c, "rails"@) && seen(
            text,
            name,
            r"\b"@ + e + r"\.(?:find|find_by|where|create|new|all|first|joins|includes|count)\b"@,
        ),
        Access::EloquentStatic => has_kind(c, "eloquent"@) && seen(
            text,
            name,
            r"\b"@ + e + r"::"@,
        ),
        Access::GormLiteral => has_kind(c, "gorm"@) && seen(text, name, r"\b"@ + e + r"\{"@),
        Access::DrizzleQuery => has_kind(c, "drizzle"@) && seen(
            text,
            name,
            r"(?:from|insert|update|delete)\(\s*"@ + e + r"\s*[,)]"@,
        ),
        Access::TypeormRepository => has_kind(c, "typeorm"@) && seen(
            text,
            name,
            r"(?:Repository<"@ + e + r">|getRepository\("@ + e + r"\)|InjectRepository\("@ + e
                + r"\))"@,
        ),
        Access::RawSql => match c.table {
            Some(t) => seen(
                lower,
                lowered(t),
                r#"(?i)(?:insert\s+into|update|from|join)\s+["'`]?"#@ + escaped(lowered(t))
                    + r"\b"@,
            ),
            None => false,
        },
    }
}

#[verifier::opaque]
pub open spec fn hit(
    so_far: Seq<(Seq<char>, Seq<char>)>,
    a: Access,
    name: Seq<char>,
    c: ConceptView,
    text: Seq<char>,
    lower: Seq<char>,
) -> Seq<(Seq<char>, Seq<char>)> {
    if accesses(a, name, c, text, lower) {
        so_far.push((name, access_kind(a)))
    } else {
        so_far
    }
}

/// All ways in which a text touches one concept, added to what was seen before.
pub open spec fn concept_hits(
    so_far: Seq<(Seq<char>, Seq<char>)>,
    name: Seq<char>,
    c: ConceptView,
    text: Seq<char>,
    lower: Seq<char>,
) -> Seq<(Seq<char>, Seq<char>)> {
    let h = hit(so_far, Access::OrmClient, name, c, text, lower);
    let h = hit(h, Access::DjangoOrm, name, c, text, lower);
    let h = hit(h, Access::Constructed, name, c, text, lower);
    let h = hit(h, Access::MongooseStatic, name, c, text, lower);
    let h = hit(h, Access::RailsStatic, name, c, text, lower);
    let h = hit(h, Access::EloquentStatic, name, c, text, lower);
    let h = hit(h, Access::GormLiteral, name, c, text, lower);
    let h = hit(h, Access::DrizzleQuery, name, c, text, lower);
    let h = hit(h, Access::TypeormRepository, name, c, text, lower);
    hit(h, Access::RawSql, name, c, text, lower)
}

/// Every concept that a text touches, with the way in which it does.
pub open spec fn text_hits(
    m: Seq<(Seq<char>, ConceptView)>,
    text: Seq<char>,
    lower: Seq<char>,
) -> Seq<(Seq<char>, Seq<char>)>
    decreases m.len(),
{
    if m.len() == 0 {
        seq![]
    } else {
        concept_hits(text_hits(m.drop_last(), text, lower), m.last().0, m.last().1, text, lower)
    }
}

fn access_text(a: Access) -> (r: String)
    ensures
        r@ == access_kind(a),
{
    match a {
        Access::OrmClient => owned("orm-client"),
        Access::DjangoOrm => owned("django-orm"),
        Access::Constructed => owned("constructed"),
        Access::MongooseStatic => owned("mongoose-static"),
        Access::RailsStatic => owned("rails-static"),
        Access::EloquentStatic => owned("eloquent-static"),
        Access::GormLiteral => owned("gorm-literal"),
        Access::DrizzleQuery => owned("drizzle-query"),
        Access::TypeormRepository => owned("typeorm-repository"),
        Access::RawSql => owned("raw-sql"),
    }
}

pub fn declared_as(c: &Concept, kind: &str) -> (r: bool)
    ensures
        r == has_kind(c.deep_view(), kind@),
{
    let mut i: usize = 0;
    while i < c.declared_in.len()
        invariant
            i <= c.declared_in.len(),
            forall|j: int| 0 <= j < i ==> (#[trigger] c.deep_view().declared_in[j]).1 != kind@,
        decreases c.declared_in.len() - i,
    {
        assert(c.deep_view().declared_in[i as int].1 == c.declared_in[i as int].1@);
        if same(c.declared_in[i].1.as_str(), kind) {
            return true;
        }
        i += 1;
    }
    false
}

fn uncapitalized_text(name: &str) -> (r: String)
    ensures
        r@ == uncapitalized(name@),
{
    let cs = chars_of(name);
    if cs.len() > 0 {
        let head = cut(&cs, 0, 1);
        let mut out = ascii_lowercase(head.as_str());
        let tail = cut(&cs, 1, cs.len());
        out.append(tail.as_str());
        assert(out@ =~= uncapitalized(name@));
        out
    } else {
        owned(name)
    }
}

fn is_seen(text: &str, needle: &str, pattern: &str) -> (r: bool)
    ensures
        r == seen(text@, needle@, pattern@),
{
    holds(text, needle) && found_in(pattern, text).len() > 0
}

fn glued(a: &str, b: &str, c: &str) -> (r: String)
    ensures
        r@ == a@ + b@ + c@,
{
    let mut out = owned(a);
    out.append(b);
    out.append(c);
    out
}

fn is_accessed(a: Access, name: &str, c: &Concept, text: &str, lower: &str) -> (r: bool)
    ensures
        r == accesses(a, name@, c.deep_view(), text@, lower@),
{
    let e = escape(name);
    match a {
        Access::OrmClient => {
            let small = uncapitalized_text(name);
            let needle = glued(".", small.as_str(), ".");
            let pattern = glued(
                r"\b(?:prisma|db|tx|client)\.",
                escape(small.as_str()).as_str(),
                r"\.",
            );
            is_seen(text, needle.as_str(), pattern.as_str())
        },
        Access::DjangoOrm => {
            let mut needle = owned(name);
            needle.append(".objects.");
            holds(text, needle.as_str())
        },
        Access::Constructed => {
            let mut needle = owned(name);
            needle.append("(");
            let pattern = glued(r"\b", e.as_str(), r"\(");
            name.as_bytes().len() >= 5 && is_seen(text, needle.as_str(), pattern.as_str())
        },
        Access::MongooseStatic => {
            let pattern = glued(
                r"\b",
                e.as_str(),
                r"\.(?:find|findOne|findById|create|updateOne|deleteOne|countDocuments|aggregate|exists)\(",
            );
            declared_as(c, "mongoose") && is_seen(text, name, pattern.as_str())
        },
        Access::RailsStatic => {
            let pattern = glued(
                r"\b",
                e.as_str(),
                r"\.(?:find|find_by|where|create|new|all|first|joins|includes|count)\b",
            );
            declared_as(c, "rails") && is_seen(text, name, pattern.as_str())
        },
        Access::EloquentStatic => {
            let pattern = glued(r"\b", e.as_str(), r"::");
            declared_as(c, "eloquent") && is_seen(text, name, pattern.as_str())
        },
        Access::GormLiteral => {
            let pattern = glued(r"\b", e.as_str(), r"\{");
            declared_as(c, "gorm") && is_seen(text, name, pattern.as_str())
        },
        Access::DrizzleQuery => {
            let pattern = glued(r"(?:from|insert|update|delete)\(\s*", e.as_str(), r"\s*[,)]");
            declared_as(c, "drizzle") && is_seen(text, name, pattern.as_str())
        },
        Access::TypeormRepository => {
            let mut pattern = glued(r"(?:Repository<", e.as_str(), r">|getRepository\(");
            pattern.append(e.as_str());
            pattern.append(r"\)|InjectRepository\(");
            pattern.append(e.as_str());
            pattern.append(r"\))");
            declared_as(c, "typeorm") && is_seen(text, name, pattern.as_str())
        },
        Access::RawSql => match &c.table {
            Some(t) => {
                let low = lowercase(t.as_str());
                let pattern = glued(
                    r#"(?i)(?:insert\s+into|update|from|join)\s+["'`]?"#,
                    escape(low.as_str()).as_str(),
                    r"\b",
                );
                is_seen(lower, low.as_str(), pattern.as_str())
            },
            None => false,
        },
    }
}

fn note_hit(
    hits: &mut Vec<(String, String)>,
    a: Access,
    name: &str,
    c: &Concept,
    text: &str,
    lower: &str,
)
    ensures
        final(hits).deep_view() == hit(
            old(hits).deep_view(),
            a,
            name@,
            c.deep_view(),
            text@,
            lower@,
        ),
{
    proof {
        reveal(hit);
    }
    let ghost so_far = hits.deep_view();
    if is_accessed(a, name, c, text, lower) {
        hits.push((owned(name), access_text(a)));
        assert(hits.deep_view() =~= so_far.push((name@, access_kind(a))));
    }
}

/// Every concept that a text touches, with the way in which it does.
pub fn find_usage(concepts: &TextMap<Concept>, text: &str) -> (r: Vec<(String, String)>)
    ensures
        r.deep_view() == text_hits(concepts.deep_view(), text@, lowered(text@)),
{
    let low = lowercase(text);
    let lower = low.as_str();
    let ghost cv = concepts.deep_view();
    let n: usize = concepts.len();
    let mut hits: Vec<(String, String)> = Vec::new();
    let mut i: usize = 0;
    assert(hits.deep_view() =~= seq![]);
    while i < n
        invariant
            i <= n,
            n == cv.len(),
            cv == concepts.deep_view(),
            hits.deep_view() == text_hits(cv.take(i as int), text@, lower@),
        decreases n - i,
    {
        let ghost step = cv.take(i + 1);
        assert(step.drop_last() =~= cv.take(i as int));
        assert(step.last() == cv[i as int]);
        let name = concepts.key(i);
        let c = concepts.value(i);
        note_hit(&mut hits, Access::OrmClient, name, c, text, lower);
        note_hit(&mut hits, Access::DjangoOrm, name, c, text, lower);
        note_hit(&mut hits, Access::Constructed, name, c, text, lower);
        note_hit(&mut hits, Access::MongooseStatic, name, c, text, lower);
        note_hit(&mut hits, Access::RailsStatic, name, c, text, lower);
        note_hit(&mut hits, Access::EloquentStatic, name, c, text, lower);
        note_hit(&mut hits, Access::GormLiteral, name, c, text, lower);
        note_hit(&mut hits, Access::DrizzleQuery, name, c, text, lower);
        note_hit(&mut hits, Access::TypeormRepository, name, c, text, lower);
        note_hit(&mut hits, Access::RawSql, name, c, text, lower);
        i += 1;
    }
    assert(cv.take(i as int) =~= cv);
    hits
}

/// What is seen in a file: what is known of it where neither it nor the set of
/// concepts changed, otherwise what is read from its text.
pub open spec fn hits_of(
    m: Seq<(Seq<char>, ConceptView)>,
    reuse: bool,
    facts: Seq<(Seq<char>, FileFactsView)>,
    f: ScannableFileView,
) -> Seq<(Seq<char>, Seq<char>)> {
    if reuse && is_unchanged(facts, f) {
        lookup(facts, f.rel)->0.usage
    } else {
        match f.text {
            Some(t) => text_hits(m, t, lowered(t)),
            None => seq![],
        }
    }
}

pub open spec fn declares_in(c: ConceptView, rel: Seq<char>) -> bool {
    exists|i: int| 0 <= i < c.declared_in.len() && (#[trigger] c.declared_in[i]).0 == rel
}

/// One sighting: a file that declares a concept does not use it.
pub open spec fn with_sighting(
    m: Seq<(Seq<char>, ConceptView)>,
    rel: Seq<char>,
    h: (Seq<char>, Seq<char>),
) -> Seq<(Seq<char>, ConceptView)> {
    match lookup(m, h.0) {
        Some(c) => if declares_in(c, rel) {
            m
        } else {
            put(m, h.0, ConceptView { usage: c.usage.push((rel, h.1)), ..c })
        },
        None => m,
    }
}

pub open spec fn with_sightings(
    m: Seq<(Seq<char>, ConceptView)>,
    rel: Seq<char>,
    hits: Seq<(Seq<char>, Seq<char>)>,
) -> Seq<(Seq<char>, ConceptView)>
    decreases hits.len(),
{
    if hits.len() == 0 {
        m
    } else {
        with_sighting(with_sightings(m, rel, hits.drop_last()), rel, hits.last())
    }
}

/// The facts of a file with what was seen in it.
pub open spec fn with_usage(
    facts: Seq<(Seq<char>, FileFactsView)>,
    rel: Seq<char>,
    hits: Seq<(Seq<char>, Seq<char>)>,
) -> Seq<(Seq<char>, FileFactsView)> {
    match lookup(facts, rel) {
        Some(ff) => put(facts, rel, FileFactsView { usage: hits, ..ff }),
        None => facts,
    }
}

/// Concepts and facts while usage is being attached.
pub struct Attaching {
    pub concepts: Seq<(Seq<char>, ConceptView)>,
    pub facts: Seq<(Seq<char>, FileFactsView)>,
}

/// Usage attached file by file; a schema file uses nothing.
pub open spec fn attached(
    start: Attaching,
    reuse: bool,
    prior: Seq<(Seq<char>, FileFactsView)>,
    files: Seq<ScannableFileView>,
) -> Attaching
    decreases files.len(),
{
    if files.len() == 0 {
        start
    } else {
        let a = attached(start, reuse, prior, files.drop_last());
        let f = files.last();
        if extension(f.rel) == Some("prisma"@) {
            a
        } else {
            let hits = hits_of(start.concepts, reuse, prior, f);
            Attaching {
                concepts: with_sightings(a.concepts, f.rel, hits),
                facts: with_usage(a.facts, f.rel, hits),
            }
        }
    }
}

pub open spec fn each_settled() -> spec_fn((Seq<char>, ConceptView)) -> (Seq<char>, ConceptView) {
    |e: (Seq<char>, ConceptView)| (e.0, ConceptView { usage: pair_set(e.1.usage), ..e.1 })
}

fn hits_in(
    concepts: &TextMap<Concept>,
    reuse: bool,
    facts: &TextMap<FileFacts>,
    f: &ScannableFile,
) -> (r: Vec<(String, String)>)
    ensures
        r.deep_view() == hits_of(
            concepts.deep_view(),
            reuse,
            facts.deep_view(),
            f.deep_view(),
        ),
{
    if reuse && unchanged(facts, f) {
        if let Some(pf) = facts.get(f.rel.as_str()) {
            return copied_pairs(&pf.usage);
        }
    }
    match &f.text {
        Some(t) => find_usage(concepts, t.as_str()),
        None => {
            let v: Vec<(String, String)> = Vec::new();
            assert(v.deep_view() =~= seq![]);
            v
        },
    }
}

fn declared_at(c: &Concept, rel: &str) -> (r: bool)
    ensures
        r == declares_in(c.deep_view(), rel@),
{
    let mut i: usize = 0;
    while i < c.declared_in.len()
        invariant
            i <= c.declared_in.len(),
            forall|j: int| 0 <= j < i ==> (#[trigger] c.deep_view().declared_in[j]).0 != rel@,
        decreases c.declared_in.len() - i,
    {
        assert(c.deep_view().declared_in[i as int].0 == c.declared_in[i as int].0@);
        if same(c.declared_in[i].0.as_str(), rel) {
            return true;
        }
        i += 1;
    }
    false
}

fn add_sightings(concepts: TextMap<Concept>, rel: &str, hits: &Vec<(String, String)>) -> (r: TextMap<
    Concept,
>)
    ensures
        r.deep_view() == with_sightings(concepts.deep_view(), rel@, hits.deep_view()),
{
    let ghost start = concepts.deep_view();
    let mut out = concepts;
    let mut i: usize = 0;
    while i < hits.len()
        invariant
            i <= hits.len(),
            out.deep_view() == with_sightings(start, rel@, hits.deep_view().take(i as int)),
        decreases hits.len() - i,
    {
        let ghost step = hits.deep_view().take(i + 1);
        assert(step.drop_last() =~= hits.deep_view().take(i as int));
        assert(step.last() == (hits[i as int].0@, hits[i as int].1@));
        let name = hits[i].0.as_str();
        let grown = match out.get(name) {
            Some(c) => if declared_at(c, rel) {
                None
            } else {
                let mut x = c.copy();
                let ghost u = x.usage.deep_view();
                x.usage.push((owned(rel), owned(hits[i].1.as_str())));
                assert(x.usage.deep_view() =~= u.push((rel@, hits[i as int].1@)));
                Some(x)
            },
            None => None,
        };
        if let Some(x) = grown {
            out = out.with(owned(name), x);
        }
        i += 1;
    }
    assert(hits.deep_view().take(i as int) =~= hits.deep_view());
    out
}

fn add_usage(facts: TextMap<FileFacts>, rel: &str, hits: Vec<(String, String)>) -> (r: TextMap<
    FileFacts,
>)
    ensures
        r.deep_view() == with_usage(facts.deep_view(), rel@, hits.deep_view()),
{
    let grown = match facts.get(rel) {
        Some(ff) => Some(
            FileFacts {
                size: ff.size,
                mtime_ms: ff.mtime_ms,
                decls: crate::model::copied_fragments(&ff.decls),
                usage: hits,
                decl_kinds: copied(&ff.decl_kinds),
            },
        ),
        None => None,
    };
    match grown {
        Some(ff) => facts.with(owned(rel), ff),
        None => facts,
    }
}

fn is_schema_file(rel: &str) -> (r: bool)
    ensures
        r == (extension(rel@) == Some("prisma"@)),
{
    match extension_of(rel) {
        Some(e) => same(e.as_str(), "prisma"),
        None => false,
    }
}

fn attach_usage(
    concepts: TextMap<Concept>,
    facts: TextMap<FileFacts>,
    reuse: bool,
    prior: &TextMap<FileFacts>,
    files: &Vec<ScannableFile>,
) -> (r: (TextMap<Concept>, TextMap<FileFacts>))
    ensures
        r.0.deep_view() == attached(
            Attaching { concepts: concepts.deep_view(), facts: facts.deep_view() },
            reuse,
            prior.deep_view(),
            files.deep_view(),
        ).concepts,
        r.1.deep_view() == attached(
            Attaching { concepts: concepts.deep_view(), facts: facts.deep_view() },
            reuse,
            prior.deep_view(),
            files.deep_view(),
        ).facts,
{
    let ghost start = Attaching { concepts: concepts.deep_view(), facts: facts.deep_view() };
    let ghost pv = prior.deep_view();
    let mut found_hits: Vec<Vec<(String, String)>> = Vec::new();
    let mut i: usize = 0;
    while i < files.len()
        invariant
            i <= files.len(),
            start.concepts == concepts.deep_view(),
            pv == prior.deep_view(),
            found_hits.len() == i,
            forall|j: int|
                0 <= j < i ==> (#[trigger] found_hits[j]).deep_view() == hits_of(
                    start.concepts,
                    reuse,
                    pv,
                    files[j].deep_view(),
                ),
        decreases files.len() - i,
    {
        found_hits.push(hits_in(&concepts, reuse, prior, &files[i]));
        i += 1;
    }
    let mut cs = concepts;
    let mut fs = facts;
    let mut k: usize = 0;
    while k < files.len()
        invariant
            k <= files.len(),
            found_hits.len() == files.len(),
            forall|j: int|
                0 <= j < files.len() ==> (#[trigger] found_hits[j]).deep_view() == hits_of(
                    start.concepts,
                    reuse,
                    pv,
                    files[j].deep_view(),
                ),
            cs.deep_view() == attached(start, reuse, pv, files.deep_view().take(k as int)).concepts,
            fs.deep_view() == attached(start, reuse, pv, files.deep_view().take(k as int)).facts,
        decreases files.len() - k,
    {
        let ghost step = files.deep_view().take(k + 1);
        assert(step.drop_last() =~= files.deep_view().take(k as int));
        assert(step.last() == files[k as int].deep_view());
        if !is_schema_file(files[k].rel.as_str()) {
            let hits = copied_pairs(&found_hits[k]);
            cs = add_sightings(cs, files[k].rel.as_str(), &hits);
            fs = add_usage(fs, files[k].rel.as_str(), hits);
        }
        k += 1;
    }
    assert(files.deep_view().take(k as int) =~= files.deep_view());
    (cs, fs)
}

fn settle_usage(concepts: TextMap<Concept>) -> (r: TextMap<Concept>)
    ensures
        r.deep_view() == concepts.deep_view().map_values(each_settled()),
{
    let ghost cv = concepts.deep_view();
    let ghost all = cv.map_values(each_settled());
    let mut out: TextMap<Concept> = TextMap::new();
    let n: usize = concepts.len();
    let mut i: usize = 0;
    while i < n
        invariant
            i <= n,
            n == cv.len(),
            cv == concepts.deep_view(),
            ordered(cv),
            all == cv.map_values(each_settled()),
            out.deep_view() =~= all.take(i as int),
        decreases n - i,
    {
        let name = owned(concepts.key(i));
        let mut c = concepts.value(i).copy();
        let usage = distinct_pairs(&c.usage);
        c.usage = usage;
        assert(all[i as int] == (name@, c.deep_view()));
        proof {
            lemma_same_keys(cv, out.deep_view(), i as int);
        }
        out = out.followed_by(name, c);
        assert(all.take(i + 1) =~= all.take(i as int).push(all[i as int]));
        i += 1;
    }
    assert(all.take(i as int) =~= all);
    out
}

// ---------------------------------------------------------------------------
// The whole scan
// ---------------------------------------------------------------------------

/// The concepts that a scan assembles, before usage is attached.
pub open spec fn scanned_concepts(
    root: Seq<char>,
    files: Seq<ScannableFileView>,
    prior: Option<IndexView>,
    now: int,
) -> Seq<(Seq<char>, ConceptView)> {
    let facts = all_facts(root, prior_facts(prior), files);
    let dated = assembled(facts, now).map_values(each_dated(prior_concepts(prior), now));
    merge_all(dated, merges(dated))
}

/// Usage seen earlier holds only against the set of concepts it was seen with.
pub open spec fn can_reuse_usage(
    m: Seq<(Seq<char>, ConceptView)>,
    prior: Option<IndexView>,
) -> bool {
    match usable(prior) {
        Some(p) => p.concepts_sig == signature(m),
        None => false,
    }
}

/// The index of a repository: from its settings, its files, and what an earlier
/// scan left.
pub open spec fn scanned(
    root: Seq<char>,
    own: SettingsView,
    files: Seq<ScannableFileView>,
    prior: Option<IndexView>,
    now: int,
) -> IndexView {
    let facts = all_facts(root, prior_facts(prior), files);
    let concepts = scanned_concepts(root, files, prior, now);
    let a = attached(
        Attaching { concepts, facts },
        can_reuse_usage(concepts, prior),
        prior_facts(prior),
        files,
    );
    IndexView {
        root,
        files_scanned: files.len() as int,
        declaration_files: (if own.present {
            seq![("archietect.toml"@, "ontology"@)]
        } else {
            seq![]
        }) + declaration_list(root, prior_facts(prior), files),
        concepts: a.concepts.map_values(each_settled()),
        aliases: own.aliases,
        decisions: own.decisions,
        file_facts: a.facts,
        concepts_sig: signature(concepts),
        extractor_version: EXTRACTOR_VERSION as int,
        excludes: own.excludes,
        decision_required_paths: seq![],
    }
}

/// Builds the index of a repository. Where an earlier index was made by the same
/// extractors, an unchanged file contributes what it did then, and the text
/// given for it is not looked at.
pub fn scan_with_prior(
    root: &str,
    own: Settings,
    files: &Vec<ScannableFile>,
    prior: Option<Index>,
    now: i64,
) -> (r: Index)
    ensures
        r.deep_view() == scanned(
            root@,
            own.deep_view(),
            files.deep_view(),
            prior.deep_view(),
            now as int,
        ),
{
    let ghost pv = prior.deep_view();
    let (old_facts, old_concepts, old_sig) = match prior {
        Some(p) => if p.extractor_version == EXTRACTOR_VERSION {
            (p.file_facts, p.concepts, Some(p.concepts_sig))
        } else {
            (TextMap::new(), TextMap::new(), None)
        },
        None => (TextMap::new(), TextMap::new(), None),
    };
    assert(old_facts.deep_view() == prior_facts(pv));
    assert(old_concepts.deep_view() == prior_concepts(pv));
    let (facts, list) = collect_facts(root, &old_facts, files);
    let concepts = assemble_concepts(&facts, now);
    let concepts = date_concepts(concepts, &old_concepts, now);
    let concepts = merge_concepts(concepts);
    assert(concepts.deep_view() == scanned_concepts(root@, files.deep_view(), pv, now as int));
    let concepts_sig = concepts_signature(&concepts);
    let reuse = match old_sig {
        Some(s) => same(s.as_str(), concepts_sig.as_str()),
        None => false,
    };
    assert(reuse == can_reuse_usage(concepts.deep_view(), pv));
    let (concepts, file_facts) = attach_usage(concepts, facts, reuse, &old_facts, files);
    let concepts = settle_usage(concepts);
    let mut declaration_files: Vec<(String, String)> = Vec::new();
    if own.present {
        declaration_files.push((owned("archietect.toml"), owned("ontology")));
    }
    let mut list = list;
    let ghost head = declaration_files.deep_view();
    let ghost tail = list.deep_view();
    declaration_files.append(&mut list);
    assert(declaration_files.deep_view() =~= head + tail);
    assert(head =~= if own.present {
        seq![("archietect.toml"@, "ontology"@)]
    } else {
        seq![]
    });
    let decision_required_paths: Vec<String> = Vec::new();
    assert(decision_required_paths.deep_view() =~= seq![]);
    Index {
        root: owned(root),
        files_scanned: files.len(),
        declaration_files,
        concepts,
        aliases: own.aliases,
        decisions: own.decisions,
        file_facts,
        concepts_sig,
        extractor_version: EXTRACTOR_VERSION,
        excludes: own.excludes,
        decision_required_paths,
    }
}

} // verus!
