//! What a patch changes: the objects of its files before and after, and the
//! decisions that stand behind each change. Missing evidence is a change of its
//! own, of an unknown kind.
use vstd::prelude::*;
use crate::extract::{declared, extract_declarations};
use crate::model::{DeclFragment, DeclFragmentView, Decision, DecisionView, Index, IndexView};
use crate::mutation_policy::{applicable_decisions, ruled, same_list};
use crate::outside::{found, found_in, group_texts, group_texts_of};
use crate::patch::{outcome, FileChange, FileChangeView};
use crate::paths::{extension, extension_of};
use crate::scan::{is_excluded, is_within, skip_excluded, within};
use crate::structural::{GraphView, Import, ImportView, Route, RouteView, StructuralGraph};
use crate::table::{
    has_key, lemma_sorted_set, lookup, put, sorted, sorted_distinct, sorted_list, sorted_set,
    TextMap,
};
use crate::text::{contains, ends_with, join, split, trim_end_of, CharClass};
use crate::text::{
    copied, copied_option, ends, holds, joined, listed, owned, same, same_option, split_at_char,
    trimmed_end_of,
};
use crate::written::{json_text, json_text_of};

verus! {

#[derive(Clone, Copy, Debug, PartialEq, Eq, Structural)]
pub enum MutationKind {
    Added,
    Removed,
    Modified,
    RelationshipAdded,
    RelationshipRemoved,
    Unknown,
}

impl MutationKind {
    pub open spec fn label_text(self) -> Seq<char> {
        match self {
            MutationKind::Added => "added"@,
            MutationKind::Removed => "removed"@,
            MutationKind::Modified => "modified"@,
            MutationKind::RelationshipAdded => "relationship_added"@,
            MutationKind::RelationshipRemoved => "relationship_removed"@,
            MutationKind::Unknown => "unknown"@,
        }
    }

    pub fn label(&self) -> (r: &'static str)
        ensures
            r@ == self.label_text(),
    {
        match self {
            MutationKind::Added => "added",
            MutationKind::Removed => "removed",
            MutationKind::Modified => "modified",
            MutationKind::RelationshipAdded => "relationship_added",
            MutationKind::RelationshipRemoved => "relationship_removed",
            MutationKind::Unknown => "unknown",
        }
    }
}

// ---------------------------------------------------------------------------
// Objects
// ---------------------------------------------------------------------------

/// A symbol with its source, as a parser saw it.
#[derive(Debug)]
pub struct SeenSymbol {
    pub name: String,
    pub kind: String,
    pub source: Option<String>,
    pub observation_source: String,
}

pub struct SeenSymbolView {
    pub name: Seq<char>,
    pub kind: Seq<char>,
    pub source: Option<Seq<char>>,
    pub observation_source: Seq<char>,
}

impl DeepView for SeenSymbol {
    type V = SeenSymbolView;

    open spec fn deep_view(&self) -> SeenSymbolView {
        SeenSymbolView {
            name: self.name@,
            kind: self.kind@,
            source: self.source.deep_view(),
            observation_source: self.observation_source@,
        }
    }
}

/// What a parser saw in one text, and what it could not make out.
#[derive(Debug)]
pub struct Snapshot {
    pub symbols: Vec<SeenSymbol>,
    pub imports: Vec<Import>,
    pub routes: Vec<Route>,
    pub uncertainty: Vec<String>,
}

pub struct SnapshotView {
    pub symbols: Seq<SeenSymbolView>,
    pub imports: Seq<ImportView>,
    pub routes: Seq<RouteView>,
    pub uncertainty: Seq<Seq<char>>,
}

impl DeepView for Snapshot {
    type V = SnapshotView;

    open spec fn deep_view(&self) -> SnapshotView {
        SnapshotView {
            symbols: self.symbols.deep_view(),
            imports: self.imports.deep_view(),
            routes: self.routes.deep_view(),
            uncertainty: self.uncertainty.deep_view(),
        }
    }
}

/// An object that a patch may change. The lists of a concept and of a
/// relationship are in order.
#[derive(Debug)]
pub enum Thing {
    Concept(DeclFragment),
    Symbol(SeenSymbol),
    Relationship(String, Vec<String>),
    Route(Route),
}

pub enum ThingView {
    Concept(DeclFragmentView),
    Symbol(SeenSymbolView),
    Relationship(Seq<char>, Seq<Seq<char>>),
    Route(RouteView),
}

impl DeepView for Thing {
    type V = ThingView;

    open spec fn deep_view(&self) -> ThingView {
        match self {
            Thing::Concept(d) => ThingView::Concept(d.deep_view()),
            Thing::Symbol(s) => ThingView::Symbol(s.deep_view()),
            Thing::Relationship(m, n) => ThingView::Relationship(m@, n.deep_view()),
            Thing::Route(r) => ThingView::Route(r.deep_view()),
        }
    }
}

/// An object with the name it goes by.
#[derive(Debug)]
pub struct Seen {
    pub name: String,
    pub thing: Thing,
}

pub struct SeenView {
    pub name: Seq<char>,
    pub thing: ThingView,
}

impl DeepView for Seen {
    type V = SeenView;

    open spec fn deep_view(&self) -> SeenView {
        SeenView { name: self.name@, thing: self.thing.deep_view() }
    }
}

pub open spec fn class_of(t: ThingView) -> Seq<char> {
    match t {
        ThingView::Concept(_) => "concept"@,
        ThingView::Symbol(_) => "symbol"@,
        ThingView::Relationship(_, _) => "relationship"@,
        ThingView::Route(_) => "route"@,
    }
}

pub open spec fn each_json() -> spec_fn(Seq<char>) -> Seq<char> {
    |s: Seq<char>| json_text(s)
}

pub open spec fn json_option(t: Option<Seq<char>>) -> Seq<char> {
    match t {
        Some(s) => json_text(s),
        None => "null"@,
    }
}

/// What sets an object apart from the others of its class.
pub open spec fn identity_of(t: ThingView) -> Seq<char> {
    match t {
        ThingView::Concept(d) => d.name,
        ThingView::Symbol(s) => s.name,
        ThingView::Relationship(m, n) => "{\"module\":"@ + json_text(m) + ",\"names\":["@ + join(
            n.map_values(each_json()),
            ","@,
        ) + "]}"@,
        ThingView::Route(r) => "{\"file\":"@ + json_text(r.file) + ",\"handler\":"@ + json_text(
            r.handler,
        ) + ",\"linked_concept\":"@ + json_option(r.linked_concept) + ",\"method\":"@ + json_text(
            r.method,
        ) + ",\"path\":"@ + json_text(r.path) + "}"@,
    }
}

pub open spec fn key_of(t: ThingView) -> Seq<char> {
    class_of(t) + "::"@ + identity_of(t)
}

pub open spec fn ordered_fragment(d: DeclFragmentView) -> DeclFragmentView {
    DeclFragmentView {
        name: d.name,
        kind: d.kind,
        fields: sorted(d.fields),
        relations: sorted(d.relations),
        table: d.table,
    }
}

pub open spec fn each_concept() -> spec_fn(DeclFragmentView) -> SeenView {
    |d: DeclFragmentView|
        SeenView { name: d.name, thing: ThingView::Concept(ordered_fragment(d)) }
}

pub open spec fn each_symbol() -> spec_fn(SeenSymbolView) -> SeenView {
    |s: SeenSymbolView| SeenView { name: s.name, thing: ThingView::Symbol(s) }
}

pub open spec fn each_relationship(path: Seq<char>) -> spec_fn(ImportView) -> SeenView {
    |i: ImportView|
        SeenView { name: path, thing: ThingView::Relationship(i.to_module, sorted(i.names)) }
}

pub open spec fn each_route(path: Seq<char>) -> spec_fn(RouteView) -> SeenView {
    |r: RouteView| SeenView { name: path, thing: ThingView::Route(r) }
}

/// All objects of a text, one after the other.
pub open spec fn things_in(path: Seq<char>, text: Seq<char>, s: SnapshotView) -> Seq<SeenView> {
    declared(path, text).decls.map_values(each_concept()) + s.symbols.map_values(each_symbol())
        + s.imports.map_values(each_relationship(path)) + s.routes.map_values(each_route(path))
}

/// Objects by their keys; of two with one key the later counts.
pub open spec fn keyed(list: Seq<SeenView>) -> Seq<(Seq<char>, SeenView)>
    decreases list.len(),
{
    if list.len() == 0 {
        seq![]
    } else {
        put(keyed(list.drop_last()), key_of(list.last().thing), list.last())
    }
}

pub open spec fn objects_in(path: Seq<char>, text: Seq<char>, s: SnapshotView) -> Seq<
    (Seq<char>, SeenView),
> {
    if text.len() == 0 {
        seq![]
    } else {
        keyed(things_in(path, text, s))
    }
}

/// A declaration that a text spells out.
pub const SPELLED_DECLARATION: &'static str =
    r"(?m)^(?:pub\s+)?(?:async\s+)?(?:fn|class|interface|struct|def|func)\s+([A-Za-z_][A-Za-z0-9_]*)";

/// The names of a list that came up before, each time that they did.
pub open spec fn repeated(names: Seq<Seq<char>>) -> Seq<Seq<char>>
    decreases names.len(),
{
    if names.len() == 0 {
        seq![]
    } else {
        let r = repeated(names.drop_last());
        if names.drop_last().contains(names.last()) {
            r.push(names.last())
        } else {
            r
        }
    }
}

pub open spec fn each_doubt(what: Seq<char>, path: Seq<char>) -> spec_fn(Seq<char>) -> Seq<char> {
    |n: Seq<char>| what + " '"@ + n + "' in "@ + path
}

pub open spec fn each_symbol_name() -> spec_fn(SeenSymbolView) -> Seq<char> {
    |s: SeenSymbolView| s.name
}

/// What is unclear about a text, given the names that it spells out.
pub open spec fn doubts(
    path: Seq<char>,
    text: Seq<char>,
    s: SnapshotView,
    spelled: Seq<Seq<char>>,
) -> Seq<Seq<char>> {
    if text.len() == 0 {
        seq![]
    } else {
        s.uncertainty + repeated(s.symbols.map_values(each_symbol_name())).map_values(
            each_doubt("Duplicate symbol identity"@, path),
        ) + repeated(spelled).map_values(each_doubt("Duplicate declaration identity"@, path))
    }
}

/// The names that a text spells out.
pub open spec fn spelled_names(text: Seq<char>) -> Seq<Seq<char>> {
    group_texts(found(SPELLED_DECLARATION@, text), 1)
}

impl SeenSymbol {
    pub fn copy(&self) -> (r: SeenSymbol)
        ensures
            r.deep_view() == self.deep_view(),
    {
        SeenSymbol {
            name: owned(self.name.as_str()),
            kind: owned(self.kind.as_str()),
            source: copied_option(&self.source),
            observation_source: owned(self.observation_source.as_str()),
        }
    }
}

impl Thing {
    pub fn copy(&self) -> (r: Thing)
        ensures
            r.deep_view() == self.deep_view(),
    {
        match self {
            Thing::Concept(d) => Thing::Concept(d.copy()),
            Thing::Symbol(s) => Thing::Symbol(s.copy()),
            Thing::Relationship(m, n) => Thing::Relationship(owned(m.as_str()), copied(n)),
            Thing::Route(r) => Thing::Route(r.copy()),
        }
    }

    /// The class of an object.
    pub fn class(&self) -> (r: &'static str)
        ensures
            r@ == class_of(self.deep_view()),
    {
        match self {
            Thing::Concept(_) => "concept",
            Thing::Symbol(_) => "symbol",
            Thing::Relationship(_, _) => "relationship",
            Thing::Route(_) => "route",
        }
    }
}

fn json_list(list: &Vec<String>) -> (r: Vec<String>)
    ensures
        r.deep_view() == list.deep_view().map_values(each_json()),
{
    let ghost all = list.deep_view().map_values(each_json());
    let mut out: Vec<String> = Vec::new();
    let mut i: usize = 0;
    while i < list.len()
        invariant
            i <= list.len(),
            all == list.deep_view().map_values(each_json()),
            out.deep_view() =~= all.take(i as int),
        decreases list.len() - i,
    {
        let ghost so_far = out.deep_view();
        assert(list.deep_view()[i as int] == list[i as int]@);
        out.push(json_text_of(list[i].as_str()));
        assert(out.deep_view() =~= so_far.push(all[i as int]));
        i += 1;
    }
    assert(all.take(i as int) =~= all);
    out
}

fn identity(t: &Thing) -> (r: String)
    ensures
        r@ == identity_of(t.deep_view()),
{
    match t {
        Thing::Concept(d) => owned(d.name.as_str()),
        Thing::Symbol(s) => owned(s.name.as_str()),
        Thing::Relationship(m, n) => {
            let mut out = owned("{\"module\":");
            out.append(json_text_of(m.as_str()).as_str());
            out.append(",\"names\":[");
            out.append(joined(&json_list(n), ",").as_str());
            out.append("]}");
            out
        },
        Thing::Route(r) => {
            let mut out = owned("{\"file\":");
            out.append(json_text_of(r.file.as_str()).as_str());
            out.append(",\"handler\":");
            out.append(json_text_of(r.handler.as_str()).as_str());
            out.append(",\"linked_concept\":");
            match &r.linked_concept {
                Some(c) => {
                    out.append(json_text_of(c.as_str()).as_str());
                },
                None => {
                    out.append("null");
                },
            }
            out.append(",\"method\":");
            out.append(json_text_of(r.method.as_str()).as_str());
            out.append(",\"path\":");
            out.append(json_text_of(r.path.as_str()).as_str());
            out.append("}");
            out
        },
    }
}

fn key(t: &Thing) -> (r: String)
    ensures
        r@ == key_of(t.deep_view()),
{
    let mut out = owned(t.class());
    out.append("::");
    out.append(identity(t).as_str());
    out
}

fn things(path: &str, text: &str, s: &Snapshot) -> (r: Vec<Seen>)
    ensures
        r.deep_view() == things_in(path@, text@, s.deep_view()),
{
    let (decls, _kinds) = extract_declarations(path, text);
    let ghost a = decls.deep_view().map_values(each_concept());
    let ghost b = s.symbols.deep_view().map_values(each_symbol());
    let ghost c = s.imports.deep_view().map_values(each_relationship(path@));
    let ghost d = s.routes.deep_view().map_values(each_route(path@));
    let mut out: Vec<Seen> = Vec::new();
    let mut i: usize = 0;
    while i < decls.len()
        invariant
            i <= decls.len(),
            a == decls.deep_view().map_values(each_concept()),
            out.deep_view() =~= a.take(i as int),
        decreases decls.len() - i,
    {
        let ghost so_far = out.deep_view();
        let x = &decls[i];
        assert(decls.deep_view()[i as int] == x.deep_view());
        let fragment = DeclFragment {
            name: owned(x.name.as_str()),
            kind: owned(x.kind.as_str()),
            fields: sorted_list(&x.fields),
            relations: sorted_list(&x.relations),
            table: copied_option(&x.table),
        };
        let y = Seen { name: owned(x.name.as_str()), thing: Thing::Concept(fragment) };
        assert(y.deep_view() == a[i as int]);
        out.push(y);
        assert(out.deep_view() =~= so_far.push(a[i as int]));
        i += 1;
    }
    assert(a.take(i as int) =~= a);
    let mut i: usize = 0;
    assert(a + b.take(0) =~= a);
    while i < s.symbols.len()
        invariant
            i <= s.symbols.len(),
            b == s.symbols.deep_view().map_values(each_symbol()),
            out.deep_view() =~= a + b.take(i as int),
        decreases s.symbols.len() - i,
    {
        let ghost so_far = out.deep_view();
        let x = &s.symbols[i];
        assert(s.symbols.deep_view()[i as int] == x.deep_view());
        let y = Seen { name: owned(x.name.as_str()), thing: Thing::Symbol(x.copy()) };
        assert(y.deep_view() == b[i as int]);
        out.push(y);
        assert(out.deep_view() =~= so_far.push(b[i as int]));
        i += 1;
    }
    assert(b.take(i as int) =~= b);
    let mut i: usize = 0;
    assert(a + b + c.take(0) =~= a + b);
    while i < s.imports.len()
        invariant
            i <= s.imports.len(),
            c == s.imports.deep_view().map_values(each_relationship(path@)),
            out.deep_view() =~= a + b + c.take(i as int),
        decreases s.imports.len() - i,
    {
        let ghost so_far = out.deep_view();
        let x = &s.imports[i];
        assert(s.imports.deep_view()[i as int] == x.deep_view());
        let y = Seen {
            name: owned(path),
            thing: Thing::Relationship(owned(x.to_module.as_str()), sorted_list(&x.names)),
        };
        assert(y.deep_view() == c[i as int]);
        out.push(y);
        assert(out.deep_view() =~= so_far.push(c[i as int]));
        i += 1;
    }
    assert(c.take(i as int) =~= c);
    let mut i: usize = 0;
    assert(a + b + c + d.take(0) =~= a + b + c);
    while i < s.routes.len()
        invariant
            i <= s.routes.len(),
            d == s.routes.deep_view().map_values(each_route(path@)),
            out.deep_view() =~= a + b + c + d.take(i as int),
        decreases s.routes.len() - i,
    {
        let ghost so_far = out.deep_view();
        let x = &s.routes[i];
        assert(s.routes.deep_view()[i as int] == x.deep_view());
        let y = Seen { name: owned(path), thing: Thing::Route(x.copy()) };
        assert(y.deep_view() == d[i as int]);
        out.push(y);
        assert(out.deep_view() =~= so_far.push(d[i as int]));
        i += 1;
    }
    assert(d.take(i as int) =~= d);
    out
}

/// The objects of a text by their keys.
pub fn objects(path: &str, text: &str, s: &Snapshot) -> (r: TextMap<Seen>)
    ensures
        r.deep_view() == objects_in(path@, text@, s.deep_view()),
{
    let mut m: TextMap<Seen> = TextMap::new();
    if text.is_empty() {
        return m;
    }
    let mut list = things(path, text, s);
    let ghost lv = list.deep_view();
    let ghost mut n: int = 0;
    assert(lv.skip(0) =~= lv);
    while list.len() > 0
        invariant
            0 <= n <= lv.len(),
            list.deep_view() =~= lv.skip(n),
            m.deep_view() == keyed(lv.take(n)),
        decreases list.len(),
    {
        let ghost before = list.deep_view();
        let x = list.remove(0);
        proof {
            assert(before.len() > 0);
            assert(before == lv.skip(n));
            assert(before[0] == x.deep_view());
            assert(lv.skip(n)[0] == lv[n]);
            assert(list.deep_view() =~= before.skip(1));
            let step = lv.take(n + 1);
            assert(step.drop_last() =~= lv.take(n));
            assert(step.last() == lv[n]);
            n = n + 1;
        }
        m = m.with(key(&x.thing), x);
    }
    assert(lv.take(n) =~= lv);
    m
}

fn repeats(names: &Vec<String>) -> (r: Vec<String>)
    ensures
        r.deep_view() == repeated(names.deep_view()),
{
    let ghost nv = names.deep_view();
    let mut seen: Vec<String> = Vec::new();
    let mut out: Vec<String> = Vec::new();
    let mut i: usize = 0;
    assert(out.deep_view() =~= seq![]);
    while i < names.len()
        invariant
            i <= names.len(),
            nv == names.deep_view(),
            seen.deep_view() =~= nv.take(i as int),
            out.deep_view() == repeated(nv.take(i as int)),
        decreases names.len() - i,
    {
        let ghost so_far = out.deep_view();
        let ghost passed = seen.deep_view();
        let n = names[i].as_str();
        proof {
            let step = nv.take(i + 1);
            assert(step.drop_last() =~= nv.take(i as int));
            assert(step.last() == n@);
        }
        if listed(&seen, n) {
            out.push(owned(n));
            assert(out.deep_view() =~= so_far.push(n@));
        }
        seen.push(owned(n));
        assert(seen.deep_view() =~= passed.push(n@));
        i += 1;
    }
    assert(nv.take(i as int) =~= nv);
    out
}

fn add_doubts(out: &mut Vec<String>, what: &str, path: &str, names: &Vec<String>)
    ensures
        final(out).deep_view() == old(out).deep_view() + names.deep_view().map_values(
            each_doubt(what@, path@),
        ),
{
    let ghost start = out.deep_view();
    let ghost all = names.deep_view().map_values(each_doubt(what@, path@));
    let mut i: usize = 0;
    assert(start + all.take(0) =~= start);
    while i < names.len()
        invariant
            i <= names.len(),
            all == names.deep_view().map_values(each_doubt(what@, path@)),
            out.deep_view() =~= start + all.take(i as int),
        decreases names.len() - i,
    {
        let ghost so_far = out.deep_view();
        assert(names.deep_view()[i as int] == names[i as int]@);
        let mut x = owned(what);
        x.append(" '");
        x.append(names[i].as_str());
        x.append("' in ");
        x.append(path);
        assert(x@ == all[i as int]);
        out.push(x);
        assert(out.deep_view() =~= so_far.push(all[i as int]));
        i += 1;
    }
    assert(all.take(i as int) =~= all);
}

fn symbol_names(list: &Vec<SeenSymbol>) -> (r: Vec<String>)
    ensures
        r.deep_view() == list.deep_view().map_values(each_symbol_name()),
{
    let ghost all = list.deep_view().map_values(each_symbol_name());
    let mut out: Vec<String> = Vec::new();
    let mut i: usize = 0;
    while i < list.len()
        invariant
            i <= list.len(),
            all == list.deep_view().map_values(each_symbol_name()),
            out.deep_view() =~= all.take(i as int),
        decreases list.len() - i,
    {
        let ghost so_far = out.deep_view();
        assert(list.deep_view()[i as int] == list[i as int].deep_view());
        out.push(owned(list[i].name.as_str()));
        assert(out.deep_view() =~= so_far.push(all[i as int]));
        i += 1;
    }
    assert(all.take(i as int) =~= all);
    out
}

/// What is unclear about a text, given the names that it spells out.
pub fn doubts_about(path: &str, text: &str, s: &Snapshot, spelled: &Vec<String>) -> (r: Vec<String>)
    ensures
        r.deep_view() == doubts(path@, text@, s.deep_view(), spelled.deep_view()),
{
    if text.is_empty() {
        let none: Vec<String> = Vec::new();
        assert(none.deep_view() =~= seq![]);
        return none;
    }
    let mut out = copied(&s.uncertainty);
    add_doubts(&mut out, "Duplicate symbol identity", path, &repeats(&symbol_names(&s.symbols)));
    add_doubts(&mut out, "Duplicate declaration identity", path, &repeats(spelled));
    out
}

// ---------------------------------------------------------------------------
// Paths
// ---------------------------------------------------------------------------

/// Files that hold words and pictures.
pub open spec fn is_documentation(path: Seq<char>) -> bool {
    match extension(path) {
        None => false,
        Some(e) => e == "md"@ || e == "txt"@ || e == "rst"@ || e == "png"@ || e == "jpg"@ || e
            == "jpeg"@ || e == "svg"@ || e == "ico"@ || e == "icns"@,
    }
}

pub open spec fn is_test_segment(s: Seq<char>) -> bool {
    s == "test"@ || s == "tests"@ || s == "__tests__"@ || s == "fixtures"@
}

/// Files that hold tests.
pub open spec fn is_test_source(path: Seq<char>) -> bool {
    (exists|i: int|
        0 <= i < split(path, '/').len() && is_test_segment(#[trigger] split(path, '/')[i]))
        || contains(path, ".test."@) || contains(path, ".spec."@)
}

pub open spec fn is_covered(path: Seq<char>, p: Seq<char>) -> bool {
    trim_end_of(p, CharClass::Is('/')) == "."@ || is_within(path, p)
}

/// A path on which a change needs a decision.
pub open spec fn is_protected(idx: IndexView, path: Seq<char>) -> bool {
    (exists|i: int|
        0 <= i < idx.decision_required_paths.len() && is_covered(
            path,
            #[trigger] idx.decision_required_paths[i],
        )) && !is_excluded(path, idx.excludes)
}

pub fn documentation(path: &str) -> (r: bool)
    ensures
        r == is_documentation(path@),
{
    match extension_of(path) {
        None => false,
        Some(x) => {
            let e = x.as_str();
            same(e, "md") || same(e, "txt") || same(e, "rst") || same(e, "png") || same(e, "jpg")
                || same(e, "jpeg") || same(e, "svg") || same(e, "ico") || same(e, "icns")
        },
    }
}

pub fn test_source(path: &str) -> (r: bool)
    ensures
        r == is_test_source(path@),
{
    let parts = split_at_char(path, '/');
    let ghost pv = parts.deep_view();
    let mut i: usize = 0;
    while i < parts.len()
        invariant
            i <= parts.len(),
            pv == parts.deep_view(),
            pv == split(path@, '/'),
            forall|j: int| 0 <= j < i ==> !is_test_segment(#[trigger] pv[j]),
        decreases parts.len() - i,
    {
        let s = parts[i].as_str();
        assert(pv[i as int] == s@);
        if same(s, "test") || same(s, "tests") || same(s, "__tests__") || same(s, "fixtures") {
            return true;
        }
        i += 1;
    }
    holds(path, ".test.") || holds(path, ".spec.")
}

pub fn protected(idx: &Index, path: &str) -> (r: bool)
    ensures
        r == is_protected(idx.deep_view(), path@),
{
    let ghost dv = idx.decision_required_paths.deep_view();
    let mut i: usize = 0;
    while i < idx.decision_required_paths.len()
        invariant
            i <= idx.decision_required_paths.len(),
            dv == idx.decision_required_paths.deep_view(),
            forall|j: int| 0 <= j < i ==> !is_covered(path@, #[trigger] dv[j]),
        decreases idx.decision_required_paths.len() - i,
    {
        let p = idx.decision_required_paths[i].as_str();
        assert(dv[i as int] == p@);
        if same(trimmed_end_of(p, CharClass::Is('/')).as_str(), ".") || within(path, p) {
            assert(is_covered(path@, idx.deep_view().decision_required_paths[i as int]));
            return !skip_excluded(path, &idx.excludes);
        }
        i += 1;
    }
    false
}

pub open spec fn each_importer(seen: Seq<Seq<char>>) -> spec_fn(ImportView) -> Option<Seq<char>> {
    |i: ImportView|
        match i.resolved {
            Some(rel) => if seen.contains(rel.to) {
                Some(rel.from)
            } else {
                None
            },
            None => None,
        }
}

/// Some files and those that import them.
pub open spec fn with_importers(imports: Seq<ImportView>, seen: Seq<Seq<char>>) -> Seq<Seq<char>> {
    sorted_set(seen + imports.filter_map(each_importer(seen)))
}

pub open spec fn each_other_file(file: Seq<char>) -> spec_fn(Seq<char>) -> Option<Seq<char>> {
    |f: Seq<char>|
        if f == file {
            None
        } else {
            Some(f)
        }
}

/// The files that reach a file through at most three imports.
pub open spec fn dependents_of(graph: GraphView, file: Seq<char>) -> Seq<Seq<char>> {
    let one = with_importers(graph.imports, seq![file]);
    let two = with_importers(graph.imports, one);
    let three = with_importers(graph.imports, two);
    three.filter_map(each_other_file(file))
}

fn spread(graph: &StructuralGraph, seen: &Vec<String>) -> (r: Vec<String>)
    ensures
        r.deep_view() == with_importers(graph.deep_view().imports, seen.deep_view()),
{
    let ghost sv = seen.deep_view();
    let ghost all = graph.imports.deep_view();
    let ghost f = each_importer(sv);
    let mut out = copied(seen);
    let mut i: usize = 0;
    proof {
        assert(all.take(0) =~= seq![]);
        reveal(Seq::filter_map);
        assert(sv + all.take(0).filter_map(f) =~= sv);
    }
    while i < graph.imports.len()
        invariant
            i <= graph.imports.len(),
            sv == seen.deep_view(),
            all == graph.imports.deep_view(),
            f == each_importer(sv),
            out.deep_view() =~= sv + all.take(i as int).filter_map(f),
        decreases graph.imports.len() - i,
    {
        let ghost so_far = out.deep_view();
        proof {
            all.lemma_filter_map_take_succ(f, i as int);
        }
        let x = &graph.imports[i];
        assert(all[i as int] == x.deep_view());
        if let Some(rel) = &x.resolved {
            if listed(seen, rel.to.0.as_str()) {
                out.push(owned(rel.from.0.as_str()));
                assert(out.deep_view() =~= so_far.push(rel.from.0@));
            }
        }
        i += 1;
    }
    assert(all.take(i as int) =~= all);
    sorted_distinct(&out)
}

/// The files that reach a file through at most three imports. This is what the
/// resolved imports show; there may be more.
pub fn dependents(graph: &StructuralGraph, file: &str) -> (r: Vec<String>)
    ensures
        r.deep_view() == dependents_of(graph.deep_view(), file@),
{
    let mut start: Vec<String> = Vec::new();
    start.push(owned(file));
    assert(start.deep_view() =~= seq![file@]);
    let three = spread(graph, &spread(graph, &spread(graph, &start)));
    let ghost all = three.deep_view();
    let ghost f = each_other_file(file@);
    let mut out: Vec<String> = Vec::new();
    let mut i: usize = 0;
    proof {
        assert(all.take(0) =~= seq![]);
        reveal(Seq::filter_map);
    }
    while i < three.len()
        invariant
            i <= three.len(),
            all == three.deep_view(),
            f == each_other_file(file@),
            out.deep_view() =~= all.take(i as int).filter_map(f),
        decreases three.len() - i,
    {
        let ghost so_far = out.deep_view();
        proof {
            all.lemma_filter_map_take_succ(f, i as int);
        }
        let x = three[i].as_str();
        assert(all[i as int] == x@);
        if !same(x, file) {
            out.push(owned(x));
            assert(out.deep_view() =~= so_far.push(x@));
        }
        i += 1;
    }
    assert(all.take(i as int) =~= all);
    out
}

// ---------------------------------------------------------------------------
// Comparison
// ---------------------------------------------------------------------------

/// One observed change.
#[derive(Debug)]
pub struct Mutation {
    pub resource: String,
    pub file: String,
    pub object: &'static str,
    pub kind: MutationKind,
    pub before: Option<Thing>,
    pub after: Option<Thing>,
    pub evidence: Vec<String>,
    pub dependent_files: Vec<String>,
    pub decision_required: bool,
    pub governing_decisions: Vec<String>,
    pub supplied_decisions: Vec<String>,
}

pub struct MutationView {
    pub resource: Seq<char>,
    pub file: Seq<char>,
    pub object: Seq<char>,
    pub kind: MutationKind,
    pub before: Option<ThingView>,
    pub after: Option<ThingView>,
    pub evidence: Seq<Seq<char>>,
    pub dependent_files: Seq<Seq<char>>,
    pub decision_required: bool,
    pub governing_decisions: Seq<Seq<char>>,
    pub supplied_decisions: Seq<Seq<char>>,
}

impl DeepView for Mutation {
    type V = MutationView;

    open spec fn deep_view(&self) -> MutationView {
        MutationView {
            resource: self.resource@,
            file: self.file@,
            object: self.object@,
            kind: self.kind,
            before: self.before.deep_view(),
            after: self.after.deep_view(),
            evidence: self.evidence.deep_view(),
            dependent_files: self.dependent_files.deep_view(),
            decision_required: self.decision_required,
            governing_decisions: self.governing_decisions.deep_view(),
            supplied_decisions: self.supplied_decisions.deep_view(),
        }
    }
}

/// A change of which nothing is known but why.
pub open spec fn unknown_mutation(file: Seq<char>, reason: Seq<char>) -> MutationView {
    MutationView {
        resource: file,
        file,
        object: "coverage"@,
        kind: MutationKind::Unknown,
        before: None,
        after: None,
        evidence: seq![reason],
        dependent_files: seq![],
        decision_required: true,
        governing_decisions: seq![],
        supplied_decisions: seq![],
    }
}

pub open spec fn kind_of(b: Option<SeenView>, a: Option<SeenView>, relation: bool) -> MutationKind {
    if relation {
        if b is None {
            MutationKind::RelationshipAdded
        } else if a is None {
            MutationKind::RelationshipRemoved
        } else {
            MutationKind::Modified
        }
    } else if b is None {
        MutationKind::Added
    } else if a is None {
        MutationKind::Removed
    } else {
        MutationKind::Modified
    }
}

pub open spec fn thing_of(x: Option<SeenView>) -> Option<ThingView> {
    match x {
        Some(s) => Some(s.thing),
        None => None,
    }
}

pub open spec fn comparison_evidence() -> Seq<Seq<char>> {
    seq![
        "Compared extractor observations of verified patch contents"@,
        "Dependent files are exact resolved imports from the supplied index, capped at three hops"@,
    ]
}

/// The change of one object, where there is one.
pub open spec fn change_of(
    path: Seq<char>,
    b: Option<SeenView>,
    a: Option<SeenView>,
    deps: Seq<Seq<char>>,
) -> Option<MutationView> {
    if b == a {
        None
    } else {
        let x = match a {
            Some(s) => s,
            None => b->Some_0,
        };
        let object = class_of(x.thing);
        Some(
            MutationView {
                resource: if x.thing is Concept {
                    x.name
                } else {
                    path + "::"@ + x.name
                },
                file: path,
                object,
                kind: kind_of(b, a, x.thing is Relationship || x.thing is Route),
                before: thing_of(b),
                after: thing_of(a),
                evidence: comparison_evidence(),
                dependent_files: deps,
                decision_required: x.thing is Concept || deps.len() >= 10,
                governing_decisions: seq![],
                supplied_decisions: seq![],
            },
        )
    }
}

pub open spec fn each_change(
    path: Seq<char>,
    bo: Seq<(Seq<char>, SeenView)>,
    ao: Seq<(Seq<char>, SeenView)>,
    deps: Seq<Seq<char>>,
) -> spec_fn(Seq<char>) -> Option<MutationView> {
    |k: Seq<char>| change_of(path, lookup(bo, k), lookup(ao, k), deps)
}

pub open spec fn each_unknown(path: Seq<char>) -> spec_fn(Seq<char>) -> MutationView {
    |r: Seq<char>| unknown_mutation(path, r)
}

pub open spec fn each_seen_key() -> spec_fn((Seq<char>, SeenView)) -> Seq<char> {
    |e: (Seq<char>, SeenView)| e.0
}

pub open spec fn later_path(c: FileChangeView) -> Seq<char> {
    match c.after_path {
        Some(p) => p,
        None => match c.before_path {
            Some(p) => p,
            None => "unknown"@,
        },
    }
}

pub open spec fn earlier_path(c: FileChangeView) -> Seq<char> {
    match c.before_path {
        Some(p) => p,
        None => later_path(c),
    }
}

pub open spec fn move_doubt(c: FileChangeView) -> Seq<MutationView> {
    if c.before_path != c.after_path && c.before.len() > 0 && c.after.len() > 0 {
        seq![
            unknown_mutation(
                later_path(c),
                "File moved: identity continuity across paths has not been established"@,
            ),
        ]
    } else {
        seq![]
    }
}

/// What a change of a file changes, given the names that its two texts spell
/// out.
pub open spec fn compared(
    c: FileChangeView,
    bs: SnapshotView,
    s: SnapshotView,
    b_spelled: Seq<Seq<char>>,
    a_spelled: Seq<Seq<char>>,
    deps: Seq<Seq<char>>,
) -> Seq<MutationView> {
    let path = later_path(c);
    let bo = objects_in(earlier_path(c), c.before, bs);
    let ao = objects_in(path, c.after, s);
    let reasons = sorted_set(
        doubts(earlier_path(c), c.before, bs, b_spelled) + doubts(path, c.after, s, a_spelled),
    );
    let keys = sorted_set(bo.map_values(each_seen_key()) + ao.map_values(each_seen_key()));
    if is_documentation(path) || path == "archietect.toml"@ {
        seq![]
    } else {
        reasons.map_values(each_unknown(path)) + keys.filter_map(each_change(path, bo, ao, deps))
            + move_doubt(c)
    }
}

fn unknown(file: &str, reason: &str) -> (r: Mutation)
    ensures
        r.deep_view() == unknown_mutation(file@, reason@),
{
    let mut evidence: Vec<String> = Vec::new();
    evidence.push(owned(reason));
    let dependent_files: Vec<String> = Vec::new();
    let governing_decisions: Vec<String> = Vec::new();
    let supplied_decisions: Vec<String> = Vec::new();
    assert(evidence.deep_view() =~= seq![reason@]);
    assert(dependent_files.deep_view() =~= seq![]);
    assert(governing_decisions.deep_view() =~= seq![]);
    assert(supplied_decisions.deep_view() =~= seq![]);
    Mutation {
        resource: owned(file),
        file: owned(file),
        object: "coverage",
        kind: MutationKind::Unknown,
        before: None,
        after: None,
        evidence,
        dependent_files,
        decision_required: true,
        governing_decisions,
        supplied_decisions,
    }
}

fn same_thing(a: &Thing, b: &Thing) -> (r: bool)
    ensures
        r == (a.deep_view() == b.deep_view()),
{
    match (a, b) {
        (Thing::Concept(x), Thing::Concept(y)) => {
            same(x.name.as_str(), y.name.as_str()) && same(x.kind.as_str(), y.kind.as_str())
                && same_list(&x.fields, &y.fields) && same_list(&x.relations, &y.relations)
                && same_option(&x.table, &y.table)
        },
        (Thing::Symbol(x), Thing::Symbol(y)) => {
            same(x.name.as_str(), y.name.as_str()) && same(x.kind.as_str(), y.kind.as_str())
                && same_option(&x.source, &y.source) && same(
                x.observation_source.as_str(),
                y.observation_source.as_str(),
            )
        },
        (Thing::Relationship(m, x), Thing::Relationship(n, y)) => {
            same(m.as_str(), n.as_str()) && same_list(x, y)
        },
        (Thing::Route(x), Thing::Route(y)) => {
            same(x.method.as_str(), y.method.as_str()) && same(x.path.as_str(), y.path.as_str())
                && same(x.handler.as_str(), y.handler.as_str()) && same(
                x.file.as_str(),
                y.file.as_str(),
            ) && same_option(&x.linked_concept, &y.linked_concept)
        },
        _ => false,
    }
}

fn change(path: &str, b: Option<&Seen>, a: Option<&Seen>, deps: &Vec<String>) -> (r: Option<Mutation>)
    requires
        b is Some || a is Some,
    ensures
        r.deep_view() == change_of(
            path@,
            match b {
                Some(x) => Some(x.deep_view()),
                None => None,
            },
            match a {
                Some(x) => Some(x.deep_view()),
                None => None,
            },
            deps.deep_view(),
        ),
{
    if let (Some(x), Some(y)) = (b, a) {
        if same(x.name.as_str(), y.name.as_str()) && same_thing(&x.thing, &y.thing) {
            return None;
        }
    }
    let x = match a {
        Some(s) => s,
        None => b.unwrap(),
    };
    let concept = match &x.thing {
        Thing::Concept(_) => true,
        _ => false,
    };
    let relation = match &x.thing {
        Thing::Relationship(_, _) | Thing::Route(_) => true,
        _ => false,
    };
    let resource = if concept {
        owned(x.name.as_str())
    } else {
        let mut out = owned(path);
        out.append("::");
        out.append(x.name.as_str());
        out
    };
    let kind = if relation {
        if b.is_none() {
            MutationKind::RelationshipAdded
        } else if a.is_none() {
            MutationKind::RelationshipRemoved
        } else {
            MutationKind::Modified
        }
    } else if b.is_none() {
        MutationKind::Added
    } else if a.is_none() {
        MutationKind::Removed
    } else {
        MutationKind::Modified
    };
    let mut evidence: Vec<String> = Vec::new();
    evidence.push(owned("Compared extractor observations of verified patch contents"));
    evidence.push(
        owned(
            "Dependent files are exact resolved imports from the supplied index, capped at three hops",
        ),
    );
    let governing_decisions: Vec<String> = Vec::new();
    let supplied_decisions: Vec<String> = Vec::new();
    assert(evidence.deep_view() =~= comparison_evidence());
    assert(governing_decisions.deep_view() =~= seq![]);
    assert(supplied_decisions.deep_view() =~= seq![]);
    assert(deps.deep_view().len() == deps@.len());
    let before = match b {
        Some(s) => Some(s.thing.copy()),
        None => None,
    };
    let after = match a {
        Some(s) => Some(s.thing.copy()),
        None => None,
    };
    Some(
        Mutation {
            resource,
            file: owned(path),
            object: x.thing.class(),
            kind,
            before,
            after,
            evidence,
            dependent_files: copied(deps),
            decision_required: concept || deps.len() >= 10,
            governing_decisions,
            supplied_decisions,
        },
    )
}

fn add_keys(out: &mut Vec<String>, m: &TextMap<Seen>)
    ensures
        final(out).deep_view() == old(out).deep_view() + m.deep_view().map_values(each_seen_key()),
{
    let ghost start = out.deep_view();
    let ghost all = m.deep_view().map_values(each_seen_key());
    let n: usize = m.len();
    let mut i: usize = 0;
    assert(start + all.take(0) =~= start);
    while i < n
        invariant
            i <= n,
            n == m.deep_view().len(),
            all == m.deep_view().map_values(each_seen_key()),
            out.deep_view() =~= start + all.take(i as int),
        decreases n - i,
    {
        let ghost so_far = out.deep_view();
        out.push(owned(m.key(i)));
        assert(out.deep_view() =~= so_far.push(all[i as int]));
        i += 1;
    }
    assert(all.take(i as int) =~= all);
}

fn add_unknowns(out: &mut Vec<Mutation>, path: &str, reasons: &Vec<String>)
    ensures
        final(out).deep_view() == old(out).deep_view() + reasons.deep_view().map_values(
            each_unknown(path@),
        ),
{
    let ghost start = out.deep_view();
    let ghost all = reasons.deep_view().map_values(each_unknown(path@));
    let mut i: usize = 0;
    assert(start + all.take(0) =~= start);
    while i < reasons.len()
        invariant
            i <= reasons.len(),
            all == reasons.deep_view().map_values(each_unknown(path@)),
            out.deep_view() =~= start + all.take(i as int),
        decreases reasons.len() - i,
    {
        let ghost so_far = out.deep_view();
        assert(reasons.deep_view()[i as int] == reasons[i as int]@);
        out.push(unknown(path, reasons[i].as_str()));
        assert(out.deep_view() =~= so_far.push(all[i as int]));
        i += 1;
    }
    assert(all.take(i as int) =~= all);
}

fn add_changes(
    out: &mut Vec<Mutation>,
    path: &str,
    bo: &TextMap<Seen>,
    ao: &TextMap<Seen>,
    keys: &Vec<String>,
    deps: &Vec<String>,
)
    requires
        forall|i: int|
            0 <= i < keys@.len() ==> has_key(bo.deep_view(), #[trigger] keys.deep_view()[i])
                || has_key(ao.deep_view(), keys.deep_view()[i]),
    ensures
        final(out).deep_view() == old(out).deep_view() + keys.deep_view().filter_map(
            each_change(path@, bo.deep_view(), ao.deep_view(), deps.deep_view()),
        ),
{
    let ghost start = out.deep_view();
    let ghost all = keys.deep_view();
    let ghost f = each_change(path@, bo.deep_view(), ao.deep_view(), deps.deep_view());
    let mut i: usize = 0;
    proof {
        assert(all.take(0) =~= seq![]);
        reveal(Seq::filter_map);
        assert(start + all.take(0).filter_map(f) =~= start);
    }
    while i < keys.len()
        invariant
            i <= keys.len(),
            all == keys.deep_view(),
            f == each_change(path@, bo.deep_view(), ao.deep_view(), deps.deep_view()),
            forall|i: int|
                0 <= i < keys@.len() ==> has_key(bo.deep_view(), #[trigger] all[i]) || has_key(
                    ao.deep_view(),
                    all[i],
                ),
            out.deep_view() =~= start + all.take(i as int).filter_map(f),
        decreases keys.len() - i,
    {
        let ghost so_far = out.deep_view();
        proof {
            all.lemma_filter_map_take_succ(f, i as int);
        }
        let k = keys[i].as_str();
        assert(all[i as int] == k@);
        if let Some(m) = change(path, bo.get(k), ao.get(k), deps) {
            let ghost mv = m.deep_view();
            out.push(m);
            assert(out.deep_view() =~= so_far.push(mv));
        }
        i += 1;
    }
    assert(all.take(i as int) =~= all);
}

/// What a change of a file changes, given the names that its two texts spell
/// out and the files that depend on it.
pub fn compare_given(
    c: &FileChange,
    before: &Snapshot,
    after: &Snapshot,
    b_spelled: &Vec<String>,
    a_spelled: &Vec<String>,
    deps: &Vec<String>,
) -> (r: Vec<Mutation>)
    ensures
        r.deep_view() == compared(
            c.deep_view(),
            before.deep_view(),
            after.deep_view(),
            b_spelled.deep_view(),
            a_spelled.deep_view(),
            deps.deep_view(),
        ),
{
    let mut out: Vec<Mutation> = Vec::new();
    assert(out.deep_view() =~= seq![]);
    let path = match &c.after_path {
        Some(p) => p.as_str(),
        None => match &c.before_path {
            Some(p) => p.as_str(),
            None => "unknown",
        },
    };
    if documentation(path) || same(path, "archietect.toml") {
        return out;
    }
    let old_path = match &c.before_path {
        Some(p) => p.as_str(),
        None => path,
    };
    let bo = objects(old_path, c.before.as_str(), before);
    let ao = objects(path, c.after.as_str(), after);
    let mut reasons = doubts_about(old_path, c.before.as_str(), before, b_spelled);
    let ghost first = reasons.deep_view();
    let mut more = doubts_about(path, c.after.as_str(), after, a_spelled);
    let ghost second = more.deep_view();
    reasons.append(&mut more);
    assert(reasons.deep_view() =~= first + second);
    let reasons = sorted_distinct(&reasons);
    let mut keys: Vec<String> = Vec::new();
    assert(keys.deep_view() =~= seq![]);
    add_keys(&mut keys, &bo);
    add_keys(&mut keys, &ao);
    let ghost bk = bo.deep_view().map_values(each_seen_key());
    let ghost ak = ao.deep_view().map_values(each_seen_key());
    assert(keys.deep_view() =~= bk + ak);
    let keys = sorted_distinct(&keys);
    proof {
        lemma_sorted_set(bk + ak);
        assert forall|i: int| 0 <= i < keys@.len() implies has_key(
            bo.deep_view(),
            #[trigger] keys.deep_view()[i],
        ) || has_key(ao.deep_view(), keys.deep_view()[i]) by {
            let k = keys.deep_view()[i];
            assert(keys.deep_view().contains(k));
            assert((bk + ak).contains(k));
            let j = choose|j: int| 0 <= j < (bk + ak).len() && (bk + ak)[j] == k;
            if j < bk.len() {
                assert(bo.deep_view()[j].0 == k);
            } else {
                assert(ao.deep_view()[j - bk.len()].0 == k);
            }
        }
    }
    add_unknowns(&mut out, path, &reasons);
    add_changes(&mut out, path, &bo, &ao, &keys, deps);
    let ghost so_far = out.deep_view();
    if !same_option(&c.before_path, &c.after_path) && !c.before.as_str().is_empty()
        && !c.after.as_str().is_empty() {
        out.push(
            unknown(
                path,
                "File moved: identity continuity across paths has not been established",
            ),
        );
        assert(out.deep_view() =~= so_far + move_doubt(c.deep_view()));
    }
    assert(out.deep_view() =~= so_far + move_doubt(c.deep_view()));
    out
}

/// What a change of a file changes.
pub fn compare(c: &FileChange, before: &Snapshot, after: &Snapshot, graph: &StructuralGraph) -> (r: Vec<
    Mutation,
>)
    ensures
        r.deep_view() == compared(
            c.deep_view(),
            before.deep_view(),
            after.deep_view(),
            spelled_names(c.before@),
            spelled_names(c.after@),
            dependents_of(graph.deep_view(), earlier_path(c.deep_view())),
        ),
{
    let b_spelled = group_texts_of(&found_in(SPELLED_DECLARATION, c.before.as_str()), 1);
    let a_spelled = group_texts_of(&found_in(SPELLED_DECLARATION, c.after.as_str()), 1);
    let path = match &c.after_path {
        Some(p) => p.as_str(),
        None => match &c.before_path {
            Some(p) => p.as_str(),
            None => "unknown",
        },
    };
    let old_path = match &c.before_path {
        Some(p) => p.as_str(),
        None => path,
    };
    let deps = dependents(graph, old_path);
    compare_given(c, before, after, &b_spelled, &a_spelled, &deps)
}

// ---------------------------------------------------------------------------
// Passing a patch
// ---------------------------------------------------------------------------

/// A changed file with what a parser saw in it before and after.
#[derive(Debug)]
pub struct Observation {
    pub change: FileChange,
    pub before: Snapshot,
    pub after: Snapshot,
}

pub struct ObservationView {
    pub change: FileChangeView,
    pub before: SnapshotView,
    pub after: SnapshotView,
}

impl DeepView for Observation {
    type V = ObservationView;

    open spec fn deep_view(&self) -> ObservationView {
        ObservationView {
            change: self.change.deep_view(),
            before: self.before.deep_view(),
            after: self.after.deep_view(),
        }
    }
}

/// Why a patch may not pass.
#[derive(Debug)]
pub enum Breach {
    /// The contents of the patch could not be made out.
    Unreadable,
    /// The change of the settings is itself at fault.
    InvalidUpdate(String),
    /// A change that nothing is known of, by its place in the list.
    Unknown(usize),
    /// A change that needs a decision and has none, by its place in the list.
    Undecided(usize),
}

pub enum BreachView {
    Unreadable,
    InvalidUpdate(Seq<char>),
    Unknown(int),
    Undecided(int),
}

impl DeepView for Breach {
    type V = BreachView;

    open spec fn deep_view(&self) -> BreachView {
        match self {
            Breach::Unreadable => BreachView::Unreadable,
            Breach::InvalidUpdate(e) => BreachView::InvalidUpdate(e@),
            Breach::Unknown(i) => BreachView::Unknown(*i as int),
            Breach::Undecided(i) => BreachView::Undecided(*i as int),
        }
    }
}

impl Breach {
    pub open spec fn label_of(b: BreachView) -> Seq<char> {
        match b {
            BreachView::Unreadable => "unknown_structural_mutation"@,
            BreachView::InvalidUpdate(_) => "invalid_decision_update"@,
            BreachView::Unknown(_) => "unknown_structural_mutation"@,
            BreachView::Undecided(_) => "missing_architectural_decision"@,
        }
    }

    pub fn label(&self) -> (r: &'static str)
        ensures
            r@ == Breach::label_of(self.deep_view()),
    {
        match self {
            Breach::Unreadable => "unknown_structural_mutation",
            Breach::InvalidUpdate(_) => "invalid_decision_update",
            Breach::Unknown(_) => "unknown_structural_mutation",
            Breach::Undecided(_) => "missing_architectural_decision",
        }
    }
}

/// What a patch changes and what stands against it.
#[derive(Debug)]
pub struct Evaluation {
    /// Whether something of the patch is unknown.
    pub unknown: bool,
    pub mutations: Vec<Mutation>,
    pub violations: Vec<Breach>,
}

pub struct EvaluationView {
    pub unknown: bool,
    pub mutations: Seq<MutationView>,
    pub violations: Seq<BreachView>,
}

impl DeepView for Evaluation {
    type V = EvaluationView;

    open spec fn deep_view(&self) -> EvaluationView {
        EvaluationView {
            unknown: self.unknown,
            mutations: self.mutations.deep_view(),
            violations: self.violations.deep_view(),
        }
    }
}

/// Everything that a patch changes, file by file.
pub open spec fn all_changes(graph: GraphView, list: Seq<ObservationView>) -> Seq<MutationView>
    decreases list.len(),
{
    if list.len() == 0 {
        seq![]
    } else {
        let o = list.last();
        all_changes(graph, list.drop_last()) + compared(
            o.change,
            o.before,
            o.after,
            spelled_names(o.change.before),
            spelled_names(o.change.after),
            dependents_of(graph, earlier_path(o.change)),
        )
    }
}

pub open spec fn link_names(link: Seq<char>, resource: Seq<char>) -> bool {
    link == resource || ends_with(resource, "::"@ + link)
}

pub open spec fn names_resource(d: DecisionView, resource: Seq<char>) -> bool {
    exists|i: int| 0 <= i < d.links.len() && link_names(#[trigger] d.links[i], resource)
}

pub open spec fn each_governing_id(resource: Seq<char>) -> spec_fn(DecisionView) -> Option<Seq<char>> {
    |d: DecisionView|
        if names_resource(d, resource) {
            Some(d.id)
        } else {
            None
        }
}

/// A change needs a decision where the project asks for one on its path, which
/// is no test.
pub open spec fn needs_decision(idx: IndexView, m: MutationView) -> bool {
    m.decision_required && idx.decision_required_paths.len() > 0 && is_protected(idx, m.file)
        && !is_test_source(m.file)
}

pub open spec fn each_placed(idx: IndexView) -> spec_fn(MutationView) -> MutationView {
    |m: MutationView|
        MutationView {
            resource: m.resource,
            file: m.file,
            object: m.object,
            kind: m.kind,
            before: m.before,
            after: m.after,
            evidence: m.evidence,
            dependent_files: m.dependent_files,
            decision_required: needs_decision(idx, m),
            governing_decisions: idx.decisions.filter_map(each_governing_id(m.resource)),
            supplied_decisions: m.supplied_decisions,
        }
}

pub open spec fn each_target() -> spec_fn(MutationView) -> Option<Seq<char>> {
    |m: MutationView|
        if m.decision_required && m.kind != MutationKind::Unknown {
            Some(m.resource)
        } else {
            None
        }
}

/// The resources that need a decision.
pub open spec fn targets_in(list: Seq<MutationView>) -> Seq<Seq<char>> {
    sorted_set(list.filter_map(each_target()))
}

pub open spec fn supplied_for(given: Seq<(Seq<char>, Seq<Seq<char>>)>, resource: Seq<char>) -> Seq<
    Seq<char>,
> {
    match lookup(given, resource) {
        Some(ids) => ids,
        None => seq![],
    }
}

pub open spec fn each_supplied(given: Seq<(Seq<char>, Seq<Seq<char>>)>) -> spec_fn(
    MutationView,
) -> MutationView {
    |m: MutationView|
        MutationView {
            resource: m.resource,
            file: m.file,
            object: m.object,
            kind: m.kind,
            before: m.before,
            after: m.after,
            evidence: m.evidence,
            dependent_files: m.dependent_files,
            decision_required: m.decision_required,
            governing_decisions: m.governing_decisions,
            supplied_decisions: supplied_for(given, m.resource),
        }
}

/// What stands against one change.
pub open spec fn breach_of(m: MutationView, i: int) -> Option<BreachView> {
    if !m.decision_required {
        None
    } else if m.kind == MutationKind::Unknown {
        Some(BreachView::Unknown(i))
    } else if m.supplied_decisions.len() == 0 {
        Some(BreachView::Undecided(i))
    } else {
        None
    }
}

/// What stands against the first `n` changes.
pub open spec fn breaches(list: Seq<MutationView>, n: int) -> Seq<BreachView>
    decreases n,
{
    if n <= 0 || n > list.len() {
        seq![]
    } else {
        let r = breaches(list, n - 1);
        match breach_of(list[n - 1], n - 1) {
            Some(b) => r.push(b),
            None => r,
        }
    }
}

pub open spec fn some_unknown(list: Seq<MutationView>) -> bool {
    exists|i: int| 0 <= i < list.len() && (#[trigger] list[i]).kind == MutationKind::Unknown
}

/// The changes that need a decision, before any is looked for.
pub open spec fn placed(idx: IndexView, graph: GraphView, list: Seq<ObservationView>) -> Seq<
    MutationView,
> {
    all_changes(graph, list).map_values(each_placed(idx))
}

/// The judgement on placed changes, given the decisions that were supplied.
pub open spec fn judged(
    idx: IndexView,
    list: Seq<MutationView>,
    supplied: Result<Seq<(Seq<char>, Seq<Seq<char>>)>, Seq<char>>,
) -> EvaluationView {
    let enabled = idx.decision_required_paths.len() > 0;
    let given = match supplied {
        Ok(m) => m,
        Err(_) => seq![],
    };
    let fault = match supplied {
        Ok(_) => seq![],
        Err(e) => if enabled {
            seq![BreachView::InvalidUpdate(e)]
        } else {
            seq![]
        },
    };
    let final_list = list.map_values(each_supplied(given));
    EvaluationView {
        unknown: some_unknown(final_list),
        mutations: final_list,
        violations: fault + breaches(final_list, final_list.len() as int),
    }
}

/// The first observation from `i` on of the project's settings.
pub open spec fn settings_from(list: Seq<ObservationView>, i: int) -> Option<FileChangeView>
    decreases list.len() - i,
{
    if i < 0 || i >= list.len() {
        None
    } else if list[i].change.after_path == Some("archietect.toml"@) {
        Some(list[i].change)
    } else {
        settings_from(list, i + 1)
    }
}

/// The decisions that a patch supplies.
pub open spec fn supplied_in(
    list: Seq<ObservationView>,
    targets: Seq<Seq<char>>,
    aliases: Seq<(Seq<char>, Seq<char>)>,
) -> Result<Seq<(Seq<char>, Seq<Seq<char>>)>, Seq<char>> {
    match settings_from(list, 0) {
        Some(c) => ruled(c.before, c.after, targets, aliases),
        None => Ok(seq![]),
    }
}

/// The judgement on a patch; one that could not be made out is unknown.
pub open spec fn evaluated(
    idx: IndexView,
    graph: GraphView,
    patch: Result<Seq<ObservationView>, Seq<char>>,
) -> EvaluationView {
    match patch {
        Err(reason) => EvaluationView {
            unknown: true,
            mutations: seq![unknown_mutation("patch"@, reason)],
            violations: if idx.decision_required_paths.len() > 0 {
                seq![BreachView::Unreadable]
            } else {
                seq![]
            },
        },
        Ok(list) => {
            let changes = placed(idx, graph, list);
            judged(idx, changes, supplied_in(list, targets_in(changes), idx.aliases))
        },
    }
}

fn names_it(d: &Decision, resource: &str) -> (r: bool)
    ensures
        r == names_resource(d.deep_view(), resource@),
{
    let mut i: usize = 0;
    while i < d.links.len()
        invariant
            i <= d.links.len(),
            forall|j: int| 0 <= j < i ==> !link_names(#[trigger] d.deep_view().links[j], resource@),
        decreases d.links.len() - i,
    {
        let l = d.links[i].as_str();
        assert(d.deep_view().links[i as int] == l@);
        let mut tail = owned("::");
        tail.append(l);
        if same(l, resource) || ends(resource, tail.as_str()) {
            return true;
        }
        i += 1;
    }
    false
}

fn governing_ids(idx: &Index, resource: &str) -> (r: Vec<String>)
    ensures
        r.deep_view() == idx.deep_view().decisions.filter_map(each_governing_id(resource@)),
{
    let ghost all = idx.decisions.deep_view();
    let ghost f = each_governing_id(resource@);
    let mut out: Vec<String> = Vec::new();
    let mut i: usize = 0;
    proof {
        assert(all.take(0) =~= seq![]);
        reveal(Seq::filter_map);
    }
    while i < idx.decisions.len()
        invariant
            i <= idx.decisions.len(),
            all == idx.decisions.deep_view(),
            f == each_governing_id(resource@),
            out.deep_view() =~= all.take(i as int).filter_map(f),
        decreases idx.decisions.len() - i,
    {
        let ghost so_far = out.deep_view();
        proof {
            all.lemma_filter_map_take_succ(f, i as int);
        }
        let d = &idx.decisions[i];
        assert(all[i as int] == d.deep_view());
        if names_it(d, resource) {
            out.push(owned(d.id.as_str()));
            assert(out.deep_view() =~= so_far.push(d.id@));
        }
        i += 1;
    }
    assert(all.take(i as int) =~= all);
    out
}

/// The changes of a patch, with whether each needs a decision and which govern
/// it.
pub fn place(idx: &Index, graph: &StructuralGraph, list: &Vec<Observation>) -> (r: Vec<Mutation>)
    ensures
        r.deep_view() == placed(idx.deep_view(), graph.deep_view(), list.deep_view()),
{
    let ghost lv = list.deep_view();
    let ghost iv = idx.deep_view();
    let ghost gv = graph.deep_view();
    let ghost f = each_placed(iv);
    let enabled = idx.decision_required_paths.len() > 0;
    assert(iv.decision_required_paths.len() == idx.decision_required_paths@.len());
    let mut out: Vec<Mutation> = Vec::new();
    let mut i: usize = 0;
    assert(out.deep_view() =~= all_changes(gv, lv.take(0)).map_values(f));
    while i < list.len()
        invariant
            i <= list.len(),
            lv == list.deep_view(),
            iv == idx.deep_view(),
            gv == graph.deep_view(),
            f == each_placed(iv),
            enabled == (iv.decision_required_paths.len() > 0),
            out.deep_view() =~= all_changes(gv, lv.take(i as int)).map_values(f),
        decreases list.len() - i,
    {
        let o = &list[i];
        let ghost so_far = out.deep_view();
        proof {
            let step = lv.take(i + 1);
            assert(step.drop_last() =~= lv.take(i as int));
            assert(step.last() == o.deep_view());
        }
        let mut found_here = compare(&o.change, &o.before, &o.after, graph);
        let ghost cv = found_here.deep_view();
        let ghost mut n: int = 0;
        assert(so_far + cv.take(0).map_values(f) =~= so_far);
        assert(cv.skip(0) =~= cv);
        while found_here.len() > 0
            invariant
                0 <= n <= cv.len(),
                iv == idx.deep_view(),
                f == each_placed(iv),
                enabled == (iv.decision_required_paths.len() > 0),
                found_here.deep_view() =~= cv.skip(n),
                out.deep_view() =~= so_far + cv.take(n).map_values(f),
            decreases found_here.len(),
        {
            let ghost front = found_here.deep_view();
            let ghost passed = out.deep_view();
            let m = found_here.remove(0);
            proof {
                assert(front.len() > 0);
                assert(front == cv.skip(n));
                assert(front[0] == m.deep_view());
                assert(cv.skip(n)[0] == cv[n]);
                assert(found_here.deep_view() =~= front.skip(1));
            }
            let decision_required = m.decision_required && enabled && protected(
                idx,
                m.file.as_str(),
            ) && !test_source(m.file.as_str());
            let governing_decisions = governing_ids(idx, m.resource.as_str());
            let x = Mutation {
                resource: m.resource,
                file: m.file,
                object: m.object,
                kind: m.kind,
                before: m.before,
                after: m.after,
                evidence: m.evidence,
                dependent_files: m.dependent_files,
                decision_required,
                governing_decisions,
                supplied_decisions: m.supplied_decisions,
            };
            assert(x.deep_view() == f(cv[n]));
            out.push(x);
            assert(out.deep_view() =~= passed.push(f(cv[n])));
            proof {
                n = n + 1;
            }
        }
        assert(cv.take(n) =~= cv);
        i += 1;
    }
    assert(lv.take(i as int) =~= lv);
    out
}

/// The resources that need a decision.
pub fn targets_among(list: &Vec<Mutation>) -> (r: Vec<String>)
    ensures
        r.deep_view() == targets_in(list.deep_view()),
{
    let ghost all = list.deep_view();
    let ghost f = each_target();
    let mut out: Vec<String> = Vec::new();
    let mut i: usize = 0;
    proof {
        assert(all.take(0) =~= seq![]);
        reveal(Seq::filter_map);
    }
    while i < list.len()
        invariant
            i <= list.len(),
            all == list.deep_view(),
            f == each_target(),
            out.deep_view() =~= all.take(i as int).filter_map(f),
        decreases list.len() - i,
    {
        let ghost so_far = out.deep_view();
        proof {
            all.lemma_filter_map_take_succ(f, i as int);
        }
        let m = &list[i];
        assert(all[i as int] == m.deep_view());
        if m.decision_required && m.kind != MutationKind::Unknown {
            out.push(owned(m.resource.as_str()));
            assert(out.deep_view() =~= so_far.push(m.resource@));
        }
        i += 1;
    }
    assert(all.take(i as int) =~= all);
    sorted_distinct(&out)
}

/// The judgement on placed changes, given the decisions that were supplied.
pub fn judge(
    idx: &Index,
    list: Vec<Mutation>,
    supplied: Result<TextMap<Vec<String>>, String>,
) -> (r: Evaluation)
    ensures
        r.deep_view() == judged(idx.deep_view(), list.deep_view(), outcome(supplied)),
{
    let ghost lv = list.deep_view();
    let ghost sv = outcome(supplied);
    let mut violations: Vec<Breach> = Vec::new();
    assert(idx.deep_view().decision_required_paths.len() == idx.decision_required_paths@.len());
    let given = match supplied {
        Ok(m) => m,
        Err(e) => {
            if idx.decision_required_paths.len() > 0 {
                violations.push(Breach::InvalidUpdate(e));
            }
            TextMap::new()
        },
    };
    let ghost fault = match sv {
        Ok(_) => seq![],
        Err(e) => if idx.deep_view().decision_required_paths.len() > 0 {
            seq![BreachView::InvalidUpdate(e)]
        } else {
            seq![]
        },
    };
    assert(violations.deep_view() =~= fault);
    let ghost g = each_supplied(given.deep_view());
    let ghost all = lv.map_values(g);
    let mut rest = list;
    let mut mutations: Vec<Mutation> = Vec::new();
    let mut unknown_seen = false;
    let ghost mut n: int = 0;
    assert(lv.skip(0) =~= lv);
    assert(fault + breaches(all, 0) =~= fault);
    while rest.len() > 0
        invariant
            0 <= n <= lv.len(),
            n == mutations@.len(),
            rest.deep_view() =~= lv.skip(n),
            g == each_supplied(given.deep_view()),
            all == lv.map_values(g),
            mutations.deep_view() =~= all.take(n),
            violations.deep_view() =~= fault + breaches(all, n),
            unknown_seen == some_unknown(all.take(n)),
        decreases rest.len(),
    {
        let ghost front = rest.deep_view();
        let ghost passed = mutations.deep_view();
        let ghost blamed = violations.deep_view();
        let m = rest.remove(0);
        proof {
            assert(front.len() > 0);
            assert(front == lv.skip(n));
            assert(front[0] == m.deep_view());
            assert(lv.skip(n)[0] == lv[n]);
            assert(rest.deep_view() =~= front.skip(1));
        }
        let supplied_decisions = match given.get(m.resource.as_str()) {
            Some(ids) => copied(ids),
            None => {
                let none: Vec<String> = Vec::new();
                assert(none.deep_view() =~= seq![]);
                none
            },
        };
        assert(supplied_decisions.deep_view().len() == supplied_decisions@.len());
        let place_here: usize = mutations.len();
        let is_unknown = m.kind == MutationKind::Unknown;
        if m.decision_required {
            if is_unknown {
                violations.push(Breach::Unknown(place_here));
                assert(violations.deep_view() =~= blamed.push(BreachView::Unknown(n)));
            } else if supplied_decisions.len() == 0 {
                violations.push(Breach::Undecided(place_here));
                assert(violations.deep_view() =~= blamed.push(BreachView::Undecided(n)));
            }
        }
        let x = Mutation {
            resource: m.resource,
            file: m.file,
            object: m.object,
            kind: m.kind,
            before: m.before,
            after: m.after,
            evidence: m.evidence,
            dependent_files: m.dependent_files,
            decision_required: m.decision_required,
            governing_decisions: m.governing_decisions,
            supplied_decisions,
        };
        assert(x.deep_view() == all[n]);
        mutations.push(x);
        assert(mutations.deep_view() =~= passed.push(all[n]));
        proof {
            let longer = all.take(n + 1);
            let shorter = all.take(n);
            assert(some_unknown(longer) == (some_unknown(shorter) || all[n].kind
                == MutationKind::Unknown)) by {
                if some_unknown(shorter) {
                    let i = choose|i: int|
                        0 <= i < shorter.len() && (#[trigger] shorter[i]).kind
                            == MutationKind::Unknown;
                    assert(longer[i] == shorter[i]);
                }
                if all[n].kind == MutationKind::Unknown {
                    assert(longer[n] == all[n]);
                }
                if some_unknown(longer) {
                    let i = choose|i: int|
                        0 <= i < longer.len() && (#[trigger] longer[i]).kind
                            == MutationKind::Unknown;
                    if i < n {
                        assert(shorter[i] == longer[i]);
                    }
                }
            }
            n = n + 1;
        }
        unknown_seen = unknown_seen || is_unknown;
    }
    assert(all.take(n) =~= all);
    Evaluation { unknown: unknown_seen, mutations, violations }
}

fn settings_among(list: &Vec<Observation>) -> (r: Option<usize>)
    ensures
        match r {
            Some(i) => i < list@.len() && settings_from(list.deep_view(), 0) == Some(
                list[i as int].change.deep_view(),
            ),
            None => settings_from(list.deep_view(), 0) is None,
        },
{
    let ghost lv = list.deep_view();
    let mut i: usize = 0;
    while i < list.len()
        invariant
            i <= list.len(),
            lv == list.deep_view(),
            settings_from(lv, 0) == settings_from(lv, i as int),
        decreases list.len() - i,
    {
        assert(lv[i as int] == list[i as int].deep_view());
        if let Some(p) = &list[i].change.after_path {
            if same(p.as_str(), "archietect.toml") {
                return Some(i);
            }
        }
        i += 1;
    }
    None
}

/// The judgement on a patch: what it changes, and which of that needs a decision
/// that it does not bring. `patch` holds its files, or why they could not be
/// made out; such a patch never counts as an empty change.
pub fn evaluate(idx: &Index, graph: &StructuralGraph, patch: Result<Vec<Observation>, String>) -> (r:
    Evaluation)
    ensures
        r.deep_view() == evaluated(idx.deep_view(), graph.deep_view(), outcome(patch)),
{
    let list = match patch {
        Ok(l) => l,
        Err(reason) => {
            let mut mutations: Vec<Mutation> = Vec::new();
            mutations.push(unknown("patch", reason.as_str()));
            assert(mutations.deep_view() =~= seq![unknown_mutation("patch"@, reason@)]);
            let mut violations: Vec<Breach> = Vec::new();
            assert(violations.deep_view() =~= seq![]);
            assert(idx.deep_view().decision_required_paths.len()
                == idx.decision_required_paths@.len());
            if idx.decision_required_paths.len() > 0 {
                violations.push(Breach::Unreadable);
                assert(violations.deep_view() =~= seq![BreachView::Unreadable]);
            }
            return Evaluation { unknown: true, mutations, violations };
        },
    };
    let changes = place(idx, graph, &list);
    let targets = targets_among(&changes);
    let supplied = match settings_among(&list) {
        Some(i) => applicable_decisions(
            list[i].change.before.as_str(),
            list[i].change.after.as_str(),
            &targets,
            &idx.aliases,
        ),
        None => Ok(TextMap::new()),
    };
    judge(idx, changes, supplied)
}

// ---------------------------------------------------------------------------
// Laws
// ---------------------------------------------------------------------------

pub proof fn lemma_breach_at(list: Seq<MutationView>, n: int, i: int)
    requires
        0 <= i < n <= list.len(),
        breach_of(list[i], i) is Some,
    ensures
        breaches(list, n).contains(breach_of(list[i], i)->Some_0),
    decreases n,
{
    let r = breaches(list, n - 1);
    let whole = breaches(list, n);
    let b = breach_of(list[i], i)->Some_0;
    if i < n - 1 {
        lemma_breach_at(list, n - 1, i);
        let k = choose|k: int| 0 <= k < r.len() && r[k] == b;
        assert(whole[k] == b);
    } else {
        assert(whole[r.len() as int] == b);
    }
}

/// A change that needs a decision passes only where one was supplied for it, and
/// one that nothing is known of never passes.
pub proof fn law_undecided_changes_are_stopped(
    idx: IndexView,
    list: Seq<MutationView>,
    supplied: Result<Seq<(Seq<char>, Seq<Seq<char>>)>, Seq<char>>,
    i: int,
)
    requires
        0 <= i < list.len(),
        list[i].decision_required,
        list[i].kind == MutationKind::Unknown || judged(
            idx,
            list,
            supplied,
        ).mutations[i].supplied_decisions.len() == 0,
    ensures
        judged(idx, list, supplied).violations.len() > 0,
{
    let e = judged(idx, list, supplied);
    let m = e.mutations;
    lemma_breach_at(m, m.len() as int, i);
}

/// A project that asks for no decisions is never stopped for want of one.
pub proof fn law_nothing_asked_nothing_stopped(
    idx: IndexView,
    graph: GraphView,
    patch: Result<Seq<ObservationView>, Seq<char>>,
)
    requires
        idx.decision_required_paths.len() == 0,
    ensures
        evaluated(idx, graph, patch).violations.len() == 0,
{
    if let Ok(list) = patch {
        let changes = placed(idx, graph, list);
        let supplied = supplied_in(list, targets_in(changes), idx.aliases);
        let m = judged(idx, changes, supplied).mutations;
        assert forall|i: int| 0 <= i < m.len() implies !(#[trigger] m[i]).decision_required by {
            assert(m[i].decision_required == changes[i].decision_required);
        }
        lemma_no_breaches(m, m.len() as int);
    }
}

proof fn lemma_no_breaches(list: Seq<MutationView>, n: int)
    requires
        0 <= n <= list.len(),
        forall|i: int| 0 <= i < list.len() ==> !(#[trigger] list[i]).decision_required,
    ensures
        breaches(list, n).len() == 0,
    decreases n,
{
    if n > 0 {
        lemma_no_breaches(list, n - 1);
        assert(!list[n - 1].decision_required);
    }
}

/// A patch whose contents cannot be made out is unknown, and stopped wherever
/// the project asks for decisions.
pub proof fn law_unreadable_patches_are_stopped(idx: IndexView, graph: GraphView, reason: Seq<char>)
    requires
        idx.decision_required_paths.len() > 0,
    ensures
        evaluated(idx, graph, Err(reason)).unknown,
        evaluated(idx, graph, Err(reason)).violations.len() == 1,
{
}

} // verus!
