//! What to do about an intent: which concepts to extend, who owns them and what
//! a change to them touches.
use vstd::prelude::*;
use crate::model::{first_of, shortened, ConceptView, Index, IndexView};
use crate::query::{
    answered, concept, concept_card, each_first, exact_answer, firsts, Answer, AnswerView, Detail,
    DetailView, Surroundings, SurroundingsView, Verdict,
};
use crate::resource::{Relationship, RelationshipView};
use crate::structural::{empty_graph, GraphView, ImportView, StructuralGraph};
use crate::table::{has_key, lookup, sorted_distinct, sorted_set, TextMap};
use crate::text::{contains, decimal, is_alnum, join, lowered};
use crate::text::{
    alnum, chars_of, copied, copied_option, joined, listed, lowercase, number, owned, push_char,
    same,
};

verus! {

// ---------------------------------------------------------------------------
// Intents
// ---------------------------------------------------------------------------

pub open spec fn closed_words(done: Seq<Seq<char>>, word: Seq<char>) -> Seq<Seq<char>> {
    if word.len() > 0 {
        done.push(word)
    } else {
        done
    }
}

/// The whole words of a text read so far, and the word being read: runs of ASCII
/// letters and digits.
pub open spec fn reading(s: Seq<char>) -> (Seq<Seq<char>>, Seq<char>)
    decreases s.len(),
{
    if s.len() == 0 {
        (seq![], seq![])
    } else {
        let r = reading(s.drop_last());
        if is_alnum(s.last()) {
            (r.0, r.1.push(s.last()))
        } else {
            (closed_words(r.0, r.1), seq![])
        }
    }
}

pub open spec fn plain_words(s: Seq<char>) -> Seq<Seq<char>> {
    closed_words(reading(s).0, reading(s).1)
}

/// Words that say nothing of what is wanted.
pub open spec fn is_filler(w: Seq<char>) -> bool {
    ||| w == "want"@
    ||| w == "need"@
    ||| w == "make"@
    ||| w == "build"@
    ||| w == "better"@
    ||| w == "improve"@
    ||| w == "with"@
    ||| w == "that"@
    ||| w == "this"@
    ||| w == "have"@
    ||| w == "from"@
    ||| w == "into"@
    ||| w == "would"@
    ||| w == "should"@
    ||| w == "could"@
    ||| w == "will"@
    ||| w == "more"@
    ||| w == "less"@
    ||| w == "system"@
    ||| w == "support"@
    ||| w == "please"@
    ||| w == "about"@
    ||| w == "when"@
    ||| w == "then"@
    ||| w == "them"@
    ||| w == "track"@
    ||| w == "tracking"@
    ||| w == "show"@
    ||| w == "view"@
    ||| w == "page"@
    ||| w == "data"@
    ||| w == "info"@
    ||| w == "some"@
    ||| w == "every"@
    ||| w == "feature"@
    ||| w == "the"@
    ||| w == "and"@
    ||| w == "for"@
    ||| w == "add"@
    ||| w == "create"@
    ||| w == "user"@
    ||| w == "users"@
}

/// The words worth a question, each once, in the order of the text.
pub open spec fn telling(words: Seq<Seq<char>>) -> Seq<Seq<char>>
    decreases words.len(),
{
    if words.len() == 0 {
        seq![]
    } else {
        let r = telling(words.drop_last());
        let w = words.last();
        if w.len() >= 4 && !is_filler(w) && !r.contains(w) {
            r.push(w)
        } else {
            r
        }
    }
}

/// The terms that an intent is about, at most eight.
pub open spec fn terms_of(text: Seq<char>) -> Seq<Seq<char>> {
    first_of(telling(plain_words(lowered(text))), 8)
}

fn filler(w: &str) -> (r: bool)
    ensures
        r == is_filler(w@),
{
    same(w, "want") || same(w, "need") || same(w, "make") || same(w, "build") || same(w, "better")
        || same(w, "improve") || same(w, "with") || same(w, "that") || same(w, "this") || same(
        w,
        "have",
    ) || same(w, "from") || same(w, "into") || same(w, "would") || same(w, "should") || same(
        w,
        "could",
    ) || same(w, "will") || same(w, "more") || same(w, "less") || same(w, "system") || same(
        w,
        "support",
    ) || same(w, "please") || same(w, "about") || same(w, "when") || same(w, "then") || same(
        w,
        "them",
    ) || same(w, "track") || same(w, "tracking") || same(w, "show") || same(w, "view") || same(
        w,
        "page",
    ) || same(w, "data") || same(w, "info") || same(w, "some") || same(w, "every") || same(
        w,
        "feature",
    ) || same(w, "the") || same(w, "and") || same(w, "for") || same(w, "add") || same(w, "create")
        || same(w, "user") || same(w, "users")
}

fn words_in(text: &str) -> (r: Vec<String>)
    ensures
        r.deep_view() == plain_words(text@),
{
    let cs = chars_of(text);
    let ghost tv = text@;
    let mut done: Vec<String> = Vec::new();
    let mut word = String::new();
    let mut i: usize = 0;
    assert(done.deep_view() =~= seq![]);
    assert(tv.take(0) =~= seq![]);
    while i < cs.len()
        invariant
            i <= cs.len(),
            cs@ == tv,
            done.deep_view() == reading(tv.take(i as int)).0,
            word@ == reading(tv.take(i as int)).1,
        decreases cs.len() - i,
    {
        proof {
            let step = tv.take(i + 1);
            assert(step.drop_last() =~= tv.take(i as int));
            assert(step.last() == tv[i as int]);
        }
        let ghost so_far = done.deep_view();
        if alnum(cs[i]) {
            push_char(&mut word, cs[i]);
        } else {
            if !word.as_str().is_empty() {
                let ghost w = word@;
                done.push(word);
                assert(done.deep_view() =~= so_far.push(w));
            }
            word = String::new();
            assert(word@ =~= seq![]);
        }
        i += 1;
    }
    assert(tv.take(i as int) =~= tv);
    if !word.as_str().is_empty() {
        let ghost so_far = done.deep_view();
        let ghost w = word@;
        done.push(word);
        assert(done.deep_view() =~= so_far.push(w));
    }
    done
}

/// The terms that an intent is about.
pub fn intent_terms(text: &str) -> (r: Vec<String>)
    ensures
        r.deep_view() == terms_of(text@),
{
    let words = words_in(lowercase(text).as_str());
    let ghost wv = words.deep_view();
    let mut out: Vec<String> = Vec::new();
    let mut i: usize = 0;
    assert(out.deep_view() =~= telling(wv.take(0)));
    while i < words.len()
        invariant
            i <= words.len(),
            wv == words.deep_view(),
            out.deep_view() == telling(wv.take(i as int)),
        decreases words.len() - i,
    {
        let ghost so_far = out.deep_view();
        let w = words[i].as_str();
        proof {
            let step = wv.take(i + 1);
            assert(step.drop_last() =~= wv.take(i as int));
            assert(step.last() == w@);
        }
        if w.unicode_len() >= 4 && !filler(w) && !listed(&out, w) {
            out.push(owned(w));
            assert(out.deep_view() =~= so_far.push(w@));
        }
        i += 1;
    }
    assert(wv.take(i as int) =~= wv);
    shortened(out, 8)
}

/// A concept that an intent is about and that exists.
#[derive(Debug)]
pub struct Extension {
    pub concept: String,
    pub canonical: Option<String>,
    pub verdict: Verdict,
    pub relations: Vec<String>,
}

pub struct ExtensionView {
    pub concept: Seq<char>,
    pub canonical: Option<Seq<char>>,
    pub verdict: Verdict,
    pub relations: Seq<Seq<char>>,
}

impl DeepView for Extension {
    type V = ExtensionView;

    open spec fn deep_view(&self) -> ExtensionView {
        ExtensionView {
            concept: self.concept@,
            canonical: self.canonical.deep_view(),
            verdict: self.verdict,
            relations: self.relations.deep_view(),
        }
    }
}

/// What an intent comes down to.
#[derive(Debug)]
pub struct Intent {
    pub intent: String,
    pub recognised: Vec<String>,
    pub extend: Vec<Extension>,
    pub create: Vec<String>,
    pub needs_confirmation: Vec<String>,
    pub smallest_correct_change: String,
}

pub struct IntentView {
    pub intent: Seq<char>,
    pub recognised: Seq<Seq<char>>,
    pub extend: Seq<ExtensionView>,
    pub create: Seq<Seq<char>>,
    pub needs_confirmation: Seq<Seq<char>>,
    pub smallest_correct_change: Seq<char>,
}

impl DeepView for Intent {
    type V = IntentView;

    open spec fn deep_view(&self) -> IntentView {
        IntentView {
            intent: self.intent@,
            recognised: self.recognised.deep_view(),
            extend: self.extend.deep_view(),
            create: self.create.deep_view(),
            needs_confirmation: self.needs_confirmation.deep_view(),
            smallest_correct_change: self.smallest_correct_change@,
        }
    }
}

/// The answer to a term as far as declarations and files give one.
pub open spec fn plain_answer(idx: IndexView, around: SurroundingsView, term: Seq<char>) -> AnswerView {
    answered(idx, empty_graph(), around, term, idx.aliases.len())
}

pub open spec fn relations_in(d: DetailView) -> Seq<Seq<char>> {
    match d {
        DetailView::Declared(c) => c.relations,
        _ => seq![],
    }
}

pub open spec fn is_declared_verdict(v: Verdict) -> bool {
    v == Verdict::Active || v == Verdict::DeclaredOnly
}

pub open spec fn each_extension(idx: IndexView, around: SurroundingsView) -> spec_fn(
    Seq<char>,
) -> Option<ExtensionView> {
    |t: Seq<char>|
        {
            let a = plain_answer(idx, around, t);
            if is_declared_verdict(a.verdict) {
                Some(
                    ExtensionView {
                        concept: t,
                        canonical: a.canonical,
                        verdict: a.verdict,
                        relations: relations_in(a.detail),
                    },
                )
            } else {
                None
            }
        }
}

pub open spec fn each_new(idx: IndexView, around: SurroundingsView) -> spec_fn(Seq<char>) -> Option<
    Seq<char>,
> {
    |t: Seq<char>|
        {
            let v = plain_answer(idx, around, t).verdict;
            if is_declared_verdict(v) || v == Verdict::Unknown {
                None
            } else {
                Some(t)
            }
        }
}

pub open spec fn each_unsure(idx: IndexView, around: SurroundingsView) -> spec_fn(
    Seq<char>,
) -> Option<Seq<char>> {
    |t: Seq<char>|
        if plain_answer(idx, around, t).verdict == Verdict::Unknown {
            Some(t)
        } else {
            None
        }
}

pub open spec fn each_canonical() -> spec_fn(ExtensionView) -> Option<Seq<char>> {
    |e: ExtensionView| e.canonical
}

pub open spec fn change_summary(
    extend: Seq<ExtensionView>,
    create: Seq<Seq<char>>,
    unsure: Seq<Seq<char>>,
) -> Seq<char> {
    if extend.len() > 0 {
        decimal(extend.len()) + " concept(s) already exist: extend "@ + join(
            extend.filter_map(each_canonical()),
            ", "@,
        ) + ". "@ + (if create.len() == 0 {
            "Nothing genuinely new required."@
        } else {
            "Only genuinely new: "@ + join(create, ", "@) + "."@
        })
    } else if create.len() > 0 && unsure.len() == 0 {
        "No named concept exists here — this intent is greenfield for this project."@
    } else {
        "Nothing matched declarations. Either the vocabulary differs from the project's or this is new territory."@
    }
}

pub open spec fn intent_of(idx: IndexView, around: SurroundingsView, text: Seq<char>) -> IntentView {
    let terms = terms_of(text);
    let extend = terms.filter_map(each_extension(idx, around));
    let create = terms.filter_map(each_new(idx, around));
    let unsure = terms.filter_map(each_unsure(idx, around));
    IntentView {
        intent: text,
        recognised: terms,
        extend,
        create,
        needs_confirmation: unsure,
        smallest_correct_change: change_summary(extend, create, unsure),
    }
}

fn relations_of(d: &Detail) -> (r: Vec<String>)
    ensures
        r.deep_view() == relations_in(d.deep_view()),
{
    match d {
        Detail::Declared(c) => copied(&c.relations),
        _ => {
            let none: Vec<String> = Vec::new();
            assert(none.deep_view() =~= seq![]);
            none
        },
    }
}

fn canonicals(list: &Vec<Extension>) -> (r: Vec<String>)
    ensures
        r.deep_view() == list.deep_view().filter_map(each_canonical()),
{
    let ghost all = list.deep_view();
    let ghost f = each_canonical();
    let mut out: Vec<String> = Vec::new();
    let mut i: usize = 0;
    proof {
        assert(all.take(0) =~= seq![]);
        reveal(Seq::filter_map);
    }
    while i < list.len()
        invariant
            i <= list.len(),
            all == list.deep_view(),
            f == each_canonical(),
            out.deep_view() =~= all.take(i as int).filter_map(f),
        decreases list.len() - i,
    {
        let ghost so_far = out.deep_view();
        proof {
            all.lemma_filter_map_take_succ(f, i as int);
        }
        assert(all[i as int] == list[i as int].deep_view());
        if let Some(c) = &list[i].canonical {
            out.push(owned(c.as_str()));
            assert(out.deep_view() =~= so_far.push(c@));
        }
        i += 1;
    }
    assert(all.take(i as int) =~= all);
    out
}

fn summary(extend: &Vec<Extension>, create: &Vec<String>, unsure: &Vec<String>) -> (r: String)
    ensures
        r@ == change_summary(extend.deep_view(), create.deep_view(), unsure.deep_view()),
{
    assert(extend.deep_view().len() == extend@.len());
    assert(create.deep_view().len() == create@.len());
    assert(unsure.deep_view().len() == unsure@.len());
    if extend.len() > 0 {
        let mut out = number(extend.len() as u64);
        out.append(" concept(s) already exist: extend ");
        out.append(joined(&canonicals(extend), ", ").as_str());
        out.append(". ");
        if create.len() == 0 {
            out.append("Nothing genuinely new required.");
        } else {
            let mut new = owned("Only genuinely new: ");
            new.append(joined(create, ", ").as_str());
            new.append(".");
            out.append(new.as_str());
        }
        out
    } else if create.len() > 0 && unsure.len() == 0 {
        owned("No named concept exists here — this intent is greenfield for this project.")
    } else {
        owned(
            "Nothing matched declarations. Either the vocabulary differs from the project's or this is new territory.",
        )
    }
}

/// What an intent comes down to in this project: what to extend, what is new and
/// what somebody has to look at.
pub fn intent(idx: &Index, around: &Surroundings, text: &str) -> (r: Intent)
    ensures
        r.deep_view() == intent_of(idx.deep_view(), around.deep_view(), text@),
{
    let terms = intent_terms(text);
    let graph: StructuralGraph = Default::default();
    let ghost all = terms.deep_view();
    let ghost iv = idx.deep_view();
    let ghost av = around.deep_view();
    let mut extend: Vec<Extension> = Vec::new();
    let mut create: Vec<String> = Vec::new();
    let mut unsure: Vec<String> = Vec::new();
    let mut i: usize = 0;
    proof {
        assert(all.take(0) =~= seq![]);
        reveal(Seq::filter_map);
    }
    while i < terms.len()
        invariant
            i <= terms.len(),
            all == terms.deep_view(),
            iv == idx.deep_view(),
            av == around.deep_view(),
            graph.deep_view() == empty_graph(),
            extend.deep_view() =~= all.take(i as int).filter_map(each_extension(iv, av)),
            create.deep_view() =~= all.take(i as int).filter_map(each_new(iv, av)),
            unsure.deep_view() =~= all.take(i as int).filter_map(each_unsure(iv, av)),
        decreases terms.len() - i,
    {
        let ghost e = extend.deep_view();
        let ghost c = create.deep_view();
        let ghost u = unsure.deep_view();
        proof {
            all.lemma_filter_map_take_succ(each_extension(iv, av), i as int);
            all.lemma_filter_map_take_succ(each_new(iv, av), i as int);
            all.lemma_filter_map_take_succ(each_unsure(iv, av), i as int);
        }
        let t = terms[i].as_str();
        assert(all[i as int] == t@);
        let a = concept(idx, &graph, around, t);
        match a.verdict {
            Verdict::Active | Verdict::DeclaredOnly => {
                let x = Extension {
                    concept: owned(t),
                    canonical: copied_option(&a.canonical),
                    verdict: a.verdict,
                    relations: relations_of(&a.detail),
                };
                let ghost xv = x.deep_view();
                extend.push(x);
                assert(extend.deep_view() =~= e.push(xv));
            },
            Verdict::Unknown => {
                unsure.push(owned(t));
                assert(unsure.deep_view() =~= u.push(t@));
            },
            _ => {
                create.push(owned(t));
                assert(create.deep_view() =~= c.push(t@));
            },
        }
        i += 1;
    }
    assert(all.take(i as int) =~= all);
    let smallest_correct_change = summary(&extend, &create, &unsure);
    Intent {
        intent: owned(text),
        recognised: terms,
        extend,
        create,
        needs_confirmation: unsure,
        smallest_correct_change,
    }
}

proof fn lemma_telling_distinct(words: Seq<Seq<char>>)
    ensures
        telling(words).no_duplicates(),
        forall|i: int|
            0 <= i < telling(words).len() ==> (#[trigger] telling(words)[i]).len() >= 4
                && !is_filler(telling(words)[i]),
    decreases words.len(),
{
    if words.len() > 0 {
        lemma_telling_distinct(words.drop_last());
    }
}

/// An intent is read as at most eight terms, no two alike, none of them filler.
pub proof fn law_terms_are_few_and_distinct(text: Seq<char>)
    ensures
        terms_of(text).len() <= 8,
        terms_of(text).no_duplicates(),
        forall|i: int|
            0 <= i < terms_of(text).len() ==> (#[trigger] terms_of(text)[i]).len() >= 4
                && !is_filler(terms_of(text)[i]),
{
    lemma_telling_distinct(plain_words(lowered(text)));
}

/// Every term of an intent is either something to extend, something new or
/// something to confirm, and only one of these.
pub proof fn law_every_term_is_placed_once(
    idx: IndexView,
    around: SurroundingsView,
    text: Seq<char>,
    i: int,
)
    requires
        0 <= i < terms_of(text).len(),
    ensures
        ({
            let t = terms_of(text)[i];
            let e = each_extension(idx, around)(t) is Some;
            let n = each_new(idx, around)(t) is Some;
            let u = each_unsure(idx, around)(t) is Some;
            &&& e || n || u
            &&& !(e && n)
            &&& !(e && u)
            &&& !(n && u)
        }),
{
}

// ---------------------------------------------------------------------------
// Impact
// ---------------------------------------------------------------------------

/// A file that reaches a concept through imports.
#[derive(Debug)]
pub struct Dependent {
    pub file: String,
    pub depth: usize,
    pub via_symbols: Vec<String>,
}

pub struct DependentView {
    pub file: Seq<char>,
    pub depth: nat,
    pub via_symbols: Seq<Seq<char>>,
}

impl DeepView for Dependent {
    type V = DependentView;

    open spec fn deep_view(&self) -> DependentView {
        DependentView {
            file: self.file@,
            depth: self.depth as nat,
            via_symbols: self.via_symbols.deep_view(),
        }
    }
}

impl Dependent {
    pub fn copy(&self) -> (r: Dependent)
        ensures
            r.deep_view() == self.deep_view(),
    {
        Dependent {
            file: owned(self.file.as_str()),
            depth: self.depth,
            via_symbols: copied(&self.via_symbols),
        }
    }
}

/// How far a change would be felt.
#[derive(Clone, Copy, Debug, PartialEq, Eq, Structural)]
pub enum Severity {
    High,
    Moderate,
    NoneObserved,
}

impl Severity {
    pub open spec fn label_text(self) -> Seq<char> {
        match self {
            Severity::High => "HIGH — widely used and other models declare relations to it"@,
            Severity::Moderate => "MODERATE — several touchpoints"@,
            Severity::NoneObserved => "NONE OBSERVED — declared but nothing seen touching it"@,
        }
    }

    pub fn label(&self) -> (r: &'static str)
        ensures
            r@ == self.label_text(),
    {
        match self {
            Severity::High => "HIGH — widely used and other models declare relations to it",
            Severity::Moderate => "MODERATE — several touchpoints",
            Severity::NoneObserved => "NONE OBSERVED — declared but nothing seen touching it",
        }
    }
}

/// What a change to a target touches.
#[derive(Debug)]
pub struct Reach {
    pub target: String,
    pub severity: Severity,
    pub used_by_files: Vec<String>,
    pub declared_dependents: Vec<String>,
    pub structural_dependents: Vec<Dependent>,
}

pub struct ReachView {
    pub target: Seq<char>,
    pub severity: Severity,
    pub used_by_files: Seq<Seq<char>>,
    pub declared_dependents: Seq<Seq<char>>,
    pub structural_dependents: Seq<DependentView>,
}

impl DeepView for Reach {
    type V = ReachView;

    open spec fn deep_view(&self) -> ReachView {
        ReachView {
            target: self.target@,
            severity: self.severity,
            used_by_files: self.used_by_files.deep_view(),
            declared_dependents: self.declared_dependents.deep_view(),
            structural_dependents: self.structural_dependents.deep_view(),
        }
    }
}

/// The impact of a change; where the target is not declared, the answer that
/// says so.
#[derive(Debug)]
pub enum Impact {
    Undeclared(Answer),
    Known(Reach),
}

pub enum ImpactView {
    Undeclared(AnswerView),
    Known(ReachView),
}

impl DeepView for Impact {
    type V = ImpactView;

    open spec fn deep_view(&self) -> ImpactView {
        match self {
            Impact::Undeclared(a) => ImpactView::Undeclared(a.deep_view()),
            Impact::Known(r) => ImpactView::Known(r.deep_view()),
        }
    }
}

/// The answer to a target, which is a name before it is a term.
pub open spec fn target_answer(
    idx: IndexView,
    graph: GraphView,
    around: SurroundingsView,
    term: Seq<char>,
) -> AnswerView {
    if has_key(idx.concepts, term) {
        exact_answer(idx, graph, term, term)
    } else {
        answered(idx, graph, around, term, idx.aliases.len())
    }
}

pub open spec fn each_related(name: Seq<char>) -> spec_fn((Seq<char>, ConceptView)) -> Option<
    Seq<char>,
> {
    |e: (Seq<char>, ConceptView)|
        if e.1.relations.contains(name) {
            Some(e.0)
        } else {
            None
        }
}

/// The files that use a name, and the concepts that relate to it.
pub open spec fn users_of(idx: IndexView, name: Seq<char>) -> Seq<Seq<char>> {
    match lookup(idx.concepts, name) {
        Some(c) => sorted_set(c.usage.map_values(each_first())),
        None => seq![],
    }
}

pub open spec fn related_to(idx: IndexView, name: Seq<char>) -> Seq<Seq<char>> {
    if has_key(idx.concepts, name) {
        idx.concepts.filter_map(each_related(name))
    } else {
        seq![]
    }
}

pub open spec fn severity_of(files: int, dependents: int, structural: int) -> Severity {
    if files > 8 || dependents > 3 || structural > 5 {
        Severity::High
    } else if files > 0 || dependents > 0 || structural > 0 {
        Severity::Moderate
    } else {
        Severity::NoneObserved
    }
}

/// What stands under a name in a table of dependents.
pub open spec fn importers(reach: Seq<(Seq<char>, Seq<DependentView>)>, name: Seq<char>) -> Seq<
    DependentView,
> {
    match lookup(reach, name) {
        Some(d) => d,
        None => seq![],
    }
}

pub open spec fn reach_of(
    idx: IndexView,
    name: Seq<char>,
    reach: Seq<(Seq<char>, Seq<DependentView>)>,
) -> ReachView {
    let files = users_of(idx, name);
    let dependents = related_to(idx, name);
    let structural = importers(reach, name);
    ReachView {
        target: name,
        severity: severity_of(
            files.len() as int,
            dependents.len() as int,
            structural.len() as int,
        ),
        used_by_files: first_of(files, 20),
        declared_dependents: dependents,
        structural_dependents: first_of(structural, 20),
    }
}

pub open spec fn impact_of(
    idx: IndexView,
    graph: GraphView,
    around: SurroundingsView,
    term: Seq<char>,
    reach: Seq<(Seq<char>, Seq<DependentView>)>,
) -> ImpactView {
    let a = target_answer(idx, graph, around, term);
    match a.canonical {
        None => ImpactView::Undeclared(a),
        Some(name) => ImpactView::Known(reach_of(idx, name, reach)),
    }
}

/// The answer to a target, which is a name before it is a term.
pub fn target(idx: &Index, graph: &StructuralGraph, around: &Surroundings, term: &str) -> (r: Answer)
    ensures
        r.deep_view() == target_answer(
            idx.deep_view(),
            graph.deep_view(),
            around.deep_view(),
            term@,
        ),
{
    match concept_card(idx, graph, term, term) {
        Some(a) => a,
        None => concept(idx, graph, around, term),
    }
}

fn related(idx: &Index, name: &str) -> (r: Vec<String>)
    ensures
        r.deep_view() == idx.deep_view().concepts.filter_map(each_related(name@)),
{
    let ghost all = idx.concepts.deep_view();
    let ghost f = each_related(name@);
    let n: usize = idx.concepts.len();
    let mut out: Vec<String> = Vec::new();
    let mut i: usize = 0;
    proof {
        assert(all.take(0) =~= seq![]);
        reveal(Seq::filter_map);
    }
    while i < n
        invariant
            i <= n,
            n == all.len(),
            all == idx.concepts.deep_view(),
            f == each_related(name@),
            out.deep_view() =~= all.take(i as int).filter_map(f),
        decreases n - i,
    {
        let ghost so_far = out.deep_view();
        proof {
            all.lemma_filter_map_take_succ(f, i as int);
        }
        if listed(&idx.concepts.value(i).relations, name) {
            let k = idx.concepts.key(i);
            out.push(owned(k));
            assert(out.deep_view() =~= so_far.push(k@));
        }
        i += 1;
    }
    assert(all.take(i as int) =~= all);
    out
}

fn copied_dependents(list: &Vec<Dependent>) -> (r: Vec<Dependent>)
    ensures
        r.deep_view() == list.deep_view(),
{
    let ghost all = list.deep_view();
    let mut out: Vec<Dependent> = Vec::new();
    let mut i: usize = 0;
    while i < list.len()
        invariant
            i <= list.len(),
            all == list.deep_view(),
            out.deep_view() =~= all.take(i as int),
        decreases list.len() - i,
    {
        let ghost so_far = out.deep_view();
        assert(all[i as int] == list[i as int].deep_view());
        out.push(list[i].copy());
        assert(out.deep_view() =~= so_far.push(all[i as int]));
        i += 1;
    }
    assert(all.take(i as int) =~= all);
    out
}

/// What a change to the thing of this name touches.
pub fn reach_from(idx: &Index, name: &str, reach: &TextMap<Vec<Dependent>>) -> (r: Reach)
    ensures
        r.deep_view() == reach_of(idx.deep_view(), name@, reach.deep_view()),
{
    let mut files: Vec<String> = Vec::new();
    let mut dependents: Vec<String> = Vec::new();
    let mut structural: Vec<Dependent> = Vec::new();
    assert(files.deep_view() =~= seq![]);
    assert(dependents.deep_view() =~= seq![]);
    assert(structural.deep_view() =~= seq![]);
    if let Some(c) = idx.concepts.get(name) {
        files = sorted_distinct(&firsts(&c.usage));
        dependents = related(idx, name);
    }
    if let Some(d) = reach.get(name) {
        structural = copied_dependents(d);
    }
    assert(files.deep_view() == users_of(idx.deep_view(), name@));
    assert(dependents.deep_view() == related_to(idx.deep_view(), name@));
    assert(structural.deep_view() == importers(reach.deep_view(), name@));
    assert(files.deep_view().len() == files@.len());
    assert(dependents.deep_view().len() == dependents@.len());
    assert(structural.deep_view().len() == structural@.len());
    let severity = if files.len() > 8 || dependents.len() > 3 || structural.len() > 5 {
        Severity::High
    } else if files.len() > 0 || dependents.len() > 0 || structural.len() > 0 {
        Severity::Moderate
    } else {
        Severity::NoneObserved
    };
    Reach {
        target: owned(name),
        severity,
        used_by_files: shortened(files, 20),
        declared_dependents: dependents,
        structural_dependents: shortened(structural, 20),
    }
}

/// What a change to a target touches. `reach` gives, for the names that have
/// any, the files that import them.
pub fn impact(
    idx: &Index,
    graph: &StructuralGraph,
    around: &Surroundings,
    term: &str,
    reach: &TextMap<Vec<Dependent>>,
) -> (r: Impact)
    ensures
        r.deep_view() == impact_of(
            idx.deep_view(),
            graph.deep_view(),
            around.deep_view(),
            term@,
            reach.deep_view(),
        ),
{
    let a = target(idx, graph, around, term);
    match &a.canonical {
        None => {},
        Some(name) => {
            return Impact::Known(reach_from(idx, name.as_str(), reach));
        },
    }
    Impact::Undeclared(a)
}

// ---------------------------------------------------------------------------
// Imports
// ---------------------------------------------------------------------------

/// The import edges in and out of one file.
#[derive(Debug)]
pub struct Edges {
    pub file: String,
    pub known_to_this_scan: bool,
    pub imports: Vec<Relationship>,
    /// The importing file of each edge, and the edge.
    pub imported_by: Vec<(String, Relationship)>,
}

pub struct EdgesView {
    pub file: Seq<char>,
    pub known_to_this_scan: bool,
    pub imports: Seq<RelationshipView>,
    pub imported_by: Seq<(Seq<char>, RelationshipView)>,
}

impl DeepView for Edges {
    type V = EdgesView;

    open spec fn deep_view(&self) -> EdgesView {
        EdgesView {
            file: self.file@,
            known_to_this_scan: self.known_to_this_scan,
            imports: self.imports.deep_view(),
            imported_by: self.imported_by.deep_view(),
        }
    }
}

pub open spec fn each_outgoing(file: Seq<char>) -> spec_fn(ImportView) -> Option<RelationshipView> {
    |i: ImportView|
        if i.from_file == file {
            i.resolved
        } else {
            None
        }
}

pub open spec fn each_incoming(file: Seq<char>) -> spec_fn(ImportView) -> Option<
    (Seq<char>, RelationshipView),
> {
    |i: ImportView|
        match i.resolved {
            Some(rel) => if rel.to == file {
                Some((i.from_file, rel))
            } else {
                None
            },
            None => None,
        }
}

pub open spec fn edges_of(graph: GraphView, file: Seq<char>) -> EdgesView {
    EdgesView {
        file,
        known_to_this_scan: graph.files.contains(file),
        imports: graph.imports.filter_map(each_outgoing(file)),
        imported_by: graph.imports.filter_map(each_incoming(file)),
    }
}

/// The resolved imports of a file, and those that resolve to it.
pub fn imports(graph: &StructuralGraph, file: &str) -> (r: Edges)
    ensures
        r.deep_view() == edges_of(graph.deep_view(), file@),
{
    let ghost all = graph.imports.deep_view();
    let mut out: Vec<Relationship> = Vec::new();
    let mut back: Vec<(String, Relationship)> = Vec::new();
    let mut i: usize = 0;
    proof {
        assert(all.take(0) =~= seq![]);
        reveal(Seq::filter_map);
    }
    while i < graph.imports.len()
        invariant
            i <= graph.imports.len(),
            all == graph.imports.deep_view(),
            out.deep_view() =~= all.take(i as int).filter_map(each_outgoing(file@)),
            back.deep_view() =~= all.take(i as int).filter_map(each_incoming(file@)),
        decreases graph.imports.len() - i,
    {
        let ghost o = out.deep_view();
        let ghost b = back.deep_view();
        proof {
            all.lemma_filter_map_take_succ(each_outgoing(file@), i as int);
            all.lemma_filter_map_take_succ(each_incoming(file@), i as int);
        }
        let x = &graph.imports[i];
        assert(all[i as int] == x.deep_view());
        if let Some(rel) = &x.resolved {
            if same(x.from_file.as_str(), file) {
                out.push(rel.copy());
                assert(out.deep_view() =~= o.push(rel.deep_view()));
            }
            if same(rel.to.0.as_str(), file) {
                back.push((owned(x.from_file.as_str()), rel.copy()));
                assert(back.deep_view() =~= b.push((x.from_file@, rel.deep_view())));
            }
        }
        i += 1;
    }
    assert(all.take(i as int) =~= all);
    Edges {
        file: owned(file),
        known_to_this_scan: listed(&graph.files, file),
        imports: out,
        imported_by: back,
    }
}

} // verus!
