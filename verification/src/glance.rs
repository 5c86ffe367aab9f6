//! The state of the architecture at a glance, and the plan for an intent.
use vstd::prelude::*;
use crate::advice::{
    intent, intent_of, reach_from, reach_of, Dependent, DependentView, Extension, ExtensionView,
    Severity,
};
use crate::model::{
    answers_to, first_of, is_generic_role_token, is_role_word, is_same_word, name_tokens,
    names_concept, same_word, shortened, tokens, ConceptView, Decision, DecisionView, Index,
    IndexView,
};
use crate::order::{in_order, stable_sort, Ranked};
use crate::ownership::{ownership, ownership_of};
use crate::query::{Surroundings, SurroundingsView};
use crate::structural::{GraphView, StructuralGraph};
use crate::survey::{duplicates, duplicates_of, index_freshness};
use crate::table::{has_key, lookup, put, TextMap};
use crate::text::{ascii_lower, decimal, join, lowered, trim_end_of, CharClass};
use crate::text::{
    copied, joined, lowercase, number, owned, same_ignoring_case, trimmed_end_of, wide_number,
};

verus! {

// ---------------------------------------------------------------------------
// Families
// ---------------------------------------------------------------------------

pub open spec fn members_of(m: Seq<(Seq<char>, Seq<Seq<char>>)>, tok: Seq<char>) -> Seq<Seq<char>> {
    match lookup(m, tok) {
        Some(v) => v,
        None => seq![],
    }
}

/// A token that makes a family: five letters or more, and no role that unrelated
/// things share.
pub open spec fn makes_family(tok: Seq<char>) -> bool {
    tok.len() >= 5 && !is_role_word(lowered(tok))
}

/// The families with a name added under each of its tokens.
pub open spec fn joined_by(
    m: Seq<(Seq<char>, Seq<Seq<char>>)>,
    toks: Seq<Seq<char>>,
    name: Seq<char>,
) -> Seq<(Seq<char>, Seq<Seq<char>>)>
    decreases toks.len(),
{
    if toks.len() == 0 {
        m
    } else {
        let r = joined_by(m, toks.drop_last(), name);
        let t = toks.last();
        if makes_family(t) {
            put(r, lowered(t), members_of(r, lowered(t)).push(name))
        } else {
            r
        }
    }
}

/// The stored concepts by the tokens of their names.
pub open spec fn families(concepts: Seq<(Seq<char>, ConceptView)>) -> Seq<
    (Seq<char>, Seq<Seq<char>>),
>
    decreases concepts.len(),
{
    if concepts.len() == 0 {
        seq![]
    } else {
        let r = families(concepts.drop_last());
        let e = concepts.last();
        if e.1.table is Some {
            joined_by(r, tokens(e.0), e.0)
        } else {
            r
        }
    }
}

/// Concepts that share a token.
#[derive(Debug)]
pub struct Family {
    pub token: String,
    pub members: Vec<String>,
}

pub struct FamilyView {
    pub token: Seq<char>,
    pub members: Seq<Seq<char>>,
}

impl DeepView for Family {
    type V = FamilyView;

    open spec fn deep_view(&self) -> FamilyView {
        FamilyView { token: self.token@, members: self.members.deep_view() }
    }
}

impl Ranked for Family {
    open spec fn leads(a: FamilyView, b: FamilyView) -> bool {
        a.members.len() > b.members.len()
    }

    fn goes_before(&self, other: &Self) -> (r: bool) {
        assert(self.deep_view().members.len() == self.members@.len());
        assert(other.deep_view().members.len() == other.members@.len());
        self.members.len() > other.members.len()
    }
}

pub open spec fn links_word(d: DecisionView, tok: Seq<char>) -> bool {
    exists|i: int| 0 <= i < d.links.len() && is_same_word(#[trigger] d.links[i], tok)
}

/// Some decision governs a family.
pub open spec fn is_governed(decisions: Seq<DecisionView>, tok: Seq<char>) -> bool {
    exists|i: int| 0 <= i < decisions.len() && links_word(#[trigger] decisions[i], tok)
}

pub open spec fn each_ungoverned(decisions: Seq<DecisionView>) -> spec_fn(
    (Seq<char>, Seq<Seq<char>>),
) -> Option<FamilyView> {
    |e: (Seq<char>, Seq<Seq<char>>)|
        if e.1.len() >= 3 && !is_governed(decisions, e.0) {
            Some(FamilyView { token: e.0, members: e.1 })
        } else {
            None
        }
}

/// The families of three or more that no decision governs, the largest first.
pub open spec fn ungoverned(idx: IndexView) -> Seq<FamilyView> {
    stable_sort::<Family>(families(idx.concepts).filter_map(each_ungoverned(idx.decisions)))
}

fn join_families(m: TextMap<Vec<String>>, toks: &Vec<String>, name: &str) -> (r: TextMap<Vec<String>>)
    ensures
        r.deep_view() == joined_by(m.deep_view(), toks.deep_view(), name@),
{
    let ghost start = m.deep_view();
    let ghost tv = toks.deep_view();
    let mut out = m;
    let mut i: usize = 0;
    while i < toks.len()
        invariant
            i <= toks.len(),
            tv == toks.deep_view(),
            out.deep_view() == joined_by(start, tv.take(i as int), name@),
        decreases toks.len() - i,
    {
        let t = toks[i].as_str();
        proof {
            let step = tv.take(i + 1);
            assert(step.drop_last() =~= tv.take(i as int));
            assert(step.last() == t@);
        }
        if t.unicode_len() >= 5 && !is_generic_role_token(t) {
            let low = lowercase(t);
            let mut members = match out.get(low.as_str()) {
                Some(v) => copied(v),
                None => {
                    let none: Vec<String> = Vec::new();
                    assert(none.deep_view() =~= seq![]);
                    none
                },
            };
            let ghost old_members = members.deep_view();
            members.push(owned(name));
            assert(members.deep_view() =~= old_members.push(name@));
            out = out.with(low, members);
        }
        i += 1;
    }
    assert(tv.take(i as int) =~= tv);
    out
}

fn families_of(idx: &Index) -> (r: TextMap<Vec<String>>)
    ensures
        r.deep_view() == families(idx.deep_view().concepts),
{
    let ghost cv = idx.concepts.deep_view();
    let n: usize = idx.concepts.len();
    let mut out: TextMap<Vec<String>> = TextMap::new();
    let mut i: usize = 0;
    while i < n
        invariant
            i <= n,
            n == cv.len(),
            cv == idx.concepts.deep_view(),
            out.deep_view() == families(cv.take(i as int)),
        decreases n - i,
    {
        proof {
            let step = cv.take(i + 1);
            assert(step.drop_last() =~= cv.take(i as int));
            assert(step.last() == cv[i as int]);
        }
        if idx.concepts.value(i).table.is_some() {
            let name = idx.concepts.key(i);
            out = join_families(out, &name_tokens(name), name);
        }
        i += 1;
    }
    assert(cv.take(i as int) =~= cv);
    out
}

fn decided(decisions: &Vec<Decision>, tok: &str) -> (r: bool)
    ensures
        r == is_governed(decisions.deep_view(), tok@),
{
    let ghost dv = decisions.deep_view();
    let mut i: usize = 0;
    while i < decisions.len()
        invariant
            i <= decisions.len(),
            dv == decisions.deep_view(),
            forall|k: int| 0 <= k < i ==> !links_word(#[trigger] dv[k], tok@),
        decreases decisions.len() - i,
    {
        let d = &decisions[i];
        assert(dv[i as int] == d.deep_view());
        let mut j: usize = 0;
        while j < d.links.len()
            invariant
                i < decisions.len(),
                j <= d.links.len(),
                dv == decisions.deep_view(),
                dv[i as int] == d.deep_view(),
                forall|k: int|
                    0 <= k < j ==> !is_same_word(#[trigger] d.deep_view().links[k], tok@),
            decreases d.links.len() - j,
        {
            assert(d.deep_view().links[j as int] == d.links[j as int]@);
            if same_word(d.links[j].as_str(), tok) {
                assert(links_word(dv[i as int], tok@));
                return true;
            }
            j += 1;
        }
        i += 1;
    }
    false
}

fn ungoverned_of(idx: &Index) -> (r: Vec<Family>)
    ensures
        r.deep_view() == ungoverned(idx.deep_view()),
{
    let all_families = families_of(idx);
    let ghost all = all_families.deep_view();
    let ghost f = each_ungoverned(idx.decisions.deep_view());
    let n: usize = all_families.len();
    let mut out: Vec<Family> = Vec::new();
    let mut i: usize = 0;
    proof {
        assert(all.take(0) =~= seq![]);
        reveal(Seq::filter_map);
    }
    while i < n
        invariant
            i <= n,
            n == all.len(),
            all == all_families.deep_view(),
            f == each_ungoverned(idx.decisions.deep_view()),
            out.deep_view() =~= all.take(i as int).filter_map(f),
        decreases n - i,
    {
        let ghost so_far = out.deep_view();
        proof {
            all.lemma_filter_map_take_succ(f, i as int);
        }
        let tok = all_families.key(i);
        let members = all_families.value(i);
        assert(members.deep_view().len() == members@.len());
        if members.len() >= 3 && !decided(&idx.decisions, tok) {
            let x = Family { token: owned(tok), members: copied(members) };
            let ghost xv = x.deep_view();
            out.push(x);
            assert(out.deep_view() =~= so_far.push(xv));
        }
        i += 1;
    }
    assert(all.take(i as int) =~= all);
    in_order(out)
}

// ---------------------------------------------------------------------------
// The glance
// ---------------------------------------------------------------------------

pub open spec fn something_answers(concepts: Seq<(Seq<char>, ConceptView)>, term: Seq<char>) -> bool {
    exists|i: int| 0 <= i < concepts.len() && answers_to((#[trigger] concepts[i]).0, term)
}

pub open spec fn each_stale(idx: IndexView) -> spec_fn((Seq<char>, Seq<char>)) -> Option<Seq<char>> {
    |e: (Seq<char>, Seq<char>)|
        if has_key(idx.concepts, e.1) || something_answers(
            idx.concepts,
            trim_end_of(e.1, CharClass::Is('s')),
        ) {
            None
        } else {
            Some(e.0)
        }
}

/// The aliases that point at nothing.
pub open spec fn stale_aliases(idx: IndexView) -> Seq<Seq<char>> {
    idx.aliases.filter_map(each_stale(idx))
}

pub open spec fn each_family_note() -> spec_fn(FamilyView) -> Seq<char> {
    |f: FamilyView|
        "Record why "@ + decimal(f.members.len()) + " '"@ + f.token + "' concepts exist ("@ + join(
            f.members,
            ", "@,
        ) + ") — a family this size with no governing decision invites a "@ + decimal(
            f.members.len() + 1,
        ) + "th"@
}

pub open spec fn alias_note(pairs: nat) -> Seq<Seq<char>> {
    if pairs > 0 {
        seq![
            decimal(pairs)
                + " model↔table pair(s) look like ONE concept the merge law cannot fold — declare the mapping in archietect.toml [aliases]"@,
        ]
    } else {
        seq![]
    }
}

pub open spec fn each_stale_note() -> spec_fn(Seq<char>) -> Seq<char> {
    |k: Seq<char>|
        "Fix stale alias '"@ + k
            + "' in archietect.toml — it points at a concept that no longer exists"@
}

/// What somebody should do, each line drawn from a fact.
pub open spec fn suggestions(idx: IndexView) -> Seq<Seq<char>> {
    first_of(ungoverned(idx), 5).map_values(each_family_note()) + alias_note(
        duplicates_of(idx).likely_same_concept_needs_alias.len(),
    ) + stale_aliases(idx).map_values(each_stale_note())
}

#[derive(Debug)]
pub struct Glance {
    pub index: &'static str,
    pub concepts: usize,
    pub duplicate_storage_risks: usize,
    pub ontology_warnings: usize,
    pub declared_decisions: usize,
    pub onboarding: Option<&'static str>,
    pub suggestions: Vec<String>,
}

fn any_answers(idx: &Index, term: &str) -> (r: bool)
    ensures
        r == something_answers(idx.deep_view().concepts, term@),
{
    let ghost cv = idx.concepts.deep_view();
    let n: usize = idx.concepts.len();
    let mut i: usize = 0;
    while i < n
        invariant
            i <= n,
            n == cv.len(),
            cv == idx.concepts.deep_view(),
            forall|j: int| 0 <= j < i ==> !answers_to((#[trigger] cv[j]).0, term@),
        decreases n - i,
    {
        if names_concept(idx.concepts.key(i), term) {
            return true;
        }
        i += 1;
    }
    false
}

fn stale_of(idx: &Index) -> (r: Vec<String>)
    ensures
        r.deep_view() == stale_aliases(idx.deep_view()),
{
    let ghost all = idx.aliases.deep_view();
    let ghost f = each_stale(idx.deep_view());
    let n: usize = idx.aliases.len();
    let mut out: Vec<String> = Vec::new();
    let mut i: usize = 0;
    proof {
        assert(all.take(0) =~= seq![]);
        reveal(Seq::filter_map);
    }
    while i < n
        invariant
            i <= n,
            n == all.len(),
            all == idx.aliases.deep_view(),
            f == each_stale(idx.deep_view()),
            out.deep_view() =~= all.take(i as int).filter_map(f),
        decreases n - i,
    {
        let ghost so_far = out.deep_view();
        proof {
            all.lemma_filter_map_take_succ(f, i as int);
        }
        let target = idx.aliases.value(i).as_str();
        if !idx.concepts.has(target) && !any_answers(
            idx,
            trimmed_end_of(target, CharClass::Is('s')).as_str(),
        ) {
            let k = idx.aliases.key(i);
            out.push(owned(k));
            assert(out.deep_view() =~= so_far.push(k@));
        }
        i += 1;
    }
    assert(all.take(i as int) =~= all);
    out
}

fn family_notes(list: &Vec<Family>) -> (r: Vec<String>)
    ensures
        r.deep_view() == list.deep_view().map_values(each_family_note()),
{
    let ghost all = list.deep_view().map_values(each_family_note());
    let mut out: Vec<String> = Vec::new();
    let mut i: usize = 0;
    while i < list.len()
        invariant
            i <= list.len(),
            all == list.deep_view().map_values(each_family_note()),
            out.deep_view() =~= all.take(i as int),
        decreases list.len() - i,
    {
        let ghost so_far = out.deep_view();
        let f = &list[i];
        assert(list.deep_view()[i as int] == f.deep_view());
        assert(f.deep_view().members.len() == f.members@.len());
        let mut x = owned("Record why ");
        x.append(number(f.members.len() as u64).as_str());
        x.append(" '");
        x.append(f.token.as_str());
        x.append("' concepts exist (");
        x.append(joined(&f.members, ", ").as_str());
        x.append(") — a family this size with no governing decision invites a ");
        x.append(wide_number(f.members.len() as u128 + 1).as_str());
        x.append("th");
        assert(x@ == all[i as int]);
        out.push(x);
        assert(out.deep_view() =~= so_far.push(all[i as int]));
        i += 1;
    }
    assert(all.take(i as int) =~= all);
    out
}

fn add_stale_notes(out: &mut Vec<String>, stale: &Vec<String>)
    ensures
        final(out).deep_view() == old(out).deep_view() + stale.deep_view().map_values(
            each_stale_note(),
        ),
{
    let ghost start = out.deep_view();
    let ghost all = stale.deep_view().map_values(each_stale_note());
    let mut i: usize = 0;
    assert(start + all.take(0) =~= start);
    while i < stale.len()
        invariant
            i <= stale.len(),
            all == stale.deep_view().map_values(each_stale_note()),
            out.deep_view() =~= start + all.take(i as int),
        decreases stale.len() - i,
    {
        let ghost so_far = out.deep_view();
        assert(stale.deep_view()[i as int] == stale[i as int]@);
        let mut x = owned("Fix stale alias '");
        x.append(stale[i].as_str());
        x.append("' in archietect.toml — it points at a concept that no longer exists");
        assert(x@ == all[i as int]);
        out.push(x);
        assert(out.deep_view() =~= so_far.push(all[i as int]));
        i += 1;
    }
    assert(all.take(i as int) =~= all);
}

/// The state of the architecture at a glance: counts, what is stale and what to
/// do about it. `persisted` says whether the index is kept on disk.
pub fn glance(idx: &Index, persisted: bool) -> (r: Glance)
    ensures
        r.index@ == (if persisted {
            "current (incremental)"@
        } else {
            "not persisted (this scan ran in-memory)"@
        }),
        r.concepts == idx.deep_view().concepts.len(),
        r.duplicate_storage_risks == duplicates_of(
            idx.deep_view(),
        ).likely_same_concept_needs_alias.len(),
        r.ontology_warnings == stale_aliases(idx.deep_view()).len(),
        r.declared_decisions == idx.deep_view().decisions.len(),
        match r.onboarding {
            None => persisted,
            Some(t) => !persisted && t@
                == "Run `archietect init` to persist this index (instant lookups, no rescan), or `archietect watch` to keep it continuously warm and start recording architectural history."@,
        },
        r.suggestions.deep_view() == suggestions(idx.deep_view()),
{
    let dup = duplicates(idx);
    let pairs: usize = dup.likely_same_concept_needs_alias.len();
    assert(pairs == dup.deep_view().likely_same_concept_needs_alias.len());
    let stale = stale_of(idx);
    assert(stale.deep_view().len() == stale@.len());
    let mut out = family_notes(&shortened(ungoverned_of(idx), 5));
    let ghost notes = out.deep_view();
    if pairs > 0 {
        let mut x = number(pairs as u64);
        x.append(
            " model↔table pair(s) look like ONE concept the merge law cannot fold — declare the mapping in archietect.toml [aliases]",
        );
        let ghost xv = x@;
        out.push(x);
        assert(out.deep_view() =~= notes.push(xv));
    }
    assert(out.deep_view() =~= notes + alias_note(pairs as nat));
    add_stale_notes(&mut out, &stale);
    assert(idx.deep_view().decisions.len() == idx.decisions@.len());
    Glance {
        index: index_freshness(persisted),
        concepts: idx.concepts.len(),
        duplicate_storage_risks: pairs,
        ontology_warnings: stale.len(),
        declared_decisions: idx.decisions.len(),
        onboarding: if persisted {
            None
        } else {
            Some(
                "Run `archietect init` to persist this index (instant lookups, no rescan), or `archietect watch` to keep it continuously warm and start recording architectural history.",
            )
        },
        suggestions: out,
    }
}

// ---------------------------------------------------------------------------
// On a terminal
// ---------------------------------------------------------------------------

pub open spec fn each_change_line() -> spec_fn((Seq<char>, Seq<char>)) -> Seq<char> {
    |e: (Seq<char>, Seq<char>)| "  "@ + e.0 + " "@ + e.1 + "\n"@
}

pub open spec fn each_suggestion_line() -> spec_fn(Seq<char>) -> Seq<char> {
    |s: Seq<char>| "  • "@ + s + "\n"@
}

pub open spec fn recent_text(recent: Seq<(Seq<char>, Seq<char>)>) -> Seq<char> {
    "\nRecent architectural changes\n"@ + (if recent.len() == 0 {
        "  (none recorded — run the daemon and history accumulates)\n"@
    } else {
        join(recent.map_values(each_change_line()), ""@)
    })
}

pub open spec fn suggestion_text(list: Seq<Seq<char>>) -> Seq<char> {
    if list.len() == 0 {
        ""@
    } else {
        "\nSuggestions\n"@ + join(list.map_values(each_suggestion_line()), ""@)
    }
}

pub open spec fn counts_line(g: Glance) -> Seq<char> {
    "  "@ + decimal(g.concepts as nat) + " concepts · "@ + decimal(g.declared_decisions as nat)
        + " decisions · "@ + decimal(g.duplicate_storage_risks as nat)
        + " duplicate-storage risks · "@ + decimal(g.ontology_warnings as nat)
        + " ontology warnings\n"@
}

/// A glance as a terminal shows it.
pub open spec fn glance_text(
    g: Glance,
    repository: Seq<char>,
    recent: Seq<(Seq<char>, Seq<char>)>,
) -> Seq<char> {
    "Repository: "@ + repository + "\n"@ + counts_line(g) + "  index: "@ + g.index@ + "\n"@ + (
    match g.onboarding {
        Some(t) => "\n"@ + t@ + "\n"@,
        None => ""@,
    }) + recent_text(recent) + suggestion_text(g.suggestions.deep_view())
        + "\n(archietect --json for machine output; subcommands are always JSON)\n"@
}

fn change_lines(recent: &Vec<(String, String)>) -> (r: Vec<String>)
    ensures
        r.deep_view() == recent.deep_view().map_values(each_change_line()),
{
    let ghost all = recent.deep_view().map_values(each_change_line());
    let mut out: Vec<String> = Vec::new();
    let mut i: usize = 0;
    assert(out.deep_view() =~= all.take(0));
    while i < recent.len()
        invariant
            i <= recent.len(),
            all == recent.deep_view().map_values(each_change_line()),
            out.deep_view() =~= all.take(i as int),
        decreases recent.len() - i,
    {
        let ghost so_far = out.deep_view();
        assert(recent.deep_view()[i as int] == recent[i as int].deep_view());
        let mut line = owned("  ");
        line.append(recent[i].0.as_str());
        line.append(" ");
        line.append(recent[i].1.as_str());
        line.append("\n");
        assert(line@ == all[i as int]);
        out.push(line);
        assert(out.deep_view() =~= so_far.push(all[i as int]));
        i += 1;
    }
    assert(all.take(i as int) =~= all);
    out
}

fn suggestion_lines(list: &Vec<String>) -> (r: Vec<String>)
    ensures
        r.deep_view() == list.deep_view().map_values(each_suggestion_line()),
{
    let ghost all = list.deep_view().map_values(each_suggestion_line());
    let mut out: Vec<String> = Vec::new();
    let mut i: usize = 0;
    assert(out.deep_view() =~= all.take(0));
    while i < list.len()
        invariant
            i <= list.len(),
            all == list.deep_view().map_values(each_suggestion_line()),
            out.deep_view() =~= all.take(i as int),
        decreases list.len() - i,
    {
        let ghost so_far = out.deep_view();
        assert(list.deep_view()[i as int] == list[i as int]@);
        let mut line = owned("  • ");
        line.append(list[i].as_str());
        line.append("\n");
        assert(line@ == all[i as int]);
        out.push(line);
        assert(out.deep_view() =~= so_far.push(all[i as int]));
        i += 1;
    }
    assert(all.take(i as int) =~= all);
    out
}

/// A glance as a terminal shows it, with the latest changes of the history.
pub fn glance_shown(g: &Glance, repository: &str, recent: &Vec<(String, String)>) -> (r: String)
    ensures
        r@ == glance_text(*g, repository@, recent.deep_view()),
{
    let mut out = owned("Repository: ");
    out.append(repository);
    out.append("\n");
    let mut counts = owned("  ");
    counts.append(number(g.concepts as u64).as_str());
    counts.append(" concepts · ");
    counts.append(number(g.declared_decisions as u64).as_str());
    counts.append(" decisions · ");
    counts.append(number(g.duplicate_storage_risks as u64).as_str());
    counts.append(" duplicate-storage risks · ");
    counts.append(number(g.ontology_warnings as u64).as_str());
    counts.append(" ontology warnings\n");
    assert(counts@ == counts_line(*g));
    out.append(counts.as_str());
    out.append("  index: ");
    out.append(g.index);
    out.append("\n");
    let mut onboarding = owned("");
    if let Some(t) = g.onboarding {
        onboarding = owned("\n");
        onboarding.append(t);
        onboarding.append("\n");
    }
    out.append(onboarding.as_str());
    let mut changes = owned("\nRecent architectural changes\n");
    assert(recent.deep_view().len() == recent@.len());
    if recent.len() == 0 {
        changes.append("  (none recorded — run the daemon and history accumulates)\n");
    } else {
        changes.append(joined(&change_lines(recent), "").as_str());
    }
    assert(changes@ == recent_text(recent.deep_view()));
    out.append(changes.as_str());
    let mut advice = owned("");
    assert(g.suggestions.deep_view().len() == g.suggestions@.len());
    if g.suggestions.len() > 0 {
        advice = owned("\nSuggestions\n");
        advice.append(joined(&suggestion_lines(&g.suggestions), "").as_str());
    }
    assert(advice@ == suggestion_text(g.suggestions.deep_view()));
    out.append(advice.as_str());
    out.append("\n(archietect --json for machine output; subcommands are always JSON)\n");
    out
}

// ---------------------------------------------------------------------------
// Plans
// ---------------------------------------------------------------------------

/// A decision that governs a concept.
#[derive(Debug)]
pub struct Governing {
    pub id: String,
    pub decision: String,
    pub rejected: Vec<String>,
}

pub struct GoverningView {
    pub id: Seq<char>,
    pub decision: Seq<char>,
    pub rejected: Seq<Seq<char>>,
}

impl DeepView for Governing {
    type V = GoverningView;

    open spec fn deep_view(&self) -> GoverningView {
        GoverningView {
            id: self.id@,
            decision: self.decision@,
            rejected: self.rejected.deep_view(),
        }
    }
}

/// One concept to extend, with all that bears on it.
#[derive(Debug)]
pub struct Step {
    pub concept: String,
    pub canonical: String,
    pub canonical_location: Option<String>,
    pub related: Vec<String>,
    pub existing_decisions: Vec<Governing>,
    pub impact_if_changed: Severity,
    pub affected_files: Vec<String>,
}

pub struct StepView {
    pub concept: Seq<char>,
    pub canonical: Seq<char>,
    pub canonical_location: Option<Seq<char>>,
    pub related: Seq<Seq<char>>,
    pub existing_decisions: Seq<GoverningView>,
    pub impact_if_changed: Severity,
    pub affected_files: Seq<Seq<char>>,
}

impl DeepView for Step {
    type V = StepView;

    open spec fn deep_view(&self) -> StepView {
        StepView {
            concept: self.concept@,
            canonical: self.canonical@,
            canonical_location: self.canonical_location.deep_view(),
            related: self.related.deep_view(),
            existing_decisions: self.existing_decisions.deep_view(),
            impact_if_changed: self.impact_if_changed,
            affected_files: self.affected_files.deep_view(),
        }
    }
}

#[derive(Debug)]
pub struct Plan {
    pub intent: String,
    pub extend: Vec<Step>,
    pub genuinely_new: Vec<String>,
    pub needs_confirmation: Vec<String>,
    pub recommendation: String,
    pub conflicts: &'static str,
}

pub struct PlanView {
    pub intent: Seq<char>,
    pub extend: Seq<StepView>,
    pub genuinely_new: Seq<Seq<char>>,
    pub needs_confirmation: Seq<Seq<char>>,
    pub recommendation: Seq<char>,
    pub conflicts: Seq<char>,
}

impl DeepView for Plan {
    type V = PlanView;

    open spec fn deep_view(&self) -> PlanView {
        PlanView {
            intent: self.intent@,
            extend: self.extend.deep_view(),
            genuinely_new: self.genuinely_new.deep_view(),
            needs_confirmation: self.needs_confirmation.deep_view(),
            recommendation: self.recommendation@,
            conflicts: self.conflicts@,
        }
    }
}

pub open spec fn links_name(d: DecisionView, name: Seq<char>) -> bool {
    exists|i: int|
        0 <= i < d.links.len() && (ascii_lower(#[trigger] d.links[i]) == ascii_lower(name)
            || answers_to(name, d.links[i]))
}

pub open spec fn each_governing(name: Seq<char>) -> spec_fn(DecisionView) -> Option<GoverningView> {
    |d: DecisionView|
        if links_name(d, name) {
            Some(GoverningView { id: d.id, decision: d.decision, rejected: d.rejected })
        } else {
            None
        }
}

pub open spec fn each_step(
    idx: IndexView,
    graph: GraphView,
    reach: Seq<(Seq<char>, Seq<DependentView>)>,
) -> spec_fn(ExtensionView) -> Option<StepView> {
    |e: ExtensionView|
        match e.canonical {
            None => None,
            Some(name) => match lookup(idx.concepts, name) {
                None => None,
                Some(c) => Some(
                    StepView {
                        concept: e.concept,
                        canonical: name,
                        canonical_location: ownership(idx, graph, name).owner_directory,
                        related: c.relations,
                        existing_decisions: idx.decisions.filter_map(each_governing(name)),
                        impact_if_changed: reach_of(idx, name, reach).severity,
                        affected_files: reach_of(idx, name, reach).used_by_files,
                    },
                ),
            },
        }
}

pub open spec fn plan_of(
    idx: IndexView,
    graph: GraphView,
    around: SurroundingsView,
    text: Seq<char>,
    reach: Seq<(Seq<char>, Seq<DependentView>)>,
) -> PlanView {
    let it = intent_of(idx, around, text);
    let steps = first_of(it.extend, 3).filter_map(each_step(idx, graph, reach));
    PlanView {
        intent: text,
        extend: steps,
        genuinely_new: it.create,
        needs_confirmation: it.needs_confirmation,
        recommendation: it.smallest_correct_change,
        conflicts: if steps.len() == 0 && it.create.len() == 0 {
            "nothing recognised — vocabulary may differ from the project's"@
        } else {
            "none detected at plan time — run `archietect guard` on the actual patch before applying"@
        },
    }
}

fn names_link(d: &Decision, name: &str) -> (r: bool)
    ensures
        r == links_name(d.deep_view(), name@),
{
    let mut i: usize = 0;
    while i < d.links.len()
        invariant
            i <= d.links.len(),
            forall|j: int|
                0 <= j < i ==> !(ascii_lower(#[trigger] d.deep_view().links[j]) == ascii_lower(
                    name@,
                ) || answers_to(name@, d.deep_view().links[j])),
        decreases d.links.len() - i,
    {
        let l = d.links[i].as_str();
        assert(d.deep_view().links[i as int] == l@);
        if same_ignoring_case(l, name) || names_concept(name, l) {
            return true;
        }
        i += 1;
    }
    false
}

fn governing(idx: &Index, name: &str) -> (r: Vec<Governing>)
    ensures
        r.deep_view() == idx.deep_view().decisions.filter_map(each_governing(name@)),
{
    let ghost all = idx.decisions.deep_view();
    let ghost f = each_governing(name@);
    let mut out: Vec<Governing> = Vec::new();
    let mut i: usize = 0;
    proof {
        assert(all.take(0) =~= seq![]);
        reveal(Seq::filter_map);
    }
    while i < idx.decisions.len()
        invariant
            i <= idx.decisions.len(),
            all == idx.decisions.deep_view(),
            f == each_governing(name@),
            out.deep_view() =~= all.take(i as int).filter_map(f),
        decreases idx.decisions.len() - i,
    {
        let ghost so_far = out.deep_view();
        proof {
            all.lemma_filter_map_take_succ(f, i as int);
        }
        let d = &idx.decisions[i];
        assert(all[i as int] == d.deep_view());
        if names_link(d, name) {
            let x = Governing {
                id: owned(d.id.as_str()),
                decision: owned(d.decision.as_str()),
                rejected: copied(&d.rejected),
            };
            let ghost xv = x.deep_view();
            out.push(x);
            assert(out.deep_view() =~= so_far.push(xv));
        }
        i += 1;
    }
    assert(all.take(i as int) =~= all);
    out
}

fn step(idx: &Index, graph: &StructuralGraph, reach: &TextMap<Vec<Dependent>>, e: &Extension) -> (r:
    Option<Step>)
    ensures
        r.deep_view() == each_step(idx.deep_view(), graph.deep_view(), reach.deep_view())(
            e.deep_view(),
        ),
{
    let name = match &e.canonical {
        Some(n) => n.as_str(),
        None => {
            return None;
        },
    };
    match idx.concepts.get(name) {
        None => None,
        Some(c) => {
            let touched = reach_from(idx, name, reach);
            Some(
                Step {
                    concept: owned(e.concept.as_str()),
                    canonical: owned(name),
                    canonical_location: ownership_of(idx, graph, name).owner_directory,
                    related: copied(&c.relations),
                    existing_decisions: governing(idx, name),
                    impact_if_changed: touched.severity,
                    affected_files: touched.used_by_files,
                },
            )
        },
    }
}

/// The plan for an intent: for the first three concepts to extend, who owns
/// them, what governs them and what a change to them touches.
pub fn plan(
    idx: &Index,
    graph: &StructuralGraph,
    around: &Surroundings,
    text: &str,
    reach: &TextMap<Vec<Dependent>>,
) -> (r: Plan)
    ensures
        r.deep_view() == plan_of(
            idx.deep_view(),
            graph.deep_view(),
            around.deep_view(),
            text@,
            reach.deep_view(),
        ),
{
    let it = intent(idx, around, text);
    let some = shortened(it.extend, 3);
    let ghost all = some.deep_view();
    let ghost f = each_step(idx.deep_view(), graph.deep_view(), reach.deep_view());
    let mut out: Vec<Step> = Vec::new();
    let mut i: usize = 0;
    proof {
        assert(all.take(0) =~= seq![]);
        reveal(Seq::filter_map);
    }
    while i < some.len()
        invariant
            i <= some.len(),
            all == some.deep_view(),
            f == each_step(idx.deep_view(), graph.deep_view(), reach.deep_view()),
            out.deep_view() =~= all.take(i as int).filter_map(f),
        decreases some.len() - i,
    {
        let ghost so_far = out.deep_view();
        proof {
            all.lemma_filter_map_take_succ(f, i as int);
        }
        assert(all[i as int] == some[i as int].deep_view());
        if let Some(x) = step(idx, graph, reach, &some[i]) {
            let ghost xv = x.deep_view();
            out.push(x);
            assert(out.deep_view() =~= so_far.push(xv));
        }
        i += 1;
    }
    assert(all.take(i as int) =~= all);
    assert(out.deep_view().len() == out@.len());
    assert(it.create.deep_view().len() == it.create@.len());
    let conflicts = if out.len() == 0 && it.create.len() == 0 {
        "nothing recognised — vocabulary may differ from the project's"
    } else {
        "none detected at plan time — run `archietect guard` on the actual patch before applying"
    };
    Plan {
        intent: owned(text),
        extend: out,
        genuinely_new: it.create,
        needs_confirmation: it.needs_confirmation,
        recommendation: it.smallest_correct_change,
        conflicts,
    }
}

} // verus!
