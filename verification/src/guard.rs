//! The guard against second implementations: no new table for a concept that
//! already has a canonical one.
use vstd::prelude::*;
use vstd::utf8::encode_utf8;
use crate::advice::is_declared_verdict;
use crate::model::{
    answers_to, is_generic_role_token, is_role_word, is_same_word, name_tokens, names_concept,
    same_word, tokens, ConceptView, Decision, DecisionView, Index, IndexView,
};
use crate::outside::{found, found_in, group, group_of, group_texts, group_texts_of, Span, SpanView};
use crate::paths::lemma_split_nonempty;
use crate::query::{answered, concept, Answer, AnswerView, Surroundings, SurroundingsView, Verdict};
use crate::structural::{empty_graph, StructuralGraph};
use crate::table::{has_key, lookup};
use crate::text::{
    ascii_lower, decimal, join, lines, lowered, split, starts_with, trim_end_of, CharClass,
};
use crate::text::{
    after_prefix, begins, copied_option, joined, lines_of, number, owned, same_ignoring_case,
    split_at_char, trimmed_end_of,
};

verus! {

/// The table that a statement creates.
pub const CREATE_TABLE: &'static str =
    r#"(?i)create\s+table\s+(?:if\s+not\s+exists\s+)?["'`]?(\w+)"#;

/// What was found of one proposed table.
#[derive(Debug)]
pub struct Finding {
    pub proposed_table: String,
    pub concept_checked: String,
    pub verdict: Verdict,
    pub canonical: Option<String>,
}

pub struct FindingView {
    pub proposed_table: Seq<char>,
    pub concept_checked: Seq<char>,
    pub verdict: Verdict,
    pub canonical: Option<Seq<char>>,
}

impl DeepView for Finding {
    type V = FindingView;

    open spec fn deep_view(&self) -> FindingView {
        FindingView {
            proposed_table: self.proposed_table@,
            concept_checked: self.concept_checked@,
            verdict: self.verdict,
            canonical: self.canonical.deep_view(),
        }
    }
}

/// Whether a text may pass, and why.
#[derive(Debug)]
pub struct Ruling {
    pub allowed: bool,
    pub reason: String,
    pub findings: Vec<Finding>,
}

pub struct RulingView {
    pub allowed: bool,
    pub reason: Seq<char>,
    pub findings: Seq<FindingView>,
}

impl DeepView for Ruling {
    type V = RulingView;

    open spec fn deep_view(&self) -> RulingView {
        RulingView {
            allowed: self.allowed,
            reason: self.reason@,
            findings: self.findings.deep_view(),
        }
    }
}

/// The concept that a table's name speaks of: its last word, in the singular.
pub open spec fn head_of(table: Seq<char>) -> Seq<char> {
    split(trim_end_of(table, CharClass::Is('s')), '_').last()
}

pub open spec fn head_answer(idx: IndexView, around: SurroundingsView, table: Seq<char>) -> AnswerView {
    answered(idx, empty_graph(), around, head_of(table), idx.aliases.len())
}

pub open spec fn name_in(a: AnswerView) -> Seq<char> {
    match a.canonical {
        Some(c) => c,
        None => seq![],
    }
}

/// The table that a concept is stored in, as far as it states one.
pub open spec fn own_table(idx: IndexView, name: Seq<char>) -> Seq<char> {
    match lookup(idx.concepts, name) {
        Some(c) => match c.table {
            Some(t) => t,
            None => name,
        },
        None => name,
    }
}

/// A table is refused where its concept is declared and it is neither that
/// concept's table nor its name, written out in full.
pub open spec fn is_refused(idx: IndexView, a: AnswerView, table: Seq<char>) -> bool {
    &&& is_declared_verdict(a.verdict)
    &&& name_in(a).len() > 0
    &&& ascii_lower(table) != ascii_lower(own_table(idx, name_in(a)))
    &&& ascii_lower(table) != ascii_lower(name_in(a))
}

pub open spec fn link_governs(link: Seq<char>, table: Seq<char>, name: Seq<char>) -> bool {
    is_same_word(link, head_of(table)) || ascii_lower(link) == ascii_lower(table) || ascii_lower(
        link,
    ) == ascii_lower(name)
}

pub open spec fn governs(d: DecisionView, table: Seq<char>, name: Seq<char>) -> bool {
    exists|i: int| 0 <= i < d.links.len() && link_governs(#[trigger] d.links[i], table, name)
}

/// The first decision from `i` on that governs a table or its concept.
pub open spec fn decision_from(
    decisions: Seq<DecisionView>,
    table: Seq<char>,
    name: Seq<char>,
    i: int,
) -> Option<DecisionView>
    decreases decisions.len() - i,
{
    if i < 0 || i >= decisions.len() {
        None
    } else if governs(decisions[i], table, name) {
        Some(decisions[i])
    } else {
        decision_from(decisions, table, name, i + 1)
    }
}

pub open spec fn citation(idx: IndexView, table: Seq<char>, name: Seq<char>) -> Seq<char> {
    match decision_from(idx.decisions, table, name, 0) {
        None => seq![],
        Some(d) => " DECLARED DECISION ('"@ + d.id + "'): "@ + d.because
            + " Alternatives already considered and rejected: "@ + join(d.rejected, "; "@) + "."@,
    }
}

pub open spec fn refusal(idx: IndexView, a: AnswerView, table: Seq<char>) -> Seq<char> {
    "CREATE TABLE "@ + table + " rejected — '"@ + head_of(table) + "' is already "@
        + a.verdict.label_text() + ", canonically implemented as '"@ + name_in(a) + "'. Extend "@
        + name_in(a) + " instead."@ + citation(idx, table, name_in(a))
}

pub open spec fn each_refusal(idx: IndexView, around: SurroundingsView) -> spec_fn(
    Seq<char>,
) -> Option<Seq<char>> {
    |t: Seq<char>|
        {
            let a = head_answer(idx, around, t);
            if is_refused(idx, a, t) {
                Some(refusal(idx, a, t))
            } else {
                None
            }
        }
}

pub open spec fn each_finding(idx: IndexView, around: SurroundingsView) -> spec_fn(
    Seq<char>,
) -> FindingView {
    |t: Seq<char>|
        {
            let a = head_answer(idx, around, t);
            FindingView {
                proposed_table: t,
                concept_checked: head_of(t),
                verdict: a.verdict,
                canonical: a.canonical,
            }
        }
}

/// The ruling on a list of proposed tables.
pub open spec fn ruling(idx: IndexView, around: SurroundingsView, tables: Seq<Seq<char>>) -> RulingView {
    let blocked = tables.filter_map(each_refusal(idx, around));
    if tables.len() == 0 {
        RulingView { allowed: true, reason: "no CREATE TABLE in this text"@, findings: seq![] }
    } else {
        RulingView {
            allowed: blocked.len() == 0,
            reason: if blocked.len() == 0 {
                decimal(tables.len()) + " proposed table(s) check out as new"@
            } else {
                join(blocked, " | "@)
            },
            findings: tables.map_values(each_finding(idx, around)),
        }
    }
}

/// The tables that a text creates.
pub open spec fn proposed_tables(sql: Seq<char>) -> Seq<Seq<char>> {
    group_texts(found(CREATE_TABLE@, sql), 1)
}

fn head(table: &str) -> (r: String)
    ensures
        r@ == head_of(table@),
{
    let bare = trimmed_end_of(table, CharClass::Is('s'));
    let parts = split_at_char(bare.as_str(), '_');
    proof {
        lemma_split_nonempty(bare@, '_');
    }
    assert(parts.deep_view().last() == parts[parts@.len() - 1]@);
    owned(parts[parts.len() - 1].as_str())
}

fn own_table_of(idx: &Index, name: &str) -> (r: String)
    ensures
        r@ == own_table(idx.deep_view(), name@),
{
    match idx.concepts.get(name) {
        Some(c) => match &c.table {
            Some(t) => owned(t.as_str()),
            None => owned(name),
        },
        None => owned(name),
    }
}

fn decides(d: &Decision, table: &str, name: &str) -> (r: bool)
    ensures
        r == governs(d.deep_view(), table@, name@),
{
    let word = head(table);
    let mut i: usize = 0;
    while i < d.links.len()
        invariant
            i <= d.links.len(),
            word@ == head_of(table@),
            forall|j: int|
                0 <= j < i ==> !link_governs(#[trigger] d.deep_view().links[j], table@, name@),
        decreases d.links.len() - i,
    {
        let l = d.links[i].as_str();
        assert(d.deep_view().links[i as int] == l@);
        if same_word(l, word.as_str()) || same_ignoring_case(l, table) || same_ignoring_case(
            l,
            name,
        ) {
            return true;
        }
        i += 1;
    }
    false
}

fn citation_for(idx: &Index, table: &str, name: &str) -> (r: String)
    ensures
        r@ == citation(idx.deep_view(), table@, name@),
{
    let ghost dv = idx.decisions.deep_view();
    let mut i: usize = 0;
    while i < idx.decisions.len()
        invariant
            i <= idx.decisions.len(),
            dv == idx.decisions.deep_view(),
            decision_from(dv, table@, name@, 0) == decision_from(dv, table@, name@, i as int),
        decreases idx.decisions.len() - i,
    {
        let d = &idx.decisions[i];
        assert(dv[i as int] == d.deep_view());
        if decides(d, table, name) {
            let mut out = owned(" DECLARED DECISION ('");
            out.append(d.id.as_str());
            out.append("'): ");
            out.append(d.because.as_str());
            out.append(" Alternatives already considered and rejected: ");
            out.append(joined(&d.rejected, "; ").as_str());
            out.append(".");
            return out;
        }
        i += 1;
    }
    let none = String::new();
    assert(none@ =~= seq![]);
    none
}

fn name_of(a: &Answer) -> (r: String)
    ensures
        r@ == name_in(a.deep_view()),
{
    match &a.canonical {
        Some(c) => owned(c.as_str()),
        None => {
            let none = String::new();
            assert(none@ =~= seq![]);
            none
        },
    }
}

fn refuse(idx: &Index, a: &Answer, table: &str) -> (r: Option<String>)
    ensures
        r.deep_view() == (if is_refused(idx.deep_view(), a.deep_view(), table@) {
            Some(refusal(idx.deep_view(), a.deep_view(), table@))
        } else {
            None
        }),
{
    let declared = match a.verdict {
        Verdict::Active | Verdict::DeclaredOnly => true,
        _ => false,
    };
    let name = name_of(a);
    if !declared || name.as_str().is_empty() || same_ignoring_case(
        table,
        own_table_of(idx, name.as_str()).as_str(),
    ) || same_ignoring_case(table, name.as_str()) {
        return None;
    }
    let mut out = owned("CREATE TABLE ");
    out.append(table);
    out.append(" rejected — '");
    out.append(head(table).as_str());
    out.append("' is already ");
    out.append(a.verdict.label());
    out.append(", canonically implemented as '");
    out.append(name.as_str());
    out.append("'. Extend ");
    out.append(name.as_str());
    out.append(" instead.");
    out.append(citation_for(idx, table, name.as_str()).as_str());
    Some(out)
}

/// The ruling on a list of proposed tables.
pub fn rule(idx: &Index, around: &Surroundings, tables: &Vec<String>) -> (r: Ruling)
    ensures
        r.deep_view() == ruling(idx.deep_view(), around.deep_view(), tables.deep_view()),
{
    let ghost all = tables.deep_view();
    let ghost iv = idx.deep_view();
    let ghost av = around.deep_view();
    let ghost f = each_refusal(iv, av);
    let ghost g = each_finding(iv, av);
    let graph: StructuralGraph = Default::default();
    let mut blocked: Vec<String> = Vec::new();
    let mut findings: Vec<Finding> = Vec::new();
    assert(all.len() == tables@.len());
    if tables.len() == 0 {
        assert(findings.deep_view() =~= seq![]);
        return Ruling { allowed: true, reason: owned("no CREATE TABLE in this text"), findings };
    }
    let mut i: usize = 0;
    proof {
        assert(all.take(0) =~= seq![]);
        reveal(Seq::filter_map);
    }
    while i < tables.len()
        invariant
            i <= tables.len(),
            all == tables.deep_view(),
            iv == idx.deep_view(),
            av == around.deep_view(),
            f == each_refusal(iv, av),
            g == each_finding(iv, av),
            graph.deep_view() == empty_graph(),
            blocked.deep_view() =~= all.take(i as int).filter_map(f),
            findings.deep_view() =~= all.map_values(g).take(i as int),
        decreases tables.len() - i,
    {
        let ghost b = blocked.deep_view();
        let ghost n = findings.deep_view();
        proof {
            all.lemma_filter_map_take_succ(f, i as int);
        }
        let t = tables[i].as_str();
        assert(all[i as int] == t@);
        let word = head(t);
        let a = concept(idx, &graph, around, word.as_str());
        if let Some(x) = refuse(idx, &a, t) {
            let ghost xv = x@;
            blocked.push(x);
            assert(blocked.deep_view() =~= b.push(xv));
        }
        let finding = Finding {
            proposed_table: owned(t),
            concept_checked: word,
            verdict: a.verdict,
            canonical: copied_option(&a.canonical),
        };
        assert(finding.deep_view() == all.map_values(g)[i as int]);
        findings.push(finding);
        assert(findings.deep_view() =~= n.push(all.map_values(g)[i as int]));
        i += 1;
    }
    assert(all.take(i as int) =~= all);
    assert(all.map_values(g).take(i as int) =~= all.map_values(g));
    assert(blocked.deep_view().len() == blocked@.len());
    let allowed = blocked.len() == 0;
    let reason = if allowed {
        let mut out = number(tables.len() as u64);
        out.append(" proposed table(s) check out as new");
        out
    } else {
        joined(&blocked, " | ")
    };
    Ruling { allowed, reason, findings }
}

/// The ruling on a text: refused where it creates a table for a concept that
/// the project already has.
pub fn guard(idx: &Index, around: &Surroundings, sql: &str) -> (r: Ruling)
    ensures
        r.deep_view() == ruling(idx.deep_view(), around.deep_view(), proposed_tables(sql@)),
{
    rule(idx, around, &group_texts_of(&found_in(CREATE_TABLE, sql), 1))
}

// ---------------------------------------------------------------------------
// Patches
// ---------------------------------------------------------------------------

/// A declaration of a model or class.
pub const NEW_DECLARATION: &'static str =
    r"(?m)^\s*(?:model\s+(\w+)\s*\{|export\s+class\s+(\w+)|class\s+(\w+)\s*\([^)]*Model[^)]*\))";

/// A new declaration whose name meets that of a concept.
#[derive(Debug)]
pub struct Warning {
    pub new_declaration: String,
    pub collides_with: String,
    pub via_token: String,
    pub advice: String,
}

pub struct WarningView {
    pub new_declaration: Seq<char>,
    pub collides_with: Seq<char>,
    pub via_token: Seq<char>,
    pub advice: Seq<char>,
}

impl DeepView for Warning {
    type V = WarningView;

    open spec fn deep_view(&self) -> WarningView {
        WarningView {
            new_declaration: self.new_declaration@,
            collides_with: self.collides_with@,
            via_token: self.via_token@,
            advice: self.advice@,
        }
    }
}

/// Whether a patch may pass.
#[derive(Debug)]
pub struct Gate {
    pub pass: bool,
    /// The ruling on the tables that the patch creates, where it refuses them.
    pub violation: Option<Ruling>,
    pub warnings: Vec<Warning>,
    pub strict: bool,
}

pub struct GateView {
    pub pass: bool,
    pub violation: Option<RulingView>,
    pub warnings: Seq<WarningView>,
    pub strict: bool,
}

impl DeepView for Gate {
    type V = GateView;

    open spec fn deep_view(&self) -> GateView {
        GateView {
            pass: self.pass,
            violation: self.violation.deep_view(),
            warnings: self.warnings.deep_view(),
            strict: self.strict,
        }
    }
}

pub open spec fn each_added() -> spec_fn(Seq<char>) -> Option<Seq<char>> {
    |l: Seq<char>|
        if starts_with(l, "+"@) && !starts_with(l, "+++"@) {
            Some(l.skip(1))
        } else {
            None
        }
}

/// The text that a patch adds.
pub open spec fn added_text(diff: Seq<char>) -> Seq<char> {
    join(lines(diff).filter_map(each_added()), "\n"@)
}

/// The name in a match of a declaration.
pub open spec fn declared_name(m: Seq<Option<SpanView>>) -> Seq<char> {
    match group(m, 1) {
        Some(n) => n,
        None => match group(m, 2) {
            Some(n) => n,
            None => match group(m, 3) {
                Some(n) => n,
                None => seq![],
            },
        },
    }
}

pub open spec fn each_declared_name() -> spec_fn(Seq<Option<SpanView>>) -> Seq<char> {
    |m: Seq<Option<SpanView>>| declared_name(m)
}

/// The names that a text declares.
pub open spec fn declared_names(text: Seq<char>) -> Seq<Seq<char>> {
    found(NEW_DECLARATION@, text).map_values(each_declared_name())
}

/// The first concept from `i` on that answers to a token.
pub open spec fn concept_from(concepts: Seq<(Seq<char>, ConceptView)>, tok: Seq<char>, i: int) -> Option<
    Seq<char>,
>
    decreases concepts.len() - i,
{
    if i < 0 || i >= concepts.len() {
        None
    } else if answers_to(concepts[i].0, tok) {
        Some(concepts[i].0)
    } else {
        concept_from(concepts, tok, i + 1)
    }
}

pub open spec fn says_something(tok: Seq<char>) -> bool {
    tok.len() >= 4 && !is_role_word(lowered(tok))
}

/// The first of some tokens that meets a concept, with that concept.
pub open spec fn collision(
    concepts: Seq<(Seq<char>, ConceptView)>,
    toks: Seq<Seq<char>>,
) -> Option<(Seq<char>, Seq<char>)>
    decreases toks.len(),
{
    if toks.len() == 0 {
        None
    } else if says_something(toks[0]) && concept_from(concepts, toks[0], 0) is Some {
        Some((toks[0], concept_from(concepts, toks[0], 0)->Some_0))
    } else {
        collision(concepts, toks.skip(1))
    }
}

pub open spec fn each_warning(idx: IndexView) -> spec_fn(Seq<char>) -> Option<WarningView> {
    |name: Seq<char>|
        if encode_utf8(name).len() < 4 || has_key(idx.concepts, name) {
            None
        } else {
            match collision(idx.concepts, tokens(name)) {
                None => None,
                Some(c) => Some(
                    WarningView {
                        new_declaration: name,
                        collides_with: c.1,
                        via_token: c.0,
                        advice: "'"@ + c.1
                            + "' may already cover this — run `archietect concept "@ + c.0
                            + "` before merging"@,
                    },
                ),
            }
        }
}

/// A gate on a patch that proposes tables and declares names.
pub open spec fn gate(
    idx: IndexView,
    around: SurroundingsView,
    tables: Seq<Seq<char>>,
    names: Seq<Seq<char>>,
    strict: bool,
) -> GateView {
    let r = ruling(idx, around, tables);
    let warnings = names.filter_map(each_warning(idx));
    GateView {
        pass: r.allowed && !(strict && warnings.len() > 0),
        violation: if r.allowed {
            None
        } else {
            Some(r)
        },
        warnings,
        strict,
    }
}

fn added(diff: &str) -> (r: String)
    ensures
        r@ == added_text(diff@),
{
    let ls = lines_of(diff);
    let ghost all = ls.deep_view();
    let ghost f = each_added();
    let mut out: Vec<String> = Vec::new();
    let mut i: usize = 0;
    proof {
        assert(all.take(0) =~= seq![]);
        reveal(Seq::filter_map);
        reveal_strlit("+");
    }
    while i < ls.len()
        invariant
            i <= ls.len(),
            all == ls.deep_view(),
            f == each_added(),
            "+"@.len() == 1,
            out.deep_view() =~= all.take(i as int).filter_map(f),
        decreases ls.len() - i,
    {
        let ghost so_far = out.deep_view();
        proof {
            all.lemma_filter_map_take_succ(f, i as int);
        }
        let l = ls[i].as_str();
        assert(all[i as int] == l@);
        if !begins(l, "+++") {
            if let Some(rest) = after_prefix(l, "+") {
                let ghost rv = rest@;
                out.push(rest);
                assert(out.deep_view() =~= so_far.push(rv));
            }
        }
        i += 1;
    }
    assert(all.take(i as int) =~= all);
    joined(&out, "\n")
}

fn name_declared(m: &Vec<Option<Span>>) -> (r: String)
    ensures
        r@ == declared_name(m.deep_view()),
{
    if let Some(n) = group_of(m, 1) {
        return n;
    }
    if let Some(n) = group_of(m, 2) {
        return n;
    }
    if let Some(n) = group_of(m, 3) {
        return n;
    }
    let none = String::new();
    assert(none@ =~= seq![]);
    none
}

fn names_declared(text: &str) -> (r: Vec<String>)
    ensures
        r.deep_view() == declared_names(text@),
{
    let ms = found_in(NEW_DECLARATION, text);
    let ghost all = ms.deep_view().map_values(each_declared_name());
    let mut out: Vec<String> = Vec::new();
    let mut i: usize = 0;
    while i < ms.len()
        invariant
            i <= ms.len(),
            all == ms.deep_view().map_values(each_declared_name()),
            out.deep_view() =~= all.take(i as int),
        decreases ms.len() - i,
    {
        let ghost so_far = out.deep_view();
        assert(ms.deep_view()[i as int] == ms[i as int].deep_view());
        out.push(name_declared(&ms[i]));
        assert(out.deep_view() =~= so_far.push(all[i as int]));
        i += 1;
    }
    assert(all.take(i as int) =~= all);
    out
}

fn first_concept(idx: &Index, tok: &str) -> (r: Option<String>)
    ensures
        r.deep_view() == concept_from(idx.deep_view().concepts, tok@, 0),
{
    let ghost cv = idx.concepts.deep_view();
    let n: usize = idx.concepts.len();
    let mut i: usize = 0;
    while i < n
        invariant
            i <= n,
            n == cv.len(),
            cv == idx.concepts.deep_view(),
            concept_from(cv, tok@, 0) == concept_from(cv, tok@, i as int),
        decreases n - i,
    {
        if names_concept(idx.concepts.key(i), tok) {
            return Some(owned(idx.concepts.key(i)));
        }
        i += 1;
    }
    None
}

fn first_collision(idx: &Index, toks: &Vec<String>) -> (r: Option<(String, String)>)
    ensures
        r.deep_view() == collision(idx.deep_view().concepts, toks.deep_view()),
{
    let ghost cv = idx.concepts.deep_view();
    let ghost tv = toks.deep_view();
    let mut i: usize = 0;
    assert(tv.skip(0) =~= tv);
    while i < toks.len()
        invariant
            i <= toks.len(),
            cv == idx.deep_view().concepts,
            tv == toks.deep_view(),
            collision(cv, tv) == collision(cv, tv.skip(i as int)),
        decreases toks.len() - i,
    {
        let ghost rest = tv.skip(i as int);
        let t = toks[i].as_str();
        assert(rest[0] == t@);
        assert(rest.skip(1) =~= tv.skip(i + 1));
        if t.unicode_len() >= 4 && !is_generic_role_token(t) {
            if let Some(c) = first_concept(idx, t) {
                return Some((owned(t), c));
            }
        }
        i += 1;
    }
    None
}

fn warn(idx: &Index, name: &str) -> (r: Option<Warning>)
    ensures
        r.deep_view() == each_warning(idx.deep_view())(name@),
{
    if name.as_bytes().len() < 4 || idx.concepts.has(name) {
        return None;
    }
    match first_collision(idx, &name_tokens(name)) {
        None => None,
        Some((tok, existing)) => {
            let mut advice = owned("'");
            advice.append(existing.as_str());
            advice.append("' may already cover this — run `archietect concept ");
            advice.append(tok.as_str());
            advice.append("` before merging");
            Some(
                Warning {
                    new_declaration: owned(name),
                    collides_with: existing,
                    via_token: tok,
                    advice,
                },
            )
        },
    }
}

/// A gate on a patch that proposes tables and declares names.
pub fn pass_gate(
    idx: &Index,
    around: &Surroundings,
    tables: &Vec<String>,
    names: &Vec<String>,
    strict: bool,
) -> (r: Gate)
    ensures
        r.deep_view() == gate(
            idx.deep_view(),
            around.deep_view(),
            tables.deep_view(),
            names.deep_view(),
            strict,
        ),
{
    let ghost all = names.deep_view();
    let ghost f = each_warning(idx.deep_view());
    let ruled = rule(idx, around, tables);
    let mut warnings: Vec<Warning> = Vec::new();
    let mut i: usize = 0;
    proof {
        assert(all.take(0) =~= seq![]);
        reveal(Seq::filter_map);
    }
    while i < names.len()
        invariant
            i <= names.len(),
            all == names.deep_view(),
            f == each_warning(idx.deep_view()),
            warnings.deep_view() =~= all.take(i as int).filter_map(f),
        decreases names.len() - i,
    {
        let ghost so_far = warnings.deep_view();
        proof {
            all.lemma_filter_map_take_succ(f, i as int);
        }
        assert(all[i as int] == names[i as int]@);
        if let Some(w) = warn(idx, names[i].as_str()) {
            let ghost wv = w.deep_view();
            warnings.push(w);
            assert(warnings.deep_view() =~= so_far.push(wv));
        }
        i += 1;
    }
    assert(all.take(i as int) =~= all);
    assert(warnings.deep_view().len() == warnings@.len());
    let pass = ruled.allowed && !(strict && warnings.len() > 0);
    let violation = if ruled.allowed {
        None
    } else {
        Some(ruled)
    };
    Gate { pass, violation, warnings, strict }
}

/// A gate on a patch: what it adds may not create a table for a concept that
/// exists, and under `strict` may not declare a name that meets one.
pub fn ci(idx: &Index, around: &Surroundings, diff: &str, strict: bool) -> (r: Gate)
    ensures
        r.deep_view() == gate(
            idx.deep_view(),
            around.deep_view(),
            proposed_tables(added_text(diff@)),
            declared_names(added_text(diff@)),
            strict,
        ),
{
    let text = added(diff);
    let tables = group_texts_of(&found_in(CREATE_TABLE, text.as_str()), 1);
    let names = names_declared(text.as_str());
    pass_gate(idx, around, &tables, &names, strict)
}

/// The concept that a blocked patch is recorded under.
pub open spec fn blamed(g: GateView) -> Seq<char> {
    match g.violation {
        Some(r) => if r.findings.len() > 0 && r.findings[0].canonical is Some {
            r.findings[0].canonical->Some_0
        } else {
            "commit"@
        },
        None => "commit"@,
    }
}

/// The event that records how a patch fared: its kind, and the concept.
pub fn gate_event(g: &Gate) -> (r: (&'static str, String))
    ensures
        r.0@ == (if g.pass {
            "ci_passed"@
        } else {
            "ci_blocked"@
        }),
        r.1@ == blamed(g.deep_view()),
{
    let kind = if g.pass {
        "ci_passed"
    } else {
        "ci_blocked"
    };
    if let Some(v) = &g.violation {
        assert(v.deep_view().findings.len() == v.findings@.len());
        if v.findings.len() > 0 {
            assert(v.deep_view().findings[0] == v.findings[0].deep_view());
            if let Some(c) = &v.findings[0].canonical {
                return (kind, owned(c.as_str()));
            }
        }
    }
    (kind, owned("commit"))
}

// ---------------------------------------------------------------------------
// Laws
// ---------------------------------------------------------------------------

/// One refused table refuses the whole text.
pub proof fn law_near_names_are_refused(
    idx: IndexView,
    around: SurroundingsView,
    tables: Seq<Seq<char>>,
    i: int,
)
    requires
        0 <= i < tables.len(),
        is_refused(idx, head_answer(idx, around, tables[i]), tables[i]),
    ensures
        !ruling(idx, around, tables).allowed,
{
    crate::query::lemma_kept_by_filter_map(tables, each_refusal(idx, around), i);
}

/// A concept's own table may always be declared again, in whatever case.
pub proof fn law_own_table_passes(idx: IndexView, a: AnswerView, table: Seq<char>)
    requires
        ascii_lower(table) == ascii_lower(own_table(idx, name_in(a))),
    ensures
        !is_refused(idx, a, table),
{
}

/// A text without tables passes its gate, and so does one whose tables all speak
/// of things that nobody declared.
pub proof fn law_new_tables_pass(idx: IndexView, around: SurroundingsView, tables: Seq<Seq<char>>)
    requires
        forall|i: int|
            0 <= i < tables.len() ==> !is_declared_verdict(
                (#[trigger] head_answer(idx, around, tables[i])).verdict,
            ),
    ensures
        ruling(idx, around, tables).allowed,
{
    let f = each_refusal(idx, around);
    let b = tables.filter_map(f);
    if b.len() > 0 {
        assert(b.contains(b[0]));
        tables.lemma_filter_map_contains(f, b[0]);
        let k = choose|k: int| 0 <= k < tables.len() && #[trigger] f(tables[k]) == Some(b[0]);
        assert(!is_declared_verdict(head_answer(idx, around, tables[k]).verdict));
    }
}

/// A name that merely resembles another fails a patch only where its gate is
/// strict; a refused table fails it always.
pub proof fn law_only_strict_gates_stop_at_names(
    idx: IndexView,
    around: SurroundingsView,
    tables: Seq<Seq<char>>,
    names: Seq<Seq<char>>,
)
    ensures
        gate(idx, around, tables, names, false).pass == ruling(idx, around, tables).allowed,
        gate(idx, around, tables, names, true).pass ==> gate(idx, around, tables, names, false).pass,
{
}

} // verus!
