//! What answers show of what is known: excerpts, resources, plans and reports.
use vstd::prelude::*;
use crate::advice::{intent_of, reach_of, DependentView};
use crate::answer_laws::lemma_filtered_from;
use crate::answers::{answer_head, answer_tree, each_excerpt};
use crate::glance::{each_governing, each_step, plan_of};
use crate::guard::{
    blamed, declared_name, declared_names, proposed_tables, CREATE_TABLE, NEW_DECLARATION, GateView,
};
use crate::guard_laws::lemma_join_holds;
use crate::invariants::{violations_tree, ViolationView};
use crate::laws::{corpus_in, repo_in, repos_in};
use crate::mcp::only_in;
use crate::model::{concept_evidence, concept_resource, ConceptView, IndexView, Tier};
use crate::outside::{found, group, group_text, toml_tree, SpanView};
use crate::ownership::ownership;
use crate::permissions::{recorded, report_line, PermissionConfigView};
use crate::proposal::{acceptance_words, Kind, RecordView};
use crate::protocol::{complaint_tree, warned_tree};
use crate::query::{each_numbered, excerpt, lemma_kept_by_filter_map, AnswerView, SurroundingsView};
use crate::register::{each_line, registered, DomainLineView};
use crate::reports::{accepted_tree, digest_tree, rejected_tree, seeding_tree, snapshot_tree};
use crate::rest::{complaint, ActionView};
use crate::seed::SeedingView;
use crate::store::{DigestView, SnapshotView};
use crate::structural::{symbol_resource, GraphView, SymbolView};
use crate::table::{lemma_put, lookup, put};
use crate::text::{contains, decimal, decimal_int, join, lines, lowered, occurs_at};
use crate::tree::{field, lemma_set_entry, text_field, TreeView};

verus! {

// ---------------------------------------------------------------------------
// Excerpts
// ---------------------------------------------------------------------------

/// An excerpt shows the line that it is about and those round it, as many on
/// either side as are asked for and there are, each with its number; of a line
/// that the text does not have there is none.
pub proof fn law_excerpts_show_the_line(text: Seq<char>, line: int, context: int, k: int)
    requires
        context >= 0,
    ensures
        excerpt(text, line, context) is Some <==> 1 <= line <= lines(text).len(),
        1 <= line <= lines(text).len() && 1 <= k <= lines(text).len() && line - context <= k <= line
            + context ==> contains(
            excerpt(text, line, context)->0,
            decimal(k as nat) + ": "@ + lines(text)[k - 1],
        ),
{
    let ls = lines(text);
    if 1 <= line <= ls.len() && 1 <= k <= ls.len() && line - context <= k <= line + context {
        let from = crate::query::excerpt_start(line, context);
        let to = crate::query::excerpt_end(line, context, ls.len() as int);
        let shown = Seq::new((to - from) as nat, |j: int| each_numbered(ls)(from + j));
        let at = k - 1 - from;
        assert(0 <= at < shown.len());
        assert(shown[at] == decimal(k as nat) + ": "@ + ls[k - 1]);
        lemma_join_holds(shown, "\n"@, at);
    }
}

/// An excerpt shows nothing else: it has as many lines as lie that near.
pub proof fn law_excerpts_show_nothing_else(text: Seq<char>, line: int, context: int)
    requires
        context >= 0,
        1 <= line <= lines(text).len(),
    ensures
        ({
            let first = if line - context < 1 {
                1
            } else {
                line - context
            };
            let last = if line + context > lines(text).len() {
                lines(text).len() as int
            } else {
                line + context
            };
            excerpt(text, line, context) == Some(
                join(
                    Seq::new(
                        (last - first + 1) as nat,
                        |j: int| decimal((first + j) as nat) + ": "@ + lines(text)[first + j - 1],
                    ),
                    "\n"@,
                ),
            )
        }),
{
    let ls = lines(text);
    let from = crate::query::excerpt_start(line, context);
    let to = crate::query::excerpt_end(line, context, ls.len() as int);
    let shown = Seq::new((to - from) as nat, |j: int| each_numbered(ls)(from + j));
    let first = from + 1;
    let other = Seq::new(
        (to - first + 1) as nat,
        |j: int| decimal((first + j) as nat) + ": "@ + ls[first + j - 1],
    );
    assert(shown =~= other);
}

// ---------------------------------------------------------------------------
// What a gate reads and whom it blames
// ---------------------------------------------------------------------------

/// A patch proposes every table that it creates and every name that it declares,
/// in whichever of three ways it declares it.
pub proof fn law_proposals_are_read_whole(text: Seq<char>, i: int)
    ensures
        proposed_tables(text).len() == found(CREATE_TABLE@, text).len(),
        declared_names(text).len() == found(NEW_DECLARATION@, text).len(),
        0 <= i < found(CREATE_TABLE@, text).len() ==> proposed_tables(text)[i] == group_text(
            found(CREATE_TABLE@, text)[i],
            1,
        ),
        0 <= i < found(NEW_DECLARATION@, text).len() ==> declared_names(text)[i] == declared_name(
            found(NEW_DECLARATION@, text)[i],
        ),
{
}

/// A declared name stands in the first of three groups that took part.
pub proof fn law_where_a_declared_name_stands(m: Seq<Option<SpanView>>, n: Seq<char>)
    ensures
        group(m, 1) == Some(n) ==> declared_name(m) == n,
        group(m, 1) is None && group(m, 2) == Some(n) ==> declared_name(m) == n,
        group(m, 1) is None && group(m, 2) is None && group(m, 3) == Some(n) ==> declared_name(m)
            == n,
{
}

/// A refused patch is blamed on the concept that it would duplicate, and on the
/// commit where there is none to name.
pub proof fn law_who_is_blamed(g: GateView)
    ensures
        g.violation is None ==> blamed(g) == "commit"@,
        g.violation matches Some(r) ==> (r.findings.len() > 0 ==> (r.findings[0].canonical matches Some(
            c,
        ) ==> blamed(g) == c) && (r.findings[0].canonical is None ==> blamed(g) == "commit"@)),
{
}

// ---------------------------------------------------------------------------
// Resources
// ---------------------------------------------------------------------------

/// A concept is reported under its name, where it was first declared, with its
/// table, fields and relations and all of its evidence.
pub proof fn law_concepts_as_resources(c: ConceptView, name: Seq<char>)
    ensures
        ({
            let r = concept_resource(c, name);
            &&& r.id == name && r.kind == "schema_model"@ && r.domain == "code"@
            &&& c.declared_in.len() > 0 ==> r.file == c.declared_in[0].0
            &&& lookup(r.attributes, "table"@) == c.table
            &&& lookup(r.attributes, "fields"@) == Some(join(c.fields, ","@))
            &&& lookup(r.attributes, "relations"@) == Some(join(c.relations, ","@))
            &&& r.evidence == concept_evidence(c)
        }),
{
    reveal_strlit("fields");
    reveal_strlit("relations");
    reveal_strlit("table");
    assert("fields"@.len() == 6 && "relations"@.len() == 9 && "table"@.len() == 5);
    let none: Seq<(Seq<char>, Seq<char>)> = seq![];
    lemma_put(none, "fields"@, join(c.fields, ","@));
    let a = put(none, "fields"@, join(c.fields, ","@));
    lemma_put(a, "relations"@, join(c.relations, ","@));
    let b = put(a, "relations"@, join(c.relations, ","@));
    if let Some(t) = c.table {
        lemma_put(b, "table"@, t);
    }
}

/// A symbol is reported under its name, at its file and line, as declared there.
pub proof fn law_symbols_as_resources(s: SymbolView)
    ensures
        ({
            let r = symbol_resource(s);
            &&& r.id == s.name && r.kind == "symbol"@ && r.domain == "code"@
            &&& r.file == s.file && r.line == Some(s.line as int)
            &&& r.evidence.len() == 1 && r.evidence[0].tier == Tier::Declared
            &&& contains(r.evidence[0].what, s.file)
        }),
{
    let what = symbol_resource(s).evidence[0].what;
    let front = s.kind.label_text() + " declared in "@;
    assert(what.subrange(front.len() as int, (front.len() + s.file.len()) as int) =~= s.file);
    assert(occurs_at(what, s.file, front.len() as int));
}

// ---------------------------------------------------------------------------
// Plans
// ---------------------------------------------------------------------------

/// A plan names for each of the first three concepts to extend its owner, its
/// relations, the decisions that bear on it and what a change would reach; it says
/// so where nothing was recognised.
pub proof fn law_plans_follow_the_intent(
    idx: IndexView,
    graph: GraphView,
    around: SurroundingsView,
    text: Seq<char>,
    reach: Seq<(Seq<char>, Seq<DependentView>)>,
    p: int,
)
    ensures
        ({
            let plan = plan_of(idx, graph, around, text, reach);
            let it = intent_of(idx, around, text);
            &&& plan.intent == text && plan.genuinely_new == it.create
            &&& plan.needs_confirmation == it.needs_confirmation
            &&& plan.recommendation == it.smallest_correct_change
            &&& plan.extend.len() <= 3
            &&& 0 <= p < plan.extend.len() ==> {
                let s = plan.extend[p];
                &&& lookup(idx.concepts, s.canonical) matches Some(c) && s.related == c.relations
                &&& s.canonical_location == ownership(idx, graph, s.canonical).owner_directory
                &&& s.impact_if_changed == reach_of(idx, s.canonical, reach).severity
                &&& s.affected_files == reach_of(idx, s.canonical, reach).used_by_files
                &&& s.existing_decisions == idx.decisions.filter_map(each_governing(s.canonical))
                &&& exists|k: int|
                    0 <= k < it.extend.len() && k < 3 && (#[trigger] it.extend[k]).canonical == Some(
                        s.canonical,
                    ) && it.extend[k].concept == s.concept
            }
        }),
{
    let it = intent_of(idx, around, text);
    let first = crate::model::first_of(it.extend, 3);
    let f = each_step(idx, graph, reach);
    lemma_no_longer(first, f);
    if 0 <= p < plan_of(idx, graph, around, text, reach).extend.len() {
        let k = lemma_filtered_from(first, f, p);
        assert(first[k] == it.extend[k]);
    }
}

proof fn lemma_no_longer<A, B>(s: Seq<A>, f: spec_fn(A) -> Option<B>)
    ensures
        s.filter_map(f).len() <= s.len(),
    decreases s.len(),
{
    if s.len() > 0 {
        let n = s.len() - 1;
        lemma_no_longer(s.take(n), f);
        s.lemma_filter_map_take_succ(f, n);
        assert(s.take(n + 1) =~= s);
    } else {
        reveal(Seq::filter_map);
    }
}

/// A declared concept that an intent extends is a step of the plan.
pub proof fn law_plans_leave_no_concept_out(
    idx: IndexView,
    graph: GraphView,
    around: SurroundingsView,
    text: Seq<char>,
    reach: Seq<(Seq<char>, Seq<DependentView>)>,
    k: int,
)
    requires
        0 <= k < intent_of(idx, around, text).extend.len(),
        k < 3,
        intent_of(idx, around, text).extend[k].canonical matches Some(name) && lookup(
            idx.concepts,
            name,
        ) is Some,
    ensures
        exists|p: int|
            0 <= p < plan_of(idx, graph, around, text, reach).extend.len() && Some(
                (#[trigger] plan_of(idx, graph, around, text, reach).extend[p]).canonical,
            ) == intent_of(idx, around, text).extend[k].canonical,
{
    let it = intent_of(idx, around, text);
    let first = crate::model::first_of(it.extend, 3);
    let f = each_step(idx, graph, reach);
    assert(first[k] == it.extend[k]);
    lemma_kept_by_filter_map(first, f, k);
    let steps = plan_of(idx, graph, around, text, reach).extend;
    let p = choose|p: int| 0 <= p < steps.len() && steps[p] == f(first[k])->Some_0;
    assert(steps[p].canonical == it.extend[k].canonical->0);
}

// ---------------------------------------------------------------------------
// The register and the corpus
// ---------------------------------------------------------------------------

/// What the register says of a domain is what the permissions say, and for a
/// domain that is not structured what was answered.
pub proof fn law_lines_of_the_register(
    cfg: PermissionConfigView,
    confirmations: Option<Seq<char>>,
    d: Seq<char>,
)
    ensures
        ({
            let l = each_line(cfg, confirmations)(d);
            let structured = lowered(d) == "code"@ || lowered(d) == "git"@ || lowered(d)
                == "docker"@ || lowered(d) == "systemd"@;
            &&& l.report == report_line(cfg, d)
            &&& structured ==> l.confirmed is None
            &&& !structured ==> l.confirmed == recorded(confirmations, d)
        }),
{
}

/// The register holds the boundary as it is, and what is not known in three parts.
pub proof fn law_the_register_is_whole(
    idx: IndexView,
    lines: Seq<DomainLineView>,
    unclassified: Seq<(Seq<char>, Seq<char>)>,
    persisted: bool,
)
    ensures
        ({
            let r = registered(idx, lines, unclassified, persisted);
            &&& r.boundary == lines
            &&& r.index == if persisted {
                "current (incremental)"@
            } else {
                "not persisted (this scan ran in-memory)"@
            }
            &&& r.status.concepts_declared == idx.concepts.len()
            &&& r.not_known.len() == crate::register::language_gap(unclassified).len()
                + crate::register::all_line_gaps(lines).len() + crate::register::usage_gap(idx).len()
        }),
{
}

/// The gaps of every domain are told, in order.
pub proof fn law_gaps_of_every_domain_are_told(front: Seq<DomainLineView>, l: DomainLineView)
    ensures
        crate::register::all_line_gaps(front.push(l)) == crate::register::all_line_gaps(front)
            + crate::register::line_gaps(l),
        crate::register::all_line_gaps(seq![]).len() == 0,
{
    assert(front.push(l).drop_last() =~= front);
}

/// A corpus lists every repository of its file, and nothing where one of them is
/// malformed.
pub proof fn law_the_corpus_is_read_whole(
    toml: Seq<char>,
    t: TreeView,
    items: Seq<TreeView>,
    item: TreeView,
)
    ensures
        toml_tree(toml) is Err ==> corpus_in(toml).len() == 0,
        toml_tree(toml) == Ok::<TreeView, Seq<char>>(t) && field(t, "repo"@) == Some(
            TreeView::List(items),
        ) ==> (repos_in(items) matches Some(list) ==> corpus_in(toml) == list) && (repos_in(items)
            is None ==> corpus_in(toml).len() == 0),
        toml_tree(toml) == Ok::<TreeView, Seq<char>>(t) && field(t, "repo"@) is None ==> corpus_in(
            toml,
        ).len() == 0,
        repos_in(items) is Some && repo_in(item) is Some ==> repos_in(items.push(item)) == Some(
            repos_in(items)->0.push(repo_in(item)->0),
        ),
        repos_in(items) is None || repo_in(item) is None ==> repos_in(items.push(item)) is None,
        t is Table ==> (repo_in(t) matches Some(r) ==> text_field(t, "name"@) == Some(r.name)
            && text_field(t, "kind"@) == Some(r.kind) && text_field(t, "validated"@) == Some(
            r.validated,
        ) && field(t, "contributed"@) is Some && crate::mutation_policy::strict_texts(
            field(t, "contributed"@),
        ) == Some(r.contributed)),
{
    assert(items.push(item).drop_last() =~= items);
}

// ---------------------------------------------------------------------------
// Refusals and warnings
// ---------------------------------------------------------------------------

/// A request that is not served is told why, with what it asked for; one that is
/// served is told nothing.
pub proof fn law_complaints_name_what_is_wrong(a: ActionView, s: Seq<char>)
    ensures
        complaint(a) is None <==> a is Serve,
        a == ActionView::MissingRoot(s) ==> contains(complaint(a)->0, s),
        a == ActionView::UnknownEndpoint(s) ==> contains(complaint(a)->0, s),
        complaint_tree(a) matches TreeView::Table(entries) && entries.len() > 0 && entries[0].0
            == "error"@ && (complaint(a) matches Some(t) ==> entries[0].1 == TreeView::Text(t)) && (
        entries.len() == 2 <==> a is UnknownEndpoint),
{
    let root = "root does not exist: "@;
    let unknown = "unknown endpoint "@;
    assert((root + s).subrange(root.len() as int, (root.len() + s.len()) as int) =~= s);
    assert(occurs_at(root + s, s, root.len() as int));
    assert((unknown + s).subrange(unknown.len() as int, (unknown.len() + s.len()) as int) =~= s);
    assert(occurs_at(unknown + s, s, unknown.len() as int));
}

/// A warning is added to a table under its own key and changes nothing else.
pub proof fn law_warnings_change_nothing_else(body: TreeView, warning: Seq<char>, k: Seq<char>)
    ensures
        !(body is Table) ==> warned_tree(body, warning) == body,
        body is Table ==> field(warned_tree(body, warning), "_stale_binary_warning"@) == Some(
            TreeView::Text(warning),
        ),
        body is Table && k != "_stale_binary_warning"@ ==> field(warned_tree(body, warning), k)
            == field(body, k),
{
    if let TreeView::Table(entries) = body {
        lemma_set_entry(entries, "_stale_binary_warning"@, TreeView::Text(warning), k);
        lemma_set_entry(
            entries,
            "_stale_binary_warning"@,
            TreeView::Text(warning),
            "_stale_binary_warning"@,
        );
    }
}

/// A call may ask for some keys, by a list of texts or by one text; an empty list
/// asks for none in particular.
pub proof fn law_which_keys_a_call_asks_for(args: TreeView, items: Seq<TreeView>, s: Seq<char>)
    ensures
        field(args, "only"@) is None ==> only_in(args) is None,
        field(args, "only"@) == Some(TreeView::Text(s)) ==> only_in(args) == crate::shape::keys_in(s),
        field(args, "only"@) == Some(TreeView::List(items)) ==> (only_in(args) matches Some(keys)
            ==> keys.len() > 0 && keys == items.filter_map(crate::tree::each_text())),
        field(args, "only"@) == Some(TreeView::List(items)) && items.len() > 0 && items[0] is Text
            ==> only_in(args) is Some,
{
    if items.len() > 0 && items[0] is Text {
        lemma_kept_by_filter_map(items, crate::tree::each_text(), 0);
    }
}

// ---------------------------------------------------------------------------
// Trees
// ---------------------------------------------------------------------------

/// A check of the invariants passes exactly where it found nothing, and says how
/// much it found.
pub proof fn law_checks_pass_where_nothing_was_found(list: Seq<ViolationView>)
    ensures
        violations_tree(list) matches TreeView::Table(e) && e[0] == (
            "pass"@,
            TreeView::Flag(list.len() == 0),
        ) && e[1] == ("violation_count"@, TreeView::Number(decimal_int(list.len() as int))),
{
}

/// A replay says whether the snapshot is of the very version that was asked for.
pub proof fn law_replays_say_whether_they_match(
    v: SnapshotView,
    version: int,
    ages: Seq<(Seq<char>, Seq<char>)>,
)
    ensures
        snapshot_tree(v, version, ages) matches TreeView::Table(e) && e[0] == (
            "concept"@,
            TreeView::Text(v.concept),
        ) && e[1] == ("requested_version"@, TreeView::Number(decimal_int(version))) && e[2] == (
            "snapshot_version"@,
            TreeView::Number(decimal_int(v.version)),
        ) && e[3] == ("exact_version_match"@, TreeView::Flag(v.version == version)) && e[4] == (
            "ts_ms"@,
            TreeView::Number(decimal_int(v.ts_ms)),
        ),
{
}

/// A digest is available exactly where there are events to tell of.
pub proof fn law_digests_are_available_where_there_are_events(
    d: Option<DigestView>,
    ages: Seq<(Seq<char>, Seq<char>)>,
)
    ensures
        digest_tree(d, ages) matches TreeView::Table(e) && e.len() > 1 && e[0] == (
            "available"@,
            TreeView::Flag(d is Some),
        ) && (d matches Some(v) ==> e[1] == (
            "event_count"@,
            TreeView::Number(decimal_int(v.event_count)),
        )),
{
}

/// Seeding says whether there was a README, how much it found and whether that was
/// written.
pub proof fn law_seeding_says_what_it_did(s: SeedingView, write: bool, by: Option<Seq<char>>)
    ensures
        seeding_tree(s, write, by) matches TreeView::Table(e) && e.len() > 1 && e[0] == (
            "available"@,
            TreeView::Flag(!(s is NoReadme)),
        ) && (s is NothingNew ==> e[1] == ("found"@, TreeView::Number(decimal_int(0))) && e[2] == (
            "written"@,
            TreeView::Flag(false),
        )) && (s matches SeedingView::Found(list, _) ==> e[1] == (
            "found"@,
            TreeView::Number(decimal_int(list.len() as int)),
        ) && e[2] == ("written"@, TreeView::Flag(write))),
{
}

/// What becomes of a proposal is told with its number and its standing.
pub proof fn law_proposals_are_told_by_number(r: RecordView, purged: bool)
    ensures
        accepted_tree(r) matches TreeView::Table(e) && e[0] == (
            "id"@,
            TreeView::Number(decimal(r.id)),
        ) && e[1] == ("status"@, TreeView::Text(r.status.label_text())),
        rejected_tree(r, purged) matches TreeView::Table(e) && e[0] == (
            "id"@,
            TreeView::Number(decimal(r.id)),
        ) && e[2] == ("purged"@, TreeView::Flag(purged)),
        acceptance_words(Kind::Decision) == acceptance_words(Kind::Alias),
        acceptance_words(Kind::Alias).is_prefix_of(acceptance_words(Kind::Extractor)),
{
    let a = acceptance_words(Kind::Alias);
    let x = acceptance_words(Kind::Extractor);
    reveal_strlit("");
    assert(x.subrange(0, a.len() as int) =~= a);
}

/// Every answer shows its question, its verdict, its canonical name and how sure it
/// is; one that came by an alias says so.
pub proof fn law_answers_show_their_verdict(
    a: AnswerView,
    texts: Seq<(Seq<char>, Seq<char>)>,
    ages: Seq<(Seq<char>, Seq<char>)>,
)
    ensures
        answer_tree(a, texts, ages) matches TreeView::Table(e) && e.len() >= 6 && e[0] == (
            "concept"@,
            TreeView::Text(a.concept),
        ) && e[1] == ("verdict"@, TreeView::Text(a.verdict.label_text())) && (
        a.canonical matches Some(n) ==> e[2] == ("canonical"@, TreeView::Text(n))) && (a.canonical
            is None ==> e[2] == ("canonical"@, TreeView::Nothing)) && e[4] == (
            "confidence"@,
            TreeView::Text(a.confidence),
        ) && e[5] == ("recommendation"@, TreeView::Text(a.recommendation)),
        answer_head(a).len() == if a.resolved_via_alias {
            7int
        } else {
            6int
        },
        a.resolved_via_alias ==> answer_head(a)[6] == ("resolved_via"@, TreeView::Text("alias"@)),
{
    let head = answer_head(a);
    assert(head[0] == ("concept"@, TreeView::Text(a.concept)));
    assert(head[1] == ("verdict"@, TreeView::Text(a.verdict.label_text())));
}

/// Of a symbol the lines round it are quoted, where the text of its file is at
/// hand and has that line.
pub proof fn law_symbols_are_quoted_from_their_file(
    texts: Seq<(Seq<char>, Seq<char>)>,
    s: SymbolView,
)
    ensures
        each_excerpt(texts)(s) is Some <==> (lookup(texts, s.file) matches Some(t) && 1 <= s.line
            <= lines(t).len()),
        each_excerpt(texts)(s) matches Some(TreeView::Table(e)) ==> e[0] == (
            "file"@,
            TreeView::Text(s.file),
        ) && e[1] == ("line"@, TreeView::Number(decimal(s.line))) && e[2] == (
            "excerpt"@,
            TreeView::Text(excerpt(lookup(texts, s.file)->0, s.line as int, 2)->0),
        ),
{
    if let Some(t) = lookup(texts, s.file) {
        law_excerpts_show_the_line(t, s.line as int, 2, s.line as int);
    }
}

} // verus!
