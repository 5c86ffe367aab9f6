//! The timeline of the architecture: events, their archive, a digest of them,
//! and snapshots of concepts by version.
use vstd::prelude::*;
use crate::model::{answers_to, first_of, names_concept, shortened, ConceptView, Index};
use crate::order::{in_order, law_sorting_orders, stable_sort, Ranked};
use crate::outside::{json_tree, parse_json};
use crate::ownership::{seen_so_far, Count};
use crate::numbers::{signed, signed_value};
use crate::permissions::str_view;
use crate::query::{verdict_of, Verdict};
use crate::table::{lemma_put, lookup, put, TextMap};
use crate::text::{ascii_lower, decimal, join};
use crate::text::{
    copied, copied_option, joined, number, owned, same, same_ignoring_case, wide_number,
};
use crate::tree::{text_field, Tree, TreeView};

verus! {

// ---------------------------------------------------------------------------
// Events
// ---------------------------------------------------------------------------

/// An event as it is stored.
#[derive(Debug)]
pub struct Row {
    pub ts_ms: i64,
    pub kind: String,
    pub concept: String,
    pub detail: String,
}

pub struct RowView {
    pub ts_ms: int,
    pub kind: Seq<char>,
    pub concept: Seq<char>,
    pub detail: Seq<char>,
}

impl DeepView for Row {
    type V = RowView;

    open spec fn deep_view(&self) -> RowView {
        RowView {
            ts_ms: self.ts_ms as int,
            kind: self.kind@,
            concept: self.concept@,
            detail: self.detail@,
        }
    }
}

impl Row {
    pub fn copy(&self) -> (r: Row)
        ensures
            r.deep_view() == self.deep_view(),
    {
        Row {
            ts_ms: self.ts_ms,
            kind: owned(self.kind.as_str()),
            concept: owned(self.concept.as_str()),
            detail: owned(self.detail.as_str()),
        }
    }
}

/// An event as it is shown: its detail read, where it can be.
#[derive(Debug)]
pub struct Event {
    pub ts_ms: i64,
    pub kind: String,
    pub concept: String,
    pub detail: Tree,
    /// It was moved out of the live timeline.
    pub archived: bool,
}

pub struct EventView {
    pub ts_ms: int,
    pub kind: Seq<char>,
    pub concept: Seq<char>,
    pub detail: TreeView,
    pub archived: bool,
}

impl DeepView for Event {
    type V = EventView;

    open spec fn deep_view(&self) -> EventView {
        EventView {
            ts_ms: self.ts_ms as int,
            kind: self.kind@,
            concept: self.concept@,
            detail: self.detail.deep_view(),
            archived: self.archived,
        }
    }
}

pub open spec fn each_event(archived: bool) -> spec_fn(RowView) -> EventView {
    |r: RowView|
        EventView {
            ts_ms: r.ts_ms,
            kind: r.kind,
            concept: r.concept,
            detail: match json_tree(r.detail) {
                Some(t) => t,
                None => TreeView::Text(r.detail),
            },
            archived,
        }
}

/// An event touches a concept that somebody asks for.
pub open spec fn is_wanted(r: RowView, want: Option<Seq<char>>) -> bool {
    match want {
        Some(w) => answers_to(r.concept, w) || ascii_lower(r.concept) == ascii_lower(w),
        None => true,
    }
}

pub open spec fn each_wanted(want: Option<Seq<char>>) -> spec_fn(RowView) -> Option<RowView> {
    |r: RowView|
        if is_wanted(r, want) {
            Some(r)
        } else {
            None
        }
}

/// The rows that answer a question, from a timeline with the newest first: those
/// that are asked for, however far back they lie, up to the limit.
pub open spec fn chosen_rows(rows: Seq<RowView>, want: Option<Seq<char>>, limit: int) -> Seq<RowView> {
    first_of(rows.filter_map(each_wanted(want)), limit)
}

fn wanted(r: &Row, want: Option<&str>) -> (b: bool)
    ensures
        b == is_wanted(
            r.deep_view(),
            match want {
                Some(w) => Some(w@),
                None => None,
            },
        ),
{
    match want {
        Some(w) => names_concept(r.concept.as_str(), w) || same_ignoring_case(
            r.concept.as_str(),
            w,
        ),
        None => true,
    }
}

/// The rows that answer a question. `rows` holds the timeline, the newest first.
pub fn choose_rows(rows: &Vec<Row>, want: Option<&str>, limit: usize) -> (r: Vec<Row>)
    ensures
        r.deep_view() == chosen_rows(
            rows.deep_view(),
            match want {
                Some(w) => Some(w@),
                None => None,
            },
            limit as int,
        ),
{
    let ghost all = rows.deep_view();
    let ghost wv = match want {
        Some(w) => Some(w@),
        None => None,
    };
    let ghost f = each_wanted(wv);
    let mut out: Vec<Row> = Vec::new();
    let mut i: usize = 0;
    proof {
        assert(all.take(0) =~= seq![]);
        reveal(Seq::filter_map);
    }
    while i < rows.len()
        invariant
            i <= rows.len(),
            all == rows.deep_view(),
            f == each_wanted(wv),
            wv == (match want {
                Some(w) => Some(w@),
                None => None,
            }),
            out.deep_view() =~= all.take(i as int).filter_map(f),
        decreases rows.len() - i,
    {
        let ghost so_far = out.deep_view();
        proof {
            all.lemma_filter_map_take_succ(f, i as int);
        }
        assert(all[i as int] == rows[i as int].deep_view());
        if wanted(&rows[i], want) {
            out.push(rows[i].copy());
            assert(out.deep_view() =~= so_far.push(all[i as int]));
        }
        i += 1;
    }
    assert(all.take(i as int) =~= all);
    shortened(out, limit)
}

fn events_of(rows: &Vec<Row>, archived: bool) -> (r: Vec<Event>)
    ensures
        r.deep_view() == rows.deep_view().map_values(each_event(archived)),
{
    let ghost all = rows.deep_view().map_values(each_event(archived));
    let mut out: Vec<Event> = Vec::new();
    let mut i: usize = 0;
    while i < rows.len()
        invariant
            i <= rows.len(),
            all == rows.deep_view().map_values(each_event(archived)),
            out.deep_view() =~= all.take(i as int),
        decreases rows.len() - i,
    {
        let ghost so_far = out.deep_view();
        let x = &rows[i];
        assert(rows.deep_view()[i as int] == x.deep_view());
        let detail = match parse_json(x.detail.as_str()) {
            Some(t) => t,
            None => Tree::Text(owned(x.detail.as_str())),
        };
        let e = Event {
            ts_ms: x.ts_ms,
            kind: owned(x.kind.as_str()),
            concept: owned(x.concept.as_str()),
            detail,
            archived,
        };
        assert(e.deep_view() == all[i as int]);
        out.push(e);
        assert(out.deep_view() =~= so_far.push(all[i as int]));
        i += 1;
    }
    assert(all.take(i as int) =~= all);
    out
}

/// The events that answer a question, the newest first. `rows` holds the
/// timeline in that order.
pub fn read_history(rows: &Vec<Row>, want: Option<&str>, limit: usize) -> (r: Vec<Event>)
    ensures
        r.deep_view() == chosen_rows(
            rows.deep_view(),
            match want {
                Some(w) => Some(w@),
                None => None,
            },
            limit as int,
        ).map_values(each_event(false)),
{
    events_of(&choose_rows(rows, want, limit), false)
}

/// The events that answer a question and were moved to the archive, whose rows
/// come with the newest first. Each is marked as archived.
pub fn read_archived_history(rows: &Vec<Row>, want: Option<&str>, limit: usize) -> (r: Vec<Event>)
    ensures
        r.deep_view() == chosen_rows(
            rows.deep_view(),
            match want {
                Some(w) => Some(w@),
                None => None,
            },
            limit as int,
        ).map_values(each_event(true)),
{
    events_of(&choose_rows(rows, want, limit), true)
}

proof fn lemma_newer_events_of_others(
    newer: Seq<RowView>,
    rows: Seq<RowView>,
    want: Option<Seq<char>>,
)
    requires
        forall|i: int| 0 <= i < newer.len() ==> !is_wanted(#[trigger] newer[i], want),
    ensures
        (newer + rows).filter_map(each_wanted(want)) == rows.filter_map(each_wanted(want)),
    decreases rows.len(), newer.len(),
{
    let f = each_wanted(want);
    let all = newer + rows;
    if all.len() == 0 {
        assert(all =~= rows);
    } else {
        let n = all.len() - 1;
        all.lemma_filter_map_take_succ(f, n);
        assert(all.take(n + 1) =~= all);
        if rows.len() > 0 {
            let rest = rows.drop_last();
            lemma_newer_events_of_others(newer, rest, want);
            rows.lemma_filter_map_take_succ(f, rows.len() - 1);
            assert(rows.take(rows.len() - 1) =~= rest);
            assert(rows.take(rows.len() as int) =~= rows);
            assert(all.take(n) =~= newer + rest);
            assert(all[n] == rows.last());
        } else {
            lemma_newer_events_of_others(newer.drop_last(), rows, want);
            assert(all.take(n) =~= newer.drop_last() + rows);
            assert(all[n] == newer.last());
        }
    }
}

/// Events of other concepts hide nothing, however many of them are newer.
pub proof fn law_newer_events_of_others_hide_nothing(
    newer: Seq<RowView>,
    rows: Seq<RowView>,
    want: Option<Seq<char>>,
    limit: int,
)
    requires
        forall|i: int| 0 <= i < newer.len() ==> !is_wanted(#[trigger] newer[i], want),
    ensures
        chosen_rows(newer + rows, want, limit) == chosen_rows(rows, want, limit),
{
    lemma_newer_events_of_others(newer, rows, want);
}

// ---------------------------------------------------------------------------
// The archive
// ---------------------------------------------------------------------------

/// Events of the declared ontology, which stay in sight whatever their age.
pub open spec fn is_protected_kind(kind: Seq<char>) -> bool {
    kind == "decision_added"@ || kind == "decision_removed"@ || kind == "alias_introduced"@ || kind
        == "alias_removed"@ || kind == "stale_alias"@
}

/// An event is archived where it is older than the cutoff and not protected.
pub open spec fn is_archived(r: RowView, cutoff_ms: int) -> bool {
    r.ts_ms < cutoff_ms && !is_protected_kind(r.kind)
}

pub open spec fn each_kept(cutoff_ms: int) -> spec_fn(RowView) -> Option<RowView> {
    |r: RowView|
        if is_archived(r, cutoff_ms) {
            None
        } else {
            Some(r)
        }
}

pub open spec fn each_moved(cutoff_ms: int) -> spec_fn(RowView) -> Option<RowView> {
    |r: RowView|
        if is_archived(r, cutoff_ms) {
            Some(r)
        } else {
            None
        }
}

/// Whether an event is moved to the archive.
pub fn moves_to_archive(r: &Row, cutoff_ms: i64) -> (b: bool)
    ensures
        b == is_archived(r.deep_view(), cutoff_ms as int),
{
    let k = r.kind.as_str();
    r.ts_ms < cutoff_ms && !(same(k, "decision_added") || same(k, "decision_removed") || same(
        k,
        "alias_introduced",
    ) || same(k, "alias_removed") || same(k, "stale_alias"))
}

/// The live events and the archive after a move: what is older than the cutoff
/// and not protected goes behind what the archive holds already.
pub fn archive_events_before(live: &Vec<Row>, archive: &Vec<Row>, cutoff_ms: i64) -> (r: (
    Vec<Row>,
    Vec<Row>,
))
    ensures
        r.0.deep_view() == live.deep_view().filter_map(each_kept(cutoff_ms as int)),
        r.1.deep_view() == archive.deep_view() + live.deep_view().filter_map(
            each_moved(cutoff_ms as int),
        ),
{
    let ghost all = live.deep_view();
    let ghost old_rows = archive.deep_view();
    let ghost f = each_kept(cutoff_ms as int);
    let ghost g = each_moved(cutoff_ms as int);
    let mut kept: Vec<Row> = Vec::new();
    let mut moved: Vec<Row> = Vec::new();
    let mut j: usize = 0;
    while j < archive.len()
        invariant
            j <= archive.len(),
            old_rows == archive.deep_view(),
            moved.deep_view() =~= old_rows.take(j as int),
        decreases archive.len() - j,
    {
        let ghost so_far = moved.deep_view();
        assert(old_rows[j as int] == archive[j as int].deep_view());
        moved.push(archive[j].copy());
        assert(moved.deep_view() =~= so_far.push(old_rows[j as int]));
        j += 1;
    }
    assert(old_rows.take(j as int) =~= old_rows);
    let mut i: usize = 0;
    proof {
        assert(all.take(0) =~= seq![]);
        reveal(Seq::filter_map);
        assert(old_rows + all.take(0).filter_map(g) =~= old_rows);
    }
    while i < live.len()
        invariant
            i <= live.len(),
            all == live.deep_view(),
            f == each_kept(cutoff_ms as int),
            g == each_moved(cutoff_ms as int),
            kept.deep_view() =~= all.take(i as int).filter_map(f),
            moved.deep_view() =~= old_rows + all.take(i as int).filter_map(g),
        decreases live.len() - i,
    {
        let ghost k = kept.deep_view();
        let ghost m = moved.deep_view();
        proof {
            all.lemma_filter_map_take_succ(f, i as int);
            all.lemma_filter_map_take_succ(g, i as int);
        }
        assert(all[i as int] == live[i as int].deep_view());
        if moves_to_archive(&live[i], cutoff_ms) {
            moved.push(live[i].copy());
            assert(moved.deep_view() =~= m.push(all[i as int]));
        } else {
            kept.push(live[i].copy());
            assert(kept.deep_view() =~= k.push(all[i as int]));
        }
        i += 1;
    }
    assert(all.take(i as int) =~= all);
    (kept, moved)
}

/// To archive loses nothing: every event is afterwards either live or archived,
/// as often as it was before.
pub proof fn law_archiving_loses_nothing(live: Seq<RowView>, cutoff_ms: int)
    ensures
        live.filter_map(each_kept(cutoff_ms)).to_multiset().add(
            live.filter_map(each_moved(cutoff_ms)).to_multiset(),
        ) =~= live.to_multiset(),
    decreases live.len(),
{
    broadcast use vstd::seq_lib::group_to_multiset_ensures;

    let f = each_kept(cutoff_ms);
    let g = each_moved(cutoff_ms);
    if live.len() > 0 {
        let rest = live.take(live.len() - 1);
        let x = live.last();
        law_archiving_loses_nothing(rest, cutoff_ms);
        live.lemma_filter_map_take_succ(f, live.len() - 1);
        live.lemma_filter_map_take_succ(g, live.len() - 1);
        assert(live.take(live.len() as int) =~= live);
        assert(live =~= rest.push(x));
        if is_archived(x, cutoff_ms) {
            assert(live.filter_map(f) =~= rest.filter_map(f));
            assert(live.filter_map(g) =~= rest.filter_map(g).push(x));
        } else {
            assert(live.filter_map(f) =~= rest.filter_map(f).push(x));
            assert(live.filter_map(g) =~= rest.filter_map(g));
        }
    } else {
        reveal(Seq::filter_map);
        assert(live.filter_map(f) =~= live);
        assert(live.filter_map(g) =~= live);
    }
}

/// An event of the declared ontology is never archived, whatever its age.
pub proof fn law_ontology_stays_live(live: Seq<RowView>, cutoff_ms: int, i: int)
    requires
        0 <= i < live.len(),
        is_protected_kind(live[i].kind),
    ensures
        live.filter_map(each_kept(cutoff_ms)).contains(live[i]),
        !is_archived(live[i], cutoff_ms),
{
    crate::query::lemma_kept_by_filter_map(live, each_kept(cutoff_ms), i);
}

// ---------------------------------------------------------------------------
// Live and archived together
// ---------------------------------------------------------------------------

impl Ranked for Event {
    /// The newest first.
    open spec fn leads(a: EventView, b: EventView) -> bool {
        a.ts_ms > b.ts_ms
    }

    fn goes_before(&self, other: &Self) -> (r: bool) {
        self.ts_ms > other.ts_ms
    }
}

/// Live and archived events together, the newest first.
pub fn merged_history(live: Vec<Event>, archived: Vec<Event>, limit: usize) -> (r: Vec<Event>)
    ensures
        r.deep_view() == first_of(
            stable_sort::<Event>(live.deep_view() + archived.deep_view()),
            limit as int,
        ),
{
    let ghost lv = live.deep_view();
    let ghost av = archived.deep_view();
    let mut all = live;
    let mut more = archived;
    all.append(&mut more);
    assert(all.deep_view() =~= lv + av);
    shortened(in_order(all), limit)
}

/// A history is read with the newest event first, wherever its events lie.
pub proof fn law_history_is_newest_first(
    live: Seq<EventView>,
    archived: Seq<EventView>,
    limit: nat,
    i: int,
    j: int,
)
    requires
        0 <= i < j < first_of(stable_sort::<Event>(live + archived), limit as int).len(),
    ensures
        ({
            let r = first_of(stable_sort::<Event>(live + archived), limit as int);
            r[i].ts_ms >= r[j].ts_ms
        }),
{
    let all = stable_sort::<Event>(live + archived);
    law_sorting_orders::<Event>(live + archived);
    assert(!Event::leads(all[j], all[i]));
}

/// The time before which events are archived: a number of days back from now, or
/// a time that is given outright.
pub fn archive_cutoff(before_days: Option<u64>, before_ms: Option<i64>, now_ms: i64) -> (r: Result<
    i64,
    &'static str,
>)
    ensures
        match (before_days, before_ms) {
            (Some(_), Some(_)) => r matches Err(e) && e@
                == "pass exactly one of --before-days or --before-ms, not both"@,
            (None, None) => r matches Err(e) && e@ == "pass one of --before-days or --before-ms"@,
            (None, Some(ms)) => r == Ok::<i64, &'static str>(ms),
            (Some(d), None) => match r {
                Ok(t) => t == now_ms - d * 86_400_000,
                Err(e) => now_ms - d * 86_400_000 < i64::MIN && e@
                    == "--before-days reaches back further than time is counted"@,
            },
        },
{
    match (before_days, before_ms) {
        (Some(_), Some(_)) => Err("pass exactly one of --before-days or --before-ms, not both"),
        (None, None) => Err("pass one of --before-days or --before-ms"),
        (None, Some(ms)) => Ok(ms),
        (Some(d), None) => {
            let t: i128 = now_ms as i128 - (d as i128) * 86_400_000;
            if t < i64::MIN as i128 {
                Err("--before-days reaches back further than time is counted")
            } else {
                Ok(t as i64)
            }
        },
    }
}

// ---------------------------------------------------------------------------
// The digest
// ---------------------------------------------------------------------------

/// Names in a row, the first `cap` of them where there are more.
pub open spec fn capped_names(names: Seq<Seq<char>>, cap: int) -> Seq<char> {
    if names.len() <= cap {
        join(names, ", "@)
    } else {
        join(names.take(cap), ", "@) + " (+"@ + decimal((names.len() - cap) as nat) + " more)"@
    }
}

pub open spec fn plural(n: nat) -> Seq<char> {
    if n == 1 {
        ""@
    } else {
        "s"@
    }
}

pub open spec fn each_concept(kind: Seq<char>) -> spec_fn(EventView) -> Option<Seq<char>> {
    |e: EventView|
        if e.kind == kind {
            Some(e.concept)
        } else {
            None
        }
}

pub open spec fn known_or_unknown(t: Option<Seq<char>>) -> Seq<char> {
    match t {
        Some(s) => s,
        None => "?"@,
    }
}

pub open spec fn each_rename() -> spec_fn(EventView) -> Option<Seq<char>> {
    |e: EventView|
        if e.kind == "concept_renamed"@ {
            Some(
                known_or_unknown(text_field(e.detail, "from"@)) + " → "@ + known_or_unknown(
                    text_field(e.detail, "to"@),
                ),
            )
        } else {
            None
        }
}

pub open spec fn each_new_alias() -> spec_fn(EventView) -> Option<Seq<char>> {
    |e: EventView|
        if e.kind == "alias_introduced"@ {
            Some(e.concept + " → "@ + known_or_unknown(text_field(e.detail, "target"@)))
        } else {
            None
        }
}

/// The sentence on a list of names; none where the list is empty.
pub open spec fn sentence(names: Seq<Seq<char>>, thing: Seq<char>, what: Seq<char>) -> Seq<Seq<char>> {
    if names.len() == 0 {
        seq![]
    } else {
        seq![
            decimal(names.len()) + thing + plural(names.len()) + what + capped_names(names, 10)
                + "."@,
        ]
    }
}

pub open spec fn ci_sentence(passed: nat, blocked: nat) -> Seq<Seq<char>> {
    if passed + blocked == 0 {
        seq![]
    } else {
        seq![
            "CI ran "@ + decimal(passed + blocked) + " time"@ + plural(passed + blocked) + ": "@
                + decimal(passed) + " passed, "@ + decimal(blocked) + " blocked."@,
        ]
    }
}

pub open spec fn version_sentence(versions: Seq<Seq<char>>) -> Seq<Seq<char>> {
    if versions.len() == 0 {
        seq![]
    } else {
        seq!["Architecture version reached "@ + versions[0] + "."@]
    }
}

pub open spec fn concepts_of(events: Seq<EventView>, kind: Seq<char>) -> Seq<Seq<char>> {
    events.filter_map(each_concept(kind))
}

/// The story of some events, sentence by sentence.
pub open spec fn narrative(events: Seq<EventView>) -> Seq<Seq<char>> {
    ci_sentence(
        concepts_of(events, "ci_passed"@).len(),
        concepts_of(events, "ci_blocked"@).len(),
    ) + sentence(concepts_of(events, "concept_appeared"@), " new concept"@, " appeared: "@)
        + sentence(events.filter_map(each_rename()), " concept"@, " renamed: "@) + sentence(
        concepts_of(events, "duplicate_concept_risk"@),
        " duplicate-concept risk"@,
        " flagged: "@,
    ) + sentence(
        concepts_of(events, "concept_lost_storage"@),
        " concept"@,
        " lost all storage declarations: "@,
    ) + sentence(events.filter_map(each_new_alias()), " alias"@, " introduced: "@) + sentence(
        concepts_of(events, "alias_removed"@),
        " alias"@,
        " removed: "@,
    ) + sentence(concepts_of(events, "decision_added"@), " decision"@, " recorded: "@) + sentence(
        concepts_of(events, "decision_removed"@),
        " decision"@,
        " deleted (rationale lost, not just the record): "@,
    ) + sentence(
        concepts_of(events, "stale_alias"@),
        " alias"@,
        " point at a concept that no longer exists: "@,
    ) + version_sentence(concepts_of(events, "architecture_version"@))
}

pub open spec fn kind_counts(events: Seq<EventView>) -> Seq<(Seq<char>, nat)>
    decreases events.len(),
{
    if events.len() == 0 {
        seq![]
    } else {
        let m = kind_counts(events.drop_last());
        let k = events.last().kind;
        put(m, k, seen_so_far(m, k) + 1)
    }
}

/// What happened, in sentences.
#[derive(Debug)]
pub struct Digest {
    pub event_count: usize,
    pub oldest_ms: i64,
    pub newest_ms: i64,
    pub narrative: Vec<String>,
    pub by_kind_count: TextMap<Count>,
}

pub struct DigestView {
    pub event_count: int,
    pub oldest_ms: int,
    pub newest_ms: int,
    pub narrative: Seq<Seq<char>>,
    pub by_kind_count: Seq<(Seq<char>, nat)>,
}

impl DeepView for Digest {
    type V = DigestView;

    open spec fn deep_view(&self) -> DigestView {
        DigestView {
            event_count: self.event_count as int,
            oldest_ms: self.oldest_ms as int,
            newest_ms: self.newest_ms as int,
            narrative: self.narrative.deep_view(),
            by_kind_count: self.by_kind_count.deep_view(),
        }
    }
}

/// The digest of some events, the newest first; none where there are none.
pub open spec fn digested(events: Seq<EventView>) -> Option<DigestView> {
    if events.len() == 0 {
        None
    } else {
        Some(
            DigestView {
                event_count: events.len() as int,
                oldest_ms: events.last().ts_ms,
                newest_ms: events[0].ts_ms,
                narrative: narrative(events),
                by_kind_count: kind_counts(events),
            },
        )
    }
}

/// Names in a row, the first `cap` of them where there are more.
pub fn join_capped(names: &Vec<String>, cap: usize) -> (r: String)
    ensures
        r@ == capped_names(names.deep_view(), cap as int),
{
    assert(names.deep_view().len() == names@.len());
    if names.len() <= cap {
        joined(names, ", ")
    } else {
        let more: usize = names.len() - cap;
        let mut out = joined(&shortened(copied(names), cap), ", ");
        out.append(" (+");
        out.append(number(more as u64).as_str());
        out.append(" more)");
        out
    }
}

fn plural_s(n: u128) -> (r: &'static str)
    ensures
        r@ == plural(n as nat),
{
    if n == 1 {
        ""
    } else {
        "s"
    }
}

fn concepts_among(events: &Vec<Event>, kind: &str) -> (r: Vec<String>)
    ensures
        r.deep_view() == concepts_of(events.deep_view(), kind@),
{
    let ghost all = events.deep_view();
    let ghost f = each_concept(kind@);
    let mut out: Vec<String> = Vec::new();
    let mut i: usize = 0;
    proof {
        assert(all.take(0) =~= seq![]);
        reveal(Seq::filter_map);
    }
    while i < events.len()
        invariant
            i <= events.len(),
            all == events.deep_view(),
            f == each_concept(kind@),
            out.deep_view() =~= all.take(i as int).filter_map(f),
        decreases events.len() - i,
    {
        let ghost so_far = out.deep_view();
        proof {
            all.lemma_filter_map_take_succ(f, i as int);
        }
        let e = &events[i];
        assert(all[i as int] == e.deep_view());
        if same(e.kind.as_str(), kind) {
            out.push(owned(e.concept.as_str()));
            assert(out.deep_view() =~= so_far.push(e.concept@));
        }
        i += 1;
    }
    assert(all.take(i as int) =~= all);
    out
}

fn known(t: Option<String>) -> (r: String)
    ensures
        r@ == known_or_unknown(t.deep_view()),
{
    match t {
        Some(s) => s,
        None => owned("?"),
    }
}

fn renames(events: &Vec<Event>) -> (r: Vec<String>)
    ensures
        r.deep_view() == events.deep_view().filter_map(each_rename()),
{
    let ghost all = events.deep_view();
    let ghost f = each_rename();
    let mut out: Vec<String> = Vec::new();
    let mut i: usize = 0;
    proof {
        assert(all.take(0) =~= seq![]);
        reveal(Seq::filter_map);
    }
    while i < events.len()
        invariant
            i <= events.len(),
            all == events.deep_view(),
            f == each_rename(),
            out.deep_view() =~= all.take(i as int).filter_map(f),
        decreases events.len() - i,
    {
        let ghost so_far = out.deep_view();
        proof {
            all.lemma_filter_map_take_succ(f, i as int);
        }
        let e = &events[i];
        assert(all[i as int] == e.deep_view());
        if same(e.kind.as_str(), "concept_renamed") {
            let mut x = known(e.detail.text_field("from"));
            x.append(" → ");
            x.append(known(e.detail.text_field("to")).as_str());
            let ghost xv = x@;
            out.push(x);
            assert(out.deep_view() =~= so_far.push(xv));
        }
        i += 1;
    }
    assert(all.take(i as int) =~= all);
    out
}

fn new_aliases(events: &Vec<Event>) -> (r: Vec<String>)
    ensures
        r.deep_view() == events.deep_view().filter_map(each_new_alias()),
{
    let ghost all = events.deep_view();
    let ghost f = each_new_alias();
    let mut out: Vec<String> = Vec::new();
    let mut i: usize = 0;
    proof {
        assert(all.take(0) =~= seq![]);
        reveal(Seq::filter_map);
    }
    while i < events.len()
        invariant
            i <= events.len(),
            all == events.deep_view(),
            f == each_new_alias(),
            out.deep_view() =~= all.take(i as int).filter_map(f),
        decreases events.len() - i,
    {
        let ghost so_far = out.deep_view();
        proof {
            all.lemma_filter_map_take_succ(f, i as int);
        }
        let e = &events[i];
        assert(all[i as int] == e.deep_view());
        if same(e.kind.as_str(), "alias_introduced") {
            let mut x = owned(e.concept.as_str());
            x.append(" → ");
            x.append(known(e.detail.text_field("target")).as_str());
            let ghost xv = x@;
            out.push(x);
            assert(out.deep_view() =~= so_far.push(xv));
        }
        i += 1;
    }
    assert(all.take(i as int) =~= all);
    out
}

fn tell(out: &mut Vec<String>, names: &Vec<String>, thing: &str, what: &str)
    ensures
        final(out).deep_view() == old(out).deep_view() + sentence(
            names.deep_view(),
            thing@,
            what@,
        ),
{
    let ghost so_far = out.deep_view();
    assert(names.deep_view().len() == names@.len());
    if names.len() > 0 {
        let mut x = number(names.len() as u64);
        x.append(thing);
        x.append(plural_s(names.len() as u128));
        x.append(what);
        x.append(join_capped(names, 10).as_str());
        x.append(".");
        let ghost xv = x@;
        out.push(x);
        assert(out.deep_view() =~= so_far + seq![xv]);
    } else {
        assert(out.deep_view() =~= so_far + sentence(names.deep_view(), thing@, what@));
    }
}

fn tell_ci(out: &mut Vec<String>, passed: usize, blocked: usize)
    ensures
        final(out).deep_view() == old(out).deep_view() + ci_sentence(
            passed as nat,
            blocked as nat,
        ),
{
    let ghost so_far = out.deep_view();
    let total: u128 = passed as u128 + blocked as u128;
    if total > 0 {
        let mut x = owned("CI ran ");
        x.append(wide_number(total).as_str());
        x.append(" time");
        x.append(plural_s(total));
        x.append(": ");
        x.append(number(passed as u64).as_str());
        x.append(" passed, ");
        x.append(number(blocked as u64).as_str());
        x.append(" blocked.");
        let ghost xv = x@;
        out.push(x);
        assert(out.deep_view() =~= so_far + seq![xv]);
    } else {
        assert(out.deep_view() =~= so_far + ci_sentence(passed as nat, blocked as nat));
    }
}

fn tell_version(out: &mut Vec<String>, versions: &Vec<String>)
    ensures
        final(out).deep_view() == old(out).deep_view() + version_sentence(versions.deep_view()),
{
    let ghost so_far = out.deep_view();
    assert(versions.deep_view().len() == versions@.len());
    if versions.len() > 0 {
        assert(versions.deep_view()[0] == versions[0]@);
        let mut x = owned("Architecture version reached ");
        x.append(versions[0].as_str());
        x.append(".");
        let ghost xv = x@;
        out.push(x);
        assert(out.deep_view() =~= so_far + seq![xv]);
    } else {
        assert(out.deep_view() =~= so_far + version_sentence(versions.deep_view()));
    }
}

fn narrate(events: &Vec<Event>) -> (r: Vec<String>)
    ensures
        r.deep_view() == narrative(events.deep_view()),
{
    let mut out: Vec<String> = Vec::new();
    assert(out.deep_view() =~= seq![]);
    let passed = concepts_among(events, "ci_passed");
    let blocked = concepts_among(events, "ci_blocked");
    assert(passed.deep_view().len() == passed@.len());
    assert(blocked.deep_view().len() == blocked@.len());
    tell_ci(&mut out, passed.len(), blocked.len());
    assert(out.deep_view() =~= ci_sentence(
        passed.deep_view().len(),
        blocked.deep_view().len(),
    ));
    tell(&mut out, &concepts_among(events, "concept_appeared"), " new concept", " appeared: ");
    tell(&mut out, &renames(events), " concept", " renamed: ");
    tell(
        &mut out,
        &concepts_among(events, "duplicate_concept_risk"),
        " duplicate-concept risk",
        " flagged: ",
    );
    tell(
        &mut out,
        &concepts_among(events, "concept_lost_storage"),
        " concept",
        " lost all storage declarations: ",
    );
    tell(&mut out, &new_aliases(events), " alias", " introduced: ");
    tell(&mut out, &concepts_among(events, "alias_removed"), " alias", " removed: ");
    tell(&mut out, &concepts_among(events, "decision_added"), " decision", " recorded: ");
    tell(
        &mut out,
        &concepts_among(events, "decision_removed"),
        " decision",
        " deleted (rationale lost, not just the record): ",
    );
    tell(
        &mut out,
        &concepts_among(events, "stale_alias"),
        " alias",
        " point at a concept that no longer exists: ",
    );
    tell_version(&mut out, &concepts_among(events, "architecture_version"));
    out
}

fn count_kinds(events: &Vec<Event>) -> (r: TextMap<Count>)
    ensures
        r.deep_view() == kind_counts(events.deep_view()),
{
    let ghost ev = events.deep_view();
    let mut m: TextMap<Count> = TextMap::new();
    let mut i: usize = 0;
    while i < events.len()
        invariant
            i <= events.len(),
            ev == events.deep_view(),
            m.deep_view() == kind_counts(ev.take(i as int)),
            forall|k: Seq<char>| #[trigger] seen_so_far(m.deep_view(), k) <= i,
        decreases events.len() - i,
    {
        let e = &events[i];
        let ghost before = m.deep_view();
        proof {
            let step = ev.take(i + 1);
            assert(step.drop_last() =~= ev.take(i as int));
            assert(step.last() == e.deep_view());
        }
        let n: usize = match m.get(e.kind.as_str()) {
            Some(c) => c.n,
            None => 0,
        };
        assert(n == seen_so_far(before, e.kind@));
        let size: usize = m.len();
        proof {
            lemma_put(before, e.kind@, (n + 1) as nat);
        }
        m = m.with(owned(e.kind.as_str()), Count { n: n + 1 });
        assert forall|k: Seq<char>| #[trigger] seen_so_far(m.deep_view(), k) <= i + 1 by {
            if k != e.kind@ {
                assert(lookup(m.deep_view(), k) == lookup(before, k));
                assert(seen_so_far(before, k) <= i);
            }
        }
        i += 1;
    }
    assert(ev.take(i as int) =~= ev);
    m
}

/// The digest of some events, the newest first; none where nothing happened.
pub fn history_digest(events: &Vec<Event>) -> (r: Option<Digest>)
    ensures
        r.deep_view() == digested(events.deep_view()),
{
    assert(events.deep_view().len() == events@.len());
    if events.len() == 0 {
        return None;
    }
    let last: usize = events.len() - 1;
    assert(events.deep_view()[0] == events[0].deep_view());
    assert(events.deep_view().last() == events[last as int].deep_view());
    Some(
        Digest {
            event_count: events.len(),
            oldest_ms: events[last].ts_ms,
            newest_ms: events[0].ts_ms,
            narrative: narrate(events),
            by_kind_count: count_kinds(events),
        },
    )
}

// ---------------------------------------------------------------------------
// Versions
// ---------------------------------------------------------------------------

/// The architecture version that a record gives; nought where it gives none.
pub open spec fn version_in(record: Option<Seq<char>>) -> int {
    match record {
        Some(s) => match signed_value(s) {
            Some(n) => n,
            None => 0,
        },
        None => 0,
    }
}

pub open spec fn each_name() -> spec_fn((Seq<char>, ConceptView)) -> Seq<char> {
    |e: (Seq<char>, ConceptView)| e.0
}

/// Whether the set of concepts is another: the architecture has a new version
/// exactly where it is.
pub fn concept_set_changed(before: &Index, now: &Index) -> (r: bool)
    ensures
        r == (before.deep_view().concepts.map_values(each_name())
            != now.deep_view().concepts.map_values(each_name())),
{
    let ghost a = before.deep_view().concepts.map_values(each_name());
    let ghost b = now.deep_view().concepts.map_values(each_name());
    let n: usize = before.concepts.len();
    if n != now.concepts.len() {
        assert(a.len() != b.len());
        return true;
    }
    let mut i: usize = 0;
    while i < n
        invariant
            i <= n,
            n == before.deep_view().concepts.len(),
            n == now.deep_view().concepts.len(),
            a == before.deep_view().concepts.map_values(each_name()),
            b == now.deep_view().concepts.map_values(each_name()),
            forall|j: int| 0 <= j < i ==> a[j] == b[j],
        decreases n - i,
    {
        if !same(before.concepts.key(i), now.concepts.key(i)) {
            assert(a[i as int] != b[i as int]);
            return true;
        }
        assert(a[i as int] == b[i as int]);
        i += 1;
    }
    assert(a =~= b);
    false
}

/// The next architecture version; none where there is no greater number.
pub fn bump_arch_version(record: Option<&str>) -> (r: Option<i64>)
    ensures
        match r {
            Some(n) => n == version_in(str_view(record)) + 1,
            None => version_in(str_view(record)) == i64::MAX,
        },
{
    let cur: i64 = match record {
        Some(s) => match signed(s) {
            Some(n) => n,
            None => 0,
        },
        None => 0,
    };
    cur.checked_add(1)
}

/// What a concept was like at a version.
#[derive(Debug)]
pub struct Snapshot {
    pub version: i64,
    pub ts_ms: i64,
    pub concept: String,
    pub verdict: Verdict,
    pub table: Option<String>,
    pub fields: Vec<String>,
    pub first_seen_ms: i64,
}

pub struct SnapshotView {
    pub version: int,
    pub ts_ms: int,
    pub concept: Seq<char>,
    pub verdict: Verdict,
    pub table: Option<Seq<char>>,
    pub fields: Seq<Seq<char>>,
    pub first_seen_ms: int,
}

impl DeepView for Snapshot {
    type V = SnapshotView;

    open spec fn deep_view(&self) -> SnapshotView {
        SnapshotView {
            version: self.version as int,
            ts_ms: self.ts_ms as int,
            concept: self.concept@,
            verdict: self.verdict,
            table: self.table.deep_view(),
            fields: self.fields.deep_view(),
            first_seen_ms: self.first_seen_ms as int,
        }
    }
}

impl Snapshot {
    pub fn copy(&self) -> (r: Snapshot)
        ensures
            r.deep_view() == self.deep_view(),
    {
        Snapshot {
            version: self.version,
            ts_ms: self.ts_ms,
            concept: owned(self.concept.as_str()),
            verdict: self.verdict,
            table: copied_option(&self.table),
            fields: copied(&self.fields),
            first_seen_ms: self.first_seen_ms,
        }
    }
}

pub open spec fn each_snapshot(version: int, ts_ms: int) -> spec_fn(
    (Seq<char>, ConceptView),
) -> SnapshotView {
    |e: (Seq<char>, ConceptView)|
        SnapshotView {
            version,
            ts_ms,
            concept: e.0,
            verdict: verdict_of(e.1),
            table: e.1.table,
            fields: e.1.fields,
            first_seen_ms: e.1.first_seen_ms,
        }
}

/// The snapshots of all concepts at a version.
pub fn snapshot_concepts_at_version(idx: &Index, version: i64, ts_ms: i64) -> (r: Vec<Snapshot>)
    ensures
        r.deep_view() == idx.deep_view().concepts.map_values(
            each_snapshot(version as int, ts_ms as int),
        ),
{
    let ghost all = idx.concepts.deep_view().map_values(
        each_snapshot(version as int, ts_ms as int),
    );
    let n: usize = idx.concepts.len();
    let mut out: Vec<Snapshot> = Vec::new();
    let mut i: usize = 0;
    while i < n
        invariant
            i <= n,
            n == idx.concepts.deep_view().len(),
            all == idx.concepts.deep_view().map_values(each_snapshot(version as int, ts_ms as int)),
            out.deep_view() =~= all.take(i as int),
        decreases n - i,
    {
        let ghost so_far = out.deep_view();
        let c = idx.concepts.value(i);
        assert(c.deep_view().usage.len() == c.usage@.len());
        let x = Snapshot {
            version,
            ts_ms,
            concept: owned(idx.concepts.key(i)),
            verdict: if c.usage.len() == 0 {
                Verdict::DeclaredOnly
            } else {
                Verdict::Active
            },
            table: copied_option(&c.table),
            fields: copied(&c.fields),
            first_seen_ms: c.first_seen_ms,
        };
        assert(x.deep_view() == all[i as int]);
        out.push(x);
        assert(out.deep_view() =~= so_far.push(all[i as int]));
        i += 1;
    }
    assert(all.take(i as int) =~= all);
    out
}

/// The latest snapshot of a concept that is not of a later version than the one
/// asked for.
pub open spec fn snapshot_at(rows: Seq<SnapshotView>, concept: Seq<char>, version: int) -> Option<
    SnapshotView,
>
    decreases rows.len(),
{
    if rows.len() == 0 {
        None
    } else {
        let x = rows.last();
        let best = snapshot_at(rows.drop_last(), concept, version);
        if x.concept != concept || x.version > version {
            best
        } else {
            match best {
                Some(b) => if b.version >= x.version {
                    best
                } else {
                    Some(x)
                },
                None => Some(x),
            }
        }
    }
}

/// What a concept was like at a version: its snapshot there, or the nearest
/// earlier one. It never looks ahead.
pub fn concept_at_version(rows: &Vec<Snapshot>, concept: &str, version: i64) -> (r: Option<Snapshot>)
    ensures
        r.deep_view() == snapshot_at(rows.deep_view(), concept@, version as int),
{
    let ghost rv = rows.deep_view();
    let mut best: Option<usize> = None;
    let mut i: usize = 0;
    while i < rows.len()
        invariant
            i <= rows.len(),
            rv == rows.deep_view(),
            match best {
                Some(b) => b < rows@.len() && snapshot_at(
                    rv.take(i as int),
                    concept@,
                    version as int,
                ) == Some(rows[b as int].deep_view()),
                None => snapshot_at(rv.take(i as int), concept@, version as int) is None,
            },
        decreases rows.len() - i,
    {
        let x = &rows[i];
        proof {
            let step = rv.take(i + 1);
            assert(step.drop_last() =~= rv.take(i as int));
            assert(step.last() == x.deep_view());
        }
        if same(x.concept.as_str(), concept) && x.version <= version {
            best = match best {
                Some(b) => if rows[b].version >= x.version {
                    Some(b)
                } else {
                    Some(i)
                },
                None => Some(i),
            };
        }
        i += 1;
    }
    assert(rv.take(i as int) =~= rv);
    match best {
        Some(b) => Some(rows[b].copy()),
        None => None,
    }
}

/// A replay never looks ahead, and no recorded snapshot lies between the one it
/// gives and the version asked for.
pub proof fn law_replay_never_looks_ahead(
    rows: Seq<SnapshotView>,
    concept: Seq<char>,
    version: int,
)
    ensures
        snapshot_at(rows, concept, version) matches Some(s) ==> s.concept == concept && s.version
            <= version,
        forall|i: int|
            0 <= i < rows.len() && (#[trigger] rows[i]).concept == concept && rows[i].version
                <= version ==> (snapshot_at(rows, concept, version) matches Some(s)
                && s.version >= rows[i].version),
    decreases rows.len(),
{
    if rows.len() > 0 {
        let rest = rows.drop_last();
        law_replay_never_looks_ahead(rest, concept, version);
        assert forall|i: int|
            0 <= i < rows.len() && (#[trigger] rows[i]).concept == concept && rows[i].version
                <= version implies (snapshot_at(rows, concept, version) matches Some(s)
            && s.version >= rows[i].version) by {
            if i < rest.len() {
                assert(rest[i] == rows[i]);
            }
        }
    }
}

} // verus!
