//! What a history shows, what an archive takes away and what a digest tells.
use vstd::prelude::*;
use crate::answer_laws::{lemma_filter_empty, lemma_filtered_from};
use crate::guard_laws::lemma_join_holds;
use crate::model::{answers_to, ConceptView};
use crate::numbers::signed_value;
use crate::outside::json_tree;
use crate::ownership::seen_so_far;
use crate::query::{lemma_kept_by_filter_map, Verdict};
use crate::store::{
    capped_names, chosen_rows, ci_sentence, concepts_of, digested, each_concept, each_event,
    each_kept, each_moved, each_new_alias, each_rename, each_snapshot, each_wanted, is_archived,
    kind_counts, narrative, sentence, snapshot_at, version_in, version_sentence, EventView, RowView,
    SnapshotView,
};
use crate::table::{lemma_put, lookup, ordered};
use crate::text::{ascii_lower, contains, decimal, join, occurs_at};
use crate::tree::{field, TreeView};

verus! {

// ---------------------------------------------------------------------------
// Reading
// ---------------------------------------------------------------------------

/// A history of a concept shows an event exactly where the event's concept
/// answers to the name or is the name but for its case; one of nothing in
/// particular shows every event. It shows no more than it is asked for, and in
/// the order in which the events stand.
pub proof fn law_histories_show_what_is_asked_for(
    rows: Seq<RowView>,
    want: Seq<char>,
    limit: int,
    i: int,
    p: int,
)
    requires
        limit >= 0,
    ensures
        chosen_rows(rows, Some(want), limit).len() <= limit,
        chosen_rows(rows, None, limit).len() == if rows.len() <= limit {
            rows.len() as int
        } else {
            limit
        },
        0 <= i < rows.len() && i < limit ==> chosen_rows(rows, None, limit)[i] == rows[i],
        0 <= i < rows.len() && rows.len() <= limit && (answers_to(rows[i].concept, want)
            || ascii_lower(rows[i].concept) == ascii_lower(want)) ==> chosen_rows(
            rows,
            Some(want),
            limit,
        ).contains(rows[i]),
        0 <= p < chosen_rows(rows, Some(want), limit).len() ==> {
            let r = chosen_rows(rows, Some(want), limit)[p];
            rows.contains(r) && (answers_to(r.concept, want) || ascii_lower(r.concept)
                == ascii_lower(want))
        },
{
    let f = each_wanted(Some(want));
    let all = rows.filter_map(f);
    lemma_all_pass(rows, each_wanted(None));
    lemma_no_longer(rows, f);
    if 0 <= i < rows.len() && rows.len() <= limit && f(rows[i]) is Some {
        lemma_kept_by_filter_map(rows, f, i);
    }
    if 0 <= p < chosen_rows(rows, Some(want), limit).len() {
        let k = lemma_filtered_from(rows, f, p);
        assert(chosen_rows(rows, Some(want), limit)[p] == all[p]);
        assert(rows[k] == all[p]);
    }
}

proof fn lemma_all_pass(rows: Seq<RowView>, f: spec_fn(RowView) -> Option<RowView>)
    requires
        forall|r: RowView| #[trigger] f(r) == Some(r),
    ensures
        rows.filter_map(f) == rows,
    decreases rows.len(),
{
    if rows.len() > 0 {
        let n = rows.len() - 1;
        lemma_all_pass(rows.take(n), f);
        rows.lemma_filter_map_take_succ(f, n);
        assert(rows.take(n + 1) =~= rows);
        assert(rows.take(n) + seq![rows[n]] =~= rows);
    } else {
        reveal(Seq::filter_map);
        assert(rows.filter_map(f) =~= rows);
    }
}

proof fn lemma_no_longer<A, B>(s: Seq<A>, f: spec_fn(A) -> Option<B>)
    ensures
        s.filter_map(f).len() <= s.len(),
    decreases s.len(),
{
    if s.len() > 0 {
        let n = s.len() - 1;
        lemma_no_longer(s.take(n), f);
        s.lemma_filter_map_take_succ(f, n);
        assert(s.take(n + 1) =~= s);
    } else {
        reveal(Seq::filter_map);
    }
}

/// An event says what its row holds; details that are no JSON are kept as text.
pub proof fn law_events_say_what_was_stored(r: RowView, archived: bool)
    ensures
        ({
            let e = each_event(archived)(r);
            &&& e.ts_ms == r.ts_ms && e.kind == r.kind && e.concept == r.concept
            &&& e.archived == archived
            &&& json_tree(r.detail) is None ==> e.detail == TreeView::Text(r.detail)
            &&& json_tree(r.detail) matches Some(t) ==> e.detail == t
        }),
{
}

// ---------------------------------------------------------------------------
// Archiving
// ---------------------------------------------------------------------------

/// What is older than the cutoff goes to the archive, unless it tells of a
/// decision or an alias; everything else stays, and nothing is in both places.
pub proof fn law_what_goes_to_the_archive(live: Seq<RowView>, cutoff_ms: int, i: int)
    requires
        0 <= i < live.len(),
    ensures
        ({
            let told = seq![
                "decision_added"@,
                "decision_removed"@,
                "alias_introduced"@,
                "alias_removed"@,
                "stale_alias"@,
            ].contains(live[i].kind);
            let kept = live.filter_map(each_kept(cutoff_ms));
            let moved = live.filter_map(each_moved(cutoff_ms));
            &&& live[i].ts_ms < cutoff_ms && !told ==> moved.contains(live[i]) && !kept.contains(
                live[i],
            )
            &&& live[i].ts_ms >= cutoff_ms || told ==> kept.contains(live[i]) && !moved.contains(
                live[i],
            )
        }),
{
    let told = seq![
        "decision_added"@,
        "decision_removed"@,
        "alias_introduced"@,
        "alias_removed"@,
        "stale_alias"@,
    ];
    assert(told[0] == "decision_added"@ && told[1] == "decision_removed"@ && told[2]
        == "alias_introduced"@ && told[3] == "alias_removed"@ && told[4] == "stale_alias"@);
    let f = each_kept(cutoff_ms);
    let g = each_moved(cutoff_ms);
    let kept = live.filter_map(f);
    let moved = live.filter_map(g);
    if is_archived(live[i], cutoff_ms) {
        lemma_kept_by_filter_map(live, g, i);
        if kept.contains(live[i]) {
            let p = choose|p: int| 0 <= p < kept.len() && kept[p] == live[i];
            let k = lemma_filtered_from(live, f, p);
        }
    } else {
        lemma_kept_by_filter_map(live, f, i);
        if moved.contains(live[i]) {
            let p = choose|p: int| 0 <= p < moved.len() && moved[p] == live[i];
            let k = lemma_filtered_from(live, g, p);
        }
    }
}

// ---------------------------------------------------------------------------
// Digests
// ---------------------------------------------------------------------------

proof fn lemma_kind_counts(events: Seq<EventView>)
    ensures
        ordered(kind_counts(events)),
    decreases events.len(),
{
    if events.len() > 0 {
        let m = kind_counts(events.drop_last());
        lemma_kind_counts(events.drop_last());
        lemma_put(m, events.last().kind, seen_so_far(m, events.last().kind) + 1);
    }
}

/// A digest counts every event once, under its kind, and reaches from the last
/// event to the first; of no events there is none.
pub proof fn law_digests_count_every_event(events: Seq<EventView>, e: EventView, kind: Seq<char>)
    ensures
        digested(seq![]) is None,
        digested(events.push(e)) matches Some(d) && d.event_count == events.len() + 1 && d.oldest_ms
            == e.ts_ms && d.newest_ms == events.push(e)[0].ts_ms,
        ({
            let before = lookup(kind_counts(events), kind);
            let after = lookup(kind_counts(events.push(e)), kind);
            &&& e.kind != kind ==> after == before
            &&& e.kind == kind && before is None ==> after == Some(1nat)
            &&& e.kind == kind ==> (before matches Some(n) ==> after == Some((n + 1) as nat))
        }),
        lookup(kind_counts(seq![]), kind) is None,
        digested(events.push(e))->0.by_kind_count == kind_counts(events.push(e)),
{
    assert(events.push(e).drop_last() =~= events);
    lemma_kind_counts(events);
    let m = kind_counts(events);
    lemma_put(m, e.kind, seen_so_far(m, e.kind) + 1);
    let none: Seq<EventView> = seq![];
    assert(kind_counts(none).len() == 0);
}

proof fn lemma_within(a: Seq<char>, b: Seq<char>, c: Seq<char>)
    ensures
        contains(a + b + c, b),
{
    let whole = a + b + c;
    assert(whole.subrange(a.len() as int, (a.len() + b.len()) as int) =~= b);
    assert(occurs_at(whole, b, a.len() as int));
}

proof fn lemma_contains_within(a: Seq<char>, b: Seq<char>, c: Seq<char>, x: Seq<char>)
    requires
        contains(b, x),
    ensures
        contains(a + b + c, x),
{
    let whole = a + b + c;
    let i = choose|i: int| occurs_at(b, x, i);
    assert(whole.subrange(a.len() + i, a.len() + i + x.len()) =~= b.subrange(i, i + x.len()));
    assert(occurs_at(whole, x, a.len() + i));
}

/// A sentence says how many things it is about and names the first ten of them;
/// of nothing it says nothing.
pub proof fn law_sentences_count_and_name(
    names: Seq<Seq<char>>,
    thing: Seq<char>,
    what: Seq<char>,
    i: int,
)
    ensures
        names.len() == 0 ==> sentence(names, thing, what).len() == 0,
        names.len() > 0 ==> sentence(names, thing, what).len() == 1 && decimal(
            names.len(),
        ).is_prefix_of(sentence(names, thing, what)[0]) && contains(
            sentence(names, thing, what)[0],
            what,
        ),
        0 <= i < names.len() && i < 10 ==> contains(sentence(names, thing, what)[0], names[i]),
        names.len() > 10 ==> contains(
            sentence(names, thing, what)[0],
            " (+"@ + decimal((names.len() - 10) as nat) + " more)"@,
        ),
{
    if names.len() > 0 {
        let n = names.len();
        let s = sentence(names, thing, what)[0];
        let count = decimal(n);
        let plural = crate::store::plural(n);
        let listed = capped_names(names, 10);
        assert(s =~= count + (thing + plural + what + listed + "."@));
        assert(s.subrange(0, count.len() as int) =~= count);
        assert(s =~= (count + thing + plural) + what + (listed + "."@));
        lemma_within(count + thing + plural, what, listed + "."@);
        let front = count + thing + plural + what;
        if 0 <= i < n && i < 10 {
            let named = if n <= 10 {
                names
            } else {
                names.take(10)
            };
            assert(named[i] == names[i]);
            lemma_join_holds(named, ", "@, i);
            let tail = if n <= 10 {
                "."@
            } else {
                " (+"@ + decimal((n - 10) as nat) + " more)"@ + "."@
            };
            assert(s =~= front + join(named, ", "@) + tail);
            lemma_contains_within(front, join(named, ", "@), tail, names[i]);
        }
        if n > 10 {
            let more = " (+"@ + decimal((n - 10) as nat) + " more)"@;
            assert(s =~= (front + join(names.take(10), ", "@)) + more + "."@);
            lemma_within(front + join(names.take(10), ", "@), more, "."@);
        }
    }
}

/// What a narrative says of a kind of event.
pub open spec fn phrase_for(kind: Seq<char>) -> Option<Seq<char>> {
    if kind == "concept_appeared"@ {
        Some(" appeared: "@)
    } else if kind == "concept_renamed"@ {
        Some(" renamed: "@)
    } else if kind == "duplicate_concept_risk"@ {
        Some(" flagged: "@)
    } else if kind == "concept_lost_storage"@ {
        Some(" lost all storage declarations: "@)
    } else if kind == "alias_introduced"@ {
        Some(" introduced: "@)
    } else if kind == "alias_removed"@ {
        Some(" removed: "@)
    } else if kind == "decision_added"@ {
        Some(" recorded: "@)
    } else if kind == "decision_removed"@ {
        Some(" deleted (rationale lost, not just the record): "@)
    } else if kind == "stale_alias"@ {
        Some(" point at a concept that no longer exists: "@)
    } else {
        None
    }
}

proof fn lemma_among(front: Seq<Seq<char>>, own: Seq<Seq<char>>, x: Seq<char>)
    ensures
        front.contains(x) || own.contains(x) ==> (front + own).contains(x),
{
    if front.contains(x) {
        let i = choose|i: int| 0 <= i < front.len() && front[i] == x;
        assert((front + own)[i] == x);
    }
    if own.contains(x) {
        let i = choose|i: int| 0 <= i < own.len() && own[i] == x;
        assert((front + own)[front.len() + i] == x);
    }
}

/// The sentence of a narrative on the events of a kind.
spec fn sentence_on(events: Seq<EventView>, kind: Seq<char>) -> Seq<Seq<char>> {
    if kind == "concept_appeared"@ {
        sentence(concepts_of(events, kind), " new concept"@, " appeared: "@)
    } else if kind == "concept_renamed"@ {
        sentence(events.filter_map(each_rename()), " concept"@, " renamed: "@)
    } else if kind == "duplicate_concept_risk"@ {
        sentence(concepts_of(events, kind), " duplicate-concept risk"@, " flagged: "@)
    } else if kind == "concept_lost_storage"@ {
        sentence(concepts_of(events, kind), " concept"@, " lost all storage declarations: "@)
    } else if kind == "alias_introduced"@ {
        sentence(events.filter_map(each_new_alias()), " alias"@, " introduced: "@)
    } else if kind == "alias_removed"@ {
        sentence(concepts_of(events, kind), " alias"@, " removed: "@)
    } else if kind == "decision_added"@ {
        sentence(concepts_of(events, kind), " decision"@, " recorded: "@)
    } else if kind == "decision_removed"@ {
        sentence(
            concepts_of(events, kind),
            " decision"@,
            " deleted (rationale lost, not just the record): "@,
        )
    } else {
        sentence(
            concepts_of(events, kind),
            " alias"@,
            " point at a concept that no longer exists: "@,
        )
    }
}

proof fn lemma_told(events: Seq<EventView>, kind: Seq<char>, x: Seq<char>)
    requires
        phrase_for(kind) is Some,
        sentence_on(events, kind).contains(x),
    ensures
        narrative(events).contains(x),
{
    let a = ci_sentence(
        concepts_of(events, "ci_passed"@).len(),
        concepts_of(events, "ci_blocked"@).len(),
    );
    let b = sentence(concepts_of(events, "concept_appeared"@), " new concept"@, " appeared: "@);
    let c = sentence(events.filter_map(each_rename()), " concept"@, " renamed: "@);
    let d = sentence(
        concepts_of(events, "duplicate_concept_risk"@),
        " duplicate-concept risk"@,
        " flagged: "@,
    );
    let e = sentence(
        concepts_of(events, "concept_lost_storage"@),
        " concept"@,
        " lost all storage declarations: "@,
    );
    let f = sentence(events.filter_map(each_new_alias()), " alias"@, " introduced: "@);
    let g = sentence(concepts_of(events, "alias_removed"@), " alias"@, " removed: "@);
    let h = sentence(concepts_of(events, "decision_added"@), " decision"@, " recorded: "@);
    let j = sentence(
        concepts_of(events, "decision_removed"@),
        " decision"@,
        " deleted (rationale lost, not just the record): "@,
    );
    let k = sentence(
        concepts_of(events, "stale_alias"@),
        " alias"@,
        " point at a concept that no longer exists: "@,
    );
    let l = version_sentence(concepts_of(events, "architecture_version"@));
    lemma_among(a, b, x);
    lemma_among(a + b, c, x);
    lemma_among(a + b + c, d, x);
    lemma_among(a + b + c + d, e, x);
    lemma_among(a + b + c + d + e, f, x);
    lemma_among(a + b + c + d + e + f, g, x);
    lemma_among(a + b + c + d + e + f + g, h, x);
    lemma_among(a + b + c + d + e + f + g + h, j, x);
    lemma_among(a + b + c + d + e + f + g + h + j, k, x);
    lemma_among(a + b + c + d + e + f + g + h + j + k, l, x);
}

/// Every event that tells of the declared world has a sentence in the narrative
/// that says what happened.
pub proof fn law_narratives_leave_nothing_out(events: Seq<EventView>, i: int)
    requires
        0 <= i < events.len(),
        phrase_for(events[i].kind) is Some,
    ensures
        exists|q: int|
            0 <= q < narrative(events).len() && contains(
                #[trigger] narrative(events)[q],
                phrase_for(events[i].kind)->0,
            ),
{
    let kind = events[i].kind;
    let names = if kind == "concept_renamed"@ {
        lemma_kept_by_filter_map(events, each_rename(), i);
        events.filter_map(each_rename())
    } else if kind == "alias_introduced"@ {
        lemma_kept_by_filter_map(events, each_new_alias(), i);
        events.filter_map(each_new_alias())
    } else {
        lemma_kept_by_filter_map(events, each_concept(kind), i);
        concepts_of(events, kind)
    };
    assert(names.len() > 0);
    let thing = if kind == "concept_appeared"@ {
        " new concept"@
    } else if kind == "duplicate_concept_risk"@ {
        " duplicate-concept risk"@
    } else if kind == "concept_renamed"@ || kind == "concept_lost_storage"@ {
        " concept"@
    } else if kind == "decision_added"@ || kind == "decision_removed"@ {
        " decision"@
    } else {
        " alias"@
    };
    let what = phrase_for(kind)->0;
    law_sentences_count_and_name(names, thing, what, 0);
    assert(sentence_on(events, kind) == sentence(names, thing, what)) by {
        lemma_kinds_differ();
    }
    let x = sentence(names, thing, what)[0];
    assert(sentence_on(events, kind).contains(x));
    lemma_told(events, kind, x);
    let q = choose|q: int| 0 <= q < narrative(events).len() && narrative(events)[q] == x;
    assert(contains(narrative(events)[q], what));
}

proof fn lemma_kinds_differ()
    ensures
        "concept_renamed"@.len() == 15,
        "alias_introduced"@.len() == 16 && "alias_introduced"@[0] == 'a',
        "concept_appeared"@.len() == 16 && "concept_appeared"@[0] == 'c',
        "duplicate_concept_risk"@.len() == 22,
        "concept_lost_storage"@.len() == 20,
        "alias_removed"@.len() == 13,
        "decision_added"@.len() == 14,
        "decision_removed"@.len() == 16 && "decision_removed"@[0] == 'd',
        "stale_alias"@.len() == 11,
{
    reveal_strlit("concept_renamed");
    reveal_strlit("alias_introduced");
    reveal_strlit("concept_appeared");
    reveal_strlit("duplicate_concept_risk");
    reveal_strlit("concept_lost_storage");
    reveal_strlit("alias_removed");
    reveal_strlit("decision_added");
    reveal_strlit("decision_removed");
    reveal_strlit("stale_alias");
}

/// Events that tell of nothing but of themselves have no sentence.
pub proof fn law_narratives_invent_nothing(events: Seq<EventView>)
    requires
        forall|i: int|
            0 <= i < events.len() ==> phrase_for((#[trigger] events[i]).kind) is None && events[i].kind
                != "ci_passed"@ && events[i].kind != "ci_blocked"@ && events[i].kind
                != "architecture_version"@,
    ensures
        narrative(events).len() == 0,
{
    lemma_filter_empty(events, each_concept("ci_passed"@));
    lemma_filter_empty(events, each_concept("ci_blocked"@));
    lemma_filter_empty(events, each_concept("concept_appeared"@));
    lemma_filter_empty(events, each_rename());
    lemma_filter_empty(events, each_concept("duplicate_concept_risk"@));
    lemma_filter_empty(events, each_concept("concept_lost_storage"@));
    lemma_filter_empty(events, each_new_alias());
    lemma_filter_empty(events, each_concept("alias_removed"@));
    lemma_filter_empty(events, each_concept("decision_added"@));
    lemma_filter_empty(events, each_concept("decision_removed"@));
    lemma_filter_empty(events, each_concept("stale_alias"@));
    lemma_filter_empty(events, each_concept("architecture_version"@));
}

/// Runs that passed and runs that were blocked are told apart and told together.
pub proof fn law_runs_are_counted(passed: nat, blocked: nat)
    ensures
        passed + blocked == 0 ==> ci_sentence(passed, blocked).len() == 0,
        passed + blocked > 0 ==> ci_sentence(passed, blocked).len() == 1 && (decimal(passed)
            + " passed, "@ + decimal(blocked) + " blocked."@).is_suffix_of(
            ci_sentence(passed, blocked)[0],
        ) && ("CI ran "@ + decimal(passed + blocked)).is_prefix_of(ci_sentence(passed, blocked)[0]),
{
    if passed + blocked > 0 {
        let s = ci_sentence(passed, blocked)[0];
        let tail = decimal(passed) + " passed, "@ + decimal(blocked) + " blocked."@;
        let head = "CI ran "@ + decimal(passed + blocked);
        let middle = " time"@ + crate::store::plural(passed + blocked) + ": "@;
        assert(s =~= head + (middle + tail));
        assert(s.subrange(0, head.len() as int) =~= head);
        assert(s.subrange(s.len() - tail.len(), s.len() as int) =~= tail);
    }
}

/// The version that a narrative tells of is the newest that the events name.
pub proof fn law_the_newest_version_is_told(versions: Seq<Seq<char>>)
    ensures
        versions.len() == 0 ==> version_sentence(versions).len() == 0,
        versions.len() > 0 ==> version_sentence(versions).len() == 1 && contains(
            version_sentence(versions)[0],
            versions[0],
        ),
{
    if versions.len() > 0 {
        lemma_within("Architecture version reached "@, versions[0], "."@);
    }
}

// ---------------------------------------------------------------------------
// Versions
// ---------------------------------------------------------------------------

/// A record that is missing or is no number stands for the version before the
/// first.
pub proof fn law_missing_versions_are_nought(record: Option<Seq<char>>)
    ensures
        record is None ==> version_in(record) == 0,
        record matches Some(s) ==> (signed_value(s) is None ==> version_in(record) == 0) && (
        signed_value(s) matches Some(n) ==> version_in(record) == n),
{
}

/// A snapshot keeps of a concept what a replay shows: whether it was used, where
/// it was stored and what it held.
pub proof fn law_snapshots_keep_what_a_concept_was(
    name: Seq<char>,
    c: ConceptView,
    version: int,
    ts_ms: int,
)
    ensures
        ({
            let s = each_snapshot(version, ts_ms)((name, c));
            &&& s.version == version && s.ts_ms == ts_ms && s.concept == name
            &&& s.verdict == Verdict::Active <==> c.usage.len() > 0
            &&& s.verdict == Verdict::DeclaredOnly <==> c.usage.len() == 0
            &&& s.table == c.table && s.fields == c.fields && s.first_seen_ms == c.first_seen_ms
        }),
{
}

/// A replay gives a snapshot that was taken, and the first of those of one
/// version.
pub proof fn law_replays_invent_nothing(rows: Seq<SnapshotView>, concept: Seq<char>, version: int)
    ensures
        snapshot_at(rows, concept, version) matches Some(s) ==> rows.contains(s) && s.concept
            == concept && s.version <= version,
        snapshot_at(rows, concept, version) is None <==> forall|i: int|
            0 <= i < rows.len() ==> (#[trigger] rows[i]).concept != concept || rows[i].version
                > version,
    decreases rows.len(),
{
    if rows.len() > 0 {
        let rest = rows.drop_last();
        let x = rows.last();
        law_replays_invent_nothing(rest, concept, version);
        assert(rows[rows.len() - 1] == x);
        if let Some(s) = snapshot_at(rest, concept, version) {
            let i = choose|i: int| 0 <= i < rest.len() && rest[i] == s;
            assert(rows[i] == s);
        } else {
            assert forall|i: int| 0 <= i < rest.len() implies (#[trigger] rows[i]).concept != concept
                || rows[i].version > version by {
                assert(rest[i] == rows[i]);
            }
        }
    }
}

/// What a name of a rename or of an alias is told as: the names that its details
/// give, and a question mark for one that they do not.
pub proof fn law_renames_are_told_by_their_names(e: EventView, a: Seq<char>, b: Seq<char>)
    ensures
        each_rename()(e) is Some <==> e.kind == "concept_renamed"@,
        e.kind == "concept_renamed"@ && field(e.detail, "from"@) == Some(TreeView::Text(a)) && field(
            e.detail,
            "to"@,
        ) == Some(TreeView::Text(b)) ==> each_rename()(e) == Some(a + " → "@ + b),
        each_new_alias()(e) is Some <==> e.kind == "alias_introduced"@,
        e.kind == "alias_introduced"@ && field(e.detail, "target"@) == Some(TreeView::Text(b))
            ==> each_new_alias()(e) == Some(e.concept + " → "@ + b),
        e.kind == "alias_introduced"@ && field(e.detail, "target"@) is None ==> each_new_alias()(e)
            == Some(e.concept + " → "@ + "?"@),
{
}

} // verus!
