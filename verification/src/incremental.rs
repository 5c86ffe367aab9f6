//! A scan that leans on an earlier one finds what a scan from nothing finds.
use vstd::prelude::*;
use crate::extract::declared;
use crate::model::{ConceptView, FileFactsView, IndexView};
use crate::paths::{below, extension};
use crate::rescan::{
    lemma_all_facts, lemma_assembled_alike, lemma_attached_facts, lemma_merge_lookup,
    lemma_merged_ordered, lemma_merges_same, lemma_same_facts, lemma_tables_equal, paths_differ,
};
use crate::scan::{
    accesses, all_facts, assembled, attached, can_reuse_usage, concept_hits, declaration_list,
    declares_in, each_dated, each_settled, each_signature_line, facts_of, has_kind, hit, hits_of,
    is_unchanged, merge_all, merge_one, merged, merges, prior_concepts, prior_facts, scanned,
    scanned_concepts, signature, text_hits, with_sightings, Access, Attaching, ScannableFileView,
    SettingsView,
};
use crate::scan_laws::lemma_mapped_lookup;
use crate::table::{has_key, lemma_put, lookup, ordered, put};
use crate::text::lowered;

verus! {

/// A concept without the memory of when it was first seen.
pub open spec fn each_undated() -> spec_fn((Seq<char>, ConceptView)) -> (Seq<char>, ConceptView) {
    |e: (Seq<char>, ConceptView)| (e.0, ConceptView { first_seen_ms: 0, ..e.1 })
}

/// What is remembered of a file agrees with its text: the declarations always,
/// the uses where they are going to be used again.
pub open spec fn remembers_rightly(
    root: Seq<char>,
    known: Seq<(Seq<char>, FileFactsView)>,
    concepts: Seq<(Seq<char>, ConceptView)>,
    reuse: bool,
    f: ScannableFileView,
) -> bool {
    is_unchanged(known, f) ==> f.text is Some && {
        let ff = lookup(known, f.rel)->Some_0;
        let t = f.text->Some_0;
        &&& ff.decls == declared(below(root, f.rel), t).decls
        &&& ff.decl_kinds == declared(below(root, f.rel), t).kinds
        &&& reuse && extension(f.rel) != Some("prisma"@) ==> ff.usage == text_hits(
            concepts,
            t,
            lowered(t),
        )
    }
}

/// All that an earlier scan left agrees with the files as they are.
pub open spec fn is_faithful(
    root: Seq<char>,
    files: Seq<ScannableFileView>,
    prior: Option<IndexView>,
    now: int,
) -> bool {
    let concepts = scanned_concepts(root, files, prior, now);
    forall|i: int|
        0 <= i < files.len() ==> remembers_rightly(
            root,
            prior_facts(prior),
            concepts,
            can_reuse_usage(concepts, prior),
            #[trigger] files[i],
        )
}

// ---------------------------------------------------------------------------
// Declarations
// ---------------------------------------------------------------------------

proof fn lemma_same_list(
    root: Seq<char>,
    known: Seq<(Seq<char>, FileFactsView)>,
    other: Seq<(Seq<char>, FileFactsView)>,
    files: Seq<ScannableFileView>,
)
    requires
        forall|i: int|
            0 <= i < files.len() ==> facts_of(root, known, #[trigger] files[i]) == facts_of(
                root,
                other,
                files[i],
            ),
    ensures
        declaration_list(root, known, files) == declaration_list(root, other, files),
    decreases files.len(),
{
    if files.len() > 0 {
        let rest = files.drop_last();
        assert forall|i: int| 0 <= i < rest.len() implies facts_of(root, known, #[trigger] rest[i])
            == facts_of(root, other, rest[i]) by {
            assert(rest[i] == files[i]);
        }
        lemma_same_list(root, known, other, rest);
        assert(files[files.len() - 1] == files.last());
    }
}

// ---------------------------------------------------------------------------
// Merging
// ---------------------------------------------------------------------------

proof fn lemma_merge_undated(
    m: Seq<(Seq<char>, ConceptView)>,
    pairs: Seq<(Seq<char>, Seq<char>)>,
)
    requires
        ordered(m),
    ensures
        merge_all(m.map_values(each_undated()), pairs) == merge_all(m, pairs).map_values(
            each_undated(),
        ),
    decreases pairs.len(),
{
    let u = each_undated();
    lemma_mapped_lookup(m, u);
    if pairs.len() > 0 {
        let rest = pairs.drop_last();
        let dupe = pairs.last().0;
        let target = pairs.last().1;
        lemma_merge_undated(m, rest);
        let a = merge_all(m, rest);
        let b = merge_all(m.map_values(u), rest);
        lemma_merged_ordered(m, rest);
        lemma_mapped_lookup(a, u);
        lemma_merge_lookup(a, dupe, target);
        lemma_merge_lookup(b, dupe, target);
        let a2 = merge_one(a, dupe, target);
        let b2 = merge_one(b, dupe, target);
        lemma_mapped_lookup(a2, u);
        assert forall|k: Seq<char>| #[trigger] lookup(b2, k) == lookup(a2.map_values(u), k) by {
            if lookup(a, dupe) is Some && lookup(a, target) is Some && dupe != target {
                if k == target {
                    let t = lookup(a, target)->Some_0;
                    let d = lookup(a, dupe)->Some_0;
                    assert(u((target, merged(t, d))).1 == merged(u((target, t)).1, u((dupe, d)).1));
                }
            }
        }
        lemma_tables_equal(b2, a2.map_values(u));
    }
}

proof fn lemma_same_signature(
    a: Seq<(Seq<char>, ConceptView)>,
    b: Seq<(Seq<char>, ConceptView)>,
)
    requires
        a.map_values(each_undated()) == b.map_values(each_undated()),
    ensures
        signature(a) == signature(b),
{
    let u = each_undated();
    let x = a.map_values(u);
    let y = b.map_values(u);
    assert(x.len() == y.len());
    assert forall|i: int| 0 <= i < a.len() implies #[trigger] a.map_values(
        each_signature_line(),
    )[i] == b.map_values(each_signature_line())[i] by {
        assert(x[i] == y[i]);
        assert(x[i] == u(a[i]));
        assert(y[i] == u(b[i]));
    }
    assert(a.map_values(each_signature_line()) =~= b.map_values(each_signature_line()));
}

// ---------------------------------------------------------------------------
// Usage
// ---------------------------------------------------------------------------

proof fn lemma_same_hit(
    so_far: Seq<(Seq<char>, Seq<char>)>,
    a: Access,
    name: Seq<char>,
    c: ConceptView,
    d: ConceptView,
    text: Seq<char>,
    lower: Seq<char>,
)
    requires
        c.declared_in == d.declared_in,
        c.table == d.table,
    ensures
        hit(so_far, a, name, c, text, lower) == hit(so_far, a, name, d, text, lower),
{
    reveal(hit);
    assert forall|kind: Seq<char>| #[trigger] has_kind(c, kind) == has_kind(d, kind) by {
        if has_kind(c, kind) {
            let i = choose|i: int|
                0 <= i < c.declared_in.len() && (#[trigger] c.declared_in[i]).1 == kind;
            assert(d.declared_in[i].1 == kind);
        }
        if has_kind(d, kind) {
            let i = choose|i: int|
                0 <= i < d.declared_in.len() && (#[trigger] d.declared_in[i]).1 == kind;
            assert(c.declared_in[i].1 == kind);
        }
    }
    assert(accesses(a, name, c, text, lower) == accesses(a, name, d, text, lower));
}

proof fn lemma_same_concept_hits(
    so_far: Seq<(Seq<char>, Seq<char>)>,
    name: Seq<char>,
    c: ConceptView,
    d: ConceptView,
    text: Seq<char>,
    lower: Seq<char>,
)
    requires
        c.declared_in == d.declared_in,
        c.table == d.table,
    ensures
        concept_hits(so_far, name, c, text, lower) == concept_hits(so_far, name, d, text, lower),
{
    assert forall|h: Seq<(Seq<char>, Seq<char>)>, a: Access| #[trigger]
        hit(h, a, name, c, text, lower) == hit(h, a, name, d, text, lower) by {
        lemma_same_hit(h, a, name, c, d, text, lower);
    }
}

proof fn lemma_same_hits(
    a: Seq<(Seq<char>, ConceptView)>,
    b: Seq<(Seq<char>, ConceptView)>,
    text: Seq<char>,
    lower: Seq<char>,
)
    requires
        a.map_values(each_undated()) == b.map_values(each_undated()),
    ensures
        text_hits(a, text, lower) == text_hits(b, text, lower),
    decreases a.len(),
{
    let u = each_undated();
    let x = a.map_values(u);
    let y = b.map_values(u);
    assert(x.len() == y.len());
    if a.len() > 0 {
        let n = a.len() - 1;
        assert(a.drop_last().map_values(u) =~= x.drop_last());
        assert(b.drop_last().map_values(u) =~= y.drop_last());
        lemma_same_hits(a.drop_last(), b.drop_last(), text, lower);
        assert(x[n] == u(a[n]));
        assert(y[n] == u(b[n]));
        assert(u(a[n]) == u(b[n]));
        lemma_same_concept_hits(
            text_hits(a.drop_last(), text, lower),
            a.last().0,
            a.last().1,
            b.last().1,
            text,
            lower,
        );
    }
}

proof fn lemma_sightings_undated(
    m: Seq<(Seq<char>, ConceptView)>,
    rel: Seq<char>,
    hits: Seq<(Seq<char>, Seq<char>)>,
)
    requires
        ordered(m),
    ensures
        ordered(with_sightings(m, rel, hits)),
        with_sightings(m.map_values(each_undated()), rel, hits) == with_sightings(
            m,
            rel,
            hits,
        ).map_values(each_undated()),
    decreases hits.len(),
{
    let u = each_undated();
    if hits.len() > 0 {
        lemma_sightings_undated(m, rel, hits.drop_last());
        let a = with_sightings(m, rel, hits.drop_last());
        let b = with_sightings(m.map_values(u), rel, hits.drop_last());
        let h = hits.last();
        lemma_mapped_lookup(a, u);
        if let Some(c) = lookup(a, h.0) {
            let d = u((h.0, c)).1;
            assert(lookup(b, h.0) == Some(d));
            assert(declares_in(d, rel) == declares_in(c, rel)) by {
                if declares_in(c, rel) {
                    let i = choose|i: int|
                        0 <= i < c.declared_in.len() && (#[trigger] c.declared_in[i]).0 == rel;
                    assert(d.declared_in[i].0 == rel);
                }
                if declares_in(d, rel) {
                    let i = choose|i: int|
                        0 <= i < d.declared_in.len() && (#[trigger] d.declared_in[i]).0 == rel;
                    assert(c.declared_in[i].0 == rel);
                }
            }
            if !declares_in(c, rel) {
                let x = ConceptView { usage: c.usage.push((rel, h.1)), ..c };
                let y = ConceptView { usage: d.usage.push((rel, h.1)), ..d };
                assert(y == u((h.0, x)).1);
                lemma_put(a, h.0, x);
                lemma_put(b, h.0, y);
                let p = put(a, h.0, x);
                let q = put(b, h.0, y);
                lemma_mapped_lookup(p, u);
                assert forall|k: Seq<char>| #[trigger] lookup(q, k) == lookup(
                    p.map_values(u),
                    k,
                ) by {
                    if k != h.0 {
                        assert(lookup(q, k) == lookup(b, k));
                        assert(lookup(p, k) == lookup(a, k));
                    }
                }
                lemma_tables_equal(q, p.map_values(u));
            }
        }
    }
}

/// The same uses attached to concepts that differ in their first sighting only.
proof fn lemma_attached_alike(
    a: Attaching,
    a_reuse: bool,
    a_known: Seq<(Seq<char>, FileFactsView)>,
    b: Attaching,
    b_reuse: bool,
    b_known: Seq<(Seq<char>, FileFactsView)>,
    files: Seq<ScannableFileView>,
    n: int,
)
    requires
        0 <= n <= files.len(),
        ordered(a.concepts),
        ordered(b.concepts),
        a.concepts.map_values(each_undated()) == b.concepts.map_values(each_undated()),
        a.facts == b.facts,
        forall|i: int|
            0 <= i < files.len() ==> (extension((#[trigger] files[i]).rel) != Some("prisma"@)
                ==> hits_of(a.concepts, a_reuse, a_known, files[i]) == hits_of(
                b.concepts,
                b_reuse,
                b_known,
                files[i],
            )),
    ensures
        ({
            let x = attached(a, a_reuse, a_known, files.take(n));
            let y = attached(b, b_reuse, b_known, files.take(n));
            &&& ordered(x.concepts)
            &&& ordered(y.concepts)
            &&& x.concepts.map_values(each_undated()) == y.concepts.map_values(each_undated())
            &&& x.facts == y.facts
        }),
    decreases n,
{
    if n > 0 {
        let step = files.take(n);
        let f = files[n - 1];
        assert(step.drop_last() =~= files.take(n - 1));
        assert(step.last() == f);
        lemma_attached_alike(a, a_reuse, a_known, b, b_reuse, b_known, files, n - 1);
        if extension(f.rel) != Some("prisma"@) {
            let hits = hits_of(a.concepts, a_reuse, a_known, f);
            assert(hits_of(b.concepts, b_reuse, b_known, files[n - 1]) == hits);
            let x = attached(a, a_reuse, a_known, files.take(n - 1));
            let y = attached(b, b_reuse, b_known, files.take(n - 1));
            lemma_sightings_undated(x.concepts, f.rel, hits);
            lemma_sightings_undated(y.concepts, f.rel, hits);
        }
    } else {
        assert(files.take(0) =~= seq![]);
    }
}

// ---------------------------------------------------------------------------
// The law
// ---------------------------------------------------------------------------

proof fn lemma_concepts_alike(
    root: Seq<char>,
    files: Seq<ScannableFileView>,
    prior: Option<IndexView>,
    now: int,
)
    requires
        forall|i: int|
            0 <= i < files.len() ==> facts_of(root, prior_facts(prior), #[trigger] files[i])
                == facts_of(root, seq![], files[i]),
    ensures
        ordered(scanned_concepts(root, files, prior, now)),
        ordered(scanned_concepts(root, files, None, now)),
        scanned_concepts(root, files, prior, now).map_values(each_undated()) == scanned_concepts(
            root,
            files,
            None,
            now,
        ).map_values(each_undated()),
{
    let u = each_undated();
    lemma_same_facts(root, prior_facts(prior), seq![], files);
    let made = assembled(all_facts(root, seq![], files), now);
    lemma_assembled_alike(all_facts(root, seq![], files), now, now);
    let p = each_dated(prior_concepts(prior), now);
    let q = each_dated(prior_concepts(None), now);
    lemma_mapped_lookup(made, p);
    lemma_mapped_lookup(made, q);
    let d = made.map_values(p);
    let e = made.map_values(q);
    assert forall|i: int| 0 <= i < made.len() implies #[trigger] d.map_values(u)[i]
        == e.map_values(u)[i] by {
        assert(d[i] == p(made[i]));
        assert(e[i] == q(made[i]));
    }
    assert(d.map_values(u) =~= e.map_values(u));
    lemma_merges_same(d, u);
    lemma_merges_same(e, u);
    let pairs = merges(d);
    assert(pairs == merges(e));
    lemma_merge_undated(d, pairs);
    lemma_merge_undated(e, pairs);
    lemma_merged_ordered(d, pairs);
    lemma_merged_ordered(e, pairs);
}

/// A scan that leans on an earlier one finds the concepts, declarations and uses
/// that a scan from nothing finds, and remembers the same of every file, as long
/// as what was remembered of the unchanged files agrees with their texts. Only
/// when a concept was first seen does the earlier scan alone know.
pub proof fn law_remembering_changes_no_answer(
    root: Seq<char>,
    own: SettingsView,
    files: Seq<ScannableFileView>,
    prior: Option<IndexView>,
    now: int,
)
    requires
        is_faithful(root, files, prior, now),
    ensures
        ({
            let warm = scanned(root, own, files, prior, now);
            let cold = scanned(root, own, files, None, now);
            &&& warm.concepts.map_values(each_undated()) == cold.concepts.map_values(
                each_undated(),
            )
            &&& warm.file_facts == cold.file_facts
            &&& warm.concepts_sig == cold.concepts_sig
            &&& warm.declaration_files == cold.declaration_files
        }),
{
    let u = each_undated();
    let known = prior_facts(prior);
    let nothing: Seq<(Seq<char>, FileFactsView)> = seq![];
    let c = scanned_concepts(root, files, prior, now);
    let d = scanned_concepts(root, files, None, now);
    let reuse = can_reuse_usage(c, prior);
    assert(prior_facts(None) == nothing);
    assert forall|i: int| 0 <= i < files.len() implies facts_of(root, known, #[trigger] files[i])
        == facts_of(root, nothing, files[i]) by {
        assert(remembers_rightly(root, known, c, reuse, files[i]));
        assert(lookup(nothing, files[i].rel) is None);
    }
    lemma_same_facts(root, known, nothing, files);
    lemma_same_list(root, known, nothing, files);
    lemma_concepts_alike(root, files, prior, now);
    lemma_same_signature(c, d);
    let a = Attaching { concepts: c, facts: all_facts(root, known, files) };
    let b = Attaching { concepts: d, facts: all_facts(root, nothing, files) };
    assert forall|i: int|
        0 <= i < files.len() && extension((#[trigger] files[i]).rel) != Some(
            "prisma"@,
        ) implies hits_of(c, reuse, known, files[i]) == hits_of(d, false, nothing, files[i]) by {
        assert(remembers_rightly(root, known, c, reuse, files[i]));
        if let Some(t) = files[i].text {
            lemma_same_hits(c, d, t, lowered(t));
        }
    }
    lemma_attached_alike(a, reuse, known, b, false, nothing, files, files.len() as int);
    assert(files.take(files.len() as int) =~= files);
    let x = attached(a, reuse, known, files).concepts;
    let y = attached(b, false, nothing, files).concepts;
    let s = each_settled();
    assert(x.map_values(s).map_values(u) =~= x.map_values(u).map_values(s));
    assert(y.map_values(s).map_values(u) =~= y.map_values(u).map_values(s));
}

/// What a scan remembers of a file is what the file says: its declarations, and
/// its uses of the concepts that the scan found.
pub proof fn law_scans_remember_what_they_read(
    root: Seq<char>,
    own: SettingsView,
    files: Seq<ScannableFileView>,
    prior: Option<IndexView>,
    now: int,
    i: int,
)
    requires
        paths_differ(files),
        is_faithful(root, files, prior, now),
        0 <= i < files.len(),
        files[i].text is Some,
    ensures
        ({
            let one = scanned(root, own, files, prior, now);
            let concepts = scanned_concepts(root, files, prior, now);
            &&& is_unchanged(one.file_facts, files[i])
            &&& remembers_rightly(root, one.file_facts, concepts, true, files[i])
        }),
{
    let known = prior_facts(prior);
    let facts = all_facts(root, known, files);
    let concepts = scanned_concepts(root, files, prior, now);
    let reuse = can_reuse_usage(concepts, prior);
    let start = Attaching { concepts, facts };
    lemma_all_facts(root, known, files);
    assert forall|j: int| 0 <= j < files.len() implies has_key(
        start.facts,
        (#[trigger] files[j]).rel,
    ) by {
        assert(lookup(facts, files[j].rel) is Some);
    }
    lemma_attached_facts(start, reuse, known, files, files.len() as int);
    assert(files.take(files.len() as int) =~= files);
    assert(remembers_rightly(root, known, concepts, reuse, files[i]));
    assert(lookup(facts, files[i].rel) == Some(facts_of(root, known, files[i])));
}

} // verus!
