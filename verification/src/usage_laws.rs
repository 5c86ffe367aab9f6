//! What a scan makes of declarations, tables and uses.
use vstd::prelude::*;
use vstd::utf8::encode_utf8;
use crate::answer_laws::lemma_filtered_from;
use crate::determinism::{adds_use, lemma_attached_members};
use crate::extract::declared;
use crate::model::{ConceptView, DeclFragmentView, FileFactsView, IndexView};
use crate::outside::{escaped, found, toml_tree};
use crate::paths::{below, extension};
use crate::query::lemma_kept_by_filter_map;
use crate::rescan::{lemma_assembled_alike, lemma_merged_ordered};
use crate::scan::{
    absorb, access_kind, accesses, alias_table, all_facts, assembled, attached, can_reuse_usage,
    concept_hits, dated, declaration_list, declares_in, each_dated, each_merge, each_settled,
    facts_of, hit, hits_of, is_skipped_dir, is_within, merge_all, merge_one, merged, merges,
    new_concept, prior_concepts, prior_facts, scanned, scanned_concepts, settings, table_owner,
    text_hits, uncapitalized, Access, Attaching, ScannableFileView, SettingsView,
};
use crate::scan_laws::{
    all_concepts, is_unused, lemma_assembled, lemma_mapped_all, lemma_mapped_lookup,
    lemma_merge_all, lemma_without_lookup,
};
use crate::table::{has_key, lemma_lookup_at, lemma_pair_set, lemma_put, lookup, ordered, without};
use crate::text::{ascii_lower, contains, lower_char, lowered, trim_end_of, CharClass};
use crate::tree::{field, text, text_field, texts, TreeView};

verus! {

// ---------------------------------------------------------------------------
// Uses
// ---------------------------------------------------------------------------

proof fn lemma_hit(
    so_far: Seq<(Seq<char>, Seq<char>)>,
    a: Access,
    name: Seq<char>,
    c: ConceptView,
    text: Seq<char>,
    lower: Seq<char>,
    pair: (Seq<char>, Seq<char>),
)
    ensures
        hit(so_far, a, name, c, text, lower).contains(pair) <==> so_far.contains(pair) || (accesses(
            a,
            name,
            c,
            text,
            lower,
        ) && pair == (name, access_kind(a))),
{
    reveal(hit);
    let r = hit(so_far, a, name, c, text, lower);
    if accesses(a, name, c, text, lower) {
        if so_far.contains(pair) {
            let i = choose|i: int| 0 <= i < so_far.len() && so_far[i] == pair;
            assert(r[i] == pair);
        }
        if pair == (name, access_kind(a)) {
            assert(r[so_far.len() as int] == pair);
        }
        if r.contains(pair) {
            let i = choose|i: int| 0 <= i < r.len() && r[i] == pair;
            if i < so_far.len() {
                assert(so_far[i] == pair);
            }
        }
    }
}

/// A text touches a concept in a way that has this name.
pub open spec fn touches(name: Seq<char>, c: ConceptView, text: Seq<char>, kind: Seq<char>) -> bool {
    exists|a: Access| #[trigger]
        accesses(a, name, c, text, lowered(text)) && access_kind(a) == kind
}

proof fn lemma_concept_hits(
    so_far: Seq<(Seq<char>, Seq<char>)>,
    name: Seq<char>,
    c: ConceptView,
    text: Seq<char>,
    pair: (Seq<char>, Seq<char>),
)
    ensures
        concept_hits(so_far, name, c, text, lowered(text)).contains(pair) <==> so_far.contains(pair)
            || (pair.0 == name && touches(name, c, text, pair.1)),
{
    let l = lowered(text);
    let h1 = hit(so_far, Access::OrmClient, name, c, text, l);
    let h2 = hit(h1, Access::DjangoOrm, name, c, text, l);
    let h3 = hit(h2, Access::Constructed, name, c, text, l);
    let h4 = hit(h3, Access::MongooseStatic, name, c, text, l);
    let h5 = hit(h4, Access::RailsStatic, name, c, text, l);
    let h6 = hit(h5, Access::EloquentStatic, name, c, text, l);
    let h7 = hit(h6, Access::GormLiteral, name, c, text, l);
    let h8 = hit(h7, Access::DrizzleQuery, name, c, text, l);
    let h9 = hit(h8, Access::TypeormRepository, name, c, text, l);
    lemma_hit(so_far, Access::OrmClient, name, c, text, l, pair);
    lemma_hit(h1, Access::DjangoOrm, name, c, text, l, pair);
    lemma_hit(h2, Access::Constructed, name, c, text, l, pair);
    lemma_hit(h3, Access::MongooseStatic, name, c, text, l, pair);
    lemma_hit(h4, Access::RailsStatic, name, c, text, l, pair);
    lemma_hit(h5, Access::EloquentStatic, name, c, text, l, pair);
    lemma_hit(h6, Access::GormLiteral, name, c, text, l, pair);
    lemma_hit(h7, Access::DrizzleQuery, name, c, text, l, pair);
    lemma_hit(h8, Access::TypeormRepository, name, c, text, l, pair);
    lemma_hit(h9, Access::RawSql, name, c, text, l, pair);
}

proof fn lemma_text_hits(
    m: Seq<(Seq<char>, ConceptView)>,
    text: Seq<char>,
    pair: (Seq<char>, Seq<char>),
)
    ensures
        text_hits(m, text, lowered(text)).contains(pair) <==> exists|i: int|
            0 <= i < m.len() && (#[trigger] m[i]).0 == pair.0 && touches(
                pair.0,
                m[i].1,
                text,
                pair.1,
            ),
    decreases m.len(),
{
    if m.len() > 0 {
        let front = m.drop_last();
        lemma_text_hits(front, text, pair);
        lemma_concept_hits(
            text_hits(front, text, lowered(text)),
            m.last().0,
            m.last().1,
            text,
            pair,
        );
        if exists|i: int|
            0 <= i < front.len() && (#[trigger] front[i]).0 == pair.0 && touches(
                pair.0,
                front[i].1,
                text,
                pair.1,
            ) {
            let i = choose|i: int|
                0 <= i < front.len() && (#[trigger] front[i]).0 == pair.0 && touches(
                    pair.0,
                    front[i].1,
                    text,
                    pair.1,
                );
            assert(m[i] == front[i]);
        }
        if exists|i: int|
            0 <= i < m.len() && (#[trigger] m[i]).0 == pair.0 && touches(
                pair.0,
                m[i].1,
                text,
                pair.1,
            ) {
            let i = choose|i: int|
                0 <= i < m.len() && (#[trigger] m[i]).0 == pair.0 && touches(
                    pair.0,
                    m[i].1,
                    text,
                    pair.1,
                );
            if i < front.len() {
                assert(front[i] == m[i]);
            }
        }
        if m.last().0 == pair.0 && touches(pair.0, m.last().1, text, pair.1) {
            assert(m[m.len() - 1].0 == pair.0);
        }
    }
}

proof fn lemma_scanned_ordered(
    root: Seq<char>,
    files: Seq<ScannableFileView>,
    prior: Option<IndexView>,
    now: int,
)
    ensures
        ordered(scanned_concepts(root, files, prior, now)),
        all_concepts(scanned_concepts(root, files, prior, now), is_unused()),
{
    let facts = all_facts(root, prior_facts(prior), files);
    let made = assembled(facts, now);
    let old = prior_concepts(prior);
    let p = is_unused();
    lemma_assembled_alike(facts, now, now);
    lemma_assembled(facts, p, now);
    lemma_mapped_all(made, each_dated(old, now), p, p);
    lemma_mapped_lookup(made, each_dated(old, now));
    let with_dates = made.map_values(each_dated(old, now));
    lemma_merged_ordered(with_dates, merges(with_dates));
    lemma_merge_all(with_dates, p, merges(with_dates));
}

/// A first scan counts a file as a user of a concept exactly where its text
/// touches the concept in some way, the file does not declare it, and it is no
/// schema. Concepts come out of this as they went in, but for their uses.
pub proof fn law_uses_are_what_texts_touch(
    root: Seq<char>,
    own: SettingsView,
    files: Seq<ScannableFileView>,
    now: int,
    name: Seq<char>,
    rel: Seq<char>,
    kind: Seq<char>,
)
    ensures
        ({
            let r = scanned(root, own, files, None, now);
            let before_use = scanned_concepts(root, files, None, now);
            match (lookup(before_use, name), lookup(r.concepts, name)) {
                (Some(c), Some(x)) => {
                    &&& x == (ConceptView { usage: x.usage, ..c })
                    &&& x.usage.contains((rel, kind)) <==> exists|i: int|
                        0 <= i < files.len() && (#[trigger] files[i]).rel == rel && extension(rel)
                            != Some("prisma"@) && !declares_in(c, rel) && (files[i].text matches Some(
                            t,
                        ) && touches(name, c, t, kind))
                },
                (None, None) => true,
                _ => false,
            }
        }),
{
    let concepts = scanned_concepts(root, files, None, now);
    let known = prior_facts(None);
    let facts = all_facts(root, known, files);
    let start = Attaching { concepts, facts };
    let reuse = can_reuse_usage(concepts, None);
    lemma_scanned_ordered(root, files, None, now);
    lemma_attached_members(start, reuse, known, files, name, (rel, kind));
    let mid = attached(start, reuse, known, files).concepts;
    lemma_mapped_lookup(mid, each_settled());
    let r = scanned(root, own, files, None, now);
    if let Some(c) = lookup(concepts, name) {
        assert(is_unused()(name, c));
        let y = lookup(mid, name)->Some_0;
        lemma_pair_set(y.usage);
        let pair = (rel, kind);
        assert(!c.usage.contains(pair));
        assert forall|i: int| 0 <= i < files.len() implies (adds_use(
            start,
            reuse,
            known,
            #[trigger] files[i],
            name,
            c,
            pair,
        ) <==> files[i].rel == rel && extension(rel) != Some("prisma"@) && !declares_in(c, rel) && (
        files[i].text matches Some(t) && touches(name, c, t, kind))) by {
            if let Some(t) = files[i].text {
                lemma_text_hits(concepts, t, (name, kind));
                if hits_of(concepts, reuse, known, files[i]).contains((name, kind)) {
                    let n = choose|n: int|
                        0 <= n < concepts.len() && (#[trigger] concepts[n]).0 == name && touches(
                            name,
                            concepts[n].1,
                            t,
                            kind,
                        );
                    lemma_lookup_at(concepts, n);
                }
                if touches(name, c, t, kind) {
                    assert(has_key(concepts, name));
                    let n = choose|n: int| 0 <= n < concepts.len() && #[trigger] concepts[n].0 == name;
                    lemma_lookup_at(concepts, n);
                    assert(concepts[n].0 == name);
                }
            }
        }
    }
}

/// The ways in which a text touches a concept. Those of one dialect count only for
/// a concept that is declared in it; a name is taken for a constructor only where
/// it has five bytes or more; and raw SQL touches a concept only by the table that
/// it states.
pub proof fn law_ways_of_touching(
    name: Seq<char>,
    c: ConceptView,
    text: Seq<char>,
    lower: Seq<char>,
)
    ensures
        accesses(Access::DjangoOrm, name, c, text, lower) <==> contains(text, name + ".objects."@),
        accesses(Access::OrmClient, name, c, text, lower) ==> contains(
            text,
            "."@ + uncapitalized(name) + "."@,
        ),
        accesses(Access::Constructed, name, c, text, lower) <==> encode_utf8(name).len() >= 5
            && contains(text, name + "("@) && found(r"\b"@ + escaped(name) + r"\("@, text).len() > 0,
        accesses(Access::MongooseStatic, name, c, text, lower) ==> is_declared_as(c, "mongoose"@)
            && contains(text, name),
        accesses(Access::RailsStatic, name, c, text, lower) ==> is_declared_as(c, "rails"@)
            && contains(text, name),
        accesses(Access::EloquentStatic, name, c, text, lower) <==> is_declared_as(c, "eloquent"@)
            && contains(text, name) && found(r"\b"@ + escaped(name) + r"::"@, text).len() > 0,
        accesses(Access::GormLiteral, name, c, text, lower) <==> is_declared_as(c, "gorm"@)
            && contains(text, name) && found(r"\b"@ + escaped(name) + r"\{"@, text).len() > 0,
        accesses(Access::DrizzleQuery, name, c, text, lower) <==> is_declared_as(c, "drizzle"@)
            && contains(text, name) && found(
            r"(?:from|insert|update|delete)\(\s*"@ + escaped(name) + r"\s*[,)]"@,
            text,
        ).len() > 0,
        accesses(Access::TypeormRepository, name, c, text, lower) ==> is_declared_as(c, "typeorm"@)
            && contains(text, name),
        accesses(Access::RawSql, name, c, text, lower) ==> (c.table matches Some(t) && contains(
            lower,
            lowered(t),
        )),
        c.table matches Some(t) ==> (contains(lower, lowered(t)) && found(
            r#"(?i)(?:insert\s+into|update|from|join)\s+["'`]?"#@ + escaped(lowered(t)) + r"\b"@,
            lower,
        ).len() > 0 ==> accesses(Access::RawSql, name, c, text, lower)),
        contains(text, "."@ + uncapitalized(name) + "."@) && found(
            r"\b(?:prisma|db|tx|client)\."@ + escaped(uncapitalized(name)) + r"\."@,
            text,
        ).len() > 0 ==> accesses(Access::OrmClient, name, c, text, lower),
        is_declared_as(c, "mongoose"@) && contains(text, name) && found(
            r"\b"@ + escaped(name)
                + r"\.(?:find|findOne|findById|create|updateOne|deleteOne|countDocuments|aggregate|exists)\("@,
            text,
        ).len() > 0 ==> accesses(Access::MongooseStatic, name, c, text, lower),
        is_declared_as(c, "rails"@) && contains(text, name) && found(
            r"\b"@ + escaped(name)
                + r"\.(?:find|find_by|where|create|new|all|first|joins|includes|count)\b"@,
            text,
        ).len() > 0 ==> accesses(Access::RailsStatic, name, c, text, lower),
        is_declared_as(c, "typeorm"@) && contains(text, name) && found(
            r"(?:Repository<"@ + escaped(name) + r">|getRepository\("@ + escaped(name)
                + r"\)|InjectRepository\("@ + escaped(name) + r"\))"@,
            text,
        ).len() > 0 ==> accesses(Access::TypeormRepository, name, c, text, lower),
        name.len() > 0 ==> uncapitalized(name) == seq![lower_char(name[0])] + name.skip(1),
{
}

/// A concept has a declaration of this kind.
pub open spec fn is_declared_as(c: ConceptView, kind: Seq<char>) -> bool {
    exists|i: int| 0 <= i < c.declared_in.len() && (#[trigger] c.declared_in[i]).1 == kind
}

// ---------------------------------------------------------------------------
// Tables and their models
// ---------------------------------------------------------------------------

/// Declared by nothing but tables.
pub open spec fn is_bare_table(c: ConceptView) -> bool {
    forall|i: int| 0 <= i < c.declared_in.len() ==> (#[trigger] c.declared_in[i]).1 == "sql"@
}

/// A concept says that it is stored in the table of this name, in whatever case.
pub open spec fn claims_table(c: ConceptView, name: Seq<char>) -> bool {
    c.table matches Some(t) && ascii_lower(t) == ascii_lower(name)
}

proof fn lemma_owner(m: Seq<(Seq<char>, ConceptView)>, name: Seq<char>, j: int)
    requires
        0 <= j < m.len(),
        m[j].0 != name,
        claims_table(m[j].1, name),
        forall|k: int|
            0 <= k < j ==> !((#[trigger] m[k]).0 != name && claims_table(m[k].1, name)),
    ensures
        table_owner(m, name) == Some(m[j].0),
    decreases j,
{
    if j > 0 {
        assert(!(m[0].0 != name && claims_table(m[0].1, name)));
        let rest = m.skip(1);
        assert forall|k: int| 0 <= k < j - 1 implies !((#[trigger] rest[k]).0 != name && claims_table(
            rest[k].1,
            name,
        )) by {
            assert(rest[k] == m[k + 1]);
        }
        lemma_owner(rest, name, j - 1);
    }
}

proof fn lemma_no_owner(m: Seq<(Seq<char>, ConceptView)>, name: Seq<char>)
    requires
        forall|k: int|
            0 <= k < m.len() ==> !((#[trigger] m[k]).0 != name && claims_table(m[k].1, name)),
    ensures
        table_owner(m, name) is None,
    decreases m.len(),
{
    if m.len() > 0 {
        assert(!(m[0].0 != name && claims_table(m[0].1, name)));
        let rest = m.skip(1);
        assert forall|k: int| 0 <= k < rest.len() implies !((#[trigger] rest[k]).0 != name
            && claims_table(rest[k].1, name)) by {
            assert(rest[k] == m[k + 1]);
        }
        lemma_no_owner(rest, name);
    }
}

spec fn holds_all(a: Seq<(Seq<char>, Seq<char>)>, b: Seq<(Seq<char>, Seq<char>)>) -> bool {
    forall|s: (Seq<char>, Seq<char>)| a.contains(s) ==> #[trigger] b.contains(s)
}

proof fn lemma_merged_holds(t: ConceptView, d: ConceptView)
    ensures
        holds_all(t.declared_in, merged(t, d).declared_in),
        holds_all(d.declared_in, merged(t, d).declared_in),
{
    let r = merged(t, d).declared_in;
    assert forall|s: (Seq<char>, Seq<char>)| t.declared_in.contains(s) || d.declared_in.contains(
        s,
    ) implies #[trigger] r.contains(s) by {
        if t.declared_in.contains(s) {
            let i = choose|i: int| 0 <= i < t.declared_in.len() && t.declared_in[i] == s;
            assert(r[i] == s);
        } else {
            let i = choose|i: int| 0 <= i < d.declared_in.len() && d.declared_in[i] == s;
            assert(r[t.declared_in.len() + i] == s);
        }
    }
}

spec fn names_once(pairs: Seq<(Seq<char>, Seq<char>)>) -> bool {
    forall|i: int, j: int| 0 <= i < j < pairs.len() ==> (#[trigger] pairs[i]).0 != (#[trigger] pairs[j]).0
}

/// A concept that is folded into none keeps what it says of itself and gains the
/// places of those that are folded into it; one that is folded goes.
proof fn lemma_fold(
    m: Seq<(Seq<char>, ConceptView)>,
    pairs: Seq<(Seq<char>, Seq<char>)>,
    dupe: Seq<char>,
    target: Seq<char>,
)
    requires
        ordered(m),
        has_key(m, dupe),
        has_key(m, target),
        dupe != target,
        names_once(pairs),
        forall|i: int| 0 <= i < pairs.len() ==> (#[trigger] pairs[i]).0 != target,
        forall|i: int| 0 <= i < pairs.len() && (#[trigger] pairs[i]).0 == dupe ==> pairs[i].1 == target,
    ensures
        ordered(merge_all(m, pairs)),
        ({
            let r = merge_all(m, pairs);
            let d = lookup(m, dupe)->Some_0;
            let t = lookup(m, target)->Some_0;
            &&& lookup(r, target) matches Some(x) && {
                &&& holds_all(t.declared_in, x.declared_in)
                &&& x.fields == t.fields
                &&& x.relations == t.relations
                &&& t.table is Some ==> x.table == t.table
                &&& pairs.contains((dupe, target)) ==> holds_all(d.declared_in, x.declared_in)
            }
            &&& pairs.contains((dupe, target)) ==> lookup(r, dupe) is None
            &&& !pairs.contains((dupe, target)) ==> (lookup(r, dupe) matches Some(x) && holds_all(
                d.declared_in,
                x.declared_in,
            ))
        }),
    decreases pairs.len(),
{
    let d = lookup(m, dupe)->Some_0;
    let t = lookup(m, target)->Some_0;
    if pairs.len() > 0 {
        let front = pairs.drop_last();
        let p = pairs.last();
        assert(pairs[pairs.len() - 1] == p);
        assert forall|i: int, j: int| 0 <= i < j < front.len() implies (#[trigger] front[i]).0 != (
        #[trigger] front[j]).0 by {
            assert(front[i] == pairs[i] && front[j] == pairs[j]);
        }
        assert forall|i: int| 0 <= i < front.len() implies (#[trigger] front[i]).0 != target by {
            assert(front[i] == pairs[i]);
        }
        assert forall|i: int|
            0 <= i < front.len() && (#[trigger] front[i]).0 == dupe implies front[i].1 == target by {
            assert(front[i] == pairs[i]);
        }
        lemma_fold(m, front, dupe, target);
        let q = merge_all(m, front);
        let r = merge_all(m, pairs);
        assert(r == merge_one(q, p.0, p.1));
        assert(pairs.contains((dupe, target)) <==> front.contains((dupe, target)) || p == (
            dupe,
            target,
        )) by {
            if pairs.contains((dupe, target)) {
                let i = choose|i: int| 0 <= i < pairs.len() && pairs[i] == (dupe, target);
                if i < front.len() {
                    assert(front[i] == pairs[i]);
                }
            }
            if front.contains((dupe, target)) {
                let i = choose|i: int| 0 <= i < front.len() && front[i] == (dupe, target);
                assert(pairs[i] == front[i]);
            }
        }
        if front.contains((dupe, target)) {
            let i = choose|i: int| 0 <= i < front.len() && front[i] == (dupe, target);
            assert(pairs[i] == front[i]);
            assert(p.0 != dupe);
        }
        if let (Some(a), Some(b)) = (lookup(q, p.0), lookup(q, p.1)) {
            if p.0 != p.1 {
                let w = without(q, p.0);
                lemma_without_lookup(q, p.0);
                lemma_put(w, p.1, merged(b, a));
                lemma_merged_holds(b, a);
                if p.1 == dupe {
                    assert(lookup(q, dupe) is Some);
                }
            }
        }
    } else {
        assert(!pairs.contains((dupe, target)));
    }
}

proof fn lemma_merges_once(m: Seq<(Seq<char>, ConceptView)>)
    requires
        ordered(m),
    ensures
        names_once(merges(m)),
        forall|i: int|
            0 <= i < merges(m).len() ==> exists|k: int|
                0 <= k < m.len() && each_merge(m)(#[trigger] m[k]) == Some(#[trigger] merges(m)[i]),
{
    let f = each_merge(m);
    let all = merges(m);
    assert forall|i: int, j: int| 0 <= i < j < all.len() implies (#[trigger] all[i]).0 != (
    #[trigger] all[j]).0 by {
        let a = lemma_filtered_from(m, f, i);
        let b = lemma_filtered_from(m, f, j);
        if a == b {
            assert(m.take(a).filter_map(f).len() == i);
            assert(m.take(b).filter_map(f).len() == j);
        }
        crate::text::lemma_before_irreflexive(m[a].0);
        if a < b {
            assert(crate::text::before(m[a].0, m[b].0));
        } else {
            assert(crate::text::before(m[b].0, m[a].0));
        }
    }
    assert forall|i: int| 0 <= i < all.len() implies exists|k: int|
        0 <= k < m.len() && f(#[trigger] m[k]) == Some(#[trigger] all[i]) by {
        let k = lemma_filtered_from(m, f, i);
        assert(f(m[k]) == Some(all[i]));
    }
}

/// A bare table that a model says it is stored in, in whatever case, is no concept
/// of its own: it goes, and the model, the first by name that says so, gains its
/// places and keeps what it says of itself.
pub proof fn law_tables_fold_into_their_models(m: Seq<(Seq<char>, ConceptView)>, i: int, j: int)
    requires
        ordered(m),
        0 <= i < m.len(),
        0 <= j < m.len(),
        i != j,
        is_bare_table(m[i].1),
        !is_bare_table(m[j].1),
        claims_table(m[j].1, m[i].0),
        forall|k: int| 0 <= k < j && k != i ==> !claims_table((#[trigger] m[k]).1, m[i].0),
    ensures
        ({
            let r = merge_all(m, merges(m));
            &&& !has_key(r, m[i].0)
            &&& lookup(r, m[j].0) matches Some(x) && {
                &&& forall|s: (Seq<char>, Seq<char>)| m[i].1.declared_in.contains(s)
                    || m[j].1.declared_in.contains(s) ==> #[trigger] x.declared_in.contains(s)
                &&& x.fields == m[j].1.fields
                &&& x.relations == m[j].1.relations
                &&& x.table == m[j].1.table
            }
        }),
{
    let f = each_merge(m);
    let all = merges(m);
    lemma_lookup_at(m, i);
    lemma_lookup_at(m, j);
    lemma_merges_once(m);
    crate::text::lemma_before_irreflexive(m[i].0);
    assert(m[i].0 != m[j].0) by {
        if i < j {
            assert(crate::text::before(m[i].0, m[j].0));
        } else {
            assert(crate::text::before(m[j].0, m[i].0));
        }
    }
    assert forall|k: int| 0 <= k < j implies !((#[trigger] m[k]).0 != m[i].0 && claims_table(
        m[k].1,
        m[i].0,
    )) by {}
    lemma_owner(m, m[i].0, j);
    assert(f(m[i]) == Some((m[i].0, m[j].0)));
    lemma_kept_by_filter_map(m, f, i);
    assert forall|n: int| 0 <= n < all.len() implies (#[trigger] all[n]).0 != m[j].0 by {
        let k = choose|k: int| 0 <= k < m.len() && f(#[trigger] m[k]) == Some(all[n]);
        lemma_lookup_at(m, k);
        if all[n].0 == m[j].0 {
            assert(m[k].1 == m[j].1);
        }
    }
    assert forall|n: int| 0 <= n < all.len() && (#[trigger] all[n]).0 == m[i].0 implies all[n].1
        == m[j].0 by {
        let k = choose|k: int| 0 <= k < m.len() && f(#[trigger] m[k]) == Some(all[n]);
        lemma_lookup_at(m, k);
    }
    assert(has_key(m, m[i].0) && has_key(m, m[j].0));
    lemma_fold(m, all, m[i].0, m[j].0);
    let r = merge_all(m, all);
    if has_key(r, m[i].0) {
        assert(lookup(r, m[i].0) is Some);
    }
}

/// A concept that a model declares, and a table that no other concept says it is
/// stored in, is a concept of its own, and keeps what it says of itself.
pub proof fn law_other_concepts_stay(m: Seq<(Seq<char>, ConceptView)>, i: int)
    requires
        ordered(m),
        0 <= i < m.len(),
        !is_bare_table(m[i].1) || forall|k: int|
            0 <= k < m.len() && k != i ==> !claims_table((#[trigger] m[k]).1, m[i].0),
    ensures
        ({
            let r = merge_all(m, merges(m));
            lookup(r, m[i].0) matches Some(x) && {
                &&& forall|s: (Seq<char>, Seq<char>)| m[i].1.declared_in.contains(s)
                    ==> #[trigger] x.declared_in.contains(s)
                &&& x.fields == m[i].1.fields
                &&& x.relations == m[i].1.relations
                &&& m[i].1.table is Some ==> x.table == m[i].1.table
            }
        }),
{
    let f = each_merge(m);
    let all = merges(m);
    lemma_lookup_at(m, i);
    lemma_merges_once(m);
    assert(f(m[i]) is None) by {
        if is_bare_table(m[i].1) {
            assert forall|k: int| 0 <= k < m.len() implies !((#[trigger] m[k]).0 != m[i].0
                && claims_table(m[k].1, m[i].0)) by {}
            lemma_no_owner(m, m[i].0);
        }
    }
    assert forall|n: int| 0 <= n < all.len() implies (#[trigger] all[n]).0 != m[i].0 by {
        let k = choose|k: int| 0 <= k < m.len() && f(#[trigger] m[k]) == Some(all[n]);
        lemma_lookup_at(m, k);
    }
    lemma_stays(m, all, m[i].0);
}

proof fn lemma_stays(
    m: Seq<(Seq<char>, ConceptView)>,
    pairs: Seq<(Seq<char>, Seq<char>)>,
    name: Seq<char>,
)
    requires
        ordered(m),
        has_key(m, name),
        forall|i: int| 0 <= i < pairs.len() ==> (#[trigger] pairs[i]).0 != name,
    ensures
        ordered(merge_all(m, pairs)),
        ({
            let c = lookup(m, name)->Some_0;
            lookup(merge_all(m, pairs), name) matches Some(x) && {
                &&& holds_all(c.declared_in, x.declared_in)
                &&& x.fields == c.fields
                &&& x.relations == c.relations
                &&& c.table is Some ==> x.table == c.table
            }
        }),
    decreases pairs.len(),
{
    if pairs.len() > 0 {
        let front = pairs.drop_last();
        let p = pairs.last();
        assert(pairs[pairs.len() - 1] == p);
        assert forall|i: int| 0 <= i < front.len() implies (#[trigger] front[i]).0 != name by {
            assert(front[i] == pairs[i]);
        }
        lemma_stays(m, front, name);
        let q = merge_all(m, front);
        if let (Some(a), Some(b)) = (lookup(q, p.0), lookup(q, p.1)) {
            if p.0 != p.1 {
                lemma_without_lookup(q, p.0);
                lemma_put(without(q, p.0), p.1, merged(b, a));
                lemma_merged_holds(b, a);
            }
        }
    }
}

// ---------------------------------------------------------------------------
// Facts of files
// ---------------------------------------------------------------------------

/// What a file declares is read anew wherever its size or its time of change is
/// not what an earlier scan of these extractors knew, and is otherwise what that
/// scan knew.
pub proof fn law_changed_files_are_read_again(
    root: Seq<char>,
    known: Seq<(Seq<char>, FileFactsView)>,
    f: ScannableFileView,
)
    ensures
        ({
            let r = facts_of(root, known, f);
            let d = declared(below(root, f.rel), f.text->Some_0);
            let same = lookup(known, f.rel) matches Some(k) && k.size == f.size && k.mtime_ms
                == f.mtime_ms;
            &&& r.size == f.size
            &&& r.mtime_ms == f.mtime_ms
            &&& same ==> r.decls == lookup(known, f.rel)->Some_0.decls && r.decl_kinds == lookup(
                known,
                f.rel,
            )->Some_0.decl_kinds
            &&& !same && f.text is Some ==> r.decls == d.decls && r.decl_kinds == d.kinds
            &&& !same && f.text is None ==> r.decls.len() == 0 && r.decl_kinds.len() == 0
        }),
{
}

/// An earlier scan counts only where the extractors are still the same.
pub proof fn law_old_extractors_are_forgotten(prior: IndexView)
    ensures
        prior.extractor_version != 9 ==> prior_facts(Some(prior)).len() == 0 && prior_concepts(
            Some(prior),
        ).len() == 0,
        prior.extractor_version == 9 ==> prior_facts(Some(prior)) == prior.file_facts
            && prior_concepts(Some(prior)) == prior.concepts,
{
}

/// One more declaration of a concept adds its place. It gives fields, relations
/// and a table only where the concept has none so far.
pub proof fn law_first_declarations_count(
    c: Option<ConceptView>,
    rel: Seq<char>,
    d: DeclFragmentView,
    now: int,
)
    ensures
        ({
            let r = absorb(c, rel, d, now);
            &&& c is None ==> r.name == d.name && r.first_seen_ms == now && r.declared_in == seq![
                (rel, d.kind),
            ] && r.fields == d.fields && r.relations == d.relations && r.table == d.table
                && r.usage.len() == 0
            &&& c matches Some(x) ==> {
                &&& r.name == x.name
                &&& r.first_seen_ms == x.first_seen_ms
                &&& r.declared_in == x.declared_in.push((rel, d.kind))
                &&& r.usage == x.usage
                &&& x.fields.len() > 0 ==> r.fields == x.fields
                &&& x.fields.len() == 0 ==> r.fields == d.fields
                &&& x.relations.len() > 0 ==> r.relations == x.relations
                &&& x.relations.len() == 0 ==> r.relations == d.relations
                &&& x.table is Some ==> r.table == x.table
                &&& x.table is None ==> r.table == d.table
            }
        }),
{
    if c is None {
        assert(absorb(c, rel, d, now).declared_in =~= seq![(rel, d.kind)]);
    }
}

/// A concept keeps the time at which it was first seen, and is verified now.
pub proof fn law_first_sight_is_kept(c: ConceptView, old: Option<ConceptView>, now: int)
    ensures
        dated(c, old, now).last_verified_ms == now,
        old is None ==> dated(c, old, now).first_seen_ms == c.first_seen_ms,
        old matches Some(o) ==> (o.first_seen_ms > 0 ==> dated(c, old, now).first_seen_ms
            == o.first_seen_ms) && (o.first_seen_ms <= 0 ==> dated(c, old, now).first_seen_ms
            == c.first_seen_ms),
        dated(c, old, now).declared_in == c.declared_in && dated(c, old, now).table == c.table
            && dated(c, old, now).fields == c.fields && dated(c, old, now).relations == c.relations,
{
}

proof fn lemma_declaration_list(
    root: Seq<char>,
    known: Seq<(Seq<char>, FileFactsView)>,
    files: Seq<ScannableFileView>,
    rel: Seq<char>,
    kind: Seq<char>,
)
    ensures
        declaration_list(root, known, files).contains((rel, kind)) <==> exists|i: int|
            0 <= i < files.len() && (#[trigger] files[i]).rel == rel && facts_of(
                root,
                known,
                files[i],
            ).decl_kinds.contains(kind),
    decreases files.len(),
{
    if files.len() > 0 {
        let front = files.drop_last();
        let f = files.last();
        lemma_declaration_list(root, known, front, rel, kind);
        let a = declaration_list(root, known, front);
        let kinds = facts_of(root, known, f).decl_kinds;
        let b = kinds.map_values(crate::scan::kinds_at(f.rel));
        let all = declaration_list(root, known, files);
        assert(all == a + b);
        if all.contains((rel, kind)) {
            let i = choose|i: int| 0 <= i < all.len() && all[i] == (rel, kind);
            if i < a.len() {
                assert(a[i] == (rel, kind));
                let n = choose|n: int|
                    0 <= n < front.len() && (#[trigger] front[n]).rel == rel && facts_of(
                        root,
                        known,
                        front[n],
                    ).decl_kinds.contains(kind);
                assert(files[n] == front[n]);
            } else {
                assert(b[i - a.len()] == (rel, kind));
                assert(kinds[i - a.len()] == kind);
                assert(files[files.len() - 1] == f);
            }
        }
        if exists|i: int|
            0 <= i < files.len() && (#[trigger] files[i]).rel == rel && facts_of(
                root,
                known,
                files[i],
            ).decl_kinds.contains(kind) {
            let n = choose|n: int|
                0 <= n < files.len() && (#[trigger] files[n]).rel == rel && facts_of(
                    root,
                    known,
                    files[n],
                ).decl_kinds.contains(kind);
            if n < front.len() {
                assert(front[n] == files[n]);
                let i = choose|i: int| 0 <= i < a.len() && a[i] == (rel, kind);
                assert(all[i] == (rel, kind));
            } else {
                let i = choose|i: int| 0 <= i < kinds.len() && kinds[i] == kind;
                assert(b[i] == (rel, kind));
                assert(all[a.len() + i] == (rel, kind));
            }
        }
    }
}

/// The declaring files of an index are the files that declare something, each with
/// its kinds, and the project's settings where there are any. What the settings say
/// stands in the index as it is.
pub proof fn law_indexes_name_their_files(
    root: Seq<char>,
    own: SettingsView,
    files: Seq<ScannableFileView>,
    prior: Option<IndexView>,
    now: int,
    rel: Seq<char>,
    kind: Seq<char>,
)
    ensures
        ({
            let r = scanned(root, own, files, prior, now);
            &&& r.declaration_files.contains((rel, kind)) <==> (own.present && rel
                == "archietect.toml"@ && kind == "ontology"@) || exists|i: int|
                0 <= i < files.len() && (#[trigger] files[i]).rel == rel && facts_of(
                    root,
                    prior_facts(prior),
                    files[i],
                ).decl_kinds.contains(kind)
            &&& r.root == root
            &&& r.files_scanned == files.len()
            &&& r.aliases == own.aliases
            &&& r.decisions == own.decisions
            &&& r.excludes == own.excludes
            &&& r.extractor_version == 9
        }),
{
    let known = prior_facts(prior);
    lemma_declaration_list(root, known, files, rel, kind);
    let b = declaration_list(root, known, files);
    let all = scanned(root, own, files, prior, now).declaration_files;
    if own.present {
        let a = seq![("archietect.toml"@, "ontology"@)];
        assert(all == a + b);
        assert(all[0] == ("archietect.toml"@, "ontology"@));
        if b.contains((rel, kind)) {
            let i = choose|i: int| 0 <= i < b.len() && b[i] == (rel, kind);
            assert(all[i + 1] == (rel, kind));
        }
        if all.contains((rel, kind)) {
            let i = choose|i: int| 0 <= i < all.len() && all[i] == (rel, kind);
            if i > 0 {
                assert(b[i - 1] == (rel, kind));
            }
        }
    } else {
        assert(all =~= b);
    }
}

// ---------------------------------------------------------------------------
// Settings and paths
// ---------------------------------------------------------------------------

proof fn lemma_alias_table(entries: Seq<(Seq<char>, TreeView)>, i: int)
    requires
        0 <= i < entries.len(),
        text(entries[i].1) is Some,
        forall|j: int|
            i < j < entries.len() ==> lowered((#[trigger] entries[j]).0) != lowered(entries[i].0)
                || text(entries[j].1) is None,
    ensures
        ordered(alias_table(entries)),
        lookup(alias_table(entries), lowered(entries[i].0)) == text(entries[i].1),
    decreases entries.len(),
{
    let front = entries.drop_last();
    lemma_alias_ordered(front);
    let e = entries.last();
    assert(entries[entries.len() - 1] == e);
    if let Some(s) = text(e.1) {
        lemma_put(alias_table(front), lowered(e.0), s);
    }
    if i < front.len() {
        assert forall|j: int| i < j < front.len() implies lowered((#[trigger] front[j]).0)
            != lowered(front[i].0) || text(front[j].1) is None by {
            assert(front[j] == entries[j]);
        }
        lemma_alias_table(front, i);
    }
}

proof fn lemma_alias_ordered(entries: Seq<(Seq<char>, TreeView)>)
    ensures
        ordered(alias_table(entries)),
    decreases entries.len(),
{
    if entries.len() > 0 {
        lemma_alias_ordered(entries.drop_last());
        if let Some(s) = text(entries.last().1) {
            lemma_put(alias_table(entries.drop_last()), lowered(entries.last().0), s);
        }
    }
}

/// The settings that a document states: every alias under its key in small
/// letters, the last of two alike; every decision in order, with its links; and
/// what is left out, be it a list or a single path. There are none in a text that
/// is no document.
pub proof fn law_settings_are_what_is_written(toml: Seq<char>, t: TreeView, i: int)
    requires
        toml_tree(toml) == Ok::<TreeView, Seq<char>>(t),
    ensures
        ({
            let r = settings(Some(toml));
            &&& r.present
            &&& field(t, "aliases"@) matches Some(TreeView::Table(entries)) ==> (0 <= i
                < entries.len() && text(entries[i].1) is Some && (forall|j: int|
                i < j < entries.len() ==> lowered((#[trigger] entries[j]).0) != lowered(entries[i].0)
                    || text(entries[j].1) is None) ==> lookup(r.aliases, lowered(entries[i].0))
                == text(entries[i].1))
            &&& field(t, "decision"@) matches Some(TreeView::List(items)) ==> r.decisions.len()
                == items.len() && (0 <= i < items.len() ==> ({
                let d = r.decisions[i];
                &&& text_field(items[i], "id"@) matches Some(x) ==> d.id == x
                &&& text_field(items[i], "decision"@) matches Some(x) ==> d.decision == x
                &&& text_field(items[i], "because"@) matches Some(x) ==> d.because == x
                &&& text_field(items[i], "proposed_by"@) matches Some(x) ==> d.proposed_by == x
                &&& text_field(items[i], "id"@) is None ==> d.id.len() == 0
                &&& d.links == texts(field(items[i], "links"@))
                &&& d.rejected == texts(field(items[i], "rejected"@))
            }))
            &&& field(t, "exclude"@) matches Some(TreeView::Text(p)) ==> r.excludes == seq![p]
            &&& field(t, "exclude"@) matches Some(TreeView::List(items)) ==> r.excludes == texts(
                field(t, "exclude"@),
            )
            &&& field(t, "exclude"@) is None ==> r.excludes.len() == 0
        }),
        !settings(None).present,
        settings(None).aliases.len() == 0 && settings(None).decisions.len() == 0 && settings(
            None,
        ).excludes.len() == 0,
{
    if let Some(TreeView::Table(entries)) = field(t, "aliases"@) {
        if 0 <= i < entries.len() && text(entries[i].1) is Some && (forall|j: int|
            i < j < entries.len() ==> lowered((#[trigger] entries[j]).0) != lowered(entries[i].0)
                || text(entries[j].1) is None) {
            lemma_alias_table(entries, i);
        }
    }
}

/// The directories that a scan never descends into.
pub proof fn law_skipped_directories(name: Seq<char>)
    ensures
        is_skipped_dir(name) <==> seq![
            "node_modules"@,
            ".git"@,
            ".next"@,
            "target"@,
            "dist"@,
            "build"@,
            "__pycache__"@,
            ".venv"@,
            "venv"@,
            ".turbo"@,
            "coverage"@,
            ".cache"@,
            "vendor"@,
        ].contains(name),
{
    let all = seq![
        "node_modules"@,
        ".git"@,
        ".next"@,
        "target"@,
        "dist"@,
        "build"@,
        "__pycache__"@,
        ".venv"@,
        "venv"@,
        ".turbo"@,
        "coverage"@,
        ".cache"@,
        "vendor"@,
    ];
    assert(all[0] == "node_modules"@ && all[1] == ".git"@ && all[2] == ".next"@ && all[3]
        == "target"@ && all[4] == "dist"@ && all[5] == "build"@ && all[6] == "__pycache__"@ && all[7]
        == ".venv"@ && all[8] == "venv"@ && all[9] == ".turbo"@ && all[10] == "coverage"@ && all[11]
        == ".cache"@ && all[12] == "vendor"@);
    if all.contains(name) {
        let i = choose|i: int| 0 <= i < all.len() && all[i] == name;
        assert(is_skipped_dir(all[i]));
    }
}

/// A path lies within another exactly where it is that path or goes on behind a
/// slash; slashes at the other's end do not matter.
pub proof fn law_within_is_at_or_below(path: Seq<char>, prefix: Seq<char>)
    ensures
        is_within(path, prefix) <==> ({
            let p = trim_end_of(prefix, CharClass::Is('/'));
            path == p || (p + "/"@).is_prefix_of(path)
        }),
{
    let q = trim_end_of(prefix, CharClass::Is('/')) + "/"@;
    if q.len() <= path.len() {
        assert(path.take(q.len() as int) =~= path.subrange(0, q.len() as int));
    }
}

/// Two concepts that are one were first seen when the earlier of them was, where
/// that is known; they keep what the first of them states and the places of both.
pub proof fn law_merging_keeps_the_earliest_sight(t: ConceptView, d: ConceptView)
    ensures
        ({
            let r = merged(t, d);
            &&& d.first_seen_ms <= 0 ==> r.first_seen_ms == t.first_seen_ms
            &&& d.first_seen_ms > 0 ==> r.first_seen_ms <= d.first_seen_ms && r.first_seen_ms
                <= t.first_seen_ms && (r.first_seen_ms == d.first_seen_ms || r.first_seen_ms
                == t.first_seen_ms)
            &&& t.table is Some ==> r.table == t.table
            &&& t.table is None ==> r.table == d.table
            &&& r.declared_in == t.declared_in + d.declared_in
            &&& r.name == t.name && r.fields == t.fields && r.relations == t.relations && r.usage
                == t.usage && r.last_verified_ms == t.last_verified_ms
        }),
{
}

/// A concept that is seen for the first time is known by its name and the moment,
/// and by nothing else yet.
pub proof fn law_new_concepts_are_bare(name: Seq<char>, now: int)
    ensures
        ({
            let c = new_concept(name, now);
            &&& c.name == name && c.first_seen_ms == now && c.last_verified_ms == 0
            &&& c.declared_in.len() == 0 && c.fields.len() == 0 && c.relations.len() == 0
            &&& c.table is None && c.usage.len() == 0
        }),
{
}

} // verus!
