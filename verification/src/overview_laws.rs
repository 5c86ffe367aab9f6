//! What the views of a whole repository count, compare and recommend.
use vstd::prelude::*;
use crate::answer_laws::lemma_filtered_from;
use crate::glance::{
    alias_note, each_family_note, each_governing, each_stale, each_ungoverned, families,
    is_governed, joined_by, links_name, makes_family, members_of, something_answers, stale_aliases,
    suggestions, ungoverned, Family, FamilyView,
};
use crate::model::{
    answers_to, is_role_word, is_same_word, tokens, ConceptView, DecisionView, IndexView, Tier,
};
use crate::order::{law_sorting_orders, lemma_member_sorted, lemma_sorted_member, Ranked};
use crate::ownership::{
    declared_ownership, each_holder, each_interested, each_weight, holders, ownership, ranking,
    seen_so_far, symbol_from, tally, top_of, Holder, Weighted,
};
use crate::query::lemma_kept_by_filter_map;
use crate::resource::ResourceView;
use crate::structural::{GraphView, SymbolView};
use crate::survey::{
    built_from_links, checkup, duplicates_of, each_alias_mistake, each_built_from, each_dead,
    each_linked, each_road_taken, each_unlinked, each_unused, each_use_count, inner_path, kind_from,
    most_used, pair_of, pairs_from, reading_minutes, rejected_roads, same_project_links,
    shared_from, status_of, tour_of, unused, words_to_read, PlaceView, UseCount,
};
use crate::table::{lemma_lookup_at, lemma_put, lookup, ordered};
use crate::text::{contains, lowered, occurs_at, split, starts_with, trim_end_of, words, CharClass};

verus! {

// ---------------------------------------------------------------------------
// Use
// ---------------------------------------------------------------------------

proof fn lemma_used_and_unused(concepts: Seq<(Seq<char>, ConceptView)>)
    ensures
        concepts.filter_map(each_unused()).len() + concepts.filter(
            |e: (Seq<char>, ConceptView)| e.1.usage.len() > 0,
        ).len() == concepts.len(),
    decreases concepts.len(),
{
    let p = |e: (Seq<char>, ConceptView)| e.1.usage.len() > 0;
    if concepts.len() > 0 {
        let n = concepts.len() - 1;
        let front = concepts.take(n);
        lemma_used_and_unused(front);
        concepts.lemma_filter_map_take_succ(each_unused(), n);
        assert(concepts.take(n + 1) =~= concepts);
        reveal(Seq::filter);
        assert(concepts.drop_last() =~= front);
    } else {
        reveal(Seq::filter_map);
        reveal(Seq::filter);
    }
}

proof fn lemma_no_longer<A, B>(s: Seq<A>, f: spec_fn(A) -> Option<B>)
    ensures
        s.filter_map(f).len() <= s.len(),
    decreases s.len(),
{
    if s.len() > 0 {
        let n = s.len() - 1;
        lemma_no_longer(s.take(n), f);
        s.lemma_filter_map_take_succ(f, n);
        assert(s.take(n + 1) =~= s);
    } else {
        reveal(Seq::filter_map);
    }
}

/// A status counts the concepts that are declared and those that something was
/// seen to use; it names those that nothing uses, unless they are only names for
/// values, up to twenty-five.
pub proof fn law_status_counts_what_is_used(idx: IndexView, i: int, p: int)
    ensures
        ({
            let s = status_of(idx);
            let dead = s.declared_but_never_observed_in_use;
            &&& s.root == idx.root && s.files_scanned == idx.files_scanned
            &&& s.declaration_files == idx.declaration_files
            &&& s.concepts_declared == idx.concepts.len()
            &&& s.concepts_with_observed_usage == idx.concepts.filter(
                |e: (Seq<char>, ConceptView)| e.1.usage.len() > 0,
            ).len()
            &&& dead.len() <= 25
            &&& 0 <= p < dead.len() ==> exists|k: int|
                0 <= k < idx.concepts.len() && (#[trigger] idx.concepts[k]).0 == dead[p]
                    && idx.concepts[k].1.usage.len() == 0
            &&& 0 <= i < idx.concepts.len() <= 25 && idx.concepts[i].1.usage.len() == 0 && (exists|
                j: int,
            |
                0 <= j < idx.concepts[i].1.declared_in.len()
                    && (#[trigger] idx.concepts[i].1.declared_in[j]).1 != "prisma-enum"@)
                ==> dead.contains(idx.concepts[i].0)
        }),
{
    lemma_used_and_unused(idx.concepts);
    let f = each_dead();
    let all = idx.concepts.filter_map(f);
    lemma_no_longer(idx.concepts, f);
    let dead = status_of(idx).declared_but_never_observed_in_use;
    if 0 <= p < dead.len() {
        let k = lemma_filtered_from(idx.concepts, f, p);
        assert(dead[p] == all[p]);
        assert(idx.concepts[k].0 == dead[p]);
    }
    if 0 <= i < idx.concepts.len() && f(idx.concepts[i]) is Some {
        lemma_kept_by_filter_map(idx.concepts, f, i);
    }
}

/// A concept that only names values is never called dead.
pub proof fn law_values_are_not_dead(idx: IndexView, p: int)
    requires
        0 <= p < status_of(idx).declared_but_never_observed_in_use.len(),
    ensures
        exists|k: int, j: int|
            0 <= k < idx.concepts.len() && 0 <= j < idx.concepts[k].1.declared_in.len()
                && idx.concepts[k].0 == status_of(idx).declared_but_never_observed_in_use[p]
                && (#[trigger] idx.concepts[k].1.declared_in[j]).1 != "prisma-enum"@
                && idx.concepts[k].1.usage.len() == 0,
{
    let f = each_dead();
    let all = idx.concepts.filter_map(f);
    let k = lemma_filtered_from(idx.concepts, f, p);
    assert(status_of(idx).declared_but_never_observed_in_use[p] == all[p]);
    let c = idx.concepts[k].1;
    let j = choose|j: int|
        0 <= j < c.declared_in.len() && (#[trigger] c.declared_in[j]).1 != "prisma-enum"@;
    assert(idx.concepts[k].1.declared_in[j].1 != "prisma-enum"@);
}

/// What is used most comes first, and every concept is counted with its uses.
pub proof fn law_the_most_used_come_first(idx: IndexView, i: int, j: int)
    ensures
        most_used(idx).len() == idx.concepts.len(),
        0 <= i < j < most_used(idx).len() ==> most_used(idx)[i].uses >= most_used(idx)[j].uses,
        0 <= i < most_used(idx).len() ==> exists|k: int|
            0 <= k < idx.concepts.len() && most_used(idx)[i].name == (#[trigger] idx.concepts[k]).0
                && most_used(idx)[i].uses == idx.concepts[k].1.usage.len(),
{
    let s = idx.concepts.map_values(each_use_count());
    law_sorting_orders::<UseCount>(s);
    crate::order::law_sorting_keeps_everything::<UseCount>(s);
    let r = most_used(idx);
    if s.len() > 0 {
        lemma_member_sorted::<UseCount>(s, 0);
        lemma_sorted_member::<UseCount>(s, 0);
    } else {
        assert(r =~= s) by {
            assert(r.len() == 0);
        }
    }
    if 0 <= i < j < r.len() {
        assert(!UseCount::leads(r[j], r[i]));
    }
    if 0 <= i < r.len() {
        lemma_sorted_member::<UseCount>(s, i);
        let k = choose|k: int| 0 <= k < s.len() && s[k] == r[i];
        assert(r[i].name == idx.concepts[k].0);
    }
}

/// A checkup and a tour show the front of the same lists, each up to its own
/// length.
pub proof fn law_views_show_the_front(idx: IndexView, p: int)
    ensures
        ({
            let c = checkup(idx);
            let t = tour_of(idx);
            &&& c.top_concepts.len() == if idx.concepts.len() <= 10 {
                idx.concepts.len() as int
            } else {
                10
            }
            &&& t.important_concepts.len() == if idx.concepts.len() <= 8 {
                idx.concepts.len() as int
            } else {
                8
            }
            &&& 0 <= p < c.top_concepts.len() ==> c.top_concepts[p] == most_used(idx)[p]
            &&& 0 <= p < t.important_concepts.len() ==> t.important_concepts[p] == most_used(idx)[p]
            &&& c.declared_but_never_observed_in_use.len() <= 15
            &&& t.probably_ignorable.len() <= 10
            &&& 0 <= p < c.declared_but_never_observed_in_use.len() ==> exists|k: int|
                0 <= k < idx.concepts.len() && (#[trigger] idx.concepts[k]).0
                    == c.declared_but_never_observed_in_use[p] && idx.concepts[k].1.usage.len() == 0
            &&& 0 <= p < t.probably_ignorable.len() ==> exists|k: int|
                0 <= k < idx.concepts.len() && (#[trigger] idx.concepts[k]).0
                    == t.probably_ignorable[p] && idx.concepts[k].1.usage.len() == 0
            &&& c.concepts == idx.concepts.len() && c.files_scanned == idx.files_scanned
            &&& c.declared_decisions == idx.decisions.len() && c.declared_aliases
                == idx.aliases.len()
            &&& c.things_to_read.len() == idx.decisions.len()
            &&& t.decisions_to_read.len() == idx.decisions.len()
            &&& 0 <= p < idx.decisions.len() ==> c.things_to_read[p] == (
                idx.decisions[p].id,
                idx.decisions[p].decision,
            ) && t.decisions_to_read[p] == c.things_to_read[p]
        }),
{
    law_the_most_used_come_first(idx, p, p);
    let c = checkup(idx);
    let t = tour_of(idx);
    let f = each_unused();
    let all = unused(idx);
    if 0 <= p < all.len() {
        let k = lemma_filtered_from(idx.concepts, f, p);
        assert(idx.concepts[k].0 == all[p]);
    }
}

proof fn lemma_roads(decisions: Seq<DecisionView>, d: int, r: int)
    requires
        0 <= d < decisions.len(),
        0 <= r < decisions[d].rejected.len(),
    ensures
        rejected_roads(decisions).contains(each_road_taken(decisions[d])(decisions[d].rejected[r])),
    decreases decisions.len(),
{
    let x = each_road_taken(decisions[d])(decisions[d].rejected[r]);
    let front = rejected_roads(decisions.drop_last());
    if d < decisions.len() - 1 {
        lemma_roads(decisions.drop_last(), d, r);
        let k = choose|k: int| 0 <= k < front.len() && front[k] == x;
        assert(rejected_roads(decisions)[k] == x);
    } else {
        let own = decisions.last().rejected.map_values(each_road_taken(decisions.last()));
        assert(own[r] == x);
        assert(rejected_roads(decisions)[front.len() + r] == x);
    }
}

proof fn lemma_holds(a: Seq<char>, b: Seq<char>, c: Seq<char>)
    ensures
        contains(a + b + c, b),
{
    let whole = a + b + c;
    assert(whole.subrange(a.len() as int, (a.len() + b.len()) as int) =~= b);
    assert(occurs_at(whole, b, a.len() as int));
}

/// A tour warns of every name that has an owner already and of everything that
/// was rejected, each with the name that answers for it.
pub proof fn law_tours_warn_of_every_mistake(idx: IndexView, a: int, d: int, r: int)
    ensures
        0 <= a < idx.aliases.len() ==> exists|q: int|
            0 <= q < tour_of(idx).common_mistakes.len() && contains(
                #[trigger] tour_of(idx).common_mistakes[q],
                idx.aliases[a].0,
            ) && contains(tour_of(idx).common_mistakes[q], idx.aliases[a].1),
        0 <= d < idx.decisions.len() && 0 <= r < idx.decisions[d].rejected.len() ==> exists|q: int|
            0 <= q < tour_of(idx).common_mistakes.len() && contains(
                #[trigger] tour_of(idx).common_mistakes[q],
                idx.decisions[d].rejected[r],
            ) && contains(tour_of(idx).common_mistakes[q], idx.decisions[d].id),
{
    let all = tour_of(idx).common_mistakes;
    let names = idx.aliases.map_values(each_alias_mistake());
    let roads = rejected_roads(idx.decisions);
    if 0 <= a < idx.aliases.len() {
        let e = idx.aliases[a];
        let tail = "' already owns that responsibility (declared alias)."@;
        assert(all[a] == names[a]);
        assert(all[a] =~= "Don't create '"@ + e.0 + ("' — '"@ + e.1 + tail));
        lemma_holds("Don't create '"@, e.0, "' — '"@ + e.1 + tail);
        lemma_holds("Don't create '"@ + e.0 + "' — '"@, e.1, tail);
        assert(contains(all[a], e.0) && contains(all[a], e.1));
    }
    if 0 <= d < idx.decisions.len() && 0 <= r < idx.decisions[d].rejected.len() {
        lemma_roads(idx.decisions, d, r);
        let x = idx.decisions[d];
        let road = each_road_taken(x)(x.rejected[r]);
        let k = choose|k: int| 0 <= k < roads.len() && roads[k] == road;
        assert(all[names.len() + k] == road);
        let middle = "' — considered and rejected in decision '"@;
        assert(road =~= "Don't build '"@ + x.rejected[r] + (middle + x.id + "': "@ + x.decision));
        lemma_holds("Don't build '"@, x.rejected[r], middle + x.id + "': "@ + x.decision);
        assert(road =~= ("Don't build '"@ + x.rejected[r] + middle) + x.id + ("': "@ + x.decision));
        lemma_holds("Don't build '"@ + x.rejected[r] + middle, x.id, "': "@ + x.decision);
        assert(contains(all[names.len() + k], x.rejected[r]));
    }
}

/// Reading is estimated by the words of every decision and its reason, two
/// hundred to a minute, and takes a minute at least.
pub proof fn law_reading_takes_its_time(n: nat, decisions: Seq<DecisionView>, d: DecisionView)
    ensures
        reading_minutes(n) >= 1,
        n >= 200 ==> 200 * reading_minutes(n) <= n < 200 * (reading_minutes(n) + 1),
        n < 200 ==> reading_minutes(n) == 1,
        words_to_read(seq![]) == 0,
        words_to_read(decisions.push(d)) == words_to_read(decisions) + words(d.decision).len()
            + words(d.because).len(),
{
    assert(decisions.push(d).drop_last() =~= decisions);
}

// ---------------------------------------------------------------------------
// Duplicates
// ---------------------------------------------------------------------------

proof fn lemma_shared(toks: Seq<Seq<char>>, other: Seq<char>, i: int)
    requires
        0 <= i,
    ensures
        shared_from(toks, other, i) is Some <==> exists|k: int|
            i <= k < toks.len() && (#[trigger] toks[k]).len() >= 5 && answers_to(other, toks[k]),
        shared_from(toks, other, i) matches Some(t) ==> toks.contains(t) && t.len() >= 5
            && answers_to(other, t),
    decreases toks.len() - i,
{
    if i < toks.len() && !(toks[i].len() >= 5 && answers_to(other, toks[i])) {
        lemma_shared(toks, other, i + 1);
    } else if i < toks.len() {
        assert(toks[i].len() >= 5);
    }
}

proof fn lemma_pair_found(concepts: Seq<(Seq<char>, ConceptView)>, i: int, j: int, a: int, b: int)
    requires
        0 <= i <= a < b < concepts.len(),
        i == a ==> j <= b,
        i < j,
        concepts[a].1.table is Some,
        concepts[b].1.table is Some,
        pair_of(concepts[a], concepts[b]) is Some,
    ensures
        pairs_from(concepts, i, j).contains(pair_of(concepts[a], concepts[b])->0),
    decreases concepts.len() - i, concepts.len() - j,
{
    let x = pair_of(concepts[a], concepts[b])->0;
    let all = pairs_from(concepts, i, j);
    if j >= concepts.len() {
        lemma_pair_found(concepts, i + 1, i + 2, a, b);
    } else if i == a && j == b {
        assert(all[0] == x);
    } else {
        let rest = pairs_from(concepts, i, j + 1);
        lemma_pair_found(concepts, i, j + 1, a, b);
        let k = choose|k: int| 0 <= k < rest.len() && rest[k] == x;
        if all.len() > rest.len() {
            assert(all[k + 1] == x);
        } else {
            assert(all[k] == x);
        }
    }
}

proof fn lemma_pair_from(concepts: Seq<(Seq<char>, ConceptView)>, i: int, j: int, p: int) -> (r: (
    int,
    int,
))
    requires
        0 <= i < j,
        0 <= p < pairs_from(concepts, i, j).len(),
    ensures
        0 <= r.0 < r.1 < concepts.len(),
        concepts[r.0].1.table is Some,
        concepts[r.1].1.table is Some,
        pair_of(concepts[r.0], concepts[r.1]) == Some(pairs_from(concepts, i, j)[p]),
    decreases concepts.len() - i, concepts.len() - j,
{
    if j >= concepts.len() {
        lemma_pair_from(concepts, i + 1, i + 2, p)
    } else {
        let rest = pairs_from(concepts, i, j + 1);
        let all = pairs_from(concepts, i, j);
        if concepts[i].1.table is Some && concepts[j].1.table is Some && pair_of(
            concepts[i],
            concepts[j],
        ) is Some {
            if p == 0 {
                (i, j)
            } else {
                assert(all[p] == rest[p - 1]);
                lemma_pair_from(concepts, i, j + 1, p - 1)
            }
        } else {
            lemma_pair_from(concepts, i, j + 1, p)
        }
    }
}

/// Two stored concepts are a suspected pair exactly where the second answers to a
/// token of the first of five letters or more. They are likely one where a model
/// declares the one and only tables the other.
pub proof fn law_which_concepts_look_alike(
    concepts: Seq<(Seq<char>, ConceptView)>,
    a: int,
    b: int,
    t: int,
    p: int,
)
    ensures
        0 <= a < b < concepts.len() && concepts[a].1.table is Some && concepts[b].1.table is Some
            && 0 <= t < tokens(concepts[a].0).len() && tokens(concepts[a].0)[t].len() >= 5
            && answers_to(concepts[b].0, tokens(concepts[a].0)[t]) ==> exists|q: int|
            0 <= q < pairs_from(concepts, 0, 1).len() && (#[trigger] pairs_from(concepts, 0, 1)[q]).first
                == concepts[a].0 && pairs_from(concepts, 0, 1)[q].second == concepts[b].0,
        0 <= p < pairs_from(concepts, 0, 1).len() ==> exists|i: int, j: int|
            #![trigger concepts[i], concepts[j]]
            {
                let pair = pairs_from(concepts, 0, 1)[p];
                &&& 0 <= i < j < concepts.len()
                &&& pair.first == concepts[i].0 && pair.second == concepts[j].0
                &&& concepts[i].1.table is Some && concepts[j].1.table is Some
                &&& pair.shared_token.len() >= 5 && tokens(pair.first).contains(pair.shared_token)
                &&& answers_to(pair.second, pair.shared_token)
                &&& pair.unlinked <==> has_model(concepts[i].1) != has_model(concepts[j].1)
            },
{
    if 0 <= a < b < concepts.len() && concepts[a].1.table is Some && concepts[b].1.table is Some
        && 0 <= t < tokens(concepts[a].0).len() && tokens(concepts[a].0)[t].len() >= 5
        && answers_to(concepts[b].0, tokens(concepts[a].0)[t]) {
        lemma_shared(tokens(concepts[a].0), concepts[b].0, 0);
        lemma_pair_found(concepts, 0, 1, a, b);
        let x = pair_of(concepts[a], concepts[b])->0;
        let all = pairs_from(concepts, 0, 1);
        let q = choose|q: int| 0 <= q < all.len() && all[q] == x;
        assert(all[q].first == concepts[a].0);
    }
    if 0 <= p < pairs_from(concepts, 0, 1).len() {
        let (i, j) = lemma_pair_from(concepts, 0, 1, p);
        lemma_shared(tokens(concepts[i].0), concepts[j].0, 0);
        assert(concepts[i].0 == pairs_from(concepts, 0, 1)[p].first && concepts[j].0 == pairs_from(
            concepts,
            0,
            1,
        )[p].second);
        assert(has_model(concepts[i].1) == crate::scoring::is_modelled(concepts[i].1));
        assert(has_model(concepts[j].1) == crate::scoring::is_modelled(concepts[j].1));
    }
}

/// Something other than SQL declares a concept.
pub open spec fn has_model(c: ConceptView) -> bool {
    exists|i: int| 0 <= i < c.declared_in.len() && (#[trigger] c.declared_in[i]).1 != "sql"@
}

/// The pairs that are likely one concept are told apart from the others; either
/// list is cut at forty.
pub proof fn law_likely_pairs_are_told_apart(idx: IndexView, p: int, q: int)
    ensures
        ({
            let all = pairs_from(idx.concepts, 0, 1);
            let d = duplicates_of(idx);
            &&& d.suspected_duplicates.len() <= 40
            &&& d.likely_same_concept_needs_alias.len() <= 40
            &&& 0 <= p < d.suspected_duplicates.len() ==> !d.suspected_duplicates[p].unlinked
                && all.contains(d.suspected_duplicates[p])
            &&& 0 <= p < d.likely_same_concept_needs_alias.len()
                ==> d.likely_same_concept_needs_alias[p].unlinked && all.contains(
                d.likely_same_concept_needs_alias[p],
            )
            &&& 0 <= q < all.len() <= 40 ==> if all[q].unlinked {
                d.likely_same_concept_needs_alias.contains(all[q])
            } else {
                d.suspected_duplicates.contains(all[q])
            }
        }),
{
    let all = pairs_from(idx.concepts, 0, 1);
    let d = duplicates_of(idx);
    let f = each_linked();
    let g = each_unlinked();
    lemma_no_longer(all, f);
    lemma_no_longer(all, g);
    if 0 <= p < d.suspected_duplicates.len() {
        let k = lemma_filtered_from(all, f, p);
        assert(all[k] == d.suspected_duplicates[p]);
    }
    if 0 <= p < d.likely_same_concept_needs_alias.len() {
        let k = lemma_filtered_from(all, g, p);
        assert(all[k] == d.likely_same_concept_needs_alias[p]);
    }
    if 0 <= q < all.len() {
        if all[q].unlinked {
            lemma_kept_by_filter_map(all, g, q);
        } else {
            lemma_kept_by_filter_map(all, f, q);
        }
    }
}

// ---------------------------------------------------------------------------
// Links between domains
// ---------------------------------------------------------------------------

proof fn lemma_kind(list: Seq<ResourceView>, kind: Seq<char>, i: int)
    requires
        0 <= i,
    ensures
        match kind_from(list, kind, i) {
            Some(r) => exists|k: int|
                i <= k < list.len() && #[trigger] list[k] == r && r.kind == kind && forall|j: int|
                    i <= j < k ==> (#[trigger] list[j]).kind != kind,
            None => forall|j: int| i <= j < list.len() ==> (#[trigger] list[j]).kind != kind,
        },
    decreases list.len() - i,
{
    if i < list.len() {
        if list[i].kind == kind {
            assert(list[i].kind == kind);
        } else {
            lemma_kind(list, kind, i + 1);
        }
    }
}

/// A repository is linked to the code beside it where its domain may be read,
/// there is a repository and there is code; otherwise nothing is linked.
pub proof fn law_repositories_are_linked_to_their_code(
    idx: IndexView,
    git_allowed: bool,
    git: Seq<ResourceView>,
)
    ensures
        ({
            let links = same_project_links(idx, git_allowed, git);
            let found = exists|k: int|
                0 <= k < git.len() && (#[trigger] git[k]).kind == "git_repository"@;
            &&& links.len() == 1 <==> git_allowed && idx.files_scanned > 0 && found
            &&& links.len() <= 1
            &&& links.len() == 1 ==> links[0].kind == "same_project_as"@ && links[0].to == idx.root
                && links[0].evidence.tier == Tier::Declared
        }),
{
    lemma_kind(git, "git_repository"@, 0);
}

/// A service is linked to the directory that it is built from where that exists
/// strictly below the root.
pub proof fn law_services_are_linked_to_their_directory(
    root: Seq<char>,
    docker: Seq<ResourceView>,
    places: Seq<(Seq<char>, PlaceView)>,
    i: int,
    context: Seq<char>,
    rest: Seq<char>,
    p: int,
)
    ensures
        built_from_links(false, Some(root), docker, places).len() == 0,
        built_from_links(true, None, docker, places).len() == 0,
        0 <= i < docker.len() && docker[i].kind == "docker_service"@ && lookup(
            docker[i].attributes,
            "build_context"@,
        ) == Some(context) && lookup(places, context) == Some(
            PlaceView { path: root + "/"@ + rest, is_dir: true },
        ) && rest.len() > 0 && root.len() > 0 && root.last() != '/' ==> exists|q: int|
            0 <= q < built_from_links(true, Some(root), docker, places).len() && (
            #[trigger] built_from_links(true, Some(root), docker, places)[q]).from == docker[i].id
                && built_from_links(true, Some(root), docker, places)[q].to == rest
                && built_from_links(true, Some(root), docker, places)[q].kind == "built_from"@,
        0 <= p < built_from_links(true, Some(root), docker, places).len() ==> exists|k: int|
            0 <= k < docker.len() && (#[trigger] docker[k]).kind == "docker_service"@ && docker[k].id
                == built_from_links(true, Some(root), docker, places)[p].from && (lookup(
                docker[k].attributes,
                "build_context"@,
            ) matches Some(c) && lookup(places, c) matches Some(place) && place.is_dir && starts_with(
                place.path,
                root,
            ) && built_from_links(true, Some(root), docker, places)[p].to.len() > 0),
{
    let f = each_built_from(root, places);
    let all = docker.filter_map(f);
    reveal_strlit("/");
    if 0 <= i < docker.len() && docker[i].kind == "docker_service"@ && lookup(
        docker[i].attributes,
        "build_context"@,
    ) == Some(context) && lookup(places, context) == Some(
        PlaceView { path: root + "/"@ + rest, is_dir: true },
    ) && rest.len() > 0 && root.len() > 0 && root.last() != '/' {
        let path = root + "/"@ + rest;
        assert(root.skip(root.len() - 1)[0] == root.last());
        assert("/"@[0] == '/');
        assert(!crate::text::ends_with(root, "/"@));
        assert(path.take((root + "/"@).len() as int) =~= root + "/"@);
        assert(path.skip((root + "/"@).len() as int) =~= rest);
        lemma_kept_by_filter_map(docker, f, i);
        let q = choose|q: int| 0 <= q < all.len() && all[q] == f(docker[i])->Some_0;
        assert(built_from_links(true, Some(root), docker, places)[q].from == docker[i].id);
    }
    if 0 <= p < built_from_links(true, Some(root), docker, places).len() {
        let k = lemma_filtered_from(docker, f, p);
        let c = lookup(docker[k].attributes, "build_context"@)->0;
        let place = lookup(places, c)->0;
        assert(inner_path(root, place) is Some);
        let front = crate::survey::with_slash(root);
        assert(place.path.take(front.len() as int) == front);
        assert(place.path.take(root.len() as int) =~= front.take(root.len() as int));
        assert(front.take(root.len() as int) =~= root);
        assert(docker[k].kind == "docker_service"@);
    }
}

// ---------------------------------------------------------------------------
// Owners
// ---------------------------------------------------------------------------

/// A file belongs to the first directory of its path; where that only holds other
/// projects, to the directory below it.
pub proof fn law_where_a_file_belongs(path: Seq<char>)
    ensures
        ({
            let parts = split(path, '/');
            let holds = seq![
                "crates"@,
                "packages"@,
                "apps"@,
                "bin"@,
                "services"@,
                "libs"@,
                "modules"@,
            ].contains(parts[0]);
            &&& !holds ==> top_of(path) == parts[0]
            &&& holds && parts.len() > 1 && !contains(parts[1], "."@) ==> top_of(path) == parts[0]
                + "/"@ + parts[1]
            &&& parts.len() == 1 || contains(parts[1], "."@) ==> top_of(path) == parts[0]
        }),
{
    let all = seq![
        "crates"@,
        "packages"@,
        "apps"@,
        "bin"@,
        "services"@,
        "libs"@,
        "modules"@,
    ];
    assert(all[0] == "crates"@ && all[1] == "packages"@ && all[2] == "apps"@ && all[3] == "bin"@
        && all[4] == "services"@ && all[5] == "libs"@ && all[6] == "modules"@);
}

proof fn lemma_tally_ordered(list: Seq<(Seq<char>, Seq<char>)>)
    ensures
        ordered(tally(list)),
    decreases list.len(),
{
    if list.len() > 0 {
        let m = tally(list.drop_last());
        lemma_tally_ordered(list.drop_last());
        lemma_put(m, top_of(list.last().0), seen_so_far(m, top_of(list.last().0)) + 1);
    }
}

/// Each file is counted once, for the directory that it belongs to.
pub proof fn law_files_are_counted_where_they_belong(
    list: Seq<(Seq<char>, Seq<char>)>,
    file: (Seq<char>, Seq<char>),
    d: Seq<char>,
)
    ensures
        ({
            let before = lookup(tally(list), d);
            let after = lookup(tally(list.push(file)), d);
            &&& top_of(file.0) != d ==> after == before
            &&& top_of(file.0) == d && before is None ==> after == Some(1nat)
            &&& top_of(file.0) == d ==> (before matches Some(n) ==> after == Some((n + 1) as nat))
        }),
        lookup(tally(seq![]), d) is None,
{
    assert(list.push(file).drop_last() =~= list);
    lemma_tally_ordered(list);
    let m = tally(list);
    lemma_put(m, top_of(file.0), seen_so_far(m, top_of(file.0)) + 1);
    let none: Seq<(Seq<char>, Seq<char>)> = seq![];
    assert(tally(none).len() == 0);
}

/// Directories are ranked by what they have to do with a concept, a declaration
/// counting for two uses; the heaviest come first, and six are shown.
pub proof fn law_directories_are_ranked_by_weight(name: Seq<char>, c: ConceptView, i: int, j: int)
    ensures
        ({
            let r = declared_ownership(name, c).ranked_directories;
            &&& r.len() <= 6
            &&& 0 <= i < j < r.len() ==> r[i].weight >= r[j].weight
            &&& 0 <= i < r.len() ==> r[i].weight == 2 * seen_so_far(tally(c.declared_in), r[i].dir)
                + seen_so_far(tally(c.usage), r[i].dir)
        }),
{
    let t = tally(c.declared_in);
    let u = tally(c.usage);
    lemma_tally_ordered(c.declared_in);
    lemma_tally_ordered(c.usage);
    let rows = holders(c).map_values(each_weight()) + u.filter_map(each_interested(t));
    law_sorting_orders::<Weighted>(rows);
    let all = ranking(c);
    let r = declared_ownership(name, c).ranked_directories;
    if 0 <= i < j < r.len() {
        assert(!Weighted::leads(all[j], all[i]));
        assert(r[i] == all[i] && r[j] == all[j]);
    }
    if 0 <= i < r.len() {
        assert(r[i] == all[i]);
        lemma_sorted_member::<Weighted>(rows, i);
        let k = choose|k: int| 0 <= k < rows.len() && rows[k] == all[i];
        let h = holders(c);
        if k < h.len() {
            let held = t.map_values(each_holder(u));
            lemma_sorted_member::<Holder>(held, k);
            let m = choose|m: int| 0 <= m < held.len() && held[m] == h[k];
            lemma_lookup_at(t, m);
            assert(rows[k] == each_weight()(h[k]));
        } else {
            let m = lemma_filtered_from(u, each_interested(t), k - h.len());
            assert(rows[k] == u.filter_map(each_interested(t))[k - h.len()]);
            lemma_lookup_at(u, m);
            assert(lookup(t, u[m].0) is None);
        }
    }
}

/// A name that is no declared concept is owned where the code declares it, if it
/// does.
pub proof fn law_symbols_are_owned_where_they_are_declared(
    idx: IndexView,
    graph: GraphView,
    name: Seq<char>,
)
    requires
        lookup(idx.concepts, name) is None,
    ensures
        ({
            let o = ownership(idx, graph, name);
            &&& o.in_source && o.target == name
            &&& o.owner_directory is Some <==> exists|k: int|
                0 <= k < graph.symbols.len() && (#[trigger] graph.symbols[k]).1.name == name
            &&& o.owner_directory matches Some(d) ==> exists|k: int|
                0 <= k < graph.symbols.len() && (#[trigger] graph.symbols[k]).1.name == name && d
                    == top_of(graph.symbols[k].1.file) && o.declared_in == seq![
                    (graph.symbols[k].1.file, graph.symbols[k].1.kind.label_text()),
                ]
        }),
{
    lemma_symbol(graph.symbols, name, 0);
}

proof fn lemma_symbol(symbols: Seq<(Seq<char>, SymbolView)>, name: Seq<char>, i: int)
    requires
        0 <= i,
    ensures
        match symbol_from(symbols, name, i) {
            Some(s) => exists|k: int|
                i <= k < symbols.len() && (#[trigger] symbols[k]).1 == s && s.name == name,
            None => forall|k: int| i <= k < symbols.len() ==> (#[trigger] symbols[k]).1.name != name,
        },
    decreases symbols.len() - i,
{
    if i < symbols.len() && symbols[i].1.name != name {
        lemma_symbol(symbols, name, i + 1);
    } else if i < symbols.len() {
        assert(symbols[i].1.name == name);
    }
}

// ---------------------------------------------------------------------------
// Suggestions
// ---------------------------------------------------------------------------

proof fn lemma_joined_ordered(
    m: Seq<(Seq<char>, Seq<Seq<char>>)>,
    toks: Seq<Seq<char>>,
    name: Seq<char>,
)
    requires
        ordered(m),
    ensures
        ordered(joined_by(m, toks, name)),
    decreases toks.len(),
{
    if toks.len() > 0 {
        let r = joined_by(m, toks.drop_last(), name);
        let t = lowered(toks.last());
        lemma_joined_ordered(m, toks.drop_last(), name);
        lemma_put(r, t, members_of(r, t).push(name));
    }
}

proof fn lemma_families_ordered(concepts: Seq<(Seq<char>, ConceptView)>)
    ensures
        ordered(families(concepts)),
    decreases concepts.len(),
{
    if concepts.len() > 0 {
        lemma_families_ordered(concepts.drop_last());
        lemma_joined_ordered(
            families(concepts.drop_last()),
            tokens(concepts.last().0),
            concepts.last().0,
        );
    }
}

proof fn lemma_joined(
    m: Seq<(Seq<char>, Seq<Seq<char>>)>,
    toks: Seq<Seq<char>>,
    name: Seq<char>,
    tok: Seq<char>,
)
    requires
        ordered(m),
    ensures
        members_of(m, tok).is_prefix_of(members_of(joined_by(m, toks, name), tok)),
        members_of(joined_by(m, toks, name), tok).len() > members_of(m, tok).len() <==> exists|k: int|
            0 <= k < toks.len() && (#[trigger] toks[k]).len() >= 5 && !is_role_word(lowered(toks[k]))
                && lowered(toks[k]) == tok,
        forall|i: int|
            members_of(m, tok).len() <= i < members_of(joined_by(m, toks, name), tok).len()
                ==> #[trigger] members_of(joined_by(m, toks, name), tok)[i] == name,
    decreases toks.len(),
{
    let old_members = members_of(m, tok);
    let all = joined_by(m, toks, name);
    if toks.len() > 0 {
        let front = toks.drop_last();
        let r = joined_by(m, front, name);
        let t = lowered(toks.last());
        lemma_joined(m, front, name, tok);
        lemma_joined_ordered(m, front, name);
        lemma_put(r, t, members_of(r, t).push(name));
        let before = members_of(r, tok);
        let after = members_of(all, tok);
        if makes_family(toks.last()) && t == tok {
            assert(after == before.push(name));
            assert(toks[toks.len() - 1] == toks.last());
        } else {
            assert(after == before);
        }
        assert(after.subrange(0, old_members.len() as int) =~= before.subrange(
            0,
            old_members.len() as int,
        ));
        if exists|k: int|
            0 <= k < toks.len() && (#[trigger] toks[k]).len() >= 5 && !is_role_word(lowered(toks[k]))
                && lowered(toks[k]) == tok {
            let k = choose|k: int|
                0 <= k < toks.len() && (#[trigger] toks[k]).len() >= 5 && !is_role_word(
                    lowered(toks[k]),
                ) && lowered(toks[k]) == tok;
            if k < front.len() {
                assert(front[k] == toks[k]);
            }
        }
        if before.len() > old_members.len() {
            let k = choose|k: int|
                0 <= k < front.len() && (#[trigger] front[k]).len() >= 5 && !is_role_word(
                    lowered(front[k]),
                ) && lowered(front[k]) == tok;
            assert(toks[k] == front[k]);
        }
    } else {
        assert(old_members.subrange(0, old_members.len() as int) =~= old_members);
    }
}

/// A stored concept joins the family of each token of its name that has five
/// letters or more and names no role; a concept that is not stored joins none.
pub proof fn law_who_belongs_to_a_family(
    front: Seq<(Seq<char>, ConceptView)>,
    e: (Seq<char>, ConceptView),
    tok: Seq<char>,
)
    ensures
        ({
            let before = members_of(families(front), tok);
            let after = members_of(families(front.push(e)), tok);
            let joins = e.1.table is Some && exists|k: int|
                0 <= k < tokens(e.0).len() && (#[trigger] tokens(e.0)[k]).len() >= 5
                    && !is_role_word(lowered(tokens(e.0)[k])) && lowered(tokens(e.0)[k]) == tok;
            &&& before.is_prefix_of(after)
            &&& joins <==> after.len() > before.len()
            &&& forall|i: int| before.len() <= i < after.len() ==> #[trigger] after[i] == e.0
        }),
        members_of(families(seq![]), tok).len() == 0,
{
    assert(front.push(e).drop_last() =~= front);
    lemma_families_ordered(front);
    lemma_joined(families(front), tokens(e.0), e.0, tok);
    let before = members_of(families(front), tok);
    assert(before.subrange(0, before.len() as int) =~= before);
    let none: Seq<(Seq<char>, ConceptView)> = seq![];
    assert(families(none).len() == 0);
}

/// Families of three or more are brought up, unless a decision is linked to their
/// word, and the largest come first.
pub proof fn law_families_without_a_decision(idx: IndexView, f: int, p: int, q: int)
    ensures
        0 <= f < families(idx.concepts).len() && families(idx.concepts)[f].1.len() >= 3 && (forall|
            d: int,
            l: int,
        |
            0 <= d < idx.decisions.len() && 0 <= l < idx.decisions[d].links.len() ==> !is_same_word(
                #[trigger] idx.decisions[d].links[l],
                families(idx.concepts)[f].0,
            )) ==> ungoverned(idx).contains(
            FamilyView {
                token: families(idx.concepts)[f].0,
                members: families(idx.concepts)[f].1,
            },
        ),
        0 <= p < ungoverned(idx).len() ==> ungoverned(idx)[p].members.len() >= 3 && forall|
            d: int,
            l: int,
        |
            0 <= d < idx.decisions.len() && 0 <= l < idx.decisions[d].links.len() ==> !is_same_word(
                #[trigger] idx.decisions[d].links[l],
                ungoverned(idx)[p].token,
            ),
        0 <= p < q < ungoverned(idx).len() ==> ungoverned(idx)[p].members.len()
            >= ungoverned(idx)[q].members.len(),
{
    let g = each_ungoverned(idx.decisions);
    let all = families(idx.concepts);
    let rows = all.filter_map(g);
    law_sorting_orders::<Family>(rows);
    if 0 <= f < all.len() && all[f].1.len() >= 3 && (forall|d: int, l: int|
        0 <= d < idx.decisions.len() && 0 <= l < idx.decisions[d].links.len() ==> !is_same_word(
            #[trigger] idx.decisions[d].links[l],
            all[f].0,
        )) {
        if is_governed(idx.decisions, all[f].0) {
            let d = choose|d: int|
                0 <= d < idx.decisions.len() && crate::glance::links_word(
                    #[trigger] idx.decisions[d],
                    all[f].0,
                );
            let links = idx.decisions[d].links;
            let l = choose|l: int|
                0 <= l < links.len() && is_same_word(#[trigger] links[l], all[f].0);
            assert(!is_same_word(idx.decisions[d].links[l], all[f].0));
        }
        lemma_kept_by_filter_map(all, g, f);
        let k = choose|k: int| 0 <= k < rows.len() && rows[k] == g(all[f])->Some_0;
        lemma_member_sorted::<Family>(rows, k);
    }
    if 0 <= p < ungoverned(idx).len() {
        lemma_sorted_member::<Family>(rows, p);
        let k = choose|k: int| 0 <= k < rows.len() && rows[k] == ungoverned(idx)[p];
        let m = lemma_filtered_from(all, g, k);
        assert forall|d: int, l: int|
            0 <= d < idx.decisions.len() && 0 <= l < idx.decisions[d].links.len() implies !is_same_word(
            #[trigger] idx.decisions[d].links[l],
            all[m].0,
        ) by {
            if is_same_word(idx.decisions[d].links[l], all[m].0) {
                assert(crate::glance::links_word(idx.decisions[d], all[m].0));
            }
        }
    }
    if 0 <= p < q < ungoverned(idx).len() {
        assert(!Family::leads(ungoverned(idx)[q], ungoverned(idx)[p]));
    }
}

/// An alias is stale exactly where it points at no declared concept and nothing
/// answers to its target without a plural ending.
pub proof fn law_which_aliases_are_stale(idx: IndexView, a: int)
    requires
        0 <= a < idx.aliases.len(),
    ensures
        each_stale(idx)(idx.aliases[a]) is Some <==> lookup(idx.concepts, idx.aliases[a].1) is None
            && forall|i: int|
            0 <= i < idx.concepts.len() ==> !answers_to(
                (#[trigger] idx.concepts[i]).0,
                trim_end_of(idx.aliases[a].1, CharClass::Is('s')),
            ),
        each_stale(idx)(idx.aliases[a]) is Some ==> stale_aliases(idx).contains(idx.aliases[a].0),
{
    let target = trim_end_of(idx.aliases[a].1, CharClass::Is('s'));
    assert(something_answers(idx.concepts, target) <==> exists|i: int|
        0 <= i < idx.concepts.len() && answers_to((#[trigger] idx.concepts[i]).0, target));
    if each_stale(idx)(idx.aliases[a]) is Some {
        lemma_kept_by_filter_map(idx.aliases, each_stale(idx), a);
    }
}

/// Every stale alias, the largest five families and the pairs that need an alias
/// are suggested, and nothing else is.
pub proof fn law_what_is_suggested(idx: IndexView)
    ensures
        ({
            let families = if ungoverned(idx).len() <= 5 {
                ungoverned(idx).len() as int
            } else {
                5
            };
            let pairs = if duplicates_of(idx).likely_same_concept_needs_alias.len() > 0 {
                1int
            } else {
                0int
            };
            suggestions(idx).len() == families + pairs + stale_aliases(idx).len()
        }),
        forall|i: int|
            0 <= i < ungoverned(idx).len() && i < 5 ==> contains(
                #[trigger] suggestions(idx)[i],
                ungoverned(idx)[i].token,
            ),
{
    let notes = crate::model::first_of(ungoverned(idx), 5).map_values(each_family_note());
    let pairs = alias_note(duplicates_of(idx).likely_same_concept_needs_alias.len());
    assert forall|i: int| 0 <= i < ungoverned(idx).len() && i < 5 implies contains(
        #[trigger] suggestions(idx)[i],
        ungoverned(idx)[i].token,
    ) by {
        let f = ungoverned(idx)[i];
        assert(suggestions(idx)[i] == notes[i]);
        let front = "Record why "@ + crate::text::decimal(f.members.len()) + " '"@;
        let back = "' concepts exist ("@ + crate::text::join(f.members, ", "@)
            + ") — a family this size with no governing decision invites a "@ + crate::text::decimal(
            f.members.len() + 1,
        ) + "th"@;
        assert(notes[i] =~= front + f.token + back);
        lemma_holds(front, f.token, back);
    }
}

/// A decision governs a concept where one of its links is the concept's name but
/// for the case, or a word that the name answers to.
pub proof fn law_which_decisions_bear_on_a_concept(d: DecisionView, name: Seq<char>)
    ensures
        each_governing(name)(d) is Some <==> exists|l: int|
            0 <= l < d.links.len() && (crate::text::ascii_lower(#[trigger] d.links[l])
                == crate::text::ascii_lower(name) || answers_to(name, d.links[l])),
        each_governing(name)(d) matches Some(g) ==> g.id == d.id && g.decision == d.decision
            && g.rejected == d.rejected,
{
    assert(links_name(d, name) <==> exists|l: int|
        0 <= l < d.links.len() && (crate::text::ascii_lower(#[trigger] d.links[l])
            == crate::text::ascii_lower(name) || answers_to(name, d.links[l])));
}

} // verus!
