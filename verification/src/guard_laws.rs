//! What the guard against second implementations lets pass and what it stops,
//! said of verdicts, names and tables.
use vstd::prelude::*;
use vstd::utf8::encode_utf8;
use crate::answer_laws::{lemma_filter_empty, lemma_filtered_from};
use crate::guard::{
    added_text, citation, collision, concept_from, decision_from, each_added, each_refusal,
    each_warning, gate, governs, head_of, link_governs, refusal, ruling, says_something,
};
use crate::model::{
    answers_to, is_role_word, is_same_word, tokens, ConceptView, DecisionView, IndexView,
};
use crate::query::{answered, lemma_kept_by_filter_map, AnswerView, SurroundingsView, Verdict};
use crate::structural::empty_graph;
use crate::table::{has_key, lookup};
use crate::text::{
    ascii_lower, back_run, contains, in_class, join, lemma_run, lines, lowered, occurs_at, run,
    split, starts_with, trim_end_of, CharClass,
};

verus! {

// ---------------------------------------------------------------------------
// The word that a table speaks of
// ---------------------------------------------------------------------------

proof fn lemma_run_through(s: Seq<char>, k: CharClass)
    requires
        forall|i: int| 0 <= i < s.len() ==> in_class(k, #[trigger] s[i]),
    ensures
        run(s, k) == s.len(),
    decreases s.len(),
{
    if s.len() > 0 {
        assert(in_class(k, s[0]));
        assert forall|i: int| 0 <= i < s.skip(1).len() implies in_class(k, #[trigger] s.skip(1)[i]) by {
            assert(in_class(k, s[i + 1]));
        }
        lemma_run_through(s.skip(1), k);
    }
}

proof fn lemma_run_to(s: Seq<char>, t: Seq<char>, k: CharClass)
    requires
        run(s, k) < s.len(),
    ensures
        run(s + t, k) == run(s, k),
    decreases s.len(),
{
    assert((s + t)[0] == s[0]);
    if in_class(k, s[0]) {
        lemma_run_to(s.skip(1), t, k);
        assert((s + t).skip(1) =~= s.skip(1) + t);
    }
}

/// A separator and what follows it are one more part.
proof fn lemma_split_behind(p: Seq<char>, sep: char, w: Seq<char>)
    requires
        !w.contains(sep),
    ensures
        split(p.push(sep) + w, sep) == split(p, sep).push(w),
    decreases p.len(),
{
    let k = CharClass::Not(sep);
    let whole = p.push(sep) + w;
    lemma_run(p, k);
    let n = run(p, k) as int;
    if n < p.len() {
        lemma_run_to(p, seq![sep] + w, k);
        assert(whole =~= p + (seq![sep] + w));
        let rest = p.skip(n + 1);
        lemma_split_behind(rest, sep, w);
        assert(whole.skip(n + 1) =~= rest.push(sep) + w);
        assert(whole.take(n) =~= p.take(n));
        assert(split(whole, sep) =~= split(p, sep).push(w));
    } else {
        lemma_run_exact(p, sep);
        lemma_run_to(p.push(sep), w, k);
        assert(whole.take(n) =~= p);
        assert(whole.skip(n + 1) =~= w);
        assert forall|i: int| 0 <= i < w.len() implies in_class(k, #[trigger] w[i]) by {
            assert(w.contains(w[i]));
        }
        lemma_run_through(w, k);
        assert(split(w, sep) =~= seq![w]);
        assert(split(p, sep) =~= seq![p]);
        assert(split(whole, sep) =~= seq![p] + seq![w]);
    }
}

proof fn lemma_run_exact(p: Seq<char>, sep: char)
    requires
        run(p, CharClass::Not(sep)) == p.len(),
    ensures
        run(p.push(sep), CharClass::Not(sep)) == p.len(),
    decreases p.len(),
{
    let k = CharClass::Not(sep);
    if p.len() > 0 {
        assert(in_class(k, p[0]));
        lemma_run_exact(p.skip(1), sep);
        assert(p.push(sep).skip(1) =~= p.skip(1).push(sep));
        assert(p.push(sep)[0] == p[0]);
    } else {
        assert(p.push(sep)[0] == sep);
    }
}

/// A table speaks of the word behind its last underscore, and of the same one in
/// the plural.
pub proof fn law_tables_speak_of_their_last_word(front: Seq<char>, word: Seq<char>)
    requires
        word.len() > 0,
        word.last() != 's',
        !word.contains('_'),
    ensures
        head_of(word) == word,
        head_of(front.push('_') + word) == word,
        head_of(word.push('s')) == word,
        head_of((front.push('_') + word).push('s')) == word,
{
    let k = CharClass::Is('s');
    let long = front.push('_') + word;
    reveal_with_fuel(back_run, 2);
    assert(long.last() == word.last());
    assert(word.push('s').drop_last() =~= word);
    assert(long.push('s').drop_last() =~= long);
    assert(trim_end_of(word, k) =~= word);
    assert(trim_end_of(long, k) =~= long);
    assert(trim_end_of(word.push('s'), k) =~= word);
    assert(trim_end_of(long.push('s'), k) =~= long);
    lemma_split_behind(front, '_', word);
    assert forall|i: int| 0 <= i < word.len() implies in_class(
        CharClass::Not('_'),
        #[trigger] word[i],
    ) by {
        assert(word.contains(word[i]));
    }
    lemma_run_through(word, CharClass::Not('_'));
    assert(split(word, '_') =~= seq![word]);
}

// ---------------------------------------------------------------------------
// Refusals
// ---------------------------------------------------------------------------

/// A second implementation: a table whose word the project answers with a
/// declared concept, under another name than the concept's own or its table's,
/// whatever the case of the letters.
pub open spec fn is_second(idx: IndexView, around: SurroundingsView, table: Seq<char>) -> bool {
    let a = answered(idx, empty_graph(), around, head_of(table), idx.aliases.len());
    &&& a.verdict == Verdict::Active || a.verdict == Verdict::DeclaredOnly
    &&& a.canonical matches Some(name) && {
        &&& name.len() > 0
        &&& ascii_lower(table) != ascii_lower(name)
        &&& !(lookup(idx.concepts, name) matches Some(c) && c.table matches Some(t) && ascii_lower(t)
            == ascii_lower(table))
    }
}

proof fn lemma_second(idx: IndexView, around: SurroundingsView, table: Seq<char>)
    ensures
        each_refusal(idx, around)(table) is Some <==> is_second(idx, around, table),
{
}

/// A text passes the guard exactly where none of the tables that it creates is a
/// second implementation.
pub proof fn law_second_implementations_are_refused(
    idx: IndexView,
    around: SurroundingsView,
    tables: Seq<Seq<char>>,
)
    ensures
        ruling(idx, around, tables).allowed <==> forall|i: int|
            0 <= i < tables.len() ==> !is_second(idx, around, #[trigger] tables[i]),
{
    let f = each_refusal(idx, around);
    lemma_filter_empty(tables, f);
    if tables.filter_map(f).len() == 0 {
        assert forall|i: int| 0 <= i < tables.len() implies !is_second(
            idx,
            around,
            #[trigger] tables[i],
        ) by {
            assert(f(tables[i]) is None);
            lemma_second(idx, around, tables[i]);
        }
    } else {
        let i = lemma_filtered_from(tables, f, 0);
        lemma_second(idx, around, tables[i]);
        assert(tables.len() > 0);
        assert(is_second(idx, around, tables[i]));
    }
}

/// A declared model that nothing uses yet is guarded like one that is used: the
/// verdict on the concept's word decides, and a table of another name is refused.
pub proof fn law_declared_concepts_are_guarded(
    idx: IndexView,
    around: SurroundingsView,
    tables: Seq<Seq<char>>,
    i: int,
    name: Seq<char>,
)
    requires
        0 <= i < tables.len(),
        ({
            let a = answered(idx, empty_graph(), around, head_of(tables[i]), idx.aliases.len());
            &&& a.verdict == Verdict::Active || a.verdict == Verdict::DeclaredOnly
            &&& a.canonical == Some(name)
        }),
        name.len() > 0,
        ascii_lower(tables[i]) != ascii_lower(name),
        lookup(idx.concepts, name) matches Some(c) && (c.table matches Some(t) ==> ascii_lower(t)
            != ascii_lower(tables[i])),
    ensures
        !ruling(idx, around, tables).allowed,
{
    law_second_implementations_are_refused(idx, around, tables);
    assert(is_second(idx, around, tables[i]));
}

/// The guard reports on every table, in order: its word, and what the project
/// answers to it.
pub proof fn law_every_table_is_reported(
    idx: IndexView,
    around: SurroundingsView,
    tables: Seq<Seq<char>>,
    i: int,
)
    requires
        0 <= i < tables.len(),
    ensures
        ({
            let r = ruling(idx, around, tables);
            let a = answered(idx, empty_graph(), around, head_of(tables[i]), idx.aliases.len());
            &&& r.findings.len() == tables.len()
            &&& r.findings[i].proposed_table == tables[i]
            &&& r.findings[i].concept_checked == head_of(tables[i])
            &&& r.findings[i].verdict == a.verdict
            &&& r.findings[i].canonical == a.canonical
        }),
{
}

// ---------------------------------------------------------------------------
// Patches
// ---------------------------------------------------------------------------

pub proof fn lemma_join_holds(parts: Seq<Seq<char>>, sep: Seq<char>, i: int)
    requires
        0 <= i < parts.len(),
    ensures
        contains(join(parts, sep), parts[i]),
    decreases parts.len(),
{
    let whole = join(parts, sep);
    if parts.len() == 1 {
        assert(whole.subrange(0, whole.len() as int) =~= whole);
        assert(occurs_at(whole, parts[i], 0));
    } else {
        let front = join(parts.drop_last(), sep);
        if i == parts.len() - 1 {
            let at = front.len() + sep.len();
            assert(whole.subrange(at as int, whole.len() as int) =~= parts.last());
            assert(occurs_at(whole, parts[i], at as int));
        } else {
            lemma_join_holds(parts.drop_last(), sep, i);
            assert(parts.drop_last()[i] == parts[i]);
            let at = choose|at: int| occurs_at(front, parts[i], at);
            assert(whole.subrange(at, at + parts[i].len()) =~= front.subrange(
                at,
                at + parts[i].len(),
            ));
            assert(occurs_at(whole, parts[i], at));
        }
    }
}

/// Every line that a patch adds is in what it adds, without its mark; a patch
/// whose lines add nothing adds nothing.
pub proof fn law_added_lines_are_read(diff: Seq<char>, i: int)
    ensures
        0 <= i < lines(diff).len() && "+"@.is_prefix_of(lines(diff)[i]) && !"+++"@.is_prefix_of(
            lines(diff)[i],
        ) ==> contains(added_text(diff), lines(diff)[i].skip(1)),
        (forall|j: int|
            0 <= j < lines(diff).len() ==> !"+"@.is_prefix_of(#[trigger] lines(diff)[j])
                || "+++"@.is_prefix_of(lines(diff)[j])) ==> added_text(diff).len() == 0,
{
    let ls = lines(diff);
    let f = each_added();
    let kept = ls.filter_map(f);
    assert forall|s: Seq<char>, p: Seq<char>| #[trigger] starts_with(s, p) == p.is_prefix_of(s) by {
        if p.len() <= s.len() {
            assert(s.take(p.len() as int) =~= s.subrange(0, p.len() as int));
        }
    }
    if 0 <= i < ls.len() && "+"@.is_prefix_of(ls[i]) && !"+++"@.is_prefix_of(ls[i]) {
        assert(starts_with(ls[i], "+"@));
        assert(!starts_with(ls[i], "+++"@));
        lemma_kept_by_filter_map(ls, f, i);
        let k = choose|k: int| 0 <= k < kept.len() && kept[k] == ls[i].skip(1);
        lemma_join_holds(kept, "\n"@, k);
    }
    if forall|j: int|
        0 <= j < ls.len() ==> !"+"@.is_prefix_of(#[trigger] ls[j]) || "+++"@.is_prefix_of(ls[j]) {
        lemma_filter_empty(ls, f);
        assert forall|j: int| 0 <= j < ls.len() implies f(#[trigger] ls[j]) is None by {
            assert(starts_with(ls[j], "+"@) == "+"@.is_prefix_of(ls[j]));
            assert(starts_with(ls[j], "+++"@) == "+++"@.is_prefix_of(ls[j]));
        }
    }
}

/// Words that a thing's name says of its part, not of what it is.
pub proof fn law_role_words(t: Seq<char>)
    ensures
        is_role_word(t) <==> seq![
            "executor"@,
            "manager"@,
            "handler"@,
            "service"@,
            "controller"@,
            "factory"@,
            "builder"@,
            "adapter"@,
            "provider"@,
            "client"@,
            "worker"@,
            "engine"@,
            "repository"@,
            "store"@,
            "registry"@,
            "gateway"@,
            "middleware"@,
            "config"@,
            "result"@,
            "response"@,
            "request"@,
            "context"@,
            "state"@,
        ].contains(t),
{
    let all = seq![
        "executor"@,
        "manager"@,
        "handler"@,
        "service"@,
        "controller"@,
        "factory"@,
        "builder"@,
        "adapter"@,
        "provider"@,
        "client"@,
        "worker"@,
        "engine"@,
        "repository"@,
        "store"@,
        "registry"@,
        "gateway"@,
        "middleware"@,
        "config"@,
        "result"@,
        "response"@,
        "request"@,
        "context"@,
        "state"@,
    ];
    assert(all[0] == "executor"@ && all[1] == "manager"@ && all[2] == "handler"@ && all[3]
        == "service"@ && all[4] == "controller"@ && all[5] == "factory"@ && all[6] == "builder"@
        && all[7] == "adapter"@ && all[8] == "provider"@ && all[9] == "client"@ && all[10]
        == "worker"@ && all[11] == "engine"@ && all[12] == "repository"@ && all[13] == "store"@
        && all[14] == "registry"@ && all[15] == "gateway"@ && all[16] == "middleware"@ && all[17]
        == "config"@ && all[18] == "result"@ && all[19] == "response"@ && all[20] == "request"@
        && all[21] == "context"@ && all[22] == "state"@);
    if all.contains(t) {
        let i = choose|i: int| 0 <= i < all.len() && all[i] == t;
        assert(is_role_word(all[i]));
    }
}

/// A token of a new name meets a concept: it is long enough to say something, is
/// no role, and the concept answers to it.
pub open spec fn meets(tok: Seq<char>, name: Seq<char>) -> bool {
    tok.len() >= 4 && !is_role_word(lowered(tok)) && answers_to(name, tok)
}

proof fn lemma_concept_from(concepts: Seq<(Seq<char>, ConceptView)>, tok: Seq<char>, i: int)
    requires
        0 <= i,
    ensures
        match concept_from(concepts, tok, i) {
            Some(n) => exists|j: int|
                i <= j < concepts.len() && (#[trigger] concepts[j]).0 == n && answers_to(n, tok),
            None => forall|j: int|
                i <= j < concepts.len() ==> !answers_to((#[trigger] concepts[j]).0, tok),
        },
    decreases concepts.len() - i,
{
    if i < concepts.len() {
        if answers_to(concepts[i].0, tok) {
            assert(concepts[i].0 == concept_from(concepts, tok, i)->Some_0);
        } else {
            lemma_concept_from(concepts, tok, i + 1);
        }
    }
}

proof fn lemma_collision(concepts: Seq<(Seq<char>, ConceptView)>, toks: Seq<Seq<char>>)
    ensures
        match collision(concepts, toks) {
            Some((tok, n)) => toks.contains(tok) && meets(tok, n) && has_key(concepts, n),
            None => forall|i: int, j: int|
                0 <= i < toks.len() && 0 <= j < concepts.len() ==> !meets(
                    #[trigger] toks[i],
                    (#[trigger] concepts[j]).0,
                ),
        },
    decreases toks.len(),
{
    if toks.len() > 0 {
        lemma_concept_from(concepts, toks[0], 0);
        if says_something(toks[0]) && concept_from(concepts, toks[0], 0) is Some {
            assert(toks.contains(toks[0]));
        } else {
            let rest = toks.skip(1);
            lemma_collision(concepts, rest);
            match collision(concepts, rest) {
                Some((tok, n)) => {
                    let k = choose|k: int| 0 <= k < rest.len() && rest[k] == tok;
                    assert(toks[k + 1] == tok);
                },
                None => {
                    assert forall|i: int, j: int|
                        0 <= i < toks.len() && 0 <= j < concepts.len() implies !meets(
                        #[trigger] toks[i],
                        (#[trigger] concepts[j]).0,
                    ) by {
                        if i > 0 {
                            assert(rest[i - 1] == toks[i]);
                            assert(!meets(rest[i - 1], concepts[j].0));
                        }
                    }
                },
            }
        }
    }
}

/// A new name is warned of exactly where it has four bytes or more, is not itself
/// a concept, and a token of it meets one.
pub proof fn law_meeting_names_are_warned_of(idx: IndexView, name: Seq<char>)
    ensures
        match each_warning(idx)(name) {
            Some(w) => {
                &&& encode_utf8(name).len() >= 4
                &&& !has_key(idx.concepts, name)
                &&& w.new_declaration == name
                &&& tokens(name).contains(w.via_token)
                &&& has_key(idx.concepts, w.collides_with)
                &&& meets(w.via_token, w.collides_with)
            },
            None => encode_utf8(name).len() < 4 || has_key(idx.concepts, name) || forall|
                i: int,
                j: int,
            |
                0 <= i < tokens(name).len() && 0 <= j < idx.concepts.len() ==> !meets(
                    #[trigger] tokens(name)[i],
                    (#[trigger] idx.concepts[j]).0,
                ),
        },
{
    lemma_collision(idx.concepts, tokens(name));
}

/// A patch passes exactly where none of its tables is a second implementation and,
/// under a strict gate, none of its names is warned of. Every name that is to be
/// warned of is, and a refused patch bears its ruling.
pub proof fn law_what_passes_the_gate(
    idx: IndexView,
    around: SurroundingsView,
    tables: Seq<Seq<char>>,
    names: Seq<Seq<char>>,
    strict: bool,
)
    ensures
        ({
            let g = gate(idx, around, tables, names, strict);
            let refused = exists|i: int|
                0 <= i < tables.len() && is_second(idx, around, #[trigger] tables[i]);
            &&& g.strict == strict
            &&& g.pass <==> !refused && (strict ==> g.warnings.len() == 0)
            &&& g.violation is Some <==> refused
            &&& g.warnings.len() == 0 <==> forall|i: int|
                0 <= i < names.len() ==> each_warning(idx)(#[trigger] names[i]) is None
            &&& forall|i: int|
                0 <= i < names.len() ==> (each_warning(idx)(#[trigger] names[i]) matches Some(w)
                    ==> g.warnings.contains(w))
        }),
{
    law_second_implementations_are_refused(idx, around, tables);
    let f = each_warning(idx);
    lemma_filter_empty(names, f);
    assert forall|i: int| 0 <= i < names.len() implies (f(#[trigger] names[i]) matches Some(w)
        ==> names.filter_map(f).contains(w)) by {
        if f(names[i]) is Some {
            lemma_kept_by_filter_map(names, f, i);
        }
    }
}

// ---------------------------------------------------------------------------
// The words of a refusal
// ---------------------------------------------------------------------------

proof fn lemma_held(a: Seq<char>, b: Seq<char>, c: Seq<char>, x: Seq<char>)
    requires
        contains(b, x),
    ensures
        contains(a + b + c, x),
{
    let whole = a + b + c;
    let i = choose|i: int| occurs_at(b, x, i);
    assert(whole.subrange(a.len() + i, a.len() + i + x.len()) =~= b.subrange(i, i + x.len()));
    assert(occurs_at(whole, x, a.len() + i));
}

proof fn lemma_whole(x: Seq<char>)
    ensures
        contains(x, x),
{
    assert(x.subrange(0, x.len() as int) =~= x);
    assert(occurs_at(x, x, 0));
}

/// A decision speaks of a refused table where one of its links is the word that
/// the table is about, or the table's or the concept's name but for the case.
pub open spec fn speaks_of_table(d: DecisionView, table: Seq<char>, name: Seq<char>) -> bool {
    exists|l: int|
        0 <= l < d.links.len() && (is_same_word(#[trigger] d.links[l], head_of(table))
            || ascii_lower(d.links[l]) == ascii_lower(table) || ascii_lower(d.links[l])
            == ascii_lower(name))
}

proof fn lemma_cited(decisions: Seq<DecisionView>, table: Seq<char>, name: Seq<char>, i: int)
    requires
        0 <= i,
    ensures
        match decision_from(decisions, table, name, i) {
            Some(d) => exists|k: int|
                i <= k < decisions.len() && #[trigger] decisions[k] == d && speaks_of_table(
                    d,
                    table,
                    name,
                ) && forall|j: int|
                    i <= j < k ==> !speaks_of_table(#[trigger] decisions[j], table, name),
            None => forall|j: int|
                i <= j < decisions.len() ==> !speaks_of_table(#[trigger] decisions[j], table, name),
        },
    decreases decisions.len() - i,
{
    if i < decisions.len() {
        let d = decisions[i];
        assert(governs(d, table, name) <==> speaks_of_table(d, table, name)) by {
            if governs(d, table, name) {
                let l = choose|l: int|
                    0 <= l < d.links.len() && link_governs(#[trigger] d.links[l], table, name);
                assert(is_same_word(d.links[l], head_of(table)) || ascii_lower(d.links[l])
                    == ascii_lower(table) || ascii_lower(d.links[l]) == ascii_lower(name));
            }
            if speaks_of_table(d, table, name) {
                let l = choose|l: int|
                    0 <= l < d.links.len() && (is_same_word(#[trigger] d.links[l], head_of(table))
                        || ascii_lower(d.links[l]) == ascii_lower(table) || ascii_lower(d.links[l])
                        == ascii_lower(name));
                assert(link_governs(d.links[l], table, name));
            }
        }
        if !governs(d, table, name) {
            lemma_cited(decisions, table, name, i + 1);
        } else {
            assert(decisions[i] == d);
        }
    }
}

/// A refusal cites the first decision that speaks of the table: its id, its reason
/// and everything that was rejected. Where none does it cites nothing.
pub proof fn law_refusals_cite_the_decision(
    idx: IndexView,
    table: Seq<char>,
    name: Seq<char>,
    k: int,
    r: int,
)
    ensures
        0 <= k < idx.decisions.len() && speaks_of_table(idx.decisions[k], table, name) && (forall|
            j: int,
        |
            0 <= j < k ==> !speaks_of_table(#[trigger] idx.decisions[j], table, name)) ==> {
            let d = idx.decisions[k];
            let c = citation(idx, table, name);
            &&& contains(c, d.id) && contains(c, d.because)
            &&& 0 <= r < d.rejected.len() ==> contains(c, d.rejected[r])
        },
        (forall|j: int|
            0 <= j < idx.decisions.len() ==> !speaks_of_table(
                #[trigger] idx.decisions[j],
                table,
                name,
            )) ==> citation(idx, table, name).len() == 0,
{
    lemma_cited(idx.decisions, table, name, 0);
    if 0 <= k < idx.decisions.len() && speaks_of_table(idx.decisions[k], table, name) && (forall|
        j: int,
    |
        0 <= j < k ==> !speaks_of_table(#[trigger] idx.decisions[j], table, name)) {
        let d = idx.decisions[k];
        assert(decision_from(idx.decisions, table, name, 0) == Some(d));
        let c = citation(idx, table, name);
        let a = " DECLARED DECISION ('"@;
        let b = "'): "@;
        let m = " Alternatives already considered and rejected: "@;
        let list = join(d.rejected, "; "@);
        lemma_whole(d.id);
        lemma_whole(d.because);
        assert(c =~= a + d.id + (b + d.because + m + list + "."@));
        lemma_held(a, d.id, b + d.because + m + list + "."@, d.id);
        assert(c =~= (a + d.id + b) + d.because + (m + list + "."@));
        lemma_held(a + d.id + b, d.because, m + list + "."@, d.because);
        if 0 <= r < d.rejected.len() {
            lemma_join_holds(d.rejected, "; "@, r);
            assert(c =~= (a + d.id + b + d.because + m) + list + "."@);
            lemma_held(a + d.id + b + d.because + m, list, "."@, d.rejected[r]);
        }
    }
}

/// A ruling gives the refusal of every table that it refuses.
pub proof fn law_rulings_give_every_refusal(
    idx: IndexView,
    around: SurroundingsView,
    tables: Seq<Seq<char>>,
    i: int,
)
    requires
        0 <= i < tables.len(),
        each_refusal(idx, around)(tables[i]) is Some,
    ensures
        !ruling(idx, around, tables).allowed,
        contains(
            ruling(idx, around, tables).reason,
            each_refusal(idx, around)(tables[i])->Some_0,
        ),
{
    let f = each_refusal(idx, around);
    let blocked = tables.filter_map(f);
    lemma_kept_by_filter_map(tables, f, i);
    let k = choose|k: int| 0 <= k < blocked.len() && blocked[k] == f(tables[i])->Some_0;
    lemma_join_holds(blocked, " | "@, k);
}

/// A refusal names the table, the word that it is about and the concept that has
/// it already, and ends in what it cites.
pub proof fn law_refusals_name_what_exists(
    idx: IndexView,
    a: AnswerView,
    table: Seq<char>,
    name: Seq<char>,
)
    requires
        a.canonical == Some(name),
    ensures
        contains(refusal(idx, a, table), table),
        contains(refusal(idx, a, table), head_of(table)),
        contains(refusal(idx, a, table), name),
        contains(refusal(idx, a, table), a.verdict.label_text()),
        citation(idx, table, name).is_suffix_of(refusal(idx, a, table)),
{
    let h = head_of(table);
    let v = a.verdict.label_text();
    let c = citation(idx, table, name);
    let w1 = "CREATE TABLE "@ + table;
    let w2 = w1 + " rejected — '"@;
    let w3 = w2 + h;
    let w4 = w3 + "' is already "@;
    let w5 = w4 + v;
    let w6 = w5 + ", canonically implemented as '"@;
    let w7 = w6 + name;
    let w8 = w7 + "'. Extend "@;
    let w9 = w8 + name;
    let w10 = w9 + " instead."@;
    assert(refusal(idx, a, table) == w10 + c);
    lemma_behind("CREATE TABLE "@, table);
    lemma_before(w1, " rejected — '"@, table);
    lemma_before(w2, h, table);
    lemma_behind(w2, h);
    lemma_two_before(w3, "' is already "@, table, h);
    lemma_two_before(w4, v, table, h);
    lemma_behind(w4, v);
    lemma_two_before(w5, ", canonically implemented as '"@, table, h);
    lemma_before(w5, ", canonically implemented as '"@, v);
    lemma_two_before(w6, name, table, h);
    lemma_before(w6, name, v);
    lemma_behind(w6, name);
    lemma_two_before(w7, "'. Extend "@, table, h);
    lemma_two_before(w7, "'. Extend "@, v, name);
    lemma_two_before(w8, name, table, h);
    lemma_two_before(w8, name, v, name);
    lemma_two_before(w9, " instead."@, table, h);
    lemma_two_before(w9, " instead."@, v, name);
    lemma_two_before(w10, c, table, h);
    lemma_two_before(w10, c, v, name);
    let r = w10 + c;
    assert(r.subrange(r.len() - c.len(), r.len() as int) =~= c);
}

proof fn lemma_behind(a: Seq<char>, x: Seq<char>)
    ensures
        contains(a + x, x),
{
    let whole = a + x;
    assert(whole.subrange(a.len() as int, whole.len() as int) =~= x);
    assert(occurs_at(whole, x, a.len() as int));
}

proof fn lemma_before(a: Seq<char>, b: Seq<char>, x: Seq<char>)
    requires
        contains(a, x),
    ensures
        contains(a + b, x),
{
    let i = choose|i: int| occurs_at(a, x, i);
    assert((a + b).subrange(i, i + x.len()) =~= a.subrange(i, i + x.len()));
    assert(occurs_at(a + b, x, i));
}

proof fn lemma_two_before(a: Seq<char>, b: Seq<char>, x: Seq<char>, y: Seq<char>)
    requires
        contains(a, x),
        contains(a, y),
    ensures
        contains(a + b, x),
        contains(a + b, y),
{
    lemma_before(a, b, x);
    lemma_before(a, b, y);
}

} // verus!
