//! Which declared concept is the right answer when several match a term: a
//! ladder of tiers, with usage and relations to break ties within one.
use vstd::prelude::*;
use crate::shown::{blank, whole};
use crate::shown::{whole_tree, Page};
use crate::tree::{Tree, TreeView};
use crate::model::{is_same_word, same_word, Concept, ConceptView};
use crate::text::{owned, same};

verus! {

pub const MAX_USAGE_FILES: i32 = 500;

pub const MAX_RELATION_LINKS: i32 = 100;

/// The distance between tiers: one more than all ties can add up to.
pub const TIER_GAP: i32 = MAX_USAGE_FILES + MAX_RELATION_LINKS + 1;

pub const SCORE_DECLARED_ONTOLOGY: i32 = TIER_GAP * 5;

pub const SCORE_EXACT_ORM: i32 = TIER_GAP * 4;

pub const SCORE_EXACT_SQL: i32 = TIER_GAP * 3;

pub const SCORE_TOKEN_ORM: i32 = TIER_GAP * 2;

pub const SCORE_TOKEN_SQL: i32 = TIER_GAP;

pub const USAGE_PER_FILE: i32 = 1;

pub const RELATION_PER_LINK: i32 = 1;

/// The tiers, from the best down.
#[derive(Clone, Copy, Debug, PartialEq, Eq, PartialOrd, Ord, Structural)]
pub enum RankTier {
    /// The project declared the mapping itself.
    DeclaredOntology,
    /// The exact name, declared by more than a table.
    ExactOrm,
    /// The exact name, declared as a table only.
    ExactSql,
    /// A token of the name, declared by more than a table.
    TokenOrm,
    /// A token of the name, declared as a table only.
    TokenSql,
}

impl RankTier {
    pub open spec fn base(self) -> int {
        match self {
            RankTier::DeclaredOntology => 3005,
            RankTier::ExactOrm => 2404,
            RankTier::ExactSql => 1803,
            RankTier::TokenOrm => 1202,
            RankTier::TokenSql => 601,
        }
    }

    pub open spec fn label_text(self) -> Seq<char> {
        match self {
            RankTier::DeclaredOntology => "declared-ontology"@,
            RankTier::ExactOrm => "exact-orm"@,
            RankTier::ExactSql => "exact-sql"@,
            RankTier::TokenOrm => "token-orm"@,
            RankTier::TokenSql => "token-sql"@,
        }
    }

    /// How far down the ladder a tier stands.
    pub open spec fn rung(self) -> int {
        match self {
            RankTier::DeclaredOntology => 1,
            RankTier::ExactOrm => 2,
            RankTier::ExactSql => 3,
            RankTier::TokenOrm => 4,
            RankTier::TokenSql => 5,
        }
    }

    pub fn base_score(&self) -> (r: i32)
        ensures
            r == self.base(),
    {
        match self {
            RankTier::DeclaredOntology => SCORE_DECLARED_ONTOLOGY,
            RankTier::ExactOrm => SCORE_EXACT_ORM,
            RankTier::ExactSql => SCORE_EXACT_SQL,
            RankTier::TokenOrm => SCORE_TOKEN_ORM,
            RankTier::TokenSql => SCORE_TOKEN_SQL,
        }
    }

    pub fn label(&self) -> (r: &'static str)
        ensures
            r@ == self.label_text(),
    {
        match self {
            RankTier::DeclaredOntology => "declared-ontology",
            RankTier::ExactOrm => "exact-orm",
            RankTier::ExactSql => "exact-sql",
            RankTier::TokenOrm => "token-orm",
            RankTier::TokenSql => "token-sql",
        }
    }
}

/// How a candidate's score comes about.
#[derive(Debug)]
pub struct ScoreBreakdown {
    pub tier: RankTier,
    pub tier_label: String,
    pub tier_score: i32,
    pub usage_score: i32,
    pub relation_score: i32,
    pub total: i32,
}

/// Declared by something other than a bare table.
pub open spec fn is_modelled(c: ConceptView) -> bool {
    exists|i: int| 0 <= i < c.declared_in.len() && (#[trigger] c.declared_in[i]).1 != "sql"@
}

pub open spec fn tier_of(name: Seq<char>, c: ConceptView, term: Seq<char>) -> RankTier {
    match (is_same_word(name, term), is_modelled(c)) {
        (true, true) => RankTier::ExactOrm,
        (true, false) => RankTier::ExactSql,
        (false, true) => RankTier::TokenOrm,
        (false, false) => RankTier::TokenSql,
    }
}

pub open spec fn capped(n: int, cap: int) -> int {
    if n < cap {
        n
    } else {
        cap
    }
}

pub open spec fn total_score(name: Seq<char>, c: ConceptView, term: Seq<char>) -> int {
    tier_of(name, c, term).base() + capped(c.usage.len() as int, 500) + capped(
        c.relations.len() as int,
        100,
    )
}

pub fn modelled(c: &Concept) -> (r: bool)
    ensures
        r == is_modelled(c.deep_view()),
{
    let mut i: usize = 0;
    while i < c.declared_in.len()
        invariant
            i <= c.declared_in.len(),
            forall|j: int| 0 <= j < i ==> (#[trigger] c.deep_view().declared_in[j]).1 == "sql"@,
        decreases c.declared_in.len() - i,
    {
        assert(c.deep_view().declared_in[i as int].1 == c.declared_in[i as int].1@);
        if !same(c.declared_in[i].1.as_str(), "sql") {
            return true;
        }
        i += 1;
    }
    false
}

/// The tier of a candidate for a term.
pub fn tier(name: &str, concept: &Concept, term: &str) -> (r: RankTier)
    ensures
        r == tier_of(name@, concept.deep_view(), term@),
{
    match (same_word(name, term), modelled(concept)) {
        (true, true) => RankTier::ExactOrm,
        (true, false) => RankTier::ExactSql,
        (false, true) => RankTier::TokenOrm,
        (false, false) => RankTier::TokenSql,
    }
}

fn capped_len(n: usize, cap: i32) -> (r: i32)
    requires
        0 <= cap,
    ensures
        r == capped(n as int, cap as int),
{
    if n < cap as usize {
        n as i32
    } else {
        cap
    }
}

/// A candidate's score, with how it comes about.
pub fn score(name: &str, concept: &Concept, term: &str) -> (r: ScoreBreakdown)
    ensures
        r.tier == tier_of(name@, concept.deep_view(), term@),
        r.tier_label@ == r.tier.label_text(),
        r.tier_score == r.tier.base(),
        r.usage_score == capped(concept.usage@.len() as int, 500),
        r.relation_score == capped(concept.relations@.len() as int, 100),
        r.total == total_score(name@, concept.deep_view(), term@),
        r.total == r.tier_score + r.usage_score + r.relation_score,
        r.usage_score <= 500 && r.usage_score <= concept.usage@.len(),
        r.usage_score == 500 || r.usage_score == concept.usage@.len(),
        r.relation_score <= 100 && r.relation_score <= concept.relations@.len(),
        r.relation_score == 100 || r.relation_score == concept.relations@.len(),
{
    let t = tier(name, concept, term);
    let tier_score: i32 = t.base_score();
    let usage_score: i32 = capped_len(concept.usage.len(), MAX_USAGE_FILES) * USAGE_PER_FILE;
    let relation_score: i32 = capped_len(concept.relations.len(), MAX_RELATION_LINKS)
        * RELATION_PER_LINK;
    assert(concept.deep_view().usage.len() == concept.usage@.len());
    assert(concept.deep_view().relations.len() == concept.relations@.len());
    ScoreBreakdown {
        tier: t,
        tier_label: owned(t.label()),
        tier_score,
        usage_score,
        relation_score,
        total: tier_score + usage_score + relation_score,
    }
}

/// A candidate's total score.
pub fn rank(name: &str, concept: &Concept, term: &str) -> (r: i32)
    ensures
        r == total_score(name@, concept.deep_view(), term@),
{
    score(name, concept, term).total
}

// ---------------------------------------------------------------------------
// Laws
// ---------------------------------------------------------------------------

/// No amount of usage or relations lifts a candidate over one in a better tier.
pub proof fn law_tier_dominates(
    name: Seq<char>,
    c: ConceptView,
    other_name: Seq<char>,
    other: ConceptView,
    term: Seq<char>,
)
    requires
        tier_of(name, c, term).rung() < tier_of(other_name, other, term).rung(),
    ensures
        total_score(name, c, term) > total_score(other_name, other, term),
{
}

/// An exact name outranks every token match.
pub proof fn law_exact_outranks_token(
    name: Seq<char>,
    c: ConceptView,
    other_name: Seq<char>,
    other: ConceptView,
    term: Seq<char>,
)
    requires
        is_same_word(name, term),
        !is_same_word(other_name, term),
    ensures
        total_score(name, c, term) > total_score(other_name, other, term),
{
}

/// Among equally exact matches a model outranks a bare table.
pub proof fn law_model_outranks_table(
    name: Seq<char>,
    c: ConceptView,
    other_name: Seq<char>,
    other: ConceptView,
    term: Seq<char>,
)
    requires
        is_same_word(name, term) == is_same_word(other_name, term),
        is_modelled(c),
        !is_modelled(other),
    ensures
        total_score(name, c, term) > total_score(other_name, other, term),
{
}

/// Of two candidates of one tier with equally many relations, the more used one
/// scores higher, up to five hundred files.
pub proof fn law_more_use_scores_higher(
    name: Seq<char>,
    c: ConceptView,
    other_name: Seq<char>,
    other: ConceptView,
    term: Seq<char>,
)
    requires
        is_same_word(name, term) == is_same_word(other_name, term),
        (exists|i: int| 0 <= i < c.declared_in.len() && (#[trigger] c.declared_in[i]).1 != "sql"@) == (
        exists|i: int|
            0 <= i < other.declared_in.len() && (#[trigger] other.declared_in[i]).1 != "sql"@),
        c.relations.len() == other.relations.len(),
        c.usage.len() > other.usage.len(),
        other.usage.len() < 500,
    ensures
        total_score(name, c, term) > total_score(other_name, other, term),
{
}

/// Of two candidates of one tier that are used equally, the one with more
/// relations scores higher, up to a hundred.
pub proof fn law_more_relations_score_higher(
    name: Seq<char>,
    c: ConceptView,
    other_name: Seq<char>,
    other: ConceptView,
    term: Seq<char>,
)
    requires
        is_same_word(name, term) == is_same_word(other_name, term),
        (exists|i: int| 0 <= i < c.declared_in.len() && (#[trigger] c.declared_in[i]).1 != "sql"@) == (
        exists|i: int|
            0 <= i < other.declared_in.len() && (#[trigger] other.declared_in[i]).1 != "sql"@),
        c.usage.len() == other.usage.len(),
        c.relations.len() > other.relations.len(),
        other.relations.len() < 100,
    ensures
        total_score(name, c, term) > total_score(other_name, other, term),
{
}

/// Every using file and every relation counts one, on top of a base that only the
/// exactness of the name and the kind of declaration decide.
pub proof fn law_scores_add_up(name: Seq<char>, c: ConceptView, term: Seq<char>)
    ensures
        ({
            let used = if c.usage.len() < 500 {
                c.usage.len() as int
            } else {
                500
            };
            let related = if c.relations.len() < 100 {
                c.relations.len() as int
            } else {
                100
            };
            let exact = is_same_word(name, term);
            let modelled = exists|i: int|
                0 <= i < c.declared_in.len() && (#[trigger] c.declared_in[i]).1 != "sql"@;
            total_score(name, c, term) - used - related == 601 * (if exact && modelled {
                4int
            } else if exact {
                3
            } else if modelled {
                2
            } else {
                1
            })
        }),
{
}

// ---------------------------------------------------------------------------
// As trees
// ---------------------------------------------------------------------------

/// A score with its parts.
pub open spec fn score_tree(b: &ScoreBreakdown) -> TreeView {
    TreeView::Table(
        blank()
            .push(("tier"@, TreeView::Text(b.tier_label@)))
            .push(("tier_score"@, whole(b.tier_score as int)))
            .push(("usage_score"@, whole(b.usage_score as int)))
            .push(("relation_score"@, whole(b.relation_score as int)))
            .push(("total"@, whole(b.total as int))),
    )
}

impl ScoreBreakdown {
    /// Shows a score with its parts.
    pub fn to_json(&self) -> (r: Tree)
        ensures
            r.deep_view() == score_tree(self),
    {
        Page::new()
            .with_text("tier", self.tier_label.as_str())
            .with("tier_score", whole_tree(self.tier_score as i64))
            .with("usage_score", whole_tree(self.usage_score as i64))
            .with("relation_score", whole_tree(self.relation_score as i64))
            .with("total", whole_tree(self.total as i64))
            .done()
    }
}

/// The rungs are five, and each is worth six hundred and one more than the next:
/// more than all use and all relations can add.
pub proof fn law_rungs_are_evenly_spaced(t: RankTier)
    ensures
        t.base() == 601 * (6 - t.rung()),
        1 <= t.rung() <= 5,
        t == RankTier::DeclaredOntology <==> t.rung() == 1,
        t == RankTier::ExactOrm <==> t.rung() == 2,
        t == RankTier::ExactSql <==> t.rung() == 3,
        t == RankTier::TokenOrm <==> t.rung() == 4,
        t == RankTier::TokenSql <==> t.rung() == 5,
{
}

} // verus!
