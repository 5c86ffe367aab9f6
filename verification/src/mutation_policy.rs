//! Which declared decisions stand behind a change. Settings are read as TOML;
//! comments and unrelated records never authorise anything.
use vstd::prelude::*;
use crate::model::DecisionStatus;
use crate::outside::{parse_toml, toml_tree};
use crate::patch::outcome;
use crate::table::{has_key, lookup, ordered, put, sorted_distinct, sorted_set, TextMap};
use crate::text::{before, contains, join, occurs_at, quoted, trim};
use crate::text::{
    blank, chars_of, copied_option, cut, holds, joined, listed, owned, quote, same, same_option,
    stands_at, trimmed,
};
use crate::tree::{field, lemma_list_view, lemma_table_view, part, text, text_part, Tree, TreeView};

verus! {

/// A decision as far as it can authorise a change.
#[derive(Debug)]
pub struct Authorization {
    pub id: String,
    pub decision: String,
    pub because: String,
    pub rejected: Vec<String>,
    pub links: Vec<String>,
    pub status: DecisionStatus,
    pub superseded_by: Option<String>,
}

pub struct AuthorizationView {
    pub id: Seq<char>,
    pub decision: Seq<char>,
    pub because: Seq<char>,
    pub rejected: Seq<Seq<char>>,
    pub links: Seq<Seq<char>>,
    pub status: DecisionStatus,
    pub superseded_by: Option<Seq<char>>,
}

impl DeepView for Authorization {
    type V = AuthorizationView;

    open spec fn deep_view(&self) -> AuthorizationView {
        AuthorizationView {
            id: self.id@,
            decision: self.decision@,
            because: self.because@,
            rejected: self.rejected.deep_view(),
            links: self.links.deep_view(),
            status: self.status,
            superseded_by: self.superseded_by.deep_view(),
        }
    }
}

// ---------------------------------------------------------------------------
// Records
// ---------------------------------------------------------------------------

/// The texts of a list that holds nothing but texts; a missing list is empty.
pub open spec fn strict_texts(t: Option<TreeView>) -> Option<Seq<Seq<char>>> {
    match t {
        None => Some(seq![]),
        Some(TreeView::List(items)) => all_texts(items),
        _ => None,
    }
}

pub open spec fn all_texts(items: Seq<TreeView>) -> Option<Seq<Seq<char>>>
    decreases items.len(),
{
    if items.len() == 0 {
        Some(seq![])
    } else {
        match (all_texts(items.drop_last()), text(items.last())) {
            (Some(r), Some(t)) => Some(r.push(t)),
            _ => None,
        }
    }
}

/// The status that a word stands for.
pub open spec fn status_named(s: Seq<char>) -> Option<DecisionStatus> {
    if s == "active"@ {
        Some(DecisionStatus::Active)
    } else if s == "superseded"@ {
        Some(DecisionStatus::Superseded)
    } else if s == "retired"@ {
        Some(DecisionStatus::Retired)
    } else {
        None
    }
}

/// A table or a list without anything in it.
pub open spec fn is_bare(t: TreeView) -> bool {
    match t {
        TreeView::Table(entries) => entries.len() == 0,
        TreeView::List(items) => items.len() == 0,
        _ => false,
    }
}

/// The status that a record states, by its word or by a table with the word as
/// its one key and nothing under it; one that states none is active.
pub open spec fn status_in(t: Option<TreeView>) -> Option<DecisionStatus> {
    match t {
        None => Some(DecisionStatus::Active),
        Some(TreeView::Text(s)) => status_named(s),
        Some(TreeView::Table(entries)) => if entries.len() == 1 && is_bare(entries[0].1) {
            status_named(entries[0].0)
        } else {
            None
        },
        _ => None,
    }
}

/// A text that may be missing; nothing where something else stands there.
pub open spec fn optional_text(t: Option<TreeView>) -> Option<Option<Seq<char>>> {
    match t {
        None => Some(None),
        Some(TreeView::Text(s)) => Some(Some(s)),
        _ => None,
    }
}

/// A record as it is written, with a key for each of its parts or with the parts
/// in order; nothing where one is missing or of the wrong kind.
pub open spec fn record_in(t: TreeView) -> Option<AuthorizationView> {
    match (
        (text_part(t, "id"@, 0), text_part(t, "decision"@, 1), text_part(t, "because"@, 2)),
        (strict_texts(part(t, "rejected"@, 3)), strict_texts(part(t, "links"@, 4))),
        (status_in(part(t, "status"@, 5)), optional_text(part(t, "superseded_by"@, 6))),
    ) {
        (
            (Some(id), Some(decision), Some(because)),
            (Some(rejected), Some(links)),
            (Some(status), Some(superseded_by)),
        ) => Some(
            AuthorizationView { id, decision, because, rejected, links, status, superseded_by },
        ),
        _ => None,
    }
}

pub open spec fn records_in(items: Seq<TreeView>) -> Option<Seq<AuthorizationView>>
    decreases items.len(),
{
    if items.len() == 0 {
        Some(seq![])
    } else {
        match (records_in(items.drop_last()), record_in(items.last())) {
            (Some(r), Some(x)) => Some(r.push(x)),
            _ => None,
        }
    }
}

/// The records of a settings tree.
pub open spec fn written_records(t: TreeView) -> Option<Seq<AuthorizationView>> {
    match field(t, "decision"@) {
        None => Some(seq![]),
        Some(TreeView::List(items)) => records_in(items),
        _ => None,
    }
}

pub open spec fn has_blank(list: Seq<Seq<char>>) -> bool {
    exists|i: int| 0 <= i < list.len() && trim(#[trigger] list[i]).len() == 0
}

pub open spec fn is_blank_record(r: AuthorizationView) -> bool {
    trim(r.id).len() == 0 || trim(r.decision).len() == 0 || trim(r.because).len() == 0 || has_blank(
        r.links,
    )
}

/// A record in its plain form: neither blanks round its texts nor the order of
/// its lists matters.
pub open spec fn plain_record(r: AuthorizationView) -> AuthorizationView {
    AuthorizationView {
        id: trim(r.id),
        decision: trim(r.decision),
        because: trim(r.because),
        rejected: sorted_set(r.rejected),
        links: sorted_set(r.links),
        status: r.status,
        superseded_by: r.superseded_by,
    }
}

/// The records by id; each is whole, and no id occurs twice.
pub open spec fn by_id(list: Seq<AuthorizationView>) -> Result<
    Seq<(Seq<char>, AuthorizationView)>,
    Seq<char>,
>
    decreases list.len(),
{
    if list.len() == 0 {
        Ok(seq![])
    } else {
        match by_id(list.drop_last()) {
            Err(e) => Err(e),
            Ok(m) => {
                let r = plain_record(list.last());
                if is_blank_record(list.last()) {
                    Err("decision id, decision, because, and supplied links must be nonempty"@)
                } else if has_key(m, r.id) {
                    Err("duplicate decision id "@ + quoted(r.id))
                } else {
                    Ok(put(m, r.id, r))
                }
            },
        }
    }
}

/// What is wrong with the life of one record.
pub open spec fn lifecycle_fault(
    records: Seq<(Seq<char>, AuthorizationView)>,
    id: Seq<char>,
    r: AuthorizationView,
) -> Option<Seq<char>> {
    if r.status == DecisionStatus::Superseded {
        match r.superseded_by {
            None => Some("superseded decision "@ + quoted(id) + " must name superseded_by"@),
            Some(target) => if target == id {
                Some("decision "@ + quoted(id) + " cannot supersede itself"@)
            } else {
                match lookup(records, target) {
                    None => Some(
                        "decision "@ + quoted(id) + " superseded_by target "@ + quoted(target)
                            + " does not exist"@,
                    ),
                    Some(s) => if s.status != DecisionStatus::Active {
                        Some(
                            "decision "@ + quoted(id) + " superseded_by target "@ + quoted(target)
                                + " is not active"@,
                        )
                    } else {
                        None
                    },
                }
            },
        }
    } else if r.superseded_by is Some {
        Some("decision "@ + quoted(id) + " has superseded_by but status is not superseded"@)
    } else {
        None
    }
}

/// The first fault from `i` on.
pub open spec fn fault_from(records: Seq<(Seq<char>, AuthorizationView)>, i: int) -> Option<Seq<char>>
    decreases records.len() - i,
{
    if i < 0 || i >= records.len() {
        None
    } else {
        match lifecycle_fault(records, records[i].0, records[i].1) {
            Some(e) => Some(e),
            None => fault_from(records, i + 1),
        }
    }
}

/// The records of a settings tree by id, or what is wrong with them.
pub open spec fn declared_records(t: TreeView) -> Result<
    Seq<(Seq<char>, AuthorizationView)>,
    Seq<char>,
> {
    match written_records(t) {
        None => Err("invalid decision configuration: malformed decision"@),
        Some(list) => match by_id(list) {
            Err(e) => Err(e),
            Ok(m) => match fault_from(m, 0) {
                Some(e) => Err(e),
                None => Ok(m),
            },
        },
    }
}

/// The records of a settings file by id, or what is wrong with them.
pub open spec fn decisions_in(toml: Seq<char>) -> Result<
    Seq<(Seq<char>, AuthorizationView)>,
    Seq<char>,
> {
    match toml_tree(toml) {
        Err(e) => Err("invalid decision configuration: "@ + e),
        Ok(t) => declared_records(t),
    }
}

/// The texts of a list that holds nothing but texts; a missing list is empty.
pub fn strict_list(t: Option<&Tree>) -> (r: Option<Vec<String>>)
    ensures
        r.deep_view() == strict_texts(
            match t {
                Some(x) => Some(x.deep_view()),
                None => None,
            },
        ),
{
    let mut out: Vec<String> = Vec::new();
    assert(out.deep_view() =~= seq![]);
    match t {
        None => Some(out),
        Some(Tree::List(v)) => {
            let ghost items = v.deep_view();
            let mut i: usize = 0;
            proof {
                lemma_list_view(*v);
            }
            while i < v.len()
                invariant
                    i <= v.len(),
                    items == v.deep_view(),
                    t matches Some(x) && x.deep_view() == TreeView::List(items),
                    all_texts(items.take(i as int)) == Some(out.deep_view()),
                decreases v.len() - i,
            {
                let ghost so_far = out.deep_view();
                proof {
                    let step = items.take(i + 1);
                    assert(step.drop_last() =~= items.take(i as int));
                    assert(step.last() == v[i as int].deep_view());
                }
                match v[i].text() {
                    Some(s) => {
                        let ghost sv = s@;
                        out.push(s);
                        assert(out.deep_view() =~= so_far.push(sv));
                    },
                    None => {
                        proof {
                            lemma_one_bad_text(items, i as int);
                        }
                        return None;
                    },
                }
                i += 1;
            }
            assert(items.take(i as int) =~= items);
            Some(out)
        },
        _ => None,
    }
}

proof fn lemma_one_bad_text(items: Seq<TreeView>, i: int)
    requires
        0 <= i < items.len(),
        text(items[i]) is None,
    ensures
        all_texts(items) is None,
    decreases items.len(),
{
    if i < items.len() - 1 {
        lemma_one_bad_text(items.drop_last(), i);
    }
}

proof fn lemma_one_bad_record(items: Seq<TreeView>, i: int)
    requires
        0 <= i < items.len(),
        record_in(items[i]) is None,
    ensures
        records_in(items) is None,
    decreases items.len(),
{
    if i < items.len() - 1 {
        lemma_one_bad_record(items.drop_last(), i);
    }
}

fn named_status(s: &str) -> (r: Option<DecisionStatus>)
    ensures
        r == status_named(s@),
{
    if same(s, "active") {
        Some(DecisionStatus::Active)
    } else if same(s, "superseded") {
        Some(DecisionStatus::Superseded)
    } else if same(s, "retired") {
        Some(DecisionStatus::Retired)
    } else {
        None
    }
}

fn bare(t: &Tree) -> (r: bool)
    ensures
        r == is_bare(t.deep_view()),
{
    match t {
        Tree::Table(v) => {
            proof {
                lemma_table_view(*v);
            }
            v.len() == 0
        },
        Tree::List(v) => {
            proof {
                lemma_list_view(*v);
            }
            v.len() == 0
        },
        _ => false,
    }
}

fn status_of(t: Option<&Tree>) -> (r: Option<DecisionStatus>)
    ensures
        r == status_in(
            match t {
                Some(x) => Some(x.deep_view()),
                None => None,
            },
        ),
{
    match t {
        None => Some(DecisionStatus::Active),
        Some(Tree::Text(s)) => named_status(s.as_str()),
        Some(Tree::Table(v)) => {
            proof {
                lemma_table_view(*v);
            }
            if v.len() != 1 {
                return None;
            }
            assert(v.deep_view()[0] == (v@[0].0@, v@[0].1.deep_view()));
            if bare(&v[0].1) {
                named_status(v[0].0.as_str())
            } else {
                None
            }
        },
        _ => None,
    }
}

fn record_of(t: &Tree) -> (r: Option<Authorization>)
    ensures
        r.deep_view() == record_in(t.deep_view()),
{
    let superseded_by = match t.part("superseded_by", 6) {
        None => None,
        Some(Tree::Text(s)) => Some(owned(s.as_str())),
        _ => {
            return None;
        },
    };
    match (
        (t.text_part("id", 0), t.text_part("decision", 1), t.text_part("because", 2)),
        (strict_list(t.part("rejected", 3)), strict_list(t.part("links", 4))),
        status_of(t.part("status", 5)),
    ) {
        ((Some(id), Some(decision), Some(because)), (Some(rejected), Some(links)), Some(status)) => {
            Some(
                Authorization { id, decision, because, rejected, links, status, superseded_by },
            )
        },
        _ => None,
    }
}

fn records_of(t: &Tree) -> (r: Option<Vec<Authorization>>)
    ensures
        r.deep_view() == written_records(t.deep_view()),
{
    let mut out: Vec<Authorization> = Vec::new();
    assert(out.deep_view() =~= seq![]);
    match t.field("decision") {
        None => Some(out),
        Some(Tree::List(v)) => {
            let ghost items = v.deep_view();
            let mut i: usize = 0;
            proof {
                lemma_list_view(*v);
            }
            while i < v.len()
                invariant
                    i <= v.len(),
                    items == v.deep_view(),
                    field(t.deep_view(), "decision"@) == Some(TreeView::List(items)),
                    records_in(items.take(i as int)) == Some(out.deep_view()),
                decreases v.len() - i,
            {
                let ghost so_far = out.deep_view();
                proof {
                    let step = items.take(i + 1);
                    assert(step.drop_last() =~= items.take(i as int));
                    assert(step.last() == v[i as int].deep_view());
                }
                match record_of(&v[i]) {
                    Some(x) => {
                        let ghost xv = x.deep_view();
                        out.push(x);
                        assert(out.deep_view() =~= so_far.push(xv));
                    },
                    None => {
                        proof {
                            lemma_one_bad_record(items, i as int);
                        }
                        return None;
                    },
                }
                i += 1;
            }
            assert(items.take(i as int) =~= items);
            Some(out)
        },
        _ => None,
    }
}

fn any_blank(list: &Vec<String>) -> (r: bool)
    ensures
        r == has_blank(list.deep_view()),
{
    let mut i: usize = 0;
    while i < list.len()
        invariant
            i <= list.len(),
            forall|j: int| 0 <= j < i ==> trim(#[trigger] list.deep_view()[j]).len() != 0,
        decreases list.len() - i,
    {
        assert(list.deep_view()[i as int] == list[i as int]@);
        if blank(list[i].as_str()) {
            return true;
        }
        i += 1;
    }
    false
}

fn plain(r: &Authorization) -> (out: Authorization)
    ensures
        out.deep_view() == plain_record(r.deep_view()),
{
    Authorization {
        id: trimmed(r.id.as_str()),
        decision: trimmed(r.decision.as_str()),
        because: trimmed(r.because.as_str()),
        rejected: sorted_distinct(&r.rejected),
        links: sorted_distinct(&r.links),
        status: r.status,
        superseded_by: copied_option(&r.superseded_by),
    }
}

proof fn lemma_error_stays(list: Seq<AuthorizationView>, i: int)
    requires
        0 <= i <= list.len(),
        by_id(list.take(i)) is Err,
    ensures
        by_id(list) == by_id(list.take(i)),
    decreases list.len() - i,
{
    if i < list.len() {
        let step = list.take(i + 1);
        assert(step.drop_last() =~= list.take(i));
        lemma_error_stays(list, i + 1);
    } else {
        assert(list.take(i) =~= list);
    }
}

fn index_by_id(list: &Vec<Authorization>) -> (r: Result<TextMap<Authorization>, String>)
    ensures
        outcome(r) == by_id(list.deep_view()),
{
    let ghost lv = list.deep_view();
    let mut m: TextMap<Authorization> = TextMap::new();
    let mut i: usize = 0;
    assert(by_id(lv.take(0)) == Ok::<Seq<(Seq<char>, AuthorizationView)>, Seq<char>>(m.deep_view()));
    while i < list.len()
        invariant
            i <= list.len(),
            lv == list.deep_view(),
            by_id(lv.take(i as int)) == Ok::<Seq<(Seq<char>, AuthorizationView)>, Seq<char>>(
                m.deep_view(),
            ),
        decreases list.len() - i,
    {
        let r = &list[i];
        let ghost step = lv.take(i + 1);
        proof {
            assert(step.drop_last() =~= lv.take(i as int));
            assert(step.last() == r.deep_view());
        }
        if blank(r.id.as_str()) || blank(r.decision.as_str()) || blank(r.because.as_str())
            || any_blank(&r.links) {
            assert(by_id(step) is Err);
            proof {
                lemma_error_stays(lv, i + 1);
            }
            return Err(
                owned("decision id, decision, because, and supplied links must be nonempty"),
            );
        }
        let x = plain(r);
        if m.has(x.id.as_str()) {
            assert(by_id(step) is Err);
            proof {
                lemma_error_stays(lv, i + 1);
            }
            let mut e = owned("duplicate decision id ");
            e.append(quote(x.id.as_str()).as_str());
            return Err(e);
        }
        let id = owned(x.id.as_str());
        m = m.with(id, x);
        i += 1;
    }
    assert(lv.take(i as int) =~= lv);
    Ok(m)
}

fn fault_of(records: &TextMap<Authorization>, id: &str, r: &Authorization) -> (out: Option<String>)
    ensures
        out.deep_view() == lifecycle_fault(records.deep_view(), id@, r.deep_view()),
{
    match r.status {
        DecisionStatus::Superseded => {
            let target = match &r.superseded_by {
                Some(t) => t.as_str(),
                None => {
                    let mut e = owned("superseded decision ");
                    e.append(quote(id).as_str());
                    e.append(" must name superseded_by");
                    return Some(e);
                },
            };
            let mut e = owned("decision ");
            e.append(quote(id).as_str());
            if same(target, id) {
                e.append(" cannot supersede itself");
                return Some(e);
            }
            e.append(" superseded_by target ");
            e.append(quote(target).as_str());
            match records.get(target) {
                None => {
                    e.append(" does not exist");
                    Some(e)
                },
                Some(s) => {
                    let active = match s.status {
                        DecisionStatus::Active => true,
                        _ => false,
                    };
                    if active {
                        None
                    } else {
                        e.append(" is not active");
                        Some(e)
                    }
                },
            }
        },
        _ => {
            if r.superseded_by.is_some() {
                let mut e = owned("decision ");
                e.append(quote(id).as_str());
                e.append(" has superseded_by but status is not superseded");
                Some(e)
            } else {
                None
            }
        },
    }
}

fn validate_lifecycle(records: &TextMap<Authorization>) -> (r: Option<String>)
    ensures
        r.deep_view() == fault_from(records.deep_view(), 0),
{
    let ghost rv = records.deep_view();
    let n: usize = records.len();
    let mut i: usize = 0;
    while i < n
        invariant
            i <= n,
            n == rv.len(),
            rv == records.deep_view(),
            fault_from(rv, 0) == fault_from(rv, i as int),
        decreases n - i,
    {
        if let Some(e) = fault_of(records, records.key(i), records.value(i)) {
            return Some(e);
        }
        i += 1;
    }
    None
}

/// The records of a settings tree by id, or what is wrong with them.
pub fn records(t: &Tree) -> (r: Result<TextMap<Authorization>, String>)
    ensures
        outcome(r) == declared_records(t.deep_view()),
{
    match records_of(t) {
        None => Err(owned("invalid decision configuration: malformed decision")),
        Some(list) => match index_by_id(&list) {
            Err(e) => Err(e),
            Ok(m) => match validate_lifecycle(&m) {
                Some(e) => Err(e),
                None => Ok(m),
            },
        },
    }
}

fn decisions(toml: &str) -> (r: Result<TextMap<Authorization>, String>)
    ensures
        outcome(r) == decisions_in(toml@),
{
    match parse_toml(toml) {
        Err(why) => {
            let mut e = owned("invalid decision configuration: ");
            e.append(why.as_str());
            Err(e)
        },
        Ok(t) => records(&t),
    }
}

// ---------------------------------------------------------------------------
// Names
// ---------------------------------------------------------------------------

/// What a name stands for at the end of its chain of aliases. A chain of more
/// than `steps` aliases, of which there are no more, goes in a circle.
pub open spec fn resolved(
    aliases: Seq<(Seq<char>, Seq<char>)>,
    name: Seq<char>,
    current: Seq<char>,
    steps: nat,
) -> Result<Seq<char>, Seq<char>>
    decreases steps,
{
    match lookup(aliases, current) {
        None => Ok(current),
        Some(next) => if steps == 0 {
            Err("alias cycle while resolving "@ + quoted(name))
        } else if trim(next).len() == 0 {
            Err("empty alias target for "@ + quoted(current))
        } else {
            resolved(aliases, name, next, (steps - 1) as nat)
        },
    }
}

pub open spec fn canonical_name(aliases: Seq<(Seq<char>, Seq<char>)>, name: Seq<char>) -> Result<
    Seq<char>,
    Seq<char>,
> {
    resolved(aliases, name, name, aliases.len())
}

/// The last place of `p` in `s` that is not behind `i`.
pub open spec fn last_place(s: Seq<char>, p: Seq<char>, i: int) -> Option<int>
    decreases i + 1,
{
    if i < 0 {
        None
    } else if occurs_at(s, p, i) {
        Some(i)
    } else {
        last_place(s, p, i - 1)
    }
}

/// The part of a qualified name behind its last `::`.
pub open spec fn own_part(s: Seq<char>) -> Seq<char> {
    match last_place(s, "::"@, s.len() - 2) {
        Some(i) => s.skip(i + 2),
        None => s,
    }
}

/// A link speaks of an identity: in full where it is qualified, else by its own
/// part.
pub open spec fn speaks_of(link: Seq<char>, identity: Seq<char>) -> bool {
    if contains(link, "::"@) {
        identity == link
    } else {
        own_part(identity) == link
    }
}

/// What a name stands for at the end of its chain of aliases.
pub fn canonical(name: &str, aliases: &TextMap<String>) -> (r: Result<String, String>)
    ensures
        outcome(r) == canonical_name(aliases.deep_view(), name@),
{
    let ghost av = aliases.deep_view();
    let mut steps: usize = aliases.len();
    let mut current = owned(name);
    loop
        invariant
            av == aliases.deep_view(),
            canonical_name(av, name@) == resolved(av, name@, current@, steps as nat),
        decreases steps,
    {
        match aliases.get(current.as_str()) {
            None => {
                return Ok(current);
            },
            Some(next) => {
                if steps == 0 {
                    let mut e = owned("alias cycle while resolving ");
                    e.append(quote(name).as_str());
                    return Err(e);
                }
                if blank(next.as_str()) {
                    let mut e = owned("empty alias target for ");
                    e.append(quote(current.as_str()).as_str());
                    return Err(e);
                }
                current = owned(next.as_str());
                steps -= 1;
            },
        }
    }
}

fn own_part_of(s: &str) -> (r: String)
    ensures
        r@ == own_part(s@),
{
    let cs = chars_of(s);
    let ps = chars_of("::");
    proof {
        reveal_strlit("::");
    }
    if cs.len() < 2 {
        return owned(s);
    }
    let mut i: usize = cs.len() - 2;
    loop
        invariant
            i + 2 <= cs.len(),
            cs@ == s@,
            ps@ == "::"@,
            ps@.len() == 2,
            last_place(s@, "::"@, s@.len() - 2) == last_place(s@, "::"@, i as int),
        decreases i,
    {
        if stands_at(&cs, &ps, i) {
            let out = cut(&cs, i + 2, cs.len());
            assert(out@ =~= s@.skip(i + 2));
            return out;
        }
        if i == 0 {
            assert(last_place(s@, "::"@, -1) is None);
            return owned(s);
        }
        i -= 1;
    }
}

fn speaks(link: &str, identity: &str) -> (r: bool)
    ensures
        r == speaks_of(link@, identity@),
{
    if holds(link, "::") {
        same(identity, link)
    } else {
        same(own_part_of(identity).as_str(), link)
    }
}

// ---------------------------------------------------------------------------
// Authorisation
// ---------------------------------------------------------------------------

/// The first alias from `i` on that leads nowhere.
pub open spec fn alias_fault(aliases: Seq<(Seq<char>, Seq<char>)>, i: int) -> Option<Seq<char>>
    decreases aliases.len() - i,
{
    if i < 0 || i >= aliases.len() {
        None
    } else {
        match canonical_name(aliases, aliases[i].0) {
            Err(e) => Some(e),
            Ok(_) => alias_fault(aliases, i + 1),
        }
    }
}

/// The targets with what they stand for.
pub open spec fn identities(aliases: Seq<(Seq<char>, Seq<char>)>, targets: Seq<Seq<char>>) -> Result<
    Seq<(Seq<char>, Seq<char>)>,
    Seq<char>,
>
    decreases targets.len(),
{
    if targets.len() == 0 {
        Ok(seq![])
    } else {
        match identities(aliases, targets.drop_last()) {
            Err(e) => Err(e),
            Ok(m) => match canonical_name(aliases, targets.last()) {
                Err(e) => Err(e),
                Ok(name) => Ok(put(m, targets.last(), name)),
            },
        }
    }
}

pub open spec fn each_spoken_of(link: Seq<char>) -> spec_fn((Seq<char>, Seq<char>)) -> Option<
    Seq<char>,
> {
    |e: (Seq<char>, Seq<char>)|
        if speaks_of(link, e.1) {
            Some(e.0)
        } else {
            None
        }
}

/// The targets that the links of one decision speak of. A link that speaks of
/// more than one is refused.
pub open spec fn linked_targets(
    aliases: Seq<(Seq<char>, Seq<char>)>,
    known: Seq<(Seq<char>, Seq<char>)>,
    id: Seq<char>,
    links: Seq<Seq<char>>,
) -> Result<Seq<Seq<char>>, Seq<char>>
    decreases links.len(),
{
    if links.len() == 0 {
        Ok(seq![])
    } else {
        match linked_targets(aliases, known, id, links.drop_last()) {
            Err(e) => Err(e),
            Ok(r) => match canonical_name(aliases, links.last()) {
                Err(e) => Err(e),
                Ok(link) => {
                    let matched = known.filter_map(each_spoken_of(link));
                    if matched.len() > 1 {
                        Err(
                            "decision "@ + id + " link "@ + quoted(link)
                                + " is ambiguous; use a qualified target: "@ + join(matched, ", "@),
                        )
                    } else {
                        Ok(r + matched)
                    }
                },
            },
        }
    }
}

/// A record that is active and new, or says something new.
pub open spec fn is_supplied(
    earlier: Seq<(Seq<char>, AuthorizationView)>,
    e: (Seq<char>, AuthorizationView),
) -> bool {
    e.1.status == DecisionStatus::Active && lookup(earlier, e.0) != Some(e.1)
}

/// The supplied decisions, each with the targets it speaks of.
pub open spec fn grants(
    aliases: Seq<(Seq<char>, Seq<char>)>,
    known: Seq<(Seq<char>, Seq<char>)>,
    earlier: Seq<(Seq<char>, AuthorizationView)>,
    later: Seq<(Seq<char>, AuthorizationView)>,
) -> Result<Seq<(Seq<char>, Seq<Seq<char>>)>, Seq<char>>
    decreases later.len(),
{
    if later.len() == 0 {
        Ok(seq![])
    } else {
        match grants(aliases, known, earlier, later.drop_last()) {
            Err(e) => Err(e),
            Ok(r) => {
                let e = later.last();
                if is_supplied(earlier, e) {
                    match linked_targets(aliases, known, e.0, e.1.links) {
                        Err(x) => Err(x),
                        Ok(t) => Ok(r.push((e.0, t))),
                    }
                } else {
                    Ok(r)
                }
            },
        }
    }
}

pub open spec fn each_grant(target: Seq<char>) -> spec_fn((Seq<char>, Seq<Seq<char>>)) -> Option<
    Seq<char>,
> {
    |g: (Seq<char>, Seq<Seq<char>>)|
        if g.1.contains(target) {
            Some(g.0)
        } else {
            None
        }
}

pub open spec fn each_ruled(given: Seq<(Seq<char>, Seq<Seq<char>>)>) -> spec_fn(
    (Seq<char>, Seq<char>),
) -> (Seq<char>, Seq<Seq<char>>) {
    |e: (Seq<char>, Seq<char>)| (e.0, given.filter_map(each_grant(e.0)))
}

/// For each target, the ids of the supplied decisions that speak of it.
pub open spec fn authorized(
    earlier: Seq<(Seq<char>, AuthorizationView)>,
    later: Seq<(Seq<char>, AuthorizationView)>,
    targets: Seq<Seq<char>>,
    aliases: Seq<(Seq<char>, Seq<char>)>,
) -> Result<Seq<(Seq<char>, Seq<Seq<char>>)>, Seq<char>> {
    match alias_fault(aliases, 0) {
        Some(e) => Err(e),
        None => match identities(aliases, targets) {
            Err(e) => Err(e),
            Ok(known) => match grants(aliases, known, earlier, later) {
                Err(e) => Err(e),
                Ok(given) => Ok(known.map_values(each_ruled(given))),
            },
        },
    }
}

/// The same for two settings files.
pub open spec fn ruled(
    before: Seq<char>,
    after: Seq<char>,
    targets: Seq<Seq<char>>,
    aliases: Seq<(Seq<char>, Seq<char>)>,
) -> Result<Seq<(Seq<char>, Seq<Seq<char>>)>, Seq<char>> {
    match decisions_in(before) {
        Err(e) => Err(e),
        Ok(earlier) => match decisions_in(after) {
            Err(e) => Err(e),
            Ok(later) => authorized(earlier, later, targets, aliases),
        },
    }
}

proof fn lemma_identity_error_stays(
    aliases: Seq<(Seq<char>, Seq<char>)>,
    targets: Seq<Seq<char>>,
    i: int,
)
    requires
        0 <= i <= targets.len(),
        identities(aliases, targets.take(i)) is Err,
    ensures
        identities(aliases, targets) == identities(aliases, targets.take(i)),
    decreases targets.len() - i,
{
    if i < targets.len() {
        let step = targets.take(i + 1);
        assert(step.drop_last() =~= targets.take(i));
        lemma_identity_error_stays(aliases, targets, i + 1);
    } else {
        assert(targets.take(i) =~= targets);
    }
}

proof fn lemma_link_error_stays(
    aliases: Seq<(Seq<char>, Seq<char>)>,
    known: Seq<(Seq<char>, Seq<char>)>,
    id: Seq<char>,
    links: Seq<Seq<char>>,
    i: int,
)
    requires
        0 <= i <= links.len(),
        linked_targets(aliases, known, id, links.take(i)) is Err,
    ensures
        linked_targets(aliases, known, id, links) == linked_targets(
            aliases,
            known,
            id,
            links.take(i),
        ),
    decreases links.len() - i,
{
    if i < links.len() {
        let step = links.take(i + 1);
        assert(step.drop_last() =~= links.take(i));
        lemma_link_error_stays(aliases, known, id, links, i + 1);
    } else {
        assert(links.take(i) =~= links);
    }
}

proof fn lemma_grant_error_stays(
    aliases: Seq<(Seq<char>, Seq<char>)>,
    known: Seq<(Seq<char>, Seq<char>)>,
    earlier: Seq<(Seq<char>, AuthorizationView)>,
    later: Seq<(Seq<char>, AuthorizationView)>,
    i: int,
)
    requires
        0 <= i <= later.len(),
        grants(aliases, known, earlier, later.take(i)) is Err,
    ensures
        grants(aliases, known, earlier, later) == grants(aliases, known, earlier, later.take(i)),
    decreases later.len() - i,
{
    if i < later.len() {
        let step = later.take(i + 1);
        assert(step.drop_last() =~= later.take(i));
        lemma_grant_error_stays(aliases, known, earlier, later, i + 1);
    } else {
        assert(later.take(i) =~= later);
    }
}

fn check_aliases(aliases: &TextMap<String>) -> (r: Option<String>)
    ensures
        r.deep_view() == alias_fault(aliases.deep_view(), 0),
{
    let ghost av = aliases.deep_view();
    let n: usize = aliases.len();
    let mut i: usize = 0;
    while i < n
        invariant
            i <= n,
            n == av.len(),
            av == aliases.deep_view(),
            alias_fault(av, 0) == alias_fault(av, i as int),
        decreases n - i,
    {
        if let Err(e) = canonical(aliases.key(i), aliases) {
            return Some(e);
        }
        i += 1;
    }
    None
}

fn identify(aliases: &TextMap<String>, targets: &Vec<String>) -> (r: Result<TextMap<String>, String>)
    ensures
        outcome(r) == identities(aliases.deep_view(), targets.deep_view()),
{
    let ghost av = aliases.deep_view();
    let ghost tv = targets.deep_view();
    let mut m: TextMap<String> = TextMap::new();
    let mut i: usize = 0;
    while i < targets.len()
        invariant
            i <= targets.len(),
            av == aliases.deep_view(),
            tv == targets.deep_view(),
            identities(av, tv.take(i as int)) == Ok::<Seq<(Seq<char>, Seq<char>)>, Seq<char>>(
                m.deep_view(),
            ),
        decreases targets.len() - i,
    {
        let t = targets[i].as_str();
        let ghost step = tv.take(i + 1);
        proof {
            assert(step.drop_last() =~= tv.take(i as int));
            assert(step.last() == t@);
        }
        match canonical(t, aliases) {
            Ok(name) => {
                m = m.with(owned(t), name);
            },
            Err(e) => {
                assert(identities(av, step) is Err);
                proof {
                    lemma_identity_error_stays(av, tv, i + 1);
                }
                return Err(e);
            },
        }
        i += 1;
    }
    assert(tv.take(i as int) =~= tv);
    Ok(m)
}

fn spoken_of(known: &TextMap<String>, link: &str) -> (r: Vec<String>)
    ensures
        r.deep_view() == known.deep_view().filter_map(each_spoken_of(link@)),
{
    let ghost all = known.deep_view();
    let ghost f = each_spoken_of(link@);
    let n: usize = known.len();
    let mut out: Vec<String> = Vec::new();
    let mut i: usize = 0;
    proof {
        assert(all.take(0) =~= seq![]);
        reveal(Seq::filter_map);
    }
    while i < n
        invariant
            i <= n,
            n == all.len(),
            all == known.deep_view(),
            f == each_spoken_of(link@),
            out.deep_view() =~= all.take(i as int).filter_map(f),
        decreases n - i,
    {
        let ghost so_far = out.deep_view();
        proof {
            all.lemma_filter_map_take_succ(f, i as int);
        }
        if speaks(link, known.value(i).as_str()) {
            let k = known.key(i);
            out.push(owned(k));
            assert(out.deep_view() =~= so_far.push(k@));
        }
        i += 1;
    }
    assert(all.take(i as int) =~= all);
    out
}

fn targets_of(aliases: &TextMap<String>, known: &TextMap<String>, id: &str, links: &Vec<String>) -> (r:
    Result<Vec<String>, String>)
    ensures
        outcome(r) == linked_targets(
            aliases.deep_view(),
            known.deep_view(),
            id@,
            links.deep_view(),
        ),
{
    let ghost av = aliases.deep_view();
    let ghost kv = known.deep_view();
    let ghost lv = links.deep_view();
    let mut out: Vec<String> = Vec::new();
    let mut i: usize = 0;
    assert(out.deep_view() =~= seq![]);
    while i < links.len()
        invariant
            i <= links.len(),
            av == aliases.deep_view(),
            kv == known.deep_view(),
            lv == links.deep_view(),
            linked_targets(av, kv, id@, lv.take(i as int)) == Ok::<Seq<Seq<char>>, Seq<char>>(
                out.deep_view(),
            ),
        decreases links.len() - i,
    {
        let ghost so_far = out.deep_view();
        let ghost step = lv.take(i + 1);
        proof {
            assert(step.drop_last() =~= lv.take(i as int));
            assert(step.last() == links[i as int]@);
        }
        match canonical(links[i].as_str(), aliases) {
            Err(e) => {
                assert(linked_targets(av, kv, id@, step) is Err);
                proof {
                    lemma_link_error_stays(av, kv, id@, lv, i + 1);
                }
                return Err(e);
            },
            Ok(link) => {
                let mut matched = spoken_of(known, link.as_str());
                let ghost mv = matched.deep_view();
                assert(mv.len() == matched@.len());
                if matched.len() > 1 {
                    assert(linked_targets(av, kv, id@, step) is Err);
                    proof {
                        lemma_link_error_stays(av, kv, id@, lv, i + 1);
                    }
                    let mut e = owned("decision ");
                    e.append(id);
                    e.append(" link ");
                    e.append(quote(link.as_str()).as_str());
                    e.append(" is ambiguous; use a qualified target: ");
                    e.append(joined(&matched, ", ").as_str());
                    return Err(e);
                }
                out.append(&mut matched);
                assert(out.deep_view() =~= so_far + mv);
            },
        }
        i += 1;
    }
    assert(lv.take(i as int) =~= lv);
    Ok(out)
}

/// Whether two lists hold the same texts in the same order.
pub fn same_list(a: &Vec<String>, b: &Vec<String>) -> (r: bool)
    ensures
        r == (a.deep_view() == b.deep_view()),
{
    assert(a.deep_view().len() == a@.len());
    assert(b.deep_view().len() == b@.len());
    if a.len() != b.len() {
        return false;
    }
    let mut i: usize = 0;
    while i < a.len()
        invariant
            i <= a.len(),
            a.len() == b.len(),
            forall|j: int| 0 <= j < i ==> (#[trigger] a.deep_view()[j]) == b.deep_view()[j],
        decreases a.len() - i,
    {
        assert(a.deep_view()[i as int] == a[i as int]@);
        assert(b.deep_view()[i as int] == b[i as int]@);
        if !same(a[i].as_str(), b[i].as_str()) {
            return false;
        }
        i += 1;
    }
    assert(a.deep_view() =~= b.deep_view());
    true
}

fn same_record(a: &Authorization, b: &Authorization) -> (r: bool)
    ensures
        r == (a.deep_view() == b.deep_view()),
{
    same(a.id.as_str(), b.id.as_str()) && same(a.decision.as_str(), b.decision.as_str()) && same(
        a.because.as_str(),
        b.because.as_str(),
    ) && same_list(&a.rejected, &b.rejected) && same_list(&a.links, &b.links) && a.status
        == b.status && same_option(&a.superseded_by, &b.superseded_by)
}

fn supplied(earlier: &TextMap<Authorization>, id: &str, r: &Authorization) -> (out: bool)
    ensures
        out == is_supplied(earlier.deep_view(), (id@, r.deep_view())),
{
    let active = match r.status {
        DecisionStatus::Active => true,
        _ => false,
    };
    if !active {
        return false;
    }
    match earlier.get(id) {
        Some(old_record) => !same_record(old_record, r),
        None => true,
    }
}

fn grants_of(
    aliases: &TextMap<String>,
    known: &TextMap<String>,
    earlier: &TextMap<Authorization>,
    later: &TextMap<Authorization>,
) -> (r: Result<Vec<(String, Vec<String>)>, String>)
    ensures
        outcome(r) == grants(
            aliases.deep_view(),
            known.deep_view(),
            earlier.deep_view(),
            later.deep_view(),
        ),
{
    let ghost av = aliases.deep_view();
    let ghost kv = known.deep_view();
    let ghost ev = earlier.deep_view();
    let ghost lv = later.deep_view();
    let n: usize = later.len();
    let mut out: Vec<(String, Vec<String>)> = Vec::new();
    let mut i: usize = 0;
    assert(out.deep_view() =~= seq![]);
    while i < n
        invariant
            i <= n,
            n == lv.len(),
            av == aliases.deep_view(),
            kv == known.deep_view(),
            ev == earlier.deep_view(),
            lv == later.deep_view(),
            grants(av, kv, ev, lv.take(i as int)) == Ok::<
                Seq<(Seq<char>, Seq<Seq<char>>)>,
                Seq<char>,
            >(out.deep_view()),
        decreases n - i,
    {
        let ghost so_far = out.deep_view();
        let ghost step = lv.take(i + 1);
        proof {
            assert(step.drop_last() =~= lv.take(i as int));
            assert(step.last() == lv[i as int]);
        }
        let id = later.key(i);
        let record = later.value(i);
        if supplied(earlier, id, record) {
            match targets_of(aliases, known, id, &record.links) {
                Err(e) => {
                    assert(grants(av, kv, ev, step) is Err);
                    proof {
                        lemma_grant_error_stays(av, kv, ev, lv, i + 1);
                    }
                    return Err(e);
                },
                Ok(t) => {
                    let ghost tv = t.deep_view();
                    out.push((owned(id), t));
                    assert(out.deep_view() =~= so_far.push((id@, tv)));
                },
            }
        }
        i += 1;
    }
    assert(lv.take(i as int) =~= lv);
    Ok(out)
}

fn granted_to(given: &Vec<(String, Vec<String>)>, target: &str) -> (r: Vec<String>)
    ensures
        r.deep_view() == given.deep_view().filter_map(each_grant(target@)),
{
    let ghost all = given.deep_view();
    let ghost f = each_grant(target@);
    let mut out: Vec<String> = Vec::new();
    let mut i: usize = 0;
    proof {
        assert(all.take(0) =~= seq![]);
        reveal(Seq::filter_map);
    }
    while i < given.len()
        invariant
            i <= given.len(),
            all == given.deep_view(),
            f == each_grant(target@),
            out.deep_view() =~= all.take(i as int).filter_map(f),
        decreases given.len() - i,
    {
        let ghost so_far = out.deep_view();
        proof {
            all.lemma_filter_map_take_succ(f, i as int);
        }
        assert(all[i as int] == given[i as int].deep_view());
        if listed(&given[i].1, target) {
            out.push(owned(given[i].0.as_str()));
            assert(out.deep_view() =~= so_far.push(given[i as int].0@));
        }
        i += 1;
    }
    assert(all.take(i as int) =~= all);
    out
}

/// For each target, the ids of the decisions among `later` that are new or say
/// something new against `earlier` and speak of it.
pub fn authorize(
    earlier: &TextMap<Authorization>,
    later: &TextMap<Authorization>,
    targets: &Vec<String>,
    aliases: &TextMap<String>,
) -> (r: Result<TextMap<Vec<String>>, String>)
    ensures
        outcome(r) == authorized(
            earlier.deep_view(),
            later.deep_view(),
            targets.deep_view(),
            aliases.deep_view(),
        ),
{
    if let Some(e) = check_aliases(aliases) {
        return Err(e);
    }
    let known = match identify(aliases, targets) {
        Ok(m) => m,
        Err(e) => {
            return Err(e);
        },
    };
    let given = match grants_of(aliases, &known, earlier, later) {
        Ok(g) => g,
        Err(e) => {
            return Err(e);
        },
    };
    let ghost kv = known.deep_view();
    let ghost all = kv.map_values(each_ruled(given.deep_view()));
    let n: usize = known.len();
    let mut out: TextMap<Vec<String>> = TextMap::new();
    let mut i: usize = 0;
    assert(out.deep_view() =~= all.take(0));
    while i < n
        invariant
            i <= n,
            n == kv.len(),
            kv == known.deep_view(),
            ordered(kv),
            all == kv.map_values(each_ruled(given.deep_view())),
            out.deep_view() =~= all.take(i as int),
        decreases n - i,
    {
        let ghost so_far = out.deep_view();
        let t = known.key(i);
        let ids = granted_to(&given, t);
        let ghost iv = ids.deep_view();
        proof {
            if i > 0 {
                assert(so_far.last().0 == kv[i - 1].0);
                assert(before(kv[i - 1].0, kv[i as int].0));
            }
        }
        out = out.followed_by(owned(t), ids);
        assert(out.deep_view() =~= so_far.push(all[i as int]));
        i += 1;
    }
    assert(all.take(i as int) =~= all);
    Ok(out)
}

/// For each target, the ids of the decisions that a change of the settings
/// supplies for it. An empty list means that nothing authorises the target.
pub fn applicable_decisions(
    before: &str,
    after: &str,
    targets: &Vec<String>,
    aliases: &TextMap<String>,
) -> (r: Result<TextMap<Vec<String>>, String>)
    ensures
        outcome(r) == ruled(before@, after@, targets.deep_view(), aliases.deep_view()),
{
    let earlier = match decisions(before) {
        Ok(m) => m,
        Err(e) => {
            return Err(e);
        },
    };
    let later = match decisions(after) {
        Ok(m) => m,
        Err(e) => {
            return Err(e);
        },
    };
    authorize(&earlier, &later, targets, aliases)
}

// ---------------------------------------------------------------------------
// Laws
// ---------------------------------------------------------------------------

proof fn lemma_no_fault_at(records: Seq<(Seq<char>, AuthorizationView)>, from: int, i: int)
    requires
        0 <= from <= i < records.len(),
        fault_from(records, from) is None,
    ensures
        lifecycle_fault(records, records[i].0, records[i].1) is None,
    decreases i - from,
{
    if from < i {
        lemma_no_fault_at(records, from + 1, i);
    }
}

/// A chain of supersession is one step long: what supersedes a decision is
/// active and is itself superseded by nothing.
pub proof fn law_successors_are_final(records: Seq<(Seq<char>, AuthorizationView)>, i: int, j: int)
    requires
        fault_from(records, 0) is None,
        0 <= i < records.len(),
        0 <= j < records.len(),
        records[i].1.superseded_by == Some(records[j].0),
        ordered(records),
    ensures
        i != j,
        records[i].1.status == DecisionStatus::Superseded,
        records[j].1.status == DecisionStatus::Active,
        records[j].1.superseded_by is None,
{
    lemma_no_fault_at(records, 0, i);
    lemma_no_fault_at(records, 0, j);
    crate::table::lemma_lookup_at(records, j);
}

/// Settings that say nothing new authorise nothing.
pub proof fn law_old_decisions_authorise_nothing(
    records: Seq<(Seq<char>, AuthorizationView)>,
    targets: Seq<Seq<char>>,
    aliases: Seq<(Seq<char>, Seq<char>)>,
)
    requires
        ordered(records),
    ensures
        authorized(records, records, targets, aliases) matches Ok(r) ==> forall|i: int|
            0 <= i < r.len() ==> (#[trigger] r[i]).1.len() == 0,
{
    if let Ok(known) = identities(aliases, targets) {
        lemma_nothing_granted(aliases, known, records, records.len() as int);
        assert(records.take(records.len() as int) =~= records);
        assert forall|i: int| 0 <= i < known.len() implies (#[trigger] known.map_values(
            each_ruled(seq![]),
        )[i]).1.len() == 0 by {
            reveal(Seq::filter_map);
        }
    }
}

proof fn lemma_nothing_granted(
    aliases: Seq<(Seq<char>, Seq<char>)>,
    known: Seq<(Seq<char>, Seq<char>)>,
    records: Seq<(Seq<char>, AuthorizationView)>,
    n: int,
)
    requires
        ordered(records),
        0 <= n <= records.len(),
    ensures
        grants(aliases, known, records, records.take(n)) == Ok::<
            Seq<(Seq<char>, Seq<Seq<char>>)>,
            Seq<char>,
        >(seq![]),
    decreases n,
{
    if n > 0 {
        let step = records.take(n);
        lemma_nothing_granted(aliases, known, records, n - 1);
        assert(step.drop_last() =~= records.take(n - 1));
        assert(step.last() == records[n - 1]);
        crate::table::lemma_lookup_at(records, n - 1);
    }
}

/// Only a supplied decision authorises, and only a target that one of its links
/// speaks of.
pub proof fn law_only_supplied_decisions_authorise(
    aliases: Seq<(Seq<char>, Seq<char>)>,
    known: Seq<(Seq<char>, Seq<char>)>,
    earlier: Seq<(Seq<char>, AuthorizationView)>,
    later: Seq<(Seq<char>, AuthorizationView)>,
    i: int,
)
    requires
        grants(aliases, known, earlier, later) matches Ok(g) && 0 <= i < g.len(),
    ensures
        ({
            let g = grants(aliases, known, earlier, later)->Ok_0[i];
            exists|k: int|
                0 <= k < later.len() && (#[trigger] later[k]).0 == g.0 && is_supplied(
                    earlier,
                    later[k],
                ) && linked_targets(aliases, known, g.0, later[k].1.links) == Ok::<
                    Seq<Seq<char>>,
                    Seq<char>,
                >(g.1)
        }),
    decreases later.len(),
{
    if later.len() > 0 {
        let rest = later.drop_last();
        let r = grants(aliases, known, earlier, rest)->Ok_0;
        let g = grants(aliases, known, earlier, later)->Ok_0[i];
        if i < r.len() {
            law_only_supplied_decisions_authorise(aliases, known, earlier, rest, i);
            let k = choose|k: int|
                0 <= k < rest.len() && (#[trigger] rest[k]).0 == g.0 && is_supplied(
                    earlier,
                    rest[k],
                ) && linked_targets(aliases, known, g.0, rest[k].1.links) == Ok::<
                    Seq<Seq<char>>,
                    Seq<char>,
                >(g.1);
            assert(later[k] == rest[k]);
        } else {
            assert(later[later.len() - 1] == later.last());
        }
    }
}

} // verus!
