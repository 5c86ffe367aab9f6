//! The fact model: what the library may know about a repository, and how
//! strong the evidence for it is.
use vstd::prelude::*;
use vstd::utf8::encode_utf8;
use crate::resource::{Identity, Location, Resource, ResourceView};
use crate::table::{copied_pairs, put, TextMap};
use crate::text::{ascii_lower, is_alnum, is_digit, is_lower, is_upper, join, lower_char, lowered};
use crate::text::{
    alnum, chars_of, copied, copied_option, digit, joined, lower, lower_letter, lowercase, owned,
    push_char, same, upper,
};

verus! {

/// How strong a piece of evidence is. Structured domains speak of what is
/// declared, used, observed or merely named alike; unstructured ones of what
/// is derived from metadata, said by a person, or inferred.
#[derive(Clone, Copy, Debug, PartialEq, Eq, Structural)]
pub enum Tier {
    Declared,
    Used,
    Named,
    Observed,
    Derived,
    Explicit,
    Inferred,
}

impl Tier {
    pub open spec fn label_text(self) -> Seq<char> {
        match self {
            Tier::Declared => "Declared"@,
            Tier::Used => "Used"@,
            Tier::Named => "Named"@,
            Tier::Observed => "Observed"@,
            Tier::Derived => "Derived"@,
            Tier::Explicit => "Explicit"@,
            Tier::Inferred => "Inferred"@,
        }
    }

    pub fn label(&self) -> (r: &'static str)
        ensures
            r@ == self.label_text(),
    {
        match self {
            Tier::Declared => "Declared",
            Tier::Used => "Used",
            Tier::Named => "Named",
            Tier::Observed => "Observed",
            Tier::Derived => "Derived",
            Tier::Explicit => "Explicit",
            Tier::Inferred => "Inferred",
        }
    }
}

/// One fact with its strength; the text names the source.
#[derive(Debug)]
pub struct Evidence {
    pub tier: Tier,
    pub what: String,
}

pub struct EvidenceView {
    pub tier: Tier,
    pub what: Seq<char>,
}

impl DeepView for Evidence {
    type V = EvidenceView;

    open spec fn deep_view(&self) -> EvidenceView {
        EvidenceView { tier: self.tier, what: self.what@ }
    }
}

/// A model or table that the project itself declares.
#[derive(Debug)]
pub struct Concept {
    pub name: String,
    /// When it first entered the index; survives later scans.
    pub first_seen_ms: i64,
    pub last_verified_ms: i64,
    /// File and kind of each declaration.
    pub declared_in: Vec<(String, String)>,
    pub fields: Vec<String>,
    pub relations: Vec<String>,
    /// The storage name where the declaration states one.
    pub table: Option<String>,
    /// File and kind of each observed access.
    pub usage: Vec<(String, String)>,
}

pub struct ConceptView {
    pub name: Seq<char>,
    pub first_seen_ms: int,
    pub last_verified_ms: int,
    pub declared_in: Seq<(Seq<char>, Seq<char>)>,
    pub fields: Seq<Seq<char>>,
    pub relations: Seq<Seq<char>>,
    pub table: Option<Seq<char>>,
    pub usage: Seq<(Seq<char>, Seq<char>)>,
}

impl DeepView for Concept {
    type V = ConceptView;

    open spec fn deep_view(&self) -> ConceptView {
        ConceptView {
            name: self.name@,
            first_seen_ms: self.first_seen_ms as int,
            last_verified_ms: self.last_verified_ms as int,
            declared_in: self.declared_in.deep_view(),
            fields: self.fields.deep_view(),
            relations: self.relations.deep_view(),
            table: self.table.deep_view(),
            usage: self.usage.deep_view(),
        }
    }
}

impl Default for Concept {
    fn default() -> (r: Concept)
        ensures
            r.name@.len() == 0,
            r.first_seen_ms == 0,
            r.last_verified_ms == 0,
            r.declared_in@.len() == 0,
            r.fields@.len() == 0,
            r.relations@.len() == 0,
            r.table is None,
            r.usage@.len() == 0,
    {
        Concept {
            name: String::new(),
            first_seen_ms: 0,
            last_verified_ms: 0,
            declared_in: Vec::new(),
            fields: Vec::new(),
            relations: Vec::new(),
            table: None,
            usage: Vec::new(),
        }
    }
}

/// Where a declared decision stands in its life.
#[derive(Clone, Copy, Debug, PartialEq, Eq, Structural)]
pub enum DecisionStatus {
    Active,
    Superseded,
    Retired,
}

/// The reason behind a shape, with the roads that were rejected.
#[derive(Debug)]
pub struct Decision {
    pub id: String,
    pub decision: String,
    pub because: String,
    pub rejected: Vec<String>,
    pub links: Vec<String>,
    pub proposed_by: String,
}

pub struct DecisionView {
    pub id: Seq<char>,
    pub decision: Seq<char>,
    pub because: Seq<char>,
    pub rejected: Seq<Seq<char>>,
    pub links: Seq<Seq<char>>,
    pub proposed_by: Seq<char>,
}

impl DeepView for Decision {
    type V = DecisionView;

    open spec fn deep_view(&self) -> DecisionView {
        DecisionView {
            id: self.id@,
            decision: self.decision@,
            because: self.because@,
            rejected: self.rejected.deep_view(),
            links: self.links.deep_view(),
            proposed_by: self.proposed_by@,
        }
    }
}

/// What one file says about one concept.
#[derive(Debug)]
pub struct DeclFragment {
    pub name: String,
    pub kind: String,
    pub fields: Vec<String>,
    pub relations: Vec<String>,
    pub table: Option<String>,
}

pub struct DeclFragmentView {
    pub name: Seq<char>,
    pub kind: Seq<char>,
    pub fields: Seq<Seq<char>>,
    pub relations: Seq<Seq<char>>,
    pub table: Option<Seq<char>>,
}

impl DeepView for DeclFragment {
    type V = DeclFragmentView;

    open spec fn deep_view(&self) -> DeclFragmentView {
        DeclFragmentView {
            name: self.name@,
            kind: self.kind@,
            fields: self.fields.deep_view(),
            relations: self.relations.deep_view(),
            table: self.table.deep_view(),
        }
    }
}

impl DeclFragment {
    /// A fragment with the same contents.
    pub fn copy(&self) -> (r: DeclFragment)
        ensures
            r.deep_view() == self.deep_view(),
    {
        DeclFragment {
            name: owned(self.name.as_str()),
            kind: owned(self.kind.as_str()),
            fields: copied(&self.fields),
            relations: copied(&self.relations),
            table: copied_option(&self.table),
        }
    }
}

/// A copy of a list of fragments.
pub fn copied_fragments(list: &Vec<DeclFragment>) -> (r: Vec<DeclFragment>)
    ensures
        r.deep_view() == list.deep_view(),
{
    let mut out: Vec<DeclFragment> = Vec::new();
    let mut i: usize = 0;
    while i < list.len()
        invariant
            i <= list.len(),
            out.deep_view() =~= list.deep_view().take(i as int),
        decreases list.len() - i,
    {
        let ghost so_far = out.deep_view();
        out.push(list[i].copy());
        assert(out.deep_view() =~= so_far.push(list.deep_view()[i as int]));
        i += 1;
    }
    assert(list.deep_view().take(i as int) =~= list.deep_view());
    out
}

/// What one file contributed, kept against its size and modification time.
#[derive(Debug)]
pub struct FileFacts {
    pub size: u64,
    pub mtime_ms: i64,
    pub decls: Vec<DeclFragment>,
    /// Concept and kind of each access seen in the file.
    pub usage: Vec<(String, String)>,
    pub decl_kinds: Vec<String>,
}

pub struct FileFactsView {
    pub size: int,
    pub mtime_ms: int,
    pub decls: Seq<DeclFragmentView>,
    pub usage: Seq<(Seq<char>, Seq<char>)>,
    pub decl_kinds: Seq<Seq<char>>,
}

impl DeepView for FileFacts {
    type V = FileFactsView;

    open spec fn deep_view(&self) -> FileFactsView {
        FileFactsView {
            size: self.size as int,
            mtime_ms: self.mtime_ms as int,
            decls: self.decls.deep_view(),
            usage: self.usage.deep_view(),
            decl_kinds: self.decl_kinds.deep_view(),
        }
    }
}

/// Everything a scan learned about one repository.
#[derive(Debug)]
pub struct Index {
    pub root: String,
    pub files_scanned: usize,
    pub declaration_files: Vec<(String, String)>,
    pub concepts: TextMap<Concept>,
    /// The project's own words for its concepts.
    pub aliases: TextMap<String>,
    pub decisions: Vec<Decision>,
    pub file_facts: TextMap<FileFacts>,
    /// Changes whenever the set of concepts or their tables changes.
    pub concepts_sig: String,
    pub extractor_version: u32,
    pub excludes: Vec<String>,
    /// Paths on which a structural change needs a declared decision.
    pub decision_required_paths: Vec<String>,
}

pub struct IndexView {
    pub root: Seq<char>,
    pub files_scanned: int,
    pub declaration_files: Seq<(Seq<char>, Seq<char>)>,
    pub concepts: Seq<(Seq<char>, ConceptView)>,
    pub aliases: Seq<(Seq<char>, Seq<char>)>,
    pub decisions: Seq<DecisionView>,
    pub file_facts: Seq<(Seq<char>, FileFactsView)>,
    pub concepts_sig: Seq<char>,
    pub extractor_version: int,
    pub excludes: Seq<Seq<char>>,
    pub decision_required_paths: Seq<Seq<char>>,
}

impl DeepView for Index {
    type V = IndexView;

    open spec fn deep_view(&self) -> IndexView {
        IndexView {
            root: self.root@,
            files_scanned: self.files_scanned as int,
            declaration_files: self.declaration_files.deep_view(),
            concepts: self.concepts.deep_view(),
            aliases: self.aliases.deep_view(),
            decisions: self.decisions.deep_view(),
            file_facts: self.file_facts.deep_view(),
            concepts_sig: self.concepts_sig@,
            extractor_version: self.extractor_version as int,
            excludes: self.excludes.deep_view(),
            decision_required_paths: self.decision_required_paths.deep_view(),
        }
    }
}

impl Default for Index {
    fn default() -> (r: Index)
        ensures
            r.root@.len() == 0,
            r.files_scanned == 0,
            r.declaration_files@.len() == 0,
            r.concepts.deep_view().len() == 0,
            r.aliases.deep_view().len() == 0,
            r.decisions@.len() == 0,
            r.file_facts.deep_view().len() == 0,
            r.concepts_sig@.len() == 0,
            r.extractor_version == 0,
            r.excludes@.len() == 0,
            r.decision_required_paths@.len() == 0,
    {
        Index {
            root: String::new(),
            files_scanned: 0,
            declaration_files: Vec::new(),
            concepts: TextMap::new(),
            aliases: TextMap::new(),
            decisions: Vec::new(),
            file_facts: TextMap::new(),
            concepts_sig: String::new(),
            extractor_version: 0,
            excludes: Vec::new(),
            decision_required_paths: Vec::new(),
        }
    }
}

// ---------------------------------------------------------------------------
// Concepts as resources
// ---------------------------------------------------------------------------

pub open spec fn declared_evidence(declared_in: Seq<(Seq<char>, Seq<char>)>) -> Seq<EvidenceView> {
    declared_in.map_values(
        |d: (Seq<char>, Seq<char>)|
            EvidenceView { tier: Tier::Declared, what: d.1 + " declaration in "@ + d.0 },
    )
}

pub open spec fn used_evidence(usage: Seq<(Seq<char>, Seq<char>)>) -> Seq<EvidenceView> {
    usage.map_values(
        |u: (Seq<char>, Seq<char>)|
            EvidenceView { tier: Tier::Used, what: u.1 + " access in "@ + u.0 },
    )
}

/// At most the first `n` of `s`.
pub open spec fn first_of<A>(s: Seq<A>, n: int) -> Seq<A> {
    if s.len() <= n {
        s
    } else {
        s.take(n)
    }
}

/// A list cut off behind its first `n` values.
pub fn shortened<T: DeepView>(list: Vec<T>, n: usize) -> (r: Vec<T>)
    ensures
        r.deep_view() == first_of(list.deep_view(), n as int),
{
    let ghost all = list.deep_view();
    let mut out = list;
    out.truncate(n);
    assert(out.deep_view() =~= first_of(all, n as int));
    out
}

/// Every declaration of a concept, then its first eight accesses.
pub open spec fn concept_evidence(c: ConceptView) -> Seq<EvidenceView> {
    declared_evidence(c.declared_in) + used_evidence(first_of(c.usage, 8))
}

pub open spec fn concept_attributes(c: ConceptView) -> Seq<(Seq<char>, Seq<char>)> {
    let plain = put(
        put(seq![], "fields"@, join(c.fields, ","@)),
        "relations"@,
        join(c.relations, ","@),
    );
    match c.table {
        Some(t) => put(plain, "table"@, t),
        None => plain,
    }
}

pub open spec fn concept_resource(c: ConceptView, canonical_name: Seq<char>) -> ResourceView {
    ResourceView {
        id: canonical_name,
        kind: "schema_model"@,
        domain: "code"@,
        file: if c.declared_in.len() > 0 {
            c.declared_in[0].0
        } else {
            seq![]
        },
        line: None,
        attributes: concept_attributes(c),
        evidence: concept_evidence(c),
    }
}

fn fact(tier: Tier, kind: &str, middle: &str, file: &str) -> (r: Evidence)
    ensures
        r.deep_view() == (EvidenceView { tier, what: kind@ + middle@ + file@ }),
{
    let mut what = owned(kind);
    what.append(middle);
    what.append(file);
    Evidence { tier, what }
}

impl Concept {
    /// A concept with the same contents.
    pub fn copy(&self) -> (r: Concept)
        ensures
            r.deep_view() == self.deep_view(),
    {
        Concept {
            name: owned(self.name.as_str()),
            first_seen_ms: self.first_seen_ms,
            last_verified_ms: self.last_verified_ms,
            declared_in: copied_pairs(&self.declared_in),
            fields: copied(&self.fields),
            relations: copied(&self.relations),
            table: copied_option(&self.table),
            usage: copied_pairs(&self.usage),
        }
    }

    /// The evidence for this concept: every declaration, then the first eight
    /// accesses.
    pub fn evidence(&self) -> (r: Vec<Evidence>)
        ensures
            r.deep_view() == concept_evidence(self.deep_view()),
    {
        let mut out: Vec<Evidence> = Vec::new();
        let ghost decls = self.declared_in.deep_view();
        let ghost uses = first_of(self.usage.deep_view(), 8);
        let mut i: usize = 0;
        while i < self.declared_in.len()
            invariant
                i <= self.declared_in.len(),
                decls == self.declared_in.deep_view(),
                out.deep_view() =~= declared_evidence(decls).take(i as int),
            decreases self.declared_in.len() - i,
        {
            let ghost so_far = out.deep_view();
            let e = fact(
                Tier::Declared,
                self.declared_in[i].1.as_str(),
                " declaration in ",
                self.declared_in[i].0.as_str(),
            );
            assert(decls[i as int] == (self.declared_in[i as int].0@, self.declared_in[i as int].1@));
            out.push(e);
            assert(out.deep_view() =~= so_far.push(declared_evidence(decls)[i as int]));
            i += 1;
        }
        let mut j: usize = 0;
        while j < self.usage.len() && j < 8
            invariant
                j <= uses.len(),
                uses == first_of(self.usage.deep_view(), 8),
                decls == self.declared_in.deep_view(),
                out.deep_view() =~= declared_evidence(decls) + used_evidence(uses).take(j as int),
            decreases self.usage.len() - j,
        {
            let ghost so_far = out.deep_view();
            let e = fact(
                Tier::Used,
                self.usage[j].1.as_str(),
                " access in ",
                self.usage[j].0.as_str(),
            );
            assert(uses[j as int] == (self.usage[j as int].0@, self.usage[j as int].1@));
            out.push(e);
            assert(out.deep_view() =~= so_far.push(used_evidence(uses)[j as int]));
            j += 1;
        }
        assert(out.deep_view() =~= concept_evidence(self.deep_view()));
        out
    }

    /// This concept in the general shape of a resource. Its place is that of
    /// the first declaration; all declarations stay as evidence.
    pub fn to_resource(&self, canonical_name: &str) -> (r: Resource)
        ensures
            r.deep_view() == concept_resource(self.deep_view(), canonical_name@),
    {
        let evidence = self.evidence();
        let file = if self.declared_in.len() > 0 {
            assert(self.declared_in.deep_view()[0].0 == self.declared_in[0].0@);
            owned(self.declared_in[0].0.as_str())
        } else {
            String::new()
        };
        let mut attributes: TextMap<String> = TextMap::new();
        attributes = attributes.with(owned("fields"), joined(&self.fields, ","));
        attributes = attributes.with(owned("relations"), joined(&self.relations, ","));
        if let Some(t) = &self.table {
            attributes = attributes.with(owned("table"), owned(t.as_str()));
        }
        assert(file@ =~= concept_resource(self.deep_view(), canonical_name@).file);
        Resource {
            id: Identity(owned(canonical_name)),
            kind: owned("schema_model"),
            domain: owned("code"),
            location: Location { file, line: None },
            attributes,
            evidence,
        }
    }
}

// ---------------------------------------------------------------------------
// Word matching
// ---------------------------------------------------------------------------

/// How many bytes two strings share at the front.
pub open spec fn shared(a: Seq<u8>, b: Seq<u8>) -> nat
    decreases a.len(),
{
    if a.len() > 0 && b.len() > 0 && a[0] == b[0] {
        1 + shared(a.skip(1), b.skip(1))
    } else {
        0
    }
}

pub open spec fn shorter(a: Seq<u8>, b: Seq<u8>) -> nat {
    if a.len() <= b.len() {
        a.len()
    } else {
        b.len()
    }
}

/// Two byte strings look like one word in two forms: they share at least four
/// bytes and seven tenths of the shorter one, and neither goes on for more
/// than three.
pub open spec fn close_forms(a: Seq<u8>, b: Seq<u8>) -> bool {
    let n = shared(a, b);
    &&& n >= 4
    &&& n * 10 >= shorter(a, b) * 7
    &&& a.len() - n <= 3
    &&& b.len() - n <= 3
}

/// Two words mean the same, whatever their case and ending.
pub open spec fn is_same_word(a: Seq<char>, b: Seq<char>) -> bool {
    ||| lowered(a) == lowered(b)
    ||| close_forms(encode_utf8(lowered(a)), encode_utf8(lowered(b)))
}

/// What has been cut from the front of a name: whole tokens, the token being
/// read, and whether it ends in a small letter or a digit.
pub struct Cutting {
    pub done: Seq<Seq<char>>,
    pub token: Seq<char>,
    pub small: bool,
}

pub open spec fn closed_tokens(c: Cutting) -> Seq<Seq<char>> {
    if c.token.len() > 0 {
        c.done.push(c.token)
    } else {
        c.done
    }
}

/// The cutting of a name read from the left: anything but an ASCII letter or
/// digit ends a token, and so does a capital after a small letter or digit. The
/// tokens are in small letters.
pub open spec fn cutting(s: Seq<char>) -> Cutting
    decreases s.len(),
{
    if s.len() == 0 {
        Cutting { done: seq![], token: seq![], small: false }
    } else {
        let c = cutting(s.drop_last());
        let x = s.last();
        if !is_alnum(x) {
            Cutting { done: closed_tokens(c), token: seq![], small: false }
        } else if is_upper(x) && c.small {
            Cutting {
                done: closed_tokens(c),
                token: seq![lower_char(x)],
                small: is_lower(x) || is_digit(x),
            }
        } else {
            Cutting {
                done: c.done,
                token: c.token.push(lower_char(x)),
                small: is_lower(x) || is_digit(x),
            }
        }
    }
}

/// The tokens of a snake_case or camelCase name, in small letters.
pub open spec fn tokens(s: Seq<char>) -> Seq<Seq<char>> {
    closed_tokens(cutting(s))
}

/// A name answers to a term as a whole or through one of its tokens.
pub open spec fn answers_to(name: Seq<char>, term: Seq<char>) -> bool {
    ||| is_same_word(name, term)
    ||| exists|i: int| 0 <= i < tokens(name).len() && is_same_word(#[trigger] tokens(name)[i], term)
}

/// Words for a role that unrelated things share.
pub open spec fn is_role_word(t: Seq<char>) -> bool {
    ||| t == "executor"@
    ||| t == "manager"@
    ||| t == "handler"@
    ||| t == "service"@
    ||| t == "controller"@
    ||| t == "factory"@
    ||| t == "builder"@
    ||| t == "adapter"@
    ||| t == "provider"@
    ||| t == "client"@
    ||| t == "worker"@
    ||| t == "engine"@
    ||| t == "repository"@
    ||| t == "store"@
    ||| t == "registry"@
    ||| t == "gateway"@
    ||| t == "middleware"@
    ||| t == "config"@
    ||| t == "result"@
    ||| t == "response"@
    ||| t == "request"@
    ||| t == "context"@
    ||| t == "state"@
}

fn shared_bytes(a: &[u8], b: &[u8]) -> (n: usize)
    ensures
        n == shared(a@, b@),
        n <= a@.len(),
        n <= b@.len(),
{
    let mut i: usize = 0;
    assert(a@.skip(0) =~= a@);
    assert(b@.skip(0) =~= b@);
    while i < a.len() && i < b.len() && a[i] == b[i]
        invariant
            i <= a@.len(),
            i <= b@.len(),
            shared(a@, b@) == i + shared(a@.skip(i as int), b@.skip(i as int)),
        decreases a@.len() - i,
    {
        assert(a@.skip(i as int).skip(1) =~= a@.skip(i + 1));
        assert(b@.skip(i as int).skip(1) =~= b@.skip(i + 1));
        i += 1;
    }
    i
}

/// Whether two words mean the same, whatever their case and ending: `story`
/// and `stories` do, `story` and `history` do not.
pub fn same_word(a: &str, b: &str) -> (r: bool)
    ensures
        r == is_same_word(a@, b@),
{
    let x = lowercase(a);
    let y = lowercase(b);
    if same(x.as_str(), y.as_str()) {
        return true;
    }
    let p = x.as_str().as_bytes();
    let q = y.as_str().as_bytes();
    let n: usize = shared_bytes(p, q);
    let short: usize = if p.len() <= q.len() {
        p.len()
    } else {
        q.len()
    };
    n >= 4 && (n as u128) * 10 >= (short as u128) * 7 && p.len() - n <= 3 && q.len() - n <= 3
}

/// The tokens of a snake_case or camelCase name, in order and in small letters.
pub fn name_tokens(name: &str) -> (r: Vec<String>)
    ensures
        r.deep_view() == tokens(name@),
{
    let cs = chars_of(name);
    let mut out: Vec<String> = Vec::new();
    let mut token = String::new();
    let mut small = false;
    let mut i: usize = 0;
    assert(out.deep_view() =~= seq![]);
    while i < cs.len()
        invariant
            i <= cs.len(),
            cs@ == name@,
            out.deep_view() == cutting(name@.take(i as int)).done,
            token@ == cutting(name@.take(i as int)).token,
            small == cutting(name@.take(i as int)).small,
        decreases cs.len() - i,
    {
        let c = cs[i];
        let ghost step = name@.take(i + 1);
        assert(step.drop_last() =~= name@.take(i as int));
        assert(step.last() == c);
        let ghost so_far = out.deep_view();
        if !alnum(c) {
            if !token.as_str().is_empty() {
                let ghost t = token@;
                out.push(token);
                assert(out.deep_view() =~= so_far.push(t));
                token = String::new();
            }
            assert(token@ =~= seq![]);
            small = false;
        } else {
            if upper(c) && small {
                if !token.as_str().is_empty() {
                    let ghost t = token@;
                    out.push(token);
                    assert(out.deep_view() =~= so_far.push(t));
                }
                token = String::new();
                push_char(&mut token, lower_letter(c));
                assert(token@ =~= seq![lower_char(c)]);
            } else {
                push_char(&mut token, lower_letter(c));
            }
            small = lower(c) || digit(c);
        }
        i += 1;
    }
    assert(name@.take(i as int) =~= name@);
    if !token.as_str().is_empty() {
        let ghost so_far = out.deep_view();
        let ghost t = token@;
        out.push(token);
        assert(out.deep_view() =~= so_far.push(t));
    }
    out
}

/// Whether a token names a role that unrelated things share, so that it says
/// nothing about a collision of names by itself.
pub fn is_generic_role_token(tok: &str) -> (r: bool)
    ensures
        r == is_role_word(lowered(tok@)),
{
    let low = lowercase(tok);
    let t = low.as_str();
    same(t, "executor") || same(t, "manager") || same(t, "handler") || same(t, "service") || same(
        t,
        "controller",
    ) || same(t, "factory") || same(t, "builder") || same(t, "adapter") || same(t, "provider")
        || same(t, "client") || same(t, "worker") || same(t, "engine") || same(t, "repository")
        || same(t, "store") || same(t, "registry") || same(t, "gateway") || same(t, "middleware")
        || same(t, "config") || same(t, "result") || same(t, "response") || same(t, "request")
        || same(t, "context") || same(t, "state")
}

/// Whether a name answers to a term, as a whole or through one of its tokens.
pub fn names_concept(name: &str, term: &str) -> (r: bool)
    ensures
        r == answers_to(name@, term@),
{
    if same_word(name, term) {
        return true;
    }
    let parts = name_tokens(name);
    let mut i: usize = 0;
    while i < parts.len()
        invariant
            i <= parts.len(),
            parts.deep_view() == tokens(name@),
            forall|j: int| 0 <= j < i ==> !is_same_word(#[trigger] tokens(name@)[j], term@),
        decreases parts.len() - i,
    {
        assert(tokens(name@)[i as int] == parts[i as int]@);
        if same_word(parts[i].as_str(), term) {
            return true;
        }
        i += 1;
    }
    false
}

// ---------------------------------------------------------------------------
// Laws
// ---------------------------------------------------------------------------

/// A word is the same word as itself, so a query for the exact name of a
/// concept always finds it.
pub proof fn law_exact_name_answers(name: Seq<char>)
    ensures
        is_same_word(name, name),
        answers_to(name, name),
{
}

proof fn lemma_shared_symmetric(a: Seq<u8>, b: Seq<u8>)
    ensures
        shared(a, b) == shared(b, a),
        shared(a, b) <= a.len(),
        shared(a, b) <= b.len(),
    decreases a.len(),
{
    if a.len() > 0 && b.len() > 0 && a[0] == b[0] {
        lemma_shared_symmetric(a.skip(1), b.skip(1));
    }
}

/// Being the same word does not depend on which word is named first.
pub proof fn law_same_word_symmetric(a: Seq<char>, b: Seq<char>)
    ensures
        is_same_word(a, b) == is_same_word(b, a),
{
    lemma_shared_symmetric(encode_utf8(lowered(a)), encode_utf8(lowered(b)));
}

proof fn lemma_shared_prefix(a: Seq<u8>, b: Seq<u8>)
    ensures
        shared(a, b) <= a.len(),
        shared(a, b) <= b.len(),
        a.take(shared(a, b) as int) == b.take(shared(a, b) as int),
    decreases a.len(),
{
    let n = shared(a, b);
    if a.len() > 0 && b.len() > 0 && a[0] == b[0] {
        lemma_shared_prefix(a.skip(1), b.skip(1));
        assert(a.take(n as int) =~= seq![a[0]] + a.skip(1).take(n - 1));
        assert(b.take(n as int) =~= seq![b[0]] + b.skip(1).take(n - 1));
    } else {
        assert(a.take(0) =~= b.take(0));
    }
}

/// Two different spellings count as one word only when they agree on at least
/// their first four bytes: a shared ending is never enough.
pub proof fn law_words_share_a_beginning(a: Seq<char>, b: Seq<char>)
    requires
        is_same_word(a, b),
        lowered(a) != lowered(b),
    ensures
        encode_utf8(lowered(a)).len() >= 4,
        encode_utf8(lowered(b)).len() >= 4,
        encode_utf8(lowered(a)).take(4) == encode_utf8(lowered(b)).take(4),
{
    let p = encode_utf8(lowered(a));
    let q = encode_utf8(lowered(b));
    lemma_shared_prefix(p, q);
    let n = shared(p, q) as int;
    assert(p.take(4) =~= p.take(n).take(4));
    assert(q.take(4) =~= q.take(n).take(4));
}

/// A small letter or a digit.
pub open spec fn is_token_char(c: char) -> bool {
    is_lower(c) || is_digit(c)
}

pub open spec fn is_token(t: Seq<char>) -> bool {
    t.len() > 0 && forall|i: int| 0 <= i < t.len() ==> is_token_char(#[trigger] t[i])
}

/// The letters and digits of a name, in small letters.
pub open spec fn kept(s: Seq<char>) -> Seq<char> {
    ascii_lower(s.filter(|c: char| is_alnum(c)))
}

proof fn lemma_lower_alnum(c: char)
    requires
        is_alnum(c),
    ensures
        is_token_char(lower_char(c)),
{
}

proof fn lemma_cutting(s: Seq<char>)
    ensures
        forall|i: int| 0 <= i < cutting(s).done.len() ==> is_token(#[trigger] cutting(s).done[i]),
        forall|i: int|
            0 <= i < cutting(s).token.len() ==> is_token_char(#[trigger] cutting(s).token[i]),
        cutting(s).done.flatten() + cutting(s).token == kept(s),
    decreases s.len(),
{
    reveal(Seq::filter);
    if s.len() > 0 {
        let front = s.drop_last();
        lemma_cutting(front);
        let c = cutting(front);
        c.done.lemma_flatten_push(c.token);
        if c.token.len() == 0 {
            assert(c.done.flatten() + c.token =~= c.done.flatten());
        }
        assert(closed_tokens(c).flatten() == kept(front));
        let r = cutting(s);
        if is_alnum(s.last()) {
            lemma_lower_alnum(s.last());
            assert(kept(s) =~= kept(front).push(lower_char(s.last())));
        } else {
            assert(kept(s) =~= kept(front));
        }
        assert forall|i: int| 0 <= i < r.done.len() implies is_token(#[trigger] r.done[i]) by {
            if i < c.done.len() {
                assert(r.done[i] == c.done[i]);
            }
        }
        assert(r.done.flatten() + r.token =~= kept(s));
    } else {
        assert(cutting(s).done.flatten() + cutting(s).token =~= kept(s));
    }
}

/// Cutting a name into tokens loses no letter and no digit and invents none:
/// the tokens put together again are the letters and digits of the name in
/// order, in small letters, and no token is empty.
pub proof fn law_tokens_keep_every_letter(name: Seq<char>)
    ensures
        tokens(name).flatten() == kept(name),
        forall|i: int| 0 <= i < tokens(name).len() ==> is_token(#[trigger] tokens(name)[i]),
{
    lemma_cutting(name);
    let c = cutting(name);
    c.done.lemma_flatten_push(c.token);
    if c.token.len() == 0 {
        assert(c.done.flatten() + c.token =~= c.done.flatten());
    }
}

} // verus!
