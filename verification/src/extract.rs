//! What one source file declares, dialect by dialect.
use vstd::prelude::*;
use vstd::utf8::encode_utf8;
use crate::model::{DeclFragment, DeclFragmentView};
use crate::outside::{bytes_between, found, group, group_text, group_texts, match_end, match_start, Span, SpanView};
use crate::outside::{between_bytes, end_of, found_in, group_of, group_text_of, group_texts_of, start_of};
use crate::paths::{base_name, extension};
use crate::paths::{base_name_of, extension_of};
use crate::table::{sorted_distinct, sorted_set};
use crate::text::{contains, find_from, is_upper, join, lines, lowered, run, split, starts_with, trim, trim_start, CharClass};
use crate::text::{
    begins, chars_of, copied, copied_option, cut, ends, find_at, holds, joined, lines_of, listed,
    lowercase, owned, run_at, same, split_at_char, trimmed, trimmed_start, upper,
};

verus! {

pub open spec fn decl(
    name: Seq<char>,
    kind: Seq<char>,
    fields: Seq<Seq<char>>,
    relations: Seq<Seq<char>>,
    table: Option<Seq<char>>,
) -> DeclFragmentView {
    DeclFragmentView { name, kind, fields, relations, table }
}

/// At most the first `n` texts.
pub fn cut_list(list: Vec<String>, n: usize) -> (r: Vec<String>)
    ensures
        r.deep_view() == crate::model::first_of(list.deep_view(), n as int),
{
    let mut out = list;
    if out.len() > n {
        out.truncate(n);
        assert(out.deep_view() =~= list.deep_view().take(n as int));
    }
    out
}

proof fn lemma_collect_nothing<A, B>(s: Seq<A>, f: spec_fn(A) -> Option<B>)
    ensures
        s.take(0).filter_map(f) == Seq::<B>::empty(),
{
    assert(s.take(0) =~= Seq::<A>::empty());
    reveal(Seq::filter_map);
}

// ---------------------------------------------------------------------------
// Prisma
// ---------------------------------------------------------------------------

pub const PRISMA_MODEL: &'static str = r"(?ms)^model\s+(\w+)\s*\{(.*?)^\}";

pub const PRISMA_MAP: &'static str = r#"@@map\("([^"]+)"\)"#;

pub const PRISMA_FIELD: &'static str = r"^(\w+)\s+(\w+)";

pub const PRISMA_ENUM: &'static str = r"(?m)^enum\s+(\w+)\s*\{";

pub open spec fn is_prisma_scalar(t: Seq<char>) -> bool {
    ||| t == "String"@
    ||| t == "Int"@
    ||| t == "BigInt"@
    ||| t == "Float"@
    ||| t == "Decimal"@
    ||| t == "Boolean"@
    ||| t == "DateTime"@
    ||| t == "Json"@
    ||| t == "Bytes"@
}

/// A field's type names another model when it starts with a capital and is no
/// scalar.
pub open spec fn is_prisma_relation(t: Seq<char>) -> bool {
    t.len() > 0 && is_upper(t[0]) && !is_prisma_scalar(t)
}

/// Name and type of the field that a line of a model's body declares.
pub open spec fn prisma_field(line: Seq<char>) -> Option<(Seq<char>, Seq<char>)> {
    let l = trim(line);
    if l.len() == 0 || starts_with(l, "//"@) || starts_with(l, "@@"@) {
        None
    } else {
        let ms = found(PRISMA_FIELD@, l);
        if ms.len() > 0 {
            Some((group_text(ms[0], 1), group_text(ms[0], 2)))
        } else {
            None
        }
    }
}

pub open spec fn each_prisma_field() -> spec_fn(Seq<char>) -> Option<(Seq<char>, Seq<char>)> {
    |line: Seq<char>| prisma_field(line)
}

pub open spec fn each_prisma_relation() -> spec_fn((Seq<char>, Seq<char>)) -> Option<Seq<char>> {
    |p: (Seq<char>, Seq<char>)|
        if is_prisma_relation(p.1) {
            Some(p.1)
        } else {
            None
        }
}

/// A model from its name, its fields with their types, and the table that it
/// names.
pub open spec fn prisma_model(
    name: Seq<char>,
    pairs: Seq<(Seq<char>, Seq<char>)>,
    mapped: Option<Seq<char>>,
) -> DeclFragmentView {
    decl(
        name,
        "prisma"@,
        pairs.map_values(|p: (Seq<char>, Seq<char>)| p.0),
        sorted_set(pairs.filter_map(each_prisma_relation())),
        Some(
            match mapped {
                Some(t) => t,
                None => name,
            },
        ),
    )
}

/// The first match's first group.
pub open spec fn first_group(pattern: Seq<char>, text: Seq<char>) -> Option<Seq<char>> {
    let ms = found(pattern, text);
    if ms.len() > 0 {
        Some(group_text(ms[0], 1))
    } else {
        None
    }
}

pub open spec fn each_prisma_model() -> spec_fn(Seq<Option<SpanView>>) -> DeclFragmentView {
    |m: Seq<Option<SpanView>>|
        prisma_model(
            group_text(m, 1),
            lines(group_text(m, 2)).filter_map(each_prisma_field()),
            first_group(PRISMA_MAP@, group_text(m, 2)),
        )
}

pub open spec fn each_prisma_enum() -> spec_fn(Seq<Option<SpanView>>) -> DeclFragmentView {
    |m: Seq<Option<SpanView>>| decl(group_text(m, 1), "prisma-enum"@, seq![], seq![], None)
}

/// The models of a schema, then its enums.
pub open spec fn prisma_decls(text: Seq<char>) -> Seq<DeclFragmentView> {
    found(PRISMA_MODEL@, text).map_values(each_prisma_model()) + found(
        PRISMA_ENUM@,
        text,
    ).map_values(each_prisma_enum())
}

fn prisma_scalar(t: &str) -> (r: bool)
    ensures
        r == is_prisma_scalar(t@),
{
    same(t, "String") || same(t, "Int") || same(t, "BigInt") || same(t, "Float") || same(
        t,
        "Decimal",
    ) || same(t, "Boolean") || same(t, "DateTime") || same(t, "Json") || same(t, "Bytes")
}

fn prisma_relation(t: &str) -> (r: bool)
    ensures
        r == is_prisma_relation(t@),
{
    let cs = chars_of(t);
    cs.len() > 0 && upper(cs[0]) && !prisma_scalar(t)
}

pub fn first_group_of(pattern: &str, text: &str) -> (r: Option<String>)
    ensures
        r.deep_view() == first_group(pattern@, text@),
{
    let ms = found_in(pattern, text);
    if ms.len() > 0 {
        assert(ms.deep_view()[0] == ms[0].deep_view());
        Some(group_text_of(&ms[0], 1))
    } else {
        None
    }
}

fn prisma_field_of(line: &str) -> (r: Option<(String, String)>)
    ensures
        r.deep_view() == prisma_field(line@),
{
    let l = trimmed(line);
    if l.as_str().is_empty() || begins(l.as_str(), "//") || begins(l.as_str(), "@@") {
        return None;
    }
    let ms = found_in(PRISMA_FIELD, l.as_str());
    if ms.len() > 0 {
        assert(ms.deep_view()[0] == ms[0].deep_view());
        Some((group_text_of(&ms[0], 1), group_text_of(&ms[0], 2)))
    } else {
        None
    }
}

/// A model from its name, its fields with their types, and the table that it
/// names.
pub fn prisma_model_of(name: &str, pairs: &Vec<(String, String)>, mapped: Option<String>) -> (r:
    DeclFragment)
    ensures
        r.deep_view() == prisma_model(name@, pairs.deep_view(), mapped.deep_view()),
{
    let mut fields: Vec<String> = Vec::new();
    let mut types: Vec<String> = Vec::new();
    let ghost ps = pairs.deep_view();
    let ghost names = ps.map_values(|p: (Seq<char>, Seq<char>)| p.0);
    let mut i: usize = 0;
    proof {
        lemma_collect_nothing(ps, each_prisma_relation());
    }
    while i < pairs.len()
        invariant
            i <= pairs.len(),
            ps == pairs.deep_view(),
            names == ps.map_values(|p: (Seq<char>, Seq<char>)| p.0),
            fields.deep_view() =~= names.take(i as int),
            types.deep_view() =~= ps.take(i as int).filter_map(each_prisma_relation()),
        decreases pairs.len() - i,
    {
        let ghost so_far = fields.deep_view();
        let ghost types_so_far = types.deep_view();
        proof {
            ps.lemma_filter_map_take_succ(each_prisma_relation(), i as int);
        }
        assert(ps[i as int] == (pairs[i as int].0@, pairs[i as int].1@));
        fields.push(owned(pairs[i].0.as_str()));
        assert(fields.deep_view() =~= so_far.push(names[i as int]));
        if prisma_relation(pairs[i].1.as_str()) {
            types.push(owned(pairs[i].1.as_str()));
            assert(types.deep_view() =~= types_so_far + seq![pairs[i as int].1@]);
        }
        i += 1;
    }
    assert(ps.take(i as int) =~= ps);
    assert(names.take(i as int) =~= names);
    let relations = sorted_distinct(&types);
    let table = match mapped {
        Some(t) => t,
        None => owned(name),
    };
    DeclFragment { name: owned(name), kind: owned("prisma"), fields, relations, table: Some(table) }
}

fn prisma_fields_of(body: &str) -> (r: Vec<(String, String)>)
    ensures
        r.deep_view() == lines(body@).filter_map(each_prisma_field()),
{
    let ls = lines_of(body);
    let ghost all = ls.deep_view();
    let mut out: Vec<(String, String)> = Vec::new();
    let mut i: usize = 0;
    proof {
        lemma_collect_nothing(all, each_prisma_field());
    }
    while i < ls.len()
        invariant
            i <= ls.len(),
            all == ls.deep_view(),
            out.deep_view() =~= all.take(i as int).filter_map(each_prisma_field()),
        decreases ls.len() - i,
    {
        let ghost so_far = out.deep_view();
        proof {
            all.lemma_filter_map_take_succ(each_prisma_field(), i as int);
        }
        assert(all[i as int] == ls[i as int]@);
        if let Some(p) = prisma_field_of(ls[i].as_str()) {
            out.push(p);
            assert(out.deep_view() =~= so_far + seq![(p.0@, p.1@)]);
        }
        i += 1;
    }
    assert(all.take(i as int) =~= all);
    out
}

pub fn extract_prisma(text: &str) -> (r: Vec<DeclFragment>)
    ensures
        r.deep_view() == prisma_decls(text@),
{
    let mut out: Vec<DeclFragment> = Vec::new();
    let models = found_in(PRISMA_MODEL, text);
    let ghost ms = models.deep_view().map_values(each_prisma_model());
    let mut i: usize = 0;
    while i < models.len()
        invariant
            i <= models.len(),
            ms == models.deep_view().map_values(each_prisma_model()),
            out.deep_view() =~= ms.take(i as int),
        decreases models.len() - i,
    {
        let ghost so_far = out.deep_view();
        assert(models.deep_view()[i as int] == models[i as int].deep_view());
        let name = group_text_of(&models[i], 1);
        let body = group_text_of(&models[i], 2);
        let pairs = prisma_fields_of(body.as_str());
        let mapped = first_group_of(PRISMA_MAP, body.as_str());
        let d = prisma_model_of(name.as_str(), &pairs, mapped);
        out.push(d);
        assert(out.deep_view() =~= so_far.push(ms[i as int]));
        i += 1;
    }
    let enums = found_in(PRISMA_ENUM, text);
    let ghost es = enums.deep_view().map_values(each_prisma_enum());
    let mut j: usize = 0;
    while j < enums.len()
        invariant
            j <= enums.len(),
            es == enums.deep_view().map_values(each_prisma_enum()),
            out.deep_view() =~= ms + es.take(j as int),
        decreases enums.len() - j,
    {
        let ghost so_far = out.deep_view();
        assert(enums.deep_view()[j as int] == enums[j as int].deep_view());
        let fields: Vec<String> = Vec::new();
        let relations: Vec<String> = Vec::new();
        assert(fields.deep_view() =~= seq![]);
        assert(relations.deep_view() =~= seq![]);
        out.push(
            DeclFragment {
                name: group_text_of(&enums[j], 1),
                kind: owned("prisma-enum"),
                fields,
                relations,
                table: None,
            },
        );
        assert(out.deep_view() =~= so_far.push(es[j as int]));
        j += 1;
    }
    assert(es.take(j as int) =~= es);
    out
}

// ---------------------------------------------------------------------------
// Class bodies
// ---------------------------------------------------------------------------

pub const TOP_LEVEL: &'static str = r"(?m)^\S";

/// Where the first of `tops` at or after `start` begins.
pub open spec fn next_top(tops: Seq<Seq<Option<SpanView>>>, start: int, end: int) -> int
    decreases tops.len(),
{
    if tops.len() == 0 {
        end
    } else if match_start(tops[0]) >= start {
        match_start(tops[0])
    } else {
        next_top(tops.skip(1), start, end)
    }
}

/// The indented text that follows a place: up to the next line that is not
/// indented.
pub open spec fn class_body(text: Seq<char>, start: int) -> Seq<char> {
    let end = next_top(found(TOP_LEVEL@, text), start, encode_utf8(text).len() as int);
    match bytes_between(text, start, end) {
        Some(b) => b,
        None => seq![],
    }
}

fn class_body_of(text: &str, start: usize) -> (r: String)
    ensures
        r@ == class_body(text@, start as int),
{
    let tops = found_in(TOP_LEVEL, text);
    let ghost ts = tops.deep_view();
    let total: usize = text.as_bytes().len();
    let mut i: usize = 0;
    let mut end: usize = total;
    assert(ts.skip(0) =~= ts);
    while i < tops.len()
        invariant_except_break
            end == total,
            next_top(ts, start as int, total as int) == next_top(
                ts.skip(i as int),
                start as int,
                total as int,
            ),
        invariant
            i <= tops.len(),
            ts == tops.deep_view(),
        ensures
            end == next_top(ts, start as int, total as int),
        decreases tops.len() - i,
    {
        assert(ts[i as int] == tops[i as int].deep_view());
        assert(ts.skip(i as int)[0] == ts[i as int]);
        let at: usize = start_of(&tops[i]);
        if at >= start {
            end = at;
            break;
        }
        assert(ts.skip(i as int).skip(1) =~= ts.skip(i + 1));
        i += 1;
    }
    match between_bytes(text, start, end) {
        Some(b) => b,
        None => {
            let b = String::new();
            assert(b@ =~= seq![]);
            b
        },
    }
}

pub open spec fn each_other(x: Seq<char>) -> spec_fn(Seq<char>) -> Option<Seq<char>> {
    |t: Seq<char>|
        if t == x {
            None
        } else {
            Some(t)
        }
}

/// The texts of a list other than `x`.
pub fn others_of(list: &Vec<String>, x: &str) -> (r: Vec<String>)
    ensures
        r.deep_view() == list.deep_view().filter_map(each_other(x@)),
{
    let mut out: Vec<String> = Vec::new();
    let ghost all = list.deep_view();
    let mut i: usize = 0;
    proof {
        lemma_collect_nothing(all, each_other(x@));
    }
    while i < list.len()
        invariant
            i <= list.len(),
            all == list.deep_view(),
            out.deep_view() =~= all.take(i as int).filter_map(each_other(x@)),
        decreases list.len() - i,
    {
        let ghost so_far = out.deep_view();
        proof {
            all.lemma_filter_map_take_succ(each_other(x@), i as int);
        }
        assert(all[i as int] == list[i as int]@);
        if !same(list[i].as_str(), x) {
            out.push(owned(list[i].as_str()));
            assert(out.deep_view() =~= so_far + seq![all[i as int]]);
        }
        i += 1;
    }
    assert(all.take(i as int) =~= all);
    out
}

// ---------------------------------------------------------------------------
// Django
// ---------------------------------------------------------------------------

pub const DJANGO_CLASS: &'static str = r"(?m)^class\s+(\w+)\s*\([^)]*Model[^)]*\)\s*:";

pub const DJANGO_FIELD: &'static str = r"(?m)^    (\w+)\s*=\s*models\.";

pub const DJANGO_RELATION: &'static str = r#"models\.(?:ForeignKey|OneToOneField|ManyToManyField)\(\s*['"]?(\w+)"#;

/// A Django model. Its table is unknown: the name would need the app's label.
pub open spec fn django_model(
    name: Seq<char>,
    fields: Seq<Seq<char>>,
    targets: Seq<Seq<char>>,
) -> DeclFragmentView {
    decl(name, "django"@, fields, sorted_set(targets.filter_map(each_other("self"@))), None)
}

pub open spec fn each_django(text: Seq<char>) -> spec_fn(Seq<Option<SpanView>>) -> DeclFragmentView {
    |m: Seq<Option<SpanView>>|
        {
            let body = class_body(text, match_end(m));
            django_model(
                group_text(m, 1),
                group_texts(found(DJANGO_FIELD@, body), 1),
                group_texts(found(DJANGO_RELATION@, body), 1),
            )
        }
}

pub open spec fn django_decls(text: Seq<char>) -> Seq<DeclFragmentView> {
    found(DJANGO_CLASS@, text).map_values(each_django(text))
}

pub fn django_model_of(name: String, fields: Vec<String>, targets: &Vec<String>) -> (r: DeclFragment)
    ensures
        r.deep_view() == django_model(name@, fields.deep_view(), targets.deep_view()),
{
    let named = others_of(targets, "self");
    DeclFragment {
        name,
        kind: owned("django"),
        fields,
        relations: sorted_distinct(&named),
        table: None,
    }
}

pub fn extract_django(text: &str) -> (r: Vec<DeclFragment>)
    ensures
        r.deep_view() == django_decls(text@),
{
    let ms = found_in(DJANGO_CLASS, text);
    let ghost all = ms.deep_view().map_values(each_django(text@));
    let mut out: Vec<DeclFragment> = Vec::new();
    let mut i: usize = 0;
    while i < ms.len()
        invariant
            i <= ms.len(),
            all == ms.deep_view().map_values(each_django(text@)),
            out.deep_view() =~= all.take(i as int),
        decreases ms.len() - i,
    {
        let ghost so_far = out.deep_view();
        assert(ms.deep_view()[i as int] == ms[i as int].deep_view());
        let body = class_body_of(text, end_of(&ms[i]));
        let fields = group_texts_of(&found_in(DJANGO_FIELD, body.as_str()), 1);
        let targets = group_texts_of(&found_in(DJANGO_RELATION, body.as_str()), 1);
        out.push(django_model_of(group_text_of(&ms[i], 1), fields, &targets));
        assert(out.deep_view() =~= so_far.push(all[i as int]));
        i += 1;
    }
    assert(all.take(i as int) =~= all);
    out
}

// ---------------------------------------------------------------------------
// Pydantic and SQLModel
// ---------------------------------------------------------------------------

pub const PYTHON_CLASS: &'static str = r"(?m)^class\s+(\w+)\s*\(([^)]*)\)\s*:";

pub const PYDANTIC_FIELD: &'static str = r"(?m)^    (\w+)\s*:";

pub open spec fn declares_table(bases: Seq<char>) -> bool {
    contains(bases, "table=True"@) || contains(bases, "table = True"@)
}

/// A class with `table=True` declares storage, whatever its bases are called.
pub open spec fn pydantic_model(
    name: Seq<char>,
    bases: Seq<char>,
    fields: Seq<Seq<char>>,
) -> Option<DeclFragmentView> {
    let stored = declares_table(bases);
    if !stored && !contains(bases, "BaseModel"@) && !contains(bases, "SQLModel"@) {
        None
    } else {
        Some(
            decl(
                name,
                if stored || contains(bases, "SQLModel"@) {
                    "sqlmodel"@
                } else {
                    "pydantic"@
                },
                fields,
                seq![],
                if stored {
                    Some(lowered(name))
                } else {
                    None
                },
            ),
        )
    }
}

pub open spec fn each_pydantic(text: Seq<char>) -> spec_fn(Seq<Option<SpanView>>) -> Option<
    DeclFragmentView,
> {
    |m: Seq<Option<SpanView>>|
        pydantic_model(
            group_text(m, 1),
            group_text(m, 2),
            group_texts(found(PYDANTIC_FIELD@, class_body(text, match_end(m))), 1),
        )
}

pub open spec fn pydantic_decls(text: Seq<char>) -> Seq<DeclFragmentView> {
    found(PYTHON_CLASS@, text).filter_map(each_pydantic(text))
}

pub fn pydantic_model_of(name: String, bases: &str, fields: Vec<String>) -> (r: Option<DeclFragment>)
    ensures
        r.deep_view() == pydantic_model(name@, bases@, fields.deep_view()),
{
    let stored = holds(bases, "table=True") || holds(bases, "table = True");
    let sqlmodel = holds(bases, "SQLModel");
    if !stored && !holds(bases, "BaseModel") && !sqlmodel {
        return None;
    }
    let kind = if stored || sqlmodel {
        owned("sqlmodel")
    } else {
        owned("pydantic")
    };
    let table = if stored {
        Some(lowercase(name.as_str()))
    } else {
        None
    };
    let relations: Vec<String> = Vec::new();
    assert(relations.deep_view() =~= seq![]);
    Some(DeclFragment { name, kind, fields, relations, table })
}

pub fn extract_pydantic(text: &str) -> (r: Vec<DeclFragment>)
    ensures
        r.deep_view() == pydantic_decls(text@),
{
    let ms = found_in(PYTHON_CLASS, text);
    let ghost all = ms.deep_view();
    let mut out: Vec<DeclFragment> = Vec::new();
    let mut i: usize = 0;
    proof {
        lemma_collect_nothing(all, each_pydantic(text@));
    }
    while i < ms.len()
        invariant
            i <= ms.len(),
            all == ms.deep_view(),
            out.deep_view() =~= all.take(i as int).filter_map(each_pydantic(text@)),
        decreases ms.len() - i,
    {
        let ghost so_far = out.deep_view();
        proof {
            all.lemma_filter_map_take_succ(each_pydantic(text@), i as int);
        }
        assert(all[i as int] == ms[i as int].deep_view());
        let body = class_body_of(text, end_of(&ms[i]));
        let fields = group_texts_of(&found_in(PYDANTIC_FIELD, body.as_str()), 1);
        let bases = group_text_of(&ms[i], 2);
        if let Some(d) = pydantic_model_of(group_text_of(&ms[i], 1), bases.as_str(), fields) {
            out.push(d);
            assert(out.deep_view() =~= so_far + seq![d.deep_view()]);
        }
        i += 1;
    }
    assert(all.take(i as int) =~= all);
    out
}

// ---------------------------------------------------------------------------
// SQLAlchemy
// ---------------------------------------------------------------------------

pub const TABLENAME: &'static str = r#"__tablename__\s*=\s*["']([^"']+)["']"#;

pub const SQLALCHEMY_FIELD: &'static str = r"(?m)^    (\w+)\s*=\s*(?:db\.)?Column\(";

/// A class states a table or inherits `db.Model`; anything less is no model.
pub open spec fn sqlalchemy_model(
    name: Seq<char>,
    bases: Seq<char>,
    table: Option<Seq<char>>,
    fields: Seq<Seq<char>>,
) -> Option<DeclFragmentView> {
    if table is None && !contains(bases, "db.Model"@) {
        None
    } else {
        Some(decl(name, "sqlalchemy"@, fields, seq![], table))
    }
}

pub open spec fn each_sqlalchemy(text: Seq<char>) -> spec_fn(Seq<Option<SpanView>>) -> Option<
    DeclFragmentView,
> {
    |m: Seq<Option<SpanView>>|
        {
            let body = class_body(text, match_end(m));
            sqlalchemy_model(
                group_text(m, 1),
                group_text(m, 2),
                first_group(TABLENAME@, body),
                group_texts(found(SQLALCHEMY_FIELD@, body), 1),
            )
        }
}

pub open spec fn sqlalchemy_decls(text: Seq<char>) -> Seq<DeclFragmentView> {
    found(PYTHON_CLASS@, text).filter_map(each_sqlalchemy(text))
}

pub fn sqlalchemy_model_of(
    name: String,
    bases: &str,
    table: Option<String>,
    fields: Vec<String>,
) -> (r: Option<DeclFragment>)
    ensures
        r.deep_view() == sqlalchemy_model(name@, bases@, table.deep_view(), fields.deep_view()),
{
    if table.is_none() && !holds(bases, "db.Model") {
        return None;
    }
    let relations: Vec<String> = Vec::new();
    assert(relations.deep_view() =~= seq![]);
    Some(DeclFragment { name, kind: owned("sqlalchemy"), fields, relations, table })
}

pub fn extract_sqlalchemy(text: &str) -> (r: Vec<DeclFragment>)
    ensures
        r.deep_view() == sqlalchemy_decls(text@),
{
    let ms = found_in(PYTHON_CLASS, text);
    let ghost all = ms.deep_view();
    let mut out: Vec<DeclFragment> = Vec::new();
    let mut i: usize = 0;
    proof {
        lemma_collect_nothing(all, each_sqlalchemy(text@));
    }
    while i < ms.len()
        invariant
            i <= ms.len(),
            all == ms.deep_view(),
            out.deep_view() =~= all.take(i as int).filter_map(each_sqlalchemy(text@)),
        decreases ms.len() - i,
    {
        let ghost so_far = out.deep_view();
        proof {
            all.lemma_filter_map_take_succ(each_sqlalchemy(text@), i as int);
        }
        assert(all[i as int] == ms[i as int].deep_view());
        let body = class_body_of(text, end_of(&ms[i]));
        let table = first_group_of(TABLENAME, body.as_str());
        let fields = group_texts_of(&found_in(SQLALCHEMY_FIELD, body.as_str()), 1);
        let bases = group_text_of(&ms[i], 2);
        if let Some(d) = sqlalchemy_model_of(
            group_text_of(&ms[i], 1),
            bases.as_str(),
            table,
            fields,
        ) {
            out.push(d);
            assert(out.deep_view() =~= so_far + seq![d.deep_view()]);
        }
        i += 1;
    }
    assert(all.take(i as int) =~= all);
    out
}

// ---------------------------------------------------------------------------
// Dialects whose fields and relations belong to the whole file
// ---------------------------------------------------------------------------

/// Where a declaration's table name comes from.
#[derive(Clone, Copy, PartialEq, Eq, Structural)]
pub enum TableSource {
    Nowhere,
    Group(usize),
    Name,
}

pub open spec fn table_from(
    source: TableSource,
    m: Seq<Option<SpanView>>,
    name: Seq<char>,
) -> Option<Seq<char>> {
    match source {
        TableSource::Nowhere => None,
        TableSource::Group(g) => group(m, g as int),
        TableSource::Name => Some(name),
    }
}

pub open spec fn each_named(
    name_group: int,
    kind: Seq<char>,
    fields: Seq<Seq<char>>,
    relations: Seq<Seq<char>>,
    source: TableSource,
) -> spec_fn(Seq<Option<SpanView>>) -> DeclFragmentView {
    |m: Seq<Option<SpanView>>|
        decl(
            group_text(m, name_group),
            kind,
            fields,
            relations,
            table_from(source, m, group_text(m, name_group)),
        )
}

/// One declaration for each match, all with the same fields and relations.
pub fn named_decls(
    ms: &Vec<Vec<Option<Span>>>,
    name_group: usize,
    kind: &str,
    fields: &Vec<String>,
    relations: &Vec<String>,
    source: TableSource,
) -> (r: Vec<DeclFragment>)
    ensures
        r.deep_view() == ms.deep_view().map_values(
            each_named(
                name_group as int,
                kind@,
                fields.deep_view(),
                relations.deep_view(),
                source,
            ),
        ),
{
    let ghost f = each_named(
        name_group as int,
        kind@,
        fields.deep_view(),
        relations.deep_view(),
        source,
    );
    let ghost all = ms.deep_view().map_values(f);
    let mut out: Vec<DeclFragment> = Vec::new();
    let mut i: usize = 0;
    while i < ms.len()
        invariant
            i <= ms.len(),
            f == each_named(
                name_group as int,
                kind@,
                fields.deep_view(),
                relations.deep_view(),
                source,
            ),
            all == ms.deep_view().map_values(f),
            out.deep_view() =~= all.take(i as int),
        decreases ms.len() - i,
    {
        let ghost so_far = out.deep_view();
        assert(ms.deep_view()[i as int] == ms[i as int].deep_view());
        let name = group_text_of(&ms[i], name_group);
        let table = match source {
            TableSource::Nowhere => None,
            TableSource::Group(g) => group_of(&ms[i], g),
            TableSource::Name => Some(owned(name.as_str())),
        };
        out.push(
            DeclFragment {
                name,
                kind: owned(kind),
                fields: copied(fields),
                relations: copied(relations),
                table,
            },
        );
        assert(out.deep_view() =~= so_far.push(all[i as int]));
        i += 1;
    }
    assert(all.take(i as int) =~= all);
    out
}

/// The first groups of all matches in ascending order, each once.
pub open spec fn named_relations(pattern: Seq<char>, text: Seq<char>) -> Seq<Seq<char>> {
    sorted_set(group_texts(found(pattern, text), 1))
}

fn named_relations_of(pattern: &str, text: &str) -> (r: Vec<String>)
    ensures
        r.deep_view() == named_relations(pattern@, text@),
{
    let texts = group_texts_of(&found_in(pattern, text), 1);
    sorted_distinct(&texts)
}

fn no_texts() -> (r: Vec<String>)
    ensures
        r.deep_view() == Seq::<Seq<char>>::empty(),
{
    let v: Vec<String> = Vec::new();
    assert(v.deep_view() =~= seq![]);
    v
}

pub const CREATE_TABLE: &'static str = r#"(?i)create\s+table\s+(?:if\s+not\s+exists\s+)?["'`]?(\w+)["'`]?\s*(?:\(|as\b)"#;

/// A line that starts a comment in some language.
pub open spec fn is_comment_line(line: Seq<char>) -> bool {
    let t = trim_start(line);
    starts_with(t, "//"@) || starts_with(t, "#"@) || starts_with(t, "--"@) || starts_with(t, "*"@)
}

pub open spec fn each_code_line() -> spec_fn(Seq<char>) -> Option<Seq<char>> {
    |line: Seq<char>|
        if is_comment_line(line) {
            None
        } else {
            Some(line)
        }
}

/// What is searched for tables: outside an SQL file prose about a schema is no
/// schema, so comment lines go.
pub open spec fn sql_source(is_sql_file: bool, text: Seq<char>) -> Seq<char> {
    if is_sql_file {
        text
    } else {
        join(lines(text).filter_map(each_code_line()), "\n"@)
    }
}

pub open spec fn each_table() -> spec_fn(Seq<Option<SpanView>>) -> DeclFragmentView {
    each_named(1, "sql"@, seq![], seq![], TableSource::Name)
}

pub open spec fn sql_decls(is_sql_file: bool, text: Seq<char>) -> Seq<DeclFragmentView> {
    found(CREATE_TABLE@, sql_source(is_sql_file, text)).map_values(each_table())
}

pub fn sql_source_of(is_sql_file: bool, text: &str) -> (r: String)
    ensures
        r@ == sql_source(is_sql_file, text@),
{
    if is_sql_file {
        return owned(text);
    }
    let ls = lines_of(text);
    let ghost all = ls.deep_view();
    let mut kept: Vec<String> = Vec::new();
    let mut i: usize = 0;
    proof {
        lemma_collect_nothing(all, each_code_line());
    }
    while i < ls.len()
        invariant
            i <= ls.len(),
            all == ls.deep_view(),
            kept.deep_view() =~= all.take(i as int).filter_map(each_code_line()),
        decreases ls.len() - i,
    {
        let ghost so_far = kept.deep_view();
        proof {
            all.lemma_filter_map_take_succ(each_code_line(), i as int);
        }
        assert(all[i as int] == ls[i as int]@);
        let t = trimmed_start(ls[i].as_str());
        let comment = begins(t.as_str(), "//") || begins(t.as_str(), "#") || begins(t.as_str(), "--")
            || begins(t.as_str(), "*");
        if !comment {
            kept.push(owned(ls[i].as_str()));
            assert(kept.deep_view() =~= so_far + seq![all[i as int]]);
        }
        i += 1;
    }
    assert(all.take(i as int) =~= all);
    joined(&kept, "\n")
}

pub fn extract_sql(is_sql_file: bool, text: &str) -> (r: Vec<DeclFragment>)
    ensures
        r.deep_view() == sql_decls(is_sql_file, text@),
{
    let source = sql_source_of(is_sql_file, text);
    let ms = found_in(CREATE_TABLE, source.as_str());
    named_decls(&ms, 1, "sql", &no_texts(), &no_texts(), TableSource::Name)
}

pub const MONGOOSE_MODEL: &'static str = r#"mongoose\.model\(\s*['"](\w+)['"]"#;

pub const MONGOOSE_REF: &'static str = r#"ref:\s*['"](\w+)['"]"#;

pub const MONGOOSE_FIELD: &'static str = r"(?m)^\s{2}(\w+)\s*:";

/// The first four thousand bytes from where the schema starts.
pub open spec fn mongoose_schema(text: Seq<char>) -> Option<Seq<char>> {
    match find_from(text, "Schema({"@, 0) {
        Some(i) => {
            let from = encode_utf8(text.take(i)).len() as int;
            let total = encode_utf8(text).len() as int;
            bytes_between(
                text,
                from,
                if total - from <= 4000 {
                    total
                } else {
                    from + 4000
                },
            )
        },
        None => None,
    }
}

/// At most thirty fields of the schema.
pub open spec fn mongoose_fields(text: Seq<char>) -> Seq<Seq<char>> {
    match mongoose_schema(text) {
        Some(body) => crate::model::first_of(group_texts(found(MONGOOSE_FIELD@, body), 1), 30),
        None => seq![],
    }
}

/// Mongoose models. The collection's name is a pluralizer's output and stays
/// unknown.
pub open spec fn mongoose_decls(text: Seq<char>) -> Seq<DeclFragmentView> {
    found(MONGOOSE_MODEL@, text).map_values(
        each_named(
            1,
            "mongoose"@,
            mongoose_fields(text),
            named_relations(MONGOOSE_REF@, text),
            TableSource::Nowhere,
        ),
    )
}

fn mongoose_schema_of(text: &str) -> (r: Option<String>)
    ensures
        r.deep_view() == mongoose_schema(text@),
{
    let cs = chars_of(text);
    let ps = chars_of("Schema({");
    match find_at(&cs, &ps, 0) {
        Some(i) => {
            let head = cut(&cs, 0, i);
            assert(head@ =~= text@.take(i as int));
            let from: usize = head.as_str().as_bytes().len();
            let total: usize = text.as_bytes().len();
            let to: usize = if total <= from || total - from <= 4000 {
                total
            } else {
                from + 4000
            };
            between_bytes(text, from, to)
        },
        None => None,
    }
}

pub fn extract_mongoose(text: &str) -> (r: Vec<DeclFragment>)
    ensures
        r.deep_view() == mongoose_decls(text@),
{
    let fields = match mongoose_schema_of(text) {
        Some(body) => cut_list(group_texts_of(&found_in(MONGOOSE_FIELD, body.as_str()), 1), 30),
        None => no_texts(),
    };
    let relations = named_relations_of(MONGOOSE_REF, text);
    let ms = found_in(MONGOOSE_MODEL, text);
    named_decls(&ms, 1, "mongoose", &fields, &relations, TableSource::Nowhere)
}

pub const TYPEORM_ENTITY: &'static str = r#"@Entity\(\s*(?:['"]([^'"]+)['"])?\s*\)[\s\S]{0,200}?export class (\w+)"#;

pub const TYPEORM_COLUMN: &'static str = r"(?m)@(?:Primary\w*Column|Column)\([^)]*\)\s*\n\s*(\w+)[?!]?\s*[:;]";

pub const TYPEORM_RELATION: &'static str = r"@(?:ManyToOne|OneToMany|OneToOne|ManyToMany)\(\s*(?:type\s*=>|\(\)\s*=>)\s*(\w+)";

/// TypeORM entities; a table is known only where the decorator names it.
pub open spec fn typeorm_decls(text: Seq<char>) -> Seq<DeclFragmentView> {
    found(TYPEORM_ENTITY@, text).map_values(
        each_named(
            2,
            "typeorm"@,
            group_texts(found(TYPEORM_COLUMN@, text), 1),
            named_relations(TYPEORM_RELATION@, text),
            TableSource::Group(1),
        ),
    )
}

pub fn extract_typeorm(text: &str) -> (r: Vec<DeclFragment>)
    ensures
        r.deep_view() == typeorm_decls(text@),
{
    let fields = group_texts_of(&found_in(TYPEORM_COLUMN, text), 1);
    let relations = named_relations_of(TYPEORM_RELATION, text);
    let ms = found_in(TYPEORM_ENTITY, text);
    named_decls(&ms, 2, "typeorm", &fields, &relations, TableSource::Group(1))
}

pub const RAILS_TABLE: &'static str = r#"create_table\s+"(\w+)""#;

pub const RAILS_CLASS: &'static str = r"(?m)^class\s+(\w+)\s*<\s*(?:ApplicationRecord|ActiveRecord::Base)";

pub const RAILS_RELATION: &'static str = r"(?m)^\s+(?:belongs_to|has_many|has_one|has_and_belongs_to_many)\s+:(\w+)";

/// `schema.rb` declares tables; a model file declares classes.
pub open spec fn rails_decls(file_name: Seq<char>, text: Seq<char>) -> Seq<DeclFragmentView> {
    if file_name == "schema.rb"@ {
        found(RAILS_TABLE@, text).map_values(each_table())
    } else {
        found(RAILS_CLASS@, text).map_values(
            each_named(
                1,
                "rails"@,
                seq![],
                named_relations(RAILS_RELATION@, text),
                TableSource::Nowhere,
            ),
        )
    }
}

pub fn extract_rails(file_name: &str, text: &str) -> (r: Vec<DeclFragment>)
    ensures
        r.deep_view() == rails_decls(file_name@, text@),
{
    if same(file_name, "schema.rb") {
        let ms = found_in(RAILS_TABLE, text);
        return named_decls(&ms, 1, "sql", &no_texts(), &no_texts(), TableSource::Name);
    }
    let relations = named_relations_of(RAILS_RELATION, text);
    let ms = found_in(RAILS_CLASS, text);
    named_decls(&ms, 1, "rails", &no_texts(), &relations, TableSource::Nowhere)
}

pub const JPA_ENTITY: &'static str = r#"@Entity[\s\S]{0,300}?(?:@Table\s*\(\s*name\s*=\s*"(\w+)"[\s\S]{0,120}?)?(?:public\s+)?class\s+(\w+)"#;

pub const JPA_RELATION: &'static str = r"@(?:ManyToOne|OneToMany|OneToOne|ManyToMany)[\s\S]{0,200}?(?:private|protected)\s+(?:\w+<)?(\w+)>?\s+\w+";

/// The related types of an entity without the collections that hold them.
pub open spec fn jpa_relations(text: Seq<char>) -> Seq<Seq<char>> {
    sorted_set(
        group_texts(found(JPA_RELATION@, text), 1).filter_map(each_other("Set"@)).filter_map(
            each_other("List"@),
        ).filter_map(each_other("Collection"@)),
    )
}

pub open spec fn jpa_decls(text: Seq<char>) -> Seq<DeclFragmentView> {
    found(JPA_ENTITY@, text).map_values(
        each_named(2, "jpa"@, seq![], jpa_relations(text), TableSource::Group(1)),
    )
}

pub fn extract_jpa(text: &str) -> (r: Vec<DeclFragment>)
    ensures
        r.deep_view() == jpa_decls(text@),
{
    let named = group_texts_of(&found_in(JPA_RELATION, text), 1);
    let named = others_of(&named, "Set");
    let named = others_of(&named, "List");
    let named = others_of(&named, "Collection");
    let relations = sorted_distinct(&named);
    let ms = found_in(JPA_ENTITY, text);
    named_decls(&ms, 2, "jpa", &no_texts(), &relations, TableSource::Group(1))
}

// ---------------------------------------------------------------------------
// Drizzle, Eloquent, GORM, Ecto
// ---------------------------------------------------------------------------

pub const DRIZZLE_TABLE: &'static str = r#"(?:export\s+)?const\s+(\w+)\s*=\s*(?:pg|sqlite|mysql)Table\(\s*['"](\w+)['"]"#;

pub const DRIZZLE_REF: &'static str = r"references\(\s*\(\)\s*=>\s*(\w+)\.";

/// A Drizzle table: the exported binding is the concept, and it has no relation
/// to itself.
pub open spec fn drizzle_table(
    name: Seq<char>,
    relations: Seq<Seq<char>>,
    table: Seq<char>,
) -> DeclFragmentView {
    decl(name, "drizzle"@, seq![], relations.filter_map(each_other(name)), Some(table))
}

pub open spec fn each_drizzle(relations: Seq<Seq<char>>) -> spec_fn(
    Seq<Option<SpanView>>,
) -> DeclFragmentView {
    |m: Seq<Option<SpanView>>| drizzle_table(group_text(m, 1), relations, group_text(m, 2))
}

pub open spec fn drizzle_decls(text: Seq<char>) -> Seq<DeclFragmentView> {
    found(DRIZZLE_TABLE@, text).map_values(each_drizzle(named_relations(DRIZZLE_REF@, text)))
}

pub fn drizzle_table_of(name: String, relations: &Vec<String>, table: String) -> (r: DeclFragment)
    ensures
        r.deep_view() == drizzle_table(name@, relations.deep_view(), table@),
{
    let relations = others_of(relations, name.as_str());
    DeclFragment {
        name,
        kind: owned("drizzle"),
        fields: no_texts(),
        relations,
        table: Some(table),
    }
}

pub fn extract_drizzle(text: &str) -> (r: Vec<DeclFragment>)
    ensures
        r.deep_view() == drizzle_decls(text@),
{
    let relations = named_relations_of(DRIZZLE_REF, text);
    let ms = found_in(DRIZZLE_TABLE, text);
    let ghost f = each_drizzle(relations.deep_view());
    let ghost all = ms.deep_view().map_values(f);
    let mut out: Vec<DeclFragment> = Vec::new();
    let mut i: usize = 0;
    while i < ms.len()
        invariant
            i <= ms.len(),
            f == each_drizzle(relations.deep_view()),
            all == ms.deep_view().map_values(f),
            out.deep_view() =~= all.take(i as int),
        decreases ms.len() - i,
    {
        let ghost so_far = out.deep_view();
        assert(ms.deep_view()[i as int] == ms[i as int].deep_view());
        out.push(
            drizzle_table_of(group_text_of(&ms[i], 1), &relations, group_text_of(&ms[i], 2)),
        );
        assert(out.deep_view() =~= so_far.push(all[i as int]));
        i += 1;
    }
    assert(all.take(i as int) =~= all);
    out
}

pub const ELOQUENT_CLASS: &'static str = r"(?m)^(?:abstract\s+)?class\s+(\w+)\s+extends\s+\w+";

pub const ELOQUENT_TABLE: &'static str = r#"protected\s+\$table\s*=\s*['"](\w+)['"]"#;

pub const ELOQUENT_RELATION: &'static str = r"(?:hasMany|belongsTo|hasOne|belongsToMany|morphMany)\(\s*(\w+)::class";

/// An Eloquent model, unless the class is a controller, a test or an exception.
pub open spec fn eloquent_model(
    name: Seq<char>,
    relations: Seq<Seq<char>>,
    table: Option<Seq<char>>,
) -> Option<DeclFragmentView> {
    if crate::text::ends_with(name, "Controller"@) || crate::text::ends_with(name, "Test"@)
        || crate::text::ends_with(name, "Exception"@) {
        None
    } else {
        Some(decl(name, "eloquent"@, seq![], relations, table))
    }
}

pub open spec fn each_eloquent(relations: Seq<Seq<char>>, table: Option<Seq<char>>) -> spec_fn(
    Seq<Option<SpanView>>,
) -> Option<DeclFragmentView> {
    |m: Seq<Option<SpanView>>| eloquent_model(group_text(m, 1), relations, table)
}

pub open spec fn eloquent_decls(text: Seq<char>) -> Seq<DeclFragmentView> {
    found(ELOQUENT_CLASS@, text).filter_map(
        each_eloquent(named_relations(ELOQUENT_RELATION@, text), first_group(ELOQUENT_TABLE@, text)),
    )
}

pub fn eloquent_model_of(name: String, relations: &Vec<String>, table: &Option<String>) -> (r: Option<
    DeclFragment,
>)
    ensures
        r.deep_view() == eloquent_model(name@, relations.deep_view(), table.deep_view()),
{
    if ends(name.as_str(), "Controller") || ends(name.as_str(), "Test") || ends(
        name.as_str(),
        "Exception",
    ) {
        return None;
    }
    Some(
        DeclFragment {
            name,
            kind: owned("eloquent"),
            fields: no_texts(),
            relations: copied(relations),
            table: copied_option(table),
        },
    )
}

pub fn extract_eloquent(text: &str) -> (r: Vec<DeclFragment>)
    ensures
        r.deep_view() == eloquent_decls(text@),
{
    let relations = named_relations_of(ELOQUENT_RELATION, text);
    let table = first_group_of(ELOQUENT_TABLE, text);
    let ms = found_in(ELOQUENT_CLASS, text);
    let ghost f = each_eloquent(relations.deep_view(), table.deep_view());
    let ghost all = ms.deep_view();
    let mut out: Vec<DeclFragment> = Vec::new();
    let mut i: usize = 0;
    proof {
        lemma_collect_nothing(all, f);
    }
    while i < ms.len()
        invariant
            i <= ms.len(),
            all == ms.deep_view(),
            f == each_eloquent(relations.deep_view(), table.deep_view()),
            out.deep_view() =~= all.take(i as int).filter_map(f),
        decreases ms.len() - i,
    {
        let ghost so_far = out.deep_view();
        proof {
            all.lemma_filter_map_take_succ(f, i as int);
        }
        assert(all[i as int] == ms[i as int].deep_view());
        if let Some(d) = eloquent_model_of(group_text_of(&ms[i], 1), &relations, &table) {
            out.push(d);
            assert(out.deep_view() =~= so_far + seq![d.deep_view()]);
        }
        i += 1;
    }
    assert(all.take(i as int) =~= all);
    out
}

pub const GORM_STRUCT: &'static str = r"(?ms)^type\s+(\w+)\s+struct\s*\{(.*?)^\}";

pub const GORM_FIELD: &'static str = r"(?m)^\s+(\w+)\s+\S+";

/// A Go struct is a model when its body carries gorm tags; at most thirty
/// fields are kept.
pub open spec fn gorm_model(
    name: Seq<char>,
    body: Seq<char>,
    fields: Seq<Seq<char>>,
) -> Option<DeclFragmentView> {
    if contains(body, "gorm:"@) {
        Some(decl(name, "gorm"@, crate::model::first_of(fields, 30), seq![], None))
    } else {
        None
    }
}

pub open spec fn each_gorm() -> spec_fn(Seq<Option<SpanView>>) -> Option<DeclFragmentView> {
    |m: Seq<Option<SpanView>>|
        gorm_model(
            group_text(m, 1),
            group_text(m, 2),
            group_texts(found(GORM_FIELD@, group_text(m, 2)), 1),
        )
}

pub open spec fn gorm_decls(text: Seq<char>) -> Seq<DeclFragmentView> {
    found(GORM_STRUCT@, text).filter_map(each_gorm())
}

pub fn gorm_model_of(name: String, body: &str, fields: Vec<String>) -> (r: Option<DeclFragment>)
    ensures
        r.deep_view() == gorm_model(name@, body@, fields.deep_view()),
{
    if !(holds(body, "gorm:")) {
        return None;
    }
    Some(
        DeclFragment {
            name,
            kind: owned("gorm"),
            fields: cut_list(fields, 30),
            relations: no_texts(),
            table: None,
        },
    )
}

pub fn extract_gorm(text: &str) -> (r: Vec<DeclFragment>)
    ensures
        r.deep_view() == gorm_decls(text@),
{
    let ms = found_in(GORM_STRUCT, text);
    let ghost all = ms.deep_view();
    let mut out: Vec<DeclFragment> = Vec::new();
    let mut i: usize = 0;
    proof {
        lemma_collect_nothing(all, each_gorm());
    }
    while i < ms.len()
        invariant
            i <= ms.len(),
            all == ms.deep_view(),
            out.deep_view() =~= all.take(i as int).filter_map(each_gorm()),
        decreases ms.len() - i,
    {
        let ghost so_far = out.deep_view();
        proof {
            all.lemma_filter_map_take_succ(each_gorm(), i as int);
        }
        assert(all[i as int] == ms[i as int].deep_view());
        let body = group_text_of(&ms[i], 2);
        let fields = group_texts_of(&found_in(GORM_FIELD, body.as_str()), 1);
        if let Some(d) = gorm_model_of(group_text_of(&ms[i], 1), body.as_str(), fields) {
            out.push(d);
            assert(out.deep_view() =~= so_far + seq![d.deep_view()]);
        }
        i += 1;
    }
    assert(all.take(i as int) =~= all);
    out
}

pub const ECTO_MODULE: &'static str = r"(?m)^\s*defmodule\s+([\w.]+)\s+do";

pub const ECTO_SCHEMA: &'static str = r#"(?m)^\s*schema\s+"(\w+)"\s+do"#;

pub const ECTO_RELATION: &'static str = r"(?m)^\s*(?:belongs_to|has_many|has_one)\s+:(\w+)";

/// The schema of a module: the concept is the module's last segment, the table
/// is what the schema names.
pub open spec fn ecto_schema(
    table: Option<Seq<char>>,
    module: Option<Seq<char>>,
    relations: Seq<Seq<char>>,
) -> Seq<DeclFragmentView> {
    match table {
        None => seq![],
        Some(t) => {
            let name = match module {
                Some(m) => split(m, '.').last(),
                None => t,
            };
            seq![decl(name, "ecto"@, seq![], relations, Some(t))]
        },
    }
}

pub open spec fn ecto_decls(text: Seq<char>) -> Seq<DeclFragmentView> {
    ecto_schema(
        first_group(ECTO_SCHEMA@, text),
        first_group(ECTO_MODULE@, text),
        named_relations(ECTO_RELATION@, text),
    )
}

pub fn ecto_schema_of(
    table: Option<String>,
    module: Option<String>,
    relations: Vec<String>,
) -> (r: Vec<DeclFragment>)
    ensures
        r.deep_view() == ecto_schema(
            table.deep_view(),
            module.deep_view(),
            relations.deep_view(),
        ),
{
    let mut out: Vec<DeclFragment> = Vec::new();
    if let Some(t) = table {
        let name = match module {
            Some(m) => {
                let parts = split_at_char(m.as_str(), '.');
                proof {
                    crate::paths::lemma_split_nonempty(m@, '.');
                }
                assert(parts.deep_view().last() == parts[parts.len() - 1]@);
                owned(parts[parts.len() - 1].as_str())
            },
            None => owned(t.as_str()),
        };
        out.push(
            DeclFragment {
                name,
                kind: owned("ecto"),
                fields: no_texts(),
                relations,
                table: Some(t),
            },
        );
    }
    assert(out.deep_view() =~= ecto_schema(
        table.deep_view(),
        module.deep_view(),
        relations.deep_view(),
    ));
    out
}

pub fn extract_ecto(text: &str) -> (r: Vec<DeclFragment>)
    ensures
        r.deep_view() == ecto_decls(text@),
{
    ecto_schema_of(
        first_group_of(ECTO_SCHEMA, text),
        first_group_of(ECTO_MODULE, text),
        named_relations_of(ECTO_RELATION, text),
    )
}

// ---------------------------------------------------------------------------
// Rust
// ---------------------------------------------------------------------------

pub const RUST_STRUCT: &'static str = r"(?m)^pub struct\s+(\w+)";

pub const RUST_FIELD: &'static str = r"(?m)^\s+pub\s+(\w+)\s*:";

/// Where the brace that is `depth` levels open at `i` is closed.
pub open spec fn closing(s: Seq<char>, i: int, depth: int) -> Option<int>
    decreases s.len() - i,
{
    if i < 0 || i >= s.len() {
        None
    } else if s[i] == '{' {
        closing(s, i + 1, depth + 1)
    } else if s[i] == '}' {
        if depth <= 1 {
            Some(i)
        } else {
            closing(s, i + 1, depth - 1)
        }
    } else {
        closing(s, i + 1, depth)
    }
}

/// What follows a struct's name, from its opening brace on; nothing for a
/// struct without named fields.
pub open spec fn rust_braced(after: Seq<char>) -> Option<Seq<char>> {
    let rest = after.skip(run(after, CharClass::Neither('{', ';')) as int);
    if rest.len() > 0 && rest[0] == '{' {
        Some(rest)
    } else {
        None
    }
}

/// The body between the opening brace and the one that closes it.
pub open spec fn rust_body(braced: Seq<char>) -> Option<Seq<char>> {
    match closing(braced, 1, 1) {
        Some(end) => Some(braced.subrange(1, end)),
        None => None,
    }
}

pub open spec fn rust_fields(braced: Seq<char>) -> Seq<Seq<char>> {
    match rust_body(braced) {
        Some(body) => group_texts(found(RUST_FIELD@, body), 1).filter_map(each_other("_"@)),
        None => seq![],
    }
}

/// A public struct with named fields is a concept; it states no storage.
pub open spec fn each_rust(text: Seq<char>) -> spec_fn(Seq<Option<SpanView>>) -> Option<
    DeclFragmentView,
> {
    |m: Seq<Option<SpanView>>|
        match bytes_between(text, match_end(m), encode_utf8(text).len() as int) {
            Some(after) => match rust_braced(after) {
                Some(braced) => Some(
                    decl(group_text(m, 1), "rust"@, rust_fields(braced), seq![], None),
                ),
                None => None,
            },
            None => None,
        }
}

pub open spec fn rust_decls(text: Seq<char>) -> Seq<DeclFragmentView> {
    found(RUST_STRUCT@, text).filter_map(each_rust(text))
}

pub fn rust_braced_of(after: &str) -> (r: Option<String>)
    ensures
        r.deep_view() == rust_braced(after@),
{
    let cs = chars_of(after);
    assert(cs@.skip(0) =~= cs@);
    let n: usize = run_at(&cs, 0, CharClass::Neither('{', ';'));
    if n < cs.len() && cs[n] == '{' {
        assert(cs@.subrange(n as int, cs@.len() as int) =~= cs@.skip(n as int));
        Some(cut(&cs, n, cs.len()))
    } else {
        None
    }
}

pub fn rust_body_of(braced: &str) -> (r: Option<String>)
    ensures
        r.deep_view() == rust_body(braced@),
{
    let cs = chars_of(braced);
    let mut i: usize = 1;
    let mut depth: usize = 1;
    while i < cs.len()
        invariant
            cs@ == braced@,
            1 <= i,
            1 <= depth <= i,
            closing(braced@, 1, 1) == closing(braced@, i as int, depth as int),
            i <= cs.len() || cs.len() == 0,
        decreases cs.len() - i,
    {
        let c = cs[i];
        if c == '{' {
            depth += 1;
        } else if c == '}' {
            if depth == 1 {
                return Some(cut(&cs, 1, i));
            }
            depth -= 1;
        }
        i += 1;
    }
    None
}

fn rust_fields_of(braced: &str) -> (r: Vec<String>)
    ensures
        r.deep_view() == rust_fields(braced@),
{
    match rust_body_of(braced) {
        Some(body) => {
            let names = group_texts_of(&found_in(RUST_FIELD, body.as_str()), 1);
            others_of(&names, "_")
        },
        None => no_texts(),
    }
}

pub fn extract_rust(text: &str) -> (r: Vec<DeclFragment>)
    ensures
        r.deep_view() == rust_decls(text@),
{
    let ms = found_in(RUST_STRUCT, text);
    let ghost all = ms.deep_view();
    let mut out: Vec<DeclFragment> = Vec::new();
    let total: usize = text.as_bytes().len();
    let mut i: usize = 0;
    proof {
        lemma_collect_nothing(all, each_rust(text@));
    }
    while i < ms.len()
        invariant
            i <= ms.len(),
            all == ms.deep_view(),
            total == encode_utf8(text@).len(),
            out.deep_view() =~= all.take(i as int).filter_map(each_rust(text@)),
        decreases ms.len() - i,
    {
        let ghost so_far = out.deep_view();
        proof {
            all.lemma_filter_map_take_succ(each_rust(text@), i as int);
        }
        assert(all[i as int] == ms[i as int].deep_view());
        if let Some(after) = between_bytes(text, end_of(&ms[i]), total) {
            if let Some(braced) = rust_braced_of(after.as_str()) {
                let d = DeclFragment {
                    name: group_text_of(&ms[i], 1),
                    kind: owned("rust"),
                    fields: rust_fields_of(braced.as_str()),
                    relations: no_texts(),
                    table: None,
                };
                out.push(d);
                assert(out.deep_view() =~= so_far + seq![d.deep_view()]);
            }
        }
        i += 1;
    }
    assert(all.take(i as int) =~= all);
    out
}

// ---------------------------------------------------------------------------
// All dialects
// ---------------------------------------------------------------------------

/// A way of declaring concepts.
#[derive(Clone, Copy, PartialEq, Eq, Structural)]
pub enum Dialect {
    Rust,
    Prisma,
    Django,
    Pydantic,
    Sqlalchemy,
    Mongoose,
    Typeorm,
    Rails,
    Drizzle,
    Eloquent,
    Jpa,
    Gorm,
    Ecto,
    Sql,
}

/// What has been collected from a file: declarations, and the kinds that gave
/// some.
pub struct Declared {
    pub decls: Seq<DeclFragmentView>,
    pub kinds: Seq<Seq<char>>,
}

struct Gathered {
    decls: Vec<DeclFragment>,
    kinds: Vec<String>,
}

impl Gathered {
    spec fn is(self, d: Declared) -> bool {
        self.decls.deep_view() == d.decls && self.kinds.deep_view() == d.kinds
    }
}

/// A file as far as the choice of dialects depends on it.
pub open spec fn extension_or_nothing(path: Seq<char>) -> Seq<char> {
    match extension(path) {
        Some(e) => e,
        None => seq![],
    }
}

/// Whether a file may hold declarations of a dialect.
pub open spec fn speaks(d: Dialect, path: Seq<char>, text: Seq<char>) -> bool {
    let ext = extension_or_nothing(path);
    match d {
        Dialect::Rust => ext == "rs"@,
        Dialect::Prisma => ext == "prisma"@,
        Dialect::Django => base_name(path) == "models.py"@ && contains(text, "models.Model"@),
        Dialect::Pydantic => ext == "py"@ && (contains(text, "BaseModel"@) || contains(
            text,
            "SQLModel"@,
        ) || contains(text, "table=True"@)),
        Dialect::Sqlalchemy => ext == "py"@ && (contains(text, "db.Model"@) || contains(
            text,
            "__tablename__"@,
        )),
        Dialect::Mongoose => (ext == "js"@ || ext == "ts"@) && contains(text, "mongoose.model("@),
        Dialect::Typeorm => ext == "ts"@ && contains(text, "@Entity"@),
        Dialect::Rails => ext == "rb"@,
        Dialect::Drizzle => (ext == "ts"@ || ext == "js"@) && (contains(text, "pgTable("@)
            || contains(text, "sqliteTable("@) || contains(text, "mysqlTable("@)),
        Dialect::Eloquent => ext == "php"@ && contains(text, "class "@) && (split(
            path,
            '/',
        ).contains("Models"@) || contains(text, "extends Model"@)),
        Dialect::Jpa => ext == "java"@ && contains(text, "@Entity"@),
        Dialect::Gorm => ext == "go"@ && contains(text, "gorm"@),
        Dialect::Ecto => (ext == "ex"@ || ext == "exs"@) && contains(text, "schema \""@),
        Dialect::Sql => contains(text, "CREATE TABLE"@) || contains(text, "create table"@),
    }
}

/// What a dialect reads from a file.
pub open spec fn dialect_decls(d: Dialect, path: Seq<char>, text: Seq<char>) -> Seq<
    DeclFragmentView,
> {
    match d {
        Dialect::Rust => rust_decls(text),
        Dialect::Prisma => prisma_decls(text),
        Dialect::Django => django_decls(text),
        Dialect::Pydantic => pydantic_decls(text),
        Dialect::Sqlalchemy => sqlalchemy_decls(text),
        Dialect::Mongoose => mongoose_decls(text),
        Dialect::Typeorm => typeorm_decls(text),
        Dialect::Rails => rails_decls(base_name(path), text),
        Dialect::Drizzle => drizzle_decls(text),
        Dialect::Eloquent => eloquent_decls(text),
        Dialect::Jpa => jpa_decls(text),
        Dialect::Gorm => gorm_decls(text),
        Dialect::Ecto => ecto_decls(text),
        Dialect::Sql => sql_decls(extension_or_nothing(path) == "sql"@, text),
    }
}

pub open spec fn dialect_kind(d: Dialect, path: Seq<char>) -> Seq<char> {
    match d {
        Dialect::Rust => "rust"@,
        Dialect::Prisma => "prisma"@,
        Dialect::Django => "django"@,
        Dialect::Pydantic => "pydantic"@,
        Dialect::Sqlalchemy => "sqlalchemy"@,
        Dialect::Mongoose => "mongoose"@,
        Dialect::Typeorm => "typeorm"@,
        Dialect::Rails => if base_name(path) == "schema.rb"@ {
            "rails-schema"@
        } else {
            "rails"@
        },
        Dialect::Drizzle => "drizzle"@,
        Dialect::Eloquent => "eloquent"@,
        Dialect::Jpa => "jpa"@,
        Dialect::Gorm => "gorm"@,
        Dialect::Ecto => "ecto"@,
        Dialect::Sql => "sql"@,
    }
}

/// One dialect's pass over a file: its declarations are added, and its kind
/// where there are any.
#[verifier::opaque]
pub open spec fn pass(so_far: Declared, d: Dialect, path: Seq<char>, text: Seq<char>) -> Declared {
    let decls = dialect_decls(d, path, text);
    if speaks(d, path, text) && decls.len() > 0 {
        Declared { decls: so_far.decls + decls, kinds: so_far.kinds.push(dialect_kind(d, path)) }
    } else {
        so_far
    }
}

/// Everything that a file declares: every dialect that it speaks, in a fixed
/// order.
pub open spec fn declared(path: Seq<char>, text: Seq<char>) -> Declared {
    let d = Declared { decls: seq![], kinds: seq![] };
    let d = pass(d, Dialect::Rust, path, text);
    let d = pass(d, Dialect::Prisma, path, text);
    let d = pass(d, Dialect::Django, path, text);
    let d = pass(d, Dialect::Pydantic, path, text);
    let d = pass(d, Dialect::Sqlalchemy, path, text);
    let d = pass(d, Dialect::Mongoose, path, text);
    let d = pass(d, Dialect::Typeorm, path, text);
    let d = pass(d, Dialect::Rails, path, text);
    let d = pass(d, Dialect::Drizzle, path, text);
    let d = pass(d, Dialect::Eloquent, path, text);
    let d = pass(d, Dialect::Jpa, path, text);
    let d = pass(d, Dialect::Gorm, path, text);
    let d = pass(d, Dialect::Ecto, path, text);
    pass(d, Dialect::Sql, path, text)
}

fn extension_text(path: &str) -> (r: String)
    ensures
        r@ == extension_or_nothing(path@),
{
    match extension_of(path) {
        Some(e) => e,
        None => {
            let e = String::new();
            assert(e@ =~= seq![]);
            e
        },
    }
}

fn is_spoken(d: Dialect, path: &str, text: &str) -> (r: bool)
    ensures
        r == speaks(d, path@, text@),
{
    let ext = extension_text(path);
    let e = ext.as_str();
    match d {
        Dialect::Rust => same(e, "rs"),
        Dialect::Prisma => same(e, "prisma"),
        Dialect::Django => same(base_name_of(path).as_str(), "models.py") && holds(
            text,
            "models.Model",
        ),
        Dialect::Pydantic => same(e, "py") && (holds(text, "BaseModel") || holds(text, "SQLModel")
            || holds(text, "table=True")),
        Dialect::Sqlalchemy => same(e, "py") && (holds(text, "db.Model") || holds(
            text,
            "__tablename__",
        )),
        Dialect::Mongoose => (same(e, "js") || same(e, "ts")) && holds(text, "mongoose.model("),
        Dialect::Typeorm => same(e, "ts") && holds(text, "@Entity"),
        Dialect::Rails => same(e, "rb"),
        Dialect::Drizzle => (same(e, "ts") || same(e, "js")) && (holds(text, "pgTable(") || holds(
            text,
            "sqliteTable(",
        ) || holds(text, "mysqlTable(")),
        Dialect::Eloquent => same(e, "php") && holds(text, "class ") && (listed(
            &split_at_char(path, '/'),
            "Models",
        ) || holds(text, "extends Model")),
        Dialect::Jpa => same(e, "java") && holds(text, "@Entity"),
        Dialect::Gorm => same(e, "go") && holds(text, "gorm"),
        Dialect::Ecto => (same(e, "ex") || same(e, "exs")) && holds(text, "schema \""),
        Dialect::Sql => holds(text, "CREATE TABLE") || holds(text, "create table"),
    }
}

fn extract_dialect(d: Dialect, path: &str, text: &str) -> (r: Vec<DeclFragment>)
    ensures
        r.deep_view() == dialect_decls(d, path@, text@),
{
    match d {
        Dialect::Rust => extract_rust(text),
        Dialect::Prisma => extract_prisma(text),
        Dialect::Django => extract_django(text),
        Dialect::Pydantic => extract_pydantic(text),
        Dialect::Sqlalchemy => extract_sqlalchemy(text),
        Dialect::Mongoose => extract_mongoose(text),
        Dialect::Typeorm => extract_typeorm(text),
        Dialect::Rails => extract_rails(base_name_of(path).as_str(), text),
        Dialect::Drizzle => extract_drizzle(text),
        Dialect::Eloquent => extract_eloquent(text),
        Dialect::Jpa => extract_jpa(text),
        Dialect::Gorm => extract_gorm(text),
        Dialect::Ecto => extract_ecto(text),
        Dialect::Sql => extract_sql(same(extension_text(path).as_str(), "sql"), text),
    }
}

fn kind_text(d: Dialect, path: &str) -> (r: String)
    ensures
        r@ == dialect_kind(d, path@),
{
    match d {
        Dialect::Rust => owned("rust"),
        Dialect::Prisma => owned("prisma"),
        Dialect::Django => owned("django"),
        Dialect::Pydantic => owned("pydantic"),
        Dialect::Sqlalchemy => owned("sqlalchemy"),
        Dialect::Mongoose => owned("mongoose"),
        Dialect::Typeorm => owned("typeorm"),
        Dialect::Rails => if same(base_name_of(path).as_str(), "schema.rb") {
            owned("rails-schema")
        } else {
            owned("rails")
        },
        Dialect::Drizzle => owned("drizzle"),
        Dialect::Eloquent => owned("eloquent"),
        Dialect::Jpa => owned("jpa"),
        Dialect::Gorm => owned("gorm"),
        Dialect::Ecto => owned("ecto"),
        Dialect::Sql => owned("sql"),
    }
}

fn run_pass(g: Gathered, d: Dialect, path: &str, text: &str, Ghost(before): Ghost<Declared>) -> (r:
    Gathered)
    requires
        g.is(before),
    ensures
        r.is(pass(before, d, path@, text@)),
{
    proof {
        reveal(pass);
    }
    if !is_spoken(d, path, text) {
        return g;
    }
    let mut more = extract_dialect(d, path, text);
    if more.len() == 0 {
        return g;
    }
    let ghost b = more.deep_view();
    let mut decls = g.decls;
    let mut kinds = g.kinds;
    decls.append(&mut more);
    assert(decls.deep_view() =~= before.decls + b);
    kinds.push(kind_text(d, path));
    assert(kinds.deep_view() =~= before.kinds.push(dialect_kind(d, path@)));
    Gathered { decls, kinds }
}

/// Everything that a file declares, with the kinds of declarations found.
pub fn extract_declarations(path: &str, text: &str) -> (r: (Vec<DeclFragment>, Vec<String>))
    ensures
        r.0.deep_view() == declared(path@, text@).decls,
        r.1.deep_view() == declared(path@, text@).kinds,
{
    let g = Gathered { decls: Vec::new(), kinds: Vec::new() };
    let ghost d = Declared { decls: seq![], kinds: seq![] };
    assert(g.decls.deep_view() =~= seq![]);
    assert(g.kinds.deep_view() =~= seq![]);
    let g = run_pass(g, Dialect::Rust, path, text, Ghost(d));
    let ghost d = pass(d, Dialect::Rust, path@, text@);
    let g = run_pass(g, Dialect::Prisma, path, text, Ghost(d));
    let ghost d = pass(d, Dialect::Prisma, path@, text@);
    let g = run_pass(g, Dialect::Django, path, text, Ghost(d));
    let ghost d = pass(d, Dialect::Django, path@, text@);
    let g = run_pass(g, Dialect::Pydantic, path, text, Ghost(d));
    let ghost d = pass(d, Dialect::Pydantic, path@, text@);
    let g = run_pass(g, Dialect::Sqlalchemy, path, text, Ghost(d));
    let ghost d = pass(d, Dialect::Sqlalchemy, path@, text@);
    let g = run_pass(g, Dialect::Mongoose, path, text, Ghost(d));
    let ghost d = pass(d, Dialect::Mongoose, path@, text@);
    let g = run_pass(g, Dialect::Typeorm, path, text, Ghost(d));
    let ghost d = pass(d, Dialect::Typeorm, path@, text@);
    let g = run_pass(g, Dialect::Rails, path, text, Ghost(d));
    let ghost d = pass(d, Dialect::Rails, path@, text@);
    let g = run_pass(g, Dialect::Drizzle, path, text, Ghost(d));
    let ghost d = pass(d, Dialect::Drizzle, path@, text@);
    let g = run_pass(g, Dialect::Eloquent, path, text, Ghost(d));
    let ghost d = pass(d, Dialect::Eloquent, path@, text@);
    let g = run_pass(g, Dialect::Jpa, path, text, Ghost(d));
    let ghost d = pass(d, Dialect::Jpa, path@, text@);
    let g = run_pass(g, Dialect::Gorm, path, text, Ghost(d));
    let ghost d = pass(d, Dialect::Gorm, path@, text@);
    let g = run_pass(g, Dialect::Ecto, path, text, Ghost(d));
    let ghost d = pass(d, Dialect::Ecto, path@, text@);
    let g = run_pass(g, Dialect::Sql, path, text, Ghost(d));
    (g.decls, g.kinds)
}

} // verus!
