//! What the dialects declare, said of the files, classes and fields that they
//! read.
use vstd::prelude::*;
use vstd::utf8::encode_utf8;
use crate::answer_laws::lemma_filtered_from;
use crate::extract::{
    class_body, closing, declared, dialect_decls, dialect_kind, django_model, drizzle_table,
    each_code_line, each_eloquent, each_gorm, each_other, each_prisma_enum, each_prisma_model,
    each_prisma_relation, each_pydantic, each_rust, each_sqlalchemy, each_table, ecto_schema,
    eloquent_model, first_group, gorm_model, is_comment_line, named_relations, pass, prisma_field,
    prisma_model, pydantic_model, rust_body, rust_braced, rust_fields, speaks, sql_source,
    sqlalchemy_model, CREATE_TABLE, DJANGO_CLASS, DJANGO_FIELD, DJANGO_RELATION, DRIZZLE_TABLE,
    ECTO_MODULE, ECTO_SCHEMA, ELOQUENT_CLASS, ELOQUENT_RELATION, ELOQUENT_TABLE, GORM_STRUCT,
    JPA_ENTITY, JPA_RELATION, MONGOOSE_MODEL, MONGOOSE_REF, PRISMA_ENUM, PRISMA_MODEL,
    PYDANTIC_FIELD, PYTHON_CLASS, RAILS_CLASS, RAILS_RELATION, RAILS_TABLE, RUST_STRUCT,
    SQLALCHEMY_FIELD, TABLENAME, TYPEORM_COLUMN, TYPEORM_ENTITY, TYPEORM_RELATION, Declared,
    Dialect,
};
use crate::model::DeclFragmentView;
use crate::outside::{bytes_between, found, group, group_text, group_texts, match_end};
use crate::paths::{base_name, extension};
use crate::query::lemma_kept_by_filter_map;
use crate::table::lemma_sorted_set;
use crate::text::{contains, is_upper, lines, lowered, run, split, trim, trim_start, CharClass};

verus! {

// ---------------------------------------------------------------------------
// From a dialect to the file
// ---------------------------------------------------------------------------

proof fn lemma_pass(so_far: Declared, d: Dialect, path: Seq<char>, text: Seq<char>, x: DeclFragmentView)
    ensures
        pass(so_far, d, path, text).decls.contains(x) <==> so_far.decls.contains(x) || (speaks(
            d,
            path,
            text,
        ) && dialect_decls(d, path, text).contains(x)),
{
    reveal(pass);
    let more = dialect_decls(d, path, text);
    let r = pass(so_far, d, path, text);
    if speaks(d, path, text) && more.len() > 0 {
        if so_far.decls.contains(x) {
            let i = choose|i: int| 0 <= i < so_far.decls.len() && so_far.decls[i] == x;
            assert(r.decls[i] == x);
        }
        if more.contains(x) {
            let i = choose|i: int| 0 <= i < more.len() && more[i] == x;
            assert(r.decls[so_far.decls.len() + i] == x);
        }
        if r.decls.contains(x) {
            let i = choose|i: int| 0 <= i < r.decls.len() && r.decls[i] == x;
            if i < so_far.decls.len() {
                assert(so_far.decls[i] == x);
            } else {
                assert(more[i - so_far.decls.len()] == x);
            }
        }
    }
}

proof fn lemma_pass_kind(so_far: Declared, d: Dialect, path: Seq<char>, text: Seq<char>, k: Seq<char>)
    ensures
        pass(so_far, d, path, text).kinds.contains(k) <==> so_far.kinds.contains(k) || (speaks(
            d,
            path,
            text,
        ) && dialect_decls(d, path, text).len() > 0 && dialect_kind(d, path) == k),
{
    reveal(pass);
    let more = dialect_decls(d, path, text);
    let r = pass(so_far, d, path, text);
    if speaks(d, path, text) && more.len() > 0 {
        if so_far.kinds.contains(k) {
            let i = choose|i: int| 0 <= i < so_far.kinds.len() && so_far.kinds[i] == k;
            assert(r.kinds[i] == k);
        }
        if dialect_kind(d, path) == k {
            assert(r.kinds[so_far.kinds.len() as int] == k);
        }
        if r.kinds.contains(k) {
            let i = choose|i: int| 0 <= i < r.kinds.len() && r.kinds[i] == k;
            if i < so_far.kinds.len() {
                assert(so_far.kinds[i] == k);
            }
        }
    }
}

/// A file declares exactly what the dialects that it speaks read from it.
pub proof fn law_every_dialect_is_heard(path: Seq<char>, text: Seq<char>, x: DeclFragmentView)
    ensures
        declared(path, text).decls.contains(x) <==> exists|d: Dialect| #[trigger]
            speaks(d, path, text) && dialect_decls(d, path, text).contains(x),
{
    let d0 = Declared { decls: seq![], kinds: seq![] };
    let d1 = pass(d0, Dialect::Rust, path, text);
    let d2 = pass(d1, Dialect::Prisma, path, text);
    let d3 = pass(d2, Dialect::Django, path, text);
    let d4 = pass(d3, Dialect::Pydantic, path, text);
    let d5 = pass(d4, Dialect::Sqlalchemy, path, text);
    let d6 = pass(d5, Dialect::Mongoose, path, text);
    let d7 = pass(d6, Dialect::Typeorm, path, text);
    let d8 = pass(d7, Dialect::Rails, path, text);
    let d9 = pass(d8, Dialect::Drizzle, path, text);
    let d10 = pass(d9, Dialect::Eloquent, path, text);
    let d11 = pass(d10, Dialect::Jpa, path, text);
    let d12 = pass(d11, Dialect::Gorm, path, text);
    let d13 = pass(d12, Dialect::Ecto, path, text);
    let d14 = pass(d13, Dialect::Sql, path, text);
    assert(declared(path, text) == d14);
    assert(!d0.decls.contains(x));
    lemma_pass(d0, Dialect::Rust, path, text, x);
    lemma_pass(d1, Dialect::Prisma, path, text, x);
    lemma_pass(d2, Dialect::Django, path, text, x);
    lemma_pass(d3, Dialect::Pydantic, path, text, x);
    lemma_pass(d4, Dialect::Sqlalchemy, path, text, x);
    lemma_pass(d5, Dialect::Mongoose, path, text, x);
    lemma_pass(d6, Dialect::Typeorm, path, text, x);
    lemma_pass(d7, Dialect::Rails, path, text, x);
    lemma_pass(d8, Dialect::Drizzle, path, text, x);
    lemma_pass(d9, Dialect::Eloquent, path, text, x);
    lemma_pass(d10, Dialect::Jpa, path, text, x);
    lemma_pass(d11, Dialect::Gorm, path, text, x);
    lemma_pass(d12, Dialect::Ecto, path, text, x);
    lemma_pass(d13, Dialect::Sql, path, text, x);
}

/// A file bears exactly the kinds of the dialects that read something from it.
pub proof fn law_every_kind_is_borne(path: Seq<char>, text: Seq<char>, k: Seq<char>)
    ensures
        declared(path, text).kinds.contains(k) <==> exists|d: Dialect| #[trigger]
            speaks(d, path, text) && dialect_decls(d, path, text).len() > 0 && dialect_kind(d, path)
                == k,
{
    let d0 = Declared { decls: seq![], kinds: seq![] };
    let d1 = pass(d0, Dialect::Rust, path, text);
    let d2 = pass(d1, Dialect::Prisma, path, text);
    let d3 = pass(d2, Dialect::Django, path, text);
    let d4 = pass(d3, Dialect::Pydantic, path, text);
    let d5 = pass(d4, Dialect::Sqlalchemy, path, text);
    let d6 = pass(d5, Dialect::Mongoose, path, text);
    let d7 = pass(d6, Dialect::Typeorm, path, text);
    let d8 = pass(d7, Dialect::Rails, path, text);
    let d9 = pass(d8, Dialect::Drizzle, path, text);
    let d10 = pass(d9, Dialect::Eloquent, path, text);
    let d11 = pass(d10, Dialect::Jpa, path, text);
    let d12 = pass(d11, Dialect::Gorm, path, text);
    let d13 = pass(d12, Dialect::Ecto, path, text);
    let d14 = pass(d13, Dialect::Sql, path, text);
    assert(declared(path, text) == d14);
    assert(!d0.kinds.contains(k));
    lemma_pass_kind(d0, Dialect::Rust, path, text, k);
    lemma_pass_kind(d1, Dialect::Prisma, path, text, k);
    lemma_pass_kind(d2, Dialect::Django, path, text, k);
    lemma_pass_kind(d3, Dialect::Pydantic, path, text, k);
    lemma_pass_kind(d4, Dialect::Sqlalchemy, path, text, k);
    lemma_pass_kind(d5, Dialect::Mongoose, path, text, k);
    lemma_pass_kind(d6, Dialect::Typeorm, path, text, k);
    lemma_pass_kind(d7, Dialect::Rails, path, text, k);
    lemma_pass_kind(d8, Dialect::Drizzle, path, text, k);
    lemma_pass_kind(d9, Dialect::Eloquent, path, text, k);
    lemma_pass_kind(d10, Dialect::Jpa, path, text, k);
    lemma_pass_kind(d11, Dialect::Gorm, path, text, k);
    lemma_pass_kind(d12, Dialect::Ecto, path, text, k);
    lemma_pass_kind(d13, Dialect::Sql, path, text, k);
}

proof fn lemma_heard(d: Dialect, path: Seq<char>, text: Seq<char>, x: DeclFragmentView)
    requires
        speaks(d, path, text),
        dialect_decls(d, path, text).contains(x),
    ensures
        declared(path, text).decls.contains(x),
        declared(path, text).kinds.contains(dialect_kind(d, path)),
{
    law_every_dialect_is_heard(path, text, x);
    law_every_kind_is_borne(path, text, dialect_kind(d, path));
}

// ---------------------------------------------------------------------------
// Python
// ---------------------------------------------------------------------------

/// A class is a SQLAlchemy model exactly where it states a table or inherits
/// `db.Model`. It bears its own name, fields and table, and relates to nothing.
pub proof fn law_sqlalchemy_models(
    name: Seq<char>,
    bases: Seq<char>,
    table: Option<Seq<char>>,
    fields: Seq<Seq<char>>,
)
    ensures
        sqlalchemy_model(name, bases, table, fields) is Some <==> table is Some || contains(
            bases,
            "db.Model"@,
        ),
        sqlalchemy_model(name, bases, table, fields) matches Some(d) ==> d.name == name && d.kind
            == "sqlalchemy"@ && d.fields == fields && d.relations.len() == 0 && d.table == table,
{
}

/// In a Python file that speaks of `db.Model` or of table names, every class on
/// `db.Model` and every class that states its table is declared.
pub proof fn law_sqlalchemy_classes_are_declared(path: Seq<char>, text: Seq<char>, i: int)
    requires
        extension(path) == Some("py"@),
        contains(text, "db.Model"@) || contains(text, "__tablename__"@),
        0 <= i < found(PYTHON_CLASS@, text).len(),
        ({
            let m = found(PYTHON_CLASS@, text)[i];
            contains(group_text(m, 2), "db.Model"@) || found(
                TABLENAME@,
                class_body(text, match_end(m)),
            ).len() > 0
        }),
    ensures
        ({
            let m = found(PYTHON_CLASS@, text)[i];
            let body = class_body(text, match_end(m));
            let stated = found(TABLENAME@, body);
            declared(path, text).decls.contains(
                DeclFragmentView {
                    name: group_text(m, 1),
                    kind: "sqlalchemy"@,
                    fields: group_texts(found(SQLALCHEMY_FIELD@, body), 1),
                    relations: seq![],
                    table: if stated.len() > 0 {
                        Some(group_text(stated[0], 1))
                    } else {
                        None
                    },
                },
            )
        }),
        declared(path, text).kinds.contains("sqlalchemy"@),
{
    let all = found(PYTHON_CLASS@, text);
    let f = each_sqlalchemy(text);
    lemma_kept_by_filter_map(all, f, i);
    lemma_heard(Dialect::Sqlalchemy, path, text, f(all[i])->Some_0);
}

/// A class is a data model exactly where its bases name one or ask for a table.
/// Only one that asks for a table is stored, under its own name in small letters.
pub proof fn law_pydantic_models(name: Seq<char>, bases: Seq<char>, fields: Seq<Seq<char>>)
    ensures
        ({
            let stored = contains(bases, "table=True"@) || contains(bases, "table = True"@);
            let r = pydantic_model(name, bases, fields);
            &&& r is Some <==> stored || contains(bases, "BaseModel"@) || contains(
                bases,
                "SQLModel"@,
            )
            &&& r matches Some(d) ==> {
                &&& d.name == name
                &&& d.fields == fields
                &&& d.relations.len() == 0
                &&& d.kind == (if stored || contains(bases, "SQLModel"@) {
                    "sqlmodel"@
                } else {
                    "pydantic"@
                })
                &&& d.table is Some <==> stored
                &&& stored ==> d.table == Some(lowered(name))
            }
        }),
{
}

/// In a Python file that speaks of data models, every class on one is declared.
pub proof fn law_pydantic_classes_are_declared(path: Seq<char>, text: Seq<char>, i: int)
    requires
        extension(path) == Some("py"@),
        contains(text, "BaseModel"@) || contains(text, "SQLModel"@) || contains(text, "table=True"@),
        0 <= i < found(PYTHON_CLASS@, text).len(),
        ({
            let bases = group_text(found(PYTHON_CLASS@, text)[i], 2);
            contains(bases, "BaseModel"@) || contains(bases, "SQLModel"@) || contains(
                bases,
                "table=True"@,
            ) || contains(bases, "table = True"@)
        }),
    ensures
        declared(path, text).kinds.contains("pydantic"@),
        exists|k: int| #![trigger declared(path, text).decls[k]]
            0 <= k < declared(path, text).decls.len() && declared(path, text).decls[k].name
                == group_text(found(PYTHON_CLASS@, text)[i], 1) && declared(
                path,
                text,
            ).decls[k].fields == group_texts(
                found(
                    PYDANTIC_FIELD@,
                    class_body(text, match_end(found(PYTHON_CLASS@, text)[i])),
                ),
                1,
            ),
{
    let all = found(PYTHON_CLASS@, text);
    let f = each_pydantic(text);
    lemma_kept_by_filter_map(all, f, i);
    let x = f(all[i])->Some_0;
    lemma_heard(Dialect::Pydantic, path, text, x);
    let decls = declared(path, text).decls;
    let k = choose|k: int| 0 <= k < decls.len() && decls[k] == x;
    assert(decls[k].name == x.name);
}

/// A Django model relates to what its keys name, but never to itself, and its
/// table is unknown.
pub proof fn law_django_models(
    name: Seq<char>,
    fields: Seq<Seq<char>>,
    targets: Seq<Seq<char>>,
    x: Seq<char>,
)
    ensures
        ({
            let d = django_model(name, fields, targets);
            &&& d.name == name
            &&& d.kind == "django"@
            &&& d.fields == fields
            &&& d.table is None
            &&& d.relations.contains(x) <==> targets.contains(x) && x != "self"@
        }),
{
    let f = each_other("self"@);
    lemma_others_kept(targets, "self"@, x);
    lemma_sorted_set(targets.filter_map(f));
}

/// In a file of Django models every class on one is declared.
pub proof fn law_django_classes_are_declared(path: Seq<char>, text: Seq<char>, i: int)
    requires
        base_name(path) == "models.py"@,
        contains(text, "models.Model"@),
        0 <= i < found(DJANGO_CLASS@, text).len(),
    ensures
        ({
            let m = found(DJANGO_CLASS@, text)[i];
            let body = class_body(text, match_end(m));
            declared(path, text).decls.contains(
                django_model(
                    group_text(m, 1),
                    group_texts(found(DJANGO_FIELD@, body), 1),
                    group_texts(found(DJANGO_RELATION@, body), 1),
                ),
            )
        }),
        declared(path, text).kinds.contains("django"@),
{
    let all = dialect_decls(Dialect::Django, path, text);
    assert(all[i] == all[i]);
    lemma_heard(Dialect::Django, path, text, all[i]);
}

proof fn lemma_others_kept(list: Seq<Seq<char>>, left_out: Seq<char>, x: Seq<char>)
    ensures
        list.filter_map(each_other(left_out)).contains(x) <==> list.contains(x) && x != left_out,
{
    let f = each_other(left_out);
    let kept = list.filter_map(f);
    if kept.contains(x) {
        let p = choose|p: int| 0 <= p < kept.len() && kept[p] == x;
        let i = lemma_filtered_from(list, f, p);
        assert(list[i] == x);
    }
    if list.contains(x) && x != left_out {
        let i = choose|i: int| 0 <= i < list.len() && list[i] == x;
        lemma_kept_by_filter_map(list, f, i);
    }
}

// ---------------------------------------------------------------------------
// Prisma
// ---------------------------------------------------------------------------

/// A type that stands for a value, not for another model.
pub open spec fn is_value_type(t: Seq<char>) -> bool {
    seq![
        "String"@,
        "Int"@,
        "BigInt"@,
        "Float"@,
        "Decimal"@,
        "Boolean"@,
        "DateTime"@,
        "Json"@,
        "Bytes"@,
    ].contains(t)
}

proof fn lemma_value_type(t: Seq<char>)
    ensures
        is_value_type(t) <==> crate::extract::is_prisma_scalar(t),
{
    let all = seq![
        "String"@,
        "Int"@,
        "BigInt"@,
        "Float"@,
        "Decimal"@,
        "Boolean"@,
        "DateTime"@,
        "Json"@,
        "Bytes"@,
    ];
    assert(all[0] == "String"@ && all[1] == "Int"@ && all[2] == "BigInt"@ && all[3] == "Float"@
        && all[4] == "Decimal"@ && all[5] == "Boolean"@ && all[6] == "DateTime"@ && all[7]
        == "Json"@ && all[8] == "Bytes"@);
    if all.contains(t) {
        let i = choose|i: int| 0 <= i < all.len() && all[i] == t;
        assert(crate::extract::is_prisma_scalar(all[i]));
    }
}

/// A Prisma model has all of its fields, in order; it relates to the types of its
/// fields that begin with a capital and stand for no value; and it is stored in
/// the table that it names, or in one of its own name.
pub proof fn law_prisma_models(
    name: Seq<char>,
    pairs: Seq<(Seq<char>, Seq<char>)>,
    mapped: Option<Seq<char>>,
    x: Seq<char>,
)
    ensures
        ({
            let d = prisma_model(name, pairs, mapped);
            &&& d.name == name
            &&& d.kind == "prisma"@
            &&& d.fields.len() == pairs.len()
            &&& forall|i: int| 0 <= i < pairs.len() ==> #[trigger] d.fields[i] == pairs[i].0
            &&& d.relations.contains(x) <==> x.len() > 0 && is_upper(x[0]) && !is_value_type(x)
                && exists|i: int| 0 <= i < pairs.len() && (#[trigger] pairs[i]).1 == x
            &&& mapped is Some ==> d.table == mapped
            &&& mapped is None ==> d.table == Some(name)
        }),
{
    lemma_value_type(x);
    let f = each_prisma_relation();
    let kept = pairs.filter_map(f);
    lemma_sorted_set(kept);
    if kept.contains(x) {
        let p = choose|p: int| 0 <= p < kept.len() && kept[p] == x;
        let i = lemma_filtered_from(pairs, f, p);
        assert(pairs[i].1 == x);
    }
    if x.len() > 0 && is_upper(x[0]) && !is_value_type(x) && exists|i: int|
        0 <= i < pairs.len() && (#[trigger] pairs[i]).1 == x {
        let i = choose|i: int| 0 <= i < pairs.len() && (#[trigger] pairs[i]).1 == x;
        lemma_kept_by_filter_map(pairs, f, i);
    }
}

/// Blank lines, comments and attributes of a model declare no field.
pub proof fn law_prisma_fields(line: Seq<char>)
    ensures
        trim(line).len() == 0 || "//"@.is_prefix_of(trim(line)) || "@@"@.is_prefix_of(trim(line))
            ==> prisma_field(line) is None,
        prisma_field(line) matches Some(f) ==> ({
            let ms = found(crate::extract::PRISMA_FIELD@, trim(line));
            ms.len() > 0 && f.0 == group_text(ms[0], 1) && f.1 == group_text(ms[0], 2)
        }),
        trim(line).len() > 0 && !"//"@.is_prefix_of(trim(line)) && !"@@"@.is_prefix_of(trim(line))
            && found(crate::extract::PRISMA_FIELD@, trim(line)).len() > 0 ==> prisma_field(
            line,
        ) is Some,
{
    lemma_prefixes(trim(line), "//"@);
    lemma_prefixes(trim(line), "@@"@);
}

proof fn lemma_prefixes(s: Seq<char>, p: Seq<char>)
    ensures
        crate::text::starts_with(s, p) == p.is_prefix_of(s),
{
    if p.len() <= s.len() {
        assert(s.take(p.len() as int) =~= s.subrange(0, p.len() as int));
    }
}

/// Every model and every enum of a schema is declared.
pub proof fn law_prisma_schemas_are_declared(path: Seq<char>, text: Seq<char>, i: int)
    requires
        extension(path) == Some("prisma"@),
    ensures
        0 <= i < found(PRISMA_MODEL@, text).len() ==> declared(path, text).decls.contains(
            each_prisma_model()(found(PRISMA_MODEL@, text)[i]),
        ) && declared(path, text).kinds.contains("prisma"@) && each_prisma_model()(
            found(PRISMA_MODEL@, text)[i],
        ).name == group_text(found(PRISMA_MODEL@, text)[i], 1),
        0 <= i < found(PRISMA_ENUM@, text).len() ==> declared(path, text).decls.contains(
            DeclFragmentView {
                name: group_text(found(PRISMA_ENUM@, text)[i], 1),
                kind: "prisma-enum"@,
                fields: seq![],
                relations: seq![],
                table: None,
            },
        ),
{
    let models = found(PRISMA_MODEL@, text);
    let enums = found(PRISMA_ENUM@, text);
    let all = dialect_decls(Dialect::Prisma, path, text);
    if 0 <= i < models.len() {
        assert(all[i] == each_prisma_model()(models[i]));
        lemma_heard(Dialect::Prisma, path, text, all[i]);
    }
    if 0 <= i < enums.len() {
        assert(all[models.len() + i] == each_prisma_enum()(enums[i]));
        lemma_heard(Dialect::Prisma, path, text, all[models.len() + i]);
    }
}

// ---------------------------------------------------------------------------
// The other dialects
// ---------------------------------------------------------------------------

/// A Drizzle table is stored under the name it gives and relates to what the file
/// refers to, but not to itself.
pub proof fn law_drizzle_tables(
    name: Seq<char>,
    relations: Seq<Seq<char>>,
    table: Seq<char>,
    x: Seq<char>,
)
    ensures
        ({
            let d = drizzle_table(name, relations, table);
            &&& d.name == name
            &&& d.kind == "drizzle"@
            &&& d.fields.len() == 0
            &&& d.table == Some(table)
            &&& d.relations.contains(x) <==> relations.contains(x) && x != name
        }),
{
    lemma_others_kept(relations, name, x);
}

/// An Eloquent model is any class but a controller, a test or an exception.
pub proof fn law_eloquent_models(
    name: Seq<char>,
    relations: Seq<Seq<char>>,
    table: Option<Seq<char>>,
)
    ensures
        eloquent_model(name, relations, table) is None <==> "Controller"@.is_suffix_of(name)
            || "Test"@.is_suffix_of(name) || "Exception"@.is_suffix_of(name),
        eloquent_model(name, relations, table) matches Some(d) ==> d.name == name && d.kind
            == "eloquent"@ && d.fields.len() == 0 && d.relations == relations && d.table == table,
{
    lemma_suffixes(name, "Controller"@);
    lemma_suffixes(name, "Test"@);
    lemma_suffixes(name, "Exception"@);
}

proof fn lemma_suffixes(s: Seq<char>, p: Seq<char>)
    ensures
        crate::text::ends_with(s, p) == p.is_suffix_of(s),
{
    if p.len() <= s.len() {
        assert(s.skip(s.len() - p.len()) =~= s.subrange(s.len() - p.len(), s.len() as int));
    }
}

/// A Go struct is a model exactly where its body bears gorm's tags; thirty of its
/// fields are kept.
pub proof fn law_gorm_models(name: Seq<char>, body: Seq<char>, fields: Seq<Seq<char>>)
    ensures
        gorm_model(name, body, fields) is Some <==> contains(body, "gorm:"@),
        gorm_model(name, body, fields) matches Some(d) ==> d.name == name && d.kind == "gorm"@
            && d.relations.len() == 0 && d.table is None && d.fields.is_prefix_of(fields) && (
        d.fields.len() == 30 || d.fields == fields),
{
    if let Some(d) = gorm_model(name, body, fields) {
        assert(d.fields =~= fields.subrange(0, d.fields.len() as int));
    }
}

/// An Ecto schema is declared exactly where it names a table; its name is the last
/// part of its module's, or the table's where there is no module.
pub proof fn law_ecto_schemas(
    table: Option<Seq<char>>,
    module: Option<Seq<char>>,
    relations: Seq<Seq<char>>,
)
    ensures
        ({
            let r = ecto_schema(table, module, relations);
            &&& table is None ==> r.len() == 0
            &&& table is Some ==> {
                &&& r.len() == 1
                &&& r[0].table == table
                &&& r[0].kind == "ecto"@
                &&& r[0].relations == relations
                &&& r[0].fields.len() == 0
                &&& module is None ==> r[0].name == table->Some_0
                &&& module is Some ==> r[0].name == split(module->Some_0, '.').last()
            }
        }),
{
}

/// A struct of Rust is declared exactly where a brace comes before any semicolon
/// behind its name.
pub proof fn law_rust_structs(after: Seq<char>, i: int)
    requires
        0 <= i < after.len(),
        after[i] == '{' || after[i] == ';',
        forall|j: int| 0 <= j < i ==> (#[trigger] after[j]) != '{' && after[j] != ';',
    ensures
        rust_braced(after) is Some <==> after[i] == '{',
        rust_braced(after) matches Some(b) ==> b == after.skip(i),
{
    let k = CharClass::Neither('{', ';');
    crate::text::lemma_run(after, k);
    let n = run(after, k) as int;
    if n < i {
        assert(crate::text::in_class(k, after[n]));
    }
    if i < n {
        assert(crate::text::in_class(k, after[i]));
    }
    assert(n == i);
    assert(after.skip(i)[0] == after[i]);
}

/// How many more braces a text opens than it closes.
pub open spec fn open_braces(s: Seq<char>) -> int
    decreases s.len(),
{
    if s.len() == 0 {
        0
    } else {
        open_braces(s.drop_last()) + (if s.last() == '{' {
            1int
        } else if s.last() == '}' {
            -1
        } else {
            0
        })
    }
}

proof fn lemma_closing(s: Seq<char>, i: int, depth: int)
    requires
        0 <= i <= s.len(),
        depth >= 1,
        open_braces(s.take(i)) == depth,
    ensures
        closing(s, i, depth) matches Some(e) ==> i <= e < s.len() && s[e] == '}' && open_braces(
            s.take(e + 1),
        ) == 0,
        closing(s, i, depth) is None ==> forall|e: int|
            i < e <= s.len() ==> open_braces(#[trigger] s.take(e)) > 0,
        closing(s, i, depth) matches Some(e) ==> forall|j: int|
            i <= j <= e ==> open_braces(#[trigger] s.take(j)) > 0,
    decreases s.len() - i,
{
    if i < s.len() {
        let step = s.take(i + 1);
        assert(step.drop_last() =~= s.take(i));
        assert(step.last() == s[i]);
        if s[i] == '{' {
            lemma_closing(s, i + 1, depth + 1);
        } else if s[i] == '}' {
            if depth > 1 {
                lemma_closing(s, i + 1, depth - 1);
            }
        } else {
            lemma_closing(s, i + 1, depth);
        }
        if closing(s, i, depth) is None {
            assert forall|e: int| i < e <= s.len() implies open_braces(#[trigger] s.take(e)) > 0 by {
                if e == i + 1 {
                    assert(s.take(e) == step);
                }
            }
        }
        if let Some(e) = closing(s, i, depth) {
            assert forall|j: int| i <= j <= e implies open_braces(#[trigger] s.take(j)) > 0 by {
                if j == i {
                } else if j == i + 1 {
                    assert(s.take(j) == step);
                }
            }
        }
    }
}

/// The body of a struct ends with the first brace that closes the one it begins
/// with.
pub proof fn law_bodies_are_balanced(braced: Seq<char>)
    requires
        braced.len() > 0,
        braced[0] == '{',
    ensures
        match rust_body(braced) {
            Some(body) => {
                let e = body.len() as int + 1;
                &&& e < braced.len()
                &&& braced[e] == '}'
                &&& body == braced.subrange(1, e)
                &&& open_braces(braced.take(e + 1)) == 0
                &&& forall|j: int| 1 <= j <= e ==> open_braces(#[trigger] braced.take(j)) > 0
            },
            None => forall|j: int| 1 <= j <= braced.len() ==> open_braces(#[trigger] braced.take(j)) > 0,
        },
{
    assert(braced.take(1).drop_last() =~= Seq::<char>::empty());
    reveal_with_fuel(open_braces, 2);
    assert(braced.take(1).last() == '{');
    assert(open_braces(braced.take(1)) == 1);
    lemma_closing(braced, 1, 1);
}

/// A line is a comment exactly where it begins, behind blanks, with a mark that
/// some language has for one.
pub proof fn law_comment_lines(line: Seq<char>)
    ensures
        is_comment_line(line) <==> "//"@.is_prefix_of(trim_start(line)) || "#"@.is_prefix_of(
            trim_start(line),
        ) || "--"@.is_prefix_of(trim_start(line)) || "*"@.is_prefix_of(trim_start(line)),
{
    lemma_prefixes(trim_start(line), "//"@);
    lemma_prefixes(trim_start(line), "#"@);
    lemma_prefixes(trim_start(line), "--"@);
    lemma_prefixes(trim_start(line), "*"@);
}

/// An SQL file is searched for tables as it stands; of any other file the comment
/// lines are left out, and nothing else.
pub proof fn law_where_tables_are_looked_for(text: Seq<char>, i: int)
    requires
        0 <= i < lines(text).len(),
    ensures
        sql_source(true, text) == text,
        !is_comment_line(lines(text)[i]) ==> contains(sql_source(false, text), lines(text)[i]),
        (forall|j: int| 0 <= j < lines(text).len() ==> is_comment_line(#[trigger] lines(text)[j]))
            ==> sql_source(false, text).len() == 0,
{
    let ls = lines(text);
    let f = each_code_line();
    let kept = ls.filter_map(f);
    if !is_comment_line(ls[i]) {
        lemma_kept_by_filter_map(ls, f, i);
        let k = choose|k: int| 0 <= k < kept.len() && kept[k] == ls[i];
        crate::guard_laws::lemma_join_holds(kept, "\n"@, k);
    }
    if forall|j: int| 0 <= j < ls.len() ==> is_comment_line(#[trigger] ls[j]) {
        crate::answer_laws::lemma_filter_empty(ls, f);
        assert forall|j: int| 0 <= j < ls.len() implies f(#[trigger] ls[j]) is None by {
            assert(is_comment_line(ls[j]));
        }
    }
}

/// A table that a statement creates is declared under its own name, in a file of
/// any language that speaks of creating tables.
pub proof fn law_created_tables_are_declared(path: Seq<char>, text: Seq<char>, i: int)
    requires
        contains(text, "CREATE TABLE"@) || contains(text, "create table"@),
        0 <= i < found(CREATE_TABLE@, sql_source(extension(path) == Some("sql"@), text)).len(),
    ensures
        ({
            let m = found(CREATE_TABLE@, sql_source(extension(path) == Some("sql"@), text))[i];
            declared(path, text).decls.contains(
                DeclFragmentView {
                    name: group_text(m, 1),
                    kind: "sql"@,
                    fields: seq![],
                    relations: seq![],
                    table: Some(group_text(m, 1)),
                },
            )
        }),
        declared(path, text).kinds.contains("sql"@),
{
    reveal_strlit("sql");
    assert("sql"@.len() > 0);
    let all = dialect_decls(Dialect::Sql, path, text);
    let ms = found(CREATE_TABLE@, sql_source(extension(path) == Some("sql"@), text));
    assert(all[i] == each_table()(ms[i]));
    lemma_heard(Dialect::Sql, path, text, all[i]);
}

/// Which files a dialect is looked for in: those of its language that speak of
/// what it is made of.
pub proof fn law_who_speaks(path: Seq<char>, text: Seq<char>)
    ensures
        speaks(Dialect::Rust, path, text) <==> extension(path) == Some("rs"@),
        speaks(Dialect::Prisma, path, text) <==> extension(path) == Some("prisma"@),
        speaks(Dialect::Rails, path, text) <==> extension(path) == Some("rb"@),
        speaks(Dialect::Django, path, text) <==> split(path, '/').last() == "models.py"@ && contains(
            text,
            "models.Model"@,
        ),
        speaks(Dialect::Mongoose, path, text) <==> (extension(path) == Some("js"@) || extension(path)
            == Some("ts"@)) && contains(text, "mongoose.model("@),
        speaks(Dialect::Typeorm, path, text) <==> extension(path) == Some("ts"@) && contains(
            text,
            "@Entity"@,
        ),
        speaks(Dialect::Drizzle, path, text) <==> (extension(path) == Some("js"@) || extension(path)
            == Some("ts"@)) && (contains(text, "pgTable("@) || contains(text, "sqliteTable("@)
            || contains(text, "mysqlTable("@)),
        speaks(Dialect::Eloquent, path, text) <==> extension(path) == Some("php"@) && contains(
            text,
            "class "@,
        ) && (split(path, '/').contains("Models"@) || contains(text, "extends Model"@)),
        speaks(Dialect::Jpa, path, text) <==> extension(path) == Some("java"@) && contains(
            text,
            "@Entity"@,
        ),
        speaks(Dialect::Gorm, path, text) <==> extension(path) == Some("go"@) && contains(
            text,
            "gorm"@,
        ),
        speaks(Dialect::Ecto, path, text) <==> (extension(path) == Some("ex"@) || extension(path)
            == Some("exs"@)) && contains(text, "schema \""@),
        speaks(Dialect::Sql, path, text) <==> contains(text, "CREATE TABLE"@) || contains(
            text,
            "create table"@,
        ),
        speaks(Dialect::Sqlalchemy, path, text) <==> extension(path) == Some("py"@) && (contains(
            text,
            "db.Model"@,
        ) || contains(text, "__tablename__"@)),
        speaks(Dialect::Pydantic, path, text) <==> extension(path) == Some("py"@) && (contains(
            text,
            "BaseModel"@,
        ) || contains(text, "SQLModel"@) || contains(text, "table=True"@)),
{
    reveal_strlit("rs");
    assert("rs"@.len() > 0);
    reveal_strlit("prisma");
    assert("prisma"@.len() > 0);
    reveal_strlit("rb");
    assert("rb"@.len() > 0);
    reveal_strlit("js");
    assert("js"@.len() > 0);
    reveal_strlit("ts");
    assert("ts"@.len() > 0);
    reveal_strlit("php");
    assert("php"@.len() > 0);
    reveal_strlit("java");
    assert("java"@.len() > 0);
    reveal_strlit("go");
    assert("go"@.len() > 0);
    reveal_strlit("ex");
    assert("ex"@.len() > 0);
    reveal_strlit("exs");
    assert("exs"@.len() > 0);
    reveal_strlit("py");
    assert("py"@.len() > 0);
}

/// What the dialects whose fields and relations belong to a whole file read of
/// each match: its name, and its table where it states one.
pub proof fn law_whole_file_dialects(path: Seq<char>, text: Seq<char>, i: int)
    ensures
        0 <= i < found(MONGOOSE_MODEL@, text).len() ==> ({
            let d = dialect_decls(Dialect::Mongoose, path, text)[i];
            &&& d.name == group_text(found(MONGOOSE_MODEL@, text)[i], 1)
            &&& d.kind == "mongoose"@
            &&& d.table is None
            &&& d.fields.len() <= 30
        }),
        0 <= i < found(TYPEORM_ENTITY@, text).len() ==> ({
            let d = dialect_decls(Dialect::Typeorm, path, text)[i];
            &&& d.name == group_text(found(TYPEORM_ENTITY@, text)[i], 2)
            &&& d.kind == "typeorm"@
            &&& d.table == group(found(TYPEORM_ENTITY@, text)[i], 1)
            &&& d.fields == group_texts(found(TYPEORM_COLUMN@, text), 1)
        }),
        0 <= i < found(JPA_ENTITY@, text).len() ==> ({
            let d = dialect_decls(Dialect::Jpa, path, text)[i];
            &&& d.name == group_text(found(JPA_ENTITY@, text)[i], 2)
            &&& d.kind == "jpa"@
            &&& d.table == group(found(JPA_ENTITY@, text)[i], 1)
        }),
        split(path, '/').last() != "schema.rb"@ && 0 <= i < found(RAILS_CLASS@, text).len() ==> ({
            let d = dialect_decls(Dialect::Rails, path, text)[i];
            &&& d.name == group_text(found(RAILS_CLASS@, text)[i], 1)
            &&& d.kind == "rails"@
            &&& d.table is None
            &&& dialect_kind(Dialect::Rails, path) == "rails"@
        }),
        split(path, '/').last() == "schema.rb"@ && 0 <= i < found(RAILS_TABLE@, text).len() ==> ({
            let d = dialect_decls(Dialect::Rails, path, text)[i];
            &&& d.name == group_text(found(RAILS_TABLE@, text)[i], 1)
            &&& d.kind == "sql"@
            &&& d.table == Some(d.name)
            &&& dialect_kind(Dialect::Rails, path) == "rails-schema"@
        }),
        0 <= i < found(DRIZZLE_TABLE@, text).len() ==> ({
            let d = dialect_decls(Dialect::Drizzle, path, text)[i];
            &&& d.name == group_text(found(DRIZZLE_TABLE@, text)[i], 1)
            &&& d.table == Some(group_text(found(DRIZZLE_TABLE@, text)[i], 2))
        }),
{
}

/// The relations of a dialect that reads them from the whole file are the names
/// that its pattern finds, each once.
pub proof fn law_whole_file_relations(path: Seq<char>, text: Seq<char>, i: int, x: Seq<char>)
    ensures
        0 <= i < found(MONGOOSE_MODEL@, text).len() ==> (dialect_decls(
            Dialect::Mongoose,
            path,
            text,
        )[i].relations.contains(x) <==> group_texts(found(MONGOOSE_REF@, text), 1).contains(x)),
        0 <= i < found(TYPEORM_ENTITY@, text).len() ==> (dialect_decls(
            Dialect::Typeorm,
            path,
            text,
        )[i].relations.contains(x) <==> group_texts(found(TYPEORM_RELATION@, text), 1).contains(x)),
        split(path, '/').last() != "schema.rb"@ && 0 <= i < found(RAILS_CLASS@, text).len() ==> (
        dialect_decls(Dialect::Rails, path, text)[i].relations.contains(x) <==> group_texts(
            found(RAILS_RELATION@, text),
            1,
        ).contains(x)),
        0 <= i < found(JPA_ENTITY@, text).len() ==> (dialect_decls(
            Dialect::Jpa,
            path,
            text,
        )[i].relations.contains(x) <==> group_texts(found(JPA_RELATION@, text), 1).contains(x) && x
            != "Set"@ && x != "List"@ && x != "Collection"@),
{
    lemma_sorted_set(group_texts(found(MONGOOSE_REF@, text), 1));
    lemma_sorted_set(group_texts(found(TYPEORM_RELATION@, text), 1));
    lemma_sorted_set(group_texts(found(RAILS_RELATION@, text), 1));
    let all = group_texts(found(JPA_RELATION@, text), 1);
    let one = all.filter_map(each_other("Set"@));
    let two = one.filter_map(each_other("List"@));
    lemma_others_kept(all, "Set"@, x);
    lemma_others_kept(one, "List"@, x);
    lemma_others_kept(two, "Collection"@, x);
    lemma_sorted_set(two.filter_map(each_other("Collection"@)));
}

/// Every struct of Rust with a brace behind its name is declared, without a table,
/// under its own name.
pub proof fn law_rust_structs_are_declared(path: Seq<char>, text: Seq<char>, i: int, after: Seq<char>)
    requires
        extension(path) == Some("rs"@),
        0 <= i < found(RUST_STRUCT@, text).len(),
        bytes_between(
            text,
            match_end(found(RUST_STRUCT@, text)[i]),
            encode_utf8(text).len() as int,
        ) == Some(after),
        rust_braced(after) is Some,
    ensures
        declared(path, text).decls.contains(
            DeclFragmentView {
                name: group_text(found(RUST_STRUCT@, text)[i], 1),
                kind: "rust"@,
                fields: rust_fields(rust_braced(after)->Some_0),
                relations: seq![],
                table: None,
            },
        ),
        declared(path, text).kinds.contains("rust"@),
{
    let all = found(RUST_STRUCT@, text);
    let f = each_rust(text);
    lemma_kept_by_filter_map(all, f, i);
    lemma_heard(Dialect::Rust, path, text, f(all[i])->Some_0);
}

/// Every class that is an Eloquent model, and every struct that is gorm's, is read
/// with its name; and so is the schema of an Ecto module.
pub proof fn law_models_of_other_dialects_are_read(path: Seq<char>, text: Seq<char>, i: int)
    ensures
        0 <= i < found(ELOQUENT_CLASS@, text).len() ==> ({
            let name = group_text(found(ELOQUENT_CLASS@, text)[i], 1);
            !("Controller"@.is_suffix_of(name) || "Test"@.is_suffix_of(name)
                || "Exception"@.is_suffix_of(name)) ==> dialect_decls(
                Dialect::Eloquent,
                path,
                text,
            ).contains(
                DeclFragmentView {
                    name,
                    kind: "eloquent"@,
                    fields: seq![],
                    relations: named_relations(ELOQUENT_RELATION@, text),
                    table: first_group(ELOQUENT_TABLE@, text),
                },
            )
        }),
        0 <= i < found(GORM_STRUCT@, text).len() && contains(
            group_text(found(GORM_STRUCT@, text)[i], 2),
            "gorm:"@,
        ) ==> exists|k: int|
            0 <= k < dialect_decls(Dialect::Gorm, path, text).len() && (#[trigger] dialect_decls(
                Dialect::Gorm,
                path,
                text,
            )[k]).name == group_text(found(GORM_STRUCT@, text)[i], 1) && dialect_decls(
                Dialect::Gorm,
                path,
                text,
            )[k].kind == "gorm"@,
        found(ECTO_SCHEMA@, text).len() > 0 ==> ({
            let d = dialect_decls(Dialect::Ecto, path, text);
            &&& d.len() == 1
            &&& d[0].table == Some(group_text(found(ECTO_SCHEMA@, text)[0], 1))
            &&& d[0].kind == "ecto"@
            &&& found(ECTO_MODULE@, text).len() > 0 ==> d[0].name == split(
                group_text(found(ECTO_MODULE@, text)[0], 1),
                '.',
            ).last()
        }),
{
    if 0 <= i < found(ELOQUENT_CLASS@, text).len() {
        let ms = found(ELOQUENT_CLASS@, text);
        let f = each_eloquent(
            named_relations(ELOQUENT_RELATION@, text),
            first_group(ELOQUENT_TABLE@, text),
        );
        law_eloquent_models(
            group_text(ms[i], 1),
            named_relations(ELOQUENT_RELATION@, text),
            first_group(ELOQUENT_TABLE@, text),
        );
        if f(ms[i]) is Some {
            lemma_kept_by_filter_map(ms, f, i);
            assert(f(ms[i])->Some_0.fields =~= Seq::<Seq<char>>::empty());
        }
    }
    if 0 <= i < found(GORM_STRUCT@, text).len() {
        let ms = found(GORM_STRUCT@, text);
        let f = each_gorm();
        if f(ms[i]) is Some {
            lemma_kept_by_filter_map(ms, f, i);
            let all = dialect_decls(Dialect::Gorm, path, text);
            let k = choose|k: int| 0 <= k < all.len() && all[k] == f(ms[i])->Some_0;
            assert(all[k].name == group_text(ms[i], 1));
        }
    }
}

} // verus!
