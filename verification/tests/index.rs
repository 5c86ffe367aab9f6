//! Extraction, assembly and rescanning.

use archietect::extract::{extract_declarations, extract_sql, rust_body_of, rust_braced_of};
use archietect::invariants::check;
use archietect::model::{
    is_generic_role_token, name_tokens, names_concept, same_word, Concept, DeclFragment, Index,
};
use archietect::scan::{
    concepts_signature, find_usage, hex_text, is_scannable_ext, load_settings, scan_with_prior,
    skip_dir, skip_excluded, within, ScannableFile, EXTRACTOR_VERSION,
};
use archietect::scoring::{rank, score, tier, RankTier};
use archietect::table::TextMap;

fn names(list: &[&str]) -> Vec<String> {
    list.iter().map(|s| s.to_string()).collect()
}

fn file(rel: &str, text: &str) -> ScannableFile {
    ScannableFile {
        rel: rel.to_string(),
        size: text.len() as u64,
        mtime_ms: 1,
        text: Some(text.to_string()),
    }
}

fn scanned(files: Vec<ScannableFile>) -> Index {
    scan_with_prior("/p", load_settings(None), &files, None, 1_000)
}

fn only_decl(path: &str, text: &str) -> (DeclFragment, Vec<String>) {
    let (mut decls, kinds) = extract_declarations(path, text);
    assert_eq!(decls.len(), 1, "{path}: {decls:?}");
    (decls.remove(0), kinds)
}

fn is(d: &DeclFragment, name: &str, kind: &str, fields: &[&str], relations: &[&str], table: Option<&str>) {
    assert_eq!(d.name, name);
    assert_eq!(d.kind, kind);
    assert_eq!(d.fields, names(fields));
    assert_eq!(d.relations, names(relations));
    assert_eq!(d.table.as_deref(), table);
}

// --- one dialect at a time ---

#[test]
fn prisma_models_and_enums() {
    let text = "model Widget {\n  id Int @id\n  // prose\n  owner User\n  tags Tag[]\n  backup User\n  @@map(\"widgets\")\n}\nenum Color {\n  RED\n}\n";
    let (decls, kinds) = extract_declarations("schema.prisma", text);
    assert_eq!(kinds, ["prisma"]);
    assert_eq!(decls.len(), 2);
    is(&decls[0], "Widget", "prisma", &["id", "owner", "tags", "backup"], &["Tag", "User"], Some("widgets"));
    is(&decls[1], "Color", "prisma-enum", &[], &[], None);
}

#[test]
fn django_models() {
    let text = "from django.db import models\nclass Post(models.Model):\n    title = models.CharField()\n    author = models.ForeignKey('User', on_delete=models.CASCADE)\n    parent = models.ForeignKey('self')\nx = 1\n";
    let (d, kinds) = only_decl("app/models.py", text);
    assert_eq!(kinds, ["django"]);
    is(&d, "Post", "django", &["title", "author", "parent"], &["User"], None);
}

#[test]
fn sqlmodel_tables_and_pydantic_contracts() {
    let (d, kinds) = only_decl("a.py", "class Item(ItemBase, table=True):\n    id: int\n    name: str\n");
    assert_eq!(kinds, ["pydantic"]);
    is(&d, "Item", "sqlmodel", &["id", "name"], &[], Some("item"));
    let (d, _) = only_decl("a.py", "class Body(BaseModel):\n    id: int\n");
    is(&d, "Body", "pydantic", &["id"], &[], None);
}

#[test]
fn sqlalchemy_models() {
    let text = "class User(Base):\n    __tablename__ = 'users'\n    id = Column(Integer)\nclass Bare(Base):\n    x = 1\n";
    let (d, kinds) = only_decl("m.py", text);
    assert_eq!(kinds, ["sqlalchemy"]);
    is(&d, "User", "sqlalchemy", &["id"], &[], Some("users"));
}

#[test]
fn sql_tables_but_no_prose() {
    let found = extract_sql(false, "// CREATE TABLE ghosts (\nlet q = \"create table if not exists users (id int)\";\n");
    assert_eq!(found.len(), 1);
    is(&found[0], "users", "sql", &[], &[], Some("users"));
    assert!(extract_sql(true, "CREATE TABLE is what makes a table\n").is_empty());
    assert_eq!(extract_sql(true, "-- CREATE TABLE kept (\n").len(), 1);
}

#[test]
fn mongoose_models() {
    let text = "const s = new Schema({\n  name: String,\n  owner: { type: Id, ref: 'User' },\n});\nmongoose.model('Cart', s);\n";
    let (d, kinds) = only_decl("cart.js", text);
    assert_eq!(kinds, ["mongoose"]);
    is(&d, "Cart", "mongoose", &["name", "owner"], &["User"], None);
}

#[test]
fn typeorm_entities() {
    let text = "@Entity('people')\nexport class Person {\n  @Column()\n  name: string;\n  @ManyToOne(() => Team)\n  team: Team;\n}\n";
    let (d, kinds) = only_decl("person.ts", text);
    assert_eq!(kinds, ["typeorm"]);
    is(&d, "Person", "typeorm", &["name"], &["Team"], Some("people"));
}

#[test]
fn rails_models_and_schema() {
    let (d, kinds) = only_decl("app/models/order.rb", "class Order < ApplicationRecord\n  belongs_to :user\n  has_many :items\nend\n");
    assert_eq!(kinds, ["rails"]);
    is(&d, "Order", "rails", &[], &["items", "user"], None);
    let (d, kinds) = only_decl("db/schema.rb", "create_table \"orders\", force: true do |t|\n");
    assert_eq!(kinds, ["rails-schema"]);
    is(&d, "orders", "sql", &[], &[], Some("orders"));
}

#[test]
fn drizzle_tables() {
    let text = "export const posts = pgTable('post_rows', { a: int().references(() => users.id), b: int().references(() => posts.id) });\n";
    let (d, kinds) = only_decl("schema.ts", text);
    assert_eq!(kinds, ["drizzle"]);
    is(&d, "posts", "drizzle", &[], &["users"], Some("post_rows"));
}

#[test]
fn eloquent_models() {
    let text = "class Book extends Entity {\n protected $table = 'books';\n function p() { return $this->hasMany(Page::class); }\n}\nclass BookController extends Controller {}\n";
    let (d, kinds) = only_decl("app/Models/Book.php", text);
    assert_eq!(kinds, ["eloquent"]);
    is(&d, "Book", "eloquent", &[], &["Page"], Some("books"));
}

#[test]
fn jpa_entities() {
    let text = "@Entity\n@Table(name = \"owners\")\npublic class Owner {\n  @OneToMany\n  private Set<Pet> pets;\n}\n";
    let (d, kinds) = only_decl("Owner.java", text);
    assert_eq!(kinds, ["jpa"]);
    is(&d, "Owner", "jpa", &[], &["Pet"], Some("owners"));
}

#[test]
fn gorm_structs() {
    let text = "import \"gorm\"\ntype Article struct {\n\tID uint `gorm:\"primaryKey\"`\n\tTitle string\n}\ntype Plain struct {\n\tX int\n}\n";
    let (d, kinds) = only_decl("m.go", text);
    assert_eq!(kinds, ["gorm"]);
    is(&d, "Article", "gorm", &["ID", "Title"], &[], None);
}

#[test]
fn ecto_schemas() {
    let text = "defmodule Plausible.Site do\n  schema \"sites\" do\n    belongs_to :team, Team\n  end\nend\n";
    let (d, kinds) = only_decl("site.ex", text);
    assert_eq!(kinds, ["ecto"]);
    is(&d, "Site", "ecto", &[], &["team"], Some("sites"));
}

#[test]
fn rust_structs_with_named_fields() {
    let text = "pub struct Index {\n    pub root: String,\n    hidden: u8,\n    pub files: Vec<u8>,\n}\npub struct Unit;\nstruct Private {\n    pub x: u8,\n}\n";
    let (d, kinds) = only_decl("model.rs", text);
    assert_eq!(kinds, ["rust"]);
    is(&d, "Index", "rust", &["root", "files"], &[], None);
}

#[test]
fn a_rust_body_ends_at_its_matching_brace() {
    let braced = rust_braced_of("<T> where T: Copy { a { b } c } d").unwrap();
    assert_eq!(braced, "{ a { b } c } d");
    assert_eq!(rust_body_of(&braced).unwrap(), " a { b } c ");
    assert_eq!(rust_body_of("{ a"), None);
    assert_eq!(rust_braced_of("(u8);"), None);
}

// --- the scan ---

#[test]
fn usage_is_seen_outside_the_declaring_file() {
    let idx = scanned(vec![
        file("schema.prisma", "model Widget {\n  id Int @id\n}\n"),
        file("src/orders.ts", "await prisma.widget.findMany();\n"),
        file("report.py", "cursor.execute('SELECT * FROM Widget')\n"),
    ]);
    let w = idx.concepts.get("Widget").unwrap();
    assert_eq!(w.declared_in, vec![("schema.prisma".to_string(), "prisma".to_string())]);
    assert_eq!(
        w.usage,
        vec![
            ("report.py".to_string(), "raw-sql".to_string()),
            ("src/orders.ts".to_string(), "orm-client".to_string()),
        ]
    );
    assert_eq!(w.first_seen_ms, 1_000);
    assert_eq!(idx.files_scanned, 3);
    assert_eq!(idx.extractor_version, EXTRACTOR_VERSION);
    assert!(check(&idx).is_empty());
}

#[test]
fn declarations_of_one_table_are_one_concept() {
    let idx = scanned(vec![
        file("001.sql", "CREATE TABLE widgets (id int);\n"),
        file("schema.prisma", "model Widget {\n  id Int @id\n  @@map(\"widgets\")\n}\n"),
    ]);
    assert_eq!(idx.concepts.len(), 1);
    let w = idx.concepts.get("Widget").unwrap();
    assert_eq!(w.declared_in.len(), 2);
}

#[test]
fn a_rescan_remembers_when_a_concept_was_first_seen() {
    let one = file("schema.prisma", "model Widget {\n  id Int @id\n}\n");
    let first = scan_with_prior("/p", load_settings(None), &vec![one], None, 1_000);
    // The file is the same and its text is not at hand.
    let unread = ScannableFile {
        rel: "schema.prisma".to_string(),
        size: 30,
        mtime_ms: 1,
        text: None,
    };
    assert_eq!(first.file_facts.get("schema.prisma").unwrap().size, 30);
    let second = scan_with_prior("/p", load_settings(None), &vec![unread], Some(first), 2_000);
    let w = second.concepts.get("Widget").unwrap();
    assert_eq!(w.first_seen_ms, 1_000);
    assert_eq!(w.last_verified_ms, 2_000);
    assert_eq!(w.fields, ["id"]);
}

fn small_project() -> Vec<ScannableFile> {
    vec![
        file("schema.prisma", "model Widget {\n  id Int @id\n  owner User\n}\nmodel User {\n  id Int @id\n}\n"),
        file("api/widgets.ts", "await prisma.widget.findMany();\nawait prisma.user.create({});\n"),
        file("api/users.ts", "await prisma.user.findMany();\n"),
        file("001.sql", "CREATE TABLE audits (id int);\n"),
    ]
}

#[test]
fn the_order_of_the_files_makes_no_difference() {
    let forwards = scanned(small_project());
    let mut files = small_project();
    files.reverse();
    let backwards = scanned(files);
    assert_eq!(format!("{:?}", forwards.concepts), format!("{:?}", backwards.concepts));
    assert_eq!(format!("{:?}", forwards.file_facts), format!("{:?}", backwards.file_facts));
    assert_eq!(forwards.concepts_sig, backwards.concepts_sig);
    let user = forwards.concepts.get("User").unwrap();
    assert_eq!(
        user.usage,
        vec![
            ("api/users.ts".to_string(), "orm-client".to_string()),
            ("api/widgets.ts".to_string(), "orm-client".to_string()),
        ]
    );
}

#[test]
fn what_is_remembered_changes_no_answer() {
    let cold = scanned(small_project());
    let warm = scan_with_prior("/p", load_settings(None), &small_project(), Some(scanned(small_project())), 1_000);
    assert_eq!(format!("{:?}", cold.concepts), format!("{:?}", warm.concepts));
    // With nothing at hand but sizes and dates, the answer is still the same.
    let unread = small_project()
        .into_iter()
        .map(|f| ScannableFile { text: None, ..f })
        .collect::<Vec<ScannableFile>>();
    let warm = scan_with_prior("/p", load_settings(None), &unread, Some(scanned(small_project())), 1_000);
    assert_eq!(format!("{:?}", cold.concepts), format!("{:?}", warm.concepts));
}

#[test]
fn an_index_of_another_extractor_is_not_believed() {
    let mut old = scanned(vec![file("schema.prisma", "model Widget {\n  id Int @id\n}\n")]);
    old.extractor_version = EXTRACTOR_VERSION - 1;
    let unread = ScannableFile { rel: "schema.prisma".to_string(), size: 30, mtime_ms: 1, text: None };
    let idx = scan_with_prior("/p", load_settings(None), &vec![unread], Some(old), 2_000);
    assert_eq!(idx.concepts.len(), 0);
}

#[test]
fn the_project_file_is_read_for_ontology_and_decisions() {
    let s = load_settings(Some(
        "exclude = [\"fixtures/\"]\n[aliases]\nCustomer = \"User\"\n[[decision]]\nid = 'd1'\ndecision = 'x'\nbecause = 'y'\nlinks = ['User']\n",
    ));
    assert!(s.present);
    assert_eq!(s.aliases.get("customer").map(String::as_str), Some("User"));
    assert_eq!(s.decisions.len(), 1);
    assert_eq!(s.decisions[0].links, ["User"]);
    assert_eq!(s.excludes, ["fixtures/"]);
    assert!(!load_settings(Some("[aliases")).present);
    assert!(!load_settings(None).present);
    assert_eq!(load_settings(Some("exclude = 'one'\n")).excludes, ["one"]);
    let idx = scan_with_prior("/p", s, &vec![], None, 1);
    assert_eq!(idx.declaration_files, vec![("archietect.toml".to_string(), "ontology".to_string())]);
}

#[test]
fn what_is_walked() {
    assert!(skip_dir("node_modules"));
    assert!(!skip_dir("src"));
    assert!(within("fixtures/a.ts", "fixtures/"));
    assert!(within("fixtures", "fixtures"));
    assert!(!within("fixtures2/a.ts", "fixtures"));
    assert!(skip_excluded("validation/x", &names(&["fixtures", "validation/"])));
    assert!(!skip_excluded("validation/x", &names(&[])));
    assert!(is_scannable_ext("sql", &names(&[]), &names(&[])));
    assert!(is_scannable_ext("rs", &names(&["rs"]), &names(&[])));
    assert!(is_scannable_ext("lua", &names(&[]), &names(&["lua"])));
    assert!(!is_scannable_ext("md", &names(&["rs"]), &names(&["lua"])));
}

#[test]
fn signatures_are_fnv_in_hexadecimal() {
    assert_eq!(hex_text(0), "0");
    assert_eq!(hex_text(0xcbf29ce484222325), "cbf29ce484222325");
    assert_eq!(concepts_signature(&TextMap::new()), "cbf29ce484222325");
    let one = TextMap::new().with("a".to_string(), Concept { name: "a".into(), ..Default::default() });
    // FNV-1a of "a:"
    let mut h: u64 = 0xcbf29ce484222325;
    for b in "a:".bytes() {
        h ^= b as u64;
        h = h.wrapping_mul(0x100000001b3);
    }
    assert_eq!(concepts_signature(&one), format!("{h:x}"));
}

#[test]
fn every_way_of_use() {
    let declared = |name: &str, kind: &str, table: Option<&str>| Concept {
        name: name.to_string(),
        declared_in: vec![("d".to_string(), kind.to_string())],
        table: table.map(str::to_string),
        ..Default::default()
    };
    let uses = |c: Concept, text: &str| {
        let name = c.name.clone();
        find_usage(&TextMap::new().with(name, c), text)
            .into_iter()
            .map(|(_, k)| k)
            .collect::<Vec<String>>()
    };
    assert_eq!(uses(declared("Cart", "prisma", None), "tx.cart.create("), ["orm-client"]);
    assert_eq!(uses(declared("Cart", "django", None), "Cart.objects.all()"), ["django-orm"]);
    assert_eq!(uses(declared("Basket", "django", None), "x = Basket(1)"), ["constructed"]);
    assert!(uses(declared("Cart", "django", None), "x = Cart(1)").is_empty());
    assert_eq!(uses(declared("Cart", "mongoose", None), "Cart.findOne(q)"), ["mongoose-static"]);
    assert!(uses(declared("Cart", "prisma", None), "Cart.findOne(q)").is_empty());
    assert_eq!(uses(declared("Cart", "rails", None), "Cart.where(x)"), ["rails-static"]);
    assert_eq!(uses(declared("Cart", "eloquent", None), "Cart::query()"), ["eloquent-static"]);
    assert_eq!(uses(declared("Cart", "gorm", None), "&Cart{ID: 1}"), ["gorm-literal"]);
    assert_eq!(uses(declared("carts", "drizzle", None), "db.select().from(carts)"), ["drizzle-query"]);
    assert_eq!(uses(declared("Cart", "typeorm", None), "r: Repository<Cart>"), ["typeorm-repository"]);
    assert_eq!(uses(declared("Cart", "sql", Some("Carts")), "UPDATE carts SET x"), ["raw-sql"]);
}

// --- names ---

#[test]
fn names_fall_into_tokens() {
    assert_eq!(name_tokens("UserAuditLog"), ["user", "audit", "log"]);
    assert_eq!(name_tokens("ContributionModel"), ["contribution", "model"]);
    assert_eq!(name_tokens("user_profile"), ["user", "profile"]);
    assert!(names_concept("ContributionModel", "contribution"));
    assert!(!names_concept("ContributionModel", "tribution"));
    assert!(same_word("member", "members"));
    assert!(!same_word("member", "remember"));
    assert!(is_generic_role_token("service"));
    assert!(!is_generic_role_token("widget"));
}

// --- scores ---

fn model(name: &str, uses: usize) -> Concept {
    Concept {
        name: name.to_string(),
        declared_in: vec![("schema.prisma".to_string(), "prisma".to_string())],
        usage: (0..uses).map(|i| (format!("f{i}"), "orm-client".to_string())).collect(),
        relations: names(&["User"]),
        ..Default::default()
    }
}

#[test]
fn an_exact_name_outranks_a_token() {
    let exact = model("Contribution", 0);
    let part = model("ContributionLine", 20);
    assert_eq!(tier("Contribution", &exact, "contribution"), RankTier::ExactOrm);
    assert_eq!(tier("ContributionLine", &part, "contribution"), RankTier::TokenOrm);
    assert!(rank("Contribution", &exact, "contribution") > rank("ContributionLine", &part, "contribution"));
}

#[test]
fn a_score_is_its_parts() {
    let s = score("Contribution", &model("Contribution", 3), "contribution");
    assert_eq!(s.tier, RankTier::ExactOrm);
    assert_eq!(s.tier_score, RankTier::ExactOrm.base_score());
    assert_eq!(s.usage_score, 3);
    assert_eq!(s.relation_score, 1);
    assert_eq!(s.total, s.tier_score + s.usage_score + s.relation_score);
}

#[test]
fn tiers_are_ordered_from_the_best_down() {
    assert!(RankTier::DeclaredOntology < RankTier::ExactOrm);
    assert!(RankTier::TokenOrm < RankTier::TokenSql);
}
