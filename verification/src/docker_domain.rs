//! What Dockerfiles and compose files declare, and what a live engine reports
//! of the services that they declare.
use vstd::prelude::*;
use vstd::utf8::encode_utf8;
use crate::model::{EvidenceView, Tier};
use crate::outside::{json_tree, parse_json};
use crate::paths::{below, display_name};
use crate::paths::{display_name_of, path_below};
use crate::permissions::{domain_allowed, is_domain_allowed, PermissionConfig};
use crate::resource::{resource, Resource, ResourceView};
use crate::table::{lookup, put, TextMap};
use crate::text::{decimal, ends_with, join, lines, run, starts_with, strip_prefix, strip_suffix, trim, trim_end, trim_start, words, CharClass};
use crate::text::{after_prefix, before_suffix, begins, blank, chars_of, cut, ends, joined, lines_of, number, owned, run_at, same, trimmed, trimmed_end, trimmed_start, words_of};
use crate::tree::{text_field, Tree, TreeView};

verus! {

// ---------------------------------------------------------------------------
// Dockerfiles
// ---------------------------------------------------------------------------

pub open spec fn is_dockerfile(name: Seq<char>) -> bool {
    name == "Dockerfile"@ || starts_with(name, "Dockerfile."@)
}

/// Whether a file at a project's root is a Dockerfile.
pub fn dockerfile_name(name: &str) -> (r: bool)
    ensures
        r == is_dockerfile(name@),
{
    same(name, "Dockerfile") || begins(name, "Dockerfile.")
}

/// The first word from `i` on that is no option of an instruction.
pub open spec fn reference_from(ws: Seq<Seq<char>>, i: int) -> Option<Seq<char>>
    decreases ws.len() - i,
{
    if i < 0 || i >= ws.len() {
        None
    } else if starts_with(ws[i], "--"@) {
        reference_from(ws, i + 1)
    } else {
        Some(ws[i])
    }
}

/// The base image that a line names, whatever options stand before it.
pub open spec fn image_in(raw: Seq<char>) -> Option<Seq<char>> {
    let line = trim(raw);
    let rest = match strip_prefix(line, "FROM "@) {
        Some(r) => Some(r),
        None => strip_prefix(line, "from "@),
    };
    match rest {
        Some(r) => reference_from(words(r), 0),
        None => None,
    }
}

pub open spec fn each_image() -> spec_fn(Seq<char>) -> Option<Seq<char>> {
    |line: Seq<char>| image_in(line)
}

/// The base images of a Dockerfile in order, without options and without the
/// names of the stages.
pub open spec fn images(text: Seq<char>) -> Seq<Seq<char>> {
    lines(text).filter_map(each_image())
}

fn image_of(raw: &str) -> (r: Option<String>)
    ensures
        r.deep_view() == image_in(raw@),
{
    let line = trimmed(raw);
    let rest = match after_prefix(line.as_str(), "FROM ") {
        Some(s) => Some(s),
        None => after_prefix(line.as_str(), "from "),
    };
    match rest {
        Some(s) => {
            let ws = words_of(s.as_str());
            let ghost wv = ws.deep_view();
            let mut i: usize = 0;
            while i < ws.len()
                invariant
                    i <= ws.len(),
                    wv == ws.deep_view(),
                    image_in(raw@) == reference_from(wv, 0),
                    reference_from(wv, 0) == reference_from(wv, i as int),
                decreases ws.len() - i,
            {
                assert(wv[i as int] == ws[i as int]@);
                if !begins(ws[i].as_str(), "--") {
                    return Some(owned(ws[i].as_str()));
                }
                i += 1;
            }
            None
        },
        None => None,
    }
}

/// The base images of a Dockerfile in order.
pub fn from_images(text: &str) -> (r: Vec<String>)
    ensures
        r.deep_view() == images(text@),
{
    let ls = lines_of(text);
    let ghost all = ls.deep_view();
    let mut out: Vec<String> = Vec::new();
    let mut i: usize = 0;
    proof {
        assert(all.take(0) =~= seq![]);
        reveal(Seq::filter_map);
    }
    while i < ls.len()
        invariant
            i <= ls.len(),
            all == ls.deep_view(),
            out.deep_view() =~= all.take(i as int).filter_map(each_image()),
        decreases ls.len() - i,
    {
        let ghost so_far = out.deep_view();
        proof {
            all.lemma_filter_map_take_succ(each_image(), i as int);
        }
        assert(all[i as int] == ls[i as int]@);
        if let Some(image) = image_of(ls[i].as_str()) {
            let ghost x = image@;
            out.push(image);
            assert(out.deep_view() =~= so_far + seq![x]);
        }
        i += 1;
    }
    assert(all.take(i as int) =~= all);
    out
}

// ---------------------------------------------------------------------------
// Compose files
// ---------------------------------------------------------------------------

/// A service that a compose file declares.
#[derive(Debug)]
pub struct ComposeService {
    pub name: String,
    pub image: Option<String>,
    pub ports: Vec<String>,
    pub build_context: Option<String>,
    pub build_dockerfile: Option<String>,
}

pub struct ComposeServiceView {
    pub name: Seq<char>,
    pub image: Option<Seq<char>>,
    pub ports: Seq<Seq<char>>,
    pub build_context: Option<Seq<char>>,
    pub build_dockerfile: Option<Seq<char>>,
}

impl DeepView for ComposeService {
    type V = ComposeServiceView;

    open spec fn deep_view(&self) -> ComposeServiceView {
        ComposeServiceView {
            name: self.name@,
            image: self.image.deep_view(),
            ports: self.ports.deep_view(),
            build_context: self.build_context.deep_view(),
            build_dockerfile: self.build_dockerfile.deep_view(),
        }
    }
}

/// How far a line is indented, in bytes.
pub open spec fn indent(line: Seq<char>) -> nat {
    encode_utf8(line.take(run(line, CharClass::Space) as int)).len()
}

/// A value without white space round it and without the quotes round that.
pub open spec fn unquoted(raw: Seq<char>) -> Seq<char> {
    let s = trim(raw);
    if s.len() >= 2 && ((s[0] == '"' && s.last() == '"') || (s[0] == '\'' && s.last() == '\'')) {
        s.subrange(1, s.len() - 1)
    } else {
        s
    }
}

/// What has been read of a service's block, and the list or block within it
/// that is being read.
pub struct ServiceScan {
    pub image: Option<Seq<char>>,
    pub ports: Seq<Seq<char>>,
    pub build_context: Option<Seq<char>>,
    pub build_dockerfile: Option<Seq<char>>,
    pub in_ports: bool,
    pub in_build: bool,
}

pub open spec fn unless_blank(value: Seq<char>, otherwise: Option<Seq<char>>) -> Option<Seq<char>> {
    if trim(value).len() > 0 {
        Some(unquoted(trim(value)))
    } else {
        otherwise
    }
}

/// One line of a service's block. A line that is not understood is passed over.
pub open spec fn service_line(s: ServiceScan, line: Seq<char>) -> ServiceScan {
    if let Some(v) = strip_prefix(line, "image:"@) {
        ServiceScan { image: Some(unquoted(trim(v))), in_ports: false, in_build: false, ..s }
    } else if line == "ports:"@ {
        ServiceScan { in_ports: true, in_build: false, ..s }
    } else if let Some(item) = strip_prefix(line, "- "@) {
        if s.in_ports {
            ServiceScan { ports: s.ports.push(unquoted(trim(item))), ..s }
        } else {
            s
        }
    } else if s.in_build && strip_prefix(line, "context:"@) is Some {
        ServiceScan {
            build_context: unless_blank(strip_prefix(line, "context:"@)->0, s.build_context),
            ..s
        }
    } else if s.in_build && strip_prefix(line, "dockerfile:"@) is Some {
        ServiceScan {
            build_dockerfile: unless_blank(
                strip_prefix(line, "dockerfile:"@)->0,
                s.build_dockerfile,
            ),
            ..s
        }
    } else if line == "build:"@ {
        ServiceScan { in_build: true, in_ports: false, ..s }
    } else if let Some(v) = strip_prefix(line, "build:"@) {
        ServiceScan {
            build_context: unless_blank(v, s.build_context),
            in_ports: false,
            in_build: false,
            ..s
        }
    } else if ends_with(line, ":"@) {
        ServiceScan { in_ports: false, in_build: false, ..s }
    } else {
        s
    }
}

/// A service's block from line `j` on: it ends at the first line that is not
/// indented further than the service's name.
pub open spec fn service_block(ls: Seq<Seq<char>>, j: int, depth: nat, s: ServiceScan) -> (
    ServiceScan,
    int,
)
    decreases ls.len() - j,
{
    if j < 0 || j >= ls.len() {
        (s, j)
    } else if trim(ls[j]).len() == 0 {
        service_block(ls, j + 1, depth, s)
    } else if indent(ls[j]) <= depth {
        (s, j)
    } else {
        service_block(ls, j + 1, depth, service_line(s, trim(ls[j])))
    }
}

pub open spec fn empty_scan() -> ServiceScan {
    ServiceScan {
        image: None,
        ports: seq![],
        build_context: None,
        build_dockerfile: None,
        in_ports: false,
        in_build: false,
    }
}

/// The service that a line opens: a key alone on its line, without a space.
pub open spec fn service_name(line: Seq<char>) -> Option<Seq<char>> {
    match strip_suffix(trim(line), ":"@) {
        Some(name) => if name.len() > 0 && !name.contains(' ') {
            Some(name)
        } else {
            None
        },
        None => None,
    }
}

pub open spec fn is_passed_over(line: Seq<char>) -> bool {
    trim(line).len() == 0 || starts_with(trim_start(line), "#"@)
}

pub open spec fn service_from(name: Seq<char>, s: ServiceScan) -> ComposeServiceView {
    ComposeServiceView {
        name,
        image: s.image,
        ports: s.ports,
        build_context: s.build_context,
        build_dockerfile: s.build_dockerfile,
    }
}

pub proof fn lemma_service_block(ls: Seq<Seq<char>>, j: int, depth: nat, s: ServiceScan)
    ensures
        service_block(ls, j, depth, s).1 >= j,
        j <= ls.len() ==> service_block(ls, j, depth, s).1 <= ls.len(),
    decreases ls.len() - j,
{
    if j < 0 || j >= ls.len() {
    } else if trim(ls[j]).len() == 0 {
        lemma_service_block(ls, j + 1, depth, s);
    } else if indent(ls[j]) <= depth {
    } else {
        lemma_service_block(ls, j + 1, depth, service_line(s, trim(ls[j])));
    }
}

/// The services from line `i` on, up to the end of the block.
pub open spec fn services_from(ls: Seq<Seq<char>>, i: int, depth: nat) -> Seq<ComposeServiceView>
    decreases ls.len() - i,
{
    if i < 0 || i >= ls.len() {
        seq![]
    } else if is_passed_over(ls[i]) {
        services_from(ls, i + 1, depth)
    } else if indent(ls[i]) <= depth {
        seq![]
    } else {
        match service_name(ls[i]) {
            Some(name) => {
                let block = service_block(ls, i + 1, indent(ls[i]), empty_scan());
                proof {
                    lemma_service_block(ls, i + 1, indent(ls[i]), empty_scan());
                }
                seq![service_from(name, block.0)] + services_from(ls, block.1, depth)
            },
            None => services_from(ls, i + 1, depth),
        }
    }
}

pub open spec fn opens_services(line: Seq<char>) -> bool {
    trim_end(line) == "services:"@ || (trim_start(line) == "services:"@ && indent(line) == 0)
}

/// The first line from `i` on that opens the services.
pub open spec fn services_line(ls: Seq<Seq<char>>, i: int) -> Option<int>
    decreases ls.len() - i,
{
    if i < 0 || i >= ls.len() {
        None
    } else if opens_services(ls[i]) {
        Some(i)
    } else {
        services_line(ls, i + 1)
    }
}

/// The services that a compose file declares in block style.
pub open spec fn services(text: Seq<char>) -> Seq<ComposeServiceView> {
    let ls = lines(text);
    match services_line(ls, 0) {
        Some(i) => services_from(ls, i + 1, indent(ls[i])),
        None => seq![],
    }
}

pub fn indent_of(line: &str) -> (r: usize)
    ensures
        r == indent(line@),
{
    let cs = chars_of(line);
    assert(cs@.skip(0) =~= cs@);
    let n: usize = run_at(&cs, 0, CharClass::Space);
    let head = cut(&cs, 0, n);
    assert(head@ =~= line@.take(n as int));
    head.as_str().as_bytes().len()
}

pub fn strip_yaml_quotes(raw: &str) -> (r: String)
    ensures
        r@ == unquoted(raw@),
{
    let s = trimmed(raw);
    let cs = chars_of(s.as_str());
    let n: usize = cs.len();
    if n >= 2 && ((cs[0] == '"' && cs[n - 1] == '"') || (cs[0] == '\'' && cs[n - 1] == '\'')) {
        cut(&cs, 1, n - 1)
    } else {
        s
    }
}

struct Reading {
    image: Option<String>,
    ports: Vec<String>,
    build_context: Option<String>,
    build_dockerfile: Option<String>,
    in_ports: bool,
    in_build: bool,
}

impl DeepView for Reading {
    type V = ServiceScan;

    closed spec fn deep_view(&self) -> ServiceScan {
        ServiceScan {
            image: self.image.deep_view(),
            ports: self.ports.deep_view(),
            build_context: self.build_context.deep_view(),
            build_dockerfile: self.build_dockerfile.deep_view(),
            in_ports: self.in_ports,
            in_build: self.in_build,
        }
    }
}

fn value_unless_blank(value: &str, otherwise: Option<String>) -> (r: Option<String>)
    ensures
        r.deep_view() == unless_blank(value@, otherwise.deep_view()),
{
    let v = trimmed(value);
    if v.as_str().is_empty() {
        otherwise
    } else {
        Some(strip_yaml_quotes(v.as_str()))
    }
}

fn read_service_line(s: Reading, line: &str) -> (r: Reading)
    ensures
        r.deep_view() == service_line(s.deep_view(), line@),
{
    let mut s = s;
    if let Some(v) = after_prefix(line, "image:") {
        s.image = Some(strip_yaml_quotes(trimmed(v.as_str()).as_str()));
        s.in_ports = false;
        s.in_build = false;
    } else if same(line, "ports:") {
        s.in_ports = true;
        s.in_build = false;
    } else if let Some(item) = after_prefix(line, "- ") {
        if s.in_ports {
            let ghost so_far = s.ports.deep_view();
            let p = strip_yaml_quotes(trimmed(item.as_str()).as_str());
            let ghost x = p@;
            s.ports.push(p);
            assert(s.ports.deep_view() =~= so_far.push(x));
        }
    } else if s.in_build && begins(line, "context:") {
        if let Some(v) = after_prefix(line, "context:") {
            s.build_context = value_unless_blank(v.as_str(), s.build_context);
        }
    } else if s.in_build && begins(line, "dockerfile:") {
        if let Some(v) = after_prefix(line, "dockerfile:") {
            s.build_dockerfile = value_unless_blank(v.as_str(), s.build_dockerfile);
        }
    } else if same(line, "build:") {
        s.in_build = true;
        s.in_ports = false;
    } else if let Some(v) = after_prefix(line, "build:") {
        s.build_context = value_unless_blank(v.as_str(), s.build_context);
        s.in_ports = false;
        s.in_build = false;
    } else if ends(line, ":") {
        s.in_ports = false;
        s.in_build = false;
    }
    s
}

fn read_service_block(ls: &Vec<String>, from: usize, depth: usize) -> (r: (Reading, usize))
    requires
        from <= ls.len(),
    ensures
        (r.0.deep_view(), r.1 as int) == service_block(
            ls.deep_view(),
            from as int,
            depth as nat,
            empty_scan(),
        ),
        from <= r.1 <= ls.len(),
{
    let ghost lv = ls.deep_view();
    let ports: Vec<String> = Vec::new();
    assert(ports.deep_view() =~= seq![]);
    let mut s = Reading {
        image: None,
        ports,
        build_context: None,
        build_dockerfile: None,
        in_ports: false,
        in_build: false,
    };
    let ghost whole = service_block(lv, from as int, depth as nat, empty_scan());
    let mut j: usize = from;
    while j < ls.len()
        invariant
            from <= j <= ls.len(),
            lv == ls.deep_view(),
            whole == service_block(lv, from as int, depth as nat, empty_scan()),
            whole == service_block(lv, j as int, depth as nat, s.deep_view()),
        decreases ls.len() - j,
    {
        assert(lv[j as int] == ls[j as int]@);
        let t = trimmed(ls[j].as_str());
        if t.as_str().is_empty() {
            j += 1;
            continue;
        }
        if indent_of(ls[j].as_str()) <= depth {
            return (s, j);
        }
        s = read_service_line(s, t.as_str());
        j += 1;
    }
    (s, j)
}

fn holds_space(s: &str) -> (r: bool)
    ensures
        r == s@.contains(' '),
{
    let cs = chars_of(s);
    let mut i: usize = 0;
    while i < cs.len()
        invariant
            i <= cs.len(),
            cs@ == s@,
            forall|j: int| 0 <= j < i ==> s@[j] != ' ',
        decreases cs.len() - i,
    {
        if cs[i] == ' ' {
            assert(s@[i as int] == ' ');
            return true;
        }
        i += 1;
    }
    false
}

fn service_name_of(line: &str) -> (r: Option<String>)
    ensures
        r.deep_view() == service_name(line@),
{
    match before_suffix(trimmed(line).as_str(), ":") {
        Some(name) => if !name.as_str().is_empty() && !holds_space(name.as_str()) {
            Some(name)
        } else {
            None
        },
        None => None,
    }
}

fn services_line_of(ls: &Vec<String>) -> (r: Option<usize>)
    ensures
        match r {
            Some(i) => services_line(ls.deep_view(), 0) == Some(i as int) && i < ls.len(),
            None => services_line(ls.deep_view(), 0) is None,
        },
{
    let ghost lv = ls.deep_view();
    let mut i: usize = 0;
    while i < ls.len()
        invariant
            i <= ls.len(),
            lv == ls.deep_view(),
            services_line(lv, 0) == services_line(lv, i as int),
        decreases ls.len() - i,
    {
        assert(lv[i as int] == ls[i as int]@);
        let l = ls[i].as_str();
        if same(trimmed_end(l).as_str(), "services:") || (same(
            trimmed_start(l).as_str(),
            "services:",
        ) && indent_of(l) == 0) {
            return Some(i);
        }
        i += 1;
    }
    None
}

/// The services that a compose file declares in block style.
pub fn compose_services(text: &str) -> (r: Vec<ComposeService>)
    ensures
        r.deep_view() == services(text@),
{
    let ls = lines_of(text);
    let ghost lv = ls.deep_view();
    let mut out: Vec<ComposeService> = Vec::new();
    assert(out.deep_view() =~= seq![]);
    let start = match services_line_of(&ls) {
        Some(i) => i,
        None => return out,
    };
    assert(lv[start as int] == ls[start as int]@);
    let depth: usize = indent_of(ls[start].as_str());
    let ghost whole = services_from(lv, start + 1, depth as nat);
    let mut i: usize = start + 1;
    assert(seq![] + whole =~= whole);
    while i < ls.len()
        invariant
            i <= ls.len(),
            lv == ls.deep_view(),
            whole == services(text@),
            whole =~= out.deep_view() + services_from(lv, i as int, depth as nat),
        decreases ls.len() - i,
    {
        assert(lv[i as int] == ls[i as int]@);
        let line = ls[i].as_str();
        if blank(line) || begins(trimmed_start(line).as_str(), "#") {
            i += 1;
            continue;
        }
        let this: usize = indent_of(line);
        if this <= depth {
            assert(whole =~= out.deep_view());
            return out;
        }
        if let Some(name) = service_name_of(line) {
            let ghost so_far = out.deep_view();
            let (s, end) = read_service_block(&ls, i + 1, this);
            let ghost sv = service_from(name@, s.deep_view());
            out.push(
                ComposeService {
                    name,
                    image: s.image,
                    ports: s.ports,
                    build_context: s.build_context,
                    build_dockerfile: s.build_dockerfile,
                },
            );
            assert(out.deep_view() =~= so_far.push(sv));
            i = end;
        } else {
            i += 1;
        }
    }
    assert(whole =~= out.deep_view());
    out
}

// ---------------------------------------------------------------------------
// Declared resources
// ---------------------------------------------------------------------------

/// The image that stands `n`th in a Dockerfile.
pub open spec fn image_resource(root: Seq<char>, file: Seq<char>, n: nat, image: Seq<char>) -> ResourceView {
    ResourceView {
        id: display_name(root) + ":"@ + file + ":"@ + decimal(n) + ":"@ + image,
        kind: "docker_image"@,
        domain: "docker"@,
        file: below(root, file),
        line: None,
        attributes: put(
            put(put(seq![], "repository"@, display_name(root)), "image"@, image),
            "source"@,
            file,
        ),
        evidence: seq![
            EvidenceView {
                tier: Tier::Declared,
                what: "FROM "@ + image + " declared in "@ + file,
            },
        ],
    }
}

/// The images of one Dockerfile, from the `n`th on.
pub open spec fn image_resources(root: Seq<char>, file: Seq<char>, list: Seq<Seq<char>>) -> Seq<
    ResourceView,
>
    decreases list.len(),
{
    if list.len() == 0 {
        seq![]
    } else {
        image_resources(root, file, list.drop_last()).push(
            image_resource(root, file, (list.len() - 1) as nat, list.last()),
        )
    }
}

/// The images of all Dockerfiles among the files at a project's root.
pub open spec fn dockerfile_resources(root: Seq<char>, files: Seq<(Seq<char>, Seq<char>)>) -> Seq<
    ResourceView,
>
    decreases files.len(),
{
    if files.len() == 0 {
        seq![]
    } else {
        dockerfile_resources(root, files.drop_last()) + (if is_dockerfile(files.last().0) {
            image_resources(root, files.last().0, images(files.last().1))
        } else {
            seq![]
        })
    }
}

pub open spec fn with_some(m: Seq<(Seq<char>, Seq<char>)>, k: Seq<char>, v: Option<Seq<char>>) -> Seq<
    (Seq<char>, Seq<char>),
> {
    match v {
        Some(x) => put(m, k, x),
        None => m,
    }
}

pub open spec fn service_attributes(root: Seq<char>, file: Seq<char>, s: ComposeServiceView) -> Seq<
    (Seq<char>, Seq<char>),
> {
    let m = put(
        put(put(seq![], "repository"@, display_name(root)), "service"@, s.name),
        "source"@,
        file,
    );
    let m = with_some(m, "image"@, s.image);
    let m = with_some(
        m,
        "ports"@,
        if s.ports.len() > 0 {
            Some(join(s.ports, ","@))
        } else {
            None
        },
    );
    let m = with_some(m, "build_context"@, s.build_context);
    with_some(m, "build_dockerfile"@, s.build_dockerfile)
}

pub open spec fn service_fact(file: Seq<char>, s: ComposeServiceView) -> Seq<char> {
    "service '"@ + s.name + (match (s.image, s.build_context) {
        (Some(i), Some(c)) => "' (image '"@ + i + "', build context '"@ + c + "')"@,
        (Some(i), None) => "' (image '"@ + i + "')"@,
        (None, Some(c)) => "' (build context '"@ + c + "')"@,
        (None, None) => "'"@,
    }) + " declared in "@ + file
}

pub open spec fn service_resource(root: Seq<char>, file: Seq<char>, s: ComposeServiceView) -> ResourceView {
    ResourceView {
        id: display_name(root) + ":"@ + file + ":service:"@ + s.name,
        kind: "docker_service"@,
        domain: "docker"@,
        file: below(root, file),
        line: None,
        attributes: service_attributes(root, file, s),
        evidence: seq![EvidenceView { tier: Tier::Declared, what: service_fact(file, s) }],
    }
}

pub open spec fn each_service(root: Seq<char>, file: Seq<char>) -> spec_fn(ComposeServiceView) -> ResourceView {
    |s: ComposeServiceView| service_resource(root, file, s)
}

/// The names under which a compose file is found, in the order in which they
/// are read.
pub open spec fn compose_names() -> Seq<Seq<char>> {
    seq!["docker-compose.yml"@, "docker-compose.yaml"@, "compose.yml"@, "compose.yaml"@]
}

/// The services of the first `n` names that there are files under.
pub open spec fn compose_resources(
    root: Seq<char>,
    files: Seq<(Seq<char>, Seq<char>)>,
    n: int,
) -> Seq<ResourceView>
    decreases n,
{
    if n <= 0 || n > compose_names().len() {
        seq![]
    } else {
        let name = compose_names()[n - 1];
        compose_resources(root, files, n - 1) + (match lookup(files, name) {
            Some(text) => services(text).map_values(each_service(root, name)),
            None => seq![],
        })
    }
}

/// Everything that the Dockerfiles and compose files at a project's root
/// declare.
pub open spec fn docker_resources(root: Seq<char>, files: Seq<(Seq<char>, Seq<char>)>) -> Seq<
    ResourceView,
> {
    dockerfile_resources(root, files) + compose_resources(root, files, 4)
}

/// Whether a file at a project's root is a compose file.
pub fn compose_name(name: &str) -> (r: bool)
    ensures
        r == compose_names().contains(name@),
{
    let ghost c = compose_names();
    assert(c[0] == "docker-compose.yml"@);
    assert(c[1] == "docker-compose.yaml"@);
    assert(c[2] == "compose.yml"@);
    assert(c[3] == "compose.yaml"@);
    same(name, "docker-compose.yml") || same(name, "docker-compose.yaml") || same(
        name,
        "compose.yml",
    ) || same(name, "compose.yaml")
}

fn compose_list() -> (r: Vec<&'static str>)
    ensures
        r@.len() == compose_names().len(),
        forall|i: int| 0 <= i < r@.len() ==> (#[trigger] r@[i])@ == compose_names()[i],
{
    let mut v: Vec<&'static str> = Vec::new();
    v.push("docker-compose.yml");
    v.push("docker-compose.yaml");
    v.push("compose.yml");
    v.push("compose.yaml");
    v
}

fn image_resource_of(root: &str, file: &str, n: usize, image: &str) -> (r: Resource)
    ensures
        r.deep_view() == image_resource(root@, file@, n as nat, image@),
{
    let name = display_name_of(root);
    let mut id = owned(name.as_str());
    id.append(":");
    id.append(file);
    id.append(":");
    id.append(number(n as u64).as_str());
    id.append(":");
    id.append(image);
    let mut what = owned("FROM ");
    what.append(image);
    what.append(" declared in ");
    what.append(file);
    let none: TextMap<String> = TextMap::new();
    let attributes = none.with(owned("repository"), name).with(owned("image"), owned(image)).with(
        owned("source"),
        owned(file),
    );
    resource(
        id,
        "docker_image",
        "docker",
        path_below(root, file),
        attributes,
        Tier::Declared,
        what,
    )
}

fn add_images(out: &mut Vec<Resource>, root: &str, file: &str, text: &str)
    ensures
        final(out).deep_view() == old(out).deep_view() + image_resources(
            root@,
            file@,
            images(text@),
        ),
{
    let list = from_images(text);
    let ghost lv = list.deep_view();
    let ghost start = out.deep_view();
    let mut i: usize = 0;
    assert(lv.take(0) =~= seq![]);
    assert(start + image_resources(root@, file@, lv.take(0)) =~= start);
    while i < list.len()
        invariant
            i <= list.len(),
            lv == list.deep_view(),
            out.deep_view() == start + image_resources(root@, file@, lv.take(i as int)),
        decreases list.len() - i,
    {
        let ghost so_far = out.deep_view();
        let ghost step = lv.take(i + 1);
        assert(step.drop_last() =~= lv.take(i as int));
        assert(step.last() == list[i as int]@);
        let r = image_resource_of(root, file, i, list[i].as_str());
        let ghost x = r.deep_view();
        out.push(r);
        assert(out.deep_view() =~= so_far.push(x));
        assert(so_far.push(x) =~= start + image_resources(root@, file@, lv.take(i as int)).push(x));
        i += 1;
    }
    assert(lv.take(i as int) =~= lv);
}

fn service_fact_of(file: &str, s: &ComposeService) -> (r: String)
    ensures
        r@ == service_fact(file@, s.deep_view()),
{
    let mut what = owned("service '");
    what.append(s.name.as_str());
    let mut middle = String::new();
    match (&s.image, &s.build_context) {
        (Some(i), Some(c)) => {
            middle.append("' (image '");
            middle.append(i.as_str());
            middle.append("', build context '");
            middle.append(c.as_str());
            middle.append("')");
        },
        (Some(i), None) => {
            middle.append("' (image '");
            middle.append(i.as_str());
            middle.append("')");
        },
        (None, Some(c)) => {
            middle.append("' (build context '");
            middle.append(c.as_str());
            middle.append("')");
        },
        (None, None) => {
            middle.append("'");
        },
    }
    assert(middle@ =~= match (s.deep_view().image, s.deep_view().build_context) {
        (Some(i), Some(c)) => "' (image '"@ + i + "', build context '"@ + c + "')"@,
        (Some(i), None) => "' (image '"@ + i + "')"@,
        (None, Some(c)) => "' (build context '"@ + c + "')"@,
        (None, None) => "'"@,
    });
    what.append(middle.as_str());
    what.append(" declared in ");
    what.append(file);
    what
}

fn with_optional(m: TextMap<String>, k: &str, v: &Option<String>) -> (r: TextMap<String>)
    ensures
        r.deep_view() == with_some(m.deep_view(), k@, v.deep_view()),
{
    match v {
        Some(x) => m.with(owned(k), owned(x.as_str())),
        None => m,
    }
}

fn service_resource_of(root: &str, file: &str, s: &ComposeService) -> (r: Resource)
    ensures
        r.deep_view() == service_resource(root@, file@, s.deep_view()),
{
    let name = display_name_of(root);
    let mut id = owned(name.as_str());
    id.append(":");
    id.append(file);
    id.append(":service:");
    id.append(s.name.as_str());
    let none: TextMap<String> = TextMap::new();
    let m = none.with(owned("repository"), name).with(
        owned("service"),
        owned(s.name.as_str()),
    ).with(owned("source"), owned(file));
    let m = with_optional(m, "image", &s.image);
    let ports = if s.ports.len() > 0 {
        Some(joined(&s.ports, ","))
    } else {
        None
    };
    let m = with_optional(m, "ports", &ports);
    let m = with_optional(m, "build_context", &s.build_context);
    let m = with_optional(m, "build_dockerfile", &s.build_dockerfile);
    resource(
        id,
        "docker_service",
        "docker",
        path_below(root, file),
        m,
        Tier::Declared,
        service_fact_of(file, s),
    )
}

fn add_services(out: &mut Vec<Resource>, root: &str, file: &str, text: &str)
    ensures
        final(out).deep_view() == old(out).deep_view() + services(text@).map_values(
            each_service(root@, file@),
        ),
{
    let list = compose_services(text);
    let ghost start = out.deep_view();
    let ghost all = list.deep_view().map_values(each_service(root@, file@));
    let mut i: usize = 0;
    while i < list.len()
        invariant
            i <= list.len(),
            all == list.deep_view().map_values(each_service(root@, file@)),
            out.deep_view() =~= start + all.take(i as int),
        decreases list.len() - i,
    {
        let ghost so_far = out.deep_view();
        assert(list.deep_view()[i as int] == list[i as int].deep_view());
        out.push(service_resource_of(root, file, &list[i]));
        assert(out.deep_view() =~= so_far.push(all[i as int]));
        i += 1;
    }
    assert(all.take(i as int) =~= all);
}

/// Everything that the Dockerfiles and compose files at a project's root
/// declare, without asking for permission. `files` holds the texts of the files
/// at the root by name.
pub fn scan(root: &str, files: &TextMap<String>) -> (r: Vec<Resource>)
    ensures
        r.deep_view() == docker_resources(root@, files.deep_view()),
{
    let ghost fv = files.deep_view();
    let mut out: Vec<Resource> = Vec::new();
    let n: usize = files.len();
    let mut i: usize = 0;
    assert(out.deep_view() =~= seq![]);
    while i < n
        invariant
            i <= n,
            n == fv.len(),
            fv == files.deep_view(),
            out.deep_view() == dockerfile_resources(root@, fv.take(i as int)),
        decreases n - i,
    {
        let ghost step = fv.take(i + 1);
        assert(step.drop_last() =~= fv.take(i as int));
        assert(step.last() == fv[i as int]);
        let ghost so_far = out.deep_view();
        if dockerfile_name(files.key(i)) {
            add_images(&mut out, root, files.key(i), files.value(i).as_str());
        } else {
            assert(so_far + seq![] =~= so_far);
        }
        i += 1;
    }
    assert(fv.take(i as int) =~= fv);
    let ghost head = out.deep_view();
    let names = compose_list();
    let mut k: usize = 0;
    assert(head + compose_resources(root@, fv, 0) =~= head);
    while k < names.len()
        invariant
            k <= names.len(),
            names.len() == 4,
            compose_names().len() == 4,
            fv == files.deep_view(),
            forall|j: int| 0 <= j < names.len() ==> (#[trigger] names[j])@ == compose_names()[j],
            out.deep_view() == head + compose_resources(root@, fv, k as int),
        decreases names.len() - k,
    {
        let ghost so_far = out.deep_view();
        let name = names[k];
        assert(name@ == compose_names()[k as int]);
        match files.get(name) {
            Some(text) => {
                add_services(&mut out, root, name, text.as_str());
                assert(out.deep_view() =~= head + compose_resources(root@, fv, k + 1));
            },
            None => {
                assert(compose_resources(root@, fv, k as int) + seq![] =~= compose_resources(
                    root@,
                    fv,
                    k as int,
                ));
            },
        }
        k += 1;
    }
    out
}

/// Everything that is declared, if the domain is allowed.
pub fn scan_if_allowed(cfg: &PermissionConfig, root: &str, files: &TextMap<String>) -> (r: Vec<
    Resource,
>)
    ensures
        r.deep_view() == (if is_domain_allowed(cfg.deep_view(), "docker"@) {
            docker_resources(root@, files.deep_view())
        } else {
            seq![]
        }),
{
    if !domain_allowed(cfg, "docker") {
        let none: Vec<Resource> = Vec::new();
        assert(none.deep_view() =~= seq![]);
        return none;
    }
    scan(root, files)
}

// ---------------------------------------------------------------------------
// Observed services
// ---------------------------------------------------------------------------

/// The service and its state that one line of the engine's answer gives.
pub open spec fn state_of(t: TreeView) -> Option<(Seq<char>, Seq<char>)> {
    match (text_field(t, "Service"@), text_field(t, "State"@)) {
        (Some(service), Some(state)) => Some((service, state)),
        _ => None,
    }
}

pub open spec fn state_line(raw: Seq<char>) -> Option<(Seq<char>, Seq<char>)> {
    let line = trim(raw);
    if line.len() == 0 {
        None
    } else {
        match json_tree(line) {
            Some(t) => state_of(t),
            None => None,
        }
    }
}

/// The states that the engine reports, one JSON object on each line; lines that
/// say nothing of a service are passed over.
pub open spec fn states(ls: Seq<Seq<char>>) -> Seq<(Seq<char>, Seq<char>)>
    decreases ls.len(),
{
    if ls.len() == 0 {
        seq![]
    } else {
        match state_line(ls.last()) {
            Some((service, state)) => put(states(ls.drop_last()), service, state),
            None => states(ls.drop_last()),
        }
    }
}

/// The service and its state that a parsed line gives.
pub fn service_state(t: &Tree) -> (r: Option<(String, String)>)
    ensures
        r.deep_view() == state_of(t.deep_view()),
{
    match (t.text_field("Service"), t.text_field("State")) {
        (Some(service), Some(state)) => Some((service, state)),
        _ => None,
    }
}

fn states_in(stdout: &str) -> (r: TextMap<String>)
    ensures
        r.deep_view() == states(lines(stdout@)),
{
    let ls = lines_of(stdout);
    let ghost lv = ls.deep_view();
    let mut out: TextMap<String> = TextMap::new();
    let mut i: usize = 0;
    while i < ls.len()
        invariant
            i <= ls.len(),
            lv == ls.deep_view(),
            out.deep_view() == states(lv.take(i as int)),
        decreases ls.len() - i,
    {
        let ghost step = lv.take(i + 1);
        assert(step.drop_last() =~= lv.take(i as int));
        assert(step.last() == ls[i as int]@);
        let line = trimmed(ls[i].as_str());
        if !line.as_str().is_empty() {
            if let Some(t) = parse_json(line.as_str()) {
                if let Some((service, state)) = service_state(&t) {
                    out = out.with(service, state);
                }
            }
        }
        i += 1;
    }
    assert(lv.take(i as int) =~= lv);
    out
}

/// The states that `docker compose ps --format json --all` reports; nothing
/// where the engine could not be asked.
pub fn live_compose_states(stdout: Option<&str>) -> (r: Option<TextMap<String>>)
    ensures
        r.deep_view() == (match stdout {
            Some(s) => Some(states(lines(s@))),
            None => None,
        }),
{
    match stdout {
        Some(s) => Some(states_in(s)),
        None => None,
    }
}

pub open spec fn is_running(state: Option<Seq<char>>) -> bool {
    state == Some("running"@)
}

/// What is observed of a declared service; a service without a container is
/// observed not to run.
pub open spec fn observation(file: Seq<char>, service: Seq<char>, state: Option<Seq<char>>) -> Seq<char> {
    match state {
        Some(s) => if s == "running"@ {
            "service '"@ + service + "' observed RUNNING right now (docker compose ps, state '"@ + s
                + "')"@
        } else {
            "service '"@ + service + "' declared in "@ + file
                + " but observed NOT running right now (docker compose ps, state '"@ + s + "')"@
        },
        None => "service '"@ + service + "' declared in "@ + file
            + " but observed NOT running right now (docker compose ps --all reports no container for it)"@,
    }
}

pub open spec fn observed_resource(
    root: Seq<char>,
    file: Seq<char>,
    service: Seq<char>,
    state: Option<Seq<char>>,
) -> ResourceView {
    ResourceView {
        id: display_name(root) + ":"@ + file + ":service:"@ + service + ":observed"@,
        kind: "docker_service_observed"@,
        domain: "docker"@,
        file: below(root, file),
        line: None,
        attributes: put(
            put(
                put(put(seq![], "repository"@, display_name(root)), "service"@, service),
                "source"@,
                file,
            ),
            "running"@,
            if is_running(state) {
                "true"@
            } else {
                "false"@
            },
        ),
        evidence: seq![
            EvidenceView { tier: Tier::Observed, what: observation(file, service, state) },
        ],
    }
}

pub open spec fn each_observed(
    root: Seq<char>,
    file: Seq<char>,
    live: Seq<(Seq<char>, Seq<char>)>,
) -> spec_fn(ComposeServiceView) -> ResourceView {
    |s: ComposeServiceView| observed_resource(root, file, s.name, lookup(live, s.name))
}

/// What is observed under the first `n` compose names. A file that the engine
/// could not be asked about yields nothing.
pub open spec fn observed_resources(
    root: Seq<char>,
    files: Seq<(Seq<char>, Seq<char>)>,
    live: Seq<(Seq<char>, Seq<(Seq<char>, Seq<char>)>)>,
    n: int,
) -> Seq<ResourceView>
    decreases n,
{
    if n <= 0 || n > compose_names().len() {
        seq![]
    } else {
        let name = compose_names()[n - 1];
        observed_resources(root, files, live, n - 1) + (match (lookup(files, name), lookup(live, name)) {
            (Some(text), Some(st)) => services(text).map_values(each_observed(root, name, st)),
            _ => seq![],
        })
    }
}

/// Whether asking the engine about a compose file can say anything: it declares
/// a service.
pub fn worth_observing(text: &str) -> (r: bool)
    ensures
        r == (services(text@).len() > 0),
{
    compose_services(text).len() > 0
}

fn observation_of(file: &str, service: &str, state: Option<&String>) -> (r: String)
    ensures
        r@ == observation(
            file@,
            service@,
            match state {
                Some(s) => Some(s@),
                None => None,
            },
        ),
{
    let mut what = owned("service '");
    what.append(service);
    match state {
        Some(s) => {
            if same(s.as_str(), "running") {
                what.append("' observed RUNNING right now (docker compose ps, state '");
                what.append(s.as_str());
                what.append("')");
            } else {
                what.append("' declared in ");
                what.append(file);
                what.append(" but observed NOT running right now (docker compose ps, state '");
                what.append(s.as_str());
                what.append("')");
            }
        },
        None => {
            what.append("' declared in ");
            what.append(file);
            what.append(
                " but observed NOT running right now (docker compose ps --all reports no container for it)",
            );
        },
    }
    what
}

fn observed_resource_of(root: &str, file: &str, service: &str, state: Option<&String>) -> (r: Resource)
    ensures
        r.deep_view() == observed_resource(
            root@,
            file@,
            service@,
            match state {
                Some(s) => Some(s@),
                None => None,
            },
        ),
{
    let name = display_name_of(root);
    let mut id = owned(name.as_str());
    id.append(":");
    id.append(file);
    id.append(":service:");
    id.append(service);
    id.append(":observed");
    let running = match state {
        Some(s) => same(s.as_str(), "running"),
        None => false,
    };
    let flag = if running {
        owned("true")
    } else {
        owned("false")
    };
    let none: TextMap<String> = TextMap::new();
    let attributes = none.with(owned("repository"), name).with(
        owned("service"),
        owned(service),
    ).with(owned("source"), owned(file)).with(owned("running"), flag);
    resource(
        id,
        "docker_service_observed",
        "docker",
        path_below(root, file),
        attributes,
        Tier::Observed,
        observation_of(file, service, state),
    )
}

fn add_observed(
    out: &mut Vec<Resource>,
    root: &str,
    file: &str,
    text: &str,
    live: &TextMap<String>,
)
    ensures
        final(out).deep_view() == old(out).deep_view() + services(text@).map_values(
            each_observed(root@, file@, live.deep_view()),
        ),
{
    let list = compose_services(text);
    let ghost start = out.deep_view();
    let ghost f = each_observed(root@, file@, live.deep_view());
    let ghost all = list.deep_view().map_values(f);
    let mut i: usize = 0;
    while i < list.len()
        invariant
            i <= list.len(),
            f == each_observed(root@, file@, live.deep_view()),
            all == list.deep_view().map_values(f),
            out.deep_view() =~= start + all.take(i as int),
        decreases list.len() - i,
    {
        let ghost so_far = out.deep_view();
        assert(list.deep_view()[i as int] == list[i as int].deep_view());
        let name = list[i].name.as_str();
        out.push(observed_resource_of(root, file, name, live.get(name)));
        assert(out.deep_view() =~= so_far.push(all[i as int]));
        i += 1;
    }
    assert(all.take(i as int) =~= all);
}

/// What is observed of every declared service, if the domain is allowed. `live`
/// holds, by the name of the compose file, the states that the engine reported;
/// a file that it could not be asked about is not in it.
pub fn scan_observed(
    cfg: &PermissionConfig,
    root: &str,
    files: &TextMap<String>,
    live: &TextMap<TextMap<String>>,
) -> (r: Vec<Resource>)
    ensures
        r.deep_view() == (if is_domain_allowed(cfg.deep_view(), "docker"@) {
            observed_resources(root@, files.deep_view(), live.deep_view(), 4)
        } else {
            seq![]
        }),
{
    let mut out: Vec<Resource> = Vec::new();
    assert(out.deep_view() =~= seq![]);
    if !domain_allowed(cfg, "docker") {
        return out;
    }
    let ghost fv = files.deep_view();
    let ghost gv = live.deep_view();
    let names = compose_list();
    let mut k: usize = 0;
    while k < names.len()
        invariant
            k <= names.len(),
            names.len() == 4,
            compose_names().len() == 4,
            fv == files.deep_view(),
            gv == live.deep_view(),
            forall|j: int| 0 <= j < names.len() ==> (#[trigger] names[j])@ == compose_names()[j],
            out.deep_view() == observed_resources(root@, fv, gv, k as int),
        decreases names.len() - k,
    {
        let ghost so_far = out.deep_view();
        let name = names[k];
        assert(name@ == compose_names()[k as int]);
        assert(so_far + seq![] =~= so_far);
        if let Some(text) = files.get(name) {
            if let Some(st) = live.get(name) {
                add_observed(&mut out, root, name, text.as_str(), st);
            }
        }
        k += 1;
    }
    out
}

// ---------------------------------------------------------------------------
// Laws
// ---------------------------------------------------------------------------

proof fn lemma_images_are_declared(root: Seq<char>, file: Seq<char>, list: Seq<Seq<char>>)
    ensures
        image_resources(root, file, list).len() == list.len(),
        forall|i: int|
            0 <= i < list.len() ==> #[trigger] image_resources(root, file, list)[i]
                == image_resource(root, file, i as nat, list[i]),
    decreases list.len(),
{
    if list.len() > 0 {
        lemma_images_are_declared(root, file, list.drop_last());
    }
}

pub open spec fn all_of_tier(rs: Seq<ResourceView>, tier: Tier) -> bool {
    forall|i: int|
        0 <= i < rs.len() ==> (#[trigger] rs[i]).evidence.len() == 1 && rs[i].evidence[0].tier
            == tier
}

proof fn lemma_dockerfiles_are_declared(root: Seq<char>, files: Seq<(Seq<char>, Seq<char>)>)
    ensures
        all_of_tier(dockerfile_resources(root, files), Tier::Declared),
    decreases files.len(),
{
    if files.len() > 0 {
        lemma_dockerfiles_are_declared(root, files.drop_last());
        lemma_images_are_declared(root, files.last().0, images(files.last().1));
    }
}

proof fn lemma_services_are_declared(
    root: Seq<char>,
    files: Seq<(Seq<char>, Seq<char>)>,
    n: int,
)
    ensures
        all_of_tier(compose_resources(root, files, n), Tier::Declared),
    decreases n,
{
    if n > 0 && n <= compose_names().len() {
        lemma_services_are_declared(root, files, n - 1);
    }
}

/// Reading files never claims more than a declaration: what the static scan
/// reports is declared, never observed.
pub proof fn law_static_scan_only_declares(root: Seq<char>, files: Seq<(Seq<char>, Seq<char>)>)
    ensures
        all_of_tier(docker_resources(root, files), Tier::Declared),
{
    lemma_dockerfiles_are_declared(root, files);
    lemma_services_are_declared(root, files, 4);
}

proof fn lemma_observed_tier(
    root: Seq<char>,
    files: Seq<(Seq<char>, Seq<char>)>,
    live: Seq<(Seq<char>, Seq<(Seq<char>, Seq<char>)>)>,
    n: int,
)
    ensures
        all_of_tier(observed_resources(root, files, live, n), Tier::Observed),
        live.len() == 0 ==> observed_resources(root, files, live, n).len() == 0,
    decreases n,
{
    if n > 0 && n <= compose_names().len() {
        lemma_observed_tier(root, files, live, n - 1);
    }
}

/// The live scan reports observations only, and where the engine answered for
/// no file it reports nothing.
pub proof fn law_silence_over_a_guess(
    root: Seq<char>,
    files: Seq<(Seq<char>, Seq<char>)>,
    live: Seq<(Seq<char>, Seq<(Seq<char>, Seq<char>)>)>,
)
    ensures
        all_of_tier(observed_resources(root, files, live, 4), Tier::Observed),
        live.len() == 0 ==> observed_resources(root, files, live, 4).len() == 0,
{
    lemma_observed_tier(root, files, live, 4);
}

} // verus!
