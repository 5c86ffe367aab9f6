//! What goes back over the two protocols: tools, results, refusals, warnings.
use vstd::prelude::*;
use crate::mcp::{refusal, refusal_of, tool_defs, tools};
use crate::mcp::{Arg, ArgKind, ArgView, Incoming, IncomingView, Tool};
use crate::rest::{complaint, Action, ActionView};
use crate::shown::{blank, text_or_nothing, whole};
use crate::shown::{whole_tree, Page, Shown};
use crate::text::owned;
use crate::tree::{lemma_list_view, lemma_table_view, set_entry, with_entry, Tree, TreeView};

verus! {

// ---------------------------------------------------------------------------
// Tools
// ---------------------------------------------------------------------------

/// The entries that say what values an argument takes.
pub open spec fn kind_entries(k: ArgKind) -> Seq<(Seq<char>, TreeView)> {
    match k {
        ArgKind::Text => blank().push(("type"@, TreeView::Text("string"@))),
        ArgKind::Number => blank().push(("type"@, TreeView::Text("integer"@))),
        ArgKind::Flag => blank().push(("type"@, TreeView::Text("boolean"@))),
        ArgKind::TextList => blank()
            .push(("type"@, TreeView::Text("array"@)))
            .push(
                ("items"@, TreeView::Table(blank().push(("type"@, TreeView::Text("string"@))))),
            ),
    }
}

fn kind_page(k: ArgKind) -> (r: Page)
    ensures
        r@ == kind_entries(k),
{
    match k {
        ArgKind::Text => Page::new().with_text("type", "string"),
        ArgKind::Number => Page::new().with_text("type", "integer"),
        ArgKind::Flag => Page::new().with_text("type", "boolean"),
        ArgKind::TextList => Page::new().with_text("type", "array").with(
            "items",
            Page::new().with_text("type", "string").done(),
        ),
    }
}

impl Shown for Arg {
    open spec fn tree_of(v: ArgView) -> TreeView {
        let all = kind_entries(v.kind).push(("description"@, TreeView::Text(v.about)));
        TreeView::Table(
            if v.options.len() > 0 {
                all.push(("enum"@, Vec::<String>::tree_of(v.options)))
            } else {
                all
            },
        )
    }

    fn shown(&self) -> Tree {
        let all = kind_page(self.kind).with_text("description", self.about);
        assert(self.options.deep_view().len() == self.options@.len());
        if self.options.len() > 0 {
            all.with("enum", self.options.shown()).done()
        } else {
            all.done()
        }
    }
}

pub open spec fn each_property() -> spec_fn(ArgView) -> (Seq<char>, TreeView) {
    |a: ArgView| (a.name, Arg::tree_of(a))
}

fn properties(list: &Vec<Arg>) -> (r: Tree)
    ensures
        r.deep_view() == TreeView::Table(list.deep_view().map_values(each_property())),
{
    let ghost all = list.deep_view().map_values(each_property());
    let mut out: Vec<(String, Tree)> = Vec::new();
    let mut i: usize = 0;
    while i < list.len()
        invariant
            i <= list.len(),
            all == list.deep_view().map_values(each_property()),
            out.deep_view() =~= all.take(i as int),
        decreases list.len() - i,
    {
        let ghost so_far = out.deep_view();
        assert(list.deep_view()[i as int] == list[i as int].deep_view());
        out.push((owned(list[i].name), list[i].shown()));
        assert(out.deep_view() =~= so_far.push(all[i as int]));
        i += 1;
    }
    assert(all.take(i as int) =~= all);
    proof {
        lemma_table_view(out);
    }
    Tree::Table(out)
}

/// What arguments a tool takes, and which of them it cannot do without.
pub open spec fn schema_tree(t: Tool) -> TreeView {
    let all = blank()
        .push(("type"@, TreeView::Text("object"@)))
        .push(("properties"@, TreeView::Table(t.all_args().map_values(each_property()))));
    TreeView::Table(
        if t.required_names().len() > 0 {
            all.push(("required"@, Vec::<String>::tree_of(t.required_names())))
        } else {
            all
        },
    )
}

/// A tool as it is offered.
pub open spec fn each_offer() -> spec_fn(Tool) -> TreeView {
    |t: Tool|
        TreeView::Table(
            blank()
                .push(("name"@, TreeView::Text(t.name_text())))
                .push(("description"@, TreeView::Text(t.about_text())))
                .push(("inputSchema"@, schema_tree(t))),
        )
}

fn offer(t: Tool) -> (r: Tree)
    ensures
        r.deep_view() == each_offer()(t),
{
    let schema = Page::new().with_text("type", "object").with("properties", properties(&t.args()));
    let required = t.required();
    assert(required.deep_view().len() == required@.len());
    let schema = if required.len() > 0 {
        schema.with("required", required.shown())
    } else {
        schema
    };
    Page::new()
        .with_text("name", t.name())
        .with_text("description", t.about())
        .with("inputSchema", schema.done())
        .done()
}

/// All tools as they are offered.
pub fn tools_shown() -> (r: Tree)
    ensures
        r.deep_view() == TreeView::List(tools().map_values(each_offer())),
{
    let list = tool_defs();
    let ghost all = tools().map_values(each_offer());
    let mut out: Vec<Tree> = Vec::new();
    let mut i: usize = 0;
    while i < list.len()
        invariant
            i <= list.len(),
            list@ == tools(),
            all == tools().map_values(each_offer()),
            out.deep_view() =~= all.take(i as int),
        decreases list.len() - i,
    {
        let ghost so_far = out.deep_view();
        out.push(offer(list[i]));
        assert(out.deep_view() =~= so_far.push(all[i as int]));
        i += 1;
    }
    assert(all.take(i as int) =~= all);
    proof {
        lemma_list_view(out);
    }
    Tree::List(out)
}

// ---------------------------------------------------------------------------
// Replies to messages
// ---------------------------------------------------------------------------

pub open spec fn greeting(version: Seq<char>) -> TreeView {
    TreeView::Table(
        blank()
            .push(("protocolVersion"@, TreeView::Text("2024-11-05"@)))
            .push(
                (
                    "capabilities"@,
                    TreeView::Table(blank().push(("tools"@, TreeView::Table(blank())))),
                ),
            )
            .push(
                (
                    "serverInfo"@,
                    TreeView::Table(
                        blank()
                            .push(("name"@, TreeView::Text("archietect"@)))
                            .push(("version"@, TreeView::Text(version))),
                    ),
                ),
            )
            .push(
                (
                    "instructions"@,
                    TreeView::Text(
                        "Architectural memory for this machine's repositories. Call `concept` before designing anything, `intent` for feature requests, `impact` before modifying models, `guard` on any patch that creates tables. Answers are deterministic facts with tiered evidence (DECLARED/USED/NAMED) — reason on top of them; do not override them with intuition."@,
                    ),
                ),
            ),
    )
}

fn greet(version: &str) -> (r: Tree)
    ensures
        r.deep_view() == greeting(version@),
{
    let capabilities = Page::new().with("tools", Page::new().done());
    let server = Page::new().with_text("name", "archietect").with_text("version", version);
    Page::new()
        .with_text("protocolVersion", "2024-11-05")
        .with("capabilities", capabilities.done())
        .with("serverInfo", server.done())
        .with_text(
            "instructions",
            "Architectural memory for this machine's repositories. Call `concept` before designing anything, `intent` for feature requests, `impact` before modifying models, `guard` on any patch that creates tables. Answers are deterministic facts with tiered evidence (DECLARED/USED/NAMED) — reason on top of them; do not override them with intuition.",
        )
        .done()
}

/// The result of a call: the text of its answer.
pub open spec fn content(text: Seq<char>) -> TreeView {
    TreeView::Table(
        blank()
            .push(
                (
                    "content"@,
                    TreeView::List(
                        Seq::empty().push(
                            TreeView::Table(
                                blank()
                                    .push(("type"@, TreeView::Text("text"@)))
                                    .push(("text"@, TreeView::Text(text))),
                            ),
                        ),
                    ),
                ),
            )
            .push(("isError"@, TreeView::Flag(false))),
    )
}

fn content_of(text: &str) -> (r: Tree)
    ensures
        r.deep_view() == content(text@),
{
    let mut list: Vec<Tree> = Vec::new();
    list.push(Page::new().with_text("type", "text").with_text("text", text).done());
    proof {
        lemma_list_view(list);
        assert(list.deep_view() =~= Seq::empty().push(list[0].deep_view()));
    }
    Page::new().with("content", Tree::List(list)).with("isError", Tree::Flag(false)).done()
}

/// The result that a message is owed; `version` is that of the server, and
/// `text` the answer to a call.
pub open spec fn result_of(msg: IncomingView, version: Seq<char>, text: Seq<char>) -> TreeView {
    match msg {
        IncomingView::Initialize(_, _) => greeting(version),
        IncomingView::ListTools(_) => TreeView::Table(
            blank().push(("tools"@, TreeView::List(tools().map_values(each_offer())))),
        ),
        IncomingView::Call(_, _, _) => content(text),
        _ => TreeView::Table(blank()),
    }
}

fn result_for(msg: &Incoming, version: &str, text: &str) -> (r: Tree)
    ensures
        r.deep_view() == result_of(msg.deep_view(), version@, text@),
{
    match msg {
        Incoming::Initialize(_, _) => greet(version),
        Incoming::ListTools(_) => Page::new().with("tools", tools_shown()).done(),
        Incoming::Call(_, _, _) => content_of(text),
        _ => Page::new().done(),
    }
}

/// The id of a message, which its reply carries.
pub open spec fn id_of(msg: IncomingView) -> Option<TreeView> {
    match msg {
        IncomingView::Silent => None,
        IncomingView::Initialize(id, _) => Some(id),
        IncomingView::Ping(id) => Some(id),
        IncomingView::ListTools(id) => Some(id),
        IncomingView::Call(id, _, _) => Some(id),
        IncomingView::Unknown(id, _) => Some(id),
    }
}

fn id_for(msg: &Incoming) -> (r: Option<Tree>)
    ensures
        match r {
            Some(t) => id_of(msg.deep_view()) == Some(t.deep_view()),
            None => id_of(msg.deep_view()) is None,
        },
{
    match msg {
        Incoming::Silent => None,
        Incoming::Initialize(id, _) => Some(id.copy()),
        Incoming::Ping(id) => Some(id.copy()),
        Incoming::ListTools(id) => Some(id.copy()),
        Incoming::Call(id, _, _) => Some(id.copy()),
        Incoming::Unknown(id, _) => Some(id.copy()),
    }
}

/// The reply to a message: none to one that wants none, an error to one that is
/// refused, else its result.
pub open spec fn reply_tree(
    msg: IncomingView,
    root: Option<(Seq<char>, bool)>,
    version: Seq<char>,
    text: Seq<char>,
) -> Option<TreeView> {
    match id_of(msg) {
        None => None,
        Some(id) => {
            let head = blank().push(("jsonrpc"@, TreeView::Text("2.0"@))).push(("id"@, id));
            Some(
                TreeView::Table(
                    match refusal(msg, root) {
                        Some(e) => head.push(
                            (
                                "error"@,
                                TreeView::Table(
                                    blank()
                                        .push(("code"@, whole(e.0)))
                                        .push(("message"@, TreeView::Text(e.1))),
                                ),
                            ),
                        ),
                        None => head.push(("result"@, result_of(msg, version, text))),
                    },
                ),
            )
        },
    }
}

/// The reply to a message. `root` is the repository that a call is about and
/// whether it exists, `text` the answer to a call that is served.
pub fn reply(msg: &Incoming, root: Option<(&str, bool)>, version: &str, text: &str) -> (r: Option<
    Tree,
>)
    ensures
        r.deep_view() == reply_tree(
            msg.deep_view(),
            match root {
                Some(x) => Some((x.0@, x.1)),
                None => None,
            },
            version@,
            text@,
        ),
{
    let id = match id_for(msg) {
        Some(t) => t,
        None => {
            return None;
        },
    };
    let head = Page::new().with_text("jsonrpc", "2.0").with("id", id);
    match refusal_of(msg, root) {
        Some(e) => {
            let error = Page::new().with("code", whole_tree(e.0)).with_text("message", e.1.as_str());
            Some(head.with("error", error.done()).done())
        },
        None => Some(head.with("result", result_for(msg, version, text)).done()),
    }
}

/// Every message that wants a reply gets one that bears its id, and no other
/// message does.
pub proof fn law_replies_bear_the_id(
    msg: IncomingView,
    root: Option<(Seq<char>, bool)>,
    version: Seq<char>,
    text: Seq<char>,
)
    ensures
        reply_tree(msg, root, version, text) is None <==> msg is Silent,
        reply_tree(msg, root, version, text) matches Some(t) ==> t->Table_0[1] == (
            "id"@,
            id_of(msg)->Some_0,
        ),
{
}

// ---------------------------------------------------------------------------
// Replies to requests
// ---------------------------------------------------------------------------

/// The paths that are offered to one who asked for another.
pub open spec fn offered() -> Seq<Seq<char>> {
    Seq::empty()
        .push("/concept"@)
        .push("/intent"@)
        .push("/impact"@)
        .push("/imports"@)
        .push("/owner"@)
        .push("/guard"@)
        .push("/plan"@)
        .push("/status"@)
        .push("/doctor"@)
        .push("/tour"@)
        .push("/duplicates"@)
        .push("/history"@)
        .push("/ci"@)
        .push("/laws"@)
        .push("/permissions"@)
        .push("/permissions/check"@)
        .push("/register"@)
        .push("/system/list"@)
        .push("/system/query"@)
        .push("/system/status"@)
        .push("/system/register"@)
        .push("/documents/scan"@)
        .push("/photos/scan"@)
        .push("/docker/observe"@)
        .push("/proposal/submit"@)
        .push("/proposal/list"@)
        .push("/proposal/inspect"@)
        .push("/proposal/test"@)
        .push("/proposal/accept"@)
        .push("/proposal/reject"@)
}

fn offered_paths() -> (r: Vec<String>)
    ensures
        r.deep_view() == offered(),
{
    let mut out: Vec<String> = Vec::new();
    out.push(owned("/concept"));
    out.push(owned("/intent"));
    out.push(owned("/impact"));
    out.push(owned("/imports"));
    out.push(owned("/owner"));
    out.push(owned("/guard"));
    out.push(owned("/plan"));
    out.push(owned("/status"));
    out.push(owned("/doctor"));
    out.push(owned("/tour"));
    out.push(owned("/duplicates"));
    out.push(owned("/history"));
    out.push(owned("/ci"));
    out.push(owned("/laws"));
    out.push(owned("/permissions"));
    out.push(owned("/permissions/check"));
    out.push(owned("/register"));
    out.push(owned("/system/list"));
    out.push(owned("/system/query"));
    out.push(owned("/system/status"));
    out.push(owned("/system/register"));
    out.push(owned("/documents/scan"));
    out.push(owned("/photos/scan"));
    out.push(owned("/docker/observe"));
    out.push(owned("/proposal/submit"));
    out.push(owned("/proposal/list"));
    out.push(owned("/proposal/inspect"));
    out.push(owned("/proposal/test"));
    out.push(owned("/proposal/accept"));
    out.push(owned("/proposal/reject"));
    assert(out.deep_view() =~= offered());
    out
}

/// What a request is told that is not served.
pub open spec fn complaint_tree(a: ActionView) -> TreeView {
    let all = blank().push(("error"@, text_or_nothing(complaint(a))));
    TreeView::Table(
        match a {
            ActionView::UnknownEndpoint(_) => all.push(
                ("endpoints"@, Vec::<String>::tree_of(offered())),
            ),
            _ => all,
        },
    )
}

/// Shows why a request is not served.
pub fn complaint_shown(a: &Action) -> (r: Tree)
    ensures
        r.deep_view() == complaint_tree(a.deep_view()),
{
    let all = Page::new().with("error", a.error().shown());
    match a {
        Action::UnknownEndpoint(_) => all.with("endpoints", offered_paths().shown()).done(),
        _ => all.done(),
    }
}

/// An answer of a server that is older than its own program: a table says so,
/// anything else stays.
pub open spec fn warned_tree(body: TreeView, warning: Seq<char>) -> TreeView {
    match body {
        TreeView::Table(entries) => TreeView::Table(
            set_entry(entries, "_stale_binary_warning"@, TreeView::Text(warning)),
        ),
        _ => body,
    }
}

/// Adds to an answer that the server is older than its own program.
pub fn warned(body: Tree, warning: &str) -> (r: Tree)
    ensures
        r.deep_view() == warned_tree(body.deep_view(), warning@),
{
    match body {
        Tree::Table(entries) => {
            proof {
                lemma_table_view(entries);
            }
            let all = with_entry(entries, "_stale_binary_warning", Tree::Text(owned(warning)));
            proof {
                lemma_table_view(all);
            }
            Tree::Table(all)
        },
        other => other,
    }
}

} // verus!
