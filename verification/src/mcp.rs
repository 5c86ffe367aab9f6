//! The tool interface for coding assistants: what is offered, what a message
//! asks for, and what is told of who called.
use vstd::prelude::*;
use crate::numbers::{signed, signed_value};
use crate::outside::{json_tree, parse_json};
use crate::shape::{keys_in, parse_only};
use crate::table::{insert_once, insert_text, lookup, put, TextMap};
use crate::text::decimal_int;
use crate::text::{chars_of, copied, cut, listed, owned, same, signed_number};
use crate::tree::{each_text, field, lemma_list_view, text, text_field, Tree, TreeView};

verus! {

// ---------------------------------------------------------------------------
// Tools
// ---------------------------------------------------------------------------

/// A tool that a client may call.
#[derive(Clone, Copy, Debug, PartialEq, Eq, Structural)]
pub enum Tool {
    Concept,
    Intent,
    Impact,
    Imports,
    Guard,
    Plan,
    Owner,
    Duplicates,
    DuplicateLogic,
    Verdicts,
    VerifyEdit,
    Claim,
    Status,
    Doctor,
    Tour,
    History,
    Ci,
    ProposalSubmit,
    ProposalList,
    ProposalInspect,
    ProposalTest,
    ProposalAccept,
    ProposalReject,
    Register,
    Permissions,
    PermissionsCheck,
    SystemList,
    SystemQuery,
    SystemStatus,
    SystemRegister,
    DocumentsScan,
    PhotosScan,
    MessagesScan,
    DockerObserve,
}

pub const ABOUT_CONCEPT: &'static str =
    "ARCHITECTURAL MEMORY — call BEFORE designing or building anything. Answers: does this concept already exist in the repository, which implementation is canonical, and what is the evidence (tiered DECLARED / USED / NAMED — never invented). Verdicts: ACTIVE (extend it, do not rebuild), DECLARED_ONLY (declared but unused — confirm before extending), UNKNOWN (name resemblance only — needs human confirmation), ABSENT (building is justified).";

pub const ABOUT_INTENT: &'static str =
    "From a stated goal ('add session tracking') to the smallest correct change: which concepts already exist (EXTEND, with their canonical implementations), which are genuinely new (CREATE), and which need human confirmation. Call FIRST for any feature request.";

pub const ABOUT_IMPACT: &'static str =
    "CALL THIS before refactoring, renaming, or deleting any core symbol, function, or model. Traces the AST import graph and call edges to depth 3. Returns every downstream file, background service, and test that will break. You MUST include all listed dependents in your change plan — a change that touches the concept without updating its dependents is incomplete.";

pub const ABOUT_IMPORTS: &'static str =
    "What does this exact file import, and what imports it — but ONLY exact, unambiguous relative-import resolutions (e.g. './services/foo' resolving to a real scanned file). An external package import or an import that matched more than one scanned file is correctly reported as nothing, never a guess. Not folded into `status` — a full import graph is too large to return on every call; ask about one file at a time.";

pub const ABOUT_GUARD: &'static str =
    "THE LAW. Check a patch or SQL snippet for CREATE TABLE statements that would duplicate an existing concept. Returns allowed:false with the canonical implementation named when a proposed table collides. Run on any patch that creates storage, BEFORE applying it.";

pub const ABOUT_PLAN: &'static str =
    "ONE-CALL architectural plan for an intent ('add fraud scoring'): canonical concepts to extend with their locations, owners, governing decisions, impact severity and affected files — the composition of concept/owner/impact/decisions an agent would otherwise need five calls for. Call FIRST for any feature request; then guard the final patch.";

pub const ABOUT_OWNER: &'static str =
    "Who owns a concept: the directory holding its declarations (maintaining the contract is ownership; calling it is only interest), with ranked directories by declaration+usage weight.";

pub const ABOUT_DUPLICATES: &'static str =
    "CALL THIS when planning a new domain feature or adding a new concept. Scans the codebase for concepts that share name tokens or schemas. If a pair is returned, investigate before building — the territory may already be claimed under a different name.";

pub const ABOUT_DUPLICATE_LOGIC: &'static str =
    "Suspected duplicate BUSINESS LOGIC: two top-level functions in DIFFERENT files (often different languages), sharing no name worth acting on and no import/call edge, that independently encode the same rule — evidenced by sharing several literal string values (status names, error messages) inside their bodies. Different question from `duplicates` (concept-NAME overlap): this finds behavior reimplemented under a completely unrelated name, e.g. a server's validation logic quietly drifting from a client's copy of the same rule. Evidence of risk, not proof.";

pub const ABOUT_VERDICTS: &'static str =
    "Every declared concept bucketed by verdict — ACTIVE (declared and observably used) vs DECLARED_ONLY (declared, never observed in use) — with counts, instead of querying one concept name at a time. UNKNOWN and ABSENT are deliberately not listable here: those describe a search TERM's outcome, not a property a declared concept holds on its own.";

pub const ABOUT_VERIFY_EDIT: &'static str =
    "Pre-write AST validation gate — validates proposed file content IN MEMORY before it touches disk. Pass the FULL proposed content of the file (after your edit has been applied in memory). Returns valid:true/false with exact error messages. CALL THIS before any fs_write or file-patching operation on a source file. Catches in <5ms what cargo build finds in 75s: Rust syntax errors (unterminated literals, mismatched braces via syn) and duplicate top-level symbol declarations in any supported language (the exact failure a blind str_replace produces when the old version is not removed before the new one is inserted). Exit: valid:true = safe to write; valid:false with errors = fix before writing.";

pub const ABOUT_CLAIM: &'static str =
    "CALL THIS to verify architectural assumptions before executing changes. Tests whether a concept is genuinely absent (--type absence), actively adopted (--type usage-threshold), or strictly bounded to a directory (--type isolation). If it returns REFUTED, adjust your implementation plan to respect the violation list — do NOT proceed as if the claim were true.";

pub const ABOUT_STATUS: &'static str =
    "What the architectural index knows about this repository: declaration files found, concepts declared, concepts observably in use, concepts declared but never observed in use, and structural_coverage (which languages/frameworks in THIS repo Archietect can actually see) — with an honest note about what the scan cannot see.";

pub const ABOUT_DOCTOR: &'static str =
    "Repository summary for someone who just cloned it: domains, top concepts, recent architectural changes, decisions to read, and structural coverage. The onboarding view.";

pub const ABOUT_TOUR: &'static str =
    "Onboarding tour: important concepts, ignorable ones, and the mistakes the ontology already knows people will make (every declared alias and every rejected decision is a 'don't build X' waiting to happen) — zero generated prose.";

pub const ABOUT_HISTORY: &'static str =
    "The architectural timeline: what changed, when, and what the engine said about it — Git knows files changed; this knows ARCHITECTURE changed. Append-only, written by the daemon, `archietect ci`, or an MCP client (mcp_client_connected on first tool call, mcp_client_active as a roughly-60s heartbeat thereafter — together, which AI used this project, when, and whether it is still active). Pass digest=true for a narrative-quality summary of the window (grouped, phrased sentences — still fully deterministic, generated from the same events, never an LLM) instead of the raw event list.";

pub const ABOUT_CI: &'static str =
    "CI gate: check a diff/patch text for CREATE TABLE statements that duplicate an existing concept. Read-only — unlike `archietect ci` on the command line, this tool call does NOT record the outcome to history (recording happens only at the actual commit-time call site).";

pub const ABOUT_PROPOSAL_SUBMIT: &'static str =
    "AI-EXTENSION PROTOCOL, step 1 of 3. Register a new proposal (a unified diff) as pending — writes only under .archietect/proposals/, never touches the real working tree. An extractor proposal may only touch src/structural.rs, tests/fixtures/**, validation/**; a decision/alias proposal may only touch archietect.toml. Call `proposal_test` next.";

pub const ABOUT_PROPOSAL_LIST: &'static str =
    "AI-EXTENSION PROTOCOL. List all proposals and their status (pending/passed/failed/accepted/rejected).";

pub const ABOUT_PROPOSAL_INSPECT: &'static str =
    "AI-EXTENSION PROTOCOL. Show one proposal's metadata, patch text, and last test result.";

pub const ABOUT_PROPOSAL_TEST: &'static str =
    "AI-EXTENSION PROTOCOL, step 2 of 3. Apply the patch in an ISOLATED git worktree and run the real regression suite against it (laws + invariants for an extractor; invariants::check for a decision/alias). Never touches the real working tree or archietect.db. This is the only thing that can turn a proposal 'passed' — nothing here writes a fact.";

pub const ABOUT_PROPOSAL_ACCEPT: &'static str =
    "AI-EXTENSION PROTOCOL, step 3 of 3 — HUMAN-GATED. Applies a proposal to the REAL working tree, UNCOMMITTED, but only if: status is 'passed', the patch is byte-identical to what was tested, and the repository HEAD has not moved since. Never runs `git commit`. Prefer running this from the CLI yourself rather than calling it as a tool — accepting your own AI's proposal without a human actually looking at the diff first defeats the point of this gate.";

pub const ABOUT_PROPOSAL_REJECT: &'static str =
    "AI-EXTENSION PROTOCOL. Mark a proposal rejected (kept for audit trail unless purge is set).";

pub const ABOUT_REGISTER: &'static str =
    "THE MAP OF THE BAG — call this before trusting any ABSENT. What this memory knows about the repository (counts, enabled domains), what it does NOT know and WHY (`not_known`: unsupported languages with the exact files, disabled or unconfirmed domains, evidence tiers no extractor can produce — e.g. whether a git remote is reachable or ahead/behind — and declared concepts never observed in use), each with how to establish the fact without archietect, plus the permission boundary including whether a human actually confirmed each unstructured domain. Distinguishes 'X does not exist' from 'X cannot be established here'. Pass since_last=true to also get `since_last_session`: what changed since the last time THIS was called with since_last=true for this project (concept/domain/not_known deltas) — then this call's snapshot becomes the new baseline for the next one.";

pub const ABOUT_PERMISSIONS: &'static str =
    "Inspect the resolved domain permission state for this repository: which domains (code, git, docker, systemd, photos, messages, documents, browser) are enabled and WHERE that decision came from (project config / global config / default), plus the hardcoded denial list (.ssh, .aws, credential files, browser profiles, ...) nothing can ever override.";

pub const ABOUT_PERMISSIONS_CHECK: &'static str =
    "Check ONE path against the permission boundary and get a reason, allowed or not — hardcoded denials (.ssh, .aws, credential/secret filenames, browser profiles) are checked first and are never overridable by any config. This is the call a pre-tool-use hook makes before letting a Read/Edit/Write land.";

pub const ABOUT_SYSTEM_LIST: &'static str =
    "SYSTEM MEMORY. List every project registered in the machine-wide pointer registry (~/.archietect/system.db) — root path, display name, and when it was first/last registered. Stores pointers only, never any project's actual architectural facts.";

pub const ABOUT_SYSTEM_QUERY: &'static str =
    "SYSTEM MEMORY. \"Which of my registered projects has X?\" — fans out a concept lookup live, read-only, over every registered project's OWN archietect.db (never cached into system.db). A registered project with no archietect.db yet (moved, deleted, or never `init`'d) is reported honestly rather than skipped.";

pub const ABOUT_SYSTEM_STATUS: &'static str =
    "SYSTEM MEMORY. \"What do I have?\" — fans out a full status summary (counts, git, docker, same_project_as) live, read-only, over every registered project's OWN archietect.db (never cached into system.db). A registered project with no archietect.db yet (moved, deleted, or never `init`'d) is reported honestly rather than skipped.";

pub const ABOUT_SYSTEM_REGISTER: &'static str =
    "SYSTEM MEMORY. Register this repository (the resolved root) in the machine-wide pointer registry (~/.archietect/system.db). Safe to re-run: updates last-seen, never duplicates the entry or resets when it was first registered. Writes only a root path, name, and timestamps — never any architectural fact.";

pub const ABOUT_DOCUMENTS_SCAN: &'static str =
    "FIRST UNSTRUCTURED DOMAIN. Scan one explicit directory for document files (.pdf/.docx/.txt/.md/.odt), non-recursive — filename/extension/size/modified-time only, content never read. Requires the 'documents' domain to already be explicitly enabled via [domains.documents] in archietect.toml or ~/.archietect/system.toml for this repository: over MCP this tool can never prompt for the one-time confirmation the CLI (`archietect documents scan`) can, so an unconfigured repository always reports enabled:false here rather than hanging or guessing consent.";

pub const ABOUT_PHOTOS_SCAN: &'static str =
    "SECOND UNSTRUCTURED DOMAIN. Scan one explicit directory for photo files (.jpg/.jpeg/.png/.gif/.heic/.webp), non-recursive — filename/extension/size/modified-time only, content never read. Same confirmation-gated contract as documents_scan: requires 'photos' to already be explicitly enabled via [domains.photos], since this tool can never prompt for the one-time confirmation over MCP.";

pub const ABOUT_MESSAGES_SCAN: &'static str =
    "THIRD UNSTRUCTURED DOMAIN. No `dir` argument — unlike documents_scan/photos_scan, this checks a small set of well-known local message-store locations (macOS iMessage, Signal/WhatsApp/Slack/Discord) under this machine's home directory. Existence and top-level metadata only: a single-file store (iMessage's chat.db) reports size/mtime, a directory-based store reports only the directory's OWN mtime, never its contents — nothing is ever opened or queried. Same confirmation-gated contract as documents_scan/photos_scan: requires 'messages' to already be explicitly enabled via [domains.messages], since this tool can never prompt for the one-time confirmation over MCP.";

pub const ABOUT_DOCKER_OBSERVE: &'static str =
    "LIVE container state — the one tool in this server that shells out (to `docker compose ps --format json --all`), unlike every other tool here which only reads what's already indexed. For each root-level compose file, reports each DECLARED service's real, current state right now: running, or observed NOT running. Requires 'docker' to already be enabled via [domains.docker], same gate the declarative docker scan uses. Silent (no resources) for a compose file the command can't be run against — missing `docker`, unreachable daemon, timeout — never a guessed or stale state.";

/// What kind of value an argument takes.
#[derive(Clone, Copy, Debug, PartialEq, Eq, Structural)]
pub enum ArgKind {
    Text,
    Number,
    Flag,
    TextList,
}

/// An argument of a tool.
#[derive(Debug)]
pub struct Arg {
    pub name: &'static str,
    pub kind: ArgKind,
    pub about: &'static str,
    /// The only texts that it may be, where there are such.
    pub options: Vec<String>,
}

pub struct ArgView {
    pub name: Seq<char>,
    pub kind: ArgKind,
    pub about: Seq<char>,
    pub options: Seq<Seq<char>>,
}

impl DeepView for Arg {
    type V = ArgView;

    open spec fn deep_view(&self) -> ArgView {
        ArgView {
            name: self.name@,
            kind: self.kind,
            about: self.about@,
            options: self.options.deep_view(),
        }
    }
}

pub open spec fn arg_of(name: Seq<char>, kind: ArgKind, about: Seq<char>) -> ArgView {
    ArgView { name, kind, about, options: seq![] }
}

pub open spec fn root_arg() -> ArgView {
    arg_of(
        "root"@,
        ArgKind::Text,
        "Repository root to answer about. Optional if the server was started with --root."@,
    )
}

pub open spec fn only_arg() -> ArgView {
    arg_of(
        "only"@,
        ArgKind::TextList,
        "Return only these top-level keys of the result (e.g. [\"git\"] on `status`). Saves tokens when you need one slice of a large answer."@,
    )
}

pub open spec fn compact_arg() -> ArgView {
    arg_of(
        "compact"@,
        ArgKind::Flag,
        "Drop explanatory prose fields (`note`, `evidence_note`) from the result. Evidence, tiers, files and lines are all kept."@,
    )
}

impl Tool {
    pub open spec fn name_text(self) -> Seq<char> {
        match self {
            Tool::Concept => "concept"@,
            Tool::Intent => "intent"@,
            Tool::Impact => "impact"@,
            Tool::Imports => "imports"@,
            Tool::Guard => "guard"@,
            Tool::Plan => "plan"@,
            Tool::Owner => "owner"@,
            Tool::Duplicates => "duplicates"@,
            Tool::DuplicateLogic => "duplicate_logic"@,
            Tool::Verdicts => "verdicts"@,
            Tool::VerifyEdit => "verify_edit"@,
            Tool::Claim => "claim"@,
            Tool::Status => "status"@,
            Tool::Doctor => "doctor"@,
            Tool::Tour => "tour"@,
            Tool::History => "history"@,
            Tool::Ci => "ci"@,
            Tool::ProposalSubmit => "proposal_submit"@,
            Tool::ProposalList => "proposal_list"@,
            Tool::ProposalInspect => "proposal_inspect"@,
            Tool::ProposalTest => "proposal_test"@,
            Tool::ProposalAccept => "proposal_accept"@,
            Tool::ProposalReject => "proposal_reject"@,
            Tool::Register => "register"@,
            Tool::Permissions => "permissions"@,
            Tool::PermissionsCheck => "permissions_check"@,
            Tool::SystemList => "system_list"@,
            Tool::SystemQuery => "system_query"@,
            Tool::SystemStatus => "system_status"@,
            Tool::SystemRegister => "system_register"@,
            Tool::DocumentsScan => "documents_scan"@,
            Tool::PhotosScan => "photos_scan"@,
            Tool::MessagesScan => "messages_scan"@,
            Tool::DockerObserve => "docker_observe"@,
        }
    }

    pub open spec fn about_text(self) -> Seq<char> {
        match self {
            Tool::Concept => ABOUT_CONCEPT@,
            Tool::Intent => ABOUT_INTENT@,
            Tool::Impact => ABOUT_IMPACT@,
            Tool::Imports => ABOUT_IMPORTS@,
            Tool::Guard => ABOUT_GUARD@,
            Tool::Plan => ABOUT_PLAN@,
            Tool::Owner => ABOUT_OWNER@,
            Tool::Duplicates => ABOUT_DUPLICATES@,
            Tool::DuplicateLogic => ABOUT_DUPLICATE_LOGIC@,
            Tool::Verdicts => ABOUT_VERDICTS@,
            Tool::VerifyEdit => ABOUT_VERIFY_EDIT@,
            Tool::Claim => ABOUT_CLAIM@,
            Tool::Status => ABOUT_STATUS@,
            Tool::Doctor => ABOUT_DOCTOR@,
            Tool::Tour => ABOUT_TOUR@,
            Tool::History => ABOUT_HISTORY@,
            Tool::Ci => ABOUT_CI@,
            Tool::ProposalSubmit => ABOUT_PROPOSAL_SUBMIT@,
            Tool::ProposalList => ABOUT_PROPOSAL_LIST@,
            Tool::ProposalInspect => ABOUT_PROPOSAL_INSPECT@,
            Tool::ProposalTest => ABOUT_PROPOSAL_TEST@,
            Tool::ProposalAccept => ABOUT_PROPOSAL_ACCEPT@,
            Tool::ProposalReject => ABOUT_PROPOSAL_REJECT@,
            Tool::Register => ABOUT_REGISTER@,
            Tool::Permissions => ABOUT_PERMISSIONS@,
            Tool::PermissionsCheck => ABOUT_PERMISSIONS_CHECK@,
            Tool::SystemList => ABOUT_SYSTEM_LIST@,
            Tool::SystemQuery => ABOUT_SYSTEM_QUERY@,
            Tool::SystemStatus => ABOUT_SYSTEM_STATUS@,
            Tool::SystemRegister => ABOUT_SYSTEM_REGISTER@,
            Tool::DocumentsScan => ABOUT_DOCUMENTS_SCAN@,
            Tool::PhotosScan => ABOUT_PHOTOS_SCAN@,
            Tool::MessagesScan => ABOUT_MESSAGES_SCAN@,
            Tool::DockerObserve => ABOUT_DOCKER_OBSERVE@,
        }
    }

    /// The arguments that a tool has of its own.
    pub open spec fn own_args(self) -> Seq<ArgView> {
        match self {
            Tool::Concept => seq![
                arg_of("term"@, ArgKind::Text, "The concept in plain language, e.g. 'episode', 'notification', 'payment'."@),
            ],
            Tool::Intent => seq![
                arg_of("text"@, ArgKind::Text, "The goal in plain language."@),
            ],
            Tool::Impact => seq![
                arg_of("term"@, ArgKind::Text, ""@),
            ],
            Tool::Imports => seq![
                arg_of("file"@, ArgKind::Text, "Repository-relative path, e.g. src/services/foo.ts"@),
            ],
            Tool::Guard => seq![
                arg_of("sql"@, ArgKind::Text, "The patch or SQL text to check."@),
            ],
            Tool::Plan => seq![
                arg_of("text"@, ArgKind::Text, "The goal in plain language."@),
            ],
            Tool::Owner => seq![
                arg_of("term"@, ArgKind::Text, ""@),
            ],
            Tool::VerifyEdit => seq![
                arg_of("file"@, ArgKind::Text, "Repository-relative path of the file being edited, e.g. src/structural.rs. Used to select the right extractor."@),
                arg_of("content"@, ArgKind::Text, "The FULL proposed file content after your edit has been applied in memory. Not a diff — the complete new file text."@),
            ],
            Tool::Claim => seq![
                arg_of("statement"@, ArgKind::Text, "Free-form claim, e.g. 'RefundService does not exist' or 'User is used in more than 5 files'."@),
                ArgView {
                    name: "type"@,
                    kind: ArgKind::Text,
                    about: "Structured claim type. Takes precedence over statement."@,
                    options: seq!["absence"@, "usage-threshold"@, "isolation"@],
                },
                arg_of("target"@, ArgKind::Text, "Concept name for structured claims."@),
                arg_of("min"@, ArgKind::Number, "Minimum usage count for usage-threshold claims."@),
                arg_of("within"@, ArgKind::Text, "Directory prefix for isolation claims, e.g. 'ghost-engine'."@),
            ],
            Tool::History => seq![
                arg_of("concept"@, ArgKind::Text, "Optional — filter to events touching this concept. Ignored if digest=true."@),
                arg_of("limit"@, ArgKind::Number, "Max events to return, or events considered for the digest (default 50)."@),
                arg_of("digest"@, ArgKind::Flag, "Return a narrative summary instead of the raw event list."@),
            ],
            Tool::Ci => seq![
                arg_of("diff"@, ArgKind::Text, "The diff or patch text to check."@),
                arg_of("strict"@, ArgKind::Flag, "Also fail on name-collision warnings, not only storage violations."@),
            ],
            Tool::ProposalSubmit => seq![
                ArgView {
                    name: "kind"@,
                    kind: ArgKind::Text,
                    about: ""@,
                    options: seq!["extractor"@, "decision"@, "alias"@],
                },
                arg_of("title"@, ArgKind::Text, ""@),
                arg_of("description"@, ArgKind::Text, ""@),
                arg_of("lang"@, ArgKind::Text, "Language name, for an extractor proposal."@),
                arg_of("preview_repo"@, ArgKind::Text, "A real repo (path) to preview an extractor against — informational only."@),
                arg_of("patch"@, ArgKind::Text, "The unified diff (git diff format) text."@),
            ],
            Tool::ProposalInspect => seq![
                arg_of("id"@, ArgKind::Number, ""@),
            ],
            Tool::ProposalTest => seq![
                arg_of("id"@, ArgKind::Number, ""@),
            ],
            Tool::ProposalAccept => seq![
                arg_of("id"@, ArgKind::Number, ""@),
            ],
            Tool::ProposalReject => seq![
                arg_of("id"@, ArgKind::Number, ""@),
                arg_of("purge"@, ArgKind::Flag, "Delete the proposal's files instead of just marking it rejected."@),
            ],
            Tool::Register => seq![
                arg_of("since_last"@, ArgKind::Flag, "Diff against and then overwrite this project's tracked register snapshot."@),
            ],
            Tool::PermissionsCheck => seq![
                arg_of("path"@, ArgKind::Text, "Path to check (absolute, or relative to root)."@),
                arg_of("domain"@, ArgKind::Text, "Domain this path is being accessed under. Defaults to \"code\"."@),
            ],
            Tool::SystemQuery => seq![
                arg_of("term"@, ArgKind::Text, "The concept in plain language, checked against every registered project."@),
            ],
            Tool::DocumentsScan => seq![
                arg_of("dir"@, ArgKind::Text, "Absolute path to the directory to scan."@),
            ],
            Tool::PhotosScan => seq![
                arg_of("dir"@, ArgKind::Text, "Absolute path to the directory to scan."@),
            ],
            _ => seq![],
        }
    }

    /// The arguments without which a tool cannot be called.
    pub open spec fn required_names(self) -> Seq<Seq<char>> {
        match self {
            Tool::Concept => seq!["term"@],
            Tool::Intent => seq!["text"@],
            Tool::Impact => seq!["term"@],
            Tool::Imports => seq!["file"@],
            Tool::Guard => seq!["sql"@],
            Tool::Plan => seq!["text"@],
            Tool::Owner => seq!["term"@],
            Tool::VerifyEdit => seq!["file"@, "content"@],
            Tool::Ci => seq!["diff"@],
            Tool::ProposalSubmit => seq!["kind"@, "title"@, "patch"@],
            Tool::ProposalInspect => seq!["id"@],
            Tool::ProposalTest => seq!["id"@],
            Tool::ProposalAccept => seq!["id"@],
            Tool::ProposalReject => seq!["id"@],
            Tool::PermissionsCheck => seq!["path"@],
            Tool::SystemQuery => seq!["term"@],
            Tool::DocumentsScan => seq!["dir"@],
            Tool::PhotosScan => seq!["dir"@],
            _ => seq![],
        }
    }

    /// All arguments of a tool: its own, the repository, and how the answer is to
    /// be shaped.
    pub open spec fn all_args(self) -> Seq<ArgView> {
        self.own_args() + (if self == Tool::VerifyEdit {
            seq![]
        } else {
            seq![root_arg()]
        }) + seq![only_arg(), compact_arg()]
    }

    pub fn name(&self) -> (r: &'static str)
        ensures
            r@ == self.name_text(),
    {
        match self {
            Tool::Concept => "concept",
            Tool::Intent => "intent",
            Tool::Impact => "impact",
            Tool::Imports => "imports",
            Tool::Guard => "guard",
            Tool::Plan => "plan",
            Tool::Owner => "owner",
            Tool::Duplicates => "duplicates",
            Tool::DuplicateLogic => "duplicate_logic",
            Tool::Verdicts => "verdicts",
            Tool::VerifyEdit => "verify_edit",
            Tool::Claim => "claim",
            Tool::Status => "status",
            Tool::Doctor => "doctor",
            Tool::Tour => "tour",
            Tool::History => "history",
            Tool::Ci => "ci",
            Tool::ProposalSubmit => "proposal_submit",
            Tool::ProposalList => "proposal_list",
            Tool::ProposalInspect => "proposal_inspect",
            Tool::ProposalTest => "proposal_test",
            Tool::ProposalAccept => "proposal_accept",
            Tool::ProposalReject => "proposal_reject",
            Tool::Register => "register",
            Tool::Permissions => "permissions",
            Tool::PermissionsCheck => "permissions_check",
            Tool::SystemList => "system_list",
            Tool::SystemQuery => "system_query",
            Tool::SystemStatus => "system_status",
            Tool::SystemRegister => "system_register",
            Tool::DocumentsScan => "documents_scan",
            Tool::PhotosScan => "photos_scan",
            Tool::MessagesScan => "messages_scan",
            Tool::DockerObserve => "docker_observe",
        }
    }

    pub fn about(&self) -> (r: &'static str)
        ensures
            r@ == self.about_text(),
    {
        match self {
            Tool::Concept => ABOUT_CONCEPT,
            Tool::Intent => ABOUT_INTENT,
            Tool::Impact => ABOUT_IMPACT,
            Tool::Imports => ABOUT_IMPORTS,
            Tool::Guard => ABOUT_GUARD,
            Tool::Plan => ABOUT_PLAN,
            Tool::Owner => ABOUT_OWNER,
            Tool::Duplicates => ABOUT_DUPLICATES,
            Tool::DuplicateLogic => ABOUT_DUPLICATE_LOGIC,
            Tool::Verdicts => ABOUT_VERDICTS,
            Tool::VerifyEdit => ABOUT_VERIFY_EDIT,
            Tool::Claim => ABOUT_CLAIM,
            Tool::Status => ABOUT_STATUS,
            Tool::Doctor => ABOUT_DOCTOR,
            Tool::Tour => ABOUT_TOUR,
            Tool::History => ABOUT_HISTORY,
            Tool::Ci => ABOUT_CI,
            Tool::ProposalSubmit => ABOUT_PROPOSAL_SUBMIT,
            Tool::ProposalList => ABOUT_PROPOSAL_LIST,
            Tool::ProposalInspect => ABOUT_PROPOSAL_INSPECT,
            Tool::ProposalTest => ABOUT_PROPOSAL_TEST,
            Tool::ProposalAccept => ABOUT_PROPOSAL_ACCEPT,
            Tool::ProposalReject => ABOUT_PROPOSAL_REJECT,
            Tool::Register => ABOUT_REGISTER,
            Tool::Permissions => ABOUT_PERMISSIONS,
            Tool::PermissionsCheck => ABOUT_PERMISSIONS_CHECK,
            Tool::SystemList => ABOUT_SYSTEM_LIST,
            Tool::SystemQuery => ABOUT_SYSTEM_QUERY,
            Tool::SystemStatus => ABOUT_SYSTEM_STATUS,
            Tool::SystemRegister => ABOUT_SYSTEM_REGISTER,
            Tool::DocumentsScan => ABOUT_DOCUMENTS_SCAN,
            Tool::PhotosScan => ABOUT_PHOTOS_SCAN,
            Tool::MessagesScan => ABOUT_MESSAGES_SCAN,
            Tool::DockerObserve => ABOUT_DOCKER_OBSERVE,
        }
    }

    fn add_own(self, out: &mut Vec<Arg>)
        requires
            old(out)@.len() == 0,
        ensures
            final(out).deep_view() == self.own_args(),
    {
        match self {
            Tool::Concept => {
                out.push(arg("term", ArgKind::Text, "The concept in plain language, e.g. 'episode', 'notification', 'payment'."));
            },
            Tool::Intent => {
                out.push(arg("text", ArgKind::Text, "The goal in plain language."));
            },
            Tool::Impact => {
                out.push(arg("term", ArgKind::Text, ""));
            },
            Tool::Imports => {
                out.push(arg("file", ArgKind::Text, "Repository-relative path, e.g. src/services/foo.ts"));
            },
            Tool::Guard => {
                out.push(arg("sql", ArgKind::Text, "The patch or SQL text to check."));
            },
            Tool::Plan => {
                out.push(arg("text", ArgKind::Text, "The goal in plain language."));
            },
            Tool::Owner => {
                out.push(arg("term", ArgKind::Text, ""));
            },
            Tool::VerifyEdit => {
                out.push(arg("file", ArgKind::Text, "Repository-relative path of the file being edited, e.g. src/structural.rs. Used to select the right extractor."));
                out.push(arg("content", ArgKind::Text, "The FULL proposed file content after your edit has been applied in memory. Not a diff — the complete new file text."));
            },
            Tool::Claim => {
                out.push(arg("statement", ArgKind::Text, "Free-form claim, e.g. 'RefundService does not exist' or 'User is used in more than 5 files'."));
                let mut options: Vec<String> = Vec::new();
                options.push(owned("absence"));
                options.push(owned("usage-threshold"));
                options.push(owned("isolation"));
                assert(options.deep_view() =~= seq!["absence"@, "usage-threshold"@, "isolation"@]);
                out.push(
                    Arg {
                        name: "type",
                        kind: ArgKind::Text,
                        about: "Structured claim type. Takes precedence over statement.",
                        options,
                    },
                );
                out.push(arg("target", ArgKind::Text, "Concept name for structured claims."));
                out.push(arg("min", ArgKind::Number, "Minimum usage count for usage-threshold claims."));
                out.push(arg("within", ArgKind::Text, "Directory prefix for isolation claims, e.g. 'ghost-engine'."));
            },
            Tool::History => {
                out.push(arg("concept", ArgKind::Text, "Optional — filter to events touching this concept. Ignored if digest=true."));
                out.push(arg("limit", ArgKind::Number, "Max events to return, or events considered for the digest (default 50)."));
                out.push(arg("digest", ArgKind::Flag, "Return a narrative summary instead of the raw event list."));
            },
            Tool::Ci => {
                out.push(arg("diff", ArgKind::Text, "The diff or patch text to check."));
                out.push(arg("strict", ArgKind::Flag, "Also fail on name-collision warnings, not only storage violations."));
            },
            Tool::ProposalSubmit => {
                let mut options: Vec<String> = Vec::new();
                options.push(owned("extractor"));
                options.push(owned("decision"));
                options.push(owned("alias"));
                assert(options.deep_view() =~= seq!["extractor"@, "decision"@, "alias"@]);
                out.push(
                    Arg {
                        name: "kind",
                        kind: ArgKind::Text,
                        about: "",
                        options,
                    },
                );
                out.push(arg("title", ArgKind::Text, ""));
                out.push(arg("description", ArgKind::Text, ""));
                out.push(arg("lang", ArgKind::Text, "Language name, for an extractor proposal."));
                out.push(arg("preview_repo", ArgKind::Text, "A real repo (path) to preview an extractor against — informational only."));
                out.push(arg("patch", ArgKind::Text, "The unified diff (git diff format) text."));
            },
            Tool::ProposalInspect => {
                out.push(arg("id", ArgKind::Number, ""));
            },
            Tool::ProposalTest => {
                out.push(arg("id", ArgKind::Number, ""));
            },
            Tool::ProposalAccept => {
                out.push(arg("id", ArgKind::Number, ""));
            },
            Tool::ProposalReject => {
                out.push(arg("id", ArgKind::Number, ""));
                out.push(arg("purge", ArgKind::Flag, "Delete the proposal's files instead of just marking it rejected."));
            },
            Tool::Register => {
                out.push(arg("since_last", ArgKind::Flag, "Diff against and then overwrite this project's tracked register snapshot."));
            },
            Tool::PermissionsCheck => {
                out.push(arg("path", ArgKind::Text, "Path to check (absolute, or relative to root)."));
                out.push(arg("domain", ArgKind::Text, "Domain this path is being accessed under. Defaults to \"code\"."));
            },
            Tool::SystemQuery => {
                out.push(arg("term", ArgKind::Text, "The concept in plain language, checked against every registered project."));
            },
            Tool::DocumentsScan => {
                out.push(arg("dir", ArgKind::Text, "Absolute path to the directory to scan."));
            },
            Tool::PhotosScan => {
                out.push(arg("dir", ArgKind::Text, "Absolute path to the directory to scan."));
            },
            _ => {},
        }
        assert(out.deep_view() =~= self.own_args());
    }

    /// All arguments of a tool.
    pub fn args(self) -> (r: Vec<Arg>)
        ensures
            r.deep_view() == self.all_args(),
    {
        let mut out: Vec<Arg> = Vec::new();
        self.add_own(&mut out);
        let ghost own = out.deep_view();
        match self {
            Tool::VerifyEdit => {},
            _ => {
                out.push(
                    arg(
                        "root",
                        ArgKind::Text,
                        "Repository root to answer about. Optional if the server was started with --root.",
                    ),
                );
            },
        }
        out.push(
            arg(
                "only",
                ArgKind::TextList,
                "Return only these top-level keys of the result (e.g. [\"git\"] on `status`). Saves tokens when you need one slice of a large answer.",
            ),
        );
        out.push(
            arg(
                "compact",
                ArgKind::Flag,
                "Drop explanatory prose fields (`note`, `evidence_note`) from the result. Evidence, tiers, files and lines are all kept.",
            ),
        );
        assert(out.deep_view() =~= self.all_args());
        out
    }

    /// The arguments without which a tool cannot be called.
    pub fn required(self) -> (r: Vec<String>)
        ensures
            r.deep_view() == self.required_names(),
    {
        let mut out: Vec<String> = Vec::new();
        match self {
            Tool::Concept | Tool::Impact | Tool::Owner | Tool::SystemQuery => {
                out.push(owned("term"));
            },
            Tool::Intent | Tool::Plan => {
                out.push(owned("text"));
            },
            Tool::Imports => {
                out.push(owned("file"));
            },
            Tool::Guard => {
                out.push(owned("sql"));
            },
            Tool::VerifyEdit => {
                out.push(owned("file"));
                out.push(owned("content"));
            },
            Tool::Ci => {
                out.push(owned("diff"));
            },
            Tool::ProposalSubmit => {
                out.push(owned("kind"));
                out.push(owned("title"));
                out.push(owned("patch"));
            },
            Tool::ProposalInspect | Tool::ProposalTest | Tool::ProposalAccept | Tool::ProposalReject => {
                out.push(owned("id"));
            },
            Tool::PermissionsCheck => {
                out.push(owned("path"));
            },
            Tool::DocumentsScan | Tool::PhotosScan => {
                out.push(owned("dir"));
            },
            _ => {},
        }
        assert(out.deep_view() =~= self.required_names());
        out
    }
}

/// All tools, in the order in which they are offered.
pub open spec fn tools() -> Seq<Tool> {
    seq![
        Tool::Concept,
        Tool::Intent,
        Tool::Impact,
        Tool::Imports,
        Tool::Guard,
        Tool::Plan,
        Tool::Owner,
        Tool::Duplicates,
        Tool::DuplicateLogic,
        Tool::Verdicts,
        Tool::VerifyEdit,
        Tool::Claim,
        Tool::Status,
        Tool::Doctor,
        Tool::Tour,
        Tool::History,
        Tool::Ci,
        Tool::ProposalSubmit,
        Tool::ProposalList,
        Tool::ProposalInspect,
        Tool::ProposalTest,
        Tool::ProposalAccept,
        Tool::ProposalReject,
        Tool::Register,
        Tool::Permissions,
        Tool::PermissionsCheck,
        Tool::SystemList,
        Tool::SystemQuery,
        Tool::SystemStatus,
        Tool::SystemRegister,
        Tool::DocumentsScan,
        Tool::PhotosScan,
        Tool::MessagesScan,
        Tool::DockerObserve,
    ]
}

fn arg(name: &'static str, kind: ArgKind, about: &'static str) -> (r: Arg)
    ensures
        r.deep_view() == arg_of(name@, kind, about@),
{
    let options: Vec<String> = Vec::new();
    assert(options.deep_view() =~= seq![]);
    Arg { name, kind, about, options }
}

/// All tools, in the order in which they are offered.
pub fn tool_defs() -> (r: Vec<Tool>)
    ensures
        r@ == tools(),
{
    let r = vec![
        Tool::Concept,
        Tool::Intent,
        Tool::Impact,
        Tool::Imports,
        Tool::Guard,
        Tool::Plan,
        Tool::Owner,
        Tool::Duplicates,
        Tool::DuplicateLogic,
        Tool::Verdicts,
        Tool::VerifyEdit,
        Tool::Claim,
        Tool::Status,
        Tool::Doctor,
        Tool::Tour,
        Tool::History,
        Tool::Ci,
        Tool::ProposalSubmit,
        Tool::ProposalList,
        Tool::ProposalInspect,
        Tool::ProposalTest,
        Tool::ProposalAccept,
        Tool::ProposalReject,
        Tool::Register,
        Tool::Permissions,
        Tool::PermissionsCheck,
        Tool::SystemList,
        Tool::SystemQuery,
        Tool::SystemStatus,
        Tool::SystemRegister,
        Tool::DocumentsScan,
        Tool::PhotosScan,
        Tool::MessagesScan,
        Tool::DockerObserve,
    ];
    assert(r@ =~= tools());
    r
}

/// The first tool from `i` on with a name.
pub open spec fn tool_from(list: Seq<Tool>, name: Seq<char>, i: int) -> Option<Tool>
    decreases list.len() - i,
{
    if i < 0 || i >= list.len() {
        None
    } else if list[i].name_text() == name {
        Some(list[i])
    } else {
        tool_from(list, name, i + 1)
    }
}

/// The tool of a name.
pub fn tool_named(name: &str) -> (r: Option<Tool>)
    ensures
        r == tool_from(tools(), name@, 0),
{
    let list = tool_defs();
    let mut i: usize = 0;
    while i < list.len()
        invariant
            i <= list.len(),
            list@ == tools(),
            tool_from(tools(), name@, 0) == tool_from(list@, name@, i as int),
        decreases list.len() - i,
    {
        let t = list[i];
        if same(t.name(), name) {
            return Some(t);
        }
        i += 1;
    }
    None
}

/// Every tool lets its caller shape the answer.
pub proof fn law_every_tool_can_be_shaped(t: Tool)
    ensures
        t.all_args().contains(only_arg()),
        t.all_args().contains(compact_arg()),
{
    let a = t.all_args();
    assert(a[a.len() - 2] == only_arg());
    assert(a[a.len() - 1] == compact_arg());
}

// ---------------------------------------------------------------------------
// Messages
// ---------------------------------------------------------------------------

/// What a message asks for.
#[derive(Debug)]
pub enum Incoming {
    /// Nothing: it is no message, or one that wants no answer.
    Silent,
    /// A session begins; who begins it, with a version, where that is said.
    Initialize(Tree, Option<(String, String)>),
    Ping(Tree),
    ListTools(Tree),
    /// A call of a tool, with its arguments.
    Call(Tree, String, Tree),
    Unknown(Tree, String),
}

pub enum IncomingView {
    Silent,
    Initialize(TreeView, Option<(Seq<char>, Seq<char>)>),
    Ping(TreeView),
    ListTools(TreeView),
    Call(TreeView, Seq<char>, TreeView),
    Unknown(TreeView, Seq<char>),
}

impl DeepView for Incoming {
    type V = IncomingView;

    open spec fn deep_view(&self) -> IncomingView {
        match self {
            Incoming::Silent => IncomingView::Silent,
            Incoming::Initialize(id, c) => IncomingView::Initialize(id.deep_view(), c.deep_view()),
            Incoming::Ping(id) => IncomingView::Ping(id.deep_view()),
            Incoming::ListTools(id) => IncomingView::ListTools(id.deep_view()),
            Incoming::Call(id, n, a) => IncomingView::Call(id.deep_view(), n@, a.deep_view()),
            Incoming::Unknown(id, m) => IncomingView::Unknown(id.deep_view(), m@),
        }
    }
}

pub open spec fn or_empty(t: Option<Seq<char>>) -> Seq<char> {
    match t {
        Some(s) => s,
        None => ""@,
    }
}

pub open spec fn or_nothing(t: Option<TreeView>) -> TreeView {
    match t {
        Some(x) => x,
        None => TreeView::Nothing,
    }
}

pub open spec fn client_in(params: TreeView) -> Option<(Seq<char>, Seq<char>)> {
    match field(params, "clientInfo"@) {
        None => None,
        Some(c) => Some(
            (
                match text_field(c, "name"@) {
                    Some(n) => n,
                    None => "unknown"@,
                },
                or_empty(text_field(c, "version"@)),
            ),
        ),
    }
}

/// What a message asks for. One without an id wants no answer.
pub open spec fn asked(msg: TreeView) -> IncomingView {
    let method = or_empty(text_field(msg, "method"@));
    let params = or_nothing(field(msg, "params"@));
    match field(msg, "id"@) {
        None => IncomingView::Silent,
        Some(id) => if method == "initialize"@ {
            IncomingView::Initialize(id, client_in(params))
        } else if method == "ping"@ {
            IncomingView::Ping(id)
        } else if method == "tools/list"@ {
            IncomingView::ListTools(id)
        } else if method == "tools/call"@ {
            IncomingView::Call(
                id,
                or_empty(text_field(params, "name"@)),
                or_nothing(field(params, "arguments"@)),
            )
        } else {
            IncomingView::Unknown(id, method)
        },
    }
}

fn empty_or(t: Option<String>) -> (r: String)
    ensures
        r@ == or_empty(t.deep_view()),
{
    match t {
        Some(s) => s,
        None => owned(""),
    }
}

fn client_of(params: &Tree) -> (r: Option<(String, String)>)
    ensures
        r.deep_view() == client_in(params.deep_view()),
{
    match params.field("clientInfo") {
        None => None,
        Some(c) => {
            let name = match c.text_field("name") {
                Some(n) => n,
                None => owned("unknown"),
            };
            Some((name, empty_or(c.text_field("version"))))
        },
    }
}

/// What a message asks for.
pub fn ask(msg: &Tree) -> (r: Incoming)
    ensures
        r.deep_view() == asked(msg.deep_view()),
{
    let id = match msg.field("id") {
        Some(t) => t.copy(),
        None => {
            return Incoming::Silent;
        },
    };
    let method = empty_or(msg.text_field("method"));
    let params = match msg.field("params") {
        Some(t) => t.copy(),
        None => Tree::Nothing,
    };
    let m = method.as_str();
    if same(m, "initialize") {
        Incoming::Initialize(id, client_of(&params))
    } else if same(m, "ping") {
        Incoming::Ping(id)
    } else if same(m, "tools/list") {
        Incoming::ListTools(id)
    } else if same(m, "tools/call") {
        let arguments = match params.field("arguments") {
            Some(t) => t.copy(),
            None => Tree::Nothing,
        };
        Incoming::Call(id, empty_or(params.text_field("name")), arguments)
    } else {
        Incoming::Unknown(id, method)
    }
}

/// What a line asks for; one that is no JSON asks for nothing.
pub fn read_message(line: &str) -> (r: Incoming)
    ensures
        r.deep_view() == (match json_tree(line@) {
            Some(t) => asked(t),
            None => IncomingView::Silent,
        }),
{
    match parse_json(line) {
        Some(t) => ask(&t),
        None => Incoming::Silent,
    }
}

/// Why a message is answered with an error: the code and the words.
pub open spec fn refusal(msg: IncomingView, root: Option<(Seq<char>, bool)>) -> Option<
    (int, Seq<char>),
> {
    match msg {
        IncomingView::Unknown(_, method) => Some((-32601, "method not found: "@ + method)),
        IncomingView::Call(_, _, _) => match root {
            None => Some(
                (-32602, "no repository root: pass `root` or start the server with --root"@),
            ),
            Some(r) => if r.1 {
                None
            } else {
                Some((-32602, "root does not exist: "@ + r.0))
            },
        },
        _ => None,
    }
}

/// Why a message is answered with an error, if it is. `root` is the repository
/// that a call is about and whether it exists.
pub fn refusal_of(msg: &Incoming, root: Option<(&str, bool)>) -> (r: Option<(i64, String)>)
    ensures
        match r {
            Some(e) => refusal(
                msg.deep_view(),
                match root {
                    Some(x) => Some((x.0@, x.1)),
                    None => None,
                },
            ) == Some((e.0 as int, e.1@)),
            None => refusal(
                msg.deep_view(),
                match root {
                    Some(x) => Some((x.0@, x.1)),
                    None => None,
                },
            ) is None,
        },
{
    match msg {
        Incoming::Unknown(_, method) => {
            let mut e = owned("method not found: ");
            e.append(method.as_str());
            Some((-32601, e))
        },
        Incoming::Call(_, _, _) => match root {
            None => Some(
                (
                    -32602,
                    owned("no repository root: pass `root` or start the server with --root"),
                ),
            ),
            Some((dir, exists)) => if exists {
                None
            } else {
                let mut e = owned("root does not exist: ");
                e.append(dir);
                Some((-32602, e))
            },
        },
        _ => None,
    }
}

/// The keys that a call asks for: a list of texts, or a comma-separated text.
pub open spec fn only_in(args: TreeView) -> Option<Seq<Seq<char>>> {
    match field(args, "only"@) {
        Some(TreeView::List(items)) => {
            let keys = items.filter_map(each_text());
            if keys.len() == 0 {
                None
            } else {
                Some(keys)
            }
        },
        Some(TreeView::Text(s)) => keys_in(s),
        _ => None,
    }
}

/// The keys that a call asks for.
pub fn only_of(args: &Tree) -> (r: Option<Vec<String>>)
    ensures
        r.deep_view() == only_in(args.deep_view()),
{
    match args.field("only") {
        Some(Tree::List(v)) => {
            proof {
                lemma_list_view(*v);
            }
            let keys = args.texts_field("only");
            assert(keys.deep_view().len() == keys@.len());
            if keys.len() == 0 {
                None
            } else {
                Some(keys)
            }
        },
        Some(Tree::Text(s)) => parse_only(Some(s.as_str())),
        _ => None,
    }
}

/// Whether a call asks for its answer without prose.
pub fn compact_of(args: &Tree) -> (r: bool)
    ensures
        r == (field(args.deep_view(), "compact"@) == Some(TreeView::Flag(true))),
{
    match args.field("compact") {
        Some(Tree::Flag(b)) => *b,
        _ => false,
    }
}

// ---------------------------------------------------------------------------
// Who called
// ---------------------------------------------------------------------------

pub open spec fn spoken(t: Option<Seq<char>>) -> Option<Seq<char>> {
    match t {
        Some(s) => if s.len() > 0 {
            Some(s)
        } else {
            None
        },
        None => None,
    }
}

pub open spec fn shortened_text(s: Seq<char>, max: int) -> Seq<char> {
    if s.len() <= max {
        s
    } else {
        s.take(max) + "…"@
    }
}

pub open spec fn short_field(args: TreeView, k: Seq<char>, max: int) -> Option<Seq<char>> {
    match spoken(text_field(args, k)) {
        Some(s) => Some(shortened_text(s, max)),
        None => None,
    }
}

pub open spec fn whole_number(t: Option<TreeView>) -> Option<Seq<char>> {
    match t {
        Some(TreeView::Number(s)) => match signed_value(s) {
            Some(n) => Some(decimal_int(n)),
            None => None,
        },
        _ => None,
    }
}

/// The argument that says what a call is about.
pub open spec fn subject(name: Seq<char>, args: TreeView) -> Option<Seq<char>> {
    if name == "concept"@ || name == "impact"@ || name == "owner"@ || name == "system_query"@ {
        spoken(text_field(args, "term"@))
    } else if name == "intent"@ || name == "plan"@ {
        spoken(text_field(args, "text"@))
    } else if name == "imports"@ {
        spoken(text_field(args, "file"@))
    } else if name == "guard"@ {
        short_field(args, "sql"@, 60)
    } else if name == "claim"@ {
        short_field(args, "statement"@, 80)
    } else if name == "ci"@ {
        short_field(args, "diff"@, 60)
    } else if name == "history"@ {
        spoken(text_field(args, "concept"@))
    } else if name == "proposal_submit"@ {
        spoken(text_field(args, "title"@))
    } else if name == "proposal_inspect"@ || name == "proposal_test"@ || name == "proposal_accept"@
        || name == "proposal_reject"@ {
        whole_number(field(args, "id"@))
    } else if name == "permissions_check"@ {
        spoken(text_field(args, "path"@))
    } else if name == "documents_scan"@ || name == "photos_scan"@ {
        spoken(text_field(args, "dir"@))
    } else {
        None
    }
}

pub open spec fn described(name: Seq<char>, args: TreeView) -> Seq<char> {
    match subject(name, args) {
        Some(a) => name + "("@ + a + ")"@,
        None => name,
    }
}

fn said(args: &Tree, k: &str) -> (r: Option<String>)
    ensures
        r.deep_view() == spoken(text_field(args.deep_view(), k@)),
{
    match args.text_field(k) {
        Some(s) => if s.as_str().is_empty() {
            None
        } else {
            Some(s)
        },
        None => None,
    }
}

fn short(args: &Tree, k: &str, max: usize) -> (r: Option<String>)
    ensures
        r.deep_view() == short_field(args.deep_view(), k@, max as int),
{
    match said(args, k) {
        None => None,
        Some(s) => {
            let cs = chars_of(s.as_str());
            if cs.len() <= max {
                Some(s)
            } else {
                let mut out = cut(&cs, 0, max);
                assert(out@ =~= s@.take(max as int));
                out.append("…");
                Some(out)
            }
        },
    }
}

fn number_of(t: Option<&Tree>) -> (r: Option<String>)
    ensures
        r.deep_view() == whole_number(
            match t {
                Some(x) => Some(x.deep_view()),
                None => None,
            },
        ),
{
    match t {
        Some(Tree::Number(s)) => match signed(s.as_str()) {
            Some(n) => Some(signed_number(n)),
            None => None,
        },
        _ => None,
    }
}

fn subject_of(name: &str, args: &Tree) -> (r: Option<String>)
    ensures
        r.deep_view() == subject(name@, args.deep_view()),
{
    if same(name, "concept") || same(name, "impact") || same(name, "owner") || same(
        name,
        "system_query",
    ) {
        said(args, "term")
    } else if same(name, "intent") || same(name, "plan") {
        said(args, "text")
    } else if same(name, "imports") {
        said(args, "file")
    } else if same(name, "guard") {
        short(args, "sql", 60)
    } else if same(name, "claim") {
        short(args, "statement", 80)
    } else if same(name, "ci") {
        short(args, "diff", 60)
    } else if same(name, "history") {
        said(args, "concept")
    } else if same(name, "proposal_submit") {
        said(args, "title")
    } else if same(name, "proposal_inspect") || same(name, "proposal_test") || same(
        name,
        "proposal_accept",
    ) || same(name, "proposal_reject") {
        number_of(args.field("id"))
    } else if same(name, "permissions_check") {
        said(args, "path")
    } else if same(name, "documents_scan") || same(name, "photos_scan") {
        said(args, "dir")
    } else {
        None
    }
}

/// A call in a word: the tool, and what it was asked about.
pub fn describe_call(name: &str, args: &Tree) -> (r: String)
    ensures
        r@ == described(name@, args.deep_view()),
{
    match subject_of(name, args) {
        Some(a) => {
            let mut out = owned(name);
            out.append("(");
            out.append(a.as_str());
            out.append(")");
            out
        },
        None => owned(name),
    }
}

/// At most one event per repository in this many milliseconds.
pub const HEARTBEAT_INTERVAL_MS: i64 = 3_000;

/// A point in time.
#[derive(Debug)]
pub struct Stamp {
    pub ms: i64,
}

impl DeepView for Stamp {
    type V = int;

    open spec fn deep_view(&self) -> int {
        self.ms as int
    }
}

/// What a session did and has not told yet.
#[derive(Debug)]
pub struct Activity {
    /// Who calls, with a version.
    pub client: Option<(String, String)>,
    /// The repositories of which it was told that somebody came.
    pub connected: Vec<String>,
    /// The calls that were not told yet, by repository.
    pub pending: TextMap<Vec<String>>,
    /// When something was last told, by repository.
    pub told: TextMap<Stamp>,
}

pub struct ActivityView {
    pub client: Option<(Seq<char>, Seq<char>)>,
    pub connected: Seq<Seq<char>>,
    pub pending: Seq<(Seq<char>, Seq<Seq<char>>)>,
    pub told: Seq<(Seq<char>, int)>,
}

impl DeepView for Activity {
    type V = ActivityView;

    open spec fn deep_view(&self) -> ActivityView {
        ActivityView {
            client: self.client.deep_view(),
            connected: self.connected.deep_view(),
            pending: self.pending.deep_view(),
            told: self.told.deep_view(),
        }
    }
}

impl Default for Activity {
    fn default() -> (r: Activity)
        ensures
            r.deep_view() == (ActivityView {
                client: None,
                connected: seq![],
                pending: seq![],
                told: seq![],
            }),
    {
        let connected: Vec<String> = Vec::new();
        assert(connected.deep_view() =~= seq![]);
        Activity { client: None, connected, pending: TextMap::new(), told: TextMap::new() }
    }
}

/// What is told of a repository.
#[derive(Debug)]
pub struct Notice {
    /// Whether this is the first that is told of it.
    pub first: bool,
    pub client: String,
    pub version: String,
    pub tools: Vec<String>,
}

pub struct NoticeView {
    pub first: bool,
    pub client: Seq<char>,
    pub version: Seq<char>,
    pub tools: Seq<Seq<char>>,
}

impl DeepView for Notice {
    type V = NoticeView;

    open spec fn deep_view(&self) -> NoticeView {
        NoticeView {
            first: self.first,
            client: self.client@,
            version: self.version@,
            tools: self.tools.deep_view(),
        }
    }
}

impl Notice {
    /// The kind of the event.
    pub fn kind(&self) -> (r: &'static str)
        ensures
            r@ == (if self.first {
                "mcp_client_connected"@
            } else {
                "mcp_client_active"@
            }),
    {
        if self.first {
            "mcp_client_connected"
        } else {
            "mcp_client_active"
        }
    }
}

pub open spec fn pending_at(a: ActivityView, root: Seq<char>) -> Seq<Seq<char>> {
    match lookup(a.pending, root) {
        Some(t) => t,
        None => seq![],
    }
}

/// A session with one more call; nobody is told of callers who do not say who
/// they are.
pub open spec fn noted(a: ActivityView, root: Seq<char>, name: Seq<char>, args: TreeView) -> ActivityView {
    if a.client is Some && name.len() > 0 {
        ActivityView {
            client: a.client,
            connected: a.connected,
            pending: put(
                a.pending,
                root,
                insert_text(pending_at(a, root), described(name, args)),
            ),
            told: a.told,
        }
    } else {
        a
    }
}

/// Something is to be told of a repository now.
pub open spec fn is_due(a: ActivityView, root: Seq<char>, now: int) -> bool {
    &&& a.client is Some
    &&& pending_at(a, root).len() > 0
    &&& lookup(a.told, root) matches Some(last) ==> now - last >= 3000
}

pub open spec fn notice(a: ActivityView, root: Seq<char>) -> NoticeView {
    NoticeView {
        first: !a.connected.contains(root),
        client: a.client->Some_0.0,
        version: a.client->Some_0.1,
        tools: pending_at(a, root),
    }
}

/// A session after something was told of a repository.
pub open spec fn flushed(a: ActivityView, root: Seq<char>, now: int) -> ActivityView {
    ActivityView {
        client: a.client,
        connected: if a.connected.contains(root) {
            a.connected
        } else {
            a.connected.push(root)
        },
        pending: put(a.pending, root, seq![]),
        told: put(a.told, root, now),
    }
}

fn pending_of(a: &Activity, root: &str) -> (r: Vec<String>)
    ensures
        r.deep_view() == pending_at(a.deep_view(), root@),
{
    match a.pending.get(root) {
        Some(t) => copied(t),
        None => {
            let none: Vec<String> = Vec::new();
            assert(none.deep_view() =~= seq![]);
            none
        },
    }
}

/// Notes a call.
pub fn note_call(a: Activity, root: &str, name: &str, args: &Tree) -> (r: Activity)
    ensures
        r.deep_view() == noted(a.deep_view(), root@, name@, args.deep_view()),
{
    if a.client.is_none() || name.is_empty() {
        return a;
    }
    let calls = insert_once(pending_of(&a, root), describe_call(name, args).as_str());
    Activity {
        client: a.client,
        connected: a.connected,
        pending: a.pending.with(owned(root), calls),
        told: a.told,
    }
}

/// What is to be told of a repository, if anything, and the session after that.
pub fn flush_if_due(a: Activity, root: &str, now: i64) -> (r: (Activity, Option<Notice>))
    ensures
        if is_due(a.deep_view(), root@, now as int) {
            r.0.deep_view() == flushed(a.deep_view(), root@, now as int) && r.1.deep_view() == Some(
                notice(a.deep_view(), root@),
            )
        } else {
            r.0.deep_view() == a.deep_view() && r.1 is None
        },
{
    let ghost av = a.deep_view();
    let tools = pending_of(&a, root);
    assert(tools.deep_view().len() == tools@.len());
    if tools.len() == 0 {
        return (a, None);
    }
    let (client, version) = match &a.client {
        Some((c, v)) => (owned(c.as_str()), owned(v.as_str())),
        None => {
            return (a, None);
        },
    };
    let due = match a.told.get(root) {
        Some(s) => now as i128 - s.ms as i128 >= HEARTBEAT_INTERVAL_MS as i128,
        None => true,
    };
    if !due {
        return (a, None);
    }
    let first = !listed(&a.connected, root);
    let mut connected = a.connected;
    let ghost before = connected.deep_view();
    if first {
        connected.push(owned(root));
        assert(connected.deep_view() =~= before.push(root@));
    }
    let none: Vec<String> = Vec::new();
    assert(none.deep_view() =~= seq![]);
    (
        Activity {
            client: a.client,
            connected,
            pending: a.pending.with(owned(root), none),
            told: a.told.with(owned(root), Stamp { ms: now }),
        },
        Some(Notice { first, client, version, tools }),
    )
}

/// Once something was told of a repository nothing more is told of it until the
/// interval has passed, whatever is called meanwhile.
pub proof fn law_notices_are_spaced(
    a: ActivityView,
    root: Seq<char>,
    now: int,
    name: Seq<char>,
    args: TreeView,
    later: int,
)
    requires
        crate::table::ordered(a.told),
        later - now < 3000,
    ensures
        !is_due(noted(flushed(a, root, now), root, name, args), root, later),
{
    crate::table::lemma_put(a.told, root, now);
}

/// A call is told even if no other ever follows: it stays due from the end of
/// the interval on.
pub proof fn law_last_call_is_told(
    a: ActivityView,
    root: Seq<char>,
    name: Seq<char>,
    args: TreeView,
    now: int,
)
    requires
        crate::table::ordered(a.pending),
        a.client is Some,
        name.len() > 0,
        lookup(a.told, root) matches Some(last) ==> now - last >= 3000,
    ensures
        is_due(noted(a, root, name, args), root, now),
        notice(noted(a, root, name, args), root).tools.contains(described(name, args)),
{
    let calls = insert_text(pending_at(a, root), described(name, args));
    crate::table::lemma_put(a.pending, root, calls);
    lemma_inserted(pending_at(a, root), described(name, args));
}

proof fn lemma_inserted(s: Seq<Seq<char>>, x: Seq<char>)
    ensures
        insert_text(s, x).contains(x),
        insert_text(s, x).len() > 0,
    decreases s.len(),
{
    let r = insert_text(s, x);
    if s.len() == 0 || s[0] == x || crate::text::before(x, s[0]) {
        assert(r[0] == x);
    } else {
        lemma_inserted(s.skip(1), x);
        let rest = insert_text(s.skip(1), x);
        let k = choose|k: int| 0 <= k < rest.len() && rest[k] == x;
        assert(r[k + 1] == x);
    }
}

} // verus!
