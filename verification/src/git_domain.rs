//! What a repository's `.git` directory says: the repository itself, the branch
//! that is checked out, and the remotes.
use vstd::prelude::*;
use crate::model::{EvidenceView, Tier};
use crate::paths::{below, display_name};
use crate::paths::{display_name_of, path_below};
use crate::permissions::{domain_allowed, is_domain_allowed, PermissionConfig};
use crate::resource::{resource, Resource, ResourceView};
use crate::table::{put, TextMap};
use crate::text::{lines, split_once, strip_prefix, strip_suffix, trim};
use crate::text::{after_prefix, before_suffix, lines_of, owned, parted, same, trimmed};

verus! {

/// The two files of a `.git` directory that are read, where they could be.
#[derive(Debug)]
pub struct GitFiles {
    pub head: Option<String>,
    pub config: Option<String>,
}

pub struct GitFilesView {
    pub head: Option<Seq<char>>,
    pub config: Option<Seq<char>>,
}

impl DeepView for GitFiles {
    type V = GitFilesView;

    open spec fn deep_view(&self) -> GitFilesView {
        GitFilesView { head: self.head.deep_view(), config: self.config.deep_view() }
    }
}

/// The branch that `HEAD` names; none where it names a commit.
pub open spec fn branch_in(head: Seq<char>) -> Option<Seq<char>> {
    strip_prefix(trim(head), "ref: refs/heads/"@)
}

/// The remotes read so far, and the remote whose section is being read.
pub struct RemoteScan {
    pub remotes: Seq<(Seq<char>, Seq<char>)>,
    pub current: Option<Seq<char>>,
}

/// The name between brackets, if a line is a section's header.
pub open spec fn section_name(line: Seq<char>) -> Option<Seq<char>> {
    match strip_prefix(line, "["@) {
        Some(rest) => strip_suffix(rest, "]"@),
        None => None,
    }
}

/// The remote that a section is about.
pub open spec fn remote_name(section: Seq<char>) -> Option<Seq<char>> {
    match strip_prefix(section, "remote \""@) {
        Some(rest) => strip_suffix(rest, "\""@),
        None => None,
    }
}

/// The address that a line gives.
pub open spec fn url_in(line: Seq<char>) -> Option<Seq<char>> {
    match split_once(line, "="@) {
        Some((key, value)) => if trim(key) == "url"@ {
            Some(trim(value))
        } else {
            None
        },
        None => None,
    }
}

pub open spec fn remote_line(s: RemoteScan, raw: Seq<char>) -> RemoteScan {
    let line = trim(raw);
    match section_name(line) {
        Some(section) => RemoteScan { current: remote_name(section), ..s },
        None => match (s.current, url_in(line)) {
            (Some(name), Some(url)) => RemoteScan { remotes: s.remotes.push((name, url)), ..s },
            _ => s,
        },
    }
}

pub open spec fn remote_scan(ls: Seq<Seq<char>>) -> RemoteScan
    decreases ls.len(),
{
    if ls.len() == 0 {
        RemoteScan { remotes: seq![], current: None }
    } else {
        remote_line(remote_scan(ls.drop_last()), ls.last())
    }
}

/// Every remote of a Git configuration with its address, in order.
pub open spec fn remotes_in(config: Seq<char>) -> Seq<(Seq<char>, Seq<char>)> {
    remote_scan(lines(config)).remotes
}

pub open spec fn repository_resource(root: Seq<char>, branch: Option<Seq<char>>) -> ResourceView {
    ResourceView {
        id: display_name(root),
        kind: "git_repository"@,
        domain: "git"@,
        file: root,
        line: None,
        attributes: match branch {
            Some(b) => put(seq![], "current_branch"@, b),
            None => seq![],
        },
        evidence: seq![
            EvidenceView { tier: Tier::Declared, what: root + " contains a .git directory"@ },
        ],
    }
}

/// The branch is observed: it is what is checked out at this moment.
pub open spec fn branch_resource(root: Seq<char>, branch: Seq<char>) -> ResourceView {
    ResourceView {
        id: display_name(root) + ":"@ + branch,
        kind: "git_branch"@,
        domain: "git"@,
        file: below(below(root, ".git"@), "HEAD"@),
        line: None,
        attributes: put(seq![], "repository"@, display_name(root)),
        evidence: seq![
            EvidenceView {
                tier: Tier::Observed,
                what: root + " currently has '"@ + branch + "' checked out (.git/HEAD)"@,
            },
        ],
    }
}

pub open spec fn remote_resource(root: Seq<char>, name: Seq<char>, url: Seq<char>) -> ResourceView {
    ResourceView {
        id: display_name(root) + ":remote:"@ + name,
        kind: "git_remote"@,
        domain: "git"@,
        file: below(below(root, ".git"@), "config"@),
        line: None,
        attributes: put(
            put(put(seq![], "repository"@, display_name(root)), "name"@, name),
            "url"@,
            url,
        ),
        evidence: seq![
            EvidenceView {
                tier: Tier::Declared,
                what: "remote '"@ + name + "' -> '"@ + url + "' declared in .git/config"@,
            },
        ],
    }
}

pub open spec fn each_remote(root: Seq<char>) -> spec_fn((Seq<char>, Seq<char>)) -> ResourceView {
    |r: (Seq<char>, Seq<char>)| remote_resource(root, r.0, r.1)
}

pub open spec fn branch_of(git: GitFilesView) -> Option<Seq<char>> {
    match git.head {
        Some(h) => branch_in(h),
        None => None,
    }
}

pub open spec fn remotes_of(git: GitFilesView) -> Seq<(Seq<char>, Seq<char>)> {
    match git.config {
        Some(c) => remotes_in(c),
        None => seq![],
    }
}

/// Every resource of a repository; none where there is no `.git` directory.
pub open spec fn git_resources(root: Seq<char>, git: Option<GitFilesView>) -> Seq<ResourceView> {
    match git {
        None => seq![],
        Some(g) => seq![repository_resource(root, branch_of(g))] + (match branch_of(g) {
            Some(b) => seq![branch_resource(root, b)],
            None => seq![],
        }) + remotes_of(g).map_values(each_remote(root)),
    }
}

fn current_branch(head: &str) -> (r: Option<String>)
    ensures
        r.deep_view() == branch_in(head@),
{
    after_prefix(trimmed(head).as_str(), "ref: refs/heads/")
}

fn section_of(line: &str) -> (r: Option<String>)
    ensures
        r.deep_view() == section_name(line@),
{
    match after_prefix(line, "[") {
        Some(rest) => before_suffix(rest.as_str(), "]"),
        None => None,
    }
}

fn remote_of(section: &str) -> (r: Option<String>)
    ensures
        r.deep_view() == remote_name(section@),
{
    match after_prefix(section, "remote \"") {
        Some(rest) => before_suffix(rest.as_str(), "\""),
        None => None,
    }
}

fn url_of(line: &str) -> (r: Option<String>)
    ensures
        r.deep_view() == url_in(line@),
{
    match parted(line, "=") {
        Some((key, value)) => if same(trimmed(key.as_str()).as_str(), "url") {
            Some(trimmed(value.as_str()))
        } else {
            None
        },
        None => None,
    }
}

/// Every remote of a Git configuration with its address.
pub fn remotes(config: &str) -> (r: Vec<(String, String)>)
    ensures
        r.deep_view() == remotes_in(config@),
{
    let ls = lines_of(config);
    let ghost lv = ls.deep_view();
    let mut out: Vec<(String, String)> = Vec::new();
    let mut current: Option<String> = None;
    let mut i: usize = 0;
    assert(out.deep_view() =~= seq![]);
    while i < ls.len()
        invariant
            i <= ls.len(),
            lv == ls.deep_view(),
            out.deep_view() == remote_scan(lv.take(i as int)).remotes,
            current.deep_view() == remote_scan(lv.take(i as int)).current,
        decreases ls.len() - i,
    {
        let ghost step = lv.take(i + 1);
        assert(step.drop_last() =~= lv.take(i as int));
        assert(step.last() == ls[i as int]@);
        let ghost so_far = out.deep_view();
        let line = trimmed(ls[i].as_str());
        match section_of(line.as_str()) {
            Some(section) => {
                current = remote_of(section.as_str());
            },
            None => {
                if let Some(name) = &current {
                    if let Some(url) = url_of(line.as_str()) {
                        let ghost p = (name@, url@);
                        out.push((owned(name.as_str()), url));
                        assert(out.deep_view() =~= so_far.push(p));
                    }
                }
            },
        }
        i += 1;
    }
    assert(lv.take(i as int) =~= lv);
    out
}

/// Every resource of the repository at `root`, without asking for permission.
pub fn scan(root: &str, git: Option<&GitFiles>) -> (r: Vec<Resource>)
    ensures
        r.deep_view() == git_resources(
            root@,
            match git {
                Some(g) => Some(g.deep_view()),
                None => None,
            },
        ),
{
    let mut out: Vec<Resource> = Vec::new();
    assert(out.deep_view() =~= seq![]);
    let g = match git {
        Some(g) => g,
        None => return out,
    };
    let name = display_name_of(root);
    let branch = match &g.head {
        Some(h) => current_branch(h.as_str()),
        None => None,
    };
    assert(branch.deep_view() == branch_of(g.deep_view()));
    let mut attributes: TextMap<String> = TextMap::new();
    if let Some(b) = &branch {
        attributes = attributes.with(owned("current_branch"), owned(b.as_str()));
    }
    let mut what = owned(root);
    what.append(" contains a .git directory");
    out.push(
        resource(
            owned(name.as_str()),
            "git_repository",
            "git",
            owned(root),
            attributes,
            Tier::Declared,
            what,
        ),
    );
    let git_dir = path_below(root, ".git");
    if let Some(b) = &branch {
        let mut id = owned(name.as_str());
        id.append(":");
        id.append(b.as_str());
        let mut what = owned(root);
        what.append(" currently has '");
        what.append(b.as_str());
        what.append("' checked out (.git/HEAD)");
        let none: TextMap<String> = TextMap::new();
        out.push(
            resource(
                id,
                "git_branch",
                "git",
                path_below(git_dir.as_str(), "HEAD"),
                none.with(owned("repository"), owned(name.as_str())),
                Tier::Observed,
                what,
            ),
        );
    }
    let ghost head = seq![repository_resource(root@, branch_of(g.deep_view()))] + (match branch_of(
        g.deep_view(),
    ) {
        Some(b) => seq![branch_resource(root@, b)],
        None => seq![],
    });
    assert(out.deep_view() =~= head);
    if let Some(c) = &g.config {
        let rs = remotes(c.as_str());
        let ghost all = rs.deep_view().map_values(each_remote(root@));
        let mut i: usize = 0;
        while i < rs.len()
            invariant
                i <= rs.len(),
                name@ == display_name(root@),
                git_dir@ == below(root@, ".git"@),
                all == rs.deep_view().map_values(each_remote(root@)),
                out.deep_view() =~= head + all.take(i as int),
            decreases rs.len() - i,
        {
            let ghost so_far = out.deep_view();
            let r = rs[i].0.as_str();
            let url = rs[i].1.as_str();
            assert(rs.deep_view()[i as int] == (r@, url@));
            let mut id = owned(name.as_str());
            id.append(":remote:");
            id.append(r);
            let mut what = owned("remote '");
            what.append(r);
            what.append("' -> '");
            what.append(url);
            what.append("' declared in .git/config");
            let none: TextMap<String> = TextMap::new();
            let attributes = none.with(owned("repository"), owned(name.as_str())).with(
                owned("name"),
                owned(r),
            ).with(owned("url"), owned(url));
            out.push(
                resource(
                    id,
                    "git_remote",
                    "git",
                    path_below(git_dir.as_str(), "config"),
                    attributes,
                    Tier::Declared,
                    what,
                ),
            );
            assert(out.deep_view() =~= so_far.push(all[i as int]));
            i += 1;
        }
        assert(all.take(i as int) =~= all);
    }
    assert(out.deep_view() =~= head + remotes_of(g.deep_view()).map_values(each_remote(root@)));
    out
}

/// Every resource of the repository at `root`, if the domain is allowed.
pub fn scan_if_allowed(cfg: &PermissionConfig, root: &str, git: Option<&GitFiles>) -> (r: Vec<
    Resource,
>)
    ensures
        r.deep_view() == (if is_domain_allowed(cfg.deep_view(), "git"@) {
            git_resources(
                root@,
                match git {
                    Some(g) => Some(g.deep_view()),
                    None => None,
                },
            )
        } else {
            seq![]
        }),
{
    if !domain_allowed(cfg, "git") {
        let none: Vec<Resource> = Vec::new();
        assert(none.deep_view() =~= seq![]);
        return none;
    }
    scan(root, git)
}

/// A detached `HEAD` yields no branch at all rather than a wrong one.
pub proof fn law_detached_head_has_no_branch(root: Seq<char>, git: GitFilesView, i: int)
    requires
        git.head is None || strip_prefix(trim(git.head->0), "ref: refs/heads/"@) is None,
        0 <= i < git_resources(root, Some(git)).len(),
    ensures
        git_resources(root, Some(git))[i].kind != "git_branch"@,
{
    reveal_strlit("git_branch");
    reveal_strlit("git_repository");
    reveal_strlit("git_remote");
    let all = git_resources(root, Some(git));
    assert("git_repository"@.len() != "git_branch"@.len());
    assert("git_remote"@[4] == 'r');
    assert("git_branch"@[4] == 'b');
    if i > 0 {
        assert(all[i] == remotes_of(git).map_values(each_remote(root))[i - 1]);
    }
}

} // verus!
