//! Where a repository begins: the directory that every question is asked of.
use vstd::prelude::*;
use crate::model::{first_of, shortened};
use crate::table::{sorted, sorted_list};
use crate::text::{decimal, join};
use crate::text::{joined, number, owned, same};

verus! {

/// What only the root of a repository holds.
pub open spec fn is_strong_marker(name: Seq<char>) -> bool {
    name == "archietect.db"@ || name == "archietect.toml"@ || name == ".git"@
}

/// What every project holds, and so every member of a workspace too.
pub open spec fn is_weak_marker(name: Seq<char>) -> bool {
    name == "Cargo.toml"@ || name == "package.json"@ || name == "composer.json"@ || name
        == "manage.py"@ || name == "mix.exs"@ || name == "go.mod"@ || name == "Gemfile"@ || name
        == "pom.xml"@
}

/// A directory with the names of what it holds.
#[derive(Debug)]
pub struct Level {
    pub dir: String,
    pub entries: Vec<String>,
}

pub struct LevelView {
    pub dir: Seq<char>,
    pub entries: Seq<Seq<char>>,
}

impl DeepView for Level {
    type V = LevelView;

    open spec fn deep_view(&self) -> LevelView {
        LevelView { dir: self.dir@, entries: self.entries.deep_view() }
    }
}

/// A root that somebody named: as it was written, whether it exists, and its
/// path in full where it has one.
#[derive(Debug)]
pub struct Explicit {
    pub shown: String,
    pub exists: bool,
    pub canonical: Option<String>,
}

pub open spec fn is_anchored(l: LevelView, strong: bool) -> bool {
    exists|i: int|
        0 <= i < l.entries.len() && (if strong {
            is_strong_marker(#[trigger] l.entries[i])
        } else {
            is_weak_marker(l.entries[i])
        })
}

/// The first directory from `i` on that holds a marker.
pub open spec fn nearest(levels: Seq<LevelView>, strong: bool, i: int) -> Option<Seq<char>>
    decreases levels.len() - i,
{
    if i < 0 || i >= levels.len() {
        None
    } else if is_anchored(levels[i], strong) {
        Some(levels[i].dir)
    } else {
        nearest(levels, strong, i + 1)
    }
}

/// The root above a starting directory. `levels` holds that directory and all
/// above it. A strong marker wins over a weak one at any distance.
pub open spec fn root_above(levels: Seq<LevelView>, start: Seq<char>) -> Seq<char> {
    match nearest(levels, true, 0) {
        Some(d) => d,
        None => match nearest(levels, false, 0) {
            Some(d) => d,
            None => start,
        },
    }
}

fn strong_marker(name: &str) -> (r: bool)
    ensures
        r == is_strong_marker(name@),
{
    same(name, "archietect.db") || same(name, "archietect.toml") || same(name, ".git")
}

fn weak_marker(name: &str) -> (r: bool)
    ensures
        r == is_weak_marker(name@),
{
    same(name, "Cargo.toml") || same(name, "package.json") || same(name, "composer.json") || same(
        name,
        "manage.py",
    ) || same(name, "mix.exs") || same(name, "go.mod") || same(name, "Gemfile") || same(
        name,
        "pom.xml",
    )
}

fn anchored(l: &Level, strong: bool) -> (r: bool)
    ensures
        r == is_anchored(l.deep_view(), strong),
{
    let mut i: usize = 0;
    while i < l.entries.len()
        invariant
            i <= l.entries.len(),
            forall|j: int|
                0 <= j < i ==> !(if strong {
                    is_strong_marker(#[trigger] l.deep_view().entries[j])
                } else {
                    is_weak_marker(l.deep_view().entries[j])
                }),
        decreases l.entries.len() - i,
    {
        let e = l.entries[i].as_str();
        assert(l.deep_view().entries[i as int] == e@);
        let hit = if strong {
            strong_marker(e)
        } else {
            weak_marker(e)
        };
        if hit {
            return true;
        }
        i += 1;
    }
    false
}

fn nearest_of(levels: &Vec<Level>, strong: bool) -> (r: Option<String>)
    ensures
        r.deep_view() == nearest(levels.deep_view(), strong, 0),
{
    let ghost lv = levels.deep_view();
    let mut i: usize = 0;
    while i < levels.len()
        invariant
            i <= levels.len(),
            lv == levels.deep_view(),
            nearest(lv, strong, 0) == nearest(lv, strong, i as int),
        decreases levels.len() - i,
    {
        assert(lv[i as int] == levels[i as int].deep_view());
        if anchored(&levels[i], strong) {
            return Some(owned(levels[i].dir.as_str()));
        }
        i += 1;
    }
    None
}

/// The root of a repository: the one that somebody named, else the nearest
/// directory with a strong marker, else the nearest with a weak one, else the
/// start itself.
pub fn resolve(explicit: Option<&Explicit>, levels: &Vec<Level>, start: &str) -> (r: Result<
    String,
    String,
>)
    ensures
        match explicit {
            Some(e) => match r {
                Ok(p) => e.exists && e.canonical.deep_view() == Some(p@),
                Err(why) => if !e.exists {
                    why@ == "root does not exist: "@ + e.shown@
                } else {
                    e.canonical is None && why@ == "resolving root: "@ + e.shown@
                },
            },
            None => r matches Ok(p) && p@ == root_above(levels.deep_view(), start@),
        },
{
    if let Some(e) = explicit {
        if !e.exists {
            let mut why = owned("root does not exist: ");
            why.append(e.shown.as_str());
            return Err(why);
        }
        match &e.canonical {
            Some(c) => {
                return Ok(owned(c.as_str()));
            },
            None => {
                let mut why = owned("resolving root: ");
                why.append(e.shown.as_str());
                return Err(why);
            },
        }
    }
    match nearest_of(levels, true) {
        Some(d) => Ok(d),
        None => match nearest_of(levels, false) {
            Some(d) => Ok(d),
            None => Ok(owned(start)),
        },
    }
}

pub open spec fn more_note(total: nat) -> Seq<char> {
    if total > 5 {
        " (+"@ + decimal((total - 5) as nat) + " more)"@
    } else {
        ""@
    }
}

/// What to say of a root that holds many repositories and is none itself.
pub open spec fn scope_note(root: Seq<char>, is_repository: bool, nested: Seq<Seq<char>>) -> Option<
    Seq<char>,
> {
    if is_repository || nested.len() < 3 {
        None
    } else {
        Some(
            "'"@ + root + "' looks like a directory of "@ + decimal(nested.len())
                + " separate projects ("@ + join(first_of(sorted(nested), 5), ", "@) + more_note(
                nested.len(),
            )
                + "), not one project — archietect treats everything under --root as a SINGLE codebase, so this scan may be slow and its answers won't distinguish between them. If you meant one specific project, point --root at it directly."@,
        )
    }
}

/// A warning where a root looks like a directory of separate projects: it is no
/// repository itself, and three or more of its directories are.
pub fn scope_warning(root: &str, is_repository: bool, nested: &Vec<String>) -> (r: Option<String>)
    ensures
        r.deep_view() == scope_note(root@, is_repository, nested.deep_view()),
{
    assert(nested.deep_view().len() == nested@.len());
    if is_repository || nested.len() < 3 {
        return None;
    }
    let total: usize = nested.len();
    let mut out = owned("'");
    out.append(root);
    out.append("' looks like a directory of ");
    out.append(number(total as u64).as_str());
    out.append(" separate projects (");
    out.append(joined(&shortened(sorted_list(nested), 5), ", ").as_str());
    if total > 5 {
        let mut more = owned(" (+");
        more.append(number((total - 5) as u64).as_str());
        more.append(" more)");
        out.append(more.as_str());
    } else {
        out.append("");
    }
    out.append(
        "), not one project — archietect treats everything under --root as a SINGLE codebase, so this scan may be slow and its answers won't distinguish between them. If you meant one specific project, point --root at it directly.",
    );
    Some(out)
}

/// A strong marker anywhere above the start decides the root, however many weak
/// ones stand nearer.
pub proof fn law_strong_beats_weak(levels: Seq<LevelView>, start: Seq<char>, i: int)
    requires
        0 <= i < levels.len(),
        is_anchored(levels[i], true),
    ensures
        exists|j: int|
            0 <= j <= i && is_anchored(#[trigger] levels[j], true) && root_above(levels, start)
                == levels[j].dir,
{
    lemma_nearest(levels, true, 0, i);
}

proof fn lemma_nearest(levels: Seq<LevelView>, strong: bool, from: int, i: int)
    requires
        0 <= from <= i < levels.len(),
        is_anchored(levels[i], strong),
    ensures
        exists|j: int|
            from <= j <= i && is_anchored(#[trigger] levels[j], strong) && nearest(
                levels,
                strong,
                from,
            ) == Some(levels[j].dir),
    decreases i - from,
{
    if !is_anchored(levels[from], strong) {
        lemma_nearest(levels, strong, from + 1, i);
    }
}

} // verus!
