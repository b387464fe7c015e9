//! Paths of the repository and of its files.
use vstd::prelude::*;

verus! {

/// A name of one path component that no platform reads as absolute, as
/// holding a separator or a drive, or as the current or parent directory:
/// not empty, without `/`, `\\` or `:`, and neither `.` nor `..`.
pub open spec fn is_plain_component(name: Seq<char>) -> bool {
    &&& name.len() > 0
    &&& forall|i: int| 0 <= i < name.len() ==> #[trigger] name[i] != '/' && name[i] != '\\' && name[i] != ':'
    &&& !(name.len() == 1 && name[0] == '.')
    &&& !(name.len() == 2 && name[0] == '.' && name[1] == '.')
}

/// `path` holds no `?`, so it has no verbatim prefix (`\\?\`) on any platform.
pub open spec fn has_no_verbatim_prefix(path: Seq<char>) -> bool {
    forall|i: int| 0 <= i < path.len() ==> #[trigger] path[i] != '?'
}

/// `r` is `name` adjoined to the path `base`: right after it, or after one
/// separator (`/`, or `\\` on Windows).
pub open spec fn adjoined(base: Seq<char>, name: Seq<char>, r: Seq<char>) -> bool {
    r == base + name || r == base + seq!['/'] + name || r == base + seq!['\\'] + name
}

/// Adjoins `name` to the path `base` with `Path::join`: as its documentation
/// says, a relative `name` is appended to `base` with a separator if needed,
/// and an absolute one replaces `base`. Whether a separator is needed, and
/// which, depends on the platform. The clause covers a plain name joined to
/// a base without a verbatim prefix; after such a prefix Windows rebuilds
/// the path, and nothing is stated of that.
#[verifier::external_body]
pub(crate) fn join_path(base: &str, name: &str) -> (r: String)
    ensures
        is_plain_component(name@) && has_no_verbatim_prefix(base@) ==> adjoined(base@, name@, r@),
{
    std::path::Path::new(base).join(name).to_string_lossy().into_owned()
}

/// `path` is read alike on every platform: it holds no `\\`, `?` or `:`, so
/// `/` is its only separator and it has no prefix, and it does not start
/// with `//`, which Windows could read as a network share.
pub open spec fn is_portable_path(path: Seq<char>) -> bool {
    &&& forall|i: int|
        0 <= i < path.len() ==> #[trigger] path[i] != '\\' && path[i] != '?' && path[i] != ':'
    &&& !(path.len() >= 2 && path[0] == '/' && path[1] == '/')
}

/// `path` ends in a plain component: the part after its last `/` (or the
/// whole path, when it has none) is one.
pub open spec fn ends_in_plain_component(path: Seq<char>) -> bool {
    exists|i: int|
        0 <= i < path.len() && (i == 0 || path[i - 1] == '/') && #[trigger] is_plain_component(
            path.subrange(i, path.len() as int),
        )
}

/// What `Path::parent` gives for `path`, as far as its documentation says it
/// on every platform: the path without its final component. The result is
/// a slice of `path` that ends before its last component, so a proper
/// prefix. For a portable path that is one plain component, it is the empty
/// path. For a portable path `base/name` with a plain `name`, it is `base`,
/// where `base` is `/` or itself ends in a plain component (otherwise the
/// trailing separators and `.` components of `base` are trimmed too, and
/// nothing more is stated).
pub open spec fn is_parent_of(path: Seq<char>, r: Option<String>) -> bool {
    &&& r matches Some(parent) ==> parent@.len() < path.len() && parent@.is_prefix_of(path)
    &&& is_portable_path(path) && is_plain_component(path) ==> (r matches Some(parent)
        && parent@.len() == 0)
    &&& forall|k: int|
        0 <= k < path.len() && #[trigger] path[k] == '/' && is_portable_path(path)
            && is_plain_component(path.subrange(k + 1, path.len() as int)) && (k == 0 || ends_in_plain_component(path.subrange(0, k))) ==> (r matches Some(parent)
            && parent@ == (if k == 0 {
            seq!['/']
        } else {
            path.subrange(0, k)
        }))
}

/// The directory that contains `path`, with `Path::parent`; `None` for a
/// root, a prefix or an empty path.
#[verifier::external_body]
pub(crate) fn parent_dir(path: &str) -> (r: Option<String>)
    ensures
        is_parent_of(path@, r),
{
    std::path::Path::new(path).parent().map(|p| p.to_string_lossy().into_owned())
}

/// The next thing to do while looking for the repository root.
#[derive(Debug)]
pub enum RootSearch {
    /// This directory holds `.atomic/`: it is the repository root.
    Found(String),
    /// Look next in this directory, the parent of the one just checked.
    Next(String),
    /// The directory just checked has no parent: there is no repository.
    NotFound,
}

/// `step` is what follows a check of `dir`: it is the root when it holds
/// `.atomic`; otherwise the walk goes on to its parent, or ends when there
/// is none.
pub open spec fn is_root_search_step(
    dir: Seq<char>,
    has_atomic_dir: bool,
    parent: Option<String>,
    step: RootSearch,
) -> bool {
    if has_atomic_dir {
        step matches RootSearch::Found(root) && root@ == dir
    } else {
        match parent {
            Some(p) => step matches RootSearch::Next(next) && next@ == p@,
            None => step is NotFound,
        }
    }
}

/// Decides one step of the walk to the repository root, given whether `dir`
/// holds `.atomic` and the parent of `dir`.
pub fn root_search_step(dir: &str, has_atomic_dir: bool, parent: Option<String>) -> (step:
    RootSearch)
    ensures
        is_root_search_step(dir@, has_atomic_dir, parent, step),
{
    if has_atomic_dir {
        return RootSearch::Found(dir.to_owned());
    }
    match parent {
        Some(p) => RootSearch::Next(p),
        None => RootSearch::NotFound,
    }
}

/// `step` is a step of the walk from `dir`: the root when `dir` holds
/// `.atomic`, else the step for the parent that `Path::parent` gives.
pub open spec fn is_find_step(dir: Seq<char>, has_atomic_dir: bool, step: RootSearch) -> bool {
    &&& has_atomic_dir ==> (step matches RootSearch::Found(root) && root@ == dir)
    &&& !has_atomic_dir ==> exists|parent: Option<String>|
        is_parent_of(dir, parent) && #[trigger] is_root_search_step(dir, false, parent, step)
}

/// `dirs` are the directories that a walk checked, in order: `flags[i]`
/// tells whether `dirs[i]` holds `.atomic`, `steps[i]` is the step taken
/// there, and every step but the last went on to the next directory.
pub open spec fn is_walk(dirs: Seq<Seq<char>>, flags: Seq<bool>, steps: Seq<RootSearch>) -> bool {
    &&& dirs.len() > 0
    &&& flags.len() == dirs.len()
    &&& steps.len() == dirs.len()
    &&& forall|i: int| 0 <= i < dirs.len() ==> is_find_step(dirs[i], flags[i], #[trigger] steps[i])
    &&& forall|i: int|
        0 <= i < dirs.len() - 1 ==> (#[trigger] steps[i] matches RootSearch::Next(next) && next@
            == dirs[i + 1])
}

/// The walk finds the nearest directory that holds `.atomic`: every
/// directory it passed lacks one, each is a proper prefix of the one before,
/// and it stops with the directory it checked last exactly when that one
/// holds `.atomic`; otherwise it stops because there is no parent.
pub proof fn lemma_walk_finds_nearest_root(
    dirs: Seq<Seq<char>>,
    flags: Seq<bool>,
    steps: Seq<RootSearch>,
)
    requires
        is_walk(dirs, flags, steps),
    ensures
        forall|i: int| 0 <= i < dirs.len() - 1 ==> !#[trigger] flags[i],
        forall|i: int|
            0 <= i < dirs.len() - 1 ==> (#[trigger] dirs[i + 1]).len() < dirs[i].len()
                && dirs[i + 1].is_prefix_of(dirs[i]),
        flags.last() ==> (steps.last() matches RootSearch::Found(root) && root@ == dirs.last()),
        !flags.last() ==> !(steps.last() is Found),
{
    assert forall|i: int| 0 <= i < dirs.len() - 1 implies !#[trigger] flags[i] by {
        assert(is_find_step(dirs[i], flags[i], steps[i]));
        assert(steps[i] is Next);
    }
    assert forall|i: int| 0 <= i < dirs.len() - 1 implies (#[trigger] dirs[i + 1]).len()
        < dirs[i].len() && dirs[i + 1].is_prefix_of(dirs[i]) by {
        assert(is_find_step(dirs[i], flags[i], steps[i]));
        assert(steps[i] is Next);
        let parent = choose|parent: Option<String>|
            is_parent_of(dirs[i], parent) && #[trigger] is_root_search_step(
                dirs[i],
                false,
                parent,
                steps[i],
            );
        assert(parent is Some);
    }
    let n = dirs.len() - 1;
    assert(is_find_step(dirs[n], flags[n], steps[n]));
}

/// One step of the walk up from a start directory to the repository root:
/// `dir` is the directory being checked and `has_atomic_dir` tells whether it
/// holds a `.atomic` directory. Otherwise the parent of `dir` is looked up,
/// and the walk goes on there; it ends, since every next directory is
/// shorter than the one before.
pub fn find_repo_root(dir: &str, has_atomic_dir: bool) -> (step: RootSearch)
    ensures
        is_find_step(dir@, has_atomic_dir, step),
{
    if has_atomic_dir {
        return root_search_step(dir, true, None);
    }
    let parent = parent_dir(dir);
    let ghost p = parent;
    let step = root_search_step(dir, false, parent);
    assert(is_parent_of(dir@, p) && is_root_search_step(dir@, false, p, step));
    step
}

/// `path` is `recall.db` in the `.atomic` directory of `repo_root`, each
/// name adjoined to the path before it, where the root has no verbatim
/// prefix.
pub open spec fn is_index_db_path(repo_root: Seq<char>, path: Seq<char>) -> bool {
    has_no_verbatim_prefix(repo_root) ==> exists|dir: Seq<char>|
        adjoined(repo_root, ".atomic"@, dir) && #[trigger] adjoined(dir, "recall.db"@, path)
}

/// The file that holds the index of the repository at `repo_root`:
/// `recall.db` in its `.atomic` directory (`repo_root.join(".atomic")
/// .join("recall.db")`). Where the root has a verbatim prefix, Windows
/// rebuilds the path, and nothing more is stated.
pub fn index_db_path(repo_root: &str) -> (path: String)
    ensures
        is_index_db_path(repo_root@, path@),
{
    proof {
        reveal_strlit("recall.db");
        reveal_strlit(".atomic");
    }
    let atomic_dir = join_path(repo_root, ".atomic");
    let path = join_path(atomic_dir.as_str(), "recall.db");
    proof {
        if has_no_verbatim_prefix(repo_root@) {
            assert(".atomic"@.len() == 7);
            assert("recall.db"@.len() == 9);
            assert(is_plain_component(".atomic"@));
            assert(is_plain_component("recall.db"@));
            assert(has_no_verbatim_prefix(atomic_dir@));
            assert(adjoined(atomic_dir@, "recall.db"@, path@));
        }
    }
    path
}

/// The position of the last `.` in `name`, if any.
pub open spec fn last_dot(name: Seq<char>) -> Option<int>
    decreases name.len(),
{
    if name.len() == 0 {
        None
    } else if name.last() == '.' {
        Some(name.len() - 1)
    } else {
        last_dot(name.drop_last())
    }
}

/// The extension of a file name, as `Path::extension` documents it: the part
/// after the last `.`; none when there is no `.`, when the only `.` starts
/// the name, or for `..`, which names no file.
pub open spec fn file_extension(name: Seq<char>) -> Option<Seq<char>> {
    if name == ".."@ {
        None
    } else {
        match last_dot(name) {
            Some(k) => if k == 0 {
                None
            } else {
                Some(name.subrange(k + 1, name.len() as int))
            },
            None => None,
        }
    }
}

/// When `name[k]` is a `.` and no later character is, `k` is the last dot.
proof fn lemma_last_dot_at(name: Seq<char>, k: int)
    requires
        0 <= k < name.len(),
        name[k] == '.',
        forall|j: int| k < j < name.len() ==> name[j] != '.',
    ensures
        last_dot(name) == Some(k),
    decreases name.len(),
{
    if k < name.len() - 1 {
        lemma_last_dot_at(name.drop_last(), k);
    }
}

/// The last dot, when there is one, is a `.` with no `.` after it.
proof fn lemma_last_dot_is_last(name: Seq<char>)
    ensures
        last_dot(name) matches Some(k) ==> 0 <= k < name.len() && name[k] == '.' && forall|j: int|
            k < j < name.len() ==> name[j] != '.',
    decreases name.len(),
{
    if name.len() > 0 && name.last() != '.' {
        let init = name.drop_last();
        lemma_last_dot_is_last(init);
        if let Some(k) = last_dot(name) {
            assert forall|j: int| k < j < name.len() implies name[j] != '.' by {
                if j < init.len() {
                    assert(name[j] == init[j]);
                }
            }
        }
    }
}

/// The file extension of change files.
pub const CHANGE_EXTENSION: &'static str = "change";

/// Whether a file with this name is a change file: its extension is `change`.
pub fn is_change_file_name(name: &str) -> (r: bool)
    ensures
        r == (file_extension(name@) == Some("change"@)),
{
    proof {
        reveal_strlit("change");
        reveal_strlit("..");
        lemma_last_dot_is_last(name@);
    }
    let n = name.unicode_len();
    if n <= 7 {
        proof {
            if let Some(k) = last_dot(name@) {
                if k > 0 && name@ != ".."@ {
                    assert(name@.subrange(k + 1, n as int).len() < 6);
                }
            }
        }
        return false;
    }
    let suffix = name.substring_char(n - 7, n);
    let matches = suffix.get_char(0) == '.' && suffix.get_char(1) == 'c' && suffix.get_char(2) == 'h'
        && suffix.get_char(3) == 'a' && suffix.get_char(4) == 'n' && suffix.get_char(5) == 'g'
        && suffix.get_char(6) == 'e';
    proof {
        let s = name@;
        if matches {
            assert(s[n - 7] == '.');
            assert forall|j: int| n - 7 < j < n implies s[j] != '.' by {
                assert(s[j] == suffix@[j - (n - 7)]);
            }
            lemma_last_dot_at(s, n - 7);
            assert(s.subrange(n - 6, n as int) =~= "change"@);
            assert(s != ".."@);
        } else {
            if let Some(k) = last_dot(s) {
                if k > 0 && s.subrange(k + 1, n as int) == "change"@ {
                    assert(s.subrange(k + 1, n as int).len() == 6);
                    assert(k == n - 7);
                    assert(suffix@ =~= s.subrange(n - 7, n as int));
                    assert(s[k] == '.');
                    let tail = s.subrange(k + 1, n as int);
                    assert(tail =~= seq!['c', 'h', 'a', 'n', 'g', 'e']);
                    assert(suffix@[1] == tail[0] && suffix@[2] == tail[1] && suffix@[3] == tail[2]);
                    assert(suffix@[4] == tail[3] && suffix@[5] == tail[4] && suffix@[6] == tail[5]);
                    assert(suffix@[0] == s[k]);
                    assert(false);
                }
            }
        }
    }
    matches
}

} // verus!
