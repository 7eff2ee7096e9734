//! The directories that the files of a torrent need.
use vstd::prelude::*;

use vstd::string::StrSliceExecFns;

use crate::paths;
use crate::text;

verus! {

/// A file of a torrent: its path and its size.
#[derive(Debug, Clone)]
pub struct FileEntry {
    pub path: String,
    pub size: i64,
}

/// A directory to make.
pub struct DirPlan {
    pub path: String,
    pub name: String,
    /// The directory it stands in, by its place in the list.
    pub parent: Option<usize>,
}

/// Where a file goes.
pub struct FilePlan {
    pub name: String,
    /// The directory it stands in, by its place in the list.
    pub dir: Option<usize>,
}

/// Directories in the order in which they are made, and where the files go.
pub struct TreePlan {
    pub dirs: Vec<DirPlan>,
    pub files: Vec<FilePlan>,
}

/// The last part of a path.
pub open spec fn base(path: Seq<char>) -> Seq<char> {
    match paths::last_slash(path) {
        Some(at) => path.skip(at + 1),
        None => path,
    }
}

/// A list of directories with one more, behind those it stands in.
pub open spec fn with_dir(dirs: Seq<Seq<char>>, path: Seq<char>) -> Seq<Seq<char>>
    decreases path.len(),
{
    if dirs.contains(path) {
        dirs
    } else {
        match paths::last_slash(path) {
            Some(at) => {
                proof {
                    paths::lemma_last_slash(path);
                }
                with_dir(dirs, path.take(at)).push(path)
            },
            None => dirs.push(path),
        }
    }
}

/// The directories that files need, in the order in which they are made.
pub open spec fn dirs_for(files: Seq<FileEntry>) -> Seq<Seq<char>>
    decreases files.len(),
{
    if files.len() == 0 {
        Seq::empty()
    } else {
        let before = dirs_for(files.drop_last());
        match paths::parent(files.last().path@) {
            Some(dir) => with_dir(before, dir),
            None => before,
        }
    }
}

/// The paths of directories.
pub open spec fn dir_paths(dirs: Seq<DirPlan>) -> Seq<Seq<char>> {
    Seq::new(dirs.len(), |i: int| dirs[i].path@)
}

/// Whether a place in the list is that of a path, or none where there is no path.
pub open spec fn is_place(dirs: Seq<Seq<char>>, place: Option<usize>, path: Option<Seq<char>>) -> bool {
    match (place, path) {
        (Some(i), Some(p)) => i < dirs.len() && dirs[i as int] == p,
        (None, None) => true,
        _ => false,
    }
}

/// Whether every directory has its name and comes behind the one it stands in.
pub open spec fn in_order(dirs: Seq<DirPlan>) -> bool {
    forall|i: int|
        0 <= i < dirs.len() ==> (#[trigger] dirs[i]).name@ == base(dirs[i].path@) && is_place(
            dir_paths(dirs),
            dirs[i].parent,
            paths::parent(dirs[i].path@),
        ) && (dirs[i].parent matches Some(p) ==> p < i)
}

fn base_of(path: &str) -> (name: String)
    ensures
        name@ == base(path@),
{
    let len: usize = path.unicode_len();
    match paths::parent_of(path) {
        Some(dir) => {
            proof {
                paths::lemma_last_slash(path@);
            }
            let at: usize = dir.as_str().unicode_len();
            let name = path.substring_char(at + 1, len).to_owned();
            assert(name@ =~= path@.skip(at + 1));
            name
        },
        None => path.to_owned(),
    }
}

fn find_dir(dirs: &Vec<DirPlan>, path: &str) -> (at: Option<usize>)
    ensures
        match at {
            Some(i) => i < dirs@.len() && dirs@[i as int].path@ == path@,
            None => !dir_paths(dirs@).contains(path@),
        },
{
    let mut i: usize = 0;
    while i < dirs.len()
        invariant
            i <= dirs@.len(),
            forall|j: int| 0 <= j < i ==> (#[trigger] dir_paths(dirs@)[j]) != path@,
        decreases dirs@.len() - i,
    {
        if text::same(dirs[i].path.as_str(), path) {
            return Some(i);
        }
        i = i + 1;
    }
    None
}

/// Makes sure that a directory is in the list, behind those it stands in.
fn ensure_dir(dirs: &mut Vec<DirPlan>, path: &str) -> (at: usize)
    requires
        in_order(old(dirs)@),
    ensures
        in_order(final(dirs)@),
        dir_paths(final(dirs)@) == with_dir(dir_paths(old(dirs)@), path@),
        dir_paths(old(dirs)@).is_prefix_of(dir_paths(final(dirs)@)),
        at < final(dirs)@.len(),
        final(dirs)@[at as int].path@ == path@,
    decreases path@.len(),
{
    let ghost before = dirs@;
    match find_dir(dirs, path) {
        Some(i) => {
            assert(dir_paths(before)[i as int] == path@);
            i
        },
        None => {
            proof {
                paths::lemma_last_slash(path@);
            }
            let parent: Option<usize> = match paths::parent_of(path) {
                Some(dir) => Some(ensure_dir(dirs, dir.as_str())),
                None => None,
            };
            let ghost mid = dirs@;
            let at: usize = dirs.len();
            dirs.push(DirPlan { path: path.to_owned(), name: base_of(path), parent });
            proof {
                let after = dirs@;
                assert(dir_paths(after) =~= dir_paths(mid).push(path@));
                assert forall|i: int| 0 <= i < after.len() implies (#[trigger] after[i]).name@
                    == base(after[i].path@) && is_place(
                    dir_paths(after),
                    after[i].parent,
                    paths::parent(after[i].path@),
                ) && (after[i].parent matches Some(p) ==> p < i) by {
                    if i < mid.len() {
                        assert(after[i] == mid[i]);
                        match mid[i].parent {
                            Some(p) => {
                                assert(dir_paths(after)[p as int] == dir_paths(mid)[p as int]);
                            },
                            None => {},
                        }
                    } else {
                        match parent {
                            Some(p) => {
                                assert(dir_paths(after)[p as int] == dir_paths(mid)[p as int]);
                            },
                            None => {},
                        }
                    }
                }
                assert(dir_paths(before).is_prefix_of(dir_paths(after))) by {
                    assert(dir_paths(before) == dir_paths(mid).take(before.len() as int));
                    assert(dir_paths(after).take(before.len() as int) =~= dir_paths(before));
                }
            }
            at
        },
    }
}

/// Plans the directories of a torrent and where its files go. Each directory is
/// made once, behind those it stands in.
pub fn plan_tree(files: &Vec<FileEntry>) -> (plan: TreePlan)
    ensures
        dir_paths(plan.dirs@) == dirs_for(files@),
        in_order(plan.dirs@),
        plan.files@.len() == files@.len(),
        forall|i: int|
            0 <= i < files@.len() ==> (#[trigger] plan.files@[i]).name@ == base(files@[i].path@)
                && is_place(
                dirs_for(files@),
                plan.files@[i].dir,
                paths::parent(files@[i].path@),
            ),
{
    let mut dirs: Vec<DirPlan> = Vec::new();
    let mut placed: Vec<FilePlan> = Vec::new();
    let mut i: usize = 0;
    assert(dir_paths(dirs@) =~= dirs_for(files@.take(0)));
    while i < files.len()
        invariant
            i <= files@.len(),
            dir_paths(dirs@) == dirs_for(files@.take(i as int)),
            in_order(dirs@),
            placed@.len() == i,
            forall|j: int|
                0 <= j < i ==> (#[trigger] placed@[j]).name@ == base(files@[j].path@) && is_place(
                    dir_paths(dirs@),
                    placed@[j].dir,
                    paths::parent(files@[j].path@),
                ),
        decreases files@.len() - i,
    {
        let ghost before = dir_paths(dirs@);
        let ghost was = placed@;
        assert(files@.take(i as int + 1).drop_last() =~= files@.take(i as int));
        assert(files@.take(i as int + 1).last() == files@[i as int]);
        let dir: Option<usize> = match paths::parent_of(files[i].path.as_str()) {
            Some(dir) => Some(ensure_dir(&mut dirs, dir.as_str())),
            None => None,
        };
        placed.push(FilePlan { name: base_of(files[i].path.as_str()), dir });
        proof {
            let after = dir_paths(dirs@);
            assert(before.is_prefix_of(after)) by {
                if dir is None {
                    assert(before.take(before.len() as int) =~= before);
                }
            }
            assert forall|j: int| 0 <= j < i + 1 implies (#[trigger] placed@[j]).name@ == base(
                files@[j].path@,
            ) && is_place(after, placed@[j].dir, paths::parent(files@[j].path@)) by {
                if j < i {
                    assert(placed@[j] == was[j]);
                    match was[j].dir {
                        Some(p) => {
                            assert(before == after.take(before.len() as int));
                            assert(after[p as int] == before[p as int]);
                        },
                        None => {},
                    }
                }
            }
        }
        i = i + 1;
    }
    assert(files@.take(files@.len() as int) =~= files@);
    TreePlan { dirs, files: placed }
}

proof fn lemma_with_dir_is_unique(dirs: Seq<Seq<char>>, path: Seq<char>)
    requires
        dirs.no_duplicates(),
    ensures
        with_dir(dirs, path).no_duplicates(),
        with_dir(dirs, path).contains(path),
        forall|p: Seq<char>|
            with_dir(dirs, path).contains(p) ==> dirs.contains(p) || p.len() <= path.len(),
    decreases path.len(),
{
    if !dirs.contains(path) {
        paths::lemma_last_slash(path);
        let before = match paths::last_slash(path) {
            Some(at) => {
                lemma_with_dir_is_unique(dirs, path.take(at));
                with_dir(dirs, path.take(at))
            },
            None => dirs,
        };
        let after = before.push(path);
        assert(!before.contains(path));
        assert(after[before.len() as int] == path);
        assert forall|p: Seq<char>| after.contains(p) implies dirs.contains(p) || p.len()
            <= path.len() by {
            let k = choose|k: int| 0 <= k < after.len() && after[k] == p;
            if k < before.len() {
                assert(before[k] == p);
                assert(before.contains(p));
            }
        }
        assert forall|i: int, j: int| 0 <= i < j < after.len() implies after[i] != after[j] by {
            if j < before.len() {
                assert(before[i] != before[j]);
            } else {
                assert(before[i] == after[i]);
                assert(before.contains(after[i]));
            }
        }
    }
}

/// No directory is made twice.
pub proof fn law_directories_are_made_once(files: Seq<FileEntry>)
    ensures
        dirs_for(files).no_duplicates(),
    decreases files.len(),
{
    if files.len() > 0 {
        law_directories_are_made_once(files.drop_last());
        match paths::parent(files.last().path@) {
            Some(dir) => {
                lemma_with_dir_is_unique(dirs_for(files.drop_last()), dir);
            },
            None => {},
        }
    }
}

/// The path of a file is that of its directory and its name.
pub proof fn law_path_is_directory_and_name(path: Seq<char>)
    ensures
        match paths::parent(path) {
            Some(dir) => path == dir.push('/') + base(path),
            None => path == base(path),
        },
        !base(path).contains('/'),
{
    paths::lemma_last_slash(path);
    match paths::last_slash(path) {
        Some(at) => {
            assert(path =~= path.take(at).push('/') + base(path));
            if base(path).contains('/') {
                let k = choose|k: int| 0 <= k < base(path).len() && base(path)[k] == '/';
                assert(path[at + 1 + k] == '/');
            }
        },
        None => {},
    }
}

/// Whether a path is that of a directory on the way to another path.
pub open spec fn on_the_way(dir: Seq<char>, path: Seq<char>) -> bool {
    dir.len() < path.len() && path[dir.len() as int] == '/' && path.take(dir.len() as int) == dir
}

/// Whether the directories on the way to each of some directories are among them.
pub open spec fn closed_upwards(dirs: Seq<Seq<char>>) -> bool {
    forall|i: int, d: Seq<char>|
        0 <= i < dirs.len() && #[trigger] on_the_way(d, dirs[i]) ==> dirs.contains(d)
}

proof fn lemma_way_through_parent(dir: Seq<char>, path: Seq<char>)
    requires
        paths::last_slash(path) is Some,
    ensures
        on_the_way(dir, path) <==> dir == path.take(paths::last_slash(path)->0) || on_the_way(
            dir,
            path.take(paths::last_slash(path)->0),
        ),
{
    paths::lemma_last_slash(path);
    let at = paths::last_slash(path)->0;
    let parent = path.take(at);
    let n = dir.len() as int;
    if on_the_way(dir, path) {
        assert(n <= at);
        if n < at {
            assert(parent[n] == path[n]);
            assert(parent.take(n) =~= path.take(n));
        }
    }
    if on_the_way(dir, parent) {
        assert(parent[n] == path[n]);
        assert(parent.take(n) =~= path.take(n));
    }
}

proof fn lemma_with_dir_adds_the_way(dirs: Seq<Seq<char>>, path: Seq<char>, d: Seq<char>)
    requires
        closed_upwards(dirs),
    ensures
        closed_upwards(with_dir(dirs, path)),
        with_dir(dirs, path).contains(d) <==> dirs.contains(d) || d == path || on_the_way(d, path),
    decreases path.len(),
{
    paths::lemma_last_slash(path);
    if dirs.contains(path) {
        if on_the_way(d, path) {
            let i = choose|i: int| 0 <= i < dirs.len() && dirs[i] == path;
            assert(on_the_way(d, dirs[i]));
        }
    } else {
        let after = with_dir(dirs, path);
        match paths::last_slash(path) {
            Some(at) => {
                let parent = path.take(at);
                let before = with_dir(dirs, parent);
                lemma_with_dir_adds_the_way(dirs, parent, d);
                lemma_way_through_parent(d, path);
                assert(after == before.push(path));
                lemma_pushed(before, path, d);
                assert forall|i: int, e: Seq<char>|
                    0 <= i < after.len() && #[trigger] on_the_way(e, after[i]) implies after.contains(
                    e,
                ) by {
                    lemma_pushed(before, path, e);
                    if i < before.len() {
                        assert(on_the_way(e, before[i]));
                    } else {
                        lemma_way_through_parent(e, path);
                        lemma_with_dir_adds_the_way(dirs, parent, e);
                    }
                }
            },
            None => {
                assert forall|e: Seq<char>| !on_the_way(e, path) by {
                    if on_the_way(e, path) {
                        assert(path[e.len() as int] == '/');
                    }
                }
                lemma_pushed(dirs, path, d);
                assert forall|i: int, e: Seq<char>|
                    0 <= i < after.len() && #[trigger] on_the_way(e, after[i]) implies after.contains(
                    e,
                ) by {
                    lemma_pushed(dirs, path, e);
                    if i < dirs.len() {
                        assert(on_the_way(e, dirs[i]));
                    }
                }
            },
        }
    }
}

proof fn lemma_pushed(dirs: Seq<Seq<char>>, path: Seq<char>, d: Seq<char>)
    ensures
        dirs.push(path).contains(d) <==> dirs.contains(d) || d == path,
{
    let after = dirs.push(path);
    if dirs.contains(d) {
        let i = choose|i: int| 0 <= i < dirs.len() && dirs[i] == d;
        assert(after[i] == d);
    }
    if d == path {
        assert(after[dirs.len() as int] == d);
    }
    if after.contains(d) {
        let i = choose|i: int| 0 <= i < after.len() && after[i] == d;
        if i < dirs.len() {
            assert(dirs[i] == d);
        }
    }
}

/// The directories that are made are exactly those on the way to some file.
pub proof fn law_directories_lead_to_files(files: Seq<FileEntry>, d: Seq<char>)
    ensures
        closed_upwards(dirs_for(files)),
        dirs_for(files).contains(d) <==> exists|i: int|
            0 <= i < files.len() && on_the_way(d, (#[trigger] files[i]).path@),
    decreases files.len(),
{
    if files.len() > 0 {
        let rest = files.drop_last();
        let n = files.len() - 1;
        let path = files.last().path@;
        law_directories_lead_to_files(rest, d);
        let before = dirs_for(rest);
        paths::lemma_last_slash(path);
        match paths::parent(path) {
            Some(dir) => {
                lemma_with_dir_adds_the_way(before, dir, d);
                lemma_way_through_parent(d, path);
            },
            None => {
                if on_the_way(d, path) {
                    assert(path[d.len() as int] == '/');
                }
            },
        }
        if exists|i: int| 0 <= i < rest.len() && on_the_way(d, (#[trigger] rest[i]).path@) {
            let i = choose|i: int|
                0 <= i < rest.len() && on_the_way(d, (#[trigger] rest[i]).path@);
            assert(on_the_way(d, files[i].path@));
        }
        if on_the_way(d, path) {
            assert(on_the_way(d, files[n].path@));
        }
        if exists|i: int| 0 <= i < files.len() && on_the_way(d, (#[trigger] files[i]).path@) {
            let i = choose|i: int|
                0 <= i < files.len() && on_the_way(d, (#[trigger] files[i]).path@);
            if i < n {
                assert(on_the_way(d, rest[i].path@));
            }
        }
    }
}

/// In a plan every directory is named by the last part of its path and stands behind
/// its parent; one without a slash in its path has no parent.
pub proof fn law_parents_are_made_first(dirs: Seq<DirPlan>, i: int)
    requires
        in_order(dirs),
        0 <= i < dirs.len(),
    ensures
        match dirs[i].parent {
            Some(p) => p < i && dirs[i].path@ == dirs[p as int].path@ + seq!['/']
                + dirs[i].name@,
            None => dirs[i].path@ == dirs[i].name@,
        },
        !dirs[i].name@.contains('/'),
{
    let path = dirs[i].path@;
    law_path_is_directory_and_name(path);
    assert(dirs[i].name@ == base(path));
    if let Some(p) = dirs[i].parent {
        let dir = dir_paths(dirs)[p as int];
        assert(dir.push('/') + base(path) =~= dir + seq!['/'] + base(path));
    }
}

} // verus!
