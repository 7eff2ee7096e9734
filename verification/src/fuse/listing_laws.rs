//! What holds between listings, lookups and the table of nodes.
use vstd::prelude::*;

use crate::db::types::{Torrent, TorrentDirectory, TorrentFile};
use crate::fuse::inodes;
use crate::fuse::inodes::{FileKind, Node, NodeData};
use crate::fuse::lookup;
use crate::fuse::lookup::{ChildView, DbRows, EntryView, ListingView, MetaFile};
use crate::paths;
use crate::text;

verus! {

/// Whether a name could be one part of a path.
pub open spec fn is_part(name: Seq<char>) -> bool {
    name.len() > 0 && !name.contains('/')
}

// ── Reading a directory in parts ────────────────────────────────────────────

/// Going on behind an offset shows exactly the entries with greater offsets, in
/// order: a reader that goes on after the last entry it got misses none and gets
/// none twice.
pub proof fn law_listing_resumes(node: Node, l: ListingView, offset: i64)
    requires
        l.children.len() + 2 <= u64::MAX,
    ensures
        forall|i: int|
            0 <= i < lookup::entries(node, l).len() ==> (#[trigger] lookup::entries(
                node,
                l,
            )[i]).offset == i + 1,
        lookup::behind(lookup::entries(node, l), offset) == lookup::entries(node, l).skip(
            if offset <= 0 {
                0
            } else if offset >= lookup::entries(node, l).len() {
                lookup::entries(node, l).len() as int
            } else {
                offset as int
            },
        ),
{
    let all = lookup::entries(node, l);
    assert(all.skip(0) =~= all);
    assert(all.skip(all.len() as int) =~= Seq::empty());
}

/// Every listing starts with the directory itself and the one above it.
pub proof fn law_listing_starts_with_dots(node: Node, l: ListingView)
    ensures
        lookup::entries(node, l)[0].name == "."@,
        lookup::entries(node, l)[0].target == node,
        lookup::entries(node, l)[1].name == ".."@,
        lookup::entries(node, l)[1].target == l.above,
{
}

proof fn lemma_parent_of_child(dir: Seq<char>, name: Seq<char>)
    requires
        is_part(name),
    ensures
        paths::parent(paths::child(dir, name)) == (if dir.len() == 0 {
            None
        } else {
            Some(dir)
        }),
{
    let path = paths::child(dir, name);
    paths::lemma_last_slash(path);
    match paths::last_slash(path) {
        Some(at) => {
            if dir.len() == 0 {
                assert(name.contains(path[at]));
            } else {
                assert(path[dir.len() as int] == '/');
                if at > dir.len() {
                    assert(path[at] == name[at - dir.len() - 1]);
                    assert(name.contains('/'));
                }
                assert(path.take(at) =~= dir);
            }
        },
        None => {
            if dir.len() > 0 {
                assert(path[dir.len() as int] == '/');
            }
        },
    }
}

/// From a directory on the way to torrents, `..` leads back to the directory that
/// lists it.
pub proof fn law_place_leads_back(path: Seq<char>, name: Seq<char>)
    requires
        is_part(name),
    ensures
        lookup::above(paths::child(path, name)) == (if path.len() == 0 {
            Node::Data
        } else {
            Node::SourcePath(path)
        }),
{
    lemma_parent_of_child(path, name);
}

/// From a directory of a torrent that is being added, `..` leads back to the
/// directory that lists it, or to the torrent.
pub proof fn law_pending_dir_leads_back(
    source_path: Seq<char>,
    filename: Seq<char>,
    dir_path: Seq<char>,
    name: Seq<char>,
)
    requires
        is_part(name),
    ensures
        lookup::above_pending(source_path, filename, paths::child(dir_path, name)) == (if dir_path.len()
            == 0 {
            Node::PendingTorrent(source_path, filename)
        } else {
            Node::PendingDir(source_path, filename, dir_path)
        }),
{
    lemma_parent_of_child(dir_path, name);
}

// ── Listings and lookups of the database ────────────────────────────────────

proof fn lemma_first_torrent(torrents: Seq<Torrent>, name: Seq<char>)
    ensures
        match lookup::first_torrent(torrents, name) {
            Some(node) => exists|i: int|
                0 <= i < torrents.len() && (#[trigger] torrents[i]).filename@ == name && node
                    == lookup::torrent_node(torrents[i]),
            None => forall|i: int|
                0 <= i < torrents.len() ==> (#[trigger] torrents[i]).filename@ != name,
        },
    decreases torrents.len(),
{
    if torrents.len() > 0 {
        if torrents[0].filename@ == name {
            assert(torrents[0].filename@ == name);
        } else {
            let rest = torrents.skip(1);
            lemma_first_torrent(rest, name);
            if lookup::first_torrent(rest, name) is Some {
                let node = lookup::first_torrent(rest, name)->0;
                let i = choose|i: int|
                    0 <= i < rest.len() && (#[trigger] rest[i]).filename@ == name && node
                        == lookup::torrent_node(rest[i]);
                assert(torrents[i + 1].filename@ == name);
            } else {
                assert forall|i: int| 0 <= i < torrents.len() implies (
                #[trigger] torrents[i]).filename@ != name by {
                    if i > 0 {
                        assert(rest[i - 1].filename@ != name);
                    }
                }
            }
        }
    }
}

proof fn lemma_first_dir(torrent_id: i64, dirs: Seq<TorrentDirectory>, name: Seq<char>)
    ensures
        match lookup::first_dir(torrent_id, dirs, name) {
            Some(node) => exists|i: int|
                0 <= i < dirs.len() && (#[trigger] dirs[i]).name@ == name && node
                    == lookup::dir_node(torrent_id, dirs[i]),
            None => forall|i: int| 0 <= i < dirs.len() ==> (#[trigger] dirs[i]).name@ != name,
        },
    decreases dirs.len(),
{
    if dirs.len() > 0 {
        if dirs[0].name@ == name {
            assert(dirs[0].name@ == name);
        } else {
            let rest = dirs.skip(1);
            lemma_first_dir(torrent_id, rest, name);
            if lookup::first_dir(torrent_id, rest, name) is Some {
                let node = lookup::first_dir(torrent_id, rest, name)->0;
                let i = choose|i: int|
                    0 <= i < rest.len() && (#[trigger] rest[i]).name@ == name && node
                        == lookup::dir_node(torrent_id, rest[i]);
                assert(dirs[i + 1].name@ == name);
            } else {
                assert forall|i: int| 0 <= i < dirs.len() implies (#[trigger] dirs[i]).name@
                    != name by {
                    if i > 0 {
                        assert(rest[i - 1].name@ != name);
                    }
                }
            }
        }
    }
}

proof fn lemma_first_file(torrent_id: i64, files: Seq<TorrentFile>, name: Seq<char>)
    ensures
        match lookup::first_file(torrent_id, files, name) {
            Some(node) => exists|i: int|
                0 <= i < files.len() && (#[trigger] files[i]).name@ == name && node
                    == lookup::file_node(torrent_id, files[i]),
            None => forall|i: int| 0 <= i < files.len() ==> (#[trigger] files[i]).name@ != name,
        },
    decreases files.len(),
{
    if files.len() > 0 {
        if files[0].name@ == name {
            assert(files[0].name@ == name);
        } else {
            let rest = files.skip(1);
            lemma_first_file(torrent_id, rest, name);
            if lookup::first_file(torrent_id, rest, name) is Some {
                let node = lookup::first_file(torrent_id, rest, name)->0;
                let i = choose|i: int|
                    0 <= i < rest.len() && (#[trigger] rest[i]).name@ == name && node
                        == lookup::file_node(torrent_id, rest[i]);
                assert(files[i + 1].name@ == name);
            } else {
                assert forall|i: int| 0 <= i < files.len() implies (#[trigger] files[i]).name@
                    != name by {
                    if i > 0 {
                        assert(rest[i - 1].name@ != name);
                    }
                }
            }
        }
    }
}

/// A name is found in a directory on the way to torrents exactly when the
/// directory lists it, and what it means there is listed under it.
pub proof fn law_place_listing_matches_lookup(
    node: Node,
    path: Seq<char>,
    prefixes: Vec<String>,
    torrents: Vec<Torrent>,
    rows: DbRows,
    name: Seq<char>,
)
    requires
        rows.prefixes == Some(prefixes),
        rows.torrents == Some(torrents),
    ensures
        lookup::names(lookup::place_children(node, path, prefixes@, torrents@)).contains(name)
            <==> lookup::found_in_place(rows, path, name) is Some,
        match lookup::found_in_place(rows, path, name) {
            Some(found) => lookup::place_children(node, path, prefixes@, torrents@).contains(
                lookup::shown(found, name),
            ),
            None => true,
        },
{
    let held = lookup::place_children(node, path, prefixes@, torrents@);
    let all = lookup::names(held);
    let p = prefixes@.len() as int;
    let t = torrents@.len() as int;
    let p0: int = if node == Node::Data {
        t
    } else {
        0
    };
    let t0: int = if node == Node::Data {
        0
    } else {
        p
    };
    assert forall|i: int| 0 <= i < p implies held[p0 + i] == lookup::shown(
        lookup::place_node(paths::child(path, (#[trigger] prefixes@[i])@)),
        prefixes@[i]@,
    ) by {}
    assert forall|i: int| 0 <= i < t implies held[t0 + i] == lookup::shown(
        lookup::torrent_node(#[trigger] torrents@[i]),
        torrents@[i].filename@,
    ) by {}
    lemma_first_torrent(torrents@, name);
    let texts = text::texts(prefixes@);
    if all.contains(name) {
        let k = choose|k: int| 0 <= k < all.len() && all[k] == name;
        if p0 <= k < p0 + p {
            assert(prefixes@[k - p0]@ == name);
            assert(texts[k - p0] == name);
        } else {
            assert(torrents@[k - t0].filename@ == name);
        }
    }
    if texts.contains(name) {
        let i = choose|i: int| 0 <= i < texts.len() && texts[i] == name;
        assert(prefixes@[i]@ == name);
        assert(all[p0 + i] == name);
        assert(held[p0 + i] == lookup::shown(lookup::place_node(paths::child(path, name)), name));
    } else if lookup::first_torrent(torrents@, name) is Some {
        let found = lookup::first_torrent(torrents@, name)->0;
        let i = choose|i: int|
            0 <= i < torrents@.len() && (#[trigger] torrents@[i]).filename@ == name && found
                == lookup::torrent_node(torrents@[i]);
        assert(all[t0 + i] == name);
        assert(held[t0 + i] == lookup::shown(found, name));
    }
}

/// A name is found in a torrent, or one of its directories, exactly when it is
/// listed there, and what it means there is listed under it.
pub proof fn law_inside_listing_matches_lookup(rows: DbRows, torrent_id: i64, name: Seq<char>)
    requires
        rows.dirs is Some,
        rows.files is Some,
    ensures
        match lookup::inside_children(rows, torrent_id) {
            Some(children) => {
                &&& lookup::names(children).contains(name) <==> lookup::found_inside(
                    rows,
                    torrent_id,
                    name,
                ) is Some
                &&& match lookup::found_inside(rows, torrent_id, name) {
                    Some(found) => children.contains(lookup::shown(found, name)),
                    None => true,
                }
            },
            None => false,
        },
{
    let dirs = rows.dirs->0@;
    let files = rows.files->0@;
    let children = lookup::inside_children(rows, torrent_id)->0;
    let all = lookup::names(children);
    let d = dirs.len() as int;
    assert forall|i: int| 0 <= i < d implies children[i] == lookup::shown(
        lookup::dir_node(torrent_id, #[trigger] dirs[i]),
        dirs[i].name@,
    ) by {}
    assert forall|i: int| 0 <= i < files.len() implies children[d + i] == lookup::shown(
        lookup::file_node(torrent_id, #[trigger] files[i]),
        files[i].name@,
    ) by {}
    lemma_first_dir(torrent_id, dirs, name);
    lemma_first_file(torrent_id, files, name);
    if all.contains(name) {
        let k = choose|k: int| 0 <= k < all.len() && all[k] == name;
        if k < d {
            assert(dirs[k].name@ == name);
        } else {
            assert(files[k - d].name@ == name);
        }
    }
    if lookup::first_dir(torrent_id, dirs, name) is Some {
        let found = lookup::first_dir(torrent_id, dirs, name)->0;
        let i = choose|i: int|
            0 <= i < dirs.len() && (#[trigger] dirs[i]).name@ == name && found == lookup::dir_node(
                torrent_id,
                dirs[i],
            );
        assert(all[i] == name);
        assert(children[i] == lookup::shown(found, name));
    } else if lookup::first_file(torrent_id, files, name) is Some {
        let found = lookup::first_file(torrent_id, files, name)->0;
        let i = choose|i: int|
            0 <= i < files.len() && (#[trigger] files[i]).name@ == name && found
                == lookup::file_node(torrent_id, files[i]);
        assert(all[d + i] == name);
        assert(children[d + i] == lookup::shown(found, name));
    }
}

// ── Torrents that are still being added ─────────────────────────────────────

proof fn lemma_pending_listed(
    metas: Seq<MetaFile>,
    processing: Seq<(Seq<char>, Seq<char>)>,
    source_path: Seq<char>,
    existing: Seq<Seq<char>>,
    filename: Seq<char>,
)
    requires
        processing.contains((source_path, filename)),
        !existing.contains(filename),
    ensures
        lookup::pending_children(metas, processing, source_path, existing).contains(
            lookup::shown(lookup::pending_root(metas, source_path, filename), filename),
        ),
    decreases processing.len(),
{
    let child = lookup::shown(lookup::pending_root(metas, source_path, filename), filename);
    let init = processing.drop_last();
    let before = lookup::pending_children(metas, init, source_path, existing);
    let after = lookup::pending_children(metas, processing, source_path, existing);
    let k = choose|k: int| 0 <= k < processing.len() && processing[k] == (source_path, filename);
    if k == processing.len() - 1 {
        assert(after[after.len() - 1] == child);
    } else {
        assert(init[k] == (source_path, filename));
        lemma_pending_listed(metas, init, source_path, existing, filename);
        let j = choose|j: int| 0 <= j < before.len() && before[j] == child;
        assert(after[j] == child);
    }
}

proof fn lemma_pending_are_new(
    metas: Seq<MetaFile>,
    processing: Seq<(Seq<char>, Seq<char>)>,
    source_path: Seq<char>,
    existing: Seq<Seq<char>>,
)
    ensures
        forall|i: int|
            0 <= i < lookup::pending_children(metas, processing, source_path, existing).len() ==> {
                let c = #[trigger] lookup::pending_children(
                    metas,
                    processing,
                    source_path,
                    existing,
                )[i];
                &&& !existing.contains(c.name)
                &&& c == lookup::shown(lookup::pending_root(metas, source_path, c.name), c.name)
                &&& processing.contains((source_path, c.name))
            },
    decreases processing.len(),
{
    if processing.len() > 0 {
        let init = processing.drop_last();
        lemma_pending_are_new(metas, init, source_path, existing);
        let before = lookup::pending_children(metas, init, source_path, existing);
        let after = lookup::pending_children(metas, processing, source_path, existing);
        assert forall|i: int| 0 <= i < after.len() implies processing.contains(
            (source_path, (#[trigger] after[i]).name),
        ) by {
            if i < before.len() {
                assert(after[i] == before[i]);
                assert(init.contains((source_path, before[i].name)));
                let k = choose|k: int|
                    0 <= k < init.len() && init[k] == (source_path, before[i].name);
                assert(processing[k] == init[k]);
            } else {
                assert(processing[processing.len() - 1] == (source_path, after[i].name));
            }
        }
    }
}

/// A torrent that is being added is never missing: as long as the database has
/// nothing of its name in its directory, the directory lists it and a lookup
/// finds it, as the same node.
pub proof fn law_pending_torrent_is_visible(
    table: Map<Node, NodeData>,
    rows: DbRows,
    metas: Seq<MetaFile>,
    processing: Seq<(Seq<char>, Seq<char>)>,
    node: Node,
    path: Seq<char>,
    prefixes: Vec<String>,
    torrents: Vec<Torrent>,
    filename: Seq<char>,
)
    requires
        lookup::place_of(table, node) == Some(path),
        rows.prefixes == Some(prefixes),
        rows.torrents == Some(torrents),
        processing.contains((path, filename)),
        !lookup::names(lookup::place_children(node, path, prefixes@, torrents@)).contains(filename),
    ensures
        lookup::resolved(table, rows, metas, processing, node, filename) == Some(
            lookup::pending_root(metas, path, filename),
        ),
        match lookup::listing(table, rows, metas, processing, node) {
            Some(l) => l.children.contains(
                lookup::shown(lookup::pending_root(metas, path, filename), filename),
            ),
            None => false,
        },
{
    law_place_listing_matches_lookup(node, path, prefixes, torrents, rows, filename);
    let held = lookup::place_children(node, path, prefixes@, torrents@);
    let existing = lookup::names(held);
    lemma_pending_listed(metas, processing, path, existing, filename);
    let pending = lookup::pending_children(metas, processing, path, existing);
    let child = lookup::shown(lookup::pending_root(metas, path, filename), filename);
    let j = choose|j: int| 0 <= j < pending.len() && pending[j] == child;
    let l = lookup::listing(table, rows, metas, processing, node)->0;
    assert(l.children[held.len() as int + 1 + j] == child);
}

proof fn lemma_known(children: Seq<ChildView>, keep: spec_fn(Node, NodeData) -> bool)
    requires
        forall|i: int|
            0 <= i < children.len() ==> ((#[trigger] children[i]).data matches Some(d) ==> keep(
                children[i].target,
                d,
            )),
    ensures
        forall|i: int|
            0 <= i < lookup::known(children).len() ==> keep(
                (#[trigger] lookup::known(children)[i]).0,
                lookup::known(children)[i].1,
            ),
    decreases children.len(),
{
    if children.len() > 0 {
        let init = children.drop_last();
        assert(forall|i: int| 0 <= i < init.len() ==> init[i] == children[i]);
        lemma_known(init, keep);
        let all = lookup::known(children);
        let before = lookup::known(init);
        assert forall|i: int| 0 <= i < all.len() implies keep((#[trigger] all[i]).0, all[i].1) by {
            if i < before.len() {
                assert(all[i] == before[i]);
            } else {
                assert(children[children.len() - 1].data is Some);
            }
        }
    }
}

proof fn lemma_with_nodes(
    table: Map<Node, NodeData>,
    more: Seq<(Node, NodeData)>,
    keep: spec_fn(Node, NodeData) -> bool,
)
    requires
        forall|n: Node| #[trigger] table.contains_key(n) ==> keep(n, table[n]),
        forall|i: int| 0 <= i < more.len() ==> keep((#[trigger] more[i]).0, more[i].1),
    ensures
        forall|n: Node| #[trigger]
            inodes::with_nodes(table, more).contains_key(n) ==> keep(
                n,
                inodes::with_nodes(table, more)[n],
            ),
        forall|n: Node|
            table.contains_key(n) ==> #[trigger] inodes::with_nodes(table, more).contains_key(n),
    decreases more.len(),
{
    if more.len() > 0 {
        let init = more.drop_last();
        assert(forall|i: int| 0 <= i < init.len() ==> init[i] == more[i]);
        lemma_with_nodes(table, init, keep);
        assert(keep(more[more.len() - 1].0, more[more.len() - 1].1));
        assert forall|n: Node| #[trigger]
            inodes::with_nodes(table, more).contains_key(n) implies keep(
            n,
            inodes::with_nodes(table, more)[n],
        ) by {
            if n != more.last().0 {
                assert(inodes::with_nodes(table, init).contains_key(n));
            }
        }
        assert forall|n: Node| table.contains_key(n) implies #[trigger] inodes::with_nodes(
            table,
            more,
        ).contains_key(n) by {
            assert(inodes::with_nodes(table, init).contains_key(n));
        }
    }
}

/// Once the database has a torrent, listing its directory forgets whatever was
/// known of it while it was being added: the torrent, its directories and its
/// files.
pub proof fn law_landed_torrents_leave_nothing_behind(
    table: Map<Node, NodeData>,
    rows: DbRows,
    metas: Seq<MetaFile>,
    processing: Seq<(Seq<char>, Seq<char>)>,
    node: Node,
    path: Seq<char>,
    prefixes: Vec<String>,
    torrents: Vec<Torrent>,
)
    requires
        lookup::place_of(table, node) == Some(path),
        rows.prefixes == Some(prefixes),
        rows.torrents == Some(torrents),
        forall|i: int| 0 <= i < torrents@.len() ==> (#[trigger] torrents@[i]).id != 0,
    ensures
        match lookup::listing(table, rows, metas, processing, node) {
            Some(l) => forall|n: Node| #[trigger]
                lookup::table_after(table, l).contains_key(n) ==> !lookup::table_after(
                    table,
                    l,
                )[n].is_pending_in(
                    path,
                    lookup::names(lookup::place_children(node, path, prefixes@, torrents@)),
                ),
            None => false,
        },
{
    let held = lookup::place_children(node, path, prefixes@, torrents@);
    let existing = lookup::names(held);
    let l = lookup::listing(table, rows, metas, processing, node)->0;
    let keep = |n: Node, d: NodeData| !d.is_pending_in(path, existing);
    lemma_pending_are_new(metas, processing, path, existing);
    let pending = lookup::pending_children(metas, processing, path, existing);
    assert forall|i: int| 0 <= i < l.children.len() implies ((#[trigger] l.children[i]).data matches Some(
        d,
    ) ==> keep(l.children[i].target, d)) by {
        if i < held.len() {
            assert(l.children[i] == held[i]);
        } else if i == held.len() {
            assert(l.children[i] == lookup::stats_of(node));
        } else {
            assert(l.children[i] == pending[i - held.len() - 1]);
        }
    }
    lemma_known(l.children, keep);
    let kept = inodes::without_stale(table, path, existing);
    lemma_with_nodes(kept, lookup::known(l.children), keep);
}

proof fn lemma_slash_after_name(name: Seq<char>, rest: Seq<char>)
    requires
        !name.contains('/'),
    ensures
        paths::first_slash(name.push('/') + rest) == Some(name.len() as int),
{
    let path = name.push('/') + rest;
    paths::lemma_first_slash(path);
    match paths::first_slash(path) {
        Some(at) => {
            if at < name.len() {
                assert(path[at] == name[at]);
                assert(name.contains('/'));
            }
            assert(path[name.len() as int] == '/');
        },
        None => {
            assert(path[name.len() as int] == '/');
        },
    }
}

/// What every child of a torrent that is being added is made of.
spec fn child_is_sound(
    c: ChildView,
    files: Seq<(Seq<char>, u64)>,
    source_path: Seq<char>,
    filename: Seq<char>,
    dir_path: Seq<char>,
) -> bool {
    let path = paths::inside(dir_path) + c.name;
    if c.kind == FileKind::Directory {
        c == lookup::shown(
            lookup::pending_dir(source_path, filename, dir_path, c.name),
            c.name,
        ) && lookup::some_below(files, path)
    } else {
        is_part(c.name) && exists|i: int|
            0 <= i < files.len() && (#[trigger] files[i]).0 == path && c == lookup::shown(
                lookup::pending_file(source_path, filename, path, c.name, files[i].1),
                c.name,
            )
    }
}

proof fn lemma_children_sound(
    files: Seq<(Seq<char>, u64)>,
    source_path: Seq<char>,
    filename: Seq<char>,
    dir_path: Seq<char>,
)
    ensures
        forall|i: int|
            0 <= i < lookup::inner_children(files, source_path, filename, dir_path).len()
                ==> child_is_sound(
                #[trigger] lookup::inner_children(files, source_path, filename, dir_path)[i],
                files,
                source_path,
                filename,
                dir_path,
            ),
    decreases files.len(),
{
    if files.len() > 0 {
        let init = files.drop_last();
        let file = files.last();
        lemma_children_sound(init, source_path, filename, dir_path);
        let before = lookup::inner_children(init, source_path, filename, dir_path);
        let after = lookup::inner_children(files, source_path, filename, dir_path);
        let prefix = paths::inside(dir_path);
        let rest = file.0.skip(prefix.len() as int);
        assert(files[files.len() - 1] == file);
        assert forall|i: int| 0 <= i < after.len() implies child_is_sound(
            #[trigger] after[i],
            files,
            source_path,
            filename,
            dir_path,
        ) by {
            let c = after[i];
            let path = prefix + c.name;
            if i < before.len() {
                assert(c == before[i]);
                if c.kind == FileKind::Directory {
                    let j = choose|j: int|
                        0 <= j < init.len() && path.push('/').is_prefix_of((#[trigger] init[j]).0);
                    assert(files[j] == init[j]);
                    assert(lookup::some_below(files, path));
                } else {
                    let j = choose|j: int|
                        0 <= j < init.len() && (#[trigger] init[j]).0 == path && c == lookup::shown(
                            lookup::pending_file(source_path, filename, path, c.name, init[j].1),
                            c.name,
                        );
                    assert(files[j] == init[j]);
                }
            } else {
                paths::lemma_first_slash(rest);
                assert(file.0 =~= prefix + rest);
                match paths::first_slash(rest) {
                    Some(at) => {
                        assert(c.name == rest.take(at));
                        assert(path.push('/') =~= file.0.take(path.len() as int + 1));
                        assert(path.push('/').is_prefix_of(files[files.len() - 1].0));
                    },
                    None => {
                        assert(c.name == rest);
                        if rest.contains('/') {
                            let k = choose|k: int| 0 <= k < rest.len() && rest[k] == '/';
                            assert(false);
                        }
                        assert(path == file.0);
                        assert(files[files.len() - 1].0 == path);
                    },
                }
            }
        }
    }
}

/// Children stay when more files come.
proof fn lemma_children_grow(
    files: Seq<(Seq<char>, u64)>,
    n: int,
    source_path: Seq<char>,
    filename: Seq<char>,
    dir_path: Seq<char>,
)
    requires
        0 <= n <= files.len(),
    ensures
        lookup::inner_children(files.take(n), source_path, filename, dir_path).is_prefix_of(
            lookup::inner_children(files, source_path, filename, dir_path),
        ),
    decreases files.len() - n,
{
    if n < files.len() {
        lemma_children_grow(files, n + 1, source_path, filename, dir_path);
        assert(files.take(n + 1).drop_last() =~= files.take(n));
    } else {
        assert(files.take(n) =~= files);
    }
}

proof fn lemma_dir_is_listed(
    files: Seq<(Seq<char>, u64)>,
    source_path: Seq<char>,
    filename: Seq<char>,
    dir_path: Seq<char>,
    name: Seq<char>,
)
    requires
        !name.contains('/'),
        lookup::some_below(files, paths::inside(dir_path) + name),
    ensures
        lookup::has_dir(
            lookup::inner_children(files, source_path, filename, dir_path),
            name,
        ),
{
    let prefix = paths::inside(dir_path);
    let path = prefix + name;
    let k = choose|k: int|
        0 <= k < files.len() && path.push('/').is_prefix_of((#[trigger] files[k]).0);
    let file = files[k];
    let rest = file.0.skip(prefix.len() as int);
    let tail = file.0.skip(path.len() as int + 1);
    assert(path.push('/') == file.0.take(path.len() as int + 1));
    assert(rest =~= name.push('/') + tail) by {
        assert forall|i: int| 0 <= i < name.len() + 1 implies rest[i] == name.push('/')[i] by {
            assert(file.0[prefix.len() + i] == path.push('/')[prefix.len() + i]);
        }
    }
    lemma_slash_after_name(name, tail);
    assert(rest.take(name.len() as int) =~= name);
    assert(prefix.is_prefix_of(file.0)) by {
        assert(file.0.take(prefix.len() as int) =~= prefix) by {
            assert forall|i: int| 0 <= i < prefix.len() implies file.0[i] == prefix[i] by {
                assert(file.0[i] == path.push('/')[i]);
            }
        }
    }
    let upto = files.take(k + 1);
    assert(upto.drop_last() =~= files.take(k));
    let before = lookup::inner_children(files.take(k), source_path, filename, dir_path);
    let here = lookup::inner_children(upto, source_path, filename, dir_path);
    let all = lookup::inner_children(files, source_path, filename, dir_path);
    if !lookup::has_dir(before, name) {
        assert(here.last().name == name);
        assert(here[here.len() - 1].kind == FileKind::Directory);
    }
    assert(lookup::has_dir(here, name));
    lemma_children_grow(files, k + 1, source_path, filename, dir_path);
    let i = choose|i: int|
        0 <= i < here.len() && (#[trigger] here[i]).kind == FileKind::Directory && here[i].name
            == name;
    assert(all[i] == here[i]);
}

proof fn lemma_first_path(files: Seq<(Seq<char>, u64)>, path: Seq<char>)
    ensures
        lookup::first_path(files, path) is Some <==> exists|i: int|
            0 <= i < files.len() && (#[trigger] files[i]).0 == path,
    decreases files.len(),
{
    if files.len() > 0 {
        let rest = files.skip(1);
        lemma_first_path(rest, path);
        if files[0].0 != path {
            if lookup::first_path(files, path) is Some {
                let i = choose|i: int| 0 <= i < rest.len() && (#[trigger] rest[i]).0 == path;
                assert(files[i + 1].0 == path);
            }
            if exists|i: int| 0 <= i < files.len() && (#[trigger] files[i]).0 == path {
                let i = choose|i: int| 0 <= i < files.len() && (#[trigger] files[i]).0 == path;
                assert(rest[i - 1].0 == path);
            }
        }
    }
}

/// Whatever a torrent that is being added lists is found under its name, as the
/// same node; only where a directory and a file share a name does the name mean
/// the directory.
pub proof fn law_pending_listing_is_found(
    files: Seq<(Seq<char>, u64)>,
    source_path: Seq<char>,
    filename: Seq<char>,
    dir_path: Seq<char>,
    i: int,
)
    requires
        0 <= i < lookup::inner_children(files, source_path, filename, dir_path).len(),
    ensures
        ({
            let children = lookup::inner_children(files, source_path, filename, dir_path);
            let c = children[i];
            c.kind == FileKind::Directory || !lookup::has_dir(children, c.name) ==> (
            match lookup::found_in_pending(
                Some(files),
                source_path,
                filename,
                dir_path,
                c.name,
            ) {
                Some((node, _)) => node == c.target,
                None => false,
            })
        }),
{
    let children = lookup::inner_children(files, source_path, filename, dir_path);
    let c = children[i];
    lemma_children_sound(files, source_path, filename, dir_path);
    let path = paths::inside(dir_path) + c.name;
    if c.kind != FileKind::Directory {
        lemma_first_path(files, path);
        if lookup::some_below(files, path) {
            lemma_dir_is_listed(files, source_path, filename, dir_path, c.name);
        }
    }
}

/// Whatever is found under the name of one path part in a torrent that is being
/// added is listed there, as the same node.
pub proof fn law_found_in_pending_is_listed(
    files: Seq<(Seq<char>, u64)>,
    source_path: Seq<char>,
    filename: Seq<char>,
    dir_path: Seq<char>,
    name: Seq<char>,
)
    requires
        is_part(name),
    ensures
        match lookup::found_in_pending(Some(files), source_path, filename, dir_path, name) {
            Some((node, _)) => exists|i: int|
                0 <= i < lookup::inner_children(files, source_path, filename, dir_path).len() && (
                #[trigger] lookup::inner_children(
                    files,
                    source_path,
                    filename,
                    dir_path,
                )[i]).target == node && lookup::inner_children(
                    files,
                    source_path,
                    filename,
                    dir_path,
                )[i].name == name,
            None => true,
        },
{
    let children = lookup::inner_children(files, source_path, filename, dir_path);
    let prefix = paths::inside(dir_path);
    let path = prefix + name;
    lemma_children_sound(files, source_path, filename, dir_path);
    if lookup::some_below(files, path) {
        lemma_dir_is_listed(files, source_path, filename, dir_path, name);
        let i = choose|i: int|
            0 <= i < children.len() && (#[trigger] children[i]).kind == FileKind::Directory
                && children[i].name == name;
        assert(child_is_sound(children[i], files, source_path, filename, dir_path));
        assert(children[i].target == lookup::pending_dir(
            source_path,
            filename,
            dir_path,
            name,
        ).0);
    } else if lookup::first_path(files, path) is Some {
        lemma_first_path(files, path);
        let k = choose|k: int| 0 <= k < files.len() && (#[trigger] files[k]).0 == path;
        let rest = files[k].0.skip(prefix.len() as int);
        assert(rest =~= name);
        assert(prefix.is_prefix_of(files[k].0)) by {
            assert(files[k].0.take(prefix.len() as int) =~= prefix);
        }
        paths::lemma_first_slash(rest);
        if paths::first_slash(rest) is Some {
            assert(name.contains('/'));
        }
        let upto = files.take(k + 1);
        assert(upto.drop_last() =~= files.take(k));
        let here = lookup::inner_children(upto, source_path, filename, dir_path);
        assert(here.last().target == Node::PendingFile(source_path, filename, path));
        assert(here.last().name == name);
        lemma_children_grow(files, k + 1, source_path, filename, dir_path);
        let j = here.len() - 1;
        assert(children[j] == here[j]);
    }
}

// ── Listing and lookup together ─────────────────────────────────────────────

/// Whether a name stands once among children.
pub open spec fn stands_once(children: Seq<ChildView>, i: int) -> bool {
    forall|j: int|
        0 <= j < children.len() && (#[trigger] children[j]).name == children[i].name ==> j == i
}

/// Whatever a directory of the `data/` tree lists under a name that stands there
/// once is what a lookup of that name finds: the same node, of the same kind. The
/// `.stats` files, which belong to no torrent, stand apart.
pub proof fn law_listed_name_is_found(
    table: Map<Node, NodeData>,
    rows: DbRows,
    metas: Seq<MetaFile>,
    processing: Seq<(Seq<char>, Seq<char>)>,
    node: Node,
    i: int,
)
    requires
        ({
            let l = lookup::listing(table, rows, metas, processing, node);
            &&& l is Some
            &&& 0 <= i < l->0.children.len()
            &&& !l->0.children[i].stats
            &&& stands_once(l->0.children, i)
        }),
    ensures
        ({
            let c = lookup::listing(table, rows, metas, processing, node)->0.children[i];
            match lookup::resolved(table, rows, metas, processing, node, c.name) {
                Some((found, data)) => found == c.target && data.kind_size().0 == c.kind,
                None => false,
            }
        }),
{
    let children = lookup::listing(table, rows, metas, processing, node)->0.children;
    match lookup::place_of(table, node) {
        Some(path) => {
            lemma_listed_in_place_is_found(table, rows, metas, processing, node, path, i);
        },
        None => match table[node] {
            NodeData::TorrentRoot { torrent_id, source_path, filename, .. } => if torrent_id == 0 {
                let files = lookup::pending_files(metas, source_path, filename)->0;
                let inner = lookup::inner_children(files, source_path, filename, Seq::empty());
                assert(children =~= inner.push(lookup::stats_of(node)));
                lemma_listed_in_pending_is_found(
                    files,
                    source_path,
                    filename,
                    Seq::empty(),
                    children,
                    i,
                );
            } else {
                lemma_listed_inside_is_found(rows, torrent_id, children, i);
            },
            NodeData::TorrentDir { torrent_id, dir_path, source_path, filename, .. } => {
                if torrent_id == 0 {
                    let files = lookup::pending_files(metas, source_path, filename)->0;
                    lemma_listed_in_pending_is_found(
                        files,
                        source_path,
                        filename,
                        dir_path,
                        children,
                        i,
                    );
                } else {
                    lemma_listed_inside_is_found(rows, torrent_id, children, i);
                }
            },
            _ => {},
        },
    }
}

proof fn lemma_listed_in_place_is_found(
    table: Map<Node, NodeData>,
    rows: DbRows,
    metas: Seq<MetaFile>,
    processing: Seq<(Seq<char>, Seq<char>)>,
    node: Node,
    path: Seq<char>,
    i: int,
)
    requires
        lookup::place_of(table, node) == Some(path),
        ({
            let l = lookup::listing(table, rows, metas, processing, node);
            &&& l is Some
            &&& 0 <= i < l->0.children.len()
            &&& !l->0.children[i].stats
            &&& stands_once(l->0.children, i)
        }),
    ensures
        ({
            let c = lookup::listing(table, rows, metas, processing, node)->0.children[i];
            match lookup::resolved(table, rows, metas, processing, node, c.name) {
                Some((found, data)) => found == c.target && data.kind_size().0 == c.kind,
                None => false,
            }
        }),
{
    let children = lookup::listing(table, rows, metas, processing, node)->0.children;
    let c = children[i];
    let prefixes = rows.prefixes->0;
    let torrents = rows.torrents->0;
    let held = lookup::place_children(node, path, prefixes@, torrents@);
    let existing = lookup::names(held);
    let pending = lookup::pending_children(metas, processing, path, existing);
    assert(children == held.push(lookup::stats_of(node)) + pending);
    law_place_listing_matches_lookup(node, path, prefixes, torrents, rows, c.name);
    assert(lookup::found(table, rows, metas, node, c.name) == lookup::found_in_place(
        rows,
        path,
        c.name,
    ));
    if i < held.len() {
        assert(held[i] == c);
        assert(existing[i] == c.name);
        let found = lookup::found_in_place(rows, path, c.name)->0;
        let shown = lookup::shown(found, c.name);
        let k = choose|k: int| 0 <= k < held.len() && held[k] == shown;
        assert(children[k] == held[k]);
        assert(k == i);
    } else {
        let k = i - held.len() - 1;
        assert(children[held.len() as int] == lookup::stats_of(node));
        assert(pending[k] == c);
        lemma_pending_are_new(metas, processing, path, existing);
    }
}

proof fn lemma_listed_inside_is_found(
    rows: DbRows,
    torrent_id: i64,
    children: Seq<ChildView>,
    i: int,
)
    requires
        ({
            let held = lookup::inside_children(rows, torrent_id);
            held is Some && held->0.is_prefix_of(children) && children.len() <= held->0.len() + 1
        }),
        children.len() > lookup::inside_children(rows, torrent_id)->0.len()
            ==> children.last().stats,
        0 <= i < children.len(),
        !children[i].stats,
        stands_once(children, i),
    ensures
        match lookup::found_inside(rows, torrent_id, children[i].name) {
            Some((found, data)) => found == children[i].target && data.kind_size().0
                == children[i].kind,
            None => false,
        },
{
    let held = lookup::inside_children(rows, torrent_id)->0;
    let c = children[i];
    assert(held[i] == c);
    law_inside_listing_matches_lookup(rows, torrent_id, c.name);
    assert(lookup::names(held)[i] == c.name);
    let found = lookup::found_inside(rows, torrent_id, c.name)->0;
    let shown = lookup::shown(found, c.name);
    let k = choose|k: int| 0 <= k < held.len() && held[k] == shown;
    assert(children[k] == held[k]);
    assert(k == i);
}

proof fn lemma_listed_in_pending_is_found(
    files: Seq<(Seq<char>, u64)>,
    source_path: Seq<char>,
    filename: Seq<char>,
    dir_path: Seq<char>,
    children: Seq<ChildView>,
    i: int,
)
    requires
        ({
            let held = lookup::inner_children(files, source_path, filename, dir_path);
            &&& held.is_prefix_of(children)
            &&& children.len() <= held.len() + 1
            &&& children.len() > held.len() ==> children.last().stats
        }),
        0 <= i < children.len(),
        !children[i].stats,
        stands_once(children, i),
    ensures
        match lookup::found_in_pending(
            Some(files),
            source_path,
            filename,
            dir_path,
            children[i].name,
        ) {
            Some((found, data)) => found == children[i].target && data.kind_size().0
                == children[i].kind,
            None => false,
        },
{
    let held = lookup::inner_children(files, source_path, filename, dir_path);
    let c = children[i];
    assert(held[i] == c);
    lemma_children_sound(files, source_path, filename, dir_path);
    assert(child_is_sound(held[i], files, source_path, filename, dir_path));
    if lookup::has_dir(held, c.name) {
        let k = choose|k: int|
            0 <= k < held.len() && (#[trigger] held[k]).kind == FileKind::Directory && held[k].name
                == c.name;
        assert(children[k] == held[k]);
        assert(k == i);
    }
    law_pending_listing_is_found(files, source_path, filename, dir_path, i);
}

// ── After a listing ─────────────────────────────────────────────────────────

/// Whether two accounts of a node list and resolve alike: they differ in no more
/// than the name that the node was shown under, or in what only its entry shows.
spec fn alike(a: NodeData, b: NodeData) -> bool {
    match (a, b) {
        (NodeData::SourcePathDir { path: p }, NodeData::SourcePathDir { path: q }) => p == q,
        (
            NodeData::TorrentRoot { torrent_id: t, source_path: sp, filename: f, .. },
            NodeData::TorrentRoot { torrent_id: u, source_path: sq, filename: g, .. },
        ) => t == u && sp == sq && f == g,
        (
            NodeData::TorrentDir { torrent_id: t, dir_path: d, source_path: sp, filename: f, .. },
            NodeData::TorrentDir { torrent_id: u, dir_path: e, source_path: sq, filename: g, .. },
        ) => t == u && d == e && sp == sq && f == g,
        (NodeData::TorrentFile { .. }, NodeData::TorrentFile { .. }) => true,
        _ => false,
    }
}

proof fn lemma_alike(
    table: Map<Node, NodeData>,
    after: Map<Node, NodeData>,
    rows: DbRows,
    metas: Seq<MetaFile>,
    processing: Seq<(Seq<char>, Seq<char>)>,
    node: Node,
    name: Seq<char>,
)
    requires
        node == Node::Data || (table.contains_key(node) && after.contains_key(node) && alike(
            table[node],
            after[node],
        )),
    ensures
        lookup::listing(after, rows, metas, processing, node) == lookup::listing(
            table,
            rows,
            metas,
            processing,
            node,
        ),
        lookup::resolved(after, rows, metas, processing, node, name) == lookup::resolved(
            table,
            rows,
            metas,
            processing,
            node,
            name,
        ),
{
}

/// Whatever a listing makes known is about the node that it is entered for, and
/// where that is the listed node itself, it lists as before.
proof fn lemma_listed_belongs(
    table: Map<Node, NodeData>,
    rows: DbRows,
    metas: Seq<MetaFile>,
    processing: Seq<(Seq<char>, Seq<char>)>,
    node: Node,
    i: int,
)
    requires
        inodes::sound(table),
        ({
            let l = lookup::listing(table, rows, metas, processing, node);
            l is Some && 0 <= i < l->0.children.len()
        }),
    ensures
        ({
            let c = lookup::listing(table, rows, metas, processing, node)->0.children[i];
            c.data matches Some(d) ==> {
                &&& inodes::belongs(c.target, d)
                &&& c.target == node ==> table.contains_key(node) && alike(table[node], d)
            }
        }),
{
    let children = lookup::listing(table, rows, metas, processing, node)->0.children;
    let c = children[i];
    match lookup::place_of(table, node) {
        Some(path) => {
            let prefixes = rows.prefixes->0@;
            let torrents = rows.torrents->0@;
            let held = lookup::place_children(node, path, prefixes, torrents);
            let pending = lookup::pending_children(metas, processing, path, lookup::names(held));
            assert(children == held.push(lookup::stats_of(node)) + pending);
            if i < held.len() {
                assert(c == held[i]);
            } else if i > held.len() {
                assert(c == pending[i - held.len() - 1]);
                lemma_pending_are_new(metas, processing, path, lookup::names(held));
            }
        },
        None => {
            assert(inodes::belongs(node, table[node]));
            match table[node] {
                NodeData::TorrentRoot { torrent_id, source_path, filename, .. } => {
                    if torrent_id == 0 {
                        let files = lookup::pending_files(metas, source_path, filename)->0;
                        let held = lookup::inner_children(
                            files,
                            source_path,
                            filename,
                            Seq::empty(),
                        );
                        if i < held.len() {
                            assert(c == held[i]);
                            lemma_children_sound(files, source_path, filename, Seq::empty());
                            assert(child_is_sound(
                                held[i],
                                files,
                                source_path,
                                filename,
                                Seq::empty(),
                            ));
                        }
                    } else {
                        let held = lookup::inside_children(rows, torrent_id)->0;
                        if i < held.len() {
                            assert(c == held[i]);
                        }
                    }
                },
                NodeData::TorrentDir { torrent_id, dir_path, source_path, filename, .. } => {
                    if torrent_id == 0 {
                        let files = lookup::pending_files(metas, source_path, filename)->0;
                        let held = lookup::inner_children(files, source_path, filename, dir_path);
                        assert(c == held[i]);
                        lemma_children_sound(files, source_path, filename, dir_path);
                        assert(child_is_sound(held[i], files, source_path, filename, dir_path));
                    } else {
                        let held = lookup::inside_children(rows, torrent_id)->0;
                        assert(c == held[i]);
                    }
                },
                _ => {},
            }
        },
    }
}

/// A listing leaves a sound table sound, and changes nothing of what the listed
/// directory shows or of what a name means in it: listed again, it shows the same.
pub proof fn law_listing_changes_no_listing(
    table: Map<Node, NodeData>,
    rows: DbRows,
    metas: Seq<MetaFile>,
    processing: Seq<(Seq<char>, Seq<char>)>,
    node: Node,
    name: Seq<char>,
)
    requires
        inodes::sound(table),
        lookup::listing(table, rows, metas, processing, node) is Some,
    ensures
        ({
            let l = lookup::listing(table, rows, metas, processing, node)->0;
            let after = lookup::table_after(table, l);
            &&& inodes::sound(after)
            &&& lookup::listing(after, rows, metas, processing, node) == Some(l)
            &&& lookup::resolved(after, rows, metas, processing, node, name) == lookup::resolved(
                table,
                rows,
                metas,
                processing,
                node,
                name,
            )
        }),
{
    let l = lookup::listing(table, rows, metas, processing, node)->0;
    let after = lookup::table_after(table, l);
    let kept = match l.landed {
        Some((path, filenames)) => inodes::without_stale(table, path, filenames),
        None => table,
    };
    let about = |n: Node, d: NodeData| inodes::belongs(n, d);
    let same = |n: Node, d: NodeData| n == node ==> alike(table[node], d);
    assert forall|i: int| 0 <= i < l.children.len() implies ((#[trigger] l.children[i]).data matches Some(
        d,
    ) ==> about(l.children[i].target, d) && same(l.children[i].target, d)) by {
        lemma_listed_belongs(table, rows, metas, processing, node, i);
    }
    lemma_known(l.children, about);
    lemma_known(l.children, same);
    assert forall|n: Node| #[trigger] kept.contains_key(n) implies about(n, kept[n]) && same(
        n,
        kept[n],
    ) by {
        assert(table.contains_key(n));
        assert(kept[n] == table[n]);
    }
    lemma_with_nodes(kept, lookup::known(l.children), about);
    lemma_with_nodes(kept, lookup::known(l.children), same);
    if node != Node::Data {
        assert(kept.contains_key(node)) by {
            assert(table.contains_key(node));
        }
        assert(after.contains_key(node));
    }
    lemma_alike(table, after, rows, metas, processing, node, name);
}

proof fn lemma_filter_is_skip<A>(s: Seq<A>, keep: spec_fn(A) -> bool, from: int)
    requires
        0 <= from <= s.len(),
        forall|i: int| 0 <= i < s.len() ==> (keep(#[trigger] s[i]) <==> i >= from),
    ensures
        s.filter(keep) == s.skip(from),
    decreases s.len(),
{
    reveal(Seq::filter);
    if s.len() > 0 {
        let init = s.drop_last();
        assert(forall|i: int| 0 <= i < init.len() ==> init[i] == s[i]);
        if from == s.len() {
            lemma_filter_is_skip(init, keep, from - 1);
            assert(init.skip(from - 1) =~= s.skip(from));
            assert(!keep(s[s.len() - 1]));
        } else {
            lemma_filter_is_skip(init, keep, from);
            assert(keep(s[s.len() - 1]));
            assert(init.skip(from).push(s.last()) =~= s.skip(from));
        }
    }
}

/// A reader that lists a directory and then goes on from an offset, on the table
/// that its first listing left, gets exactly the entries of that first listing with
/// greater offsets, in order; the offsets count up from one. So going on from the
/// last offset neither skips an entry nor shows one twice.
pub proof fn law_listing_goes_on(
    table: Map<Node, NodeData>,
    rows: DbRows,
    metas: Seq<MetaFile>,
    processing: Seq<(Seq<char>, Seq<char>)>,
    node: Node,
    offset: i64,
)
    requires
        inodes::sound(table),
        lookup::listing(table, rows, metas, processing, node) is Some,
        lookup::listing(table, rows, metas, processing, node)->0.children.len() + 2 <= u64::MAX,
    ensures
        ({
            let first = lookup::listing(table, rows, metas, processing, node)->0;
            let all = lookup::entries(node, first);
            let next = lookup::listing(
                lookup::table_after(table, first),
                rows,
                metas,
                processing,
                node,
            );
            &&& forall|i: int| 0 <= i < all.len() ==> (#[trigger] all[i]).offset == i + 1
            &&& next is Some
            &&& lookup::behind(lookup::entries(node, next->0), offset) == all.filter(
                |e: EntryView| e.offset > offset,
            )
        }),
{
    let first = lookup::listing(table, rows, metas, processing, node)->0;
    let all = lookup::entries(node, first);
    let later = |e: EntryView| e.offset > offset;
    law_listing_changes_no_listing(table, rows, metas, processing, node, Seq::empty());
    law_listing_resumes(node, first, offset);
    let from: int = if offset <= 0 {
        0
    } else if offset >= all.len() {
        all.len() as int
    } else {
        offset as int
    };
    assert forall|i: int| 0 <= i < all.len() implies (later(#[trigger] all[i]) <==> i >= from) by {
        assert(all[i].offset == i + 1);
    }
    lemma_filter_is_skip(all, later, from);
}

/// Whatever a directory of the `data/` tree listed under a name that stands there
/// once is what a lookup of that name finds afterwards, on the table that the
/// listing left: the same node, of the same kind, a directory of size zero. The
/// lookup leaves the node in the table.
pub proof fn law_listed_name_is_found_afterwards(
    table: Map<Node, NodeData>,
    rows: DbRows,
    metas: Seq<MetaFile>,
    processing: Seq<(Seq<char>, Seq<char>)>,
    node: Node,
    i: int,
)
    requires
        inodes::sound(table),
        ({
            let l = lookup::listing(table, rows, metas, processing, node);
            &&& l is Some
            &&& 0 <= i < l->0.children.len()
            &&& !l->0.children[i].stats
            &&& stands_once(l->0.children, i)
        }),
    ensures
        ({
            let l = lookup::listing(table, rows, metas, processing, node)->0;
            let c = l.children[i];
            let after = lookup::table_after(table, l);
            match lookup::resolved(after, rows, metas, processing, node, c.name) {
                Some((found, data)) => {
                    &&& found == c.target
                    &&& data.kind_size().0 == c.kind
                    &&& c.kind == FileKind::Directory ==> data.kind_size().1 == 0
                    &&& after.insert(found, data).contains_key(c.target)
                },
                None => false,
            }
        }),
{
    let c = lookup::listing(table, rows, metas, processing, node)->0.children[i];
    law_listed_name_is_found(table, rows, metas, processing, node, i);
    law_listing_changes_no_listing(table, rows, metas, processing, node, c.name);
}

/// Looking a name up leaves a sound table sound.
pub proof fn law_lookup_keeps_the_table_sound(
    table: Map<Node, NodeData>,
    rows: DbRows,
    metas: Seq<MetaFile>,
    processing: Seq<(Seq<char>, Seq<char>)>,
    parent: Node,
    name: Seq<char>,
)
    requires
        inodes::sound(table),
    ensures
        match lookup::resolved(table, rows, metas, processing, parent, name) {
            Some((node, data)) => inodes::belongs(node, data) && inodes::sound(
                table.insert(node, data),
            ),
            None => true,
        },
{
    match rows.torrents {
        Some(torrents) => lemma_first_torrent(torrents@, name),
        None => {},
    }
    if table.contains_key(parent) {
        match table[parent] {
            NodeData::TorrentRoot { torrent_id, .. } => {
                lemma_found_inside_belongs(rows, torrent_id, name);
            },
            NodeData::TorrentDir { torrent_id, .. } => {
                lemma_found_inside_belongs(rows, torrent_id, name);
            },
            _ => {},
        }
    }
    match lookup::resolved(table, rows, metas, processing, parent, name) {
        Some((node, data)) => {
            assert(inodes::belongs(node, data));
            assert forall|n: Node| #[trigger]
                table.insert(node, data).contains_key(n) implies inodes::belongs(
                n,
                table.insert(node, data)[n],
            ) by {
                if n != node {
                    assert(table.contains_key(n));
                }
            }
        },
        None => {},
    }
}

proof fn lemma_found_inside_belongs(rows: DbRows, torrent_id: i64, name: Seq<char>)
    ensures
        match lookup::found_inside(rows, torrent_id, name) {
            Some((node, data)) => inodes::belongs(node, data),
            None => true,
        },
{
    match rows.dirs {
        Some(dirs) => lemma_first_dir(torrent_id, dirs@, name),
        None => {},
    }
    match rows.files {
        Some(files) => lemma_first_file(torrent_id, files@, name),
        None => {},
    }
}

} // verus!
