//! What a name stands for: the nodes that lookups and listings give, field by field.
use vstd::prelude::*;

use crate::db::types::{Torrent, TorrentDirectory, TorrentFile};
use crate::fuse::inodes::{DataInode, FileKind, Node, NodeData, NodeId};
use crate::fuse::lookup;
use crate::fuse::lookup::{Child, ChildView, DbRows, DirEntry, ListingView, MetaFile};
use crate::paths;
use crate::text;
use crate::torrent_file;

verus! {

// ── What a node says of its row ─────────────────────────────────────────────

/// Whether a node is the directory of a row, and says which torrent it is part of.
pub open spec fn is_directory_row(
    node: Node,
    data: NodeData,
    torrent_id: i64,
    row: TorrentDirectory,
) -> bool {
    &&& node == Node::TorrentDir(row.id)
    &&& data matches NodeData::TorrentDir {
        torrent_id: t,
        dir_id,
        name,
        dir_path,
        source_path,
        filename,
    } && t == torrent_id && dir_id == row.id && name == row.name@ && dir_path.len() == 0
        && source_path.len() == 0 && filename.len() == 0
}

/// Whether a node is the file of a row, with its size, and says which torrent it is
/// part of.
pub open spec fn is_file_row(node: Node, data: NodeData, torrent_id: i64, row: TorrentFile) -> bool {
    &&& node == Node::TorrentFile(row.id)
    &&& data matches NodeData::TorrentFile {
        torrent_id: t,
        file_id,
        name,
        size,
        source_path,
        filename,
    } && t == torrent_id && file_id == row.id && name == row.name@ && size == row.size
        && source_path.len() == 0 && filename.len() == 0
}

/// Whether a node is the torrent of a row.
pub open spec fn is_torrent_row(node: Node, data: NodeData, row: Torrent) -> bool {
    &&& node == Node::Torrent(row.id)
    &&& data matches NodeData::TorrentRoot { torrent_id, source_path, name, filename }
        && torrent_id == row.id && source_path == row.source_path@ && name == row.name@ && filename
        == row.filename@
}

/// Whether a node is the directory `name` below the directory `dir`, on the way to
/// torrents.
pub open spec fn is_place(node: Node, data: NodeData, dir: Seq<char>, name: Seq<char>) -> bool {
    let path = if dir.len() == 0 {
        name
    } else {
        dir + seq!['/'] + name
    };
    node == Node::SourcePath(path) && data == (NodeData::SourcePathDir { path })
}

/// The torrent that a node is, or is a directory of.
pub open spec fn torrent_of(data: NodeData) -> Option<i64> {
    match data {
        NodeData::TorrentRoot { torrent_id, .. } => Some(torrent_id),
        NodeData::TorrentDir { torrent_id, .. } => Some(torrent_id),
        _ => None,
    }
}

/// Whether row `i` is the first directory of that name.
pub open spec fn first_directory(dirs: Seq<TorrentDirectory>, name: Seq<char>, i: int) -> bool {
    &&& 0 <= i < dirs.len()
    &&& dirs[i].name@ == name
    &&& forall|j: int| 0 <= j < i ==> (#[trigger] dirs[j]).name@ != name
}

/// Whether row `i` is the first file of that name.
pub open spec fn first_file(files: Seq<TorrentFile>, name: Seq<char>, i: int) -> bool {
    &&& 0 <= i < files.len()
    &&& files[i].name@ == name
    &&& forall|j: int| 0 <= j < i ==> (#[trigger] files[j]).name@ != name
}

/// Whether row `i` is the first torrent of that file name.
pub open spec fn first_torrent(torrents: Seq<Torrent>, name: Seq<char>, i: int) -> bool {
    &&& 0 <= i < torrents.len()
    &&& torrents[i].filename@ == name
    &&& forall|j: int| 0 <= j < i ==> (#[trigger] torrents[j]).filename@ != name
}

// ── Looking up a name inside a torrent ──────────────────────────────────────

/// Where the first directory of a name stands.
proof fn lemma_directory_found(
    torrent_id: i64,
    dirs: Seq<TorrentDirectory>,
    name: Seq<char>,
    i: int,
)
    requires
        first_directory(dirs, name, i),
    ensures
        lookup::first_dir(torrent_id, dirs, name) matches Some(found) && is_directory_row(
            found.0,
            found.1,
            torrent_id,
            dirs[i],
        ),
    decreases dirs.len(),
{
    if i > 0 {
        assert(dirs[0].name@ != name);
        let rest = dirs.skip(1);
        assert forall|j: int| 0 <= j < i - 1 implies (#[trigger] rest[j]).name@ != name by {
            assert(rest[j] == dirs[j + 1]);
        }
        lemma_directory_found(torrent_id, rest, name, i - 1);
    }
}

proof fn lemma_no_directory(torrent_id: i64, dirs: Seq<TorrentDirectory>, name: Seq<char>)
    requires
        forall|j: int| 0 <= j < dirs.len() ==> (#[trigger] dirs[j]).name@ != name,
    ensures
        lookup::first_dir(torrent_id, dirs, name) is None,
    decreases dirs.len(),
{
    if dirs.len() > 0 {
        assert(dirs[0].name@ != name);
        let rest = dirs.skip(1);
        assert forall|j: int| 0 <= j < rest.len() implies (#[trigger] rest[j]).name@ != name by {
            assert(rest[j] == dirs[j + 1]);
        }
        lemma_no_directory(torrent_id, rest, name);
    }
}

proof fn lemma_file_found(torrent_id: i64, files: Seq<TorrentFile>, name: Seq<char>, i: int)
    requires
        first_file(files, name, i),
    ensures
        lookup::first_file(torrent_id, files, name) matches Some(found) && is_file_row(
            found.0,
            found.1,
            torrent_id,
            files[i],
        ),
    decreases files.len(),
{
    if i > 0 {
        assert(files[0].name@ != name);
        let rest = files.skip(1);
        assert forall|j: int| 0 <= j < i - 1 implies (#[trigger] rest[j]).name@ != name by {
            assert(rest[j] == files[j + 1]);
        }
        lemma_file_found(torrent_id, rest, name, i - 1);
    }
}

proof fn lemma_no_file(torrent_id: i64, files: Seq<TorrentFile>, name: Seq<char>)
    requires
        forall|j: int| 0 <= j < files.len() ==> (#[trigger] files[j]).name@ != name,
    ensures
        lookup::first_file(torrent_id, files, name) is None,
    decreases files.len(),
{
    if files.len() > 0 {
        assert(files[0].name@ != name);
        let rest = files.skip(1);
        assert forall|j: int| 0 <= j < rest.len() implies (#[trigger] rest[j]).name@ != name by {
            assert(rest[j] == files[j + 1]);
        }
        lemma_no_file(torrent_id, rest, name);
    }
}

proof fn lemma_torrent_found(torrents: Seq<Torrent>, name: Seq<char>, i: int)
    requires
        first_torrent(torrents, name, i),
    ensures
        lookup::first_torrent(torrents, name) matches Some(found) && is_torrent_row(
            found.0,
            found.1,
            torrents[i],
        ),
    decreases torrents.len(),
{
    if i > 0 {
        assert(torrents[0].filename@ != name);
        let rest = torrents.skip(1);
        assert forall|j: int| 0 <= j < i - 1 implies (#[trigger] rest[j]).filename@ != name by {
            assert(rest[j] == torrents[j + 1]);
        }
        lemma_torrent_found(rest, name, i - 1);
    }
}

proof fn lemma_no_torrent(torrents: Seq<Torrent>, name: Seq<char>)
    requires
        forall|j: int| 0 <= j < torrents.len() ==> (#[trigger] torrents[j]).filename@ != name,
    ensures
        lookup::first_torrent(torrents, name) is None,
    decreases torrents.len(),
{
    if torrents.len() > 0 {
        assert(torrents[0].filename@ != name);
        let rest = torrents.skip(1);
        assert forall|j: int| 0 <= j < rest.len() implies (#[trigger] rest[j]).filename@ != name by {
            assert(rest[j] == torrents[j + 1]);
        }
        lemma_no_torrent(rest, name);
    }
}

/// A directory found inside a torrent says which torrent it is part of, and carries
/// the number and name of its row: the first of that name.
pub proof fn law_directory_inside_a_torrent_is_found(
    table: Map<Node, NodeData>,
    rows: DbRows,
    metas: Seq<MetaFile>,
    processing: Seq<(Seq<char>, Seq<char>)>,
    parent: Node,
    torrent_id: i64,
    dirs: Vec<TorrentDirectory>,
    name: Seq<char>,
    i: int,
)
    requires
        parent != Node::Data,
        table.contains_key(parent),
        torrent_of(table[parent]) == Some(torrent_id),
        torrent_id != 0,
        rows.dirs == Some(dirs),
        first_directory(dirs@, name, i),
    ensures
        lookup::resolved(table, rows, metas, processing, parent, name) matches Some(found)
            && is_directory_row(found.0, found.1, torrent_id, dirs@[i]),
{
    lemma_directory_found(torrent_id, dirs@, name, i);
}

/// A file found inside a torrent says which torrent it is part of, and carries the
/// number, the name and the size of its row: the first of that name, where no
/// directory has it.
pub proof fn law_file_inside_a_torrent_is_found(
    table: Map<Node, NodeData>,
    rows: DbRows,
    metas: Seq<MetaFile>,
    processing: Seq<(Seq<char>, Seq<char>)>,
    parent: Node,
    torrent_id: i64,
    dirs: Vec<TorrentDirectory>,
    files: Vec<TorrentFile>,
    name: Seq<char>,
    i: int,
)
    requires
        parent != Node::Data,
        table.contains_key(parent),
        torrent_of(table[parent]) == Some(torrent_id),
        torrent_id != 0,
        rows.dirs == Some(dirs),
        rows.files == Some(files),
        forall|j: int| 0 <= j < dirs@.len() ==> (#[trigger] dirs@[j]).name@ != name,
        first_file(files@, name, i),
    ensures
        lookup::resolved(table, rows, metas, processing, parent, name) matches Some(found)
            && is_file_row(found.0, found.1, torrent_id, files@[i]),
{
    lemma_no_directory(torrent_id, dirs@, name);
    lemma_file_found(torrent_id, files@, name, i);
}

/// A name that no directory and no file of a torrent has is not found in it.
pub proof fn law_unknown_name_inside_a_torrent(
    table: Map<Node, NodeData>,
    rows: DbRows,
    metas: Seq<MetaFile>,
    processing: Seq<(Seq<char>, Seq<char>)>,
    parent: Node,
    torrent_id: i64,
    dirs: Vec<TorrentDirectory>,
    files: Vec<TorrentFile>,
    name: Seq<char>,
)
    requires
        parent != Node::Data,
        table.contains_key(parent),
        torrent_of(table[parent]) == Some(torrent_id),
        torrent_id != 0,
        rows.dirs == Some(dirs),
        rows.files == Some(files),
        forall|j: int| 0 <= j < dirs@.len() ==> (#[trigger] dirs@[j]).name@ != name,
        forall|j: int| 0 <= j < files@.len() ==> (#[trigger] files@[j]).name@ != name,
    ensures
        lookup::resolved(table, rows, metas, processing, parent, name) is None,
{
    lemma_no_directory(torrent_id, dirs@, name);
    lemma_no_file(torrent_id, files@, name);
}

/// Nothing is found in a file, nor in a node that is not known.
pub proof fn law_nothing_is_found_in_a_file(
    table: Map<Node, NodeData>,
    rows: DbRows,
    metas: Seq<MetaFile>,
    processing: Seq<(Seq<char>, Seq<char>)>,
    parent: Node,
    name: Seq<char>,
)
    requires
        parent != Node::Data,
        table.contains_key(parent) ==> table[parent] is TorrentFile,
    ensures
        lookup::resolved(table, rows, metas, processing, parent, name) is None,
        lookup::listing(table, rows, metas, processing, parent) is None,
{
}

// ── Looking up a name on the way to torrents ────────────────────────────────

/// The directory that a node on the way to torrents stands for.
pub open spec fn place_path(table: Map<Node, NodeData>, node: Node, path: Seq<char>) -> bool {
    if node == Node::Data {
        path.len() == 0
    } else {
        table.contains_key(node) && table[node] == (NodeData::SourcePathDir { path })
    }
}

/// A directory on the way to torrents goes before everything else of its name, and
/// its node carries its whole path.
pub proof fn law_directory_on_the_way_is_found(
    table: Map<Node, NodeData>,
    rows: DbRows,
    metas: Seq<MetaFile>,
    processing: Seq<(Seq<char>, Seq<char>)>,
    parent: Node,
    path: Seq<char>,
    prefixes: Vec<String>,
    i: int,
)
    requires
        place_path(table, parent, path),
        rows.prefixes == Some(prefixes),
        0 <= i < prefixes@.len(),
    ensures
        lookup::resolved(table, rows, metas, processing, parent, prefixes@[i]@) matches Some(found)
            && is_place(found.0, found.1, path, prefixes@[i]@),
{
    let texts = text::texts(prefixes@);
    assert(texts[i] == prefixes@[i]@);
    assert(path.len() == 0 ==> path =~= Seq::<char>::empty());
    assert(path.push('/') + prefixes@[i]@ =~= path + seq!['/'] + prefixes@[i]@);
}

/// A torrent is found under its file name, and its node carries its row's number,
/// directory and names: the first of that file name, where no directory has it.
pub proof fn law_torrent_is_found(
    table: Map<Node, NodeData>,
    rows: DbRows,
    metas: Seq<MetaFile>,
    processing: Seq<(Seq<char>, Seq<char>)>,
    parent: Node,
    path: Seq<char>,
    prefixes: Vec<String>,
    torrents: Vec<Torrent>,
    name: Seq<char>,
    i: int,
)
    requires
        place_path(table, parent, path),
        rows.prefixes == Some(prefixes),
        rows.torrents == Some(torrents),
        forall|j: int| 0 <= j < prefixes@.len() ==> (#[trigger] prefixes@[j])@ != name,
        first_torrent(torrents@, name, i),
    ensures
        lookup::resolved(table, rows, metas, processing, parent, name) matches Some(found)
            && is_torrent_row(found.0, found.1, torrents@[i]),
{
    lemma_not_a_prefix(prefixes@, name);
    lemma_torrent_found(torrents@, name, i);
}

proof fn lemma_not_a_prefix(prefixes: Seq<String>, name: Seq<char>)
    requires
        forall|j: int| 0 <= j < prefixes.len() ==> (#[trigger] prefixes[j])@ != name,
    ensures
        !text::texts(prefixes).contains(name),
{
    let texts = text::texts(prefixes);
    if texts.contains(name) {
        let j = choose|j: int| 0 <= j < texts.len() && texts[j] == name;
        assert(prefixes[j]@ == name);
    }
}

/// A torrent that is being added is found under its file name where nothing else has
/// it; it has no number yet. Nothing else is found.
pub proof fn law_torrent_being_added_is_found(
    table: Map<Node, NodeData>,
    rows: DbRows,
    metas: Seq<MetaFile>,
    processing: Seq<(Seq<char>, Seq<char>)>,
    parent: Node,
    path: Seq<char>,
    prefixes: Vec<String>,
    torrents: Vec<Torrent>,
    name: Seq<char>,
)
    requires
        place_path(table, parent, path),
        rows.prefixes == Some(prefixes),
        rows.torrents == Some(torrents),
        forall|j: int| 0 <= j < prefixes@.len() ==> (#[trigger] prefixes@[j])@ != name,
        forall|j: int| 0 <= j < torrents@.len() ==> (#[trigger] torrents@[j]).filename@ != name,
    ensures
        match lookup::resolved(table, rows, metas, processing, parent, name) {
            Some(found) => {
                &&& exists|k: int|
                    0 <= k < processing.len() && #[trigger] processing[k] == (path, name)
                &&& found.0 == Node::PendingTorrent(path, name)
                &&& found.1 matches NodeData::TorrentRoot { torrent_id, source_path, filename, .. }
                    && torrent_id == 0 && source_path == path && filename == name
            },
            None => forall|k: int|
                0 <= k < processing.len() ==> #[trigger] processing[k] != (path, name),
        },
{
    lemma_not_a_prefix(prefixes@, name);
    lemma_no_torrent(torrents@, name);
    assert(path.len() == 0 ==> path =~= Seq::<char>::empty());
}

// ── Listings ────────────────────────────────────────────────────────────────

/// Whether a listing shows a node that is the directory of a row.
pub open spec fn lists_directory(c: ChildView, torrent_id: i64, row: TorrentDirectory) -> bool {
    &&& !c.stats
    &&& c.kind == FileKind::Directory
    &&& c.name == row.name@
    &&& c.data matches Some(data) && is_directory_row(c.target, data, torrent_id, row)
}

/// Whether a listing shows a node that is the file of a row.
pub open spec fn lists_file(c: ChildView, torrent_id: i64, row: TorrentFile) -> bool {
    &&& !c.stats
    &&& c.kind == FileKind::RegularFile
    &&& c.name == row.name@
    &&& c.data matches Some(data) && is_file_row(c.target, data, torrent_id, row)
}

/// Whether a listing shows a node that is the torrent of a row.
pub open spec fn lists_torrent(c: ChildView, row: Torrent) -> bool {
    &&& !c.stats
    &&& c.kind == FileKind::Directory
    &&& c.name == row.filename@
    &&& c.data matches Some(data) && is_torrent_row(c.target, data, row)
}

/// Whether a listing shows a directory on the way to torrents.
pub open spec fn lists_place(c: ChildView, dir: Seq<char>, name: Seq<char>) -> bool {
    &&& !c.stats
    &&& c.kind == FileKind::Directory
    &&& c.name == name
    &&& c.data matches Some(data) && is_place(c.target, data, dir, name)
}

/// A torrent of the database, or one of its directories, lists the directories of its
/// rows and then the files, each with the torrent that it is part of and with its
/// row's number, name and size. A torrent adds its own `.stats` at the end.
pub proof fn law_listing_inside_a_torrent(
    table: Map<Node, NodeData>,
    rows: DbRows,
    metas: Seq<MetaFile>,
    processing: Seq<(Seq<char>, Seq<char>)>,
    node: Node,
    torrent_id: i64,
    dirs: Vec<TorrentDirectory>,
    files: Vec<TorrentFile>,
)
    requires
        node != Node::Data,
        table.contains_key(node),
        torrent_of(table[node]) == Some(torrent_id),
        torrent_id != 0,
        rows.dirs == Some(dirs),
        rows.files == Some(files),
    ensures
        match lookup::listing(table, rows, metas, processing, node) {
            Some(l) => {
                let d = dirs@.len();
                let f = files@.len();
                &&& forall|i: int|
                    0 <= i < d ==> lists_directory(l.children[i], torrent_id, #[trigger] dirs@[i])
                &&& forall|i: int|
                    0 <= i < f ==> lists_file(l.children[d + i], torrent_id, #[trigger] files@[i])
                &&& table[node] is TorrentDir ==> l.children.len() == d + f
                &&& table[node] is TorrentRoot ==> {
                    &&& l.children.len() == d + f + 1
                    &&& l.children.last().stats
                    &&& l.children.last().target == node
                    &&& l.children.last().kind == FileKind::RegularFile
                    &&& l.children.last().name == ".stats"@
                    &&& l.children.last().data is None
                }
                &&& table[node] is TorrentDir ==> l.above == (match rows.parent_dir {
                    Some(id) => Node::TorrentDir(id),
                    None => Node::Torrent(torrent_id),
                })
            },
            None => false,
        },
{
}

/// A directory on the way to torrents lists the directories further down and the
/// torrents in it, `data/` the torrents first; then its `.stats`; then the torrents
/// that are being added.
pub proof fn law_listing_on_the_way(
    table: Map<Node, NodeData>,
    rows: DbRows,
    metas: Seq<MetaFile>,
    processing: Seq<(Seq<char>, Seq<char>)>,
    node: Node,
    path: Seq<char>,
    prefixes: Vec<String>,
    torrents: Vec<Torrent>,
)
    requires
        place_path(table, node, path),
        rows.prefixes == Some(prefixes),
        rows.torrents == Some(torrents),
    ensures
        match lookup::listing(table, rows, metas, processing, node) {
            Some(l) => {
                let p = prefixes@.len();
                let t = torrents@.len();
                let p0 = if node == Node::Data {
                    t as int
                } else {
                    0
                };
                let t0 = if node == Node::Data {
                    0
                } else {
                    p as int
                };
                &&& l.children.len() > p + t
                &&& forall|i: int|
                    0 <= i < p ==> lists_place(l.children[p0 + i], path, (#[trigger] prefixes@[i])@)
                &&& forall|i: int|
                    0 <= i < t ==> lists_torrent(l.children[t0 + i], #[trigger] torrents@[i])
                &&& l.children[(p + t) as int].stats
                &&& l.children[(p + t) as int].target == node
                &&& l.children[(p + t) as int].kind == FileKind::RegularFile
                &&& l.children[(p + t) as int].name == ".stats"@
                &&& forall|i: int|
                    p + t < i < l.children.len() ==> is_being_added(
                        #[trigger] l.children[i],
                        path,
                        processing,
                    )
            },
            None => false,
        },
{
    assert(path.len() == 0 ==> path =~= Seq::<char>::empty());
    let l = lookup::listing(table, rows, metas, processing, node)->0;
    let held = lookup::place_children(node, path, prefixes@, torrents@);
    let more = lookup::pending_children(metas, processing, path, lookup::names(held));
    let p = prefixes@.len();
    let t = torrents@.len();
    lemma_being_added(metas, processing, path, lookup::names(held));
    assert forall|i: int| 0 <= i < p implies lists_place(
        l.children[(if node == Node::Data {
            t as int
        } else {
            0
        }) + i],
        path,
        (#[trigger] prefixes@[i])@,
    ) by {
        assert(path.push('/') + prefixes@[i]@ =~= path + seq!['/'] + prefixes@[i]@);
    }
    assert forall|i: int| p + t < i < l.children.len() implies is_being_added(
        #[trigger] l.children[i],
        path,
        processing,
    ) by {
        assert(l.children[i] == more[i - p - t - 1]);
    }
}

/// Whether a listing shows a torrent that is being added to a directory.
pub open spec fn is_being_added(
    c: ChildView,
    path: Seq<char>,
    processing: Seq<(Seq<char>, Seq<char>)>,
) -> bool {
    &&& !c.stats
    &&& c.kind == FileKind::Directory
    &&& c.target == Node::PendingTorrent(path, c.name)
    &&& processing.contains((path, c.name))
    &&& c.data matches Some(NodeData::TorrentRoot { torrent_id, source_path, filename, .. })
        && torrent_id == 0 && source_path == path && filename == c.name
}

proof fn lemma_being_added(
    metas: Seq<MetaFile>,
    processing: Seq<(Seq<char>, Seq<char>)>,
    path: Seq<char>,
    existing: Seq<Seq<char>>,
)
    ensures
        forall|i: int|
            0 <= i < lookup::pending_children(metas, processing, path, existing).len()
                ==> is_being_added(
                #[trigger] lookup::pending_children(metas, processing, path, existing)[i],
                path,
                processing,
            ),
    decreases processing.len(),
{
    if processing.len() > 0 {
        let rest = processing.drop_last();
        lemma_being_added(metas, rest, path, existing);
        let before = lookup::pending_children(metas, rest, path, existing);
        let all = lookup::pending_children(metas, processing, path, existing);
        assert forall|i: int| 0 <= i < all.len() implies is_being_added(
            #[trigger] all[i],
            path,
            processing,
        ) by {
            if i < before.len() {
                assert(all[i] == before[i]);
                assert(rest.contains((path, all[i].name)));
                let k = choose|k: int| 0 <= k < rest.len() && rest[k] == (path, all[i].name);
                assert(processing[k] == (path, all[i].name));
            } else {
                assert(processing[processing.len() - 1] == (path, all[i].name));
            }
        }
    }
}

// ── Torrents that are being added ───────────────────────────────────────────

/// Whether a node is a directory within a torrent that is being added.
pub open spec fn is_pending_directory(
    node: Node,
    data: NodeData,
    source_path: Seq<char>,
    filename: Seq<char>,
    path: Seq<char>,
    name: Seq<char>,
) -> bool {
    &&& node == Node::PendingDir(source_path, filename, path)
    &&& data matches NodeData::TorrentDir {
        torrent_id,
        dir_id,
        name: n,
        dir_path,
        source_path: s,
        filename: f,
    } && torrent_id == 0 && dir_id == 0 && n == name && dir_path == path && s == source_path && f
        == filename
}

/// Whether a node is a file within a torrent that is being added.
pub open spec fn is_pending_file(
    node: Node,
    data: NodeData,
    source_path: Seq<char>,
    filename: Seq<char>,
    file: (Seq<char>, u64),
    name: Seq<char>,
) -> bool {
    &&& node == Node::PendingFile(source_path, filename, file.0)
    &&& data matches NodeData::TorrentFile {
        torrent_id,
        file_id,
        name: n,
        size,
        source_path: s,
        filename: f,
    } && torrent_id == 0 && file_id == 0 && n == name && size == file.1 as i64 && s == source_path
        && f == filename
}

/// The path of a name within a directory of a torrent; the torrent itself is the
/// directory without a path.
pub open spec fn path_within(dir_path: Seq<char>, name: Seq<char>) -> Seq<char> {
    if dir_path.len() == 0 {
        name
    } else {
        dir_path + seq!['/'] + name
    }
}

/// The directory of a torrent that is being added, for a node that is one.
pub open spec fn pending_place(
    data: NodeData,
    source_path: Seq<char>,
    filename: Seq<char>,
    dir_path: Seq<char>,
) -> bool {
    match data {
        NodeData::TorrentRoot { torrent_id, source_path: s, filename: f, .. } => torrent_id == 0
            && s == source_path && f == filename && dir_path.len() == 0,
        NodeData::TorrentDir { torrent_id, dir_path: d, source_path: s, filename: f, .. } =>
            torrent_id == 0 && s == source_path && f == filename && d == dir_path,
        _ => false,
    }
}

/// A directory of a torrent that is being added is found where some file stands below
/// it.
pub proof fn law_pending_directory_is_found(
    table: Map<Node, NodeData>,
    rows: DbRows,
    metas: Seq<MetaFile>,
    processing: Seq<(Seq<char>, Seq<char>)>,
    parent: Node,
    source_path: Seq<char>,
    filename: Seq<char>,
    dir_path: Seq<char>,
    files: Seq<(Seq<char>, u64)>,
    name: Seq<char>,
    i: int,
)
    requires
        parent != Node::Data,
        table.contains_key(parent),
        pending_place(table[parent], source_path, filename, dir_path),
        lookup::pending_files(metas, source_path, filename) == Some(files),
        0 <= i < files.len(),
        (path_within(dir_path, name) + seq!['/']).is_prefix_of(files[i].0),
    ensures
        lookup::resolved(table, rows, metas, processing, parent, name) matches Some(found)
            && is_pending_directory(
            found.0,
            found.1,
            source_path,
            filename,
            path_within(dir_path, name),
            name,
        ),
{
    lemma_path_within(dir_path, name);
    let path = path_within(dir_path, name);
    assert(path + seq!['/'] =~= path.push('/'));
    assert(lookup::some_below(files, path));
}

proof fn lemma_path_within(dir_path: Seq<char>, name: Seq<char>)
    ensures
        path_within(dir_path, name) == paths::inside(dir_path) + name,
        path_within(dir_path, name) == paths::child(dir_path, name),
        dir_path.len() == 0 ==> dir_path == Seq::<char>::empty(),
{
    assert(path_within(dir_path, name) =~= paths::inside(dir_path) + name);
    assert(path_within(dir_path, name) =~= paths::child(dir_path, name));
    assert(dir_path.len() == 0 ==> dir_path =~= Seq::<char>::empty());
}

proof fn lemma_path_found(files: Seq<(Seq<char>, u64)>, path: Seq<char>, i: int)
    requires
        0 <= i < files.len(),
        files[i].0 == path,
        forall|j: int| 0 <= j < i ==> (#[trigger] files[j]).0 != path,
    ensures
        lookup::first_path(files, path) == Some(files[i].1),
    decreases files.len(),
{
    if i > 0 {
        assert(files[0].0 != path);
        let rest = files.skip(1);
        assert forall|j: int| 0 <= j < i - 1 implies (#[trigger] rest[j]).0 != path by {
            assert(rest[j] == files[j + 1]);
        }
        lemma_path_found(rest, path, i - 1);
    }
}

proof fn lemma_no_path(files: Seq<(Seq<char>, u64)>, path: Seq<char>)
    requires
        forall|j: int| 0 <= j < files.len() ==> (#[trigger] files[j]).0 != path,
    ensures
        lookup::first_path(files, path) is None,
    decreases files.len(),
{
    if files.len() > 0 {
        assert(files[0].0 != path);
        let rest = files.skip(1);
        assert forall|j: int| 0 <= j < rest.len() implies (#[trigger] rest[j]).0 != path by {
            assert(rest[j] == files[j + 1]);
        }
        lemma_no_path(rest, path);
    }
}

/// A file of a torrent that is being added is found under its path, with its size,
/// where no file stands below that path; any other name is not found.
pub proof fn law_pending_file_is_found(
    table: Map<Node, NodeData>,
    rows: DbRows,
    metas: Seq<MetaFile>,
    processing: Seq<(Seq<char>, Seq<char>)>,
    parent: Node,
    source_path: Seq<char>,
    filename: Seq<char>,
    dir_path: Seq<char>,
    files: Seq<(Seq<char>, u64)>,
    name: Seq<char>,
    i: int,
)
    requires
        parent != Node::Data,
        table.contains_key(parent),
        pending_place(table[parent], source_path, filename, dir_path),
        lookup::pending_files(metas, source_path, filename) == Some(files),
        0 <= i <= files.len(),
        forall|j: int|
            0 <= j < files.len() ==> !(path_within(dir_path, name) + seq!['/']).is_prefix_of(
                (#[trigger] files[j]).0,
            ),
        i < files.len() ==> files[i].0 == path_within(dir_path, name),
        forall|j: int| 0 <= j < i ==> (#[trigger] files[j]).0 != path_within(dir_path, name),
    ensures
        match lookup::resolved(table, rows, metas, processing, parent, name) {
            Some(found) => i < files.len() && is_pending_file(
                found.0,
                found.1,
                source_path,
                filename,
                files[i],
                name,
            ),
            None => i == files.len(),
        },
{
    lemma_path_within(dir_path, name);
    let path = path_within(dir_path, name);
    assert(path + seq!['/'] =~= path.push('/'));
    if lookup::some_below(files, path) {
        let j = choose|j: int|
            0 <= j < files.len() && path.push('/').is_prefix_of((#[trigger] files[j]).0);
        assert(!(path + seq!['/']).is_prefix_of(files[j].0));
    }
    if i < files.len() {
        lemma_path_found(files, path, i);
    } else {
        lemma_no_path(files, path);
    }
}

/// Whether a listing shows something of a torrent that is being added: a file of its
/// list, or a directory on the way to one.
pub open spec fn lists_pending(
    c: ChildView,
    source_path: Seq<char>,
    filename: Seq<char>,
    dir_path: Seq<char>,
    file: (Seq<char>, u64),
) -> bool {
    let path = path_within(dir_path, c.name);
    &&& !c.stats
    &&& c.data matches Some(data) && if c.kind == FileKind::RegularFile {
        path == file.0 && is_pending_file(c.target, data, source_path, filename, file, c.name)
    } else {
        (path + seq!['/']).is_prefix_of(file.0) && is_pending_directory(
            c.target,
            data,
            source_path,
            filename,
            path,
            c.name,
        )
    }
}

/// Everything that a directory of a torrent that is being added lists comes from some
/// file of the torrent: the file itself, with its size, or the directory on the way
/// to it.
pub proof fn law_pending_listing_shows_the_files(
    files: Seq<(Seq<char>, u64)>,
    source_path: Seq<char>,
    filename: Seq<char>,
    dir_path: Seq<char>,
    i: int,
)
    requires
        0 <= i < lookup::inner_children(files, source_path, filename, dir_path).len(),
    ensures
        exists|k: int|
            0 <= k < files.len() && lists_pending(
                lookup::inner_children(files, source_path, filename, dir_path)[i],
                source_path,
                filename,
                dir_path,
                #[trigger] files[k],
            ),
    decreases files.len(),
{
    let rest = files.drop_last();
    let before = lookup::inner_children(rest, source_path, filename, dir_path);
    let all = lookup::inner_children(files, source_path, filename, dir_path);
    if i < before.len() {
        assert(all[i] == before[i]);
        law_pending_listing_shows_the_files(rest, source_path, filename, dir_path, i);
        let k = choose|k: int|
            0 <= k < rest.len() && lists_pending(
                before[i],
                source_path,
                filename,
                dir_path,
                #[trigger] rest[k],
            );
        assert(files[k] == rest[k]);
    } else {
        let file = files.last();
        let name = all[i].name;
        let prefix = paths::inside(dir_path);
        let below = file.0.skip(prefix.len() as int);
        lemma_path_within(dir_path, name);
        assert(prefix + below =~= file.0);
        paths::lemma_first_slash(below);
        if let Some(at) = paths::first_slash(below) {
            assert(prefix + name + seq!['/'] =~= file.0.take(prefix.len() + at + 1));
        }
        assert(lists_pending(all[i], source_path, filename, dir_path, file));
        assert(files[files.len() - 1] == file);
    }
}

// ── Kinds, entries and plain values ─────────────────────────────────────────

/// Files of torrents are files of their size; everything else is a directory.
pub proof fn law_only_files_have_a_size(data: NodeData)
    ensures
        data matches NodeData::TorrentFile { size, .. } ==> data.kind_size() == (
            FileKind::RegularFile,
            size as u64,
        ),
        data !is TorrentFile ==> data.kind_size() == (FileKind::Directory, 0u64),
{
}

/// Each child of a listing has its entry behind the two that every directory has, as
/// it is.
pub proof fn law_each_child_has_its_entry(node: Node, l: ListingView, i: int)
    requires
        0 <= i < l.children.len(),
        l.children.len() + 2 <= u64::MAX,
    ensures
        ({
            let all = lookup::entries(node, l);
            &&& all.len() == l.children.len() + 2
            &&& all[i + 2].target == l.children[i].target
            &&& all[i + 2].stats == l.children[i].stats
            &&& all[i + 2].kind == l.children[i].kind
            &&& all[i + 2].name == l.children[i].name
            &&& all[i + 2].offset == i + 3
            &&& all[0].kind == FileKind::Directory
            &&& !all[0].stats
            &&& all[0].offset == 1
            &&& all[1].kind == FileKind::Directory
            &&& !all[1].stats
            &&& all[1].offset == 2
        }),
{
}

/// The plain values of an entry are those of its fields.
pub proof fn law_entry_is_its_fields(e: DirEntry, c: Child)
    ensures
        e@.target == e.target@,
        e@.stats == e.stats,
        e@.offset == e.offset,
        e@.kind == e.kind,
        e@.name == e.name@,
        c@.target == c.target@,
        c@.stats == c.stats,
        c@.kind == c.kind,
        c@.name == c.name@,
        c.data is None <==> c@.data is None,
        c.data matches Some(d) ==> c@.data == Some(d@),
{
}

/// The plain values of what is known of a node are those of its fields.
pub proof fn law_node_data_is_its_fields(d: DataInode)
    ensures
        d matches DataInode::SourcePathDir { path: p } ==> d@ == (NodeData::SourcePathDir {
            path: p@,
        }),
        d matches DataInode::TorrentRoot { torrent_id: t, source_path: s, name: n, filename: f }
            ==> d@ == (NodeData::TorrentRoot {
            torrent_id: t,
            source_path: s@,
            name: n@,
            filename: f@,
        }),
        d matches DataInode::TorrentDir {
            torrent_id: t,
            dir_id: i,
            name: n,
            dir_path: p,
            torrent_source_path: s,
            torrent_filename: f,
        } ==> d@ == (NodeData::TorrentDir {
            torrent_id: t,
            dir_id: i,
            name: n@,
            dir_path: p@,
            source_path: s@,
            filename: f@,
        }),
        d matches DataInode::TorrentFile {
            torrent_id: t,
            file_id: i,
            name: n,
            size: z,
            torrent_source_path: s,
            torrent_filename: f,
        } ==> d@ == (NodeData::TorrentFile {
            torrent_id: t,
            file_id: i,
            name: n@,
            size: z,
            source_path: s@,
            filename: f@,
        }),
{
}

/// The plain values of an identity are those of its fields.
pub proof fn law_node_is_its_fields(id: NodeId)
    ensures
        id is Root <==> id@ is Root,
        id is Data <==> id@ is Data,
        id matches NodeId::SourcePath { path: p } ==> id@ == Node::SourcePath(p@),
        id matches NodeId::Torrent { id: n } ==> id@ == Node::Torrent(n),
        id matches NodeId::TorrentDir { id: n } ==> id@ == Node::TorrentDir(n),
        id matches NodeId::TorrentFile { id: n } ==> id@ == Node::TorrentFile(n),
        id matches NodeId::PendingTorrent { source_path: s, filename: f } ==> id@
            == Node::PendingTorrent(s@, f@),
        id matches NodeId::PendingDir { source_path: s, filename: f, path: p } ==> id@
            == Node::PendingDir(s@, f@, p@),
        id matches NodeId::PendingFile { source_path: s, filename: f, path: p } ==> id@
            == Node::PendingFile(s@, f@, p@),
{
}

// ── The file that a torrent is being added from ─────────────────────────────

/// Whether a file below `metadata/` is the one that a torrent is being added from: it
/// is there, in the directory and under the name of the torrent, and not empty.
pub open spec fn is_origin(m: MetaFile, source_path: Seq<char>, filename: Seq<char>) -> bool {
    !m.unlinked && m.source_path@ == source_path && m.name@ == filename && m.data@.len() != 0
}

/// What a torrent that is being added holds is read from the first such file.
pub proof fn law_first_origin_counts(
    metas: Seq<MetaFile>,
    source_path: Seq<char>,
    filename: Seq<char>,
    i: int,
)
    requires
        0 <= i <= metas.len(),
        i < metas.len() ==> is_origin(metas[i], source_path, filename),
        forall|j: int| 0 <= j < i ==> !is_origin(#[trigger] metas[j], source_path, filename),
    ensures
        i < metas.len() ==> lookup::pending_bytes(metas, source_path, filename) == Some(
            metas[i].data@,
        ),
        i == metas.len() ==> lookup::pending_bytes(metas, source_path, filename) is None,
    decreases metas.len(),
{
    if i > 0 {
        assert(!is_origin(metas[0], source_path, filename));
        let rest = metas.skip(1);
        assert forall|j: int| 0 <= j < i - 1 implies !is_origin(
            #[trigger] rest[j],
            source_path,
            filename,
        ) by {
            assert(rest[j] == metas[j + 1]);
        }
        law_first_origin_counts(rest, source_path, filename, i - 1);
    }
}

/// A torrent that is being added has the name that the first such file with a name
/// gives it; without one, its file name without the ending.
pub proof fn law_name_of_a_torrent_being_added(
    metas: Seq<MetaFile>,
    source_path: Seq<char>,
    filename: Seq<char>,
    i: int,
)
    requires
        0 <= i <= metas.len(),
        i < metas.len() ==> is_origin(metas[i], source_path, filename)
            && torrent_file::torrent_name(metas[i].data@) is Some,
        forall|j: int|
            0 <= j < i ==> !(is_origin(#[trigger] metas[j], source_path, filename)
                && torrent_file::torrent_name(metas[j].data@) is Some),
    ensures
        i < metas.len() ==> Some(lookup::pending_name(metas, source_path, filename))
            == torrent_file::torrent_name(metas[i].data@),
        i == metas.len() ==> lookup::pending_name(metas, source_path, filename) == paths::stem(
            filename,
        ),
    decreases metas.len(),
{
    if i > 0 {
        assert(!(is_origin(metas[0], source_path, filename) && torrent_file::torrent_name(
            metas[0].data@,
        ) is Some));
        let rest = metas.skip(1);
        assert forall|j: int| 0 <= j < i - 1 implies !(is_origin(
            #[trigger] rest[j],
            source_path,
            filename,
        ) && torrent_file::torrent_name(rest[j].data@) is Some) by {
            assert(rest[j] == metas[j + 1]);
        }
        law_name_of_a_torrent_being_added(rest, source_path, filename, i - 1);
    }
}

// ── Around a listing ────────────────────────────────────────────────────────

/// Whether a node is the one above a path: the directory before its last slash, and
/// `data/` for a path without one.
pub open spec fn is_above(node: Node, path: Seq<char>) -> bool {
    if path.contains('/') {
        node matches Node::SourcePath(dir) && dir.len() < path.len() && path[dir.len() as int]
            == '/' && path.take(dir.len() as int) == dir && !path.skip(
            dir.len() as int + 1,
        ).contains('/')
    } else {
        node == Node::Data
    }
}

/// `data/` stands in the mount point; a directory on the way to torrents, and a torrent,
/// stand where their directory's path leads without its last part.
pub proof fn law_what_stands_above(
    table: Map<Node, NodeData>,
    rows: DbRows,
    metas: Seq<MetaFile>,
    processing: Seq<(Seq<char>, Seq<char>)>,
    node: Node,
)
    ensures
        match lookup::listing(table, rows, metas, processing, node) {
            Some(l) => {
                &&& node == Node::Data ==> l.above == Node::Root
                &&& node != Node::Data ==> (table[node] matches NodeData::SourcePathDir { path }
                    ==> is_above(l.above, path))
                &&& node != Node::Data ==> (table[node] matches NodeData::TorrentRoot {
                    source_path,
                    ..
                } ==> is_above(l.above, source_path))
            },
            None => true,
        },
{
    if node != Node::Data && table.contains_key(node) {
        match table[node] {
            NodeData::SourcePathDir { path } => lemma_above(path),
            NodeData::TorrentRoot { source_path, .. } => lemma_above(source_path),
            _ => {},
        }
    }
}

proof fn lemma_above(path: Seq<char>)
    ensures
        is_above(lookup::above(path), path),
{
    paths::lemma_last_slash(path);
    match paths::last_slash(path) {
        Some(at) => {
            assert(path.contains(path[at]));
            let dir = path.take(at);
            let rest = path.skip(dir.len() as int + 1);
            if rest.contains('/') {
                let k = choose|k: int| 0 <= k < rest.len() && rest[k] == '/';
                assert(path[at + 1 + k] == '/');
            }
        },
        None => {
            if path.contains('/') {
                let k = choose|k: int| 0 <= k < path.len() && path[k] == '/';
                assert(path[k] == '/');
            }
        },
    }
}

/// A torrent that is being added lists what its file says it holds, and its own
/// `.stats` at the end; a directory of it has no `.stats`. Without a file that can be
/// read, nothing is listed.
pub proof fn law_listing_of_a_torrent_being_added(
    table: Map<Node, NodeData>,
    rows: DbRows,
    metas: Seq<MetaFile>,
    processing: Seq<(Seq<char>, Seq<char>)>,
    node: Node,
    source_path: Seq<char>,
    filename: Seq<char>,
    dir_path: Seq<char>,
)
    requires
        node != Node::Data,
        table.contains_key(node),
        pending_place(table[node], source_path, filename, dir_path),
    ensures
        match lookup::listing(table, rows, metas, processing, node) {
            Some(l) => match lookup::pending_files(metas, source_path, filename) {
                Some(files) => {
                    let held = lookup::inner_children(files, source_path, filename, dir_path);
                    &&& table[node] is TorrentDir ==> l.children == held
                    &&& table[node] is TorrentRoot ==> {
                        &&& l.children.len() == held.len() + 1
                        &&& l.children.drop_last() == held
                        &&& l.children.last().stats
                        &&& l.children.last().target == node
                        &&& l.children.last().kind == FileKind::RegularFile
                        &&& l.children.last().name == ".stats"@
                        &&& l.children.last().data is None
                    }
                },
                None => l.children.len() == 0,
            },
            None => false,
        },
{
    lemma_path_within(dir_path, Seq::empty());
    if let Some(files) = lookup::pending_files(metas, source_path, filename) {
        let held = lookup::inner_children(files, source_path, filename, dir_path);
        if table[node] is TorrentRoot {
            let l = lookup::listing(table, rows, metas, processing, node)->0;
            assert(l.children.drop_last() =~= held);
        }
    }
}

/// Every node that is listed becomes known as it is listed, and nothing else does; a
/// `.stats` is no node.
pub proof fn law_listed_nodes_become_known(children: Seq<ChildView>, node: Node, data: NodeData)
    ensures
        lookup::known(children).contains((node, data)) <==> exists|i: int|
            0 <= i < children.len() && (#[trigger] children[i]).target == node && children[i].data
                == Some(data),
    decreases children.len(),
{
    if children.len() > 0 {
        let rest = children.drop_last();
        law_listed_nodes_become_known(rest, node, data);
        let before = lookup::known(rest);
        let after = lookup::known(children);
        let n = children.len() - 1;
        let entry = (node, data);
        assert(children[n] == children.last());
        if before.contains(entry) {
            let k = choose|k: int| 0 <= k < before.len() && before[k] == entry;
            assert(after[k] == entry);
            let i = choose|i: int|
                0 <= i < rest.len() && (#[trigger] rest[i]).target == node && rest[i].data
                    == Some(data);
            assert(children[i].target == node && children[i].data == Some(data));
        }
        if children[n].target == node && children[n].data == Some(data) {
            assert(after[before.len() as int] == entry);
        }
        if after.contains(entry) && !before.contains(entry) {
            let k = choose|k: int| 0 <= k < after.len() && after[k] == entry;
            assert(k == before.len());
            assert(children[n].target == node && children[n].data == Some(data));
        }
        if exists|i: int|
            0 <= i < children.len() && (#[trigger] children[i]).target == node && children[i].data
                == Some(data) {
            let i = choose|i: int|
                0 <= i < children.len() && (#[trigger] children[i]).target == node
                    && children[i].data == Some(data);
            if i < n {
                assert(rest[i].target == node && rest[i].data == Some(data));
            }
        }
    }
}

} // verus!
