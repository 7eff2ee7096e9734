//! Names and listings of the `data/` tree.
use vstd::prelude::*;

use vstd::string::StrSliceExecFns;

use crate::db::types::{Torrent, TorrentDirectory, TorrentFile};
use crate::error::FsError;
use crate::fuse::inodes;
use crate::fuse::inodes::{DataInode, DataInodes, FileKind, Node, NodeData, NodeId};
use crate::fuse::listing_laws;
use crate::paths;
use crate::text;
use crate::torrent_file;
use crate::torrent_file::PendingFile;

verus! {

// ── What the tree is made from ──────────────────────────────────────────────

/// What the database answers about one node. What was not asked for, or could
/// not be answered, is missing.
pub struct DbRows {
    /// The next parts of the paths that go on below a directory.
    pub prefixes: Option<Vec<String>>,
    /// The torrents in a directory.
    pub torrents: Option<Vec<Torrent>>,
    /// The directories within a torrent or one of its directories.
    pub dirs: Option<Vec<TorrentDirectory>>,
    /// The files within a torrent or one of its directories.
    pub files: Option<Vec<TorrentFile>>,
    /// The directory around a directory of a torrent.
    pub parent_dir: Option<i64>,
}

/// What there is to ask the database about a node.
pub enum Query {
    /// The paths below a directory and the torrents in it.
    Place { path: String },
    /// What a torrent, or a directory of it, holds.
    Inside { torrent_id: i64, dir_id: Option<i64> },
    /// Nothing.
    Nothing,
}

/// A file below `metadata/`.
pub struct MetaFile {
    pub source_path: String,
    pub name: String,
    pub data: Vec<u8>,
    pub unlinked: bool,
}

impl MetaFile {
    /// Whether this is the file that a torrent is being added from.
    pub open spec fn is_source_of(self, source_path: Seq<char>, filename: Seq<char>) -> bool {
        !self.unlinked && self.name@ == filename && self.data@.len() > 0 && self.source_path@
            == source_path
    }

    fn is_source(&self, source_path: &str, filename: &str) -> (yes: bool)
        ensures
            yes == self.is_source_of(source_path@, filename@),
    {
        !self.unlinked && text::same(self.name.as_str(), filename) && self.data.len() > 0
            && text::same(self.source_path.as_str(), source_path)
    }
}

// ── Torrents that are still being added ─────────────────────────────────────

/// The name of a torrent that is being added: that in its file or, failing that,
/// the file's name without the ending.
pub open spec fn pending_name(
    metas: Seq<MetaFile>,
    source_path: Seq<char>,
    filename: Seq<char>,
) -> Seq<char>
    decreases metas.len(),
{
    if metas.len() == 0 {
        paths::stem(filename)
    } else if metas[0].is_source_of(source_path, filename) && torrent_file::torrent_name(
        metas[0].data@,
    ) is Some {
        torrent_file::torrent_name(metas[0].data@)->0
    } else {
        pending_name(metas.skip(1), source_path, filename)
    }
}

/// The bytes of the file that a torrent is being added from.
pub open spec fn pending_bytes(
    metas: Seq<MetaFile>,
    source_path: Seq<char>,
    filename: Seq<char>,
) -> Option<Seq<u8>>
    decreases metas.len(),
{
    if metas.len() == 0 {
        None
    } else if metas[0].is_source_of(source_path, filename) {
        Some(metas[0].data@)
    } else {
        pending_bytes(metas.skip(1), source_path, filename)
    }
}

/// The files of a torrent that is being added.
pub open spec fn pending_files(
    metas: Seq<MetaFile>,
    source_path: Seq<char>,
    filename: Seq<char>,
) -> Option<Seq<(Seq<char>, u64)>> {
    match pending_bytes(metas, source_path, filename) {
        Some(data) => match torrent_file::torrent_files(data) {
            Some((_, files)) => Some(files),
            None => None,
        },
        None => None,
    }
}

/// The node of a torrent that is being added.
pub open spec fn pending_root(
    metas: Seq<MetaFile>,
    source_path: Seq<char>,
    filename: Seq<char>,
) -> (Node, NodeData) {
    (
        Node::PendingTorrent(source_path, filename),
        NodeData::TorrentRoot {
            torrent_id: 0,
            source_path,
            name: pending_name(metas, source_path, filename),
            filename,
        },
    )
}

/// A directory within a torrent that is being added.
pub open spec fn pending_dir(
    source_path: Seq<char>,
    filename: Seq<char>,
    dir_path: Seq<char>,
    name: Seq<char>,
) -> (Node, NodeData) {
    let path = paths::child(dir_path, name);
    (
        Node::PendingDir(source_path, filename, path),
        NodeData::TorrentDir {
            torrent_id: 0,
            dir_id: 0,
            name,
            dir_path: path,
            source_path,
            filename,
        },
    )
}

/// A file within a torrent that is being added.
pub open spec fn pending_file(
    source_path: Seq<char>,
    filename: Seq<char>,
    path: Seq<char>,
    name: Seq<char>,
    size: u64,
) -> (Node, NodeData) {
    (
        Node::PendingFile(source_path, filename, path),
        NodeData::TorrentFile {
            torrent_id: 0,
            file_id: 0,
            name,
            size: size as i64,
            source_path,
            filename,
        },
    )
}

fn parse_pending_torrent_name(
    metas: &Vec<MetaFile>,
    source_path: &str,
    filename: &str,
) -> (name: String)
    ensures
        name@ == pending_name(metas@, source_path@, filename@),
{
    let mut i: usize = 0;
    assert(metas@.skip(0) =~= metas@);
    while i < metas.len()
        invariant
            i <= metas@.len(),
            pending_name(metas@, source_path@, filename@) == pending_name(
                metas@.skip(i as int),
                source_path@,
                filename@,
            ),
        decreases metas@.len() - i,
    {
        if metas[i].is_source(source_path, filename) {
            match torrent_file::extract_bencode_name(metas[i].data.as_slice()) {
                Some(name) => {
                    return name;
                },
                None => {},
            }
        }
        assert(metas@.skip(i as int).skip(1) =~= metas@.skip(i as int + 1));
        i = i + 1;
    }
    paths::stem_of(filename)
}

fn find_pending_torrent_data<'a>(
    metas: &'a Vec<MetaFile>,
    source_path: &str,
    filename: &str,
) -> (data: Option<&'a Vec<u8>>)
    ensures
        (match data {
            Some(d) => Some(d@),
            None => None,
        }) == pending_bytes(metas@, source_path@, filename@),
{
    let mut i: usize = 0;
    assert(metas@.skip(0) =~= metas@);
    while i < metas.len()
        invariant
            i <= metas@.len(),
            pending_bytes(metas@, source_path@, filename@) == pending_bytes(
                metas@.skip(i as int),
                source_path@,
                filename@,
            ),
        decreases metas@.len() - i,
    {
        if metas[i].is_source(source_path, filename) {
            return Some(&metas[i].data);
        }
        assert(metas@.skip(i as int).skip(1) =~= metas@.skip(i as int + 1));
        i = i + 1;
    }
    None
}

fn read_pending_files(
    metas: &Vec<MetaFile>,
    source_path: &str,
    filename: &str,
) -> (files: Option<Vec<PendingFile>>)
    ensures
        (match files {
            Some(f) => Some(torrent_file::files_view(f@)),
            None => None,
        }) == pending_files(metas@, source_path@, filename@),
{
    match find_pending_torrent_data(metas, source_path, filename) {
        Some(data) => match torrent_file::extract_bencode_files(data.as_slice()) {
            Some((_, files)) => Some(files),
            None => None,
        },
        None => None,
    }
}

fn make_pending_root(
    metas: &Vec<MetaFile>,
    source_path: &str,
    filename: &str,
) -> (r: (NodeId, DataInode))
    ensures
        (r.0@, r.1@) == pending_root(metas@, source_path@, filename@),
{
    (
        NodeId::PendingTorrent {
            source_path: source_path.to_owned(),
            filename: filename.to_owned(),
        },
        DataInode::TorrentRoot {
            torrent_id: 0,
            source_path: source_path.to_owned(),
            name: parse_pending_torrent_name(metas, source_path, filename),
            filename: filename.to_owned(),
        },
    )
}

fn make_pending_dir(
    source_path: &str,
    filename: &str,
    dir_path: &str,
    name: &str,
) -> (r: (NodeId, DataInode))
    ensures
        (r.0@, r.1@) == pending_dir(source_path@, filename@, dir_path@, name@),
{
    (
        NodeId::PendingDir {
            source_path: source_path.to_owned(),
            filename: filename.to_owned(),
            path: paths::child_of(dir_path, name),
        },
        DataInode::TorrentDir {
            torrent_id: 0,
            dir_id: 0,
            name: name.to_owned(),
            dir_path: paths::child_of(dir_path, name),
            torrent_source_path: source_path.to_owned(),
            torrent_filename: filename.to_owned(),
        },
    )
}

fn make_pending_file(
    source_path: &str,
    filename: &str,
    path: &str,
    name: &str,
    size: u64,
) -> (r: (NodeId, DataInode))
    ensures
        (r.0@, r.1@) == pending_file(source_path@, filename@, path@, name@, size),
{
    (
        NodeId::PendingFile {
            source_path: source_path.to_owned(),
            filename: filename.to_owned(),
            path: path.to_owned(),
        },
        DataInode::TorrentFile {
            torrent_id: 0,
            file_id: 0,
            name: name.to_owned(),
            size: size as i64,
            torrent_source_path: source_path.to_owned(),
            torrent_filename: filename.to_owned(),
        },
    )
}

// ── Torrents in the database ────────────────────────────────────────────────

/// The node of a torrent.
pub open spec fn torrent_node(t: Torrent) -> (Node, NodeData) {
    (
        Node::Torrent(t.id),
        NodeData::TorrentRoot {
            torrent_id: t.id,
            source_path: t.source_path@,
            name: t.name@,
            filename: t.filename@,
        },
    )
}

/// The node of a directory on the way to torrents.
pub open spec fn place_node(path: Seq<char>) -> (Node, NodeData) {
    (Node::SourcePath(path), NodeData::SourcePathDir { path })
}

/// The node of a directory within a torrent.
pub open spec fn dir_node(torrent_id: i64, d: TorrentDirectory) -> (Node, NodeData) {
    (
        Node::TorrentDir(d.id),
        NodeData::TorrentDir {
            torrent_id,
            dir_id: d.id,
            name: d.name@,
            dir_path: Seq::empty(),
            source_path: Seq::empty(),
            filename: Seq::empty(),
        },
    )
}

/// The node of a file within a torrent.
pub open spec fn file_node(torrent_id: i64, f: TorrentFile) -> (Node, NodeData) {
    (
        Node::TorrentFile(f.id),
        NodeData::TorrentFile {
            torrent_id,
            file_id: f.id,
            name: f.name@,
            size: f.size,
            source_path: Seq::empty(),
            filename: Seq::empty(),
        },
    )
}

fn make_torrent_node(t: &Torrent) -> (r: (NodeId, DataInode))
    ensures
        (r.0@, r.1@) == torrent_node(*t),
{
    (
        NodeId::Torrent { id: t.id },
        DataInode::TorrentRoot {
            torrent_id: t.id,
            source_path: t.source_path.clone(),
            name: t.name.clone(),
            filename: t.filename.clone(),
        },
    )
}

fn make_place_node(path: &str) -> (r: (NodeId, DataInode))
    ensures
        (r.0@, r.1@) == place_node(path@),
{
    (
        NodeId::SourcePath { path: path.to_owned() },
        DataInode::SourcePathDir { path: path.to_owned() },
    )
}

fn nothing() -> (s: String)
    ensures
        s@ == Seq::<char>::empty(),
{
    proof {
        reveal_strlit("");
    }
    let s = "".to_owned();
    assert(s@ =~= Seq::empty());
    s
}

fn make_dir_node(torrent_id: i64, d: &TorrentDirectory) -> (r: (NodeId, DataInode))
    ensures
        (r.0@, r.1@) == dir_node(torrent_id, *d),
{
    (
        NodeId::TorrentDir { id: d.id },
        DataInode::TorrentDir {
            torrent_id,
            dir_id: d.id,
            name: d.name.clone(),
            dir_path: nothing(),
            torrent_source_path: nothing(),
            torrent_filename: nothing(),
        },
    )
}

fn make_file_node(torrent_id: i64, f: &TorrentFile) -> (r: (NodeId, DataInode))
    ensures
        (r.0@, r.1@) == file_node(torrent_id, *f),
{
    (
        NodeId::TorrentFile { id: f.id },
        DataInode::TorrentFile {
            torrent_id,
            file_id: f.id,
            name: f.name.clone(),
            size: f.size,
            torrent_source_path: nothing(),
            torrent_filename: nothing(),
        },
    )
}

// ── Looking up a name ───────────────────────────────────────────────────────

/// The first torrent with a file name.
pub open spec fn first_torrent(torrents: Seq<Torrent>, name: Seq<char>) -> Option<(Node, NodeData)>
    decreases torrents.len(),
{
    if torrents.len() == 0 {
        None
    } else if torrents[0].filename@ == name {
        Some(torrent_node(torrents[0]))
    } else {
        first_torrent(torrents.skip(1), name)
    }
}

/// The first directory with a name.
pub open spec fn first_dir(
    torrent_id: i64,
    dirs: Seq<TorrentDirectory>,
    name: Seq<char>,
) -> Option<(Node, NodeData)>
    decreases dirs.len(),
{
    if dirs.len() == 0 {
        None
    } else if dirs[0].name@ == name {
        Some(dir_node(torrent_id, dirs[0]))
    } else {
        first_dir(torrent_id, dirs.skip(1), name)
    }
}

/// The first file with a name.
pub open spec fn first_file(
    torrent_id: i64,
    files: Seq<TorrentFile>,
    name: Seq<char>,
) -> Option<(Node, NodeData)>
    decreases files.len(),
{
    if files.len() == 0 {
        None
    } else if files[0].name@ == name {
        Some(file_node(torrent_id, files[0]))
    } else {
        first_file(torrent_id, files.skip(1), name)
    }
}

/// The first file with a path, and its size.
pub open spec fn first_path(files: Seq<(Seq<char>, u64)>, path: Seq<char>) -> Option<u64>
    decreases files.len(),
{
    if files.len() == 0 {
        None
    } else if files[0].0 == path {
        Some(files[0].1)
    } else {
        first_path(files.skip(1), path)
    }
}

/// Whether some file stands below a directory.
pub open spec fn some_below(files: Seq<(Seq<char>, u64)>, path: Seq<char>) -> bool {
    exists|i: int| 0 <= i < files.len() && path.push('/').is_prefix_of((#[trigger] files[i]).0)
}

/// What a name means in a directory on the way to torrents: a directory further
/// down before a torrent.
pub open spec fn found_in_place(rows: DbRows, path: Seq<char>, name: Seq<char>) -> Option<
    (Node, NodeData),
> {
    match rows.prefixes {
        Some(prefixes) => if text::texts(prefixes@).contains(name) {
            Some(place_node(paths::child(path, name)))
        } else {
            match rows.torrents {
                Some(torrents) => first_torrent(torrents@, name),
                None => None,
            }
        },
        None => None,
    }
}

/// What a name means in a torrent or one of its directories: a directory before
/// a file.
pub open spec fn found_inside(rows: DbRows, torrent_id: i64, name: Seq<char>) -> Option<
    (Node, NodeData),
> {
    match rows.dirs {
        Some(dirs) => match first_dir(torrent_id, dirs@, name) {
            Some(found) => Some(found),
            None => match rows.files {
                Some(files) => first_file(torrent_id, files@, name),
                None => None,
            },
        },
        None => None,
    }
}

/// What a name means in a torrent that is being added, or one of its
/// directories: a directory before a file.
pub open spec fn found_in_pending(
    files: Option<Seq<(Seq<char>, u64)>>,
    source_path: Seq<char>,
    filename: Seq<char>,
    dir_path: Seq<char>,
    name: Seq<char>,
) -> Option<(Node, NodeData)> {
    let path = paths::inside(dir_path) + name;
    match files {
        Some(files) => if some_below(files, path) {
            Some(pending_dir(source_path, filename, dir_path, name))
        } else {
            match first_path(files, path) {
                Some(size) => Some(pending_file(source_path, filename, path, name, size)),
                None => None,
            }
        },
        None => None,
    }
}

/// What a name means in a node, apart from torrents that are being added to it.
pub open spec fn found(
    table: Map<Node, NodeData>,
    rows: DbRows,
    metas: Seq<MetaFile>,
    parent: Node,
    name: Seq<char>,
) -> Option<(Node, NodeData)> {
    if parent == Node::Data {
        found_in_place(rows, Seq::empty(), name)
    } else if !table.contains_key(parent) {
        None
    } else {
        match table[parent] {
            NodeData::SourcePathDir { path } => found_in_place(rows, path, name),
            NodeData::TorrentRoot { torrent_id, source_path, filename, .. } => if torrent_id == 0 {
                found_in_pending(
                    pending_files(metas, source_path, filename),
                    source_path,
                    filename,
                    Seq::empty(),
                    name,
                )
            } else {
                found_inside(rows, torrent_id, name)
            },
            NodeData::TorrentDir { torrent_id, dir_path, source_path, filename, .. } => if torrent_id
                == 0 {
                found_in_pending(
                    pending_files(metas, source_path, filename),
                    source_path,
                    filename,
                    dir_path,
                    name,
                )
            } else {
                found_inside(rows, torrent_id, name)
            },
            NodeData::TorrentFile { .. } => None,
        }
    }
}

/// The directory whose torrents a node holds, if it is one that does.
pub open spec fn place_of(table: Map<Node, NodeData>, node: Node) -> Option<Seq<char>> {
    if node == Node::Data {
        Some(Seq::empty())
    } else if table.contains_key(node) {
        match table[node] {
            NodeData::SourcePathDir { path } => Some(path),
            _ => None,
        }
    } else {
        None
    }
}

/// The torrents that are being added, each a directory and a file name.
pub open spec fn processing_view(processing: Seq<(String, String)>) -> Seq<(Seq<char>, Seq<char>)> {
    Seq::new(processing.len(), |i: int| (processing[i].0@, processing[i].1@))
}

/// What a name means in a node.
pub open spec fn resolved(
    table: Map<Node, NodeData>,
    rows: DbRows,
    metas: Seq<MetaFile>,
    processing: Seq<(Seq<char>, Seq<char>)>,
    parent: Node,
    name: Seq<char>,
) -> Option<(Node, NodeData)> {
    match found(table, rows, metas, parent, name) {
        Some(node) => Some(node),
        None => match place_of(table, parent) {
            Some(source_path) => if processing.contains((source_path, name)) {
                Some(pending_root(metas, source_path, name))
            } else {
                None
            },
            None => None,
        },
    }
}

/// A found node as plain values.
pub open spec fn node_view(r: Option<(NodeId, DataInode)>) -> Option<(Node, NodeData)> {
    match r {
        Some((id, data)) => Some((id@, data@)),
        None => None,
    }
}

/// Looks names up and lists directories of the `data/` tree.
pub struct DataResolver;

impl DataResolver {
    fn resolve_source_path_dir_lookup(rows: &DbRows, path: &str, name: &str) -> (r: Option<
        (NodeId, DataInode),
    >)
        ensures
            node_view(r) == found_in_place(*rows, path@, name@),
    {
        let prefixes = match &rows.prefixes {
            Some(prefixes) => prefixes,
            None => {
                return None;
            },
        };
        if text::among(prefixes, name) {
            return Some(make_place_node(paths::child_of(path, name).as_str()));
        }
        let torrents = match &rows.torrents {
            Some(torrents) => torrents,
            None => {
                return None;
            },
        };
        let mut i: usize = 0;
        assert(torrents@.skip(0) =~= torrents@);
        while i < torrents.len()
            invariant
                i <= torrents@.len(),
                rows.prefixes == Some(*prefixes),
                rows.torrents == Some(*torrents),
                !text::texts(prefixes@).contains(name@),
                first_torrent(torrents@, name@) == first_torrent(torrents@.skip(i as int), name@),
            decreases torrents@.len() - i,
        {
            if text::same(torrents[i].filename.as_str(), name) {
                return Some(make_torrent_node(&torrents[i]));
            }
            assert(torrents@.skip(i as int).skip(1) =~= torrents@.skip(i as int + 1));
            i = i + 1;
        }
        None
    }

    /// What a name means at the top of a torrent of the database.
    pub fn resolve_torrent_root_lookup(rows: &DbRows, torrent_id: i64, name: &str) -> (r: Option<
        (NodeId, DataInode),
    >)
        ensures
            node_view(r) == found_inside(*rows, torrent_id, name@),
    {
        Self::resolve_torrent_dir_lookup(rows, torrent_id, name)
    }

    /// What a name means in a torrent of the database or one of its directories.
    pub fn resolve_torrent_dir_lookup(rows: &DbRows, torrent_id: i64, name: &str) -> (r: Option<
        (NodeId, DataInode),
    >)
        ensures
            node_view(r) == found_inside(*rows, torrent_id, name@),
    {
        let dirs = match &rows.dirs {
            Some(dirs) => dirs,
            None => {
                return None;
            },
        };
        let mut i: usize = 0;
        assert(dirs@.skip(0) =~= dirs@);
        while i < dirs.len()
            invariant
                i <= dirs@.len(),
                rows.dirs == Some(*dirs),
                first_dir(torrent_id, dirs@, name@) == first_dir(
                    torrent_id,
                    dirs@.skip(i as int),
                    name@,
                ),
            decreases dirs@.len() - i,
        {
            if text::same(dirs[i].name.as_str(), name) {
                return Some(make_dir_node(torrent_id, &dirs[i]));
            }
            assert(dirs@.skip(i as int).skip(1) =~= dirs@.skip(i as int + 1));
            i = i + 1;
        }
        let files = match &rows.files {
            Some(files) => files,
            None => {
                return None;
            },
        };
        let mut i: usize = 0;
        assert(files@.skip(0) =~= files@);
        while i < files.len()
            invariant
                i <= files@.len(),
                rows.dirs == Some(*dirs),
                rows.files == Some(*files),
                first_dir(torrent_id, dirs@, name@) is None,
                first_file(torrent_id, files@, name@) == first_file(
                    torrent_id,
                    files@.skip(i as int),
                    name@,
                ),
            decreases files@.len() - i,
        {
            if text::same(files[i].name.as_str(), name) {
                return Some(make_file_node(torrent_id, &files[i]));
            }
            assert(files@.skip(i as int).skip(1) =~= files@.skip(i as int + 1));
            i = i + 1;
        }
        None
    }

    fn resolve_pending_torrent_children(
        metas: &Vec<MetaFile>,
        source_path: &str,
        filename: &str,
        dir_path: &str,
        name: &str,
    ) -> (r: Option<(NodeId, DataInode)>)
        ensures
            node_view(r) == found_in_pending(
                pending_files(metas@, source_path@, filename@),
                source_path@,
                filename@,
                dir_path@,
                name@,
            ),
    {
        let files = match read_pending_files(metas, source_path, filename) {
            Some(files) => files,
            None => {
                return None;
            },
        };
        let ghost listed = torrent_file::files_view(files@);
        let mut path: String = paths::inside_of(dir_path);
        text::push_text(&mut path, name);
        let mut below: String = path.clone();
        below.push('/');
        let mut i: usize = 0;
        while i < files.len()
            invariant
                i <= files@.len(),
                listed == torrent_file::files_view(files@),
                pending_files(metas@, source_path@, filename@) == Some(listed),
                path@ == paths::inside(dir_path@) + name@,
                below@ == path@.push('/'),
                forall|j: int| 0 <= j < i ==> !below@.is_prefix_of((#[trigger] listed[j]).0),
            decreases files@.len() - i,
        {
            if paths::strip_prefix(files[i].path.as_str(), below.as_str()).is_some() {
                assert(below@.is_prefix_of(listed[i as int].0));
                assert(some_below(listed, path@));
                return Some(make_pending_dir(source_path, filename, dir_path, name));
            }
            i = i + 1;
        }
        assert(!some_below(listed, path@));
        let mut i: usize = 0;
        assert(listed.skip(0) =~= listed);
        while i < files.len()
            invariant
                i <= files@.len(),
                listed == torrent_file::files_view(files@),
                pending_files(metas@, source_path@, filename@) == Some(listed),
                path@ == paths::inside(dir_path@) + name@,
                !some_below(listed, path@),
                first_path(listed, path@) == first_path(listed.skip(i as int), path@),
            decreases files@.len() - i,
        {
            if text::same(files[i].path.as_str(), path.as_str()) {
                return Some(
                    make_pending_file(source_path, filename, path.as_str(), name, files[i].size),
                );
            }
            assert(listed.skip(i as int).skip(1) =~= listed.skip(i as int + 1));
            i = i + 1;
        }
        None
    }

    /// What there is to ask the database before a name is looked up in a node, or
    /// the node is listed.
    pub fn query(table: &DataInodes, id: &NodeId) -> (q: Query)
        ensures
            match place_of(table@, id@) {
                Some(path) => q matches Query::Place { path: p } && p@ == path,
                None => if table@.contains_key(id@) {
                    match table@[id@] {
                        NodeData::TorrentRoot { torrent_id, .. } => if torrent_id == 0 {
                            q is Nothing
                        } else {
                            q == (Query::Inside { torrent_id, dir_id: None })
                        },
                        NodeData::TorrentDir { torrent_id, dir_id, .. } => if torrent_id == 0 {
                            q is Nothing
                        } else {
                            q == (Query::Inside { torrent_id, dir_id: Some(dir_id) })
                        },
                        _ => q is Nothing,
                    }
                } else {
                    q is Nothing
                },
            },
    {
        if id.same(&NodeId::Data) {
            return Query::Place { path: nothing() };
        }
        match table.get(id) {
            Some(DataInode::SourcePathDir { path }) => Query::Place { path: path.clone() },
            Some(DataInode::TorrentRoot { torrent_id, .. }) => if *torrent_id == 0 {
                Query::Nothing
            } else {
                Query::Inside { torrent_id: *torrent_id, dir_id: None }
            },
            Some(DataInode::TorrentDir { torrent_id, dir_id, .. }) => if *torrent_id == 0 {
                Query::Nothing
            } else {
                Query::Inside { torrent_id: *torrent_id, dir_id: Some(*dir_id) }
            },
            _ => Query::Nothing,
        }
    }

    /// What a name means in a node, apart from torrents that are being added to it.
    pub fn resolve_data_lookup(
        table: &DataInodes,
        rows: &DbRows,
        metas: &Vec<MetaFile>,
        parent: &NodeId,
        name: &str,
    ) -> (r: Option<(NodeId, DataInode)>)
        ensures
            node_view(r) == found(table@, *rows, metas@, parent@, name@),
    {
        if parent.same(&NodeId::Data) {
            return Self::resolve_source_path_dir_lookup(rows, nothing().as_str(), name);
        }
        match table.get(parent) {
            Some(DataInode::SourcePathDir { path }) => Self::resolve_source_path_dir_lookup(
                rows,
                path.as_str(),
                name,
            ),
            Some(DataInode::TorrentRoot { torrent_id, source_path, filename, .. }) => if *torrent_id
                == 0 {
                Self::resolve_pending_torrent_children(
                    metas,
                    source_path.as_str(),
                    filename.as_str(),
                    nothing().as_str(),
                    name,
                )
            } else {
                Self::resolve_torrent_root_lookup(rows, *torrent_id, name)
            },
            Some(
                DataInode::TorrentDir {
                    torrent_id,
                    dir_path,
                    torrent_source_path,
                    torrent_filename,
                    ..
                },
            ) => if *torrent_id == 0 {
                Self::resolve_pending_torrent_children(
                    metas,
                    torrent_source_path.as_str(),
                    torrent_filename.as_str(),
                    dir_path.as_str(),
                    name,
                )
            } else {
                Self::resolve_torrent_dir_lookup(rows, *torrent_id, name)
            },
            _ => None,
        }
    }

    /// Looks a name up in a node and enters what it means into the table: the
    /// node, its kind and its size.
    pub fn lookup_data_inode(
        table: &mut DataInodes,
        rows: &DbRows,
        metas: &Vec<MetaFile>,
        processing: &Vec<(String, String)>,
        parent: &NodeId,
        name: &str,
    ) -> (r: Option<(NodeId, FileKind, u64)>)
        ensures
            match resolved(
                old(table)@,
                *rows,
                metas@,
                processing_view(processing@),
                parent@,
                name@,
            ) {
                Some((node, data)) => (match r {
                    Some((id, kind, size)) => id@ == node && (kind, size) == data.kind_size(),
                    None => false,
                }) && final(table)@ == old(table)@.insert(node, data),
                None => r is None && final(table)@ == old(table)@,
            },
            inodes::sound(old(table)@) ==> inodes::sound(final(table)@),
    {
        proof {
            if inodes::sound(table@) {
                listing_laws::law_lookup_keeps_the_table_sound(
                    table@,
                    *rows,
                    metas@,
                    processing_view(processing@),
                    parent@,
                    name@,
                );
            }
        }
        match Self::resolve_data_lookup(table, rows, metas, parent, name) {
            Some((id, data)) => {
                let (kind, size) = data.kind_size();
                table.insert(id.copy(), data);
                return Some((id, kind, size));
            },
            None => {},
        }
        let source_path: String = if parent.same(&NodeId::Data) {
            nothing()
        } else {
            match table.get(parent) {
                Some(DataInode::SourcePathDir { path }) => path.clone(),
                _ => {
                    return None;
                },
            }
        };
        if !is_processing(processing, source_path.as_str(), name) {
            return None;
        }
        let (id, data) = make_pending_root(metas, source_path.as_str(), name);
        table.insert(id.copy(), data);
        Some((id, FileKind::Directory, 0))
    }
}

fn is_processing(processing: &Vec<(String, String)>, source_path: &str, name: &str) -> (yes: bool)
    ensures
        yes == processing_view(processing@).contains((source_path@, name@)),
{
    let mut i: usize = 0;
    while i < processing.len()
        invariant
            i <= processing@.len(),
            forall|j: int|
                0 <= j < i ==> (#[trigger] processing_view(processing@)[j]) != (source_path@, name@),
        decreases processing@.len() - i,
    {
        if text::same(processing[i].0.as_str(), source_path) && text::same(
            processing[i].1.as_str(),
            name,
        ) {
            assert(processing_view(processing@)[i as int] == (source_path@, name@));
            return true;
        }
        i = i + 1;
    }
    false
}

// ── Listing a directory ─────────────────────────────────────────────────────

/// What a listing shows: a node, or the `.stats` file of one.
pub struct Child {
    pub target: NodeId,
    pub stats: bool,
    pub kind: FileKind,
    pub name: String,
    /// What becomes known of the node by its being listed.
    pub data: Option<DataInode>,
}

/// What a listing shows, as plain values.
pub struct ChildView {
    pub target: Node,
    pub stats: bool,
    pub kind: FileKind,
    pub name: Seq<char>,
    pub data: Option<NodeData>,
}

impl View for Child {
    type V = ChildView;

    open spec fn view(&self) -> ChildView {
        ChildView {
            target: self.target@,
            stats: self.stats,
            kind: self.kind,
            name: self.name@,
            data: match self.data {
                Some(d) => Some(d@),
                None => None,
            },
        }
    }
}

/// Children as plain values.
pub open spec fn children_view(v: Seq<Child>) -> Seq<ChildView> {
    Seq::new(v.len(), |i: int| v[i]@)
}

/// A node under a name.
pub open spec fn shown(node: (Node, NodeData), name: Seq<char>) -> ChildView {
    ChildView {
        target: node.0,
        stats: false,
        kind: node.1.kind_size().0,
        name,
        data: Some(node.1),
    }
}

/// The `.stats` file of a node.
pub open spec fn stats_of(node: Node) -> ChildView {
    ChildView {
        target: node,
        stats: true,
        kind: FileKind::RegularFile,
        name: ".stats"@,
        data: None,
    }
}

/// Directories further down, each under its name.
pub open spec fn prefix_children(path: Seq<char>, prefixes: Seq<String>) -> Seq<ChildView> {
    Seq::new(
        prefixes.len(),
        |i: int| shown(place_node(paths::child(path, prefixes[i]@)), prefixes[i]@),
    )
}

/// Torrents, each under its file name.
pub open spec fn torrent_children(torrents: Seq<Torrent>) -> Seq<ChildView> {
    Seq::new(torrents.len(), |i: int| shown(torrent_node(torrents[i]), torrents[i].filename@))
}

/// Directories of a torrent, each under its name.
pub open spec fn dir_children(torrent_id: i64, dirs: Seq<TorrentDirectory>) -> Seq<ChildView> {
    Seq::new(dirs.len(), |i: int| shown(dir_node(torrent_id, dirs[i]), dirs[i].name@))
}

/// Files of a torrent, each under its name.
pub open spec fn file_children(torrent_id: i64, files: Seq<TorrentFile>) -> Seq<ChildView> {
    Seq::new(files.len(), |i: int| shown(file_node(torrent_id, files[i]), files[i].name@))
}

/// The names of children.
pub open spec fn names(children: Seq<ChildView>) -> Seq<Seq<char>> {
    Seq::new(children.len(), |i: int| children[i].name)
}

/// The torrents that are being added to a directory, except those whose names it
/// already holds.
pub open spec fn pending_children(
    metas: Seq<MetaFile>,
    processing: Seq<(Seq<char>, Seq<char>)>,
    source_path: Seq<char>,
    existing: Seq<Seq<char>>,
) -> Seq<ChildView>
    decreases processing.len(),
{
    if processing.len() == 0 {
        Seq::empty()
    } else {
        let (sp, filename) = processing.last();
        let before = pending_children(metas, processing.drop_last(), source_path, existing);
        if sp == source_path && !existing.contains(filename) {
            before.push(shown(pending_root(metas, source_path, filename), filename))
        } else {
            before
        }
    }
}

/// What a directory on the way to torrents holds in the database. `data/` shows
/// its torrents first, any other directory the directories further down.
pub open spec fn place_children(
    node: Node,
    path: Seq<char>,
    prefixes: Seq<String>,
    torrents: Seq<Torrent>,
) -> Seq<ChildView> {
    if node == Node::Data {
        torrent_children(torrents) + prefix_children(path, prefixes)
    } else {
        prefix_children(path, prefixes) + torrent_children(torrents)
    }
}

/// Whether a directory of that name is among children.
pub open spec fn has_dir(children: Seq<ChildView>, name: Seq<char>) -> bool {
    exists|i: int|
        0 <= i < children.len() && (#[trigger] children[i]).kind == FileKind::Directory
            && children[i].name == name
}

/// What one file adds to the listing of a directory of a torrent that is being
/// added: itself, or the directory on the way to it if that is not there yet.
pub open spec fn with_listed(
    children: Seq<ChildView>,
    file: (Seq<char>, u64),
    source_path: Seq<char>,
    filename: Seq<char>,
    dir_path: Seq<char>,
) -> Seq<ChildView> {
    let prefix = paths::inside(dir_path);
    let rest = file.0.skip(prefix.len() as int);
    if !prefix.is_prefix_of(file.0) || rest.len() == 0 {
        children
    } else {
        match paths::first_slash(rest) {
            Some(at) => {
                let name = rest.take(at);
                if has_dir(children, name) {
                    children
                } else {
                    children.push(shown(pending_dir(source_path, filename, dir_path, name), name))
                }
            },
            None => children.push(
                shown(pending_file(source_path, filename, file.0, rest, file.1), rest),
            ),
        }
    }
}

/// What a directory of a torrent that is being added holds.
pub open spec fn inner_children(
    files: Seq<(Seq<char>, u64)>,
    source_path: Seq<char>,
    filename: Seq<char>,
    dir_path: Seq<char>,
) -> Seq<ChildView>
    decreases files.len(),
{
    if files.len() == 0 {
        Seq::empty()
    } else {
        with_listed(
            inner_children(files.drop_last(), source_path, filename, dir_path),
            files.last(),
            source_path,
            filename,
            dir_path,
        )
    }
}

/// The node above a directory on the way to torrents, and above the torrents in
/// it: the directory that its path names but for the last part.
pub open spec fn above(path: Seq<char>) -> Node {
    match paths::parent(path) {
        Some(dir) => Node::SourcePath(dir),
        None => Node::Data,
    }
}

/// The node above a directory of a torrent that is being added.
pub open spec fn above_pending(
    source_path: Seq<char>,
    filename: Seq<char>,
    dir_path: Seq<char>,
) -> Node {
    match paths::parent(dir_path) {
        Some(dir) => Node::PendingDir(source_path, filename, dir),
        None => Node::PendingTorrent(source_path, filename),
    }
}

/// What a listing says: the node above, the children, and, where torrents of a
/// directory are listed from the database, that directory and the names.
pub struct ListingView {
    pub above: Node,
    pub children: Seq<ChildView>,
    pub landed: Option<(Seq<char>, Seq<Seq<char>>)>,
}

/// The listing of a directory on the way to torrents.
pub open spec fn place_listing(
    node: Node,
    above_it: Node,
    path: Seq<char>,
    rows: DbRows,
    metas: Seq<MetaFile>,
    processing: Seq<(Seq<char>, Seq<char>)>,
) -> Option<ListingView> {
    match (rows.prefixes, rows.torrents) {
        (Some(prefixes), Some(torrents)) => {
            let held = place_children(node, path, prefixes@, torrents@);
            Some(
                ListingView {
                    above: above_it,
                    children: held.push(stats_of(node)) + pending_children(
                        metas,
                        processing,
                        path,
                        names(held),
                    ),
                    landed: Some((path, names(held))),
                },
            )
        },
        _ => None,
    }
}

/// What a torrent of the database, or one of its directories, holds.
pub open spec fn inside_children(rows: DbRows, torrent_id: i64) -> Option<Seq<ChildView>> {
    match (rows.dirs, rows.files) {
        (Some(dirs), Some(files)) => Some(
            dir_children(torrent_id, dirs@) + file_children(torrent_id, files@),
        ),
        _ => None,
    }
}

/// The listing of a node. A torrent that is being added and whose file cannot be
/// read shows nothing.
pub open spec fn listing(
    table: Map<Node, NodeData>,
    rows: DbRows,
    metas: Seq<MetaFile>,
    processing: Seq<(Seq<char>, Seq<char>)>,
    node: Node,
) -> Option<ListingView> {
    if node == Node::Data {
        place_listing(node, Node::Root, Seq::empty(), rows, metas, processing)
    } else if !table.contains_key(node) {
        None
    } else {
        match table[node] {
            NodeData::SourcePathDir { path } => place_listing(
                node,
                above(path),
                path,
                rows,
                metas,
                processing,
            ),
            NodeData::TorrentRoot { torrent_id, source_path, filename, .. } => {
                let children = if torrent_id == 0 {
                    Some(
                        match pending_files(metas, source_path, filename) {
                            Some(files) => inner_children(
                                files,
                                source_path,
                                filename,
                                Seq::empty(),
                            ).push(stats_of(node)),
                            None => Seq::empty(),
                        },
                    )
                } else {
                    match inside_children(rows, torrent_id) {
                        Some(children) => Some(children.push(stats_of(node))),
                        None => None,
                    }
                };
                match children {
                    Some(children) => Some(
                        ListingView { above: above(source_path), children, landed: None },
                    ),
                    None => None,
                }
            },
            NodeData::TorrentDir { torrent_id, dir_path, source_path, filename, .. } => if torrent_id
                == 0 {
                Some(
                    ListingView {
                        above: above_pending(source_path, filename, dir_path),
                        children: match pending_files(metas, source_path, filename) {
                            Some(files) => inner_children(files, source_path, filename, dir_path),
                            None => Seq::empty(),
                        },
                        landed: None,
                    },
                )
            } else {
                match inside_children(rows, torrent_id) {
                    Some(children) => Some(
                        ListingView {
                            above: match rows.parent_dir {
                                Some(id) => Node::TorrentDir(id),
                                None => Node::Torrent(torrent_id),
                            },
                            children,
                            landed: None,
                        },
                    ),
                    None => None,
                }
            },
            NodeData::TorrentFile { .. } => None,
        }
    }
}

/// What becomes known of nodes by their being listed.
pub open spec fn known(children: Seq<ChildView>) -> Seq<(Node, NodeData)>
    decreases children.len(),
{
    if children.len() == 0 {
        Seq::empty()
    } else {
        match children.last().data {
            Some(data) => known(children.drop_last()).push((children.last().target, data)),
            None => known(children.drop_last()),
        }
    }
}

/// The table after a listing: what was still being added and has landed in the
/// database is gone, and what is listed is known.
pub open spec fn table_after(table: Map<Node, NodeData>, l: ListingView) -> Map<Node, NodeData> {
    let kept = match l.landed {
        Some((path, filenames)) => inodes::without_stale(table, path, filenames),
        None => table,
    };
    inodes::with_nodes(kept, known(l.children))
}

/// An entry of a directory, with the offset from which a reader goes on after it.
#[derive(Debug)]
pub struct DirEntry {
    pub target: NodeId,
    pub stats: bool,
    pub offset: u64,
    pub kind: FileKind,
    pub name: String,
}

/// An entry of a directory, as plain values.
pub struct EntryView {
    pub target: Node,
    pub stats: bool,
    pub offset: u64,
    pub kind: FileKind,
    pub name: Seq<char>,
}

impl View for DirEntry {
    type V = EntryView;

    open spec fn view(&self) -> EntryView {
        EntryView {
            target: self.target@,
            stats: self.stats,
            offset: self.offset,
            kind: self.kind,
            name: self.name@,
        }
    }
}

/// Entries as plain values.
pub open spec fn entries_view(v: Seq<DirEntry>) -> Seq<EntryView> {
    Seq::new(v.len(), |i: int| v[i]@)
}

/// All entries of a listing: the node itself, the one above, and the children,
/// with offsets that count from one.
pub open spec fn entries(node: Node, l: ListingView) -> Seq<EntryView> {
    Seq::new(
        l.children.len() + 2,
        |i: int|
            if i == 0 {
                EntryView {
                    target: node,
                    stats: false,
                    offset: 1,
                    kind: FileKind::Directory,
                    name: "."@,
                }
            } else if i == 1 {
                EntryView {
                    target: l.above,
                    stats: false,
                    offset: 2,
                    kind: FileKind::Directory,
                    name: ".."@,
                }
            } else {
                EntryView {
                    target: l.children[i - 2].target,
                    stats: l.children[i - 2].stats,
                    offset: (i + 1) as u64,
                    kind: l.children[i - 2].kind,
                    name: l.children[i - 2].name,
                }
            },
    )
}

/// The entries behind an offset.
pub open spec fn behind(all: Seq<EntryView>, offset: i64) -> Seq<EntryView> {
    if offset <= 0 {
        all
    } else if offset >= all.len() {
        Seq::empty()
    } else {
        all.skip(offset as int)
    }
}

fn show(node: (NodeId, DataInode), name: String) -> (child: Child)
    ensures
        child@ == shown((node.0@, node.1@), name@),
{
    let (kind, _) = node.1.kind_size();
    Child { target: node.0, stats: false, kind, name, data: Some(node.1) }
}

fn show_stats(node: &NodeId) -> (child: Child)
    ensures
        child@ == stats_of(node@),
{
    Child {
        target: node.copy(),
        stats: true,
        kind: FileKind::RegularFile,
        name: ".stats".to_owned(),
        data: None,
    }
}

fn push_prefixes(children: &mut Vec<Child>, path: &str, prefixes: &Vec<String>)
    ensures
        children_view(final(children)@) == children_view(old(children)@) + prefix_children(
            path@,
            prefixes@,
        ),
{
    let ghost before = children_view(children@);
    let ghost all = prefix_children(path@, prefixes@);
    let mut i: usize = 0;
    assert(before + all.take(0) =~= before);
    while i < prefixes.len()
        invariant
            i <= prefixes@.len(),
            all == prefix_children(path@, prefixes@),
            children_view(children@) == before + all.take(i as int),
        decreases prefixes@.len() - i,
    {
        let ghost was = children@;
        let node = make_place_node(paths::child_of(path, prefixes[i].as_str()).as_str());
        children.push(show(node, prefixes[i].clone()));
        assert(children_view(children@) =~= children_view(was).push(all[i as int]));
        assert(children_view(children@) =~= before + all.take(i as int + 1));
        i = i + 1;
    }
    assert(all.take(all.len() as int) =~= all);
}

fn push_torrents(children: &mut Vec<Child>, torrents: &Vec<Torrent>)
    ensures
        children_view(final(children)@) == children_view(old(children)@) + torrent_children(
            torrents@,
        ),
{
    let ghost before = children_view(children@);
    let ghost all = torrent_children(torrents@);
    let mut i: usize = 0;
    assert(before + all.take(0) =~= before);
    while i < torrents.len()
        invariant
            i <= torrents@.len(),
            all == torrent_children(torrents@),
            children_view(children@) == before + all.take(i as int),
        decreases torrents@.len() - i,
    {
        let ghost was = children@;
        let node = make_torrent_node(&torrents[i]);
        children.push(show(node, torrents[i].filename.clone()));
        assert(children_view(children@) =~= children_view(was).push(all[i as int]));
        assert(children_view(children@) =~= before + all.take(i as int + 1));
        i = i + 1;
    }
    assert(all.take(all.len() as int) =~= all);
}

fn list_inside(rows: &DbRows, torrent_id: i64) -> (r: Option<Vec<Child>>)
    ensures
        (match r {
            Some(children) => Some(children_view(children@)),
            None => None,
        }) == inside_children(*rows, torrent_id),
{
    let (dirs, files) = match (&rows.dirs, &rows.files) {
        (Some(dirs), Some(files)) => (dirs, files),
        _ => {
            return None;
        },
    };
    let ghost all = dir_children(torrent_id, dirs@) + file_children(torrent_id, files@);
    let mut children: Vec<Child> = Vec::new();
    let mut i: usize = 0;
    assert(children_view(children@) =~= all.take(0));
    while i < dirs.len()
        invariant
            i <= dirs@.len(),
            all == dir_children(torrent_id, dirs@) + file_children(torrent_id, files@),
            children_view(children@) == all.take(i as int),
        decreases dirs@.len() - i,
    {
        let ghost was = children@;
        let node = make_dir_node(torrent_id, &dirs[i]);
        children.push(show(node, dirs[i].name.clone()));
        assert(children_view(children@) =~= children_view(was).push(all[i as int]));
        assert(children_view(children@) =~= all.take(i as int + 1));
        i = i + 1;
    }
    let mut j: usize = 0;
    while j < files.len()
        invariant
            j <= files@.len(),
            all == dir_children(torrent_id, dirs@) + file_children(torrent_id, files@),
            children_view(children@) == all.take(dirs@.len() + j),
        decreases files@.len() - j,
    {
        let ghost was = children@;
        let node = make_file_node(torrent_id, &files[j]);
        children.push(show(node, files[j].name.clone()));
        assert(children_view(children@) =~= children_view(was).push(all[dirs@.len() + j]));
        assert(children_view(children@) =~= all.take(dirs@.len() + j + 1));
        j = j + 1;
    }
    assert(all.take(all.len() as int) =~= all);
    Some(children)
}

fn holds_dir(children: &Vec<Child>, name: &str) -> (yes: bool)
    ensures
        yes == has_dir(children_view(children@), name@),
{
    let ghost all = children_view(children@);
    let mut i: usize = 0;
    while i < children.len()
        invariant
            i <= children@.len(),
            all == children_view(children@),
            forall|j: int|
                0 <= j < i ==> !((#[trigger] all[j]).kind == FileKind::Directory && all[j].name
                    == name@),
        decreases children@.len() - i,
    {
        if children[i].kind == FileKind::Directory && text::same(children[i].name.as_str(), name) {
            assert(all[i as int].kind == FileKind::Directory && all[i as int].name == name@);
            return true;
        }
        i = i + 1;
    }
    false
}

/// Lists a directory of a torrent that is being added, by the files in the
/// torrent's own file.
fn readdir_pending_torrent(
    metas: &Vec<MetaFile>,
    source_path: &str,
    filename: &str,
    dir_path: &str,
) -> (r: Option<Vec<Child>>)
    ensures
        (match r {
            Some(children) => Some(children_view(children@)),
            None => None,
        }) == (match pending_files(metas@, source_path@, filename@) {
            Some(files) => Some(inner_children(files, source_path@, filename@, dir_path@)),
            None => None,
        }),
{
    let files = match read_pending_files(metas, source_path, filename) {
        Some(files) => files,
        None => {
            return None;
        },
    };
    let ghost listed = torrent_file::files_view(files@);
    let prefix = paths::inside_of(dir_path);
    let mut children: Vec<Child> = Vec::new();
    let mut i: usize = 0;
    assert(children_view(children@) =~= Seq::empty());
    while i < files.len()
        invariant
            i <= files@.len(),
            listed == torrent_file::files_view(files@),
            prefix@ == paths::inside(dir_path@),
            children_view(children@) == inner_children(
                listed.take(i as int),
                source_path@,
                filename@,
                dir_path@,
            ),
        decreases files@.len() - i,
    {
        let ghost was = children_view(children@);
        assert(listed.take(i as int + 1).drop_last() =~= listed.take(i as int));
        assert(listed[i as int] == (files@[i as int].path@, files@[i as int].size));
        let rest = paths::strip_prefix(files[i].path.as_str(), prefix.as_str());
        match rest {
            Some(rest) => {
                if !rest.as_str().is_empty() {
                    match paths::find_slash(rest.as_str()) {
                        Some(at) => {
                            let name: String = rest.as_str().substring_char(0, at).to_owned();
                            assert(name@ =~= rest@.take(at as int));
                            if !holds_dir(&children, name.as_str()) {
                                let node = make_pending_dir(
                                    source_path,
                                    filename,
                                    dir_path,
                                    name.as_str(),
                                );
                                children.push(show(node, name));
                                assert(children_view(children@) =~= was.push(children@.last()@));
                            }
                        },
                        None => {
                            let node = make_pending_file(
                                source_path,
                                filename,
                                files[i].path.as_str(),
                                rest.as_str(),
                                files[i].size,
                            );
                            children.push(show(node, rest));
                            assert(children_view(children@) =~= was.push(children@.last()@));
                        },
                    }
                }
            },
            None => {},
        }
        i = i + 1;
    }
    assert(listed.take(listed.len() as int) =~= listed);
    Some(children)
}

/// Adds the torrents that are being added to a directory, except those whose
/// names it already holds.
fn push_pending(
    children: &mut Vec<Child>,
    metas: &Vec<MetaFile>,
    processing: &Vec<(String, String)>,
    source_path: &str,
    existing: &Vec<String>,
)
    ensures
        children_view(final(children)@) == children_view(old(children)@) + pending_children(
            metas@,
            processing_view(processing@),
            source_path@,
            text::texts(existing@),
        ),
{
    let ghost before = children_view(children@);
    let ghost all = processing_view(processing@);
    let ghost taken = text::texts(existing@);
    let mut i: usize = 0;
    assert(before + Seq::<ChildView>::empty() =~= before);
    while i < processing.len()
        invariant
            i <= processing@.len(),
            all == processing_view(processing@),
            taken == text::texts(existing@),
            children_view(children@) == before + pending_children(
                metas@,
                all.take(i as int),
                source_path@,
                taken,
            ),
        decreases processing@.len() - i,
    {
        let ghost was = children_view(children@);
        let ghost upto = all.take(i as int + 1);
        assert(upto.drop_last() =~= all.take(i as int));
        assert(upto.last() == (processing@[i as int].0@, processing@[i as int].1@));
        if text::same(processing[i].0.as_str(), source_path) && !text::among(
            existing,
            processing[i].1.as_str(),
        ) {
            let node = make_pending_root(metas, source_path, processing[i].1.as_str());
            children.push(show(node, processing[i].1.clone()));
            assert(children_view(children@) =~= was.push(children@.last()@));
            assert(children_view(children@) =~= before + pending_children(
                metas@,
                upto,
                source_path@,
                taken,
            ));
        }
        i = i + 1;
    }
    assert(all.take(all.len() as int) =~= all);
}

fn names_of(children: &Vec<Child>) -> (v: Vec<String>)
    ensures
        text::texts(v@) == names(children_view(children@)),
{
    let ghost all = names(children_view(children@));
    let mut v: Vec<String> = Vec::new();
    let mut i: usize = 0;
    assert(text::texts(v@) =~= all.take(0));
    while i < children.len()
        invariant
            i <= children@.len(),
            all == names(children_view(children@)),
            text::texts(v@) == all.take(i as int),
        decreases children@.len() - i,
    {
        let ghost was = v@;
        v.push(children[i].name.clone());
        assert(text::texts(v@) =~= text::texts(was).push(all[i as int]));
        assert(text::texts(v@) =~= all.take(i as int + 1));
        i = i + 1;
    }
    assert(all.take(all.len() as int) =~= all);
    v
}

/// A listing in the making.
struct Listing {
    above: NodeId,
    children: Vec<Child>,
    landed: Option<(String, Vec<String>)>,
}

impl View for Listing {
    type V = ListingView;

    closed spec fn view(&self) -> ListingView {
        ListingView {
            above: self.above@,
            children: children_view(self.children@),
            landed: match self.landed {
                Some((path, filenames)) => Some((path@, text::texts(filenames@))),
                None => None,
            },
        }
    }
}

spec fn opt_listing(l: Option<Listing>) -> Option<ListingView> {
    match l {
        Some(l) => Some(l@),
        None => None,
    }
}

fn list_place(
    node: &NodeId,
    above_it: NodeId,
    path: &str,
    rows: &DbRows,
    metas: &Vec<MetaFile>,
    processing: &Vec<(String, String)>,
) -> (l: Option<Listing>)
    ensures
        opt_listing(l) == place_listing(
            node@,
            above_it@,
            path@,
            *rows,
            metas@,
            processing_view(processing@),
        ),
{
    let (prefixes, torrents) = match (&rows.prefixes, &rows.torrents) {
        (Some(prefixes), Some(torrents)) => (prefixes, torrents),
        _ => {
            return None;
        },
    };
    let mut children: Vec<Child> = Vec::new();
    if node.same(&NodeId::Data) {
        push_torrents(&mut children, torrents);
        push_prefixes(&mut children, path, prefixes);
    } else {
        push_prefixes(&mut children, path, prefixes);
        push_torrents(&mut children, torrents);
    }
    let ghost held = place_children(node@, path@, prefixes@, torrents@);
    assert(children_view(children@) =~= held);
    let existing = names_of(&children);
    children.push(show_stats(node));
    assert(children_view(children@) =~= held.push(stats_of(node@)));
    push_pending(&mut children, metas, processing, path, &existing);
    Some(Listing { above: above_it, children, landed: Some((path.to_owned(), existing)) })
}

fn node_above(path: &str) -> (node: NodeId)
    ensures
        node@ == above(path@),
{
    match paths::parent_of(path) {
        Some(dir) => NodeId::SourcePath { path: dir },
        None => NodeId::Data,
    }
}

fn list_torrent_root(
    node: &NodeId,
    torrent_id: i64,
    source_path: &str,
    filename: &str,
    rows: &DbRows,
    metas: &Vec<MetaFile>,
) -> (r: Option<Vec<Child>>)
    ensures
        (match r {
            Some(children) => Some(children_view(children@)),
            None => None,
        }) == (if torrent_id == 0 {
            Some(
                match pending_files(metas@, source_path@, filename@) {
                    Some(files) => inner_children(
                        files,
                        source_path@,
                        filename@,
                        Seq::empty(),
                    ).push(stats_of(node@)),
                    None => Seq::empty(),
                },
            )
        } else {
            match inside_children(*rows, torrent_id) {
                Some(children) => Some(children.push(stats_of(node@))),
                None => None,
            }
        }),
{
    let listed = if torrent_id == 0 {
        readdir_pending_torrent(metas, source_path, filename, nothing().as_str())
    } else {
        list_inside(rows, torrent_id)
    };
    match listed {
        Some(mut children) => {
            let ghost was = children_view(children@);
            children.push(show_stats(node));
            assert(children_view(children@) =~= was.push(stats_of(node@)));
            Some(children)
        },
        None => if torrent_id == 0 {
            let children: Vec<Child> = Vec::new();
            assert(children_view(children@) =~= Seq::empty());
            Some(children)
        } else {
            None
        },
    }
}

fn list_torrent_dir(
    torrent_id: i64,
    dir_path: &str,
    source_path: &str,
    filename: &str,
    rows: &DbRows,
    metas: &Vec<MetaFile>,
) -> (l: Option<Listing>)
    ensures
        opt_listing(l) == (if torrent_id == 0 {
            Some(
                ListingView {
                    above: above_pending(source_path@, filename@, dir_path@),
                    children: match pending_files(metas@, source_path@, filename@) {
                        Some(files) => inner_children(files, source_path@, filename@, dir_path@),
                        None => Seq::empty(),
                    },
                    landed: None,
                },
            )
        } else {
            match inside_children(*rows, torrent_id) {
                Some(children) => Some(
                    ListingView {
                        above: match rows.parent_dir {
                            Some(id) => Node::TorrentDir(id),
                            None => Node::Torrent(torrent_id),
                        },
                        children,
                        landed: None,
                    },
                ),
                None => None,
            }
        }),
{
    if torrent_id == 0 {
        let above_it = match paths::parent_of(dir_path) {
            Some(dir) => NodeId::PendingDir {
                source_path: source_path.to_owned(),
                filename: filename.to_owned(),
                path: dir,
            },
            None => NodeId::PendingTorrent {
                source_path: source_path.to_owned(),
                filename: filename.to_owned(),
            },
        };
        let children = match readdir_pending_torrent(metas, source_path, filename, dir_path) {
            Some(children) => children,
            None => {
                let children: Vec<Child> = Vec::new();
                assert(children_view(children@) =~= Seq::empty());
                children
            },
        };
        Some(Listing { above: above_it, children, landed: None })
    } else {
        let above_it = match rows.parent_dir {
            Some(id) => NodeId::TorrentDir { id },
            None => NodeId::Torrent { id: torrent_id },
        };
        match list_inside(rows, torrent_id) {
            Some(children) => Some(Listing { above: above_it, children, landed: None }),
            None => None,
        }
    }
}

fn list_node(
    table: &DataInodes,
    rows: &DbRows,
    metas: &Vec<MetaFile>,
    processing: &Vec<(String, String)>,
    id: &NodeId,
) -> (l: Option<Listing>)
    ensures
        opt_listing(l) == listing(table@, *rows, metas@, processing_view(processing@), id@),
{
    if id.same(&NodeId::Data) {
        return list_place(id, NodeId::Root, nothing().as_str(), rows, metas, processing);
    }
    match table.get(id) {
        Some(DataInode::SourcePathDir { path }) => list_place(
            id,
            node_above(path.as_str()),
            path.as_str(),
            rows,
            metas,
            processing,
        ),
        Some(DataInode::TorrentRoot { torrent_id, source_path, filename, .. }) => {
            match list_torrent_root(
                id,
                *torrent_id,
                source_path.as_str(),
                filename.as_str(),
                rows,
                metas,
            ) {
                Some(children) => Some(
                    Listing { above: node_above(source_path.as_str()), children, landed: None },
                ),
                None => None,
            }
        },
        Some(
            DataInode::TorrentDir {
                torrent_id,
                dir_path,
                torrent_source_path,
                torrent_filename,
                ..
            },
        ) => list_torrent_dir(
            *torrent_id,
            dir_path.as_str(),
            torrent_source_path.as_str(),
            torrent_filename.as_str(),
            rows,
            metas,
        ),
        _ => None,
    }
}

fn known_of(children: &Vec<Child>) -> (v: Vec<(NodeId, DataInode)>)
    ensures
        inodes::pairs(v@) == known(children_view(children@)),
{
    let ghost all = children_view(children@);
    let mut v: Vec<(NodeId, DataInode)> = Vec::new();
    let mut i: usize = 0;
    assert(inodes::pairs(v@) =~= known(all.take(0)));
    while i < children.len()
        invariant
            i <= children@.len(),
            all == children_view(children@),
            inodes::pairs(v@) == known(all.take(i as int)),
        decreases children@.len() - i,
    {
        let ghost was = inodes::pairs(v@);
        assert(all.take(i as int + 1).drop_last() =~= all.take(i as int));
        assert(all.take(i as int + 1).last() == children@[i as int]@);
        match &children[i].data {
            Some(data) => {
                v.push((children[i].target.copy(), data.copy()));
                assert(inodes::pairs(v@) =~= was.push((children@[i as int].target@, data@)));
            },
            None => {},
        }
        i = i + 1;
    }
    assert(all.take(all.len() as int) =~= all);
    v
}

fn entries_from(node: &NodeId, l: Listing, offset: i64) -> (v: Vec<DirEntry>)
    ensures
        entries_view(v@) == behind(entries(node@, l@), offset),
{
    let ghost all = entries(node@, l@);
    let mut shown: Vec<Child> = Vec::new();
    shown.push(
        Child {
            target: node.copy(),
            stats: false,
            kind: FileKind::Directory,
            name: ".".to_owned(),
            data: None,
        },
    );
    shown.push(
        Child {
            target: l.above.copy(),
            stats: false,
            kind: FileKind::Directory,
            name: "..".to_owned(),
            data: None,
        },
    );
    let mut rest = l.children;
    shown.append(&mut rest);
    let start: usize = if offset <= 0 {
        0
    } else if offset as u64 >= shown.len() as u64 {
        shown.len()
    } else {
        offset as usize
    };
    let mut v: Vec<DirEntry> = Vec::new();
    let mut i: usize = start;
    assert(entries_view(v@) =~= all.subrange(start as int, start as int));
    while i < shown.len()
        invariant
            start <= i <= shown@.len(),
            shown@.len() == all.len(),
            all == entries(node@, l@),
            shown@[0]@.target == node@ && !shown@[0]@.stats && shown@[0]@.kind
                == FileKind::Directory && shown@[0]@.name == "."@,
            shown@[1]@.target == l.above@ && !shown@[1]@.stats && shown@[1]@.kind
                == FileKind::Directory && shown@[1]@.name == ".."@,
            forall|j: int|
                2 <= j < shown@.len() ==> (#[trigger] shown@[j])@ == l@.children[j - 2],
            entries_view(v@) == all.subrange(start as int, i as int),
        decreases shown@.len() - i,
    {
        let ghost was = entries_view(v@);
        v.push(
            DirEntry {
                target: shown[i].target.copy(),
                stats: shown[i].stats,
                offset: i as u64 + 1,
                kind: shown[i].kind,
                name: shown[i].name.clone(),
            },
        );
        assert(v@.last()@ == all[i as int]);
        assert(entries_view(v@) =~= was.push(all[i as int]));
        assert(entries_view(v@) =~= all.subrange(start as int, i as int + 1));
        i = i + 1;
    }
    assert(entries_view(v@) =~= behind(all, offset));
    v
}

impl DataResolver {
    /// The database, or the error that stands for its absence.
    pub fn get_db<T>(db: &Option<T>) -> (r: Result<&T, FsError>)
        ensures
            match (db, r) {
                (Some(d), Ok(found)) => *found == *d,
                (None, Err(FsError::Internal(message))) => message@ == "database not available"@,
                _ => false,
            },
    {
        match db {
            Some(d) => Ok(d),
            None => Err(FsError::Internal("database not available".to_owned())),
        }
    }

    /// Lists a node from an offset on, and enters what is listed into the table.
    pub fn readdir_data(
        table: &mut DataInodes,
        rows: &DbRows,
        metas: &Vec<MetaFile>,
        processing: &Vec<(String, String)>,
        id: &NodeId,
        offset: i64,
    ) -> (r: Option<Vec<DirEntry>>)
        ensures
            match listing(old(table)@, *rows, metas@, processing_view(processing@), id@) {
                Some(l) => (match r {
                    Some(v) => entries_view(v@) == behind(entries(id@, l), offset),
                    None => false,
                }) && final(table)@ == table_after(old(table)@, l),
                None => r is None && final(table)@ == old(table)@,
            },
            inodes::sound(old(table)@) ==> inodes::sound(final(table)@),
    {
        proof {
            let all = processing_view(processing@);
            if inodes::sound(table@) && listing(table@, *rows, metas@, all, id@) is Some {
                listing_laws::law_listing_changes_no_listing(
                    table@,
                    *rows,
                    metas@,
                    all,
                    id@,
                    Seq::empty(),
                );
            }
        }
        match list_node(table, rows, metas, processing, id) {
            Some(l) => {
                match &l.landed {
                    Some((path, filenames)) => {
                        table.evict_stale_pending(path.as_str(), filenames);
                    },
                    None => {},
                }
                table.insert_all(known_of(&l.children));
                Some(entries_from(id, l, offset))
            },
            None => None,
        }
    }
}

} // verus!
