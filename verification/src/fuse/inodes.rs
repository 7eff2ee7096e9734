//! The nodes of the `data/` tree.
use vstd::prelude::*;

use crate::text;

verus! {

/// Kind of a directory entry.
#[derive(Debug, Clone, Copy, PartialEq, Eq, Structural)]
pub enum FileKind {
    Directory,
    RegularFile,
}

// ── Identities ──────────────────────────────────────────────────────────────

/// Which node of the tree is meant. What a torrent that is still being added
/// holds is known by its paths; everything else there is by a number of the
/// database.
#[derive(Debug)]
pub enum NodeId {
    /// The mount point.
    Root,
    /// `data/`.
    Data,
    /// A directory on the way to torrents.
    SourcePath { path: String },
    Torrent { id: i64 },
    TorrentDir { id: i64 },
    TorrentFile { id: i64 },
    PendingTorrent { source_path: String, filename: String },
    PendingDir { source_path: String, filename: String, path: String },
    PendingFile { source_path: String, filename: String, path: String },
}

/// Which node of the tree is meant, as plain values.
pub enum Node {
    Root,
    Data,
    SourcePath(Seq<char>),
    Torrent(i64),
    TorrentDir(i64),
    TorrentFile(i64),
    PendingTorrent(Seq<char>, Seq<char>),
    PendingDir(Seq<char>, Seq<char>, Seq<char>),
    PendingFile(Seq<char>, Seq<char>, Seq<char>),
}

impl View for NodeId {
    type V = Node;

    open spec fn view(&self) -> Node {
        match self {
            NodeId::Root => Node::Root,
            NodeId::Data => Node::Data,
            NodeId::SourcePath { path } => Node::SourcePath(path@),
            NodeId::Torrent { id } => Node::Torrent(*id),
            NodeId::TorrentDir { id } => Node::TorrentDir(*id),
            NodeId::TorrentFile { id } => Node::TorrentFile(*id),
            NodeId::PendingTorrent { source_path, filename } => Node::PendingTorrent(
                source_path@,
                filename@,
            ),
            NodeId::PendingDir { source_path, filename, path } => Node::PendingDir(
                source_path@,
                filename@,
                path@,
            ),
            NodeId::PendingFile { source_path, filename, path } => Node::PendingFile(
                source_path@,
                filename@,
                path@,
            ),
        }
    }
}

impl NodeId {
    /// Whether two identities mean the same node.
    pub fn same(&self, other: &NodeId) -> (yes: bool)
        ensures
            yes == (self@ == other@),
    {
        match (self, other) {
            (NodeId::Root, NodeId::Root) => true,
            (NodeId::Data, NodeId::Data) => true,
            (NodeId::SourcePath { path: a }, NodeId::SourcePath { path: b }) => text::same(
                a.as_str(),
                b.as_str(),
            ),
            (NodeId::Torrent { id: a }, NodeId::Torrent { id: b }) => *a == *b,
            (NodeId::TorrentDir { id: a }, NodeId::TorrentDir { id: b }) => *a == *b,
            (NodeId::TorrentFile { id: a }, NodeId::TorrentFile { id: b }) => *a == *b,
            (
                NodeId::PendingTorrent { source_path: a, filename: b },
                NodeId::PendingTorrent { source_path: c, filename: d },
            ) => text::same(a.as_str(), c.as_str()) && text::same(b.as_str(), d.as_str()),
            (
                NodeId::PendingDir { source_path: a, filename: b, path: p },
                NodeId::PendingDir { source_path: c, filename: d, path: q },
            ) => text::same(a.as_str(), c.as_str()) && text::same(b.as_str(), d.as_str())
                && text::same(p.as_str(), q.as_str()),
            (
                NodeId::PendingFile { source_path: a, filename: b, path: p },
                NodeId::PendingFile { source_path: c, filename: d, path: q },
            ) => text::same(a.as_str(), c.as_str()) && text::same(b.as_str(), d.as_str())
                && text::same(p.as_str(), q.as_str()),
            _ => false,
        }
    }

    /// Another identity of the same node.
    pub fn copy(&self) -> (id: NodeId)
        ensures
            id@ == self@,
    {
        match self {
            NodeId::Root => NodeId::Root,
            NodeId::Data => NodeId::Data,
            NodeId::SourcePath { path } => NodeId::SourcePath { path: path.clone() },
            NodeId::Torrent { id } => NodeId::Torrent { id: *id },
            NodeId::TorrentDir { id } => NodeId::TorrentDir { id: *id },
            NodeId::TorrentFile { id } => NodeId::TorrentFile { id: *id },
            NodeId::PendingTorrent { source_path, filename } => NodeId::PendingTorrent {
                source_path: source_path.clone(),
                filename: filename.clone(),
            },
            NodeId::PendingDir { source_path, filename, path } => NodeId::PendingDir {
                source_path: source_path.clone(),
                filename: filename.clone(),
                path: path.clone(),
            },
            NodeId::PendingFile { source_path, filename, path } => NodeId::PendingFile {
                source_path: source_path.clone(),
                filename: filename.clone(),
                path: path.clone(),
            },
        }
    }
}

// ── What is known of a node ─────────────────────────────────────────────────

/// What is known of a node. A torrent number of zero marks a torrent that is
/// still being added and that the database does not have yet.
#[derive(Debug)]
pub enum DataInode {
    SourcePathDir { path: String },
    TorrentRoot { torrent_id: i64, source_path: String, name: String, filename: String },
    TorrentDir {
        torrent_id: i64,
        dir_id: i64,
        name: String,
        dir_path: String,
        torrent_source_path: String,
        torrent_filename: String,
    },
    TorrentFile {
        torrent_id: i64,
        file_id: i64,
        name: String,
        size: i64,
        torrent_source_path: String,
        torrent_filename: String,
    },
}

/// What is known of a node, as plain values.
pub enum NodeData {
    SourcePathDir { path: Seq<char> },
    TorrentRoot { torrent_id: i64, source_path: Seq<char>, name: Seq<char>, filename: Seq<char> },
    TorrentDir {
        torrent_id: i64,
        dir_id: i64,
        name: Seq<char>,
        dir_path: Seq<char>,
        source_path: Seq<char>,
        filename: Seq<char>,
    },
    TorrentFile {
        torrent_id: i64,
        file_id: i64,
        name: Seq<char>,
        size: i64,
        source_path: Seq<char>,
        filename: Seq<char>,
    },
}

impl View for DataInode {
    type V = NodeData;

    open spec fn view(&self) -> NodeData {
        match self {
            DataInode::SourcePathDir { path } => NodeData::SourcePathDir { path: path@ },
            DataInode::TorrentRoot { torrent_id, source_path, name, filename } =>
                NodeData::TorrentRoot {
                torrent_id: *torrent_id,
                source_path: source_path@,
                name: name@,
                filename: filename@,
            },
            DataInode::TorrentDir {
                torrent_id,
                dir_id,
                name,
                dir_path,
                torrent_source_path,
                torrent_filename,
            } => NodeData::TorrentDir {
                torrent_id: *torrent_id,
                dir_id: *dir_id,
                name: name@,
                dir_path: dir_path@,
                source_path: torrent_source_path@,
                filename: torrent_filename@,
            },
            DataInode::TorrentFile {
                torrent_id,
                file_id,
                name,
                size,
                torrent_source_path,
                torrent_filename,
            } => NodeData::TorrentFile {
                torrent_id: *torrent_id,
                file_id: *file_id,
                name: name@,
                size: *size,
                source_path: torrent_source_path@,
                filename: torrent_filename@,
            },
        }
    }
}

impl NodeData {
    /// Whether the node belongs to a torrent that is still being added from this
    /// directory, under a name that is listed.
    pub open spec fn is_pending_in(self, source_path: Seq<char>, filenames: Seq<Seq<char>>) -> bool {
        match self {
            NodeData::TorrentRoot { torrent_id, source_path: sp, filename, .. } => torrent_id == 0
                && sp == source_path && filenames.contains(filename),
            NodeData::TorrentDir { torrent_id, source_path: sp, filename, .. } => torrent_id == 0
                && sp == source_path && filenames.contains(filename),
            NodeData::TorrentFile { torrent_id, source_path: sp, filename, .. } => torrent_id == 0
                && sp == source_path && filenames.contains(filename),
            NodeData::SourcePathDir { .. } => false,
        }
    }

    /// Kind and size of a node. A size is stored as a signed number.
    pub open spec fn kind_size(self) -> (FileKind, u64) {
        match self {
            NodeData::TorrentFile { size, .. } => (FileKind::RegularFile, size as u64),
            _ => (FileKind::Directory, 0),
        }
    }
}

impl DataInode {
    /// Another copy of what is known.
    pub fn copy(&self) -> (node: DataInode)
        ensures
            node@ == self@,
    {
        match self {
            DataInode::SourcePathDir { path } => DataInode::SourcePathDir { path: path.clone() },
            DataInode::TorrentRoot { torrent_id, source_path, name, filename } =>
                DataInode::TorrentRoot {
                torrent_id: *torrent_id,
                source_path: source_path.clone(),
                name: name.clone(),
                filename: filename.clone(),
            },
            DataInode::TorrentDir {
                torrent_id,
                dir_id,
                name,
                dir_path,
                torrent_source_path,
                torrent_filename,
            } => DataInode::TorrentDir {
                torrent_id: *torrent_id,
                dir_id: *dir_id,
                name: name.clone(),
                dir_path: dir_path.clone(),
                torrent_source_path: torrent_source_path.clone(),
                torrent_filename: torrent_filename.clone(),
            },
            DataInode::TorrentFile {
                torrent_id,
                file_id,
                name,
                size,
                torrent_source_path,
                torrent_filename,
            } => DataInode::TorrentFile {
                torrent_id: *torrent_id,
                file_id: *file_id,
                name: name.clone(),
                size: *size,
                torrent_source_path: torrent_source_path.clone(),
                torrent_filename: torrent_filename.clone(),
            },
        }
    }

    fn is_pending_in(&self, source_path: &str, filenames: &Vec<String>) -> (yes: bool)
        ensures
            yes == self@.is_pending_in(source_path@, text::texts(filenames@)),
    {
        match self {
            DataInode::SourcePathDir { .. } => false,
            DataInode::TorrentRoot { torrent_id, source_path: sp, filename, .. } => *torrent_id == 0
                && text::same(sp.as_str(), source_path) && text::among(filenames, filename.as_str()),
            DataInode::TorrentDir { torrent_id, torrent_source_path, torrent_filename, .. } =>
            *torrent_id == 0 && text::same(torrent_source_path.as_str(), source_path) && text::among(
                filenames,
                torrent_filename.as_str(),
            ),
            DataInode::TorrentFile { torrent_id, torrent_source_path, torrent_filename, .. } =>
            *torrent_id == 0 && text::same(torrent_source_path.as_str(), source_path) && text::among(
                filenames,
                torrent_filename.as_str(),
            ),
        }
    }

    /// Kind and size of a node.
    pub fn kind_size(&self) -> (r: (FileKind, u64))
        ensures
            r == self@.kind_size(),
    {
        match self {
            DataInode::TorrentFile { size, .. } => (FileKind::RegularFile, *size as u64),
            _ => (FileKind::Directory, 0),
        }
    }
}

// ── The table ───────────────────────────────────────────────────────────────

/// The nodes that have been shown so far.
pub struct DataInodes {
    nodes: Vec<(NodeId, DataInode)>,
}

/// What the table says of each node; what was entered later counts.
pub open spec fn table_of(nodes: Seq<(NodeId, DataInode)>) -> Map<Node, NodeData>
    decreases nodes.len(),
{
    if nodes.len() == 0 {
        Map::empty()
    } else {
        table_of(nodes.drop_last()).insert(nodes.last().0@, nodes.last().1@)
    }
}

/// No node is in the table twice.
pub open spec fn distinct(nodes: Seq<(NodeId, DataInode)>) -> bool {
    forall|i: int, j: int|
        0 <= i < j < nodes.len() ==> (#[trigger] nodes[i]).0@ != (#[trigger] nodes[j]).0@
}

/// Whether what is known of a node is about that node.
pub open spec fn belongs(node: Node, data: NodeData) -> bool {
    match (node, data) {
        (Node::SourcePath(p), NodeData::SourcePathDir { path }) => path == p,
        (Node::Torrent(id), NodeData::TorrentRoot { torrent_id, .. }) => torrent_id == id,
        (
            Node::PendingTorrent(sp, f),
            NodeData::TorrentRoot { torrent_id, source_path, filename, .. },
        ) => torrent_id == 0 && source_path == sp && filename == f,
        (Node::TorrentDir(id), NodeData::TorrentDir { dir_id, dir_path, source_path, filename, .. })
            => dir_id == id && dir_path == Seq::<char>::empty() && source_path
            == Seq::<char>::empty() && filename == Seq::<char>::empty(),
        (
            Node::PendingDir(sp, f, path),
            NodeData::TorrentDir { torrent_id, dir_path, source_path, filename, .. },
        ) => torrent_id == 0 && dir_path == path && source_path == sp && filename == f,
        (Node::TorrentFile(id), NodeData::TorrentFile { file_id, .. }) => file_id == id,
        (
            Node::PendingFile(sp, f, _),
            NodeData::TorrentFile { torrent_id, source_path, filename, .. },
        ) => torrent_id == 0 && source_path == sp && filename == f,
        _ => false,
    }
}

/// Whether a table holds of every node what is about that node.
pub open spec fn sound(table: Map<Node, NodeData>) -> bool {
    forall|n: Node| #[trigger] table.contains_key(n) ==> belongs(n, table[n])
}

/// A table after more nodes have been entered, in order.
pub open spec fn with_nodes(table: Map<Node, NodeData>, more: Seq<(Node, NodeData)>) -> Map<
    Node,
    NodeData,
>
    decreases more.len(),
{
    if more.len() == 0 {
        table
    } else {
        with_nodes(table, more.drop_last()).insert(more.last().0, more.last().1)
    }
}

/// A table without the nodes of torrents that were still being added from a
/// directory and that it now lists under their names.
pub open spec fn without_stale(
    table: Map<Node, NodeData>,
    source_path: Seq<char>,
    filenames: Seq<Seq<char>>,
) -> Map<Node, NodeData> {
    table.restrict(
        Set::new(
            |n: Node| table.contains_key(n) && !table[n].is_pending_in(source_path, filenames),
        ),
    )
}

proof fn lemma_table(nodes: Seq<(NodeId, DataInode)>)
    requires
        distinct(nodes),
    ensures
        forall|i: int|
            0 <= i < nodes.len() ==> table_of(nodes).contains_key((#[trigger] nodes[i]).0@)
                && table_of(nodes)[nodes[i].0@] == nodes[i].1@,
        forall|n: Node| #[trigger]
            table_of(nodes).contains_key(n) ==> exists|i: int|
                0 <= i < nodes.len() && (#[trigger] nodes[i]).0@ == n,
    decreases nodes.len(),
{
    if nodes.len() > 0 {
        let init = nodes.drop_last();
        assert(forall|i: int| 0 <= i < init.len() ==> init[i] == nodes[i]);
        lemma_table(init);
        assert forall|n: Node| #[trigger] table_of(nodes).contains_key(n) implies exists|i: int|
            0 <= i < nodes.len() && (#[trigger] nodes[i]).0@ == n by {
            if n == nodes.last().0@ {
                assert(nodes[nodes.len() - 1].0@ == n);
            } else {
                assert(table_of(init).contains_key(n));
                let i = choose|i: int| 0 <= i < init.len() && (#[trigger] init[i]).0@ == n;
                assert(nodes[i].0@ == n);
            }
        }
    }
}

proof fn lemma_table_update(nodes: Seq<(NodeId, DataInode)>, i: int, id: NodeId, data: DataInode)
    requires
        distinct(nodes),
        0 <= i < nodes.len(),
        nodes[i].0@ == id@,
    ensures
        distinct(nodes.update(i, (id, data))),
        table_of(nodes.update(i, (id, data))) == table_of(nodes).insert(id@, data@),
{
    let after = nodes.update(i, (id, data));
    assert forall|a: int, b: int| 0 <= a < b < after.len() implies (#[trigger] after[a]).0@ != (
    #[trigger] after[b]).0@ by {
        assert(nodes[a].0@ != nodes[b].0@);
    }
    lemma_table(nodes);
    lemma_table(after);
    assert forall|n: Node| #[trigger]
        table_of(after).contains_key(n) == table_of(nodes).insert(id@, data@).contains_key(n) by {
        if table_of(after).contains_key(n) {
            let j = choose|j: int| 0 <= j < after.len() && (#[trigger] after[j]).0@ == n;
            assert(nodes[j].0@ == n);
        }
        if table_of(nodes).contains_key(n) {
            let j = choose|j: int| 0 <= j < nodes.len() && (#[trigger] nodes[j]).0@ == n;
            assert(after[j].0@ == n);
        }
        assert(after[i].0@ == id@);
    }
    assert forall|n: Node| #[trigger] table_of(after).contains_key(n) implies table_of(after)[n]
        == table_of(nodes).insert(id@, data@)[n] by {
        let j = choose|j: int| 0 <= j < after.len() && (#[trigger] after[j]).0@ == n;
        assert(nodes[j].0@ == n);
        assert(table_of(after)[after[j].0@] == after[j].1@);
        assert(table_of(nodes)[nodes[j].0@] == nodes[j].1@);
        if j != i {
            if j < i {
                assert(nodes[j].0@ != nodes[i].0@);
            } else {
                assert(nodes[i].0@ != nodes[j].0@);
            }
        }
    }
    assert(table_of(after) =~= table_of(nodes).insert(id@, data@));
}

impl View for DataInodes {
    type V = Map<Node, NodeData>;

    closed spec fn view(&self) -> Map<Node, NodeData> {
        table_of(self.nodes@)
    }
}

impl DataInodes {
    #[verifier::type_invariant]
    spec fn inv(self) -> bool {
        distinct(self.nodes@)
    }

    /// An empty table.
    pub fn new() -> (table: DataInodes)
        ensures
            table@ == Map::<Node, NodeData>::empty(),
            sound(table@),
    {
        DataInodes { nodes: Vec::new() }
    }

    fn find(&self, id: &NodeId) -> (at: Option<usize>)
        ensures
            match at {
                Some(i) => i < self.nodes@.len() && self.nodes@[i as int].0@ == id@,
                None => forall|i: int|
                    0 <= i < self.nodes@.len() ==> (#[trigger] self.nodes@[i]).0@ != id@,
            },
    {
        let mut i: usize = 0;
        while i < self.nodes.len()
            invariant
                i <= self.nodes@.len(),
                forall|j: int| 0 <= j < i ==> (#[trigger] self.nodes@[j]).0@ != id@,
            decreases self.nodes@.len() - i,
        {
            if self.nodes[i].0.same(id) {
                return Some(i);
            }
            i = i + 1;
        }
        None
    }

    /// What the table says of a node.
    pub fn get(&self, id: &NodeId) -> (data: Option<&DataInode>)
        ensures
            match data {
                Some(d) => self@.contains_key(id@) && self@[id@] == d@,
                None => !self@.contains_key(id@),
            },
    {
        proof {
            use_type_invariant(self);
            lemma_table(self.nodes@);
        }
        match self.find(id) {
            Some(i) => Some(&self.nodes[i].1),
            None => None,
        }
    }

    /// Whether a node is in the table.
    pub fn contains_key(&self, id: &NodeId) -> (yes: bool)
        ensures
            yes == self@.contains_key(id@),
    {
        self.get(id).is_some()
    }

    /// Enters a node.
    pub fn insert(&mut self, id: NodeId, data: DataInode)
        ensures
            final(self)@ == old(self)@.insert(id@, data@),
    {
        proof {
            use_type_invariant(&*self);
        }
        let ghost before = self.nodes@;
        let at = self.find(&id);
        let mut nodes: Vec<(NodeId, DataInode)> = Vec::new();
        std::mem::swap(&mut nodes, &mut self.nodes);
        match at {
            Some(i) => {
                proof {
                    lemma_table_update(before, i as int, id, data);
                }
                nodes.set(i, (id, data));
            },
            None => {
                nodes.push((id, data));
                assert(nodes@.drop_last() =~= before);
            },
        }
        self.nodes = nodes;
    }

    /// Enters nodes in order.
    pub fn insert_all(&mut self, more: Vec<(NodeId, DataInode)>)
        ensures
            final(self)@ == with_nodes(old(self)@, pairs(more@)),
    {
        let ghost before = self@;
        let ghost all = pairs(more@);
        let mut i: usize = 0;
        while i < more.len()
            invariant
                i <= more@.len(),
                all == pairs(more@),
                self@ == with_nodes(before, all.take(i as int)),
            decreases more@.len() - i,
        {
            self.insert(more[i].0.copy(), more[i].1.copy());
            assert(all.take(i as int + 1).drop_last() =~= all.take(i as int));
            i = i + 1;
        }
        assert(all.take(all.len() as int) =~= all);
    }

    /// Drops the nodes of torrents that were still being added from a directory
    /// and that it now lists under their names.
    pub fn evict_stale_pending(&mut self, source_path: &str, filenames: &Vec<String>)
        ensures
            final(self)@ == without_stale(old(self)@, source_path@, text::texts(filenames@)),
    {
        proof {
            use_type_invariant(&*self);
        }
        let ghost before = self.nodes@;
        let ghost names = text::texts(filenames@);
        let mut kept: Vec<(NodeId, DataInode)> = Vec::new();
        let mut i: usize = 0;
        while i < self.nodes.len()
            invariant
                i <= self.nodes@.len(),
                self.nodes@ == before,
                names == text::texts(filenames@),
                distinct(before),
                distinct(kept@),
                forall|k: int|
                    0 <= k < kept@.len() ==> (exists|j: int|
                        0 <= j < i && (#[trigger] before[j]).0@ == kept@[k].0@ && before[j].1@
                            == kept@[k].1@) && !(#[trigger] kept@[k]).1@.is_pending_in(
                        source_path@,
                        names,
                    ),
                forall|j: int|
                    0 <= j < i && !(#[trigger] before[j]).1@.is_pending_in(source_path@, names)
                        ==> exists|k: int|
                        0 <= k < kept@.len() && (#[trigger] kept@[k]).0@ == before[j].0@,
            decreases self.nodes@.len() - i,
        {
            let ghost was = kept@;
            if !self.nodes[i].1.is_pending_in(source_path, filenames) {
                kept.push((self.nodes[i].0.copy(), self.nodes[i].1.copy()));
                proof {
                    assert(kept@.last().0@ == before[i as int].0@);
                    assert forall|a: int, b: int| 0 <= a < b < kept@.len() implies (
                    #[trigger] kept@[a]).0@ != (#[trigger] kept@[b]).0@ by {
                        if b == was.len() {
                            let j = choose|j: int|
                                0 <= j < i && (#[trigger] before[j]).0@ == was[a].0@ && before[j].1@
                                    == was[a].1@;
                            assert(before[j].0@ != before[i as int].0@);
                        } else {
                            assert(was[a].0@ != was[b].0@);
                        }
                    }
                }
            }
            proof {
                assert forall|k: int| 0 <= k < kept@.len() implies (exists|j: int|
                    0 <= j < i + 1 && (#[trigger] before[j]).0@ == kept@[k].0@ && before[j].1@
                        == kept@[k].1@) && !(#[trigger] kept@[k]).1@.is_pending_in(
                    source_path@,
                    names,
                ) by {
                    if k < was.len() {
                        assert(kept@[k] == was[k]);
                        let j = choose|j: int|
                            0 <= j < i && (#[trigger] before[j]).0@ == was[k].0@ && before[j].1@
                                == was[k].1@;
                        assert(before[j].0@ == kept@[k].0@);
                    } else {
                        assert(before[i as int].0@ == kept@[k].0@);
                    }
                }
                assert forall|j: int|
                    0 <= j < i + 1 && !(#[trigger] before[j]).1@.is_pending_in(source_path@, names)
                    implies exists|k: int|
                    0 <= k < kept@.len() && (#[trigger] kept@[k]).0@ == before[j].0@ by {
                    if j < i {
                        let k = choose|k: int|
                            0 <= k < was.len() && (#[trigger] was[k]).0@ == before[j].0@;
                        assert(kept@[k].0@ == before[j].0@);
                    } else {
                        assert(kept@[kept@.len() - 1].0@ == before[j].0@);
                    }
                }
            }
            i = i + 1;
        }
        proof {
            lemma_table(before);
            lemma_table(kept@);
            let after = without_stale(table_of(before), source_path@, names);
            assert forall|n: Node| #[trigger]
                table_of(kept@).contains_key(n) == after.contains_key(n) by {
                if table_of(kept@).contains_key(n) {
                    let k = choose|k: int| 0 <= k < kept@.len() && (#[trigger] kept@[k]).0@ == n;
                    let j = choose|j: int|
                        0 <= j < before.len() && (#[trigger] before[j]).0@ == kept@[k].0@
                            && before[j].1@ == kept@[k].1@;
                    assert(table_of(before)[before[j].0@] == before[j].1@);
                }
                if after.contains_key(n) {
                    let j = choose|j: int| 0 <= j < before.len() && (#[trigger] before[j]).0@ == n;
                    assert(table_of(before)[before[j].0@] == before[j].1@);
                    let k = choose|k: int|
                        0 <= k < kept@.len() && (#[trigger] kept@[k]).0@ == before[j].0@;
                    assert(kept@[k].0@ == n);
                }
            }
            assert forall|n: Node| #[trigger]
                table_of(kept@).contains_key(n) implies table_of(kept@)[n] == after[n] by {
                let k = choose|k: int| 0 <= k < kept@.len() && (#[trigger] kept@[k]).0@ == n;
                let j = choose|j: int|
                    0 <= j < before.len() && (#[trigger] before[j]).0@ == kept@[k].0@
                        && before[j].1@ == kept@[k].1@;
                assert(table_of(before)[before[j].0@] == before[j].1@);
                assert(table_of(kept@)[kept@[k].0@] == kept@[k].1@);
            }
            assert(table_of(kept@) =~= after);
        }
        self.nodes = kept;
    }
}

/// Nodes with what is known of them, as plain values.
pub open spec fn pairs(v: Seq<(NodeId, DataInode)>) -> Seq<(Node, NodeData)> {
    Seq::new(v.len(), |i: int| (v[i].0@, v[i].1@))
}

} // verus!
