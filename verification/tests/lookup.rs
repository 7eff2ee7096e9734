use torrentfs::db::types::{Torrent, TorrentDirectory, TorrentFile, TorrentStatus};
use torrentfs::error::FsError;
use torrentfs::fuse::inodes::{DataInode, DataInodes, FileKind, NodeId};
use torrentfs::fuse::lookup::{DataResolver, DbRows, DirEntry, MetaFile, Query};

// ── A small database ────────────────────────────────────────────────────────

fn torrent(id: i64, source_path: &str, name: &str, filename: &str) -> Torrent {
    Torrent {
        id,
        torrent_id: id,
        source_path: source_path.to_string(),
        name: name.to_string(),
        filename: filename.to_string(),
        total_size: 1024,
        info_hash: format!("h{id}"),
        file_count: 1,
        status: TorrentStatus::Pending,
    }
}

fn no_rows() -> DbRows {
    DbRows {
        prefixes: Some(vec![]),
        torrents: Some(vec![]),
        dirs: Some(vec![]),
        files: Some(vec![]),
        parent_dir: None,
    }
}

/// What the database gives for a node when it holds the given torrents, which
/// have no files.
fn rows_for(table: &DataInodes, id: &NodeId, torrents: &[Torrent]) -> DbRows {
    let path = match DataResolver::query(table, id) {
        Query::Place { path } => path,
        _ => return no_rows(),
    };
    let below = if path.is_empty() {
        String::new()
    } else {
        format!("{path}/")
    };
    let mut prefixes: Vec<String> = torrents
        .iter()
        .filter_map(|t| t.source_path.strip_prefix(&below))
        .filter(|rest| !rest.is_empty())
        .map(|rest| rest.split('/').next().unwrap().to_string())
        .collect();
    prefixes.sort();
    prefixes.dedup();
    let here = torrents
        .iter()
        .filter(|t| t.source_path == path)
        .cloned()
        .collect();
    DbRows {
        prefixes: Some(prefixes),
        torrents: Some(here),
        ..no_rows()
    }
}

/// The tables of one test.
struct World {
    table: DataInodes,
    torrents: Vec<Torrent>,
    metas: Vec<MetaFile>,
    processing: Vec<(String, String)>,
}

impl World {
    fn new() -> World {
        World {
            table: DataInodes::new(),
            torrents: vec![],
            metas: vec![],
            processing: vec![],
        }
    }

    /// A database with one torrent at the given path.
    fn with_torrent(source_path: &str) -> World {
        let mut w = World::new();
        w.torrents
            .push(torrent(1, source_path, "test-torrent", "test.torrent"));
        w
    }

    fn write_meta(&mut self, source_path: &str, name: &str, data: Vec<u8>) {
        self.metas.push(MetaFile {
            source_path: source_path.to_string(),
            name: name.to_string(),
            data,
            unlinked: false,
        });
    }

    fn process(&mut self, source_path: &str, name: &str) {
        self.processing
            .push((source_path.to_string(), name.to_string()));
    }

    fn lookup(&mut self, parent: &NodeId, name: &str) -> Option<(NodeId, FileKind, u64)> {
        let rows = rows_for(&self.table, parent, &self.torrents);
        DataResolver::lookup_data_inode(
            &mut self.table,
            &rows,
            &self.metas,
            &self.processing,
            parent,
            name,
        )
    }

    fn readdir(&mut self, id: &NodeId, offset: i64) -> Option<Vec<DirEntry>> {
        let rows = rows_for(&self.table, id, &self.torrents);
        DataResolver::readdir_data(
            &mut self.table,
            &rows,
            &self.metas,
            &self.processing,
            id,
            offset,
        )
    }
}

fn place(path: &str) -> NodeId {
    NodeId::SourcePath {
        path: path.to_string(),
    }
}

fn place_data(path: &str) -> DataInode {
    DataInode::SourcePathDir {
        path: path.to_string(),
    }
}

fn root_data(torrent_id: i64, source_path: &str, name: &str, filename: &str) -> DataInode {
    DataInode::TorrentRoot {
        torrent_id,
        source_path: source_path.to_string(),
        name: name.to_string(),
        filename: filename.to_string(),
    }
}

fn named<'a>(entries: &'a [DirEntry], name: &str) -> &'a DirEntry {
    entries
        .iter()
        .find(|e| e.name == name)
        .expect("entry not found")
}

fn names(entries: &[DirEntry]) -> Vec<&str> {
    entries.iter().map(|e| e.name.as_str()).collect()
}

// ── `..` of a torrent ───────────────────────────────────────────────────────

#[test]
fn torrent_root_dotdot_points_to_parent_source_path_dir() {
    let mut w = World::with_torrent("a/b");
    let id = NodeId::Torrent { id: 1 };
    w.table
        .insert(id.copy(), root_data(1, "a/b", "test-torrent", "test.torrent"));
    let entries = w.readdir(&id, 0).expect("entries");
    assert!(named(&entries, "..").target.same(&place("a")));

    let mut w = World::with_torrent("a/b");
    w.table.insert(place("a"), place_data("a"));
    let entries = w.readdir(&place("a"), 0).expect("entries");
    assert!(named(&entries, ".").target.same(&place("a")));
}

#[test]
fn torrent_root_dotdot_single_segment_points_to_data_ino() {
    let mut w = World::with_torrent("a");
    let id = NodeId::Torrent { id: 1 };
    w.table
        .insert(id.copy(), root_data(1, "a", "test-torrent", "test.torrent"));
    let entries = w.readdir(&id, 0).expect("entries");
    assert!(named(&entries, "..").target.same(&NodeId::Data));
}

#[test]
fn torrent_root_dotdot_empty_source_path_points_to_data_ino() {
    let mut w = World::with_torrent("");
    let id = NodeId::Torrent { id: 1 };
    w.table
        .insert(id.copy(), root_data(1, "", "test-torrent", "test.torrent"));
    let entries = w.readdir(&id, 0).expect("entries");
    assert!(named(&entries, "..").target.same(&NodeId::Data));
}

#[test]
fn torrent_root_dotdot_shared_parent_is_stable_across_torrents() {
    for (tid, name) in [(1, "t1"), (2, "t2")] {
        let mut w = World::new();
        w.torrents.push(torrent(1, "a/b", "t1", "t1.torrent"));
        w.torrents.push(torrent(2, "a/b", "t2", "t2.torrent"));
        let id = NodeId::Torrent { id: tid };
        w.table.insert(
            id.copy(),
            root_data(tid, "a/b", name, &format!("{name}.torrent")),
        );
        let entries = w.readdir(&id, 0).expect("entries");
        assert!(named(&entries, "..").target.same(&place("a")), "{name}");
    }
}

// ── Torrents that are still being added ─────────────────────────────────────

/// One file `foo` of 16 bytes.
fn minimal_torrent_bytes() -> Vec<u8> {
    let mut t = Vec::new();
    t.push(b'd');
    t.extend_from_slice(b"4:infod");
    t.extend_from_slice(b"6:lengthi16e");
    t.extend_from_slice(b"4:name3:foo");
    t.extend_from_slice(b"12:piece lengthi16384e");
    t.extend_from_slice(b"6:pieces20:");
    t.extend_from_slice(&[0u8; 20]);
    t.extend_from_slice(b"ee");
    t
}

/// `foo` with `dir/sub.txt`, `dir2/readme.txt` and `top.txt`.
fn multifile_torrent_bytes() -> Vec<u8> {
    let mut t = Vec::new();
    t.push(b'd');
    t.extend_from_slice(b"4:infod");
    t.extend_from_slice(b"5:filesl");
    t.extend_from_slice(b"d6:lengthi10e4:pathl3:dir7:sub.txtee");
    t.extend_from_slice(b"d6:lengthi5e4:pathl4:dir210:readme.txtee");
    t.extend_from_slice(b"d6:lengthi8e4:pathl7:top.txtee");
    t.extend_from_slice(b"e");
    t.extend_from_slice(b"4:name3:foo");
    t.extend_from_slice(b"12:piece lengthi16384e");
    t.extend_from_slice(b"6:pieces20:");
    t.extend_from_slice(&[0u8; 20]);
    t.extend_from_slice(b"ee");
    t
}

#[test]
fn lookup_data_root_returns_pending_torrent_instead_of_enoent() {
    let mut w = World::new();
    w.write_meta("", "pending.torrent", minimal_torrent_bytes());
    w.process("", "pending.torrent");

    let (id, kind, size) = w
        .lookup(&NodeId::Data, "pending.torrent")
        .expect("pending torrent should resolve");
    assert_eq!(kind, FileKind::Directory);
    assert_eq!(size, 0);
    match w.table.get(&id).expect("kept") {
        DataInode::TorrentRoot {
            torrent_id,
            filename,
            name,
            ..
        } => {
            assert_eq!(*torrent_id, 0);
            assert_eq!(filename, "pending.torrent");
            assert_eq!(name, "foo");
        }
        other => panic!("expected TorrentRoot, got {:?}", other),
    }
}

#[test]
fn lookup_data_root_returns_none_when_not_pending() {
    let mut w = World::new();
    assert!(w.lookup(&NodeId::Data, "nonexistent.torrent").is_none());
}

#[test]
fn readdir_data_root_includes_pending_torrent() {
    let mut w = World::new();
    w.write_meta("", "pending.torrent", minimal_torrent_bytes());
    w.process("", "pending.torrent");
    let entries = w.readdir(&NodeId::Data, 0).expect("entries");
    assert!(names(&entries).contains(&"pending.torrent"));
}

#[test]
fn multiple_pending_torrents_get_distinct_inodes() {
    let mut w = World::new();
    for name in ["alpha.torrent", "beta.torrent"] {
        w.write_meta("", name, minimal_torrent_bytes());
        w.process("", name);
    }
    let (a, _, _) = w.lookup(&NodeId::Data, "alpha.torrent").expect("alpha");
    let (b, _, _) = w.lookup(&NodeId::Data, "beta.torrent").expect("beta");
    assert!(!a.same(&b));

    let entries = w.readdir(&NodeId::Data, 0).expect("entries");
    assert!(names(&entries).contains(&"alpha.torrent"));
    assert!(names(&entries).contains(&"beta.torrent"));
    for (i, x) in entries.iter().enumerate() {
        for y in &entries[..i] {
            assert!(
                !x.target.same(&y.target) || x.stats != y.stats,
                "{} and {} are one node",
                x.name,
                y.name
            );
        }
    }
}

#[test]
fn source_path_dir_readdir_and_lookup_include_pending_torrent() {
    let mut w = World::new();
    w.write_meta("sub", "pending.torrent", minimal_torrent_bytes());
    w.table.insert(place("sub"), place_data("sub"));
    w.process("sub", "pending.torrent");

    let (found, kind, _) = w
        .lookup(&place("sub"), "pending.torrent")
        .expect("pending torrent should resolve");
    assert_eq!(kind, FileKind::Directory);

    let entries = w.readdir(&place("sub"), 0).expect("entries");
    assert!(names(&entries).contains(&"pending.torrent"));
    assert!(named(&entries, "pending.torrent").target.same(&found));
}

fn pending_root(source_path: &str, filename: &str) -> NodeId {
    NodeId::PendingTorrent {
        source_path: source_path.to_string(),
        filename: filename.to_string(),
    }
}

#[test]
fn stale_pending_torrent_evicted_after_db_row_lands() {
    let mut w = World::with_torrent("");
    w.write_meta("", "test.torrent", minimal_torrent_bytes());
    let stale = pending_root("", "test.torrent");
    w.table
        .insert(stale.copy(), root_data(0, "", "test-torrent", "test.torrent"));

    let entries = w.readdir(&NodeId::Data, 0).expect("entries");
    assert!(names(&entries).contains(&"test.torrent"));
    assert!(!w.table.contains_key(&stale));
}

/// A torrent of three files that is being added, and its node.
fn pending_multifile(source_path: &str, filename: &str) -> (World, NodeId) {
    let mut w = World::new();
    w.write_meta(source_path, filename, multifile_torrent_bytes());
    w.process(source_path, filename);
    let parent = if source_path.is_empty() {
        NodeId::Data
    } else {
        w.table.insert(place(source_path), place_data(source_path));
        place(source_path)
    };
    let (root, _, _) = w.lookup(&parent, filename).expect("pending torrent root");
    (w, root)
}

#[test]
fn pending_torrent_root_readdir_lists_internal_files() {
    let (mut w, root) = pending_multifile("", "multi.torrent");
    let entries = w.readdir(&root, 0).expect("entries");
    let names = names(&entries);
    assert!(names.contains(&"dir"));
    assert!(names.contains(&"dir2"));
    assert!(names.contains(&"top.txt"));
}

#[test]
fn pending_torrent_root_lookup_resolves_internal_file() {
    let (mut w, root) = pending_multifile("", "multi.torrent");
    let (id, kind, size) = w.lookup(&root, "top.txt").expect("top.txt");
    assert_eq!(kind, FileKind::RegularFile);
    assert_eq!(size, 8);
    match w.table.get(&id).expect("kept") {
        DataInode::TorrentFile { name, size, .. } => {
            assert_eq!(name, "top.txt");
            assert_eq!(*size, 8);
        }
        other => panic!("expected TorrentFile, got {:?}", other),
    }
}

#[test]
fn pending_torrent_root_lookup_resolves_internal_dir() {
    let (mut w, root) = pending_multifile("", "multi.torrent");
    let (id, kind, _) = w.lookup(&root, "dir").expect("dir");
    assert_eq!(kind, FileKind::Directory);
    match w.table.get(&id).expect("kept") {
        DataInode::TorrentDir {
            dir_path,
            torrent_source_path,
            torrent_filename,
            ..
        } => {
            assert_eq!(dir_path, "dir");
            assert_eq!(torrent_source_path, "");
            assert_eq!(torrent_filename, "multi.torrent");
        }
        other => panic!("expected TorrentDir, got {:?}", other),
    }
}

#[test]
fn pending_torrent_dir_readdir_lists_contents() {
    let (mut w, root) = pending_multifile("", "multi.torrent");
    let (dir, _, _) = w.lookup(&root, "dir").expect("dir");
    let entries = w.readdir(&dir, 0).expect("entries");
    assert!(names(&entries).contains(&"sub.txt"));
}

#[test]
fn pending_torrent_dir_lookup_resolves_file() {
    let (mut w, root) = pending_multifile("", "multi.torrent");
    let (dir, _, _) = w.lookup(&root, "dir").expect("dir");
    let (_, kind, size) = w.lookup(&dir, "sub.txt").expect("sub.txt");
    assert_eq!(kind, FileKind::RegularFile);
    assert_eq!(size, 10);
}

#[test]
fn pending_torrent_under_source_path_dir_resolves_internal() {
    let (mut w, root) = pending_multifile("sub", "multi.torrent");
    let entries = w.readdir(&root, 0).expect("entries");
    assert!(names(&entries).contains(&"dir"));
    assert!(names(&entries).contains(&"top.txt"));
    let (_, kind, size) = w.lookup(&root, "top.txt").expect("top.txt");
    assert_eq!(kind, FileKind::RegularFile);
    assert_eq!(size, 8);
}

#[test]
fn pending_single_file_torrent_resolves_internal_file() {
    let mut w = World::new();
    w.write_meta("", "single.torrent", minimal_torrent_bytes());
    w.process("", "single.torrent");
    let (root, _, _) = w.lookup(&NodeId::Data, "single.torrent").expect("root");
    let (_, kind, size) = w.lookup(&root, "foo").expect("foo");
    assert_eq!(kind, FileKind::RegularFile);
    assert_eq!(size, 16);
    let entries = w.readdir(&root, 0).expect("entries");
    assert!(names(&entries).contains(&"foo"));
}

#[test]
fn pending_torrent_lookup_nonexistent_file_returns_none() {
    let (mut w, root) = pending_multifile("", "multi.torrent");
    assert!(w.lookup(&root, "nonexistent.txt").is_none());
}

#[test]
fn stale_pending_dir_and_file_evicted_after_db_row_lands() {
    let mut w = World::with_torrent("");
    w.write_meta("", "test.torrent", minimal_torrent_bytes());
    let root = pending_root("", "test.torrent");
    let dir = NodeId::PendingDir {
        source_path: String::new(),
        filename: "test.torrent".to_string(),
        path: "subdir".to_string(),
    };
    let file = NodeId::PendingFile {
        source_path: String::new(),
        filename: "test.torrent".to_string(),
        path: "subdir/file.txt".to_string(),
    };
    w.table
        .insert(root.copy(), root_data(0, "", "test-torrent", "test.torrent"));
    w.table.insert(
        dir.copy(),
        DataInode::TorrentDir {
            torrent_id: 0,
            dir_id: 0,
            name: "subdir".to_string(),
            dir_path: "subdir".to_string(),
            torrent_source_path: String::new(),
            torrent_filename: "test.torrent".to_string(),
        },
    );
    w.table.insert(
        file.copy(),
        DataInode::TorrentFile {
            torrent_id: 0,
            file_id: 0,
            name: "file.txt".to_string(),
            size: 16,
            torrent_source_path: String::new(),
            torrent_filename: "test.torrent".to_string(),
        },
    );

    let entries = w.readdir(&NodeId::Data, 0).expect("entries");
    assert!(names(&entries).contains(&"test.torrent"));
    assert!(!w.table.contains_key(&root));
    assert!(!w.table.contains_key(&dir));
    assert!(!w.table.contains_key(&file));
}

// ── Listings and lookups ────────────────────────────────────────────────────

#[test]
fn a_listing_starts_with_the_dots_and_resumes() {
    let mut w = World::with_torrent("a/b");
    let all = w.readdir(&NodeId::Data, 0).expect("entries");
    assert_eq!(&names(&all)[..2], &[".", ".."]);
    assert!(all[0].target.same(&NodeId::Data));
    assert!(all[1].target.same(&NodeId::Root));
    assert!(names(&all).contains(&"a"));
    assert!(names(&all).contains(&".stats"));
    let offsets: Vec<u64> = all.iter().map(|e| e.offset).collect();
    let wanted: Vec<u64> = (1..=all.len() as u64).collect();
    assert_eq!(offsets, wanted);

    let rest = w.readdir(&NodeId::Data, 2).expect("entries");
    assert_eq!(names(&rest), names(&all)[2..].to_vec());
    let none = w.readdir(&NodeId::Data, all.len() as i64).expect("entries");
    assert!(none.is_empty());
}

#[test]
fn what_a_listing_names_can_be_looked_up() {
    let mut w = World::with_torrent("a/b");
    let (a, kind, _) = w.lookup(&NodeId::Data, "a").expect("a");
    assert!(a.same(&place("a")));
    assert_eq!(kind, FileKind::Directory);
    let (b, _, _) = w.lookup(&a, "b").expect("b");
    assert!(b.same(&place("a/b")));
    let (t, kind, _) = w.lookup(&b, "test.torrent").expect("torrent");
    assert!(t.same(&NodeId::Torrent { id: 1 }));
    assert_eq!(kind, FileKind::Directory);
    assert!(w.lookup(&b, "other.torrent").is_none());
    let entries = w.readdir(&b, 0).expect("entries");
    assert!(named(&entries, "test.torrent").target.same(&t));
    assert!(named(&entries, "..").target.same(&a));
}

#[test]
fn a_listing_leaves_what_it_lists_to_be_found() {
    let mut w = World::with_torrent("a");
    w.write_meta("a", "new.torrent", multifile_torrent_bytes());
    w.process("a", "new.torrent");
    w.readdir(&NodeId::Data, 0).expect("entries");
    for dir in [place("a"), pending_root("a", "new.torrent")] {
        let all = w.readdir(&dir, 0).expect("entries");
        // Listed again from any offset, it goes on where the first listing was.
        for k in 0..=all.len() {
            let rest = w.readdir(&dir, k as i64).expect("entries");
            assert_eq!(names(&rest), names(&all)[k..].to_vec());
            assert!(rest.iter().zip(&all[k..]).all(|(r, a)| r.offset == a.offset));
        }
        for entry in all.iter().skip(2).filter(|e| !e.stats) {
            let (found, kind, size) = w.lookup(&dir, &entry.name).expect("found");
            assert!(found.same(&entry.target));
            assert_eq!(kind, entry.kind);
            assert!(kind == FileKind::RegularFile || size == 0);
            assert!(w.table.contains_key(&entry.target));
        }
    }
}

#[test]
fn files_and_directories_of_a_torrent_come_from_the_database() {
    let mut rows = no_rows();
    rows.dirs = Some(vec![TorrentDirectory {
        id: 7,
        torrent_id: 1,
        parent_id: None,
        name: "dir".to_string(),
    }]);
    rows.files = Some(vec![TorrentFile {
        id: 9,
        torrent_id: 1,
        directory_id: None,
        name: "top.txt".to_string(),
        path: "top.txt".to_string(),
        size: 8,
    }]);
    let (id, data) = DataResolver::resolve_torrent_root_lookup(&rows, 1, "dir").expect("dir");
    assert!(id.same(&NodeId::TorrentDir { id: 7 }));
    assert_eq!(data.kind_size(), (FileKind::Directory, 0));
    let (id, data) = DataResolver::resolve_torrent_root_lookup(&rows, 1, "top.txt").expect("file");
    assert!(id.same(&NodeId::TorrentFile { id: 9 }));
    assert_eq!(data.kind_size(), (FileKind::RegularFile, 8));
    assert!(DataResolver::resolve_torrent_root_lookup(&rows, 1, "nope").is_none());
    assert!(DataResolver::resolve_torrent_dir_lookup(&rows, 1, "top.txt").is_some());
}

#[test]
fn a_missing_database_is_an_internal_error() {
    assert_eq!(*DataResolver::get_db(&Some(5)).unwrap(), 5);
    match DataResolver::get_db::<u8>(&None) {
        Err(FsError::Internal(m)) => assert!(!m.is_empty()),
        other => panic!("{other:?}"),
    }
}
