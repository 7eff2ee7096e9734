use torrentfs::db::catalog::{
    Answer, InsertEnd, InsertMode, Insertion, MoveOverwriteResult, Next, Relocation, Removal,
    Statement,
};
use torrentfs::db::migrations::{
    join_ids, migrations_from, plan_split, Migration, OldTorrent, LATEST,
};
use torrentfs::db::queries::{
    below_pattern, counts_by_status, escape_like_pattern, parts_below, stands_at_or_below,
};
use torrentfs::db::tree::{plan_tree, FileEntry};
use torrentfs::db::types::TorrentStatus;

// ── A database in memory ────────────────────────────────────────────────────

#[derive(Default)]
struct Tables {
    /// Number, hash and bytes.
    contents: Vec<(i64, String, Vec<u8>)>,
    /// Number, content, and place.
    sources: Vec<(i64, i64, String)>,
    files_for: Vec<i64>,
    next: i64,
}

struct Request {
    hash: String,
    bytes: Vec<u8>,
    place: String,
    target: String,
}

fn request(place: &str, bytes: &[u8]) -> Request {
    Request {
        hash: format!("hash of {bytes:?}"),
        bytes: bytes.to_vec(),
        place: place.to_string(),
        target: String::new(),
    }
}

impl Tables {
    fn source_at(&self, place: &str) -> Option<i64> {
        self.sources
            .iter()
            .find(|s| s.2 == place)
            .map(|s| s.0)
    }

    fn run(&mut self, request: &Request, removed_hash: Option<String>, s: Statement) -> Answer {
        match s {
            Statement::FindSource => Answer::Found(self.source_at(&request.place)),
            Statement::FindTarget => Answer::Found(self.source_at(&request.target)),
            Statement::FindContent => Answer::Found(
                self.contents
                    .iter()
                    .find(|c| c.2 == request.bytes)
                    .map(|c| c.0),
            ),
            Statement::InsertContent => {
                self.next += 1;
                self.contents
                    .push((self.next, request.hash.clone(), request.bytes.clone()));
                Answer::New(self.next)
            }
            Statement::InsertFiles { content_id } => {
                self.files_for.push(content_id);
                Answer::Done
            }
            Statement::FindContentOf { source_id } => {
                let content = self.sources.iter().find(|s| s.0 == source_id).map(|s| s.1);
                Answer::Content(
                    self.contents
                        .iter()
                        .find(|c| Some(c.0) == content)
                        .map(|c| (c.0, c.1.clone())),
                )
            }
            Statement::Repoint { source_id, content_id } => {
                for s in self.sources.iter_mut().filter(|s| s.0 == source_id) {
                    s.1 = content_id;
                }
                Answer::Done
            }
            Statement::InsertSource { content_id } => {
                self.next += 1;
                self.sources
                    .push((self.next, content_id, request.place.clone()));
                Answer::New(self.next)
            }
            Statement::CountSources { content_id } => Answer::Count(
                self.sources.iter().filter(|s| s.1 == content_id).count() as i64,
            ),
            Statement::DeleteContent { content_id } => {
                self.contents.retain(|c| c.0 != content_id);
                Answer::Done
            }
            Statement::CountSourcesOfHash => {
                let hash = removed_hash.expect("a hash");
                let n = self
                    .sources
                    .iter()
                    .filter(|s| self.contents.iter().any(|c| c.0 == s.1 && c.1 == hash))
                    .count();
                Answer::Count(n as i64)
            }
            Statement::DeleteSource { source_id } => {
                self.sources.retain(|s| s.0 != source_id);
                Answer::Done
            }
            Statement::Relocate { source_id } => {
                for s in self.sources.iter_mut().filter(|s| s.0 == source_id) {
                    s.2 = request.target.clone();
                }
                Answer::Done
            }
        }
    }

    fn insert(&mut self, request: &Request, replace: bool) -> InsertEnd {
        let mode = InsertMode {
            replace,
            with_files: true,
        };
        let (mut at, mut statement) = Insertion::start();
        loop {
            let hash = at.removed_hash().cloned();
            let answer = self.run(request, hash, statement);
            match at.next(mode, answer) {
                Next::Run(next, s) => {
                    at = next;
                    statement = s;
                }
                Next::End(end) => return end,
                Next::Broken => panic!("broken"),
            }
        }
    }

    fn remove(&mut self, source_id: i64) {
        let (mut at, mut statement) = Removal::start(source_id);
        loop {
            let answer = self.run(&request("", b""), None, statement);
            match at.next(answer) {
                Next::Run(next, s) => {
                    at = next;
                    statement = s;
                }
                Next::End(()) => return,
                Next::Broken => panic!("broken"),
            }
        }
    }

    fn relocate(&mut self, from: &str, to: &str) -> MoveOverwriteResult {
        let r = Request {
            target: to.to_string(),
            ..request(from, b"")
        };
        let (mut at, mut statement) = Relocation::start();
        loop {
            let answer = self.run(&r, None, statement);
            match at.next(answer) {
                Next::Run(next, s) => {
                    at = next;
                    statement = s;
                }
                Next::End(end) => return end,
                Next::Broken => panic!("broken"),
            }
        }
    }
}

fn placed(end: InsertEnd) -> (i64, i64, bool, bool, Option<String>) {
    match end {
        InsertEnd::Placed(o) => (
            o.source_id,
            o.content_id,
            o.content_created,
            o.source_reused,
            o.stale_info_hash,
        ),
        InsertEnd::Duplicate(_) => panic!("a duplicate"),
    }
}

#[test]
fn an_insertion_makes_a_content_and_a_source() {
    let mut t = Tables::default();
    assert_eq!(placed(t.insert(&request("a/x", b"1"), false)), (2, 1, true, false, None));
    assert_eq!(t.files_for, vec![1]);
    // The same place again stays as it is.
    assert!(matches!(
        t.insert(&request("a/x", b"2"), false),
        InsertEnd::Duplicate(2)
    ));
    assert_eq!(t.contents.len(), 1);
}

#[test]
fn known_bytes_share_their_content() {
    let mut t = Tables::default();
    t.insert(&request("a/x", b"1"), false);
    assert_eq!(placed(t.insert(&request("b/x", b"1"), false)), (3, 1, false, false, None));
    assert_eq!(t.contents.len(), 1);
    assert_eq!(t.files_for, vec![1]);
}

#[test]
fn a_replacement_leaves_no_orphan_behind() {
    let mut t = Tables::default();
    t.insert(&request("a/x", b"1"), false);
    let old = t.contents[0].1.clone();
    assert_eq!(placed(t.insert(&request("a/x", b"2"), true)), (2, 3, true, true, Some(old)));
    assert_eq!(t.contents.len(), 1);
    assert_eq!(t.sources, vec![(2, 3, "a/x".to_string())]);
    // The same bytes again change nothing.
    assert_eq!(placed(t.insert(&request("a/x", b"2"), true)), (2, 3, false, true, None));
}

#[test]
fn a_replacement_keeps_a_content_that_is_still_used() {
    let mut t = Tables::default();
    t.insert(&request("a/x", b"1"), false);
    t.insert(&request("b/x", b"1"), false);
    assert_eq!(placed(t.insert(&request("a/x", b"2"), true)), (2, 4, true, true, None));
    assert_eq!(t.contents.len(), 2);
}

#[test]
fn removal_undoes_insertion() {
    let mut t = Tables::default();
    t.insert(&request("a/x", b"1"), false);
    t.insert(&request("b/x", b"1"), false);
    t.remove(2);
    assert_eq!(t.contents.len(), 1);
    t.remove(3);
    assert!(t.contents.is_empty() && t.sources.is_empty());
    t.remove(99);
}

#[test]
fn a_move_overwrites_its_target() {
    let mut t = Tables::default();
    t.insert(&request("a/x", b"1"), false);
    t.insert(&request("b/x", b"2"), false);
    let hash = t.contents[1].1.clone();
    match t.relocate("a/x", "b/x") {
        MoveOverwriteResult::Moved { removed_target } => {
            assert_eq!(removed_target, Some((4, hash)))
        }
        MoveOverwriteResult::SourceAbsent => panic!("absent"),
    }
    assert_eq!(t.sources, vec![(2, 1, "b/x".to_string())]);
    assert_eq!(t.contents.len(), 1);
    assert!(matches!(
        t.relocate("b/x", "c/x"),
        MoveOverwriteResult::Moved { removed_target: None }
    ));
    assert!(matches!(t.relocate("a/x", "d/x"), MoveOverwriteResult::SourceAbsent));
}

#[test]
fn an_answer_that_cannot_be_breaks_the_operation() {
    let (at, _) = Removal::start(1);
    assert!(matches!(at.next(Answer::Count(1)), Next::Broken));
    let (at, _) = Relocation::start();
    assert!(matches!(at.next(Answer::Done), Next::Broken));
}

// ── Updates ─────────────────────────────────────────────────────────────────

#[test]
fn updates_start_where_the_database_is() {
    assert_eq!(
        migrations_from(0),
        vec![
            Migration::CreateTables,
            Migration::CreateMetadataTables,
            Migration::AddFilenames,
            Migration::KeyByPlace,
            Migration::SplitSources,
            Migration::RebuildDirectories,
        ]
    );
    assert_eq!(
        migrations_from(4),
        vec![Migration::KeyByPlace, Migration::SplitSources]
    );
    assert_eq!(migrations_from(1)[0], Migration::AddColumns);
    assert!(migrations_from(LATEST).is_empty());
    assert_eq!(Migration::SplitSources.version(), Some(LATEST));
    assert!(Migration::SplitSources.unchecked());
    assert!(!Migration::AddFilenames.unchecked());
}

#[test]
fn torrents_with_the_same_bytes_become_one_content() {
    let old = |id: i64, data: Option<&[u8]>| OldTorrent {
        id,
        data: data.map(|d| d.to_vec()),
    };
    let plan = plan_split(&vec![
        old(10, Some(b"x")),
        old(11, None),
        old(12, Some(b"x")),
        old(13, None),
        old(14, Some(b"y")),
    ]);
    assert_eq!(plan.origins, vec![0, 1, 0, 3, 4]);
    assert_eq!(plan.duplicates, vec![12]);
    assert_eq!(join_ids(&vec![12, -3]), "12,-3");
    assert_eq!(join_ids(&vec![]), "");
}

// ── Queries ─────────────────────────────────────────────────────────────────

#[test]
fn patterns_hold_no_wildcards_of_the_text() {
    assert_eq!(escape_like_pattern("50%_a\\b"), "50\\%\\_a\\\\b");
    assert_eq!(below_pattern("a_b"), "a\\_b/%");
    assert_eq!(below_pattern(""), "%");
}

#[test]
fn a_directory_holds_what_stands_below_it() {
    assert!(stands_at_or_below("a/b", "a"));
    assert!(stands_at_or_below("a", "a"));
    assert!(stands_at_or_below("anything", ""));
    assert!(stands_at_or_below("", ""));
    assert!(!stands_at_or_below("ab", "a"));
    assert!(!stands_at_or_below("A/b", "a"));
    assert!(!stands_at_or_below("a", "a/b"));
}

#[test]
fn the_parts_below_a_directory_stand_once() {
    let all: Vec<String> = ["a", "a b", "a/b", "a/b/c", "a/d", "A/x", ""]
        .iter()
        .map(|s| s.to_string())
        .collect();
    assert_eq!(parts_below(&all, ""), vec!["a", "a b", "A"]);
    assert_eq!(parts_below(&all, "a"), vec!["b", "d"]);
    assert_eq!(parts_below(&all, "a/b"), vec!["c"]);
    assert!(parts_below(&all, "d").is_empty());
}

#[test]
fn counts_are_sorted_by_status() {
    let rows = vec![
        ("seeding".to_string(), 3),
        ("pending".to_string(), 1),
        ("unheard of".to_string(), 5),
        ("error".to_string(), 2),
    ];
    assert_eq!(counts_by_status(&rows), (1, 0, 3, 2, 6));
}

#[test]
fn a_status_is_a_word() {
    for status in [
        TorrentStatus::Pending,
        TorrentStatus::Downloading,
        TorrentStatus::Seeding,
        TorrentStatus::Error,
    ] {
        assert_eq!(TorrentStatus::from_word(status.as_str()), Some(status));
    }
    assert_eq!(TorrentStatus::from_word("gone"), None);
}

#[test]
fn directories_are_made_once_and_before_what_they_hold() {
    let file = |path: &str| FileEntry {
        path: path.to_string(),
        size: 1,
    };
    let plan = plan_tree(&vec![file("a/b/x"), file("a/y"), file("z"), file("c/b/x")]);
    let dirs: Vec<(&str, &str, Option<usize>)> = plan
        .dirs
        .iter()
        .map(|d| (d.path.as_str(), d.name.as_str(), d.parent))
        .collect();
    assert_eq!(
        dirs,
        vec![
            ("a", "a", None),
            ("a/b", "b", Some(0)),
            ("c", "c", None),
            ("c/b", "b", Some(2)),
        ]
    );
    let files: Vec<(&str, Option<usize>)> =
        plan.files.iter().map(|f| (f.name.as_str(), f.dir)).collect();
    assert_eq!(
        files,
        vec![("x", Some(1)), ("y", Some(0)), ("z", None), ("x", Some(3))]
    );
}
