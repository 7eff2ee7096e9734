use torrentfs::config::timeouts::TimeoutsConfig;
use torrentfs::error::FsError;
use torrentfs::fuse::pending::{Answer, InsertOutcome, PendingTable, RangeKey, MAX_PENDING};
use torrentfs::fuse::requests::{
    blocks_of, download_queue_depth, download_workers, read_deadline, FetchAnswer, FetchResult,
    ReadOutcome, ReadStep, SetAttr, TorrentFs,
};

const SECOND: u64 = 1_000_000_000;

/// The moment at which the tests look.
const NOW: u64 = 1_000 * SECOND;

fn deadline_in(secs: u64) -> u64 {
    NOW + secs * SECOND
}

fn key(salt: u32) -> RangeKey {
    RangeKey {
        info_hash: format!("ih{salt}"),
        file_index: 0,
        offset: salt as u64,
        size: 1,
    }
}

fn leader<R>(outcome: InsertOutcome<R>) -> u64 {
    match outcome {
        InsertOutcome::Leader(id) => id,
        _ => panic!("expected a Leader outcome"),
    }
}

fn joined<R>(outcome: InsertOutcome<R>) {
    assert!(matches!(outcome, InsertOutcome::Joined));
}

#[test]
fn insert_blocks_when_full_and_resumes_after_slot_frees() {
    let mut table: PendingTable<usize> = PendingTable::new();
    for i in 0..MAX_PENDING {
        let outcome = table.insert(i, i as i64, deadline_in(60), key(i as u32));
        assert_eq!(leader(outcome), i as u64, "insert {i} should succeed");
    }

    // One more does not fit: reply and key come back, to be tried again.
    let outcome = table.insert(
        MAX_PENDING,
        MAX_PENDING as i64,
        deadline_in(60),
        key(MAX_PENDING as u32),
    );
    let (reply, back) = match outcome {
        InsertOutcome::Full { reply, key } => (reply, key),
        _ => panic!("a full table takes nothing in"),
    };
    assert_eq!(reply, MAX_PENDING);

    assert_eq!(table.resolve(0), vec![0]);
    let outcome = table.insert(reply, MAX_PENDING as i64, deadline_in(60), back);
    assert_eq!(leader(outcome), MAX_PENDING as u64);
}

#[test]
fn cancel_by_torrent_id_resolves_only_matching_tickets() {
    let mut table: PendingTable<&str> = PendingTable::new();
    let a1 = leader(table.insert("a1", 1, deadline_in(60), key(0)));
    let a2 = leader(table.insert("a2", 1, deadline_in(60), key(1)));
    let b1 = leader(table.insert("b1", 2, deadline_in(60), key(2)));

    let (cancelled, answer) = table.cancel_by_torrent_id(1);
    assert_eq!(cancelled.len(), 2);
    assert!(cancelled.contains(&"a1") && cancelled.contains(&"a2"));
    assert_eq!(answer, Answer::Io);

    assert_eq!(table.resolve(b1), vec!["b1"]);
    assert!(table.resolve(a1).is_empty());
    assert!(table.resolve(a2).is_empty());
}

#[test]
fn expire_resolves_overdue_tickets_with_enodata() {
    let mut table: PendingTable<&str> = PendingTable::new();
    let overdue = leader(table.insert("overdue", 7, deadline_in(0), key(0)));
    let future = leader(table.insert("future", 7, deadline_in(60), key(1)));

    let (expired, answer) = table.expire(NOW);
    assert_eq!(expired, vec!["overdue"]);
    assert_eq!(answer, Answer::NoData);

    assert_eq!(table.resolve(future), vec!["future"]);
    assert!(table.resolve(overdue).is_empty());
}

#[test]
fn empty_data_for_nonzero_size_resolves_as_enodata() {
    let mut table: PendingTable<&str> = PendingTable::new();
    let id = leader(table.insert("r", 42, deadline_in(60), key(0)));
    assert_eq!(
        table.resolve_or_enodata(id, &[], 4096),
        (vec!["r"], Answer::NoData)
    );
}

#[test]
fn empty_data_for_zero_size_resolves_as_data() {
    let mut table: PendingTable<&str> = PendingTable::new();
    let id = leader(table.insert("r", 42, deadline_in(60), key(0)));
    assert_eq!(table.resolve_or_enodata(id, &[], 0), (vec!["r"], Answer::Data));
}

#[test]
fn nonempty_data_resolves_as_data() {
    let mut table: PendingTable<&str> = PendingTable::new();
    let id = leader(table.insert("r", 42, deadline_in(60), key(0)));
    assert_eq!(
        table.resolve_or_enodata(id, b"payload", 7),
        (vec!["r"], Answer::Data)
    );
}

#[test]
fn coalesces_same_range_into_one_group_and_fans_out_data() {
    let mut table: PendingTable<u32> = PendingTable::new();
    let id = leader(table.insert(0, 9, deadline_in(60), key(0)));
    for i in 1..3 {
        joined(table.insert(i, 9, deadline_in(60), key(0)));
    }
    let (resolved, answer) = table.resolve_or_enodata(id, b"shared", 6);
    assert_eq!(resolved, vec![0, 1, 2]);
    assert_eq!(answer, Answer::Data);
    assert!(table.resolve(id).is_empty());
}

#[test]
fn coalesced_group_fans_out_error() {
    let mut fs: TorrentFs<u32> = TorrentFs::new(&TimeoutsConfig::default());
    let id = leader(fs.pending.insert(0, 5, deadline_in(60), key(0)));
    joined(fs.pending.insert(1, 5, deadline_in(60), key(0)));
    let (resolved, answer) = fs.finish(id, FetchResult::Failed(libc::EIO), 1);
    assert_eq!(resolved, vec![0, 1]);
    assert!(matches!(answer, FetchAnswer::Errno(e) if e == libc::EIO));
}

#[test]
fn coalesced_group_expires_together() {
    let mut table: PendingTable<u32> = PendingTable::new();
    leader(table.insert(0, 5, deadline_in(0), key(0)));
    joined(table.insert(1, 5, deadline_in(0), key(0)));
    assert_eq!(table.expire(NOW), (vec![0, 1], Answer::NoData));
}

#[test]
fn coalesced_group_cancels_only_matching_torrent() {
    let mut table: PendingTable<u32> = PendingTable::new();
    let id = leader(table.insert(0, 1, deadline_in(60), key(0)));
    joined(table.insert(1, 2, deadline_in(60), key(0)));
    assert_eq!(table.cancel_by_torrent_id(1), (vec![0], Answer::Io));
    assert_eq!(table.resolve(id), vec![1]);
}

#[test]
fn reinsert_same_range_after_resolve_creates_new_group() {
    let mut table: PendingTable<u32> = PendingTable::new();
    let id0 = leader(table.insert(0, 3, deadline_in(60), key(0)));
    assert_eq!(table.resolve(id0), vec![0]);
    let id1 = leader(table.insert(1, 3, deadline_in(60), key(0)));
    assert_ne!(id1, id0);
    assert_eq!(table.resolve(id1), vec![1]);
}

#[test]
fn late_joiner_keeps_own_deadline() {
    let mut table: PendingTable<u32> = PendingTable::new();
    let id = leader(table.insert(0, 5, deadline_in(0), key(0)));
    joined(table.insert(1, 5, deadline_in(60), key(0)));

    assert_eq!(table.expire(NOW), (vec![0], Answer::NoData));
    assert_eq!(
        table.resolve_or_enodata(id, b"ok", 2),
        (vec![1], Answer::Data)
    );
}

// ── Requests ────────────────────────────────────────────────────────────────

fn parked(torrent_id: i64) -> ReadOutcome {
    ReadOutcome::Pending {
        info_hash: "ih".to_string(),
        file_index: 0,
        offset: 0,
        size: 4096,
        torrent_id,
    }
}

#[test]
fn a_read_is_answered_refused_or_parked() {
    let mut fs: TorrentFs<u32> = TorrentFs::new(&TimeoutsConfig::default());
    match fs.read(ReadOutcome::Ready(vec![1, 2]), 0, None, NOW) {
        ReadStep::Reply { reply, data } => assert_eq!((reply, data), (0, vec![1, 2])),
        _ => panic!("the bytes are here"),
    }
    match fs.read(ReadOutcome::Failed(5), 1, None, NOW) {
        ReadStep::Fail { reply, errno } => assert_eq!((reply, errno), (1, 5)),
        _ => panic!("the read failed"),
    }
    let ticket = match fs.read(parked(1), 2, Some(154), NOW) {
        ReadStep::Fetch { ticket } => ticket,
        _ => panic!("the first of its range fetches"),
    };
    assert!(matches!(fs.read(parked(1), 3, Some(154), NOW), ReadStep::Wait));

    // The next range gets a ticket of its own.
    let other = ReadOutcome::Pending {
        info_hash: "ih".to_string(),
        file_index: 0,
        offset: 4096,
        size: 4096,
        torrent_id: 1,
    };
    match fs.read(other, 4, Some(154), NOW) {
        ReadStep::Fetch { ticket: next } => {
            assert_eq!(next, ticket + 1);
            assert_eq!(fs.finish(next, FetchResult::NotQueued, 1).0, vec![4]);
        }
        _ => panic!("another range fetches too"),
    }

    // Neither ends before the engine's budget and its margin are over.
    assert_eq!(fs.pending.expire(NOW + 158 * SECOND).0, Vec::<u32>::new());
    let (replies, answer) = fs.finish(ticket, FetchResult::Bytes(vec![9; 3]), 4096);
    assert_eq!(replies, vec![2, 3]);
    assert!(matches!(answer, FetchAnswer::Data(d) if d == vec![9; 3]));
}

#[test]
fn an_empty_or_unqueued_fetch_is_told_apart() {
    let mut fs: TorrentFs<u32> = TorrentFs::new(&TimeoutsConfig::default());
    let ticket = match fs.read(parked(1), 0, Some(154), NOW) {
        ReadStep::Fetch { ticket } => ticket,
        _ => panic!("fetch"),
    };
    let (replies, answer) = fs.finish(ticket, FetchResult::Bytes(vec![]), 4096);
    assert_eq!(replies, vec![0]);
    assert!(matches!(answer, FetchAnswer::NoData));

    let ticket = match fs.read(parked(1), 1, Some(154), NOW) {
        ReadStep::Fetch { ticket } => ticket,
        _ => panic!("fetch"),
    };
    let (replies, answer) = fs.finish(ticket, FetchResult::NotQueued, 4096);
    assert_eq!(replies, vec![1]);
    assert!(matches!(answer, FetchAnswer::Io));
}

#[test]
fn without_an_engine_a_read_is_refused() {
    let mut fs: TorrentFs<u32> = TorrentFs::new(&TimeoutsConfig::default());
    match fs.read(parked(1), 0, None, NOW) {
        ReadStep::Refuse {
            waiting,
            error: FsError::Internal(message),
        } => {
            assert_eq!(waiting, vec![0]);
            assert_eq!(message, "download manager not available");
        }
        _ => panic!("there is nothing to fetch with"),
    }
    assert!(fs.pending.groups.is_empty());
}

#[test]
fn a_full_table_makes_a_read_wait_for_room() {
    let mut fs: TorrentFs<u32> = TorrentFs::new(&TimeoutsConfig::default());
    for i in 0..MAX_PENDING {
        leader(fs.pending.insert(i as u32, 1, deadline_in(60), key(i as u32)));
    }
    match fs.read(parked(1), 999, Some(154), NOW) {
        ReadStep::Block {
            reply,
            key,
            deadline,
        } => {
            assert_eq!((reply, deadline), (999, NOW + 159 * SECOND));
            assert_eq!(key.info_hash, "ih");
        }
        _ => panic!("there is no room"),
    }
}

#[test]
fn deadlines_add_a_margin_to_the_wait() {
    assert_eq!(read_deadline(NOW, Some(154), 60), NOW + 159 * SECOND);
    assert_eq!(read_deadline(NOW, None, 60), NOW + 65 * SECOND);
}

#[test]
fn only_a_lone_size_truncates() {
    let size_only = SetAttr {
        mode: false,
        uid: false,
        gid: false,
        size: Some(0),
        atime: false,
        mtime: false,
        ctime: false,
        crtime: false,
        chgtime: false,
        bkuptime: false,
    };
    assert_eq!(size_only.truncate(), Some(0));
    let nothing = SetAttr { size: None, ..size_only };
    assert_eq!(nothing.truncate(), None);
    let chmod = SetAttr {
        mode: true,
        ..size_only
    };
    assert_eq!(chmod.truncate(), None);
}

#[test]
fn blocks_round_up() {
    assert_eq!(blocks_of(0), 0);
    assert_eq!(blocks_of(1), 1);
    assert_eq!(blocks_of(512), 1);
    assert_eq!(blocks_of(513), 2);
}

#[test]
fn worker_counts_fall_back_to_the_machine() {
    assert_eq!(download_workers(Some(3), Some(64)), 3);
    assert_eq!(download_workers(Some(0), Some(8)), 8);
    assert_eq!(download_workers(None, Some(8)), 8);
    assert_eq!(download_workers(None, None), 1);
    assert_eq!(download_queue_depth(None), 256);
    assert_eq!(download_queue_depth(Some(0)), 256);
    assert_eq!(download_queue_depth(Some(9)), 9);
}
