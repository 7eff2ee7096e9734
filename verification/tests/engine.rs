use torrentfs::config::timeouts::TimeoutsConfig;
use torrentfs::engine::{
    command_wait, disconnected, empty_secs, empty_since, has_shut_down, no_handle,
    resolve_cache_size, Command, DownloadSnapshot, EngineState, LoopClock, TorrentFacts,
    DEFAULT_CACHE_SIZE,
};
use torrentfs::error::TorrentError;
use torrentfs::piece_scheduler::{FilePieceInfo, PiecePriorityToml, TorrentLayout};
use torrentfs::stats::reports::TransferStatus;
use torrentfs::trackers::{merge_lists, MergeOutcome, TrackerEntry};

const SECOND: u64 = 1_000_000_000;

fn engine() -> EngineState {
    EngineState::new(
        Some(1024 * 1024),
        &PiecePriorityToml::default(),
        &TimeoutsConfig::default(),
    )
}

fn layout() -> TorrentLayout {
    TorrentLayout {
        info_hash: vec![0xab, 0xcd],
        piece_length: 100,
        num_pieces: 4,
        total_size: 400,
        file_sizes: Some(vec![400]),
    }
}

fn whole_file() -> Option<FilePieceInfo> {
    Some(FilePieceInfo {
        file_offset: 0,
        first_piece: 0,
        num_pieces: 4,
    })
}

fn tracker(url: &str, tier: u8) -> TrackerEntry {
    TrackerEntry {
        url: url.to_string(),
        tier,
    }
}

#[test]
fn a_handle_is_asked_for_once() {
    let mut e = engine();
    assert_eq!(e.needs_handle(&[0xab, 0xcd]), ("abcd".to_string(), true));
    e.handle_added("abcd", 4, 100, false);
    assert!(e.has_handle("abcd"));
    assert_eq!(e.needs_handle(&[0xab, 0xcd]), ("abcd".to_string(), false));
    assert!(e.remove_handle("abcd"));
    assert!(!e.has_handle("abcd"));
    assert!(!e.remove_handle("abcd"));
    assert_eq!(e.scheduler.num_pieces("abcd"), None);
}

#[test]
fn a_torrent_rests_when_its_last_reader_leaves() {
    let mut e = engine();
    e.handle_added("abcd", 4, 100, false);
    assert_eq!(e.settle_idle_torrents(), vec!["abcd".to_string()]);
    let local = vec![false; 4];
    let (id, _) = e.add_reader(&layout(), whole_file(), 0, 300, 100, &local);
    assert!(e.settle_idle_torrents().is_empty());
    assert!(!e.restores_upload_mode("abcd"));

    let (_, rest) = e.release_reader("abcd", id, &local);
    assert!(!rest, "the last piece is still wanted");
    e.piece_finished("abcd", 3);
    assert!(e.restores_upload_mode("abcd"));
    assert!(!e.restores_upload_mode("beef"));
}

#[test]
fn piece_states_join_the_cache_and_the_readers() {
    let mut e = engine();
    e.handle_added("abcd", 4, 100, false);
    let local = vec![false; 4];
    e.add_reader(&layout(), whole_file(), 0, 200, 100, &local);
    let pieces = e.build_pieces_status("abcd", &vec![Some(5), None, None, None]);
    assert_eq!(pieces.len(), 4);
    assert!(pieces[0].is_cached && pieces[0].hit_count == 5);
    assert!(!pieces[2].is_cached);
    assert_eq!(pieces[2].priority, 7);
    assert_eq!(pieces[3].priority, 6);
}

#[test]
fn a_snapshot_holds_what_was_known() {
    let mut e = engine();
    e.handle_added("abcd", 4, 100, true);
    let status = TransferStatus {
        download_rate: 1,
        upload_rate: 2,
        num_peers: 3,
        num_seeds: 4,
        progress: "5.0".to_string(),
        total: 400,
        total_done: 20,
        total_upload: 0,
        total_download: 20,
    };
    let snapshot = e.publish_snapshot(vec![TorrentFacts {
        info_hash: "abcd".to_string(),
        status: Some(status),
        cached: Some(vec![None, Some(0), None, None]),
    }]);
    assert_eq!(snapshot.torrent_status("abcd").unwrap().num_seeds, 4);
    let (piece_length, pieces) = snapshot.pieces_status("abcd").unwrap();
    assert_eq!(*piece_length, 100);
    assert!(pieces[1].is_cached);
    assert_eq!(snapshot.is_private("abcd"), Some(true));
    assert_eq!(snapshot.is_private("beef"), None);

    let empty = DownloadSnapshot::default();
    assert!(empty.torrent_status("abcd").is_none());
    assert!(empty.pieces_status("abcd").is_none());
}

#[test]
fn private_torrents_keep_their_trackers_apart() {
    let mut e = engine();
    let incoming = Some(vec![tracker("http://new", 0)]);
    let existing = Some(vec![tracker("http://old", 0)]);
    let hash = [0xab, 0xcd];
    assert!(matches!(
        e.merge_trackers(&hash, false, &incoming, &existing),
        MergeOutcome::NoHandle
    ));
    e.handle_added("abcd", 4, 100, false);
    match e.merge_trackers(&hash, false, &incoming, &existing) {
        MergeOutcome::Replace(list) => {
            let urls: Vec<&str> = list.iter().map(|t| t.url.as_str()).collect();
            assert_eq!(urls, vec!["http://old", "http://new"]);
        }
        other => panic!("{other:?}"),
    }
    assert!(matches!(
        e.merge_trackers(&hash, true, &incoming, &existing),
        MergeOutcome::Isolated { existing_private: false, incoming_private: true }
    ));
    assert!(matches!(
        e.merge_trackers(&hash, false, &None, &existing),
        MergeOutcome::Unreadable
    ));
    assert!(matches!(
        e.merge_trackers(&hash, false, &existing, &existing),
        MergeOutcome::NothingNew
    ));
    e.remove_handle("abcd");
    e.handle_added("abcd", 4, 100, true);
    assert!(matches!(
        e.merge_trackers(&hash, false, &incoming, &existing),
        MergeOutcome::Isolated { existing_private: true, incoming_private: false }
    ));
}

#[test]
fn merging_twice_adds_nothing() {
    let a = vec![tracker("x", 0), tracker("y", 1)];
    let b = vec![tracker("y", 0), tracker("z", 2), tracker("z", 3)];
    let once = merge_lists(&a, &b);
    let urls: Vec<(&str, u8)> = once.iter().map(|t| (t.url.as_str(), t.tier)).collect();
    assert_eq!(urls, vec![("x", 0), ("y", 1), ("z", 2)]);
    assert_eq!(merge_lists(&once, &b).len(), 3);
}

#[test]
fn cache_sizes_fall_back_to_one_gibibyte() {
    assert_eq!(resolve_cache_size(None), DEFAULT_CACHE_SIZE);
    assert_eq!(resolve_cache_size(None), 1024 * 1024 * 1024);
    assert_eq!(resolve_cache_size(Some(5)), 5);
}

#[test]
fn engine_failures_have_their_words() {
    for (e, words) in [
        (disconnected(), "Download engine thread disconnected"),
        (has_shut_down(), "Download engine has shut down"),
    ] {
        match e {
            TorrentError::Unknown { code, message } => {
                assert_eq!(code, -1);
                assert_eq!(message, words);
            }
            other => panic!("{other:?}"),
        }
    }
    assert!(matches!(no_handle(), TorrentError::Unknown { code: -1, .. }));
}

#[test]
fn the_loop_keeps_its_intervals() {
    assert_eq!(command_wait(false), SECOND);
    assert_eq!(command_wait(true), SECOND / 5);

    let mut clock = LoopClock::new(0);
    let duties = clock.after_command(true, false, SECOND - 1);
    assert!(!duties.publish && !duties.housekeeping && !duties.refresh_stats);
    let duties = clock.after_command(false, true, SECOND - 1);
    assert!(duties.publish && !duties.housekeeping && duties.refresh_stats);
    let duties = clock.after_timeout(false, SECOND);
    assert!(!duties.publish && duties.housekeeping && duties.refresh_stats);
    let duties = clock.after_timeout(false, 2 * SECOND);
    assert!(duties.publish && duties.housekeeping);

    assert!(Command::Shutdown.stops());
    let read = Command::ReadFileRange {
        info_hash: "abcd".to_string(),
        file_index: 0,
        offset: 0,
        size: 1,
    };
    assert!(read.is_read() && !read.stops());
}

#[test]
fn an_empty_swarm_is_timed_from_its_first_look() {
    let since = empty_since(None, 0, 0, 5 * SECOND);
    assert_eq!(since, Some(5 * SECOND));
    let since = empty_since(since, 0, 0, 9 * SECOND);
    assert_eq!(since, Some(5 * SECOND));
    assert_eq!(empty_secs(since, 20 * SECOND - 1), Some(14));
    assert_eq!(empty_secs(since, 0), Some(0));
    assert_eq!(empty_since(since, 1, 0, 21 * SECOND), None);
    assert_eq!(empty_since(since, 0, 1, 21 * SECOND), None);
    assert_eq!(empty_secs(None, 21 * SECOND), None);
}

#[test]
fn the_configured_priorities_decide_what_a_read_asks_for() {
    let read = |priorities: &PiecePriorityToml, cache_size: Option<i64>| {
        let mut e = EngineState::new(cache_size, priorities, &TimeoutsConfig::default());
        e.handle_added("abcd", 4, 100, false);
        e.add_reader(&layout(), whole_file(), 0, 0, 100, &vec![false; 4]);
        e.scheduler.priorities("abcd").map(|p| p.to_vec())
    };
    // What is not given falls back.
    assert_eq!(
        read(&PiecePriorityToml::default(), Some(1024)),
        Some(vec![7, 6, 5, 4])
    );
    let own = PiecePriorityToml {
        current_priority: Some(5),
        step_priorities: Some([4, 3, 2, 1]),
        ..PiecePriorityToml::default()
    };
    assert_eq!(read(&own, Some(1024)), Some(vec![5, 4, 3, 2]));
    // Two pieces beside the served one fit; what lies past them has its own priority.
    let rest = PiecePriorityToml {
        rest_priority: Some(1),
        ..PiecePriorityToml::default()
    };
    assert_eq!(read(&rest, Some(300)), Some(vec![7, 6, 5, 1]));
    let none = PiecePriorityToml {
        access_window_mb: Some(0),
        ..PiecePriorityToml::default()
    };
    assert_eq!(read(&none, None), Some(vec![7, 0, 0, 0]));
}

#[test]
fn a_read_outside_of_its_torrent_is_not_accepted() {
    let mut e = engine();
    assert!(!e.accepts_reader(&layout(), whole_file(), 0, 0, 100), "not served");
    e.handle_added("abcd", 4, 100, false);
    assert!(e.accepts_reader(&layout(), whole_file(), 0, 0, 100));
    // More pieces than the torrent is known to have.
    let wider = TorrentLayout {
        num_pieces: 5,
        ..layout()
    };
    assert!(!e.accepts_reader(&wider, whole_file(), 0, 0, 100));
    // Offsets that no number holds.
    assert!(!e.accepts_reader(
        &layout(),
        Some(FilePieceInfo {
            file_offset: u64::MAX,
            first_piece: 0,
            num_pieces: 4,
        }),
        0,
        1,
        100
    ));
    e.scheduler.next_read_id = u64::MAX;
    assert!(!e.accepts_reader(&layout(), whole_file(), 0, 0, 100));
}
