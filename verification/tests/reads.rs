use torrentfs::config::timeouts::DEFAULT_READ_TIMEOUT_SECS;
use torrentfs::error::TorrentError;
use torrentfs::read_plan::{
    expected_piece_size, partial_read_bounds, piece_chunk_bounds, prepare_read, read_from_disk,
    ReadPlan,
};
use torrentfs::read_wait::{
    no_peers_message, no_seeder_stderr_hint, piece_wait_window_secs, poll_read,
    cache_stall_hint, read_wait_budget_secs, recheck_requested, start_read, swarm_is_empty,
    Observation, PieceFacts, ReadAction, ReadPhase, ReadStep, ReadWait, StallCause, StatusAnswer,
    SwarmStatus, TorrentState, NANOS,
    NO_SEEDER_FAST_FAIL_SECS, NO_SEEDER_READ_TIMEOUT_SECS,
};

#[test]
fn no_seeder_hint_reports_live_counts() {
    assert_eq!(
        no_seeder_stderr_hint(0, 0, false),
        "no seeder connected (Peers:0 Seeds:0)"
    );
    assert_eq!(
        no_seeder_stderr_hint(3, 0, false),
        "no seeder connected (Peers:3 Seeds:0)"
    );
    assert_eq!(
        no_seeder_stderr_hint(0, 0, true),
        "no seeder connected (Peers:0 Seeds:0, truncated piece re-download)"
    );
}

#[test]
fn no_peers_message_distinguishes_truncated_context() {
    let plain = no_peers_message("abc", 9, 0, false);
    let truncated = no_peers_message("abc", 9, 0, true);
    assert!(plain.contains("check tracker health"));
    assert!(!plain.contains("truncated"));
    assert!(truncated.contains("truncated"));
    assert!(truncated.contains("self-heal"));
    assert_ne!(plain, truncated);
}

#[test]
fn budget_covers_all_slow_path_phases() {
    // 60 (state) + 10 (recheck) + 9 (peers) + 15 (no seeder) + 60 (pieces).
    assert_eq!(read_wait_budget_secs(DEFAULT_READ_TIMEOUT_SECS), 154);
    assert_eq!(read_wait_budget_secs(4), 4 + 4 + 4 + 4 + 4);
    assert_eq!(read_wait_budget_secs(2), 2 + 2 + 2 + 2 + 2);
}

#[test]
fn budget_exceeds_legacy_deadline_for_default_timeout() {
    assert!(read_wait_budget_secs(DEFAULT_READ_TIMEOUT_SECS) > DEFAULT_READ_TIMEOUT_SECS + 5);
}

#[test]
fn no_seeder_piece_wait_caps_at_short_timeout() {
    assert_eq!(
        piece_wait_window_secs(false, false, DEFAULT_READ_TIMEOUT_SECS),
        NO_SEEDER_READ_TIMEOUT_SECS
    );
    assert_eq!(
        piece_wait_window_secs(false, false, 120),
        NO_SEEDER_READ_TIMEOUT_SECS
    );
    assert_eq!(piece_wait_window_secs(false, false, 3), 3);
}

#[test]
fn peer_wait_exhausted_no_seeder_fails_fast() {
    assert_eq!(
        piece_wait_window_secs(false, true, DEFAULT_READ_TIMEOUT_SECS),
        NO_SEEDER_FAST_FAIL_SECS
    );
    assert_eq!(
        piece_wait_window_secs(true, true, DEFAULT_READ_TIMEOUT_SECS),
        DEFAULT_READ_TIMEOUT_SECS
    );
}

#[test]
fn swarm_is_empty_requires_no_peers_and_no_seeds() {
    assert!(swarm_is_empty(0, 0));
    assert!(!swarm_is_empty(1, 0));
    assert!(!swarm_is_empty(0, 1));
    assert!(!swarm_is_empty(3, 2));
}

#[test]
fn seeder_piece_wait_uses_full_timeout() {
    assert_eq!(
        piece_wait_window_secs(true, false, DEFAULT_READ_TIMEOUT_SECS),
        DEFAULT_READ_TIMEOUT_SECS
    );
    assert_eq!(piece_wait_window_secs(true, false, 3), 3);
}

#[test]
fn partial_bounds_none_when_first_piece_missing() {
    assert_eq!(
        partial_read_bounds(4, 3, 262_144, 1_048_576, 2_097_152),
        None
    );
}

#[test]
fn partial_bounds_cover_completed_prefix() {
    assert_eq!(
        partial_read_bounds(4, 5, 262_144, 1_048_576, 2_097_152),
        Some((1_572_864, 524_288))
    );
}

#[test]
fn partial_bounds_clamp_to_request_end() {
    assert_eq!(
        partial_read_bounds(4, 4, 262_144, 1_048_576, 1_200_000),
        Some((1_200_000, 151_424))
    );
    assert_eq!(
        partial_read_bounds(4, 3, 262_144, 1_048_576, 1_200_000),
        None
    );
}

// ── Plans ───────────────────────────────────────────────────────────────────

/// Ten pieces of 100 bytes, the last one 50 bytes short; the file starts at 120
/// and holds 700 bytes.
fn plan(offset: u64, size: u32) -> Result<Option<ReadPlan>, TorrentError> {
    prepare_read(100, 10, 950, 120, 700, offset, size)
}

#[test]
fn a_plan_names_the_pieces_of_its_range() {
    let p = plan(0, 200).unwrap().unwrap();
    assert_eq!(
        p,
        ReadPlan {
            piece_length: 100,
            num_pieces: 10,
            total_size: 950,
            absolute_offset: 120,
            end_offset: 320,
            size: 200,
            start_piece: 1,
            end_piece: 3,
        }
    );
    // The file's end cuts the range.
    let p = plan(650, 200).unwrap().unwrap();
    assert_eq!((p.size, p.end_offset), (50, 820));
    assert_eq!((p.start_piece, p.end_piece), (7, 8));
    // Past the end there is nothing to read, which is no failure.
    assert!(plan(700, 10).unwrap().is_none());
}

#[test]
fn a_request_for_no_bytes_is_an_empty_read() {
    // Within the file, at its start, at its end and past it.
    assert!(plan(10, 0).unwrap().is_none());
    assert!(plan(0, 0).unwrap().is_none());
    assert!(plan(700, 0).unwrap().is_none());
    assert!(plan(701, 0).unwrap().is_none());
    // One byte is the smallest read that is planned.
    let p = plan(10, 1).unwrap().unwrap();
    assert_eq!((p.size, p.absolute_offset, p.end_offset), (1, 130, 131));
    assert_eq!((p.start_piece, p.end_piece), (1, 1));
    // A broken torrent is refused all the same.
    assert!(prepare_read(0, 10, 950, 0, 10, 0, 0).is_err());
}

#[test]
fn a_plan_refuses_a_broken_torrent() {
    match prepare_read(0, 10, 950, 0, 10, 0, 1) {
        Err(TorrentError::InvalidFile(m)) => {
            assert_eq!(m, "Invalid torrent: num_pieces = 10, piece_length = 0")
        }
        other => panic!("{other:?}"),
    }
    match prepare_read(100, 2, 200, 0, 1000, 250, 1) {
        Err(TorrentError::InvalidFile(m)) => assert_eq!(m, "start_piece 2 exceeds num_pieces 2"),
        other => panic!("{other:?}"),
    }
}

fn piece(index: u64, len: usize) -> Vec<u8> {
    (0..len)
        .map(|i| ((index * 100 + i as u64) % 251) as u8)
        .collect()
}

#[test]
fn a_read_gives_the_bytes_of_its_range() {
    let p = plan(0, 200).unwrap().unwrap();
    let pieces = vec![Some(piece(1, 100)), Some(piece(2, 100)), Some(piece(3, 100))];
    let (bytes, fresh) = read_from_disk(&p, &pieces, &vec![true, false, true]);
    let wanted: Vec<u8> = (120u64..320).map(|i| (i % 251) as u8).collect();
    assert_eq!(bytes.unwrap(), wanted);
    assert_eq!(fresh, vec![2]);
}

#[test]
fn a_missing_piece_is_not_ready() {
    let p = plan(0, 200).unwrap().unwrap();
    let pieces = vec![None, Some(piece(2, 100)), Some(piece(3, 100))];
    match read_from_disk(&p, &pieces, &vec![false; 3]).0 {
        Err(TorrentError::PieceNotReady(m)) => assert!(m.contains('1'), "{m}"),
        other => panic!("{other:?}"),
    }
}

#[test]
fn only_the_last_piece_is_short() {
    assert_eq!(expected_piece_size(8, 100, 10, 950), 100);
    assert_eq!(expected_piece_size(9, 100, 10, 950), 50);
}

#[test]
fn a_chunk_is_the_part_of_a_piece_inside_the_range() {
    assert_eq!(piece_chunk_bounds(&[0; 100], 1, 100, 120, 320), Some((20, 100)));
    assert_eq!(piece_chunk_bounds(&[0; 100], 3, 100, 120, 320), Some((0, 20)));
    assert_eq!(piece_chunk_bounds(&[0; 10], 1, 100, 120, 320), None);
}

// ── Waiting ─────────────────────────────────────────────────────────────────

const TIMEOUT: u64 = 60;

fn wanted() -> ReadPlan {
    plan(0, 200).unwrap().unwrap()
}

fn swarm(state: TorrentState, num_peers: i32, num_seeds: i32) -> SwarmStatus {
    SwarmStatus {
        state,
        num_peers,
        num_seeds,
    }
}

fn here() -> PieceFacts {
    PieceFacts {
        have: true,
        stale: false,
        complete: true,
        gone: false,
    }
}

fn absent() -> PieceFacts {
    PieceFacts {
        have: false,
        stale: false,
        complete: false,
        gone: false,
    }
}

fn damaged() -> PieceFacts {
    PieceFacts {
        have: true,
        stale: true,
        complete: false,
        gone: false,
    }
}

fn seen(secs: u64, status: SwarmStatus, pieces: Vec<PieceFacts>) -> Observation {
    Observation {
        now: secs * NANOS,
        stopping: false,
        status: StatusAnswer::Known {
            swarm: status,
            progress: "12.34".to_string(),
        },
        pieces,
        cache_size: 1024,
    }
}

fn start(status: SwarmStatus, pieces: Vec<PieceFacts>) -> (ReadWait, Vec<ReadAction>, ReadStep) {
    start_read(&wanted(), TIMEOUT, status, &seen(0, status, pieces))
}

fn look(w: &mut ReadWait, obs: Observation) -> (Vec<ReadAction>, ReadStep) {
    poll_read(&wanted(), "abc", TIMEOUT, w, Some(obs))
}

#[test]
fn a_read_of_local_pieces_is_served_at_once() {
    let (_, actions, step) = start(swarm(TorrentState::Downloading, 0, 0), vec![here(); 3]);
    assert!(actions.is_empty());
    assert!(matches!(
        step,
        ReadStep::Serve { end_piece: 3, end_offset: 320, size: 200 }
    ));
}

#[test]
fn a_read_on_an_empty_swarm_ends_with_no_peers() {
    let alone = swarm(TorrentState::Downloading, 0, 0);
    let (mut w, actions, step) = start(alone, vec![absent(); 3]);
    assert!(matches!(step, ReadStep::Wait));
    assert_eq!(actions.last(), Some(&ReadAction::Reannounce));
    assert_eq!(w.phase, ReadPhase::PeerWait);

    // Half of the nine seconds later it announces once more.
    let (actions, step) = look(&mut w, seen(5, alone, vec![absent(); 3]));
    assert!(matches!(step, ReadStep::Wait));
    assert!(actions.contains(&ReadAction::Reannounce));
    let (actions, _) = look(&mut w, seen(6, alone, vec![absent(); 3]));
    assert!(!actions.contains(&ReadAction::Reannounce));

    let (actions, step) = look(&mut w, seen(9, alone, vec![absent(); 3]));
    assert!(matches!(step, ReadStep::Wait));
    assert_eq!(w.phase, ReadPhase::PieceWait);
    assert!(w.is_peer_wait_exhausted);
    assert!(actions.contains(&ReadAction::SetDeadline { piece: 2 }));

    // Nobody came: the next look gives up at once.
    let (actions, step) = look(&mut w, seen(9, alone, vec![absent(); 3]));
    assert!(actions.contains(&ReadAction::Hint {
        num_peers: 0,
        num_seeds: 0,
        truncated: false
    }));
    match step {
        ReadStep::Fail(TorrentError::NoPeers(m)) => {
            assert_eq!(m, no_peers_message("abc", 9, 0, false))
        }
        other => panic!("{other:?}"),
    }
}

#[test]
fn a_seeder_that_connects_restarts_the_window() {
    let leech = swarm(TorrentState::Downloading, 1, 0);
    let (mut w, _, _) = start(leech, vec![absent(); 3]);
    assert_eq!(w.phase, ReadPhase::PieceWait);
    let (_, step) = look(&mut w, seen(14, leech, vec![absent(); 3]));
    assert!(matches!(step, ReadStep::Wait));

    let seeded = swarm(TorrentState::Downloading, 1, 1);
    let (_, step) = look(&mut w, seen(14, seeded, vec![absent(); 3]));
    assert!(matches!(step, ReadStep::Wait));
    let (_, step) = look(&mut w, seen(73, seeded, vec![absent(); 3]));
    assert!(matches!(step, ReadStep::Wait));
    let (_, step) = look(&mut w, seen(74, seeded, vec![absent(); 3]));
    match step {
        ReadStep::Fail(TorrentError::Timeout(m)) => assert_eq!(
            m,
            "Timed out waiting for piece 1 after 60s. Torrent progress: 12.34%"
        ),
        other => panic!("{other:?}"),
    }
}

#[test]
fn a_read_that_times_out_serves_the_pieces_that_came() {
    let leech = swarm(TorrentState::Downloading, 1, 0);
    let (mut w, _, _) = start(leech, vec![absent(); 3]);
    let (actions, step) = look(&mut w, seen(3, leech, vec![here(), absent(), absent()]));
    assert!(matches!(step, ReadStep::Wait));
    assert!(actions.contains(&ReadAction::RegisterPiece { piece: 1 }));
    assert_eq!(w.current_piece, 2);
    let (_, step) = look(&mut w, seen(15, leech, vec![here(), absent(), absent()]));
    assert!(matches!(
        step,
        ReadStep::Serve { end_piece: 1, end_offset: 200, size: 80 }
    ));
}

#[test]
fn a_damaged_piece_is_rechecked_before_the_wait() {
    let calm = swarm(TorrentState::Downloading, 1, 0);
    let (mut w, _, step) = start(calm, vec![damaged(), here(), here()]);
    assert!(matches!(step, ReadStep::AskRecheck));
    let (_, step) = recheck_requested(
        &wanted(),
        TIMEOUT,
        &mut w,
        &seen(0, calm, vec![damaged(), here(), here()]),
        true,
    );
    assert!(matches!(step, ReadStep::Wait));
    assert_eq!(w.phase, ReadPhase::Recheck);

    let checking = swarm(TorrentState::CheckingFiles, 1, 0);
    look(&mut w, seen(1, checking, vec![damaged(), here(), here()]));
    assert!(w.saw_checking);
    let (_, step) = look(&mut w, seen(2, calm, vec![absent(), here(), here()]));
    assert!(matches!(step, ReadStep::Wait));
    assert_eq!(w.phase, ReadPhase::PieceWait);

    // The blame falls on the damaged piece.
    let (_, step) = look(&mut w, seen(17, calm, vec![absent(), here(), here()]));
    match step {
        ReadStep::Fail(TorrentError::NoPeers(m)) => assert!(m.contains("truncated"), "{m}"),
        other => panic!("{other:?}"),
    }
}

#[test]
fn a_torrent_that_never_settles_times_out() {
    let checking = swarm(TorrentState::CheckingFiles, 0, 0);
    let (mut w, _, step) = start(checking, vec![absent(); 3]);
    assert!(matches!(step, ReadStep::Wait));
    assert_eq!(w.phase, ReadPhase::WaitState);
    let (_, step) = look(&mut w, seen(60, checking, vec![absent(); 3]));
    assert!(matches!(step, ReadStep::Wait));
    let (_, step) = look(&mut w, seen(61, checking, vec![absent(); 3]));
    match step {
        ReadStep::Fail(TorrentError::Timeout(m)) => {
            assert_eq!(m, "Torrent stuck in state CheckingFiles for 60 seconds")
        }
        other => panic!("{other:?}"),
    }
}

#[test]
fn a_shutdown_or_a_lost_torrent_ends_every_wait() {
    let alone = swarm(TorrentState::Downloading, 0, 0);
    let (mut w, _, _) = start(alone, vec![absent(); 3]);
    let mut obs = seen(1, alone, vec![absent(); 3]);
    obs.stopping = true;
    match look(&mut w, obs).1 {
        ReadStep::Fail(TorrentError::Timeout(m)) => {
            assert_eq!(m, "shutdown requested, read aborted")
        }
        other => panic!("{other:?}"),
    }
    match poll_read(&wanted(), "abc", TIMEOUT, &mut w, None).1 {
        ReadStep::Fail(TorrentError::Unknown { code, message }) => {
            assert_eq!(code, -1);
            assert_eq!(message, "Torrent handle missing");
        }
        other => panic!("{other:?}"),
    }
}

#[test]
fn a_failed_status_request_is_told_apart() {
    let leech = swarm(TorrentState::Downloading, 1, 0);
    let (mut w, _, _) = start(leech, vec![absent(); 3]);
    let obs = Observation {
        now: 15 * NANOS,
        stopping: false,
        status: StatusAnswer::Failed(TorrentError::IoError("gone".to_string())),
        pieces: vec![absent(); 3],
        cache_size: 1024,
    };
    match look(&mut w, obs).1 {
        ReadStep::Fail(TorrentError::Timeout(m)) => assert_eq!(
            m,
            "Timed out waiting for piece 1 after 15s (status unavailable)"
        ),
        other => panic!("{other:?}"),
    }
}

// ── Stalls on the cache ─────────────────────────────────────────────────────

#[test]
fn a_stall_on_the_cache_has_its_words() {
    let head = "read stalled on the on-disk cache (cache_size=1.00 MiB, read span=0.12 MiB, \
                piece the read waits on is gone from cache); raise [cache] cache_size if the \
                cache is evicting data the read needs";
    let hint = |seeds| cache_stall_hint(1_048_576, 131_072, StallCause::PieceGone, seeds);
    assert_eq!(hint(Some(1)), format!("{head}; a seeder is connected"));
    assert_eq!(hint(Some(0)), format!("{head}; no seeder is connected"));
    assert_eq!(hint(None), format!("{head}; whether a seeder is connected is unknown"));
    assert_eq!(
        cache_stall_hint(65_536, 131_072, StallCause::SpanTooLarge, Some(2)),
        "read stalled on the on-disk cache (cache_size=0.06 MiB, read span=0.12 MiB, read span is \
         larger than the cache); raise [cache] cache_size if the cache is evicting data the read \
         needs; a seeder is connected"
    );
}

fn stalls(actions: &[ReadAction]) -> Vec<ReadAction> {
    actions
        .iter()
        .filter(|a| matches!(a, ReadAction::StallHint { .. }))
        .copied()
        .collect()
}

#[test]
fn a_read_that_waits_on_a_lost_piece_blames_the_cache() {
    let seeded = swarm(TorrentState::Downloading, 1, 1);
    let lost = PieceFacts { gone: true, ..absent() };
    let (mut w, actions, _) = start(seeded, vec![lost; 3]);
    assert!(stalls(&actions).is_empty());
    let (actions, step) = look(&mut w, seen(59, seeded, vec![lost; 3]));
    assert!(matches!(step, ReadStep::Wait));
    assert!(stalls(&actions).is_empty());
    let (actions, step) = look(&mut w, seen(60, seeded, vec![lost; 3]));
    assert!(matches!(step, ReadStep::Fail(TorrentError::Timeout(_))));
    assert_eq!(
        stalls(&actions),
        vec![ReadAction::StallHint {
            cache_size: 1024,
            span: 200,
            cause: StallCause::PieceGone,
            seeds: Some(1),
        }]
    );
}

#[test]
fn a_read_larger_than_the_cache_blames_the_cache() {
    let leech = swarm(TorrentState::Downloading, 1, 0);
    let small = |secs, cache_size| Observation {
        cache_size,
        ..seen(secs, leech, vec![absent(); 3])
    };
    let (w, _, _) = start(leech, vec![absent(); 3]);
    let (actions, step) = look(&mut w.clone(), small(15, 199));
    // The missing seeder is told of beside it.
    assert!(matches!(step, ReadStep::Fail(TorrentError::NoPeers(_))));
    assert_eq!(
        stalls(&actions),
        vec![ReadAction::StallHint {
            cache_size: 199,
            span: 200,
            cause: StallCause::SpanTooLarge,
            seeds: Some(0),
        }]
    );
    assert!(matches!(actions.last(), Some(ReadAction::Hint { .. })));
    // A cache that just holds the read is not to blame, nor is any cache when a part
    // of the read can be served.
    assert!(stalls(&look(&mut w.clone(), small(15, 200)).0).is_empty());
    let mut obs = small(15, 199);
    obs.pieces[0] = here();
    let (actions, step) = look(&mut w.clone(), obs);
    assert!(matches!(step, ReadStep::Serve { .. }));
    assert!(stalls(&actions).is_empty());
}
