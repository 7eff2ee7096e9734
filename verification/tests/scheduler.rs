use torrentfs::piece_scheduler::{
    clear_ready_piece, decide_priority, effective_window_pieces, gradient_for, resolve_target,
    FilePieceInfo, PiecePriorityConfig, PiecePriorityToml, PieceScheduler, PriorityWrite, ReadId,
    ReadRange, TorrentLayout, DEFAULT_PRIORITY,
};

#[test]
fn default_priority_is_zero() {
    assert_eq!(DEFAULT_PRIORITY, 0);
}

#[test]
fn effective_window_reserves_one_piece() {
    const PIECE: u64 = 256 * 1024;
    // A cache of four pieces leaves a window of three.
    assert_eq!(effective_window_pieces(4096, 4 * PIECE, PIECE), 3);
    // One piece: no prefetch, the served piece stays.
    assert_eq!(effective_window_pieces(4096, PIECE, PIECE), 0);
    assert_eq!(effective_window_pieces(4096, 2 * PIECE, PIECE), 1);
    // Headroom rounds down.
    assert_eq!(effective_window_pieces(4096, 3 * PIECE / 2, PIECE), 0);
    assert_eq!(effective_window_pieces(4096, 5 * PIECE / 2, PIECE), 1);
    // 1 GiB holds 4096 pieces.
    assert_eq!(
        effective_window_pieces(4096, 1024 * 1024 * 1024, PIECE),
        4095
    );
    // A narrow access window wins over the cache.
    assert_eq!(effective_window_pieces(1, 1024 * 1024 * 1024, PIECE), 4);
}

#[test]
fn default_config_matches_design() {
    let c = PiecePriorityConfig::default();
    assert_eq!(c.access_window_mb, 4096);
    assert_eq!(c.current_priority, 7);
    assert_eq!(c.step_priorities, [6, 5, 4, 3]);
    assert_eq!(c.window_edge_priority, 1);
    assert_eq!(c.rest_priority, 0);
}

#[test]
fn forward_gradient_descends_to_edge_then_zero() {
    let c = PiecePriorityConfig::default();
    let (cur_start, cur_end) = (10, 10);
    let window_pieces = 8;

    assert_eq!(decide_priority(&c, 10, cur_start, cur_end, window_pieces), 7);
    assert_eq!(decide_priority(&c, 11, cur_start, cur_end, window_pieces), 6);
    assert_eq!(decide_priority(&c, 12, cur_start, cur_end, window_pieces), 5);
    assert_eq!(decide_priority(&c, 13, cur_start, cur_end, window_pieces), 4);
    assert_eq!(decide_priority(&c, 14, cur_start, cur_end, window_pieces), 3);
    assert_eq!(decide_priority(&c, 15, cur_start, cur_end, window_pieces), 1);
    assert_eq!(decide_priority(&c, 18, cur_start, cur_end, window_pieces), 1);
    assert_eq!(decide_priority(&c, 19, cur_start, cur_end, window_pieces), 0);
}

#[test]
fn forward_step_priorities_are_bounded_by_window() {
    let c = PiecePriorityConfig::default();
    let (cur_start, cur_end) = (10, 10);
    let window_pieces = 2;

    assert_eq!(decide_priority(&c, 11, cur_start, cur_end, window_pieces), 6);
    assert_eq!(decide_priority(&c, 12, cur_start, cur_end, window_pieces), 5);
    assert_eq!(decide_priority(&c, 13, cur_start, cur_end, window_pieces), 0);
    assert_eq!(decide_priority(&c, 14, cur_start, cur_end, window_pieces), 0);
}

#[test]
fn backward_pieces_are_never_prefetched() {
    let c = PiecePriorityConfig::default();
    let (cur_start, cur_end) = (10, 10);
    let window_pieces = 8;

    assert_eq!(decide_priority(&c, 9, cur_start, cur_end, window_pieces), 0);
    assert_eq!(decide_priority(&c, 0, cur_start, cur_end, window_pieces), 0);
}

#[test]
fn from_toml_defaults_and_overrides() {
    let d = PiecePriorityConfig::from_toml(&PiecePriorityToml::default());
    assert_eq!(d.access_window_mb, 4096);
    assert_eq!(d.rest_priority, 0);

    let partial = PiecePriorityToml {
        access_window_mb: Some(2048),
        current_priority: None,
        step_priorities: None,
        window_edge_priority: None,
        rest_priority: None,
        backward_priority: None,
    };
    let p = PiecePriorityConfig::from_toml(&partial);
    assert_eq!(p.access_window_mb, 2048);
    assert_eq!(p.current_priority, 7);
    assert_eq!(p.step_priorities, [6, 5, 4, 3]);

    // The deprecated backward priority is read and ignored.
    let full = PiecePriorityToml {
        access_window_mb: Some(512),
        current_priority: Some(8),
        step_priorities: Some([7, 6, 5, 4]),
        window_edge_priority: Some(2),
        rest_priority: Some(1),
        backward_priority: Some(2),
    };
    let f = PiecePriorityConfig::from_toml(&full);
    assert_eq!(f.access_window_mb, 512);
    assert_eq!(f.current_priority, 8);
    assert_eq!(f.step_priorities, [7, 6, 5, 4]);
    assert_eq!(f.window_edge_priority, 2);
    assert_eq!(f.rest_priority, 1);
}

fn range(id: u64, gradient: Vec<i32>) -> ReadRange {
    ReadRange {
        id: ReadId(id),
        gradient,
    }
}

#[test]
fn resolve_target_unions_active_readers_over_prefetch() {
    let readers = vec![range(0, vec![7, 0, 6, 5]), range(1, vec![0, 3, 0, 0])];
    let prefetch = vec![1, 1, 1, 1];
    let target = resolve_target(&readers, Some(&prefetch), 4).unwrap();
    assert_eq!(target, vec![7, 3, 6, 5]);
}

#[test]
fn resolve_target_falls_back_to_prefetch_when_idle() {
    let prefetch = vec![1, 1, 0, 6, 5, 4, 3];
    let no_readers: &[ReadRange] = &[];
    let target = resolve_target(no_readers, Some(&prefetch), 7).unwrap();
    assert_eq!(target, prefetch);
}

#[test]
fn resolve_target_none_when_nothing_wanted() {
    let no_readers: &[ReadRange] = &[];
    assert_eq!(resolve_target(no_readers, None, 4), None);
}

#[test]
fn clear_ready_piece_zeroes_and_reports_satisfied() {
    let mut pref = vec![1, 6, 5, 4];
    assert!(!clear_ready_piece(&mut pref, 0));
    assert_eq!(pref, vec![0, 6, 5, 4]);
    assert!(!clear_ready_piece(&mut pref, 1));
    assert_eq!(pref, vec![0, 0, 5, 4]);
    assert!(!clear_ready_piece(&mut pref, 2));
    assert_eq!(pref, vec![0, 0, 0, 4]);
    assert!(clear_ready_piece(&mut pref, 3));
    assert_eq!(pref, vec![0, 0, 0, 0]);
}

#[test]
fn clear_ready_piece_ignores_out_of_range_indices() {
    let mut pref = vec![1, 1];
    assert!(!clear_ready_piece(&mut pref, -1));
    assert!(!clear_ready_piece(&mut pref, 2));
    assert_eq!(pref, vec![1, 1]);
}

fn scheduler_of_four() -> PieceScheduler {
    let mut s = PieceScheduler::new(PiecePriorityConfig::default(), 1024 * 1024 * 1024);
    s.init_torrent("hash", 4, 256).unwrap();
    s
}

#[test]
fn concurrent_readers_release_by_id_not_lifo() {
    let mut s = scheduler_of_four();
    s.readers.insert(
        "hash".to_string(),
        vec![range(0, vec![7, 6, 0, 0]), range(1, vec![0, 0, 6, 5])],
    );
    s.next_read_id = 2;
    let local = vec![false; 4];

    // The first reader finishes while the second still waits.
    s.reader_released("hash", ReadId(0), &local);
    assert_eq!(s.readers.get("hash").map(|r| r.len()), Some(1));
    assert_eq!(s.elevated_pieces("hash"), vec![2, 3]);

    // The last reader's own gradient is kept as the prefetch window.
    s.reader_released("hash", ReadId(1), &local);
    assert_eq!(s.readers.get("hash").map(|r| r.len()), Some(0));
    assert_eq!(s.prefetch.get("hash").cloned(), Some(vec![0, 0, 6, 5]));
}

#[test]
fn release_of_unknown_id_leaves_other_readers_alone() {
    let mut s = scheduler_of_four();
    s.readers
        .insert("hash".to_string(), vec![range(7, vec![0, 0, 6, 5])]);
    s.next_read_id = 8;
    let local = vec![false; 4];

    s.reader_released("hash", ReadId(3), &local);
    assert_eq!(s.readers.get("hash").map(|r| r.len()), Some(1));
    assert_eq!(s.elevated_pieces("hash"), vec![2, 3]);
    assert!(s.prefetch.get("hash").is_none());
}

// ── A torrent of eight pieces of 100 bytes ──────────────────────────────────

fn layout() -> TorrentLayout {
    TorrentLayout {
        info_hash: vec![0xab, 0xcd],
        piece_length: 100,
        num_pieces: 8,
        total_size: 750,
        file_sizes: Some(vec![750]),
    }
}

fn whole_file() -> Option<FilePieceInfo> {
    Some(FilePieceInfo {
        file_offset: 0,
        first_piece: 0,
        num_pieces: 8,
    })
}

#[test]
fn a_read_wants_its_pieces_and_those_ahead() {
    let c = PiecePriorityConfig::default();
    let gradient = gradient_for(&c, 1024 * 1024, &layout(), whole_file(), 0, 150, 100);
    assert_eq!(gradient, Some(vec![0, 7, 7, 6, 5, 4, 3, 1]));
    // Without the file's place in the torrent there is nothing to want.
    assert_eq!(gradient_for(&c, 1024 * 1024, &layout(), None, 0, 150, 100), None);
}

#[test]
fn prefetch_stays_within_the_cache() {
    let c = PiecePriorityConfig::default();
    // A cache of three pieces: the served one and two ahead.
    let gradient = gradient_for(&c, 300, &layout(), whole_file(), 0, 0, 100);
    assert_eq!(gradient, Some(vec![7, 6, 5, 0, 0, 0, 0, 0]));
}

fn eight() -> PieceScheduler {
    let mut s = PieceScheduler::new(PiecePriorityConfig::default(), 1024 * 1024);
    s.init_torrent("abcd", 8, 100).unwrap();
    s
}

#[test]
fn adding_a_reader_writes_the_priorities_that_changed() {
    let mut s = eight();
    let local = vec![false; 8];
    let (id, writes) = s.reader_added(&layout(), whole_file(), 0, 600, 100, &local);
    assert_eq!(id, ReadId(0));
    assert_eq!(
        writes,
        vec![
            PriorityWrite::One { piece: 6, priority: 7 },
            PriorityWrite::One { piece: 7, priority: 6 },
        ]
    );
    assert_eq!(s.priorities("abcd"), Some(&[0, 0, 0, 0, 0, 0, 7, 6][..]));
    assert_eq!(s.get_piece_priority("abcd", 6), 7);
    assert_eq!(s.get_piece_priority("abcd", 8), 0);
    assert!(!s.is_idle("abcd"));
}

#[test]
fn pieces_on_disk_are_not_wanted() {
    let mut s = eight();
    let mut local = vec![false; 8];
    local[6] = true;
    s.reader_added(&layout(), whole_file(), 0, 600, 100, &local);
    assert_eq!(s.elevated_pieces("abcd"), vec![7]);
}

#[test]
fn releasing_the_only_reader_keeps_its_prefetch_until_the_pieces_arrive() {
    let mut s = eight();
    let local = vec![false; 8];
    let (id, _) = s.reader_added(&layout(), whole_file(), 0, 600, 150, &local);
    s.reader_released("abcd", id, &local);
    assert_eq!(s.elevated_pieces("abcd"), vec![6, 7]);
    assert!(!s.is_idle("abcd"));

    s.piece_ready("abcd", 6);
    assert_eq!(s.elevated_pieces("abcd"), vec![7]);
    s.piece_ready("abcd", 7);
    assert_eq!(s.elevated_pieces("abcd"), Vec::<i32>::new());
    assert!(s.is_idle("abcd"));
}

#[test]
fn an_evicted_piece_is_asked_for_again() {
    let mut s = eight();
    let mut local = vec![false; 8];
    local[6] = true;
    s.reader_added(&layout(), whole_file(), 0, 600, 100, &local);
    assert_eq!(s.elevated_pieces("abcd"), vec![7]);
    local[6] = false;
    let writes = s.piece_evicted("abcd", &local).unwrap();
    assert_eq!(writes, vec![PriorityWrite::One { piece: 6, priority: 7 }]);
    assert_eq!(s.elevated_pieces("abcd"), vec![6, 7]);
}

#[test]
fn a_dirty_torrent_is_written_whole() {
    let mut s = eight();
    let local = vec![false; 8];
    s.reader_added(&layout(), whole_file(), 0, 600, 100, &local);
    assert_eq!(s.recompute("abcd", &local), vec![]);
    s.mark_priorities_dirty("abcd");
    let writes = s.recompute("abcd", &local);
    assert!(!writes.is_empty());
    assert_eq!(s.recompute("abcd", &local), vec![]);
}

#[test]
fn torrents_do_not_touch_each_other() {
    let mut s = eight();
    s.init_torrent("beef", 2, 100).unwrap();
    let local = vec![false; 8];
    s.reader_added(&layout(), whole_file(), 0, 0, 100, &local);
    assert_eq!(s.priorities("beef"), Some(&[0, 0][..]));
    assert!(s.is_idle("beef"));
    s.remove_torrent("abcd");
    assert_eq!(s.num_pieces("abcd"), None);
    assert_eq!(s.num_pieces("beef"), Some(2));
    assert_eq!(s.piece_length("beef"), Some(100));
}

#[test]
fn a_torrent_without_pieces_is_not_tracked() {
    let mut s = PieceScheduler::new(PiecePriorityConfig::default(), 1024);
    assert!(s.init_torrent("none", 0, 100).is_ok());
    assert!(s.init_torrent("none", -1, 100).is_ok());
    assert_eq!(s.num_pieces("none"), None);
    assert_eq!(s.priorities("none"), None);
    assert_eq!(s.piece_evicted("none", &vec![]).unwrap(), vec![]);
}

#[test]
fn a_torrent_wants_nothing_before_it_is_read() {
    let mut s = eight();
    assert!(s.elevated_pieces("abcd").is_empty());
    s.recompute("abcd", &vec![false; 8]);
    assert_eq!(s.priorities("abcd"), Some(&[0; 8][..]));
    assert!(s.is_idle("abcd"));
}
