use torrentfs::db::types::{Torrent, TorrentStatus};
use torrentfs::piece_scheduler::PieceStatus;
use torrentfs::stats::figures::{format_bytes, format_cache_usage, format_num, push_percent};
use torrentfs::stats::pieces::{
    display_status, has_active_reader, has_cached_piece, health_alert, is_download_complete,
    piece_block, piece_downloaded, piece_marker, piece_progress, status_to_english,
    summary_torrent_stats, Progress, HEALTH_ALERT_EMPTY_SWARM_GRACE_SECS,
};
use torrentfs::stats::reports::{
    generate_directory_stats, generate_global_stats, generate_stats, generate_torrent_stats,
    totals_fit,
    shorten_name, CacheShare, PieceSnapshot, TorrentReport, TransferStatus,
};
use torrentfs::stats::sections::{CacheView, MetricsSnapshot, SessionStats, StatusCounts};

#[test]
fn test_format_num_zero() {
    assert_eq!(format_num(0), "0");
}

#[test]
fn test_format_num_single_digit() {
    assert_eq!(format_num(5), "5");
}

#[test]
fn test_format_num_two_digits() {
    assert_eq!(format_num(42), "42");
}

#[test]
fn test_format_num_three_digits() {
    assert_eq!(format_num(999), "999");
}

#[test]
fn test_format_num_thousand() {
    assert_eq!(format_num(1000), "1,000");
}

#[test]
fn test_format_num_ten_thousand() {
    assert_eq!(format_num(10000), "10,000");
}

#[test]
fn test_format_num_hundred_thousand() {
    assert_eq!(format_num(100000), "100,000");
}

#[test]
fn test_format_num_million() {
    assert_eq!(format_num(1000000), "1,000,000");
}

#[test]
fn test_format_num_seven_digits() {
    assert_eq!(format_num(1234567), "1,234,567");
}

#[test]
fn test_format_num_eight_digits() {
    assert_eq!(format_num(12345678), "12,345,678");
}

#[test]
fn test_format_num_nine_digits() {
    assert_eq!(format_num(123456789), "123,456,789");
}

#[test]
fn test_format_num_u64_max() {
    assert_eq!(format_num(u64::MAX), "18,446,744,073,709,551,615");
}

fn piece(priority: i32, is_cached: bool, hit_count: u64) -> PieceStatus {
    PieceStatus {
        priority,
        is_cached,
        hit_count,
    }
}

/// The share of a progress that counts pieces.
fn share(p: &Progress) -> f64 {
    match p {
        Progress::Pieces { total: 0, .. } => 0.0,
        Progress::Pieces { cached, total } => *cached as f64 / *total as f64,
        Progress::Reported(text) => text.parse::<f64>().unwrap() / 100.0,
    }
}

#[test]
fn test_piece_marker_semantics() {
    assert_eq!(piece_marker(&piece(0, true, 0)), "[x]");
    assert_eq!(piece_marker(&piece(0, true, 5)), "[X 5]");
    assert_eq!(piece_marker(&piece(3, false, 0)), "[3]");
    assert_eq!(piece_marker(&piece(0, false, 0)), "[]");
}

#[test]
fn test_piece_progress_empty() {
    assert_eq!(share(&piece_progress(&[])), 0.0);
}

#[test]
fn test_piece_progress_none_cached() {
    let pieces = vec![
        piece(0, false, 0),
        piece(3, false, 0),
        piece(0, false, 0),
        piece(0, false, 0),
    ];
    assert_eq!(share(&piece_progress(&pieces)), 0.0);
}

#[test]
fn test_piece_progress_all_cached() {
    let pieces = vec![piece(0, true, 2), piece(0, true, 0)];
    assert!((share(&piece_progress(&pieces)) - 1.0).abs() < f64::EPSILON);
}

#[test]
fn test_piece_progress_partial() {
    let pieces = vec![
        piece(0, true, 1),
        piece(3, false, 0),
        piece(0, false, 0),
        piece(0, false, 0),
    ];
    assert!((share(&piece_progress(&pieces)) - 0.25).abs() < f64::EPSILON);
}

#[test]
fn test_piece_progress_ignores_priority() {
    let pieces = vec![piece(7, false, 0), piece(7, false, 0)];
    assert_eq!(share(&piece_progress(&pieces)), 0.0);
}

#[test]
fn test_piece_grid_shows_priority_during_active_read() {
    let grid = vec![
        piece(0, true, 0),
        piece(7, false, 0),
        piece(1, false, 0),
        piece(0, false, 0),
    ];
    let rendered: String = grid.iter().map(piece_marker).collect();
    assert_eq!(rendered, "[x][7][1][]");
}

#[test]
fn test_piece_block_has_label_line() {
    let pieces = vec![piece(0, true, 0), piece(7, false, 0)];
    let block = piece_block(256 * 1024, &pieces);
    assert!(block.contains("-- Pieces (2 pieces, 256.00 KB each) --\n"));
    assert!(block.contains("\n  Pieces: [x][7]\n"));
    assert!(block.contains("\n  PieceSize: 256.00 KB\n"));
    assert!(block.contains("\n  PieceCount: 2\n"));
}

#[test]
fn test_piece_block_marker_line_is_contiguous_and_whitespace_free() {
    let pieces = vec![
        piece(0, true, 0),
        piece(0, true, 12),
        piece(7, false, 0),
        piece(0, false, 0),
    ];
    let block = piece_block(256 * 1024, &pieces);
    assert_eq!(
        block,
        "\n-- Pieces (4 pieces, 256.00 KB each) --\n  Pieces: [x][X 12][7][]\n  PieceSize: 256.00 KB\n  PieceCount: 4\n"
    );

    let marker_line = block
        .lines()
        .find(|line| line.starts_with("  Pieces: "))
        .expect("marker line present");
    assert_eq!(marker_line, "  Pieces: [x][X 12][7][]");
    assert!(marker_line.ends_with(']'));
    assert_eq!(marker_line, marker_line.trim_end());
}

// ── Global report ───────────────────────────────────────────────────────────

fn no_counts() -> StatusCounts {
    StatusCounts {
        pending: 0,
        downloading: 0,
        seeding: 0,
        error: 0,
        total: 0,
    }
}

fn global_text(cache: CacheView, metrics: Option<MetricsSnapshot>) -> String {
    let bytes = generate_global_stats(
        1_700_000_000,
        0,
        false,
        no_counts(),
        &vec![],
        None,
        cache,
        "0.0.0.0:6881",
        metrics,
    );
    String::from_utf8(bytes).unwrap()
}

fn plain_global() -> String {
    global_text(CacheView::Absent, None)
}

#[test]
fn test_global_stats_header_present() {
    let text = plain_global();
    assert!(text.contains("torrentfs v0.1.0"));
    assert!(text.contains("-- Overview --"));
}

#[test]
fn test_global_stats_no_torrent_details() {
    assert!(!plain_global().contains("── 种子详情 ──"));
}

#[test]
fn test_global_stats_no_per_infohash_cache() {
    assert!(!plain_global().contains("[info_hash]"));
}

#[test]
fn test_global_stats_renders_eviction_count() {
    let text = global_text(
        CacheView::Open {
            current: 40_000,
            max: 64 * 1024,
            hits: 0,
            misses: 0,
            evictions: 1,
        },
        None,
    );
    assert!(text.contains("Evictions: 1"), "{text}");
}

#[test]
fn test_global_stats_cache_usage_clamped_when_over_budget() {
    let text = global_text(
        CacheView::Open {
            current: 2 * 1024 * 1024,
            max: 1024 * 1024,
            hits: 0,
            misses: 0,
            evictions: 0,
        },
        None,
    );
    assert!(
        text.contains("Cache Usage:  1.00 MB / 1.00 MB (100.0%, 1.00 MB pending eviction)"),
        "{text}"
    );
    assert!(!text.contains("200.0%"), "{text}");
}

#[test]
fn test_generate_stats_is_wrapper() {
    let wrapper = generate_stats(
        1_700_000_000,
        0,
        false,
        no_counts(),
        &vec![],
        None,
        CacheView::Absent,
        "0.0.0.0:6881",
        None,
    );
    assert_eq!(plain_global(), String::from_utf8(wrapper).unwrap());
}

#[test]
fn test_global_stats_ascii_borders() {
    let text = plain_global();
    assert!(text.contains("====="));
    assert!(!text.contains('\u{2550}'));
}

#[test]
fn test_global_stats_english_headers() {
    let text = plain_global();
    assert!(text.contains("-- Overview --"));
    assert!(text.contains("-- Global Rates --"));
    assert!(text.contains("-- Connections --"));
    assert!(text.contains("-- Torrents --"));
    assert!(text.contains("-- Cache --"));
    assert!(text.contains("-- Performance --"));
    assert!(text.contains("-- Observability --"));
}

#[test]
fn test_observability_renders_layered_cache_hit_rate() {
    let mut m = MetricsSnapshot::default();
    m.l1_hits = 40;
    m.l1_misses = 60;
    let text = global_text(CacheView::Absent, Some(m));
    assert!(text.contains("Cache L1 (memory):"), "{text}");
    assert!(text.contains("hit rate 40.0%"), "{text}");
    assert!(text.contains("Cache L2 (disk):"), "{text}");
    assert!(text.contains("Cache L3 (metadata):"), "{text}");
    assert!(text.contains("Deferred reads:"), "{text}");
    assert!(text.contains("Poll hit rate:"), "{text}");
    assert!(text.contains("Download queue:"), "{text}");
    assert!(text.contains("Workers:"), "{text}");
    assert!(text.contains("Lock wait:"), "{text}");
}

#[test]
fn test_global_stats_total_unique_format() {
    let text = plain_global();
    assert!(text.contains("Total: "));
    assert!(text.contains("Unique: "));
}

#[test]
fn session_figures_reach_the_report() {
    let bytes = generate_global_stats(
        1_700_000_061,
        1_700_000_000,
        true,
        StatusCounts {
            pending: 1,
            downloading: 2,
            seeding: 3,
            error: 4,
            total: 10,
        },
        &vec![torrent("a", "h1", 10), torrent("b", "h1", 10), torrent("c", "h2", 5)],
        Some(SessionStats {
            dht_nodes: 11,
            download_rate: 2048,
            upload_rate: 512,
            total_downloaded: 3 * 1024 * 1024,
            total_uploaded: 7,
            peers_connected: 21,
            half_open_connections: 5,
        }),
        CacheView::Locked,
        "127.0.0.1:7000",
        None,
    );
    let text = String::from_utf8(bytes).unwrap();
    assert!(text.contains("127.0.0.1:7000"), "{text}");
    assert!(text.contains("2.00 KB"), "{text}");
    assert!(text.contains("512 B"), "{text}");
    assert!(text.contains("3.00 MB"), "{text}");
    assert!(text.contains("Total: 10"), "{text}");
    assert!(text.contains("Unique: 2"), "{text}");
}

// ── One torrent ─────────────────────────────────────────────────────────────

fn torrent(name: &str, info_hash: &str, total_size: i64) -> Torrent {
    Torrent {
        id: 1,
        torrent_id: 1,
        source_path: "os/linux".to_string(),
        name: name.to_string(),
        filename: format!("{name}.torrent"),
        total_size,
        info_hash: info_hash.to_string(),
        file_count: 1,
        status: TorrentStatus::Pending,
    }
}

fn report(name: &str, info_hash: &str, total_size: i64) -> TorrentReport {
    TorrentReport {
        torrent: torrent(name, info_hash, total_size),
        transfer: None,
        snapshot: None,
        is_private: None,
        empty_swarm_secs: None,
    }
}

fn torrent_text(id: i64, hash: &str, r: Option<&TorrentReport>) -> String {
    String::from_utf8(generate_torrent_stats(id, hash, r, None)).unwrap()
}

#[test]
fn test_torrent_stats_not_found() {
    assert!(torrent_text(999, "deadbeef", None).contains("Torrent not found"));
}

#[test]
fn test_torrent_stats_english_status() {
    let text = torrent_text(1, "abc", None);
    assert!(!text.contains("等待"));
    assert!(!text.contains("下载"));
    assert!(!text.contains("做种"));
    assert!(!text.contains("错误"));
}

#[test]
fn test_torrent_stats_has_title_line() {
    let text = torrent_text(999, "deadbeef", None);
    assert!(text.contains("Torrent not found"), "{text}");
}

#[test]
fn test_torrent_stats_section_headers_present_in_code() {
    assert!(!torrent_text(999, "deadbeef", None).contains("torrentfs v"));
}

#[test]
fn test_torrent_stats_no_version_banner() {
    assert!(!torrent_text(999, "deadbeef", None).contains("torrentfs v0"));
}

#[test]
fn a_torrent_report_shows_its_pieces_and_transfer() {
    let mut r = report("ubuntu", "0123456789abcdef", 1500);
    r.snapshot = Some(PieceSnapshot {
        piece_length: 1024,
        pieces: vec![piece(0, true, 3), piece(7, false, 0)],
    });
    r.transfer = Some(TransferStatus {
        download_rate: 2048,
        upload_rate: 1024,
        num_peers: 4,
        num_seeds: 2,
        progress: "50.0".to_string(),
        total: 1500,
        total_done: 1024,
        total_upload: 10,
        total_download: 1024,
    });
    r.is_private = Some(true);
    let bytes = generate_torrent_stats(
        1,
        "0123456789abcdef",
        Some(&r),
        Some(CacheShare {
            piece_count: 1,
            total_size: 1024,
        }),
    );
    let text = String::from_utf8(bytes).unwrap();
    assert!(text.contains("ubuntu"), "{text}");
    assert!(text.contains("Downloading"), "{text}");
    assert!(text.contains("50.0%"), "{text}");
    assert!(text.contains("[X 3][7]"), "{text}");
    assert!(!text.contains("no connected peers"), "{text}");
}

#[test]
fn an_empty_swarm_is_reported_after_the_grace_time() {
    let mut r = report("ubuntu", "0123456789abcdef", 1500);
    r.transfer = Some(TransferStatus {
        download_rate: 0,
        upload_rate: 0,
        num_peers: 0,
        num_seeds: 0,
        progress: "0.0".to_string(),
        total: 1500,
        total_done: 0,
        total_upload: 0,
        total_download: 0,
    });
    r.empty_swarm_secs = Some(15);
    assert!(torrent_text(1, "0123456789abcdef", Some(&r)).contains("no connected peers"));
    r.empty_swarm_secs = Some(14);
    assert!(!torrent_text(1, "0123456789abcdef", Some(&r)).contains("no connected peers"));
}

// ── One directory ───────────────────────────────────────────────────────────

fn directory_text(path: &str, reports: &Vec<TorrentReport>) -> String {
    String::from_utf8(generate_directory_stats(path, reports, CacheView::Absent)).unwrap()
}

#[test]
fn test_directory_stats_empty_path() {
    assert!(directory_text("/nonexistent", &vec![]).contains("No torrents found"));
}

#[test]
fn test_directory_stats_english_headers() {
    let text = directory_text("/nonexistent", &vec![]);
    assert!(!text.contains("──"));
    assert!(text.contains("No torrents found"));
}

#[test]
fn test_directory_stats_header_format() {
    assert!(directory_text("/test/path", &vec![]).contains("===== directory: /test/path ====="));
}

#[test]
fn test_directory_stats_no_version_banner() {
    assert!(!directory_text("/test/path", &vec![]).contains("torrentfs v0"));
}

#[test]
fn test_directory_stats_has_path_title() {
    assert!(directory_text("/nonexistent", &vec![]).contains("===== directory: /nonexistent ====="));
}

#[test]
fn test_directory_stats_section_headers_empty() {
    assert!(directory_text("/nonexistent", &vec![]).contains("No torrents found"));
}

#[test]
fn test_directory_stats_summary_lists_each_torrent() {
    let reports = vec![report("ubuntu", "hash-u", 1024), report("debian", "hash-d", 2048)];
    let text = directory_text("os/linux", &reports);

    assert!(text.contains("-- Summary --\n"));
    assert!(text.contains("  Torrents: 2  Total Size: 3.00 KB  Downloaded: 0 B\n"));
    assert!(
        text.contains("  ubuntu  Pending  0.0%  0 B / 1.00 KB\n"),
        "{text}"
    );
    assert!(
        text.contains("  debian  Pending  0.0%  0 B / 2.00 KB\n"),
        "{text}"
    );

    let rates = text
        .split("-- Rates --")
        .nth(1)
        .and_then(|rest| rest.split("\n--").next())
        .unwrap();
    assert!(!rates.contains("Torrents:"), "{rates}");
    assert!(text.contains("\n-- Torrents --\n"));
}

#[test]
fn a_private_torrent_is_marked_in_its_directory() {
    let mut r = report("ubuntu", "hash-u", 1024);
    assert!(!directory_text("os/linux", &vec![r.clone()]).contains("🔒"));
    r.is_private = Some(true);
    assert!(directory_text("os/linux", &vec![r]).contains("🔒#1"));
}

#[test]
fn test_name_truncation_utf8_safe() {
    let long_cjk = "这是一个很长的种子文件名测试用例".to_string(); // 16 chars, 48 bytes
    assert!(long_cjk.len() > 40);
    let truncated = shorten_name(&long_cjk);
    assert_eq!(truncated.chars().count(), 16 + 3);
}

#[test]
fn a_long_name_keeps_its_first_characters() {
    let exact = "x".repeat(40);
    assert_eq!(shorten_name(&exact), exact);
    let long = "y".repeat(41);
    assert_eq!(shorten_name(&long), format!("{}...", "y".repeat(37)));
}

// ── Summaries ───────────────────────────────────────────────────────────────

#[test]
fn test_summary_torrent_stats_falls_back_to_status_without_pieces() {
    let (downloaded, progress) = summary_torrent_stats(None, Some(("42.0", 500)), 1024);
    assert_eq!(downloaded, 500);
    assert!((share(&progress) - 0.42).abs() < f64::EPSILON);
}

#[test]
fn test_summary_torrent_stats_sizes_short_final_piece_exactly() {
    let pieces = [piece(0, true, 0), piece(0, true, 0)];
    let (downloaded, progress) =
        summary_torrent_stats(Some((1024, pieces.as_slice())), None, 1500);
    assert_eq!(downloaded, 1500);
    assert!((share(&progress) - 1.0).abs() < f64::EPSILON);
}

#[test]
fn test_summary_torrent_stats_counts_last_piece_remainder() {
    let pieces = [piece(0, false, 0), piece(0, true, 0)];
    let (downloaded, _) = summary_torrent_stats(Some((1024, pieces.as_slice())), None, 1500);
    assert_eq!(downloaded, 476);
}

#[test]
fn test_summary_torrent_stats_prefers_piece_snapshot() {
    let pieces = [piece(0, true, 0)];
    let (downloaded, progress) =
        summary_torrent_stats(Some((1024, pieces.as_slice())), Some(("90.0", 9000)), 1024);
    assert_eq!(downloaded, 1024);
    assert!((share(&progress) - 1.0).abs() < f64::EPSILON);
}

#[test]
fn test_piece_downloaded_empty() {
    assert_eq!(piece_downloaded(&[], 16384), 0);
}

#[test]
fn test_piece_downloaded_zero_piece_length() {
    assert_eq!(piece_downloaded(&[piece(0, true, 0)], 0), 0);
}

#[test]
fn test_piece_downloaded_none_cached() {
    let pieces = vec![piece(0, false, 0), piece(3, false, 0)];
    assert_eq!(piece_downloaded(&pieces, 16384), 0);
}

#[test]
fn test_piece_downloaded_all_cached() {
    let pieces = vec![piece(0, true, 2), piece(0, true, 0)];
    assert_eq!(piece_downloaded(&pieces, 16384), 32768);
}

#[test]
fn test_piece_downloaded_partial() {
    let pieces = vec![
        piece(0, true, 1),
        piece(3, false, 0),
        piece(0, false, 0),
        piece(0, false, 0),
    ];
    assert_eq!(piece_downloaded(&pieces, 262144), 262144);
}

#[test]
fn test_is_download_complete_empty_is_false() {
    assert!(!is_download_complete(&[]));
}

#[test]
fn test_is_download_complete_all_cached() {
    assert!(is_download_complete(&[piece(0, true, 0), piece(0, true, 2)]));
}

#[test]
fn test_is_download_complete_partial() {
    assert!(!is_download_complete(&[piece(0, true, 1), piece(3, false, 0)]));
}

// ── Health ──────────────────────────────────────────────────────────────────

#[test]
fn test_health_alert_zero_peers_zero_seeds() {
    let line = health_alert(0, 0, HEALTH_ALERT_EMPTY_SWARM_GRACE_SECS, false, false)
        .expect("alert should fire at 0/0 after the grace window");
    assert!(!line.contains("tracker may be unreachable"), "{line}");
    assert!(line.contains("no connected peers"), "{line}");
    assert!(line.contains("tracker may be reachable"), "{line}");
}

#[test]
fn test_health_alert_transient_empty_swarm_suppresses() {
    assert!(health_alert(0, 0, HEALTH_ALERT_EMPTY_SWARM_GRACE_SECS - 1, false, false).is_none());
    assert!(health_alert(0, 0, 0, false, false).is_none());
}

#[test]
fn test_health_alert_with_peers() {
    assert!(health_alert(3, 0, HEALTH_ALERT_EMPTY_SWARM_GRACE_SECS, false, false).is_none());
}

#[test]
fn test_health_alert_with_seeds() {
    assert!(health_alert(0, 2, HEALTH_ALERT_EMPTY_SWARM_GRACE_SECS, false, false).is_none());
}

#[test]
fn test_health_alert_both_present() {
    assert!(health_alert(5, 1, HEALTH_ALERT_EMPTY_SWARM_GRACE_SECS, false, false).is_none());
}

#[test]
fn test_health_alert_download_complete_suppresses() {
    assert!(health_alert(0, 0, HEALTH_ALERT_EMPTY_SWARM_GRACE_SECS, true, false).is_none());
}

#[test]
fn test_health_alert_active_download_suppresses() {
    assert!(health_alert(0, 0, HEALTH_ALERT_EMPTY_SWARM_GRACE_SECS, false, true).is_none());
}

#[test]
fn test_has_cached_piece() {
    let pieces = [piece(0, false, 0), piece(0, true, 1)];
    assert!(has_cached_piece(&pieces));
    assert!(!has_cached_piece(&pieces[..1]));
    assert!(!has_cached_piece(&[]));
}

#[test]
fn test_has_active_reader() {
    let pieces = [piece(0, false, 0), piece(7, false, 0)];
    assert!(has_active_reader(&pieces));
    assert!(!has_active_reader(&pieces[..1]));
    assert!(!has_active_reader(&[]));
}

fn snapshot(entries: &[(i32, bool)]) -> Vec<PieceStatus> {
    entries
        .iter()
        .map(|&(priority, is_cached)| piece(priority, is_cached, 0))
        .collect()
}

#[test]
fn test_display_status_tracks_progress_column() {
    let complete = snapshot(&[(0, true), (0, true)]);
    assert_eq!(
        status_to_english(&display_status(&TorrentStatus::Pending, Some(&complete))),
        "Seeding"
    );
    assert_eq!(share(&piece_progress(&complete)), 1.0);

    let partial = snapshot(&[(0, true), (0, false)]);
    assert_eq!(
        status_to_english(&display_status(&TorrentStatus::Pending, Some(&partial))),
        "Downloading"
    );
    let p = share(&piece_progress(&partial));
    assert!(p > 0.0 && p < 1.0);

    let untouched = snapshot(&[(0, false), (0, false)]);
    assert_eq!(
        status_to_english(&display_status(&TorrentStatus::Pending, Some(&untouched))),
        "Pending"
    );
    assert_eq!(share(&piece_progress(&untouched)), 0.0);
}

#[test]
fn test_display_status_active_reader_is_downloading() {
    let wanted = snapshot(&[(7, false)]);
    assert_eq!(
        status_to_english(&display_status(&TorrentStatus::Pending, Some(&wanted))),
        "Downloading"
    );
}

#[test]
fn test_display_status_without_snapshot_keeps_persisted() {
    assert_eq!(
        status_to_english(&display_status(&TorrentStatus::Error, None)),
        "Error"
    );
    assert_eq!(
        status_to_english(&display_status(&TorrentStatus::Pending, None)),
        "Pending"
    );
}

// ── Figures ─────────────────────────────────────────────────────────────────

#[test]
fn sizes_are_written_as_double_precision_writes_them() {
    let mut n: u64 = 1;
    for _ in 0..4000 {
        n = n.wrapping_mul(6364136223846793005).wrapping_add(1442695040888963407);
        for shift in [0, 20, 30, 34, 44] {
            let bytes = n >> shift;
            let wanted = if bytes >= 1 << 30 {
                format!("{:.2} GB", bytes as f64 / (1u64 << 30) as f64)
            } else if bytes >= 1 << 20 {
                format!("{:.2} MB", bytes as f64 / (1u64 << 20) as f64)
            } else if bytes >= 1 << 10 {
                format!("{:.2} KB", bytes as f64 / 1024.0)
            } else {
                format!("{bytes} B")
            };
            assert_eq!(format_bytes(bytes), wanted);
        }
    }
}

#[test]
fn percentages_are_written_as_double_precision_writes_them() {
    let mut n: u64 = 7;
    for _ in 0..4000 {
        n = n.wrapping_mul(6364136223846793005).wrapping_add(1442695040888963407);
        for shift in [1, 17, 40, 54, 60] {
            let whole = (n >> shift) + 1;
            let part = n.rotate_left(29) % (whole + 1);
            let mut text = String::new();
            push_percent(&mut text, part, whole);
            assert_eq!(
                text,
                format!("{:.1}", part as f64 / whole as f64 * 100.0),
                "{part} of {whole}"
            );
        }
    }
    let mut text = String::new();
    push_percent(&mut text, 0, 0);
    assert_eq!(text, "0.0");
}

#[test]
fn cache_usage_never_exceeds_its_limit() {
    assert_eq!(format_cache_usage(512, 1024), "512 B / 1.00 KB (50.0%)");
    assert_eq!(
        format_cache_usage(3072, 1024),
        "1.00 KB / 1.00 KB (100.0%, 2.00 KB pending eviction)"
    );
}

#[test]
fn sums_that_do_not_fit_are_noticed() {
    assert!(totals_fit(&vec![]));
    let two = vec![report("a", "aa", i64::MAX), report("b", "bb", i64::MAX)];
    assert!(totals_fit(&two));
    let three = vec![
        report("a", "aa", i64::MAX),
        report("b", "bb", i64::MAX),
        report("c", "cc", 2),
    ];
    assert!(!totals_fit(&three));
}
