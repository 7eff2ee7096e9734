//! What the `.stats` of one torrent and of a directory tell.
use vstd::prelude::*;

use crate::db::types::{Torrent, TorrentStatus};
use crate::piece_scheduler::PieceStatus;
use crate::stats::figures;
use crate::stats::pieces;
use crate::stats::report_laws::{lemma_footer_keeps, lemma_shows_last, lemma_shows_more, shows};
use crate::stats::reports;
use crate::stats::reports::{CacheShare, PieceSnapshot, TorrentReport, TransferStatus};
use crate::stats::sections::CacheView;
use crate::text;

verus! {

// ── Each part keeps what stands before it ───────────────────────────────────

proof fn lemma_status_keeps(out: Seq<char>, r: TorrentReport)
    ensures
        forall|p: Seq<char>| shows(out, p) ==> #[trigger] shows(
            reports::with_torrent_status(out, r),
            p,
        ),
{
    broadcast use lemma_shows_more;

}

proof fn lemma_peers_keeps(out: Seq<char>, r: TorrentReport)
    ensures
        forall|p: Seq<char>| shows(out, p) ==> #[trigger] shows(
            reports::with_torrent_peers(out, r),
            p,
        ),
{
    broadcast use lemma_shows_more;

}

proof fn lemma_block_keeps(out: Seq<char>, piece_length: u64, p: Seq<PieceStatus>)
    ensures
        forall|q: Seq<char>| shows(out, q) ==> #[trigger] shows(
            pieces::with_piece_block(out, piece_length, p),
            q,
        ),
{
    broadcast use lemma_shows_more;

}

proof fn lemma_info_keeps(out: Seq<char>, r: TorrentReport, cache: Option<CacheShare>)
    ensures
        forall|p: Seq<char>| shows(out, p) ==> #[trigger] shows(
            reports::with_torrent_info(out, r, cache),
            p,
        ),
{
    broadcast use lemma_shows_more;

}

/// What stands before a part of a torrent's `.stats` is in the whole text.
proof fn lemma_torrent_keeps(r: TorrentReport, cache: Option<CacheShare>)
    ensures
        ({
            let s0 = "===== torrent: "@ + r.torrent.name@ + " =====\n\n"@;
            let s1 = reports::with_torrent_status(s0, r);
            let s2 = reports::with_torrent_peers(s1, r);
            let s3 = match r.snapshot {
                Some(snap) => if snap.pieces@.len() > 0 {
                    pieces::with_piece_block(s2, snap.piece_length, snap.pieces@)
                } else {
                    s2
                },
                None => s2,
            };
            let s4 = reports::with_torrent_info(s3, r, cache);
            forall|p: Seq<char>|
                (shows(s0, p) || shows(s1, p) || shows(s2, p) || shows(s3, p) || shows(s4, p))
                    ==> #[trigger] shows(reports::torrent_text(r, cache), p)
        }),
{
    let s0 = "===== torrent: "@ + r.torrent.name@ + " =====\n\n"@;
    lemma_status_keeps(s0, r);
    let s1 = reports::with_torrent_status(s0, r);
    lemma_peers_keeps(s1, r);
    let s2 = reports::with_torrent_peers(s1, r);
    let s3 = match r.snapshot {
        Some(snap) => {
            lemma_block_keeps(s2, snap.piece_length, snap.pieces@);
            if snap.pieces@.len() > 0 {
                pieces::with_piece_block(s2, snap.piece_length, snap.pieces@)
            } else {
                s2
            }
        },
        None => s2,
    };
    lemma_info_keeps(s3, r, cache);
    lemma_footer_keeps(reports::with_torrent_info(s3, r, cache));
}

/// What is said of the trackers of a torrent.
pub open spec fn isolation_words(r: TorrentReport) -> Seq<char> {
    if r.is_private == Some(true) {
        "isolated (no cross-site merge)"@
    } else {
        "merge-eligible"@
    }
}

// ── Each part shows its own numbers ─────────────────────────────────────────

/// The status and transfer lines.
proof fn lemma_status_show(out: Seq<char>, r: TorrentReport, t: TransferStatus, done: int)
    requires
        r.transfer == Some(t),
        done == (match r.snapshot {
            Some(s) => pieces::cached_count(s.pieces@, s.pieces@.len()) * s.piece_length,
            None => t.total_done as int,
        }),
    ensures
        ({
            let s = reports::with_torrent_status(out, r);
            &&& shows(s, "  Name: "@ + r.torrent.name@ + "\n"@)
            &&& shows(s, "  Status: "@ + pieces::english(r.status()) + "  Progress: "@)
            &&& shows(s, "  Progress: "@ + r.percent() + "%  Size: "@)
            &&& shows(s, "%  Size: "@ + figures::bytes_text(r.torrent.total_size as u64) + "\n"@)
            &&& shows(s, "  DL: "@ + figures::bytes_text(done as u64) + "  UL: "@)
            &&& shows(s, "  UL: "@ + figures::bytes_text(t.total_upload as u64) + "  Ratio: "@)
            &&& shows(
                s,
                "  Ratio: "@ + reports::share_text(t.total_upload, t.total_download) + "\n"@,
            )
        }),
{
    broadcast use lemma_shows_more;

    let s0 = out + "-- Status --\n"@;
    lemma_shows_last(s0, "  Name: "@, r.torrent.name@, "\n"@);
    let s1 = s0 + "  Name: "@ + r.torrent.name@ + "\n"@;
    lemma_shows_last(s1, "  Status: "@, pieces::english(r.status()), "  Progress: "@);
    let s2 = s1 + "  Status: "@ + pieces::english(r.status());
    lemma_shows_last(s2, "  Progress: "@, r.percent(), "%  Size: "@);
    let s3 = s2 + "  Progress: "@ + r.percent();
    lemma_shows_last(s3, "%  Size: "@, figures::bytes_text(r.torrent.total_size as u64), "\n"@);
    let s4 = s3 + "%  Size: "@ + figures::bytes_text(r.torrent.total_size as u64) + "\n"@;
    lemma_shows_last(s4, "  DL: "@, figures::bytes_text(done as u64), "  UL: "@);
    let s5 = s4 + "  DL: "@ + figures::bytes_text(done as u64);
    lemma_shows_last(s5, "  UL: "@, figures::bytes_text(t.total_upload as u64), "  Ratio: "@);
    let s6 = s5 + "  UL: "@ + figures::bytes_text(t.total_upload as u64);
    lemma_shows_last(
        s6,
        "  Ratio: "@,
        reports::share_text(t.total_upload, t.total_download),
        "\n"@,
    );
}

/// The rates and peers.
proof fn lemma_peers_show(out: Seq<char>, r: TorrentReport, t: TransferStatus)
    requires
        r.transfer == Some(t),
    ensures
        ({
            let s = reports::with_torrent_peers(out, r);
            &&& shows(s, "  Rate: ↓ "@ + figures::bytes_text(t.download_rate as u64) + "/s  ↑ "@)
            &&& shows(s, "/s  ↑ "@ + figures::bytes_text(t.upload_rate as u64) + "/s\n"@)
            &&& shows(s, "  Peers: "@ + text::dec_int(t.num_peers as int) + "  Seeds: "@)
            &&& shows(s, "  Seeds: "@ + text::dec_int(t.num_seeds as int) + "\n"@)
        }),
{
    broadcast use lemma_shows_more;

    let s0 = out + "\n-- Rates --\n"@;
    lemma_shows_last(s0, "  Rate: ↓ "@, figures::bytes_text(t.download_rate as u64), "/s  ↑ "@);
    let s1 = s0 + "  Rate: ↓ "@ + figures::bytes_text(t.download_rate as u64);
    lemma_shows_last(s1, "/s  ↑ "@, figures::bytes_text(t.upload_rate as u64), "/s\n"@);
    let s2 = s1 + "/s  ↑ "@ + figures::bytes_text(t.upload_rate as u64) + "/s\n"@
        + "\n-- Peers --\n"@;
    lemma_shows_last(s2, "  Peers: "@, text::dec_int(t.num_peers as int), "  Seeds: "@);
    let s3 = s2 + "  Peers: "@ + text::dec_int(t.num_peers as int);
    lemma_shows_last(s3, "  Seeds: "@, text::dec_int(t.num_seeds as int), "\n"@);
}

/// The block about the pieces.
proof fn lemma_block_show(out: Seq<char>, piece_length: u64, p: Seq<PieceStatus>)
    ensures
        ({
            let s = pieces::with_piece_block(out, piece_length, p);
            &&& shows(s, "\n-- Pieces ("@ + text::dec(p.len()) + " pieces, "@)
            &&& shows(
                s,
                " pieces, "@ + figures::bytes_text(piece_length) + " each) --\n  Pieces: "@,
            )
            &&& shows(s, " each) --\n  Pieces: "@ + pieces::markers_text(p, p.len()) + "\n"@)
            &&& shows(s, "  PieceSize: "@ + figures::bytes_text(piece_length) + "\n  PieceCount: "@)
            &&& shows(s, "\n  PieceCount: "@ + text::dec(p.len()) + "\n"@)
        }),
{
    broadcast use lemma_shows_more;

    let s0 = out;
    lemma_shows_last(s0, "\n-- Pieces ("@, text::dec(p.len()), " pieces, "@);
    let s1 = s0 + "\n-- Pieces ("@ + text::dec(p.len());
    lemma_shows_last(s1, " pieces, "@, figures::bytes_text(piece_length), " each) --\n  Pieces: "@);
    let s2 = s1 + " pieces, "@ + figures::bytes_text(piece_length);
    lemma_shows_last(s2, " each) --\n  Pieces: "@, pieces::markers_text(p, p.len()), "\n"@);
    let s3 = s2 + " each) --\n  Pieces: "@ + pieces::markers_text(p, p.len()) + "\n"@;
    lemma_shows_last(s3, "  PieceSize: "@, figures::bytes_text(piece_length), "\n  PieceCount: "@);
    let s4 = s3 + "  PieceSize: "@ + figures::bytes_text(piece_length);
    lemma_shows_last(s4, "\n  PieceCount: "@, text::dec(p.len()), "\n"@);
}

/// The last lines.
proof fn lemma_info_show(out: Seq<char>, r: TorrentReport, cache: Option<CacheShare>)
    ensures
        ({
            let s = reports::with_torrent_info(out, r, cache);
            &&& shows(s, "info_hash: "@ + r.torrent.info_hash@ + "\n"@)
            &&& shows(s, "source_path: \""@ + r.torrent.source_path@ + "\"\n"@)
            &&& shows(
                s,
                "private: "@ + (if r.is_private == Some(true) { "yes"@ } else { "no"@ })
                    + "  tracker_isolation: "@,
            )
            &&& shows(
                s,
                "  tracker_isolation: "@
                    + isolation_words(r)
                    + "\n"@,
            )
            &&& cache matches Some(share) ==> shows(
                s,
                "Cache: "@ + text::dec(share.piece_count as nat) + " pieces  "@,
            ) && shows(s, " pieces  "@ + figures::bytes_text(share.total_size) + "\n"@)
        }),
{
    broadcast use lemma_shows_more;

    let c = match cache {
        Some(share) => out + "Cache: "@ + text::dec(share.piece_count as nat) + " pieces  "@
            + figures::bytes_text(share.total_size) + "\n"@,
        None => out,
    };
    if let Some(share) = cache {
        lemma_shows_last(out, "Cache: "@, text::dec(share.piece_count as nat), " pieces  "@);
        lemma_shows_last(
            out + "Cache: "@ + text::dec(share.piece_count as nat),
            " pieces  "@,
            figures::bytes_text(share.total_size),
            "\n"@,
        );
    }
    let s0 = c;
    lemma_shows_last(s0, "info_hash: "@, r.torrent.info_hash@, "\n"@);
    let s1 = s0 + "info_hash: "@ + r.torrent.info_hash@ + "\n"@;
    lemma_shows_last(s1, "source_path: \""@, r.torrent.source_path@, "\"\n"@);
    let s2 = s1 + "source_path: \""@ + r.torrent.source_path@ + "\"\n"@;
    lemma_shows_last(
        s2,
        "private: "@,
        (if r.is_private == Some(true) { "yes"@ } else { "no"@ }),
        "  tracker_isolation: "@,
    );
    let s3 = s2 + "private: "@ + (if r.is_private == Some(true) { "yes"@ } else { "no"@ });
    lemma_shows_last(
        s3,
        "  tracker_isolation: "@,
        isolation_words(r),
        "\n"@,
    );
}

// ── Laws on one torrent ─────────────────────────────────────────────────────

/// The numbers of a transfer stand behind their own labels: the download rate
/// behind the arrow down, the upload rate behind the arrow up, and peers and
/// seeds apart.
pub proof fn law_transfer_is_shown(r: TorrentReport, t: TransferStatus, cache: Option<CacheShare>)
    requires
        r.transfer == Some(t),
    ensures
        ({
            let s = reports::torrent_text(r, cache);
            &&& shows(s, "  Rate: ↓ "@ + figures::bytes_text(t.download_rate as u64) + "/s  ↑ "@)
            &&& shows(s, "/s  ↑ "@ + figures::bytes_text(t.upload_rate as u64) + "/s\n"@)
            &&& shows(s, "  Peers: "@ + text::dec_int(t.num_peers as int) + "  Seeds: "@)
            &&& shows(s, "  Seeds: "@ + text::dec_int(t.num_seeds as int) + "\n"@)
            &&& shows(s, "  UL: "@ + figures::bytes_text(t.total_upload as u64) + "  Ratio: "@)
            &&& shows(
                s,
                "  Ratio: "@ + reports::share_text(t.total_upload, t.total_download) + "\n"@,
            )
        }),
{
    lemma_torrent_keeps(r, cache);
    let s0 = "===== torrent: "@ + r.torrent.name@ + " =====\n\n"@;
    let done = match r.snapshot {
        Some(s) => pieces::cached_count(s.pieces@, s.pieces@.len()) * s.piece_length,
        None => t.total_done as int,
    };
    lemma_status_show(s0, r, t, done);
    lemma_peers_show(reports::with_torrent_status(s0, r), r, t);
}

/// A torrent without pieces at hand shows the status that the database holds, and
/// the progress and the bytes that its transfer reports.
pub proof fn law_torrent_without_pieces_shows_the_report(
    r: TorrentReport,
    t: TransferStatus,
    cache: Option<CacheShare>,
)
    requires
        r.transfer == Some(t),
        r.snapshot is None,
        t.total > 0,
    ensures
        ({
            let s = reports::torrent_text(r, cache);
            &&& shows(s, "  DL: "@ + figures::bytes_text(t.total_done) + "  UL: "@)
            &&& shows(s, "  Progress: "@ + t.progress@ + "%  Size: "@)
            &&& r.torrent.status == TorrentStatus::Pending ==> shows(
                s,
                "  Status: "@ + "Pending"@ + "  Progress: "@,
            )
            &&& r.torrent.status == TorrentStatus::Downloading ==> shows(
                s,
                "  Status: "@ + "Downloading"@ + "  Progress: "@,
            )
            &&& r.torrent.status == TorrentStatus::Seeding ==> shows(
                s,
                "  Status: "@ + "Seeding"@ + "  Progress: "@,
            )
            &&& r.torrent.status == TorrentStatus::Error ==> shows(
                s,
                "  Status: "@ + "Error"@ + "  Progress: "@,
            )
        }),
{
    lemma_torrent_keeps(r, cache);
    let s0 = "===== torrent: "@ + r.torrent.name@ + " =====\n\n"@;
    lemma_status_show(s0, r, t, t.total_done as int);
}

/// A torrent with pieces at hand shows what they say: the bytes and the share of
/// those that are cached, and a status that goes with them.
pub proof fn law_torrent_with_pieces_shows_them(
    r: TorrentReport,
    t: TransferStatus,
    snap: PieceSnapshot,
    cache: Option<CacheShare>,
)
    requires
        r.transfer == Some(t),
        r.snapshot == Some(snap),
        t.total > 0,
        r.wf(),
    ensures
        ({
            let s = reports::torrent_text(r, cache);
            let p = snap.pieces@;
            let cached = p.filter(|x: PieceStatus| x.is_cached).len();
            &&& shows(
                s,
                "  DL: "@ + figures::bytes_text((cached * snap.piece_length) as u64) + "  UL: "@,
            )
            &&& shows(
                s,
                "  Progress: "@ + figures::percent_text(cached as u64, p.len() as u64)
                    + "%  Size: "@,
            )
            &&& p.len() > 0 && (forall|i: int| 0 <= i < p.len() ==> (#[trigger] p[i]).is_cached)
                ==> shows(s, "  Status: "@ + "Seeding"@ + "  Progress: "@)
            &&& (forall|i: int|
                0 <= i < p.len() ==> !(#[trigger] p[i]).is_cached && p[i].priority == 0)
                ==> shows(s, "  Status: "@ + "Pending"@ + "  Progress: "@)
            &&& (exists|i: int| 0 <= i < p.len() && !(#[trigger] p[i]).is_cached) && (exists|i: int|
                0 <= i < p.len() && ((#[trigger] p[i]).is_cached || p[i].priority > 0)) ==> shows(
                s,
                "  Status: "@ + "Downloading"@ + "  Progress: "@,
            )
        }),
{
    let p = snap.pieces@;
    lemma_torrent_keeps(r, cache);
    let s0 = "===== torrent: "@ + r.torrent.name@ + " =====\n\n"@;
    lemma_status_show(s0, r, t, pieces::cached_count(p, p.len()) * snap.piece_length);
    law_cached_pieces_are_counted(p);
}

/// The pieces that count as cached are those that are.
pub proof fn law_cached_pieces_are_counted(p: Seq<PieceStatus>)
    ensures
        pieces::cached_count(p, p.len()) == p.filter(|x: PieceStatus| x.is_cached).len(),
{
    lemma_counted(p, p.len());
    assert(p.take(p.len() as int) =~= p);
}

proof fn lemma_counted(p: Seq<PieceStatus>, n: nat)
    requires
        n <= p.len(),
    ensures
        pieces::cached_count(p, n) == p.take(n as int).filter(
            |x: PieceStatus| x.is_cached,
        ).len(),
    decreases n,
{
    reveal(Seq::filter);
    if n > 0 {
        lemma_counted(p, (n - 1) as nat);
        assert(p.take(n as int).drop_last() =~= p.take(n - 1));
    }
}

/// A torrent's `.stats` names the torrent, where it lies and whether it is kept
/// to its own trackers, and what the cache holds of it.
pub proof fn law_torrent_is_named(r: TorrentReport, t: TransferStatus, cache: Option<CacheShare>)
    requires
        r.transfer == Some(t),
    ensures
        ({
            let s = reports::torrent_text(r, cache);
            &&& shows(s, "  Name: "@ + r.torrent.name@ + "\n"@)
            &&& shows(s, "%  Size: "@ + figures::bytes_text(r.torrent.total_size as u64) + "\n"@)
            &&& shows(s, "info_hash: "@ + r.torrent.info_hash@ + "\n"@)
            &&& shows(s, "source_path: \""@ + r.torrent.source_path@ + "\"\n"@)
            &&& r.is_private == Some(true) ==> shows(
                s,
                "private: "@ + "yes"@ + "  tracker_isolation: "@,
            )
            &&& r.is_private != Some(true) ==> shows(
                s,
                "private: "@ + "no"@ + "  tracker_isolation: "@,
            )
            &&& shows(s, "  tracker_isolation: "@ + isolation_words(r) + "\n"@)
            &&& cache matches Some(share) ==> shows(
                s,
                "Cache: "@ + text::dec(share.piece_count as nat) + " pieces  "@,
            ) && shows(s, " pieces  "@ + figures::bytes_text(share.total_size) + "\n"@)
        }),
{
    lemma_torrent_keeps(r, cache);
    let s0 = "===== torrent: "@ + r.torrent.name@ + " =====\n\n"@;
    let done = match r.snapshot {
        Some(s) => pieces::cached_count(s.pieces@, s.pieces@.len()) * s.piece_length,
        None => t.total_done as int,
    };
    lemma_status_show(s0, r, t, done);
    let s2 = reports::with_torrent_peers(reports::with_torrent_status(s0, r), r);
    let s3 = match r.snapshot {
        Some(snap) => if snap.pieces@.len() > 0 {
            pieces::with_piece_block(s2, snap.piece_length, snap.pieces@)
        } else {
            s2
        },
        None => s2,
    };
    lemma_info_show(s3, r, cache);
}

/// The block about the pieces gives their number and length, and one marker for
/// each piece in order.
pub proof fn law_pieces_are_shown(
    r: TorrentReport,
    snap: PieceSnapshot,
    cache: Option<CacheShare>,
    i: int,
)
    requires
        r.snapshot == Some(snap),
        0 <= i < snap.pieces@.len(),
    ensures
        ({
            let s = reports::torrent_text(r, cache);
            let p = snap.pieces@;
            let marks = pieces::markers_text(p, p.len());
            let before = pieces::markers_text(p, i as nat);
            let mark = if p[i].is_cached && p[i].hit_count > 0 {
                "[X "@ + text::dec(p[i].hit_count as nat) + "]"@
            } else if p[i].is_cached {
                "[x]"@
            } else if p[i].priority > 0 {
                "["@ + text::dec(p[i].priority as nat) + "]"@
            } else {
                "[]"@
            };
            &&& shows(s, "\n-- Pieces ("@ + text::dec(p.len()) + " pieces, "@)
            &&& shows(
                s,
                " pieces, "@ + figures::bytes_text(snap.piece_length) + " each) --\n  Pieces: "@,
            )
            &&& shows(s, " each) --\n  Pieces: "@ + marks + "\n"@)
            &&& (before + mark).is_prefix_of(marks)
            &&& i == 0 ==> before.len() == 0
            &&& i + 1 == p.len() ==> marks == before + mark
        }),
{
    lemma_torrent_keeps(r, cache);
    let s0 = "===== torrent: "@ + r.torrent.name@ + " =====\n\n"@;
    let s2 = reports::with_torrent_peers(reports::with_torrent_status(s0, r), r);
    lemma_block_show(s2, snap.piece_length, snap.pieces@);
    lemma_markers_grow(snap.pieces@, (i + 1) as nat, snap.pieces@.len());
}

proof fn lemma_markers_grow(p: Seq<PieceStatus>, n: nat, m: nat)
    requires
        n <= m,
    ensures
        pieces::markers_text(p, n).is_prefix_of(pieces::markers_text(p, m)),
    decreases m,
{
    if n < m {
        lemma_markers_grow(p, n, (m - 1) as nat);
    }
}

/// The warning of an empty swarm is due exactly when nobody has been connected for
/// fifteen seconds, something is missing and nothing is cached or wanted.
pub proof fn law_when_the_warning_is_due(
    num_peers: i32,
    num_seeds: i32,
    empty_secs: u64,
    complete: bool,
    active: bool,
)
    ensures
        pieces::health_due(num_peers, num_seeds, empty_secs, complete, active) <==> num_peers == 0
            && num_seeds == 0 && empty_secs >= 15 && !complete && !active,
{
}

/// A torrent that nobody has served for fifteen seconds warns of it in its `.stats`.
pub proof fn law_empty_swarm_is_shown(
    r: TorrentReport,
    t: TransferStatus,
    cache: Option<CacheShare>,
)
    requires
        r.transfer == Some(t),
        t.num_peers == 0,
        t.num_seeds == 0,
        r.empty_swarm_secs matches Some(n) && n >= 15,
        r.snapshot matches Some(snap) ==> forall|i: int|
            0 <= i < snap.pieces@.len() ==> !(#[trigger] snap.pieces@[i]).is_cached
                && snap.pieces@[i].priority == 0,
    ensures
        shows(reports::torrent_text(r, cache), pieces::health_text()),
{
    lemma_torrent_keeps(r, cache);
    let s1 = reports::with_torrent_status(
        "===== torrent: "@ + r.torrent.name@ + " =====\n\n"@,
        r,
    );
    let s2 = reports::with_torrent_peers(s1, r);
    if let Some(snap) = r.snapshot {
        let p = snap.pieces@;
        if pieces::complete(p) {
            assert(p[0].is_cached);
        }
    }
    assert(shows(s2, pieces::health_text())) by {
        reveal(shows);
        let i: int = s2.len() - pieces::health_text().len();
        assert(s2.subrange(i, i + pieces::health_text().len()) =~= pieces::health_text());
    }
}

// ── Directories ─────────────────────────────────────────────────────────────

proof fn lemma_summary_lines_keep(out: Seq<char>, rs: Seq<TorrentReport>, n: nat, m: nat)
    requires
        n <= m,
    ensures
        forall|q: Seq<char>|
            shows(reports::with_summary_lines(out, rs, n), q) ==> #[trigger] shows(
                reports::with_summary_lines(out, rs, m),
                q,
            ),
    decreases m,
{
    if n < m {
        lemma_summary_lines_keep(out, rs, n, (m - 1) as nat);
        assert forall|q: Seq<char>|
            shows(reports::with_summary_lines(out, rs, (m - 1) as nat), q) implies #[trigger] shows(
            reports::with_summary_lines(out, rs, m),
            q,
        ) by {
            broadcast use lemma_shows_more;

        }
    }
}

proof fn lemma_detail_lines_keep(out: Seq<char>, rs: Seq<TorrentReport>, n: nat, m: nat)
    requires
        n <= m,
    ensures
        forall|q: Seq<char>|
            shows(reports::with_detail_lines(out, rs, n), q) ==> #[trigger] shows(
                reports::with_detail_lines(out, rs, m),
                q,
            ),
    decreases m,
{
    if n < m {
        lemma_detail_lines_keep(out, rs, n, (m - 1) as nat);
        assert forall|q: Seq<char>|
            shows(reports::with_detail_lines(out, rs, (m - 1) as nat), q) implies #[trigger] shows(
            reports::with_detail_lines(out, rs, m),
            q,
        ) by {
            broadcast use lemma_shows_more;

        }
    }
}

proof fn lemma_directory_cache_keeps(out: Seq<char>, cache: CacheView)
    ensures
        forall|p: Seq<char>| shows(out, p) ==> #[trigger] shows(
            reports::with_directory_cache(out, cache),
            p,
        ),
{
    broadcast use lemma_shows_more;

}

/// What stands before a part of a directory's `.stats` is in the whole text.
proof fn lemma_directory_keeps(source_path: Seq<char>, rs: Seq<TorrentReport>, cache: CacheView)
    requires
        rs.len() > 0,
    ensures
        ({
            let s0 = "===== directory: "@ + source_path + " =====\n\n"@ + "-- Summary --\n"@
                + "  Torrents: "@ + text::dec(rs.len()) + "  Total Size: "@
                + figures::bytes_text(reports::sum_over(rs, reports::sizes(), rs.len()) as u64)
                + "  Downloaded: "@
                + figures::bytes_text(reports::sum_over(rs, reports::downloads(), rs.len()) as u64)
                + "\n"@;
            let s1 = reports::with_summary_lines(s0, rs, rs.len());
            let s2 = s1 + "\n-- Rates --\n"@ + "  DL Rate: ↓ "@
                + figures::bytes_text(
                    reports::sum_over(rs, reports::dl_rates(), rs.len()) as i64 as u64,
                )
                + "/s  UL Rate: ↑ "@
                + figures::bytes_text(
                    reports::sum_over(rs, reports::ul_rates(), rs.len()) as i64 as u64,
                )
                + "/s\n"@ + "  Total UL: "@
                + figures::bytes_text(reports::sum_over(rs, reports::uploaded(), rs.len()) as u64)
                + "  Total DL: "@
                + figures::bytes_text(reports::sum_over(rs, reports::downloaded(), rs.len()) as u64)
                + "\n"@ + "\n-- Peers --\n"@ + "  Peers: "@
                + text::dec_int(reports::sum_over(rs, reports::peer_counts(), rs.len()))
                + "  Seeds: "@
                + text::dec_int(reports::sum_over(rs, reports::seed_counts(), rs.len())) + "\n"@;
            let s3 = reports::with_directory_cache(s2, cache) + "\n-- Torrents --\n"@;
            let s4 = reports::with_detail_lines(s3, rs, rs.len());
            forall|q: Seq<char>|
                (shows(s0, q) || shows(s1, q) || shows(s2, q) || shows(s3, q) || shows(s4, q))
                    ==> #[trigger] shows(reports::directory_text(source_path, rs, cache), q)
        }),
{
    let s0 = "===== directory: "@ + source_path + " =====\n\n"@ + "-- Summary --\n"@
        + "  Torrents: "@ + text::dec(rs.len()) + "  Total Size: "@
        + figures::bytes_text(reports::sum_over(rs, reports::sizes(), rs.len()) as u64)
        + "  Downloaded: "@
        + figures::bytes_text(reports::sum_over(rs, reports::downloads(), rs.len()) as u64) + "\n"@;
    let s1 = reports::with_summary_lines(s0, rs, rs.len());
    let s2 = s1 + "\n-- Rates --\n"@ + "  DL Rate: ↓ "@
        + figures::bytes_text(reports::sum_over(rs, reports::dl_rates(), rs.len()) as i64 as u64)
        + "/s  UL Rate: ↑ "@
        + figures::bytes_text(reports::sum_over(rs, reports::ul_rates(), rs.len()) as i64 as u64)
        + "/s\n"@ + "  Total UL: "@
        + figures::bytes_text(reports::sum_over(rs, reports::uploaded(), rs.len()) as u64)
        + "  Total DL: "@
        + figures::bytes_text(reports::sum_over(rs, reports::downloaded(), rs.len()) as u64) + "\n"@
        + "\n-- Peers --\n"@ + "  Peers: "@
        + text::dec_int(reports::sum_over(rs, reports::peer_counts(), rs.len())) + "  Seeds: "@
        + text::dec_int(reports::sum_over(rs, reports::seed_counts(), rs.len())) + "\n"@;
    let s3 = reports::with_directory_cache(s2, cache) + "\n-- Torrents --\n"@;
    let s4 = reports::with_detail_lines(s3, rs, rs.len());
    lemma_summary_lines_keep(s0, rs, 0, rs.len());
    assert forall|q: Seq<char>| shows(s1, q) implies #[trigger] shows(s2, q) by {
        broadcast use lemma_shows_more;

    }
    lemma_directory_cache_keeps(s2, cache);
    assert forall|q: Seq<char>|
        shows(reports::with_directory_cache(s2, cache), q) implies #[trigger] shows(s3, q) by {
        broadcast use lemma_shows_more;

    }
    lemma_detail_lines_keep(s3, rs, 0, rs.len());
    lemma_footer_keeps(s4);
}

/// The first line of the sums.
proof fn lemma_directory_head_show(source_path: Seq<char>, rs: Seq<TorrentReport>)
    ensures
        ({
            let s = "===== directory: "@ + source_path + " =====\n\n"@ + "-- Summary --\n"@
                + "  Torrents: "@ + text::dec(rs.len()) + "  Total Size: "@
                + figures::bytes_text(reports::sum_over(rs, reports::sizes(), rs.len()) as u64)
                + "  Downloaded: "@
                + figures::bytes_text(reports::sum_over(rs, reports::downloads(), rs.len()) as u64)
                + "\n"@;
            &&& shows(s, "  Torrents: "@ + text::dec(rs.len()) + "  Total Size: "@)
            &&& shows(
                s,
                "  Total Size: "@
                    + figures::bytes_text(reports::sum_over(rs, reports::sizes(), rs.len()) as u64)
                    + "  Downloaded: "@,
            )
            &&& shows(
                s,
                "  Downloaded: "@
                    + figures::bytes_text(
                        reports::sum_over(rs, reports::downloads(), rs.len()) as u64,
                    )
                    + "\n"@,
            )
        }),
{
    broadcast use lemma_shows_more;

    let s0 = "===== directory: "@ + source_path + " =====\n\n"@ + "-- Summary --\n"@;
    lemma_shows_last(s0, "  Torrents: "@, text::dec(rs.len()), "  Total Size: "@);
    let s1 = s0 + "  Torrents: "@ + text::dec(rs.len());
    lemma_shows_last(
        s1,
        "  Total Size: "@,
        figures::bytes_text(reports::sum_over(rs, reports::sizes(), rs.len()) as u64),
        "  Downloaded: "@,
    );
    let s2 = s1 + "  Total Size: "@
        + figures::bytes_text(reports::sum_over(rs, reports::sizes(), rs.len()) as u64);
    lemma_shows_last(
        s2,
        "  Downloaded: "@,
        figures::bytes_text(reports::sum_over(rs, reports::downloads(), rs.len()) as u64),
        "\n"@,
    );
}

/// The sums of the rates and peers.
proof fn lemma_directory_sums_show(out: Seq<char>, rs: Seq<TorrentReport>)
    ensures
        ({
            let s = out + "\n-- Rates --\n"@ + "  DL Rate: ↓ "@
                + figures::bytes_text(
                    reports::sum_over(rs, reports::dl_rates(), rs.len()) as i64 as u64,
                )
                + "/s  UL Rate: ↑ "@
                + figures::bytes_text(
                    reports::sum_over(rs, reports::ul_rates(), rs.len()) as i64 as u64,
                )
                + "/s\n"@ + "  Total UL: "@
                + figures::bytes_text(reports::sum_over(rs, reports::uploaded(), rs.len()) as u64)
                + "  Total DL: "@
                + figures::bytes_text(reports::sum_over(rs, reports::downloaded(), rs.len()) as u64)
                + "\n"@ + "\n-- Peers --\n"@ + "  Peers: "@
                + text::dec_int(reports::sum_over(rs, reports::peer_counts(), rs.len()))
                + "  Seeds: "@
                + text::dec_int(reports::sum_over(rs, reports::seed_counts(), rs.len())) + "\n"@;
            &&& shows(
                s,
                "  DL Rate: ↓ "@
                    + figures::bytes_text(
                        reports::sum_over(rs, reports::dl_rates(), rs.len()) as i64 as u64,
                    )
                    + "/s  UL Rate: ↑ "@,
            )
            &&& shows(
                s,
                "/s  UL Rate: ↑ "@
                    + figures::bytes_text(
                        reports::sum_over(rs, reports::ul_rates(), rs.len()) as i64 as u64,
                    )
                    + "/s\n"@,
            )
            &&& shows(
                s,
                "  Total UL: "@
                    + figures::bytes_text(
                        reports::sum_over(rs, reports::uploaded(), rs.len()) as u64,
                    )
                    + "  Total DL: "@,
            )
            &&& shows(
                s,
                "  Total DL: "@
                    + figures::bytes_text(
                        reports::sum_over(rs, reports::downloaded(), rs.len()) as u64,
                    )
                    + "\n"@,
            )
            &&& shows(
                s,
                "  Peers: "@
                    + text::dec_int(reports::sum_over(rs, reports::peer_counts(), rs.len()))
                    + "  Seeds: "@,
            )
            &&& shows(
                s,
                "  Seeds: "@
                    + text::dec_int(reports::sum_over(rs, reports::seed_counts(), rs.len()))
                    + "\n"@,
            )
        }),
{
    broadcast use lemma_shows_more;

    let s0 = out + "\n-- Rates --\n"@;
    lemma_shows_last(
        s0,
        "  DL Rate: ↓ "@,
        figures::bytes_text(reports::sum_over(rs, reports::dl_rates(), rs.len()) as i64 as u64),
        "/s  UL Rate: ↑ "@,
    );
    let s1 = s0 + "  DL Rate: ↓ "@
        + figures::bytes_text(reports::sum_over(rs, reports::dl_rates(), rs.len()) as i64 as u64);
    lemma_shows_last(
        s1,
        "/s  UL Rate: ↑ "@,
        figures::bytes_text(reports::sum_over(rs, reports::ul_rates(), rs.len()) as i64 as u64),
        "/s\n"@,
    );
    let s2 = s1 + "/s  UL Rate: ↑ "@
        + figures::bytes_text(reports::sum_over(rs, reports::ul_rates(), rs.len()) as i64 as u64)
        + "/s\n"@;
    lemma_shows_last(
        s2,
        "  Total UL: "@,
        figures::bytes_text(reports::sum_over(rs, reports::uploaded(), rs.len()) as u64),
        "  Total DL: "@,
    );
    let s3 = s2 + "  Total UL: "@
        + figures::bytes_text(reports::sum_over(rs, reports::uploaded(), rs.len()) as u64);
    lemma_shows_last(
        s3,
        "  Total DL: "@,
        figures::bytes_text(reports::sum_over(rs, reports::downloaded(), rs.len()) as u64),
        "\n"@,
    );
    let s4 = s3 + "  Total DL: "@
        + figures::bytes_text(reports::sum_over(rs, reports::downloaded(), rs.len()) as u64) + "\n"@
        + "\n-- Peers --\n"@;
    lemma_shows_last(
        s4,
        "  Peers: "@,
        text::dec_int(reports::sum_over(rs, reports::peer_counts(), rs.len())),
        "  Seeds: "@,
    );
    let s5 = s4 + "  Peers: "@
        + text::dec_int(reports::sum_over(rs, reports::peer_counts(), rs.len()));
    lemma_shows_last(
        s5,
        "  Seeds: "@,
        text::dec_int(reports::sum_over(rs, reports::seed_counts(), rs.len())),
        "\n"@,
    );
}

/// The sums over a directory stand behind their own labels.
pub proof fn law_directory_sums_are_shown(
    source_path: Seq<char>,
    rs: Seq<TorrentReport>,
    cache: CacheView,
)
    requires
        rs.len() > 0,
    ensures
        ({
            let s = reports::directory_text(source_path, rs, cache);
            &&& shows(s, "  Torrents: "@ + text::dec(rs.len()) + "  Total Size: "@)
            &&& shows(
                s,
                "  Total Size: "@
                    + figures::bytes_text(reports::sum_over(rs, reports::sizes(), rs.len()) as u64)
                    + "  Downloaded: "@,
            )
            &&& shows(
                s,
                "  Downloaded: "@
                    + figures::bytes_text(
                        reports::sum_over(rs, reports::downloads(), rs.len()) as u64,
                    )
                    + "\n"@,
            )
            &&& shows(
                s,
                "  DL Rate: ↓ "@
                    + figures::bytes_text(
                        reports::sum_over(rs, reports::dl_rates(), rs.len()) as i64 as u64,
                    )
                    + "/s  UL Rate: ↑ "@,
            )
            &&& shows(
                s,
                "/s  UL Rate: ↑ "@
                    + figures::bytes_text(
                        reports::sum_over(rs, reports::ul_rates(), rs.len()) as i64 as u64,
                    )
                    + "/s\n"@,
            )
            &&& shows(
                s,
                "  Total UL: "@
                    + figures::bytes_text(
                        reports::sum_over(rs, reports::uploaded(), rs.len()) as u64,
                    )
                    + "  Total DL: "@,
            )
            &&& shows(
                s,
                "  Total DL: "@
                    + figures::bytes_text(
                        reports::sum_over(rs, reports::downloaded(), rs.len()) as u64,
                    )
                    + "\n"@,
            )
            &&& shows(
                s,
                "  Peers: "@
                    + text::dec_int(reports::sum_over(rs, reports::peer_counts(), rs.len()))
                    + "  Seeds: "@,
            )
            &&& shows(
                s,
                "  Seeds: "@
                    + text::dec_int(reports::sum_over(rs, reports::seed_counts(), rs.len()))
                    + "\n"@,
            )
        }),
{
    lemma_directory_keeps(source_path, rs, cache);
    lemma_directory_head_show(source_path, rs);
    lemma_directory_sums_show(
        reports::with_summary_lines(
            "===== directory: "@ + source_path + " =====\n\n"@ + "-- Summary --\n"@
                + "  Torrents: "@ + text::dec(rs.len()) + "  Total Size: "@
                + figures::bytes_text(reports::sum_over(rs, reports::sizes(), rs.len()) as u64)
                + "  Downloaded: "@
                + figures::bytes_text(reports::sum_over(rs, reports::downloads(), rs.len()) as u64)
                + "\n"@,
            rs,
            rs.len(),
        ),
        rs,
    );
}

/// The sums over a directory are taken over the right numbers: a torrent more adds
/// its size, its rates, its totals and its peers, each to its own sum.
pub proof fn law_directory_sums_add_up(rs: Seq<TorrentReport>, r: TorrentReport, t: TransferStatus)
    requires
        r.transfer == Some(t),
    ensures
        ({
            let more = rs.push(r);
            let n = rs.len();
            let m = more.len();
            &&& reports::sum_over(more, reports::dl_rates(), m) == reports::sum_over(
                rs,
                reports::dl_rates(),
                n,
            )
                + t.download_rate
            &&& reports::sum_over(more, reports::ul_rates(), m) == reports::sum_over(
                rs,
                reports::ul_rates(),
                n,
            )
                + t.upload_rate
            &&& reports::sum_over(more, reports::uploaded(), m) == reports::sum_over(
                rs,
                reports::uploaded(),
                n,
            )
                + t.total_upload as u64
            &&& reports::sum_over(more, reports::downloaded(), m) == reports::sum_over(
                rs,
                reports::downloaded(),
                n,
            )
                + t.total_download as u64
            &&& reports::sum_over(more, reports::peer_counts(), m) == reports::sum_over(
                rs,
                reports::peer_counts(),
                n,
            )
                + t.num_peers
            &&& reports::sum_over(more, reports::seed_counts(), m) == reports::sum_over(
                rs,
                reports::seed_counts(),
                n,
            )
                + t.num_seeds
            &&& r.torrent.total_size >= 0 ==> reports::sum_over(more, reports::sizes(), m) == reports::sum_over(
                rs,
                reports::sizes(),
                n,
            )
                + r.torrent.total_size
            &&& r.snapshot is None && t.total_done <= r.torrent.total_size ==> reports::sum_over(more, reports::downloads(), m) == reports::sum_over(
                rs,
                reports::downloads(),
                n,
            )
                + t.total_done
        }),
{
    let more = rs.push(r);
    lemma_sum_of_same(more, rs, reports::dl_rates(), rs.len());
    lemma_sum_of_same(more, rs, reports::ul_rates(), rs.len());
    lemma_sum_of_same(more, rs, reports::uploaded(), rs.len());
    lemma_sum_of_same(more, rs, reports::downloaded(), rs.len());
    lemma_sum_of_same(more, rs, reports::peer_counts(), rs.len());
    lemma_sum_of_same(more, rs, reports::seed_counts(), rs.len());
    lemma_sum_of_same(more, rs, reports::sizes(), rs.len());
    lemma_sum_of_same(more, rs, reports::downloads(), rs.len());
}

/// A sum depends on the torrents that it is taken over alone.
proof fn lemma_sum_of_same(
    a: Seq<TorrentReport>,
    b: Seq<TorrentReport>,
    f: spec_fn(TorrentReport) -> int,
    n: nat,
)
    requires
        n <= a.len(),
        n <= b.len(),
        forall|i: int| 0 <= i < n ==> a[i] == b[i],
    ensures
        reports::sum_over(a, f, n) == reports::sum_over(b, f, n),
    decreases n,
{
    if n > 0 {
        lemma_sum_of_same(a, b, f, (n - 1) as nat);
    }
}

/// A directory without torrents sums up to nothing.
pub proof fn law_empty_directory_sums_up_to_nothing(
    rs: Seq<TorrentReport>,
    f: spec_fn(TorrentReport) -> int,
)
    requires
        rs.len() == 0,
    ensures
        reports::sum_over(rs, f, rs.len()) == 0,
{
}

/// One line of the table.
proof fn lemma_detail_line_show(
    out: Seq<char>,
    rs: Seq<TorrentReport>,
    n: nat,
    r: TorrentReport,
    t: TransferStatus,
)
    requires
        0 < n,
        rs[n - 1] == r,
        r.transfer == Some(t),
    ensures
        ({
            let s = reports::with_detail_lines(out, rs, n);
            &&& shows(s, "#"@ + figures::padded_right(text::dec(n), 3) + " "@)
            &&& shows(
                s,
                " "@ + figures::padded_right(reports::short_name(r.torrent.name@), 40) + " "@,
            )
            &&& shows(s, "  "@ + figures::padded_left(r.percent(), 5) + "%  ↓ "@)
            &&& shows(
                s,
                "%  ↓ "@ + figures::padded_right(figures::bytes_text(t.download_rate as u64), 10)
                    + "/s  ↑ "@,
            )
            &&& shows(
                s,
                "/s  ↑ "@ + figures::padded_right(figures::bytes_text(t.upload_rate as u64), 10)
                    + "/s  "@,
            )
            &&& shows(
                s,
                "/s  "@ + figures::padded_left(text::dec_int(t.num_peers as int), 3) + "P/"@,
            )
            &&& shows(
                s,
                "P/"@ + figures::padded_right(text::dec_int(t.num_seeds as int), 3) + "S\n"@,
            )
        }),
{
    broadcast use lemma_shows_more;

    let s0 = reports::with_detail_lines(out, rs, (n - 1) as nat) + "  "@
        + (if r.private() { "🔒"@ } else { "  "@ });
    lemma_shows_last(s0, "#"@, figures::padded_right(text::dec(n), 3), " "@);
    let s1 = s0 + "#"@ + figures::padded_right(text::dec(n), 3);
    lemma_shows_last(
        s1,
        " "@,
        figures::padded_right(reports::short_name(r.torrent.name@), 40),
        " "@,
    );
    let s2 = s1 + " "@ + figures::padded_right(reports::short_name(r.torrent.name@), 40) + " "@
        + pieces::english(r.status());
    lemma_shows_last(s2, "  "@, figures::padded_left(r.percent(), 5), "%  ↓ "@);
    let s3 = s2 + "  "@ + figures::padded_left(r.percent(), 5);
    lemma_shows_last(
        s3,
        "%  ↓ "@,
        figures::padded_right(figures::bytes_text(t.download_rate as u64), 10),
        "/s  ↑ "@,
    );
    let s4 = s3 + "%  ↓ "@ + figures::padded_right(figures::bytes_text(t.download_rate as u64), 10);
    lemma_shows_last(
        s4,
        "/s  ↑ "@,
        figures::padded_right(figures::bytes_text(t.upload_rate as u64), 10),
        "/s  "@,
    );
    let s5 = s4 + "/s  ↑ "@ + figures::padded_right(figures::bytes_text(t.upload_rate as u64), 10);
    lemma_shows_last(
        s5,
        "/s  "@,
        figures::padded_left(text::dec_int(t.num_peers as int), 3),
        "P/"@,
    );
    let s6 = s5 + "/s  "@ + figures::padded_left(text::dec_int(t.num_peers as int), 3);
    lemma_shows_last(
        s6,
        "P/"@,
        figures::padded_right(text::dec_int(t.num_seeds as int), 3),
        "S\n"@,
    );
}

/// One line of the summary.
proof fn lemma_summary_line_show(out: Seq<char>, rs: Seq<TorrentReport>, n: nat, r: TorrentReport)
    requires
        0 < n,
        rs[n - 1] == r,
    ensures
        ({
            let s = reports::with_summary_lines(out, rs, n);
            &&& shows(s, "  "@ + r.torrent.name@ + "  "@)
            &&& shows(s, "  "@ + pieces::english(r.status()) + "  "@)
            &&& shows(s, "  "@ + reports::summary_percent(r) + "%  "@)
            &&& shows(s, "%  "@ + figures::bytes_text(reports::summary(r).0 as u64) + " / "@)
            &&& shows(s, " / "@ + figures::bytes_text(reports::size_of(r.torrent)) + "\n"@)
        }),
{
    broadcast use lemma_shows_more;

    let s0 = reports::with_summary_lines(out, rs, (n - 1) as nat);
    lemma_shows_last(s0, "  "@, r.torrent.name@, "  "@);
    let s1 = s0 + "  "@ + r.torrent.name@;
    lemma_shows_last(s1, "  "@, pieces::english(r.status()), "  "@);
    let s2 = s1 + "  "@ + pieces::english(r.status());
    lemma_shows_last(s2, "  "@, reports::summary_percent(r), "%  "@);
    let s3 = s2 + "  "@ + reports::summary_percent(r);
    lemma_shows_last(s3, "%  "@, figures::bytes_text(reports::summary(r).0 as u64), " / "@);
    let s4 = s3 + "%  "@ + figures::bytes_text(reports::summary(r).0 as u64);
    lemma_shows_last(s4, " / "@, figures::bytes_text(reports::size_of(r.torrent)), "\n"@);
}

/// Every torrent of a directory has a line of its own in the table, with its number,
/// its name and progress, its rates and its peers.
pub proof fn law_each_torrent_has_its_line(
    source_path: Seq<char>,
    rs: Seq<TorrentReport>,
    cache: CacheView,
    i: int,
    r: TorrentReport,
    t: TransferStatus,
)
    requires
        0 <= i < rs.len(),
        rs[i] == r,
        r.transfer == Some(t),
    ensures
        ({
            let s = reports::directory_text(source_path, rs, cache);
            &&& shows(s, "#"@ + figures::padded_right(text::dec((i + 1) as nat), 3) + " "@)
            &&& shows(
                s,
                " "@ + figures::padded_right(reports::short_name(r.torrent.name@), 40) + " "@,
            )
            &&& shows(s, "  "@ + figures::padded_left(r.percent(), 5) + "%  ↓ "@)
            &&& shows(
                s,
                "%  ↓ "@ + figures::padded_right(figures::bytes_text(t.download_rate as u64), 10)
                    + "/s  ↑ "@,
            )
            &&& shows(
                s,
                "/s  ↑ "@ + figures::padded_right(figures::bytes_text(t.upload_rate as u64), 10)
                    + "/s  "@,
            )
            &&& shows(
                s,
                "/s  "@ + figures::padded_left(text::dec_int(t.num_peers as int), 3) + "P/"@,
            )
            &&& shows(
                s,
                "P/"@ + figures::padded_right(text::dec_int(t.num_seeds as int), 3) + "S\n"@,
            )
            &&& shows(s, "  "@ + r.torrent.name@ + "  "@)
            &&& r.torrent.total_size > 0 ==> shows(
                s,
                " / "@ + figures::bytes_text(r.torrent.total_size as u64) + "\n"@,
            )
            &&& r.snapshot is None && t.total_done <= r.torrent.total_size ==> shows(
                s,
                "%  "@ + figures::bytes_text(t.total_done) + " / "@,
            )
            &&& r.snapshot is None && r.torrent.total_size > 0 ==> shows(
                s,
                "  "@ + t.progress@ + "%  "@,
            )
        }),
{
    lemma_directory_keeps(source_path, rs, cache);
    let s0 = "===== directory: "@ + source_path + " =====\n\n"@ + "-- Summary --\n"@
        + "  Torrents: "@ + text::dec(rs.len()) + "  Total Size: "@
        + figures::bytes_text(reports::sum_over(rs, reports::sizes(), rs.len()) as u64)
        + "  Downloaded: "@
        + figures::bytes_text(reports::sum_over(rs, reports::downloads(), rs.len()) as u64) + "\n"@;
    let s1 = reports::with_summary_lines(s0, rs, rs.len());
    let s2 = s1 + "\n-- Rates --\n"@ + "  DL Rate: ↓ "@
        + figures::bytes_text(reports::sum_over(rs, reports::dl_rates(), rs.len()) as i64 as u64)
        + "/s  UL Rate: ↑ "@
        + figures::bytes_text(reports::sum_over(rs, reports::ul_rates(), rs.len()) as i64 as u64)
        + "/s\n"@ + "  Total UL: "@
        + figures::bytes_text(reports::sum_over(rs, reports::uploaded(), rs.len()) as u64)
        + "  Total DL: "@
        + figures::bytes_text(reports::sum_over(rs, reports::downloaded(), rs.len()) as u64) + "\n"@
        + "\n-- Peers --\n"@ + "  Peers: "@
        + text::dec_int(reports::sum_over(rs, reports::peer_counts(), rs.len())) + "  Seeds: "@
        + text::dec_int(reports::sum_over(rs, reports::seed_counts(), rs.len())) + "\n"@;
    let s3 = reports::with_directory_cache(s2, cache) + "\n-- Torrents --\n"@;
    let s4 = reports::with_detail_lines(s3, rs, rs.len());
    let n = (i + 1) as nat;
    lemma_detail_line_show(s3, rs, n, r, t);
    lemma_detail_lines_keep(s3, rs, n, rs.len());
    lemma_summary_line_show(s0, rs, n, r);
    lemma_summary_lines_keep(s0, rs, n, rs.len());
}

/// Each cached piece counts as many bytes as it has, the last one maybe fewer than the
/// others; a piece that is not cached counts none.
pub proof fn law_cached_pieces_count_their_bytes(
    p: Seq<PieceStatus>,
    piece_length: u64,
    total_size: u64,
    n: nat,
)
    requires
        n < p.len(),
    ensures
        ({
            let from = n * piece_length;
            let to = from + piece_length;
            let more = pieces::cached_bytes(p, piece_length, total_size, n + 1)
                - pieces::cached_bytes(p, piece_length, total_size, n);
            &&& pieces::cached_bytes(p, piece_length, total_size, 0) == 0
            &&& !p[n as int].is_cached ==> more == 0
            &&& p[n as int].is_cached && to <= total_size ==> more == piece_length
            &&& p[n as int].is_cached && from < total_size < to ==> more == total_size - from
            &&& p[n as int].is_cached && total_size <= from ==> more == 0
        }),
{
}

/// The summary of a torrent goes by its pieces where they are known: the bytes of those
/// that are cached, and their share.
pub proof fn law_summary_goes_by_the_pieces(r: TorrentReport, snap: PieceSnapshot)
    requires
        r.snapshot == Some(snap),
        snap.piece_length > 0,
        r.torrent.total_size >= 0,
    ensures
        ({
            let p = snap.pieces@;
            &&& reports::summary(r).0 == pieces::cached_bytes(
                p,
                snap.piece_length,
                r.torrent.total_size as u64,
                p.len(),
            )
            &&& reports::summary(r).1 == figures::percent_text(
                p.filter(|x: PieceStatus| x.is_cached).len() as u64,
                p.len() as u64,
            )
        }),
{
    law_cached_pieces_are_counted(snap.pieces@);
}

/// A torrent that is not there is named by its number and the first ten bytes of its
/// hash, or by all of them where there are fewer.
pub proof fn law_missing_torrent_is_named(torrent_id: i64, info_hash: Seq<char>)
    ensures
        ({
            let s = reports::not_found_text(torrent_id, info_hash);
            let bytes = vstd::utf8::encode_utf8(info_hash);
            let part = vstd::utf8::decode_utf8(
                bytes.take(
                    if bytes.len() < 10 {
                        bytes.len() as int
                    } else {
                        10
                    },
                ),
            );
            &&& shows(
                s,
                "  Torrent not found (id="@ + text::dec_int(torrent_id as int) + ", info_hash="@,
            )
            &&& shows(s, ", info_hash="@ + part + "...)\n"@)
        }),
{
    broadcast use lemma_shows_more;

    let id = text::dec_int(torrent_id as int);
    let bytes = vstd::utf8::encode_utf8(info_hash);
    let n = if bytes.len() < 10 {
        bytes.len() as int
    } else {
        10
    };
    assert(bytes.take(n) =~= bytes.subrange(0, n));
    let part = reports::ten_bytes(info_hash);
    let head = "  Torrent not found (id="@ + id + ", info_hash="@;
    let none = Seq::<char>::empty();
    lemma_shows_last(none, "  Torrent not found (id="@, id, ", info_hash="@);
    assert(none + "  Torrent not found (id="@ + id + ", info_hash="@ =~= head);
    lemma_shows_last("  Torrent not found (id="@ + id, ", info_hash="@, part, "...)\n"@);
}

/// The numbers of an open cache stand in a directory's `.stats` behind their own labels.
pub proof fn law_directory_shows_the_cache(
    source_path: Seq<char>,
    rs: Seq<TorrentReport>,
    current: u64,
    max: u64,
    hits: u64,
    misses: u64,
    evictions: u64,
)
    requires
        rs.len() > 0,
    ensures
        ({
            let cache = CacheView::Open { current, max, hits, misses, evictions };
            let s = reports::directory_text(source_path, rs, cache);
            &&& shows(
                s,
                "  Cache Usage: "@ + figures::cache_usage_text(current, max) + "\n"@,
            )
            &&& shows(s, "  Hits: "@ + figures::num_text(hits as nat) + "  Misses: "@)
            &&& shows(s, "  Misses: "@ + figures::num_text(misses as nat) + "  Hit Rate: "@)
            &&& shows(
                s,
                "  Hit Rate: "@ + figures::percent_text(hits, (hits + misses) as u64) + "%\n"@,
            )
        }),
{
    let cache = CacheView::Open { current, max, hits, misses, evictions };
    lemma_directory_keeps(source_path, rs, cache);
    let s0 = "===== directory: "@ + source_path + " =====\n\n"@ + "-- Summary --\n"@
        + "  Torrents: "@ + text::dec(rs.len()) + "  Total Size: "@
        + figures::bytes_text(reports::sum_over(rs, reports::sizes(), rs.len()) as u64)
        + "  Downloaded: "@
        + figures::bytes_text(reports::sum_over(rs, reports::downloads(), rs.len()) as u64) + "\n"@;
    let s1 = reports::with_summary_lines(s0, rs, rs.len());
    let s2 = s1 + "\n-- Rates --\n"@ + "  DL Rate: ↓ "@
        + figures::bytes_text(reports::sum_over(rs, reports::dl_rates(), rs.len()) as i64 as u64)
        + "/s  UL Rate: ↑ "@
        + figures::bytes_text(reports::sum_over(rs, reports::ul_rates(), rs.len()) as i64 as u64)
        + "/s\n"@ + "  Total UL: "@
        + figures::bytes_text(reports::sum_over(rs, reports::uploaded(), rs.len()) as u64)
        + "  Total DL: "@
        + figures::bytes_text(reports::sum_over(rs, reports::downloaded(), rs.len()) as u64) + "\n"@
        + "\n-- Peers --\n"@ + "  Peers: "@
        + text::dec_int(reports::sum_over(rs, reports::peer_counts(), rs.len())) + "  Seeds: "@
        + text::dec_int(reports::sum_over(rs, reports::seed_counts(), rs.len())) + "\n"@;
    let s3 = reports::with_directory_cache(s2, cache) + "\n-- Torrents --\n"@;
    lemma_open_cache_shows(s2, current, max, hits, misses, evictions);
    assert forall|q: Seq<char>|
        shows(reports::with_directory_cache(s2, cache), q) implies #[trigger] shows(s3, q) by {
        broadcast use lemma_shows_more;

    }
}

proof fn lemma_open_cache_shows(
    out: Seq<char>,
    current: u64,
    max: u64,
    hits: u64,
    misses: u64,
    evictions: u64,
)
    ensures
        ({
            let s = reports::with_directory_cache(
                out,
                (CacheView::Open { current, max, hits, misses, evictions }),
            );
            &&& shows(
                s,
                "  Cache Usage: "@ + figures::cache_usage_text(current, max) + "\n"@,
            )
            &&& shows(s, "  Hits: "@ + figures::num_text(hits as nat) + "  Misses: "@)
            &&& shows(s, "  Misses: "@ + figures::num_text(misses as nat) + "  Hit Rate: "@)
            &&& shows(
                s,
                "  Hit Rate: "@ + figures::percent_text(hits, (hits + misses) as u64) + "%\n"@,
            )
        }),
{
    broadcast use lemma_shows_more;

    let s0 = out + "\n-- Cache --\n"@;
    let usage = figures::cache_usage_text(current, max);
    lemma_shows_last(s0, "  Cache Usage: "@, usage, "\n"@);
    let s1 = s0 + "  Cache Usage: "@ + usage + "\n"@;
    lemma_shows_last(s1, "  Hits: "@, figures::num_text(hits as nat), "  Misses: "@);
    let s2 = s1 + "  Hits: "@ + figures::num_text(hits as nat);
    lemma_shows_last(s2, "  Misses: "@, figures::num_text(misses as nat), "  Hit Rate: "@);
    let s3 = s2 + "  Misses: "@ + figures::num_text(misses as nat);
    lemma_shows_last(
        s3,
        "  Hit Rate: "@,
        figures::percent_text(hits, (hits + misses) as u64),
        "%\n"@,
    );
}

} // verus!
