//! The three kinds of `.stats` file: for the whole filesystem, for one torrent
//! and for a directory of torrents.
use vstd::prelude::*;
use vstd::string::StrSliceExecFns;

use crate::db::types::{Torrent, TorrentStatus};
use crate::decimal;
use crate::piece_scheduler::PieceStatus;
use crate::stats::figures;
use crate::stats::pieces;
use crate::stats::pieces::Progress;
use crate::stats::sections;
use crate::stats::sections::{CacheView, MetricsSnapshot, SessionStats, StatusCounts};
use crate::text;

verus! {

/// The bytes of a text.
fn into_bytes(s: &String) -> (bytes: Vec<u8>)
    ensures
        bytes@ == vstd::utf8::encode_utf8(s@),
{
    s.as_str().as_bytes_vec()
}

// ── The whole filesystem ────────────────────────────────────────────────────

/// The text of the filesystem's own `.stats`.
pub open spec fn global_text(
    uptime_secs: nat,
    has_db: bool,
    counts: StatusCounts,
    unique: nat,
    session: Option<SessionStats>,
    cache: CacheView,
    listen_addr: Seq<char>,
    metrics: MetricsSnapshot,
) -> Seq<char> {
    let s = sections::with_banner(Seq::empty(), None);
    let s = sections::with_overview(s, uptime_secs, has_db, session, cache, listen_addr);
    let s = sections::with_global_rates(s, session);
    let s = sections::with_connections(s, session);
    let s = sections::with_torrent_counts(s, counts, unique);
    let s = sections::with_cache_summary(s, cache);
    let s = sections::with_performance(s);
    let s = sections::with_observability(s, metrics);
    sections::with_footer(s)
}

/// The filesystem's own `.stats`: no word of single torrents.
pub fn generate_global_stats(
    now_secs: u64,
    creation_secs: u64,
    has_db: bool,
    counts: StatusCounts,
    torrents: &Vec<Torrent>,
    session: Option<SessionStats>,
    cache: CacheView,
    listen_addr: &str,
    metrics: Option<MetricsSnapshot>,
) -> (bytes: Vec<u8>)
    requires
        metrics matches Some(m) ==> m.wf(),
        sections::cache_counters(cache).0 + sections::cache_counters(cache).1 <= u64::MAX,
    ensures
        bytes@ == vstd::utf8::encode_utf8(
            global_text(
                sections::uptime(now_secs, creation_secs),
                has_db,
                counts,
                sections::info_hashes(torrents@, torrents@.len()).len(),
                session,
                cache,
                listen_addr@,
                match metrics {
                    Some(m) => m,
                    None => MetricsSnapshot::zero(),
                },
            ),
        ),
{
    let mut out: String = String::new();
    sections::write_banner(&mut out, None);
    sections::write_overview(
        &mut out,
        now_secs,
        creation_secs,
        has_db,
        session,
        cache,
        listen_addr,
    );
    sections::write_global_rates(&mut out, session);
    sections::write_connections(&mut out, session);
    sections::write_torrent_overview_counts(&mut out, counts, torrents);
    sections::write_global_cache_summary(&mut out, cache);
    sections::write_performance(&mut out);
    sections::write_observability(&mut out, metrics);
    sections::write_footer(&mut out);
    into_bytes(&out)
}

/// The filesystem's own `.stats`, under its older name.
pub fn generate_stats(
    now_secs: u64,
    creation_secs: u64,
    has_db: bool,
    counts: StatusCounts,
    torrents: &Vec<Torrent>,
    session: Option<SessionStats>,
    cache: CacheView,
    listen_addr: &str,
    metrics: Option<MetricsSnapshot>,
) -> (bytes: Vec<u8>)
    requires
        metrics matches Some(m) ==> m.wf(),
        sections::cache_counters(cache).0 + sections::cache_counters(cache).1 <= u64::MAX,
    ensures
        bytes@ == vstd::utf8::encode_utf8(
            global_text(
                sections::uptime(now_secs, creation_secs),
                has_db,
                counts,
                sections::info_hashes(torrents@, torrents@.len()).len(),
                session,
                cache,
                listen_addr@,
                match metrics {
                    Some(m) => m,
                    None => MetricsSnapshot::zero(),
                },
            ),
        ),
{
    generate_global_stats(
        now_secs,
        creation_secs,
        has_db,
        counts,
        torrents,
        session,
        cache,
        listen_addr,
        metrics,
    )
}

// ── One torrent ─────────────────────────────────────────────────────────────

/// What the swarm library says of a transfer.
#[derive(Debug, Clone)]
pub struct TransferStatus {
    pub download_rate: i64,
    pub upload_rate: i64,
    pub num_peers: i32,
    pub num_seeds: i32,
    /// Its own idea of the progress, in percent with one decimal.
    pub progress: String,
    pub total: u64,
    pub total_done: u64,
    pub total_upload: i64,
    pub total_download: i64,
}

/// The pieces of a torrent and their length.
#[derive(Debug, Clone)]
pub struct PieceSnapshot {
    pub piece_length: u64,
    pub pieces: Vec<PieceStatus>,
}

/// Everything that is known of one torrent.
#[derive(Debug, Clone)]
pub struct TorrentReport {
    pub torrent: Torrent,
    pub transfer: Option<TransferStatus>,
    pub snapshot: Option<PieceSnapshot>,
    /// Whether the torrent is private, when that is known.
    pub is_private: Option<bool>,
    /// How long the swarm has been empty, in seconds, when it is.
    pub empty_swarm_secs: Option<u64>,
}

/// The numbers of a transfer, zeros when there is none.
pub struct TransferView {
    pub download_rate: i64,
    pub upload_rate: i64,
    pub num_peers: i32,
    pub num_seeds: i32,
    pub progress: Seq<char>,
    pub total: u64,
    pub total_done: u64,
    pub total_upload: i64,
    pub total_download: i64,
}

/// See [`TransferView`].
pub open spec fn transfer_of(transfer: Option<TransferStatus>) -> TransferView {
    match transfer {
        Some(t) => TransferView {
            download_rate: t.download_rate,
            upload_rate: t.upload_rate,
            num_peers: t.num_peers,
            num_seeds: t.num_seeds,
            progress: t.progress@,
            total: t.total,
            total_done: t.total_done,
            total_upload: t.total_upload,
            total_download: t.total_download,
        },
        None => TransferView {
            download_rate: 0,
            upload_rate: 0,
            num_peers: 0,
            num_seeds: 0,
            progress: "0.0"@,
            total: 0,
            total_done: 0,
            total_upload: 0,
            total_download: 0,
        },
    }
}

impl TorrentReport {
    /// The pieces, when they are known.
    pub open spec fn pieces(self) -> Option<Seq<PieceStatus>> {
        match self.snapshot {
            Some(s) => Some(s.pieces@),
            None => None,
        }
    }

    /// The status that is shown.
    pub open spec fn status(self) -> TorrentStatus {
        pieces::shown_status(self.torrent.status, self.pieces())
    }

    /// The progress in percent: by the pieces when they are known, otherwise by
    /// the swarm library's word, and nothing for a transfer without a size.
    pub open spec fn percent(self) -> Seq<char> {
        let t = transfer_of(self.transfer);
        if t.total == 0 {
            "0.0"@
        } else {
            match self.pieces() {
                Some(p) => figures::percent_text(
                    pieces::cached_count(p, p.len()) as u64,
                    p.len() as u64,
                ),
                None => t.progress,
            }
        }
    }

    /// Sizes stay within their integer types.
    pub open spec fn wf(self) -> bool {
        self.snapshot matches Some(s) ==> s.pieces@.len() <= i32::MAX && s.pieces@.len()
            * s.piece_length <= u64::MAX
    }

    /// Whether the torrent is known to be private.
    pub open spec fn private(self) -> bool {
        self.is_private == Some(true)
    }
}

/// Upload over download, or a dash when nothing was downloaded.
pub open spec fn share_text(total_upload: i64, total_download: i64) -> Seq<char> {
    if total_download <= 0 {
        "—"@
    } else if total_upload < 0 {
        "-"@ + decimal::hundredths_text(
            decimal::ratio_hundredths((-total_upload) as nat, total_download as nat),
        )
    } else {
        decimal::hundredths_text(
            decimal::ratio_hundredths(total_upload as nat, total_download as nat),
        )
    }
}

/// Appends upload over download.
fn push_share(out: &mut String, total_upload: i64, total_download: i64)
    ensures
        final(out)@ == old(out)@ + share_text(total_upload, total_download),
{
    let ghost before = out@;
    if total_download <= 0 {
        text::push_text(out, "—");
    } else if total_upload < 0 {
        let magnitude: u64 = if total_upload == i64::MIN {
            9223372036854775808
        } else {
            (-total_upload) as u64
        };
        text::push_text(out, "-");
        decimal::push_ratio(out, magnitude, total_download as u64);
        assert(out@ =~= before + share_text(total_upload, total_download));
    } else {
        decimal::push_ratio(out, total_upload as u64, total_download as u64);
    }
}

/// The first bytes of a text, up to ten of them, as a text.
pub open spec fn ten_bytes(s: Seq<char>) -> Seq<char> {
    let bytes = vstd::utf8::encode_utf8(s);
    let n = if bytes.len() < 10 {
        bytes.len() as int
    } else {
        10
    };
    vstd::utf8::decode_utf8(bytes.subrange(0, n))
}

/// The first ten bytes of a text do not cut a character in two.
pub open spec fn ten_bytes_whole(s: Seq<char>) -> bool {
    let bytes = vstd::utf8::encode_utf8(s);
    vstd::utf8::is_char_boundary(
        bytes,
        if bytes.len() < 10 {
            bytes.len() as int
        } else {
            10
        },
    )
}

/// The first ten bytes of a text.
fn short_hash(s: &str) -> (prefix: &str)
    requires
        ten_bytes_whole(s@),
    ensures
        prefix@ == ten_bytes(s@),
{
    let len: usize = s.as_bytes().len();
    let n: usize = if len < 10 {
        len
    } else {
        10
    };
    let (prefix, rest): (&str, &str) = s.split_at(n);
    proof {
        vstd::utf8::encode_utf8_decode_utf8(prefix@);
    }
    prefix
}

/// The text of a `.stats` whose torrent is gone.
pub open spec fn not_found_text(torrent_id: i64, info_hash: Seq<char>) -> Seq<char> {
    sections::with_footer(
        "  Torrent not found (id="@ + text::dec_int(torrent_id as int) + ", info_hash="@
            + ten_bytes(info_hash) + "...)\n"@,
    )
}

/// The status and transfer lines of a torrent.
pub open spec fn with_torrent_status(out: Seq<char>, r: TorrentReport) -> Seq<char> {
    let t = transfer_of(r.transfer);
    let done = match r.snapshot {
        Some(s) => pieces::cached_count(s.pieces@, s.pieces@.len()) * s.piece_length,
        None => t.total_done as int,
    };
    out + "-- Status --\n"@ + "  Name: "@ + r.torrent.name@ + "\n"@ + "  Status: "@
        + pieces::english(r.status()) + "  Progress: "@ + r.percent() + "%  Size: "@
        + figures::bytes_text(r.torrent.total_size as u64) + "\n"@ + "  DL: "@
        + figures::bytes_text(done as u64) + "  UL: "@ + figures::bytes_text(t.total_upload as u64)
        + "  Ratio: "@ + share_text(t.total_upload, t.total_download) + "\n"@
}

/// The rates and peers of a torrent, with the warning when it is due.
pub open spec fn with_torrent_peers(out: Seq<char>, r: TorrentReport) -> Seq<char> {
    let t = transfer_of(r.transfer);
    let (done, busy) = match r.pieces() {
        Some(p) => (pieces::complete(p), pieces::any_cached(p) || pieces::any_wanted(p)),
        None => (false, false),
    };
    let empty_secs = match r.empty_swarm_secs {
        Some(n) => n,
        None => 0,
    };
    let s = out + "\n-- Rates --\n"@ + "  Rate: ↓ "@ + figures::bytes_text(t.download_rate as u64)
        + "/s  ↑ "@ + figures::bytes_text(t.upload_rate as u64) + "/s\n"@ + "\n-- Peers --\n"@
        + "  Peers: "@ + text::dec_int(t.num_peers as int) + "  Seeds: "@ + text::dec_int(
        t.num_seeds as int,
    ) + "\n"@;
    if pieces::health_due(t.num_peers, t.num_seeds, empty_secs, done, busy) {
        s + pieces::health_text()
    } else {
        s
    }
}

/// Number and size of a torrent's pieces in the cache.
#[derive(Debug, Clone, Copy, PartialEq, Eq, Structural)]
pub struct CacheShare {
    pub piece_count: u64,
    pub total_size: u64,
}

/// The last lines of a torrent's `.stats`.
pub open spec fn with_torrent_info(out: Seq<char>, r: TorrentReport, cache: Option<CacheShare>) -> Seq<
    char,
> {
    let s = match cache {
        Some(c) => out + "Cache: "@ + text::dec(c.piece_count as nat) + " pieces  "@
            + figures::bytes_text(c.total_size) + "\n"@,
        None => out,
    };
    s + "info_hash: "@ + r.torrent.info_hash@ + "\n"@ + "source_path: \""@ + r.torrent.source_path@
        + "\"\n"@ + "private: "@ + (if r.private() {
        "yes"@
    } else {
        "no"@
    }) + "  tracker_isolation: "@ + (if r.private() {
        "isolated (no cross-site merge)"@
    } else {
        "merge-eligible"@
    }) + "\n"@
}

/// The text of a torrent's `.stats`.
pub open spec fn torrent_text(r: TorrentReport, cache: Option<CacheShare>) -> Seq<char> {
    let s = "===== torrent: "@ + r.torrent.name@ + " =====\n\n"@;
    let s = with_torrent_status(s, r);
    let s = with_torrent_peers(s, r);
    let s = match r.snapshot {
        Some(snap) => if snap.pieces@.len() > 0 {
            pieces::with_piece_block(s, snap.piece_length, snap.pieces@)
        } else {
            s
        },
        None => s,
    };
    sections::with_footer(with_torrent_info(s, r, cache))
}

/// The number of cached pieces never exceeds the number of pieces.
proof fn lemma_cached_at_most(p: Seq<PieceStatus>, n: nat)
    requires
        n <= p.len(),
    ensures
        pieces::cached_count(p, n) <= n,
    decreases n,
{
    if n > 0 {
        lemma_cached_at_most(p, (n - 1) as nat);
    }
}

/// Appends the progress of a torrent in percent.
fn push_torrent_percent(out: &mut String, r: &TorrentReport)
    ensures
        final(out)@ == old(out)@ + r.percent(),
{
    let total: u64 = match &r.transfer {
        Some(t) => t.total,
        None => 0,
    };
    if total == 0 {
        text::push_text(out, "0.0");
        return;
    }
    match &r.snapshot {
        Some(s) => pieces::piece_progress(s.pieces.as_slice()).push_percent(out),
        None => match &r.transfer {
            Some(t) => text::push_text(out, t.progress.as_str()),
            None => {},
        },
    }
}

/// The pieces of a report.
fn report_pieces(r: &TorrentReport) -> (p: Option<&[PieceStatus]>)
    ensures
        pieces::pieces_of(p) == r.pieces(),
{
    match &r.snapshot {
        Some(s) => Some(s.pieces.as_slice()),
        None => None,
    }
}

/// Appends the status and transfer lines of a torrent.
fn write_torrent_status(out: &mut String, r: &TorrentReport)
    requires
        r.wf(),
    ensures
        final(out)@ == with_torrent_status(old(out)@, *r),
{
    let status: TorrentStatus = pieces::display_status(&r.torrent.status, report_pieces(r));
    let (upload, download, reported): (i64, i64, u64) = match &r.transfer {
        Some(t) => (t.total_upload, t.total_download, t.total_done),
        None => (0, 0, 0),
    };
    let done: u64 = match &r.snapshot {
        Some(s) => {
            proof {
                lemma_cached_at_most(s.pieces@, s.pieces@.len());
                let c = pieces::cached_count(s.pieces@, s.pieces@.len());
                assert(c * s.piece_length <= s.pieces@.len() * s.piece_length) by (nonlinear_arith)
                    requires
                        c <= s.pieces@.len(),
                        0 <= s.piece_length,
                ;
            }
            pieces::piece_downloaded(s.pieces.as_slice(), s.piece_length)
        },
        None => reported,
    };
    text::push_text(out, "-- Status --\n");
    text::push_text(out, "  Name: ");
    text::push_text(out, r.torrent.name.as_str());
    text::push_text(out, "\n");
    text::push_text(out, "  Status: ");
    text::push_text(out, pieces::status_to_english(&status));
    text::push_text(out, "  Progress: ");
    push_torrent_percent(out, r);
    text::push_text(out, "%  Size: ");
    figures::push_bytes(out, r.torrent.total_size as u64);
    text::push_text(out, "\n");
    text::push_text(out, "  DL: ");
    figures::push_bytes(out, done);
    text::push_text(out, "  UL: ");
    figures::push_bytes(out, upload as u64);
    text::push_text(out, "  Ratio: ");
    push_share(out, upload, download);
    text::push_text(out, "\n");
}

/// Appends the rates and peers of a torrent.
fn write_torrent_peers(out: &mut String, r: &TorrentReport)
    ensures
        final(out)@ == with_torrent_peers(old(out)@, *r),
{
    let (dl_rate, ul_rate, num_peers, num_seeds): (i64, i64, i32, i32) = match &r.transfer {
        Some(t) => (t.download_rate, t.upload_rate, t.num_peers, t.num_seeds),
        None => (0, 0, 0, 0),
    };
    let (complete, active): (bool, bool) = match &r.snapshot {
        Some(s) => {
            let p: &[PieceStatus] = s.pieces.as_slice();
            (
                pieces::is_download_complete(p),
                pieces::has_cached_piece(p) || pieces::has_active_reader(p),
            )
        },
        None => (false, false),
    };
    let empty_secs: u64 = match r.empty_swarm_secs {
        Some(n) => n,
        None => 0,
    };
    text::push_text(out, "\n-- Rates --\n");
    text::push_text(out, "  Rate: ↓ ");
    figures::push_bytes(out, dl_rate as u64);
    text::push_text(out, "/s  ↑ ");
    figures::push_bytes(out, ul_rate as u64);
    text::push_text(out, "/s\n");
    text::push_text(out, "\n-- Peers --\n");
    text::push_text(out, "  Peers: ");
    text::push_dec_int(out, num_peers as i64);
    text::push_text(out, "  Seeds: ");
    text::push_dec_int(out, num_seeds as i64);
    text::push_text(out, "\n");
    match pieces::health_alert(num_peers, num_seeds, empty_secs, complete, active) {
        Some(line) => text::push_text(out, line),
        None => {},
    }
}

/// Appends the last lines of a torrent's `.stats`.
fn write_torrent_info(out: &mut String, r: &TorrentReport, cache: Option<CacheShare>)
    ensures
        final(out)@ == with_torrent_info(old(out)@, *r, cache),
{
    let is_private: bool = match r.is_private {
        Some(p) => p,
        None => false,
    };
    match cache {
        Some(c) => {
            text::push_text(out, "Cache: ");
            text::push_dec(out, c.piece_count);
            text::push_text(out, " pieces  ");
            figures::push_bytes(out, c.total_size);
            text::push_text(out, "\n");
        },
        None => {},
    }
    text::push_text(out, "info_hash: ");
    text::push_text(out, r.torrent.info_hash.as_str());
    text::push_text(out, "\n");
    text::push_text(out, "source_path: \"");
    text::push_text(out, r.torrent.source_path.as_str());
    text::push_text(out, "\"\n");
    text::push_text(out, "private: ");
    text::push_text(out, if is_private { "yes" } else { "no" });
    text::push_text(out, "  tracker_isolation: ");
    text::push_text(
        out,
        if is_private { "isolated (no cross-site merge)" } else { "merge-eligible" },
    );
    text::push_text(out, "\n");
}

/// A torrent's `.stats`. Status and progress both come from the pieces that are
/// really there, so they cannot disagree.
pub fn generate_torrent_stats(
    torrent_id: i64,
    info_hash: &str,
    report: Option<&TorrentReport>,
    cache: Option<CacheShare>,
) -> (bytes: Vec<u8>)
    requires
        report matches Some(r) ==> r.wf(),
        report is None ==> ten_bytes_whole(info_hash@),
    ensures
        bytes@ == vstd::utf8::encode_utf8(
            match report {
                Some(r) => torrent_text(*r, cache),
                None => not_found_text(torrent_id, info_hash@),
            },
        ),
{
    let r: &TorrentReport = match report {
        Some(r) => r,
        None => {
            let mut out: String = "  Torrent not found (id=".to_owned();
            text::push_dec_int(&mut out, torrent_id);
            text::push_text(&mut out, ", info_hash=");
            text::push_text(&mut out, short_hash(info_hash));
            text::push_text(&mut out, "...)\n");
            sections::write_footer(&mut out);
            return into_bytes(&out);
        },
    };
    let mut out: String = "===== torrent: ".to_owned();
    text::push_text(&mut out, r.torrent.name.as_str());
    text::push_text(&mut out, " =====\n\n");
    write_torrent_status(&mut out, r);
    write_torrent_peers(&mut out, r);
    match &r.snapshot {
        Some(s) => {
            if s.pieces.len() > 0 {
                pieces::push_piece_block(&mut out, s.piece_length, s.pieces.as_slice());
            }
        },
        None => {},
    }
    write_torrent_info(&mut out, r, cache);
    sections::write_footer(&mut out);
    into_bytes(&out)
}

// ── A directory ─────────────────────────────────────────────────────────────

/// The sum of a quantity over the first `n` torrents.
pub open spec fn sum_over(reports: Seq<TorrentReport>, f: spec_fn(TorrentReport) -> int, n: nat) -> int
    decreases n,
{
    if n == 0 {
        0
    } else {
        sum_over(reports, f, (n - 1) as nat) + f(reports[n - 1])
    }
}

/// A torrent's size; a negative one counts as none.
pub open spec fn size_of(t: Torrent) -> u64 {
    if t.total_size > 0 {
        t.total_size as u64
    } else {
        0
    }
}

/// Downloaded bytes and progress of a torrent, as the summary shows them.
pub open spec fn summary(r: TorrentReport) -> (int, Seq<char>) {
    pieces::summary_of(
        match r.snapshot {
            Some(s) => Some((s.piece_length, s.pieces@)),
            None => None,
        },
        match r.transfer {
            Some(t) => Some((t.progress@, t.total_done)),
            None => None,
        },
        size_of(r.torrent),
    )
}

pub open spec fn sizes() -> spec_fn(TorrentReport) -> int {
    |r: TorrentReport| size_of(r.torrent) as int
}

pub open spec fn downloads() -> spec_fn(TorrentReport) -> int {
    |r: TorrentReport| summary(r).0
}

pub open spec fn uploaded() -> spec_fn(TorrentReport) -> int {
    |r: TorrentReport| (transfer_of(r.transfer).total_upload as u64) as int
}

pub open spec fn downloaded() -> spec_fn(TorrentReport) -> int {
    |r: TorrentReport| (transfer_of(r.transfer).total_download as u64) as int
}

pub open spec fn dl_rates() -> spec_fn(TorrentReport) -> int {
    |r: TorrentReport| transfer_of(r.transfer).download_rate as int
}

pub open spec fn ul_rates() -> spec_fn(TorrentReport) -> int {
    |r: TorrentReport| transfer_of(r.transfer).upload_rate as int
}

pub open spec fn peer_counts() -> spec_fn(TorrentReport) -> int {
    |r: TorrentReport| transfer_of(r.transfer).num_peers as int
}

pub open spec fn seed_counts() -> spec_fn(TorrentReport) -> int {
    |r: TorrentReport| transfer_of(r.transfer).num_seeds as int
}

/// The sums over the first `n` torrents stay within their integer types.
pub open spec fn sums_fit_at(reports: Seq<TorrentReport>, n: nat) -> bool {
    &&& sum_over(reports, sizes(), n) <= u64::MAX
    &&& sum_over(reports, uploaded(), n) <= u64::MAX
    &&& sum_over(reports, downloaded(), n) <= u64::MAX
    &&& i64::MIN <= sum_over(reports, dl_rates(), n) <= i64::MAX
    &&& i64::MIN <= sum_over(reports, ul_rates(), n) <= i64::MAX
    &&& i32::MIN <= sum_over(reports, peer_counts(), n) <= i32::MAX
    &&& i32::MIN <= sum_over(reports, seed_counts(), n) <= i32::MAX
}

/// Every running sum over the torrents stays within its integer type.
pub open spec fn sums_fit(reports: Seq<TorrentReport>) -> bool {
    forall|n: nat| n <= reports.len() ==> #[trigger] sums_fit_at(reports, n)
}

/// The progress of a torrent in the summary, nothing for one without a size.
pub open spec fn summary_percent(r: TorrentReport) -> Seq<char> {
    if r.torrent.total_size > 0 {
        summary(r).1
    } else {
        "0.0"@
    }
}

/// The text with one summary line for each of the first `n` torrents.
pub open spec fn with_summary_lines(out: Seq<char>, reports: Seq<TorrentReport>, n: nat) -> Seq<char>
    decreases n,
{
    if n == 0 {
        out
    } else {
        let r = reports[n - 1];
        with_summary_lines(out, reports, (n - 1) as nat) + "  "@ + r.torrent.name@ + "  "@
            + pieces::english(r.status()) + "  "@ + summary_percent(r) + "%  "@
            + figures::bytes_text(summary(r).0 as u64) + " / "@ + figures::bytes_text(
            size_of(r.torrent),
        ) + "\n"@
    }
}

/// A torrent's name for a table: a long one is cut and marked.
pub open spec fn short_name(name: Seq<char>) -> Seq<char> {
    if vstd::utf8::encode_utf8(name).len() > 40 {
        name.take(
            if name.len() < 37 {
                name.len() as int
            } else {
                37
            },
        ) + "..."@
    } else {
        name
    }
}

/// A torrent's name for a table: a name of more than forty bytes is cut after
/// thirty-seven characters, never within one.
pub fn shorten_name(name: &str) -> (s: String)
    ensures
        s@ == short_name(name@),
{
    if name.as_bytes().len() > 40 {
        let len: usize = name.unicode_len();
        let n: usize = if len < 37 {
            len
        } else {
            37
        };
        let mut s: String = name.substring_char(0, n).to_owned();
        text::push_text(&mut s, "...");
        s
    } else {
        name.to_owned()
    }
}

/// The text with one line of the table for each of the first `n` torrents.
pub open spec fn with_detail_lines(out: Seq<char>, reports: Seq<TorrentReport>, n: nat) -> Seq<char>
    decreases n,
{
    if n == 0 {
        out
    } else {
        let r = reports[n - 1];
        let t = transfer_of(r.transfer);
        with_detail_lines(out, reports, (n - 1) as nat) + "  "@ + (if r.private() {
            "🔒"@
        } else {
            "  "@
        }) + "#"@ + figures::padded_right(text::dec(n), 3) + " "@ + figures::padded_right(
            short_name(r.torrent.name@),
            40,
        ) + " "@ + pieces::english(r.status()) + "  "@ + figures::padded_left(r.percent(), 5)
            + "%  ↓ "@ + figures::padded_right(figures::bytes_text(t.download_rate as u64), 10)
            + "/s  ↑ "@ + figures::padded_right(figures::bytes_text(t.upload_rate as u64), 10)
            + "/s  "@ + figures::padded_left(text::dec_int(t.num_peers as int), 3) + "P/"@
            + figures::padded_right(text::dec_int(t.num_seeds as int), 3) + "S\n"@
    }
}

/// The text with the cache's share of a directory's `.stats`.
pub open spec fn with_directory_cache(out: Seq<char>, cache: CacheView) -> Seq<char> {
    let head = out + "\n-- Cache --\n"@;
    match cache {
        CacheView::Absent => head + "  (none)\n"@,
        CacheView::Locked => head + "  (locked)\n"@,
        CacheView::Open { current, max, hits, misses, evictions } => head + "  Cache Usage: "@
            + figures::cache_usage_text(current, max) + "\n"@ + "  Hits: "@ + figures::num_text(
            hits as nat,
        ) + "  Misses: "@ + figures::num_text(misses as nat) + "  Hit Rate: "@
            + sections::hit_rate_text(hits, misses) + "%\n"@,
    }
}

/// The text of a directory's `.stats`.
pub open spec fn directory_text(
    source_path: Seq<char>,
    reports: Seq<TorrentReport>,
    cache: CacheView,
) -> Seq<char> {
    let n = reports.len();
    let head = "===== directory: "@ + source_path + " =====\n\n"@;
    if n == 0 {
        sections::with_footer(head + "  No torrents found under this path.\n"@)
    } else {
        let s = head + "-- Summary --\n"@ + "  Torrents: "@ + text::dec(n) + "  Total Size: "@
            + figures::bytes_text(sum_over(reports, sizes(), n) as u64) + "  Downloaded: "@
            + figures::bytes_text(sum_over(reports, downloads(), n) as u64) + "\n"@;
        let s = with_summary_lines(s, reports, n);
        let s = s + "\n-- Rates --\n"@ + "  DL Rate: ↓ "@ + figures::bytes_text(
            sum_over(reports, dl_rates(), n) as i64 as u64,
        ) + "/s  UL Rate: ↑ "@ + figures::bytes_text(
            sum_over(reports, ul_rates(), n) as i64 as u64,
        ) + "/s\n"@ + "  Total UL: "@ + figures::bytes_text(
            sum_over(reports, uploaded(), n) as u64,
        ) + "  Total DL: "@ + figures::bytes_text(sum_over(reports, downloaded(), n) as u64)
            + "\n"@ + "\n-- Peers --\n"@ + "  Peers: "@ + text::dec_int(
            sum_over(reports, peer_counts(), n),
        ) + "  Seeds: "@ + text::dec_int(sum_over(reports, seed_counts(), n)) + "\n"@;
        let s = with_directory_cache(s, cache) + "\n-- Torrents --\n"@;
        sections::with_footer(with_detail_lines(s, reports, n))
    }
}

/// Downloaded bytes and progress of a torrent, as the summary shows them.
fn summarize(r: &TorrentReport) -> (s: (u64, Progress))
    requires
        r.wf(),
    ensures
        s.0 == summary(*r).0,
        s.1.percent() == summary(*r).1,
        s.0 <= size_of(r.torrent),
{
    let size: u64 = shown_size(&r.torrent);
    let snapshot: Option<(u64, &[PieceStatus])> = match &r.snapshot {
        Some(s) => Some((s.piece_length, s.pieces.as_slice())),
        None => None,
    };
    let reported: Option<(&str, u64)> = match &r.transfer {
        Some(t) => Some((t.progress.as_str(), t.total_done)),
        None => None,
    };
    pieces::summary_torrent_stats(snapshot, reported, size)
}

/// A torrent's size; a negative one counts as none.
fn shown_size(t: &Torrent) -> (size: u64)
    ensures
        size == size_of(*t),
{
    if t.total_size > 0 {
        t.total_size as u64
    } else {
        0
    }
}

/// The numbers of a directory's torrents, added up.
struct Totals {
    size: u64,
    done: u64,
    upload: u64,
    download: u64,
    dl_rate: i64,
    ul_rate: i64,
    peers: i32,
    seeds: i32,
}

/// Adds up the numbers of a directory's torrents.
fn add_up(reports: &Vec<TorrentReport>) -> (t: Totals)
    requires
        sums_fit(reports@),
        forall|i: int| 0 <= i < reports@.len() ==> (#[trigger] reports@[i]).wf(),
    ensures
        ({
            let n = reports@.len();
            &&& t.size == sum_over(reports@, sizes(), n)
            &&& t.done == sum_over(reports@, downloads(), n)
            &&& t.upload == sum_over(reports@, uploaded(), n)
            &&& t.download == sum_over(reports@, downloaded(), n)
            &&& t.dl_rate == sum_over(reports@, dl_rates(), n)
            &&& t.ul_rate == sum_over(reports@, ul_rates(), n)
            &&& t.peers == sum_over(reports@, peer_counts(), n)
            &&& t.seeds == sum_over(reports@, seed_counts(), n)
        }),
{
    let mut t: Totals = Totals {
        size: 0,
        done: 0,
        upload: 0,
        download: 0,
        dl_rate: 0,
        ul_rate: 0,
        peers: 0,
        seeds: 0,
    };
    let mut i: usize = 0;
    while i < reports.len()
        invariant
            i <= reports@.len(),
            sums_fit(reports@),
            forall|j: int| 0 <= j < reports@.len() ==> (#[trigger] reports@[j]).wf(),
            t.size == sum_over(reports@, sizes(), i as nat),
            t.done == sum_over(reports@, downloads(), i as nat),
            t.done <= t.size,
            t.upload == sum_over(reports@, uploaded(), i as nat),
            t.download == sum_over(reports@, downloaded(), i as nat),
            t.dl_rate == sum_over(reports@, dl_rates(), i as nat),
            t.ul_rate == sum_over(reports@, ul_rates(), i as nat),
            t.peers == sum_over(reports@, peer_counts(), i as nat),
            t.seeds == sum_over(reports@, seed_counts(), i as nat),
        decreases reports@.len() - i,
    {
        let r: &TorrentReport = &reports[i];
        assert(reports@[i as int].wf());
        assert(sums_fit_at(reports@, (i + 1) as nat));
        t.size = t.size + shown_size(&r.torrent);
        match &r.transfer {
            Some(s) => {
                t.upload = t.upload + s.total_upload as u64;
                t.download = t.download + s.total_download as u64;
                t.dl_rate = t.dl_rate + s.download_rate;
                t.ul_rate = t.ul_rate + s.upload_rate;
                t.peers = t.peers + s.num_peers;
                t.seeds = t.seeds + s.num_seeds;
            },
            None => {},
        }
        let (done, progress): (u64, Progress) = summarize(r);
        t.done = t.done + done;
        i = i + 1;
    }
    t
}

/// Whether the numbers of a directory's torrents can be added up: every running
/// sum stays within its integer type.
pub fn totals_fit(reports: &Vec<TorrentReport>) -> (fit: bool)
    ensures
        fit == sums_fit(reports@),
{
    let mut size: u64 = 0;
    let mut upload: u64 = 0;
    let mut download: u64 = 0;
    let mut dl_rate: i64 = 0;
    let mut ul_rate: i64 = 0;
    let mut peers: i32 = 0;
    let mut seeds: i32 = 0;
    let mut i: usize = 0;
    while i < reports.len()
        invariant
            i <= reports@.len(),
            forall|n: nat| n <= i ==> #[trigger] sums_fit_at(reports@, n),
            size == sum_over(reports@, sizes(), i as nat),
            upload == sum_over(reports@, uploaded(), i as nat),
            download == sum_over(reports@, downloaded(), i as nat),
            dl_rate == sum_over(reports@, dl_rates(), i as nat),
            ul_rate == sum_over(reports@, ul_rates(), i as nat),
            peers == sum_over(reports@, peer_counts(), i as nat),
            seeds == sum_over(reports@, seed_counts(), i as nat),
        decreases reports@.len() - i,
    {
        let r: &TorrentReport = &reports[i];
        let ghost next = (i + 1) as nat;
        let (up, down, dl, ul, p, s): (u64, u64, i64, i64, i32, i32) = match &r.transfer {
            Some(t) => (
                t.total_upload as u64,
                t.total_download as u64,
                t.download_rate,
                t.upload_rate,
                t.num_peers,
                t.num_seeds,
            ),
            None => (0, 0, 0, 0, 0, 0),
        };
        match (
            size.checked_add(shown_size(&r.torrent)),
            upload.checked_add(up),
            download.checked_add(down),
            dl_rate.checked_add(dl),
            ul_rate.checked_add(ul),
            peers.checked_add(p),
            seeds.checked_add(s),
        ) {
            (Some(a), Some(b), Some(c), Some(d), Some(e), Some(f), Some(g)) => {
                size = a;
                upload = b;
                download = c;
                dl_rate = d;
                ul_rate = e;
                peers = f;
                seeds = g;
                assert(sums_fit_at(reports@, next));
            },
            _ => {
                assert(!sums_fit_at(reports@, next));
                return false;
            },
        }
        i = i + 1;
    }
    true
}

/// Appends one summary line for each torrent.
fn write_summary_lines(out: &mut String, reports: &Vec<TorrentReport>)
    requires
        forall|i: int| 0 <= i < reports@.len() ==> (#[trigger] reports@[i]).wf(),
    ensures
        final(out)@ == with_summary_lines(old(out)@, reports@, reports@.len()),
{
    let ghost before = out@;
    let mut i: usize = 0;
    while i < reports.len()
        invariant
            i <= reports@.len(),
            forall|j: int| 0 <= j < reports@.len() ==> (#[trigger] reports@[j]).wf(),
            out@ == with_summary_lines(before, reports@, i as nat),
        decreases reports@.len() - i,
    {
        let r: &TorrentReport = &reports[i];
        assert(reports@[i as int].wf());
        let status: TorrentStatus = pieces::display_status(&r.torrent.status, report_pieces(r));
        let (done, progress): (u64, Progress) = summarize(r);
        text::push_text(out, "  ");
        text::push_text(out, r.torrent.name.as_str());
        text::push_text(out, "  ");
        text::push_text(out, pieces::status_to_english(&status));
        text::push_text(out, "  ");
        if r.torrent.total_size > 0 {
            progress.push_percent(out);
        } else {
            text::push_text(out, "0.0");
        }
        text::push_text(out, "%  ");
        figures::push_bytes(out, done);
        text::push_text(out, " / ");
        figures::push_bytes(out, shown_size(&r.torrent));
        text::push_text(out, "\n");
        i = i + 1;
    }
}

/// Appends one line of the table for each torrent.
fn write_detail_lines(out: &mut String, reports: &Vec<TorrentReport>)
    ensures
        final(out)@ == with_detail_lines(old(out)@, reports@, reports@.len()),
{
    let ghost before = out@;
    let mut i: usize = 0;
    while i < reports.len()
        invariant
            i <= reports@.len(),
            out@ == with_detail_lines(before, reports@, i as nat),
        decreases reports@.len() - i,
    {
        let r: &TorrentReport = &reports[i];
        let status: TorrentStatus = pieces::display_status(&r.torrent.status, report_pieces(r));
        let (dl_rate, ul_rate, num_peers, num_seeds): (i64, i64, i32, i32) = match &r.transfer {
            Some(t) => (t.download_rate, t.upload_rate, t.num_peers, t.num_seeds),
            None => (0, 0, 0, 0),
        };
        let is_private: bool = match r.is_private {
            Some(p) => p,
            None => false,
        };
        let number: String = text::dec_string(i as u64 + 1);
        let name: String = shorten_name(r.torrent.name.as_str());
        let mut percent: String = String::new();
        push_torrent_percent(&mut percent, r);
        assert(percent@ =~= r.percent());
        let down: String = figures::format_bytes(dl_rate as u64);
        let up: String = figures::format_bytes(ul_rate as u64);
        let peers: String = text::dec_int_string(num_peers as i64);
        let seeds: String = text::dec_int_string(num_seeds as i64);
        text::push_text(out, "  ");
        text::push_text(out, if is_private { "🔒" } else { "  " });
        text::push_text(out, "#");
        figures::push_padded_right(out, number.as_str(), 3);
        text::push_text(out, " ");
        figures::push_padded_right(out, name.as_str(), 40);
        text::push_text(out, " ");
        text::push_text(out, pieces::status_to_english(&status));
        text::push_text(out, "  ");
        figures::push_padded_left(out, percent.as_str(), 5);
        text::push_text(out, "%  ↓ ");
        figures::push_padded_right(out, down.as_str(), 10);
        text::push_text(out, "/s  ↑ ");
        figures::push_padded_right(out, up.as_str(), 10);
        text::push_text(out, "/s  ");
        figures::push_padded_left(out, peers.as_str(), 3);
        text::push_text(out, "P/");
        figures::push_padded_right(out, seeds.as_str(), 3);
        text::push_text(out, "S\n");
        i = i + 1;
    }
}

/// Appends the cache's share of a directory's `.stats`.
fn write_directory_cache(out: &mut String, cache: CacheView)
    requires
        sections::cache_counters(cache).0 + sections::cache_counters(cache).1 <= u64::MAX,
    ensures
        final(out)@ == with_directory_cache(old(out)@, cache),
{
    text::push_text(out, "\n-- Cache --\n");
    match cache {
        CacheView::Absent => text::push_text(out, "  (none)\n"),
        CacheView::Locked => text::push_text(out, "  (locked)\n"),
        CacheView::Open { current, max, hits, misses, evictions } => {
            let usage: String = figures::format_cache_usage(current, max);
            text::push_text(out, "  Cache Usage: ");
            text::push_text(out, usage.as_str());
            text::push_text(out, "\n");
            text::push_text(out, "  Hits: ");
            figures::push_num(out, hits);
            text::push_text(out, "  Misses: ");
            figures::push_num(out, misses);
            text::push_text(out, "  Hit Rate: ");
            sections::push_hit_rate(out, hits, misses);
            text::push_text(out, "%\n");
        },
    }
}

/// A directory's `.stats`: the sums over its torrents and a line for each.
pub fn generate_directory_stats(source_path: &str, reports: &Vec<TorrentReport>, cache: CacheView) -> (bytes:
    Vec<u8>)
    requires
        sums_fit(reports@),
        forall|i: int| 0 <= i < reports@.len() ==> (#[trigger] reports@[i]).wf(),
        sections::cache_counters(cache).0 + sections::cache_counters(cache).1 <= u64::MAX,
    ensures
        bytes@ == vstd::utf8::encode_utf8(directory_text(source_path@, reports@, cache)),
{
    let mut out: String = "===== directory: ".to_owned();
    text::push_text(&mut out, source_path);
    text::push_text(&mut out, " =====\n\n");
    if reports.len() == 0 {
        text::push_text(&mut out, "  No torrents found under this path.\n");
        sections::write_footer(&mut out);
        return into_bytes(&out);
    }
    let totals: Totals = add_up(reports);
    text::push_text(&mut out, "-- Summary --\n");
    text::push_text(&mut out, "  Torrents: ");
    text::push_dec(&mut out, reports.len() as u64);
    text::push_text(&mut out, "  Total Size: ");
    figures::push_bytes(&mut out, totals.size);
    text::push_text(&mut out, "  Downloaded: ");
    figures::push_bytes(&mut out, totals.done);
    text::push_text(&mut out, "\n");
    write_summary_lines(&mut out, reports);
    text::push_text(&mut out, "\n-- Rates --\n");
    text::push_text(&mut out, "  DL Rate: ↓ ");
    figures::push_bytes(&mut out, totals.dl_rate as u64);
    text::push_text(&mut out, "/s  UL Rate: ↑ ");
    figures::push_bytes(&mut out, totals.ul_rate as u64);
    text::push_text(&mut out, "/s\n");
    text::push_text(&mut out, "  Total UL: ");
    figures::push_bytes(&mut out, totals.upload);
    text::push_text(&mut out, "  Total DL: ");
    figures::push_bytes(&mut out, totals.download);
    text::push_text(&mut out, "\n");
    text::push_text(&mut out, "\n-- Peers --\n");
    text::push_text(&mut out, "  Peers: ");
    text::push_dec_int(&mut out, totals.peers as i64);
    text::push_text(&mut out, "  Seeds: ");
    text::push_dec_int(&mut out, totals.seeds as i64);
    text::push_text(&mut out, "\n");
    write_directory_cache(&mut out, cache);
    text::push_text(&mut out, "\n-- Torrents --\n");
    write_detail_lines(&mut out, reports);
    sections::write_footer(&mut out);
    into_bytes(&out)
}

// ── Laws ────────────────────────────────────────────────────────────────────

/// The summary and the table of one directory show the same progress for a
/// torrent whose transfer is known and that has a size on both sides.
pub proof fn law_one_progress_per_torrent(r: TorrentReport)
    requires
        r.torrent.total_size > 0,
        transfer_of(r.transfer).total > 0,
    ensures
        summary_percent(r) == r.percent(),
{
}

/// The bytes that a directory reports as downloaded never exceed its size.
pub proof fn law_downloaded_at_most_size(reports: Seq<TorrentReport>, n: nat)
    requires
        n <= reports.len(),
    ensures
        sum_over(reports, downloads(), n) <= sum_over(reports, sizes(), n),
    decreases n,
{
    if n > 0 {
        law_downloaded_at_most_size(reports, (n - 1) as nat);
        let r = reports[n - 1];
        match r.snapshot {
            Some(s) => {
                pieces::lemma_cached_bytes(
                    s.pieces@,
                    s.piece_length,
                    size_of(r.torrent),
                    s.pieces@.len(),
                );
            },
            None => {},
        }
    }
}

} // verus!
