//! The sections that `.stats` files are made of.
use vstd::hash_set::StringHashSet;
use vstd::prelude::*;

use crate::db::types::Torrent;
use crate::stats::figures;
use crate::text;

verus! {

/// The version that the banner names.
pub const VERSION: &'static str = "0.1.0";

/// The line above and below the banner, and at the end of every file.
pub const BANNER_LINE: &'static str = "===========================================================";

/// Counters of the swarm session.
#[derive(Debug, Clone, Copy, PartialEq, Eq, Structural)]
pub struct SessionStats {
    pub dht_nodes: i64,
    pub download_rate: i64,
    pub upload_rate: i64,
    pub total_downloaded: i64,
    pub total_uploaded: i64,
    pub peers_connected: i64,
    pub half_open_connections: i64,
}

/// What could be learnt of the piece cache without waiting for it.
#[derive(Debug, Clone, Copy, PartialEq, Eq, Structural)]
pub enum CacheView {
    /// There is no cache.
    Absent,
    /// Somebody else is using it.
    Locked,
    /// Its size, its limit and its counters.
    Open { current: u64, max: u64, hits: u64, misses: u64, evictions: u64 },
}

/// Numbers of torrents by status.
#[derive(Debug, Clone, Copy, PartialEq, Eq, Structural)]
pub struct StatusCounts {
    pub pending: i64,
    pub downloading: i64,
    pub seeding: i64,
    pub error: i64,
    pub total: i64,
}

/// Counters of the filesystem itself.
#[derive(Debug, Clone, Copy, PartialEq, Eq, Structural)]
pub struct MetricsSnapshot {
    pub l1_hits: u64,
    pub l1_misses: u64,
    pub l1_entries: u64,
    pub l2_hits: u64,
    pub l2_misses: u64,
    pub l3_hits: u64,
    pub l3_misses: u64,
    pub deferred_reads: u64,
    pub pending_reads_current: u64,
    pub pending_reads_peak: u64,
    pub poll_hits: u64,
    pub poll_checks: u64,
    pub download_queue_current: u64,
    pub download_queue_peak: u64,
    pub workers_active: u64,
    pub workers_peak: u64,
    pub lock_acquires: u64,
    pub lock_wait_nanos: u64,
}

impl MetricsSnapshot {
    /// Every counter at zero.
    pub open spec fn zero() -> MetricsSnapshot {
        MetricsSnapshot {
            l1_hits: 0,
            l1_misses: 0,
            l1_entries: 0,
            l2_hits: 0,
            l2_misses: 0,
            l3_hits: 0,
            l3_misses: 0,
            deferred_reads: 0,
            pending_reads_current: 0,
            pending_reads_peak: 0,
            poll_hits: 0,
            poll_checks: 0,
            download_queue_current: 0,
            download_queue_peak: 0,
            workers_active: 0,
            workers_peak: 0,
            lock_acquires: 0,
            lock_wait_nanos: 0,
        }
    }

    /// Hits and misses can be added up.
    pub open spec fn wf(self) -> bool {
        &&& self.l1_hits + self.l1_misses <= u64::MAX
        &&& self.l2_hits + self.l2_misses <= u64::MAX
        &&& self.l3_hits + self.l3_misses <= u64::MAX
        &&& self.poll_hits + self.poll_checks <= u64::MAX
    }
}

impl Default for MetricsSnapshot {
    fn default() -> (m: Self)
        ensures
            m == MetricsSnapshot::zero(),
    {
        MetricsSnapshot {
            l1_hits: 0,
            l1_misses: 0,
            l1_entries: 0,
            l2_hits: 0,
            l2_misses: 0,
            l3_hits: 0,
            l3_misses: 0,
            deferred_reads: 0,
            pending_reads_current: 0,
            pending_reads_peak: 0,
            poll_hits: 0,
            poll_checks: 0,
            download_queue_current: 0,
            download_queue_peak: 0,
            workers_active: 0,
            workers_peak: 0,
            lock_acquires: 0,
            lock_wait_nanos: 0,
        }
    }
}

// ── Banner ──────────────────────────────────────────────────────────────────

/// The text with the banner behind it.
pub open spec fn with_banner(out: Seq<char>, subtitle: Option<&str>) -> Seq<char> {
    let head = out + BANNER_LINE@ + "\n"@ + "  torrentfs v"@ + VERSION@;
    let title = match subtitle {
        Some(sub) => head + " — "@ + sub@,
        None => head,
    };
    title + "\n"@ + BANNER_LINE@ + "\n"@ + "\n\n"@
}

/// Appends the banner with the version.
pub fn write_banner(out: &mut String, subtitle: Option<&str>)
    ensures
        final(out)@ == with_banner(old(out)@, subtitle),
{
    text::push_text(out, BANNER_LINE);
    text::push_text(out, "\n");
    text::push_text(out, "  torrentfs v");
    text::push_text(out, VERSION);
    match subtitle {
        Some(sub) => {
            text::push_text(out, " — ");
            text::push_text(out, sub);
        },
        None => {},
    }
    text::push_text(out, "\n");
    text::push_text(out, BANNER_LINE);
    text::push_text(out, "\n");
    text::push_text(out, "\n\n");
}

/// The text with the closing line behind it.
pub open spec fn with_footer(out: Seq<char>) -> Seq<char> {
    out + "\n"@ + BANNER_LINE@ + "\n"@
}

/// Appends the closing line.
pub fn write_footer(out: &mut String)
    ensures
        final(out)@ == with_footer(old(out)@),
{
    text::push_text(out, "\n");
    text::push_text(out, BANNER_LINE);
    text::push_text(out, "\n");
}

// ── Overview ────────────────────────────────────────────────────────────────

/// Size, limit and name of the cache, for the overview.
pub open spec fn cache_overview(cache: CacheView) -> (u64, u64, Seq<char>) {
    match cache {
        CacheView::Absent => (0, 0, "(none)"@),
        CacheView::Locked => (0, 0, "(locked)"@),
        CacheView::Open { current, max, hits, misses, evictions } => (current, max, "(cache)"@),
    }
}

/// The text with the overview behind it.
pub open spec fn with_overview(
    out: Seq<char>,
    uptime_secs: nat,
    has_db: bool,
    session: Option<SessionStats>,
    cache: CacheView,
    listen_addr: Seq<char>,
) -> Seq<char> {
    let c = cache_overview(cache);
    let head = out + "-- Overview --\n"@ + "  Uptime:       "@ + text::dec(uptime_secs / 3600)
        + "h "@ + text::dec(uptime_secs % 3600 / 60) + "m "@ + text::dec(uptime_secs % 60)
        + "s\n"@ + "  Mount:        (dynamic)\n"@ + "  Database:     "@ + (if has_db {
        "(active)"@
    } else {
        "(none)"@
    }) + "\n"@ + "  Cache Dir:    "@ + c.2 + "\n"@ + "  Cache Usage:  "@
        + figures::cache_usage_text(c.0, c.1) + "\n"@;
    match session {
        Some(ss) => head + "  Listen:       "@ + listen_addr + "\n"@ + "  DHT Nodes:    "@
            + text::dec_int(ss.dht_nodes as int) + "\n"@,
        None => head + "  Listen:       (not available)\n"@ + "  DHT Nodes:    —\n"@,
    }
}

/// Appends the overview.
pub fn write_overview(
    out: &mut String,
    now_secs: u64,
    creation_secs: u64,
    has_db: bool,
    session: Option<SessionStats>,
    cache: CacheView,
    listen_addr: &str,
)
    ensures
        final(out)@ == with_overview(
            old(out)@,
            uptime(now_secs, creation_secs),
            has_db,
            session,
            cache,
            listen_addr@,
        ),
{
    let uptime_secs: u64 = now_secs.saturating_sub(creation_secs);
    text::push_text(out, "-- Overview --\n");
    text::push_text(out, "  Uptime:       ");
    text::push_dec(out, uptime_secs / 3600);
    text::push_text(out, "h ");
    text::push_dec(out, uptime_secs % 3600 / 60);
    text::push_text(out, "m ");
    text::push_dec(out, uptime_secs % 60);
    text::push_text(out, "s\n");
    text::push_text(out, "  Mount:        (dynamic)\n");
    text::push_text(out, "  Database:     ");
    text::push_text(out, if has_db { "(active)" } else { "(none)" });
    text::push_text(out, "\n");
    let (current, max, dir): (u64, u64, &str) = match cache {
        CacheView::Absent => (0, 0, "(none)"),
        CacheView::Locked => (0, 0, "(locked)"),
        CacheView::Open { current, max, hits, misses, evictions } => (current, max, "(cache)"),
    };
    text::push_text(out, "  Cache Dir:    ");
    text::push_text(out, dir);
    text::push_text(out, "\n");
    text::push_text(out, "  Cache Usage:  ");
    let usage: String = figures::format_cache_usage(current, max);
    text::push_text(out, usage.as_str());
    text::push_text(out, "\n");
    match session {
        Some(ss) => {
            text::push_text(out, "  Listen:       ");
            text::push_text(out, listen_addr);
            text::push_text(out, "\n");
            text::push_text(out, "  DHT Nodes:    ");
            text::push_dec_int(out, ss.dht_nodes);
            text::push_text(out, "\n");
        },
        None => {
            text::push_text(out, "  Listen:       (not available)\n");
            text::push_text(out, "  DHT Nodes:    —\n");
        },
    }
}

/// Seconds since the start, none when the clock went back.
pub open spec fn uptime(now_secs: u64, creation_secs: u64) -> nat {
    if now_secs >= creation_secs {
        (now_secs - creation_secs) as nat
    } else {
        0
    }
}

// ── Rates and connections ───────────────────────────────────────────────────

/// The text with the global rates behind it.
pub open spec fn with_global_rates(out: Seq<char>, session: Option<SessionStats>) -> Seq<char> {
    let head = out + "\n-- Global Rates --\n"@;
    match session {
        Some(ss) => head + "  Download Rate:  "@ + figures::bytes_text(ss.download_rate as u64)
            + "/s\n"@ + "  Upload Rate:    "@ + figures::bytes_text(ss.upload_rate as u64) + "/s\n"@
            + "  Total DL:       "@ + figures::bytes_text(ss.total_downloaded as u64) + "\n"@
            + "  Total UL:       "@ + figures::bytes_text(ss.total_uploaded as u64) + "\n"@,
        None => head + "  Download Rate:  —\n"@ + "  Upload Rate:    —\n"@
            + "  Total DL:       —\n"@ + "  Total UL:       —\n"@,
    }
}

/// Appends the global rates.
pub fn write_global_rates(out: &mut String, session: Option<SessionStats>)
    ensures
        final(out)@ == with_global_rates(old(out)@, session),
{
    text::push_text(out, "\n-- Global Rates --\n");
    match session {
        Some(ss) => {
            text::push_text(out, "  Download Rate:  ");
            figures::push_bytes(out, ss.download_rate as u64);
            text::push_text(out, "/s\n");
            text::push_text(out, "  Upload Rate:    ");
            figures::push_bytes(out, ss.upload_rate as u64);
            text::push_text(out, "/s\n");
            text::push_text(out, "  Total DL:       ");
            figures::push_bytes(out, ss.total_downloaded as u64);
            text::push_text(out, "\n");
            text::push_text(out, "  Total UL:       ");
            figures::push_bytes(out, ss.total_uploaded as u64);
            text::push_text(out, "\n");
        },
        None => {
            text::push_text(out, "  Download Rate:  —\n");
            text::push_text(out, "  Upload Rate:    —\n");
            text::push_text(out, "  Total DL:       —\n");
            text::push_text(out, "  Total UL:       —\n");
        },
    }
}

/// The text with the connections behind it.
pub open spec fn with_connections(out: Seq<char>, session: Option<SessionStats>) -> Seq<char> {
    let head = out + "\n-- Connections --\n"@;
    match session {
        Some(ss) => head + "  Connected:      "@ + text::dec_int(ss.peers_connected as int) + "\n"@
            + "  Half-open:      "@ + text::dec_int(ss.half_open_connections as int) + "\n"@
            + "  Total Attempts: —\n"@,
        None => head + "  Connected:      —\n"@ + "  Half-open:      —\n"@
            + "  Total Attempts: —\n"@,
    }
}

/// Appends the connections.
pub fn write_connections(out: &mut String, session: Option<SessionStats>)
    ensures
        final(out)@ == with_connections(old(out)@, session),
{
    text::push_text(out, "\n-- Connections --\n");
    match session {
        Some(ss) => {
            text::push_text(out, "  Connected:      ");
            text::push_dec_int(out, ss.peers_connected);
            text::push_text(out, "\n");
            text::push_text(out, "  Half-open:      ");
            text::push_dec_int(out, ss.half_open_connections);
            text::push_text(out, "\n");
            text::push_text(out, "  Total Attempts: —\n");
        },
        None => {
            text::push_text(out, "  Connected:      —\n");
            text::push_text(out, "  Half-open:      —\n");
            text::push_text(out, "  Total Attempts: —\n");
        },
    }
}

// ── Torrent counts ──────────────────────────────────────────────────────────

/// The different info hashes among the first `n` torrents.
pub open spec fn info_hashes(torrents: Seq<Torrent>, n: nat) -> Set<Seq<char>>
    decreases n,
{
    if n == 0 {
        Set::empty()
    } else {
        info_hashes(torrents, (n - 1) as nat).insert(torrents[n - 1].info_hash@)
    }
}

/// Number of different info hashes.
pub fn count_unique(torrents: &Vec<Torrent>) -> (n: usize)
    ensures
        n == info_hashes(torrents@, torrents@.len()).len(),
{
    let mut seen: StringHashSet = StringHashSet::new();
    let mut i: usize = 0;
    while i < torrents.len()
        invariant
            i <= torrents@.len(),
            seen@ == info_hashes(torrents@, i as nat),
        decreases torrents@.len() - i,
    {
        seen.insert(torrents[i].info_hash.clone());
        i = i + 1;
    }
    seen.len()
}

/// The text with the torrent counts behind it.
pub open spec fn with_torrent_counts(out: Seq<char>, counts: StatusCounts, unique: nat) -> Seq<char> {
    out + "\n-- Torrents --\n"@ + "  Total: "@ + text::dec_int(counts.total as int)
        + "  Unique: "@ + text::dec(unique) + "  Pending: "@ + text::dec_int(
        counts.pending as int,
    ) + "  Downloading: "@ + text::dec_int(counts.downloading as int) + "  Seeding: "@
        + text::dec_int(counts.seeding as int) + "  Error: "@ + text::dec_int(counts.error as int)
        + "\n"@
}

/// Appends the torrent counts.
pub fn write_torrent_overview_counts(out: &mut String, counts: StatusCounts, torrents: &Vec<Torrent>)
    ensures
        final(out)@ == with_torrent_counts(
            old(out)@,
            counts,
            info_hashes(torrents@, torrents@.len()).len(),
        ),
{
    let unique: usize = count_unique(torrents);
    text::push_text(out, "\n-- Torrents --\n");
    text::push_text(out, "  Total: ");
    text::push_dec_int(out, counts.total);
    text::push_text(out, "  Unique: ");
    text::push_dec(out, unique as u64);
    text::push_text(out, "  Pending: ");
    text::push_dec_int(out, counts.pending);
    text::push_text(out, "  Downloading: ");
    text::push_dec_int(out, counts.downloading);
    text::push_text(out, "  Seeding: ");
    text::push_dec_int(out, counts.seeding);
    text::push_text(out, "  Error: ");
    text::push_dec_int(out, counts.error);
    text::push_text(out, "\n");
}

// ── Cache, performance, observability ───────────────────────────────────────

/// The cache's counters, as far as they could be learnt.
pub open spec fn cache_counters(cache: CacheView) -> (u64, u64, u64) {
    match cache {
        CacheView::Open { current, max, hits, misses, evictions } => (hits, misses, evictions),
        _ => (0, 0, 0),
    }
}

/// Share of hits in percent with one decimal.
pub open spec fn hit_rate_text(hits: u64, misses: u64) -> Seq<char> {
    figures::percent_text(hits, (hits + misses) as u64)
}

/// Appends the share of hits in percent with one decimal.
pub fn push_hit_rate(out: &mut String, hits: u64, misses: u64)
    requires
        hits + misses <= u64::MAX,
    ensures
        final(out)@ == old(out)@ + hit_rate_text(hits, misses),
{
    figures::push_percent(out, hits, hits + misses);
}

/// The text with the cache summary behind it.
pub open spec fn with_cache_summary(out: Seq<char>, cache: CacheView) -> Seq<char> {
    let c = cache_counters(cache);
    out + "\n-- Cache --\n"@ + "  Hits: "@ + figures::num_text(c.0 as nat) + "  Misses: "@
        + figures::num_text(c.1 as nat) + "  Hit Rate: "@ + hit_rate_text(c.0, c.1)
        + "%  Evictions: "@ + figures::num_text(c.2 as nat) + "\n"@
}

/// Appends the cache summary.
pub fn write_global_cache_summary(out: &mut String, cache: CacheView)
    requires
        cache_counters(cache).0 + cache_counters(cache).1 <= u64::MAX,
    ensures
        final(out)@ == with_cache_summary(old(out)@, cache),
{
    let (hits, misses, evictions): (u64, u64, u64) = match cache {
        CacheView::Open { current, max, hits, misses, evictions } => (hits, misses, evictions),
        _ => (0, 0, 0),
    };
    text::push_text(out, "\n-- Cache --\n");
    text::push_text(out, "  Hits: ");
    figures::push_num(out, hits);
    text::push_text(out, "  Misses: ");
    figures::push_num(out, misses);
    text::push_text(out, "  Hit Rate: ");
    push_hit_rate(out, hits, misses);
    text::push_text(out, "%  Evictions: ");
    figures::push_num(out, evictions);
    text::push_text(out, "\n");
}

/// The text with the performance section behind it.
pub open spec fn with_performance(out: Seq<char>) -> Seq<char> {
    out + "\n-- Performance --\n"@ + "  Tick Interval:  1000 ms\n"@ + "  Memory (RSS):   —\n"@
}

/// Appends the performance section.
pub fn write_performance(out: &mut String)
    ensures
        final(out)@ == with_performance(old(out)@),
{
    text::push_text(out, "\n-- Performance --\n");
    text::push_text(out, "  Tick Interval:  1000 ms\n");
    text::push_text(out, "  Memory (RSS):   —\n");
}

/// The average wait for a lock in microseconds.
pub open spec fn average_wait_us(m: MetricsSnapshot) -> nat {
    if m.lock_acquires > 0 {
        (m.lock_wait_nanos as nat / m.lock_acquires as nat) / 1000
    } else {
        0
    }
}

/// The text with the filesystem's own counters behind it.
pub open spec fn with_observability(out: Seq<char>, m: MetricsSnapshot) -> Seq<char> {
    let caches = out + "\n-- Observability --\n"@ + "  Cache L1 (memory):   hits "@
        + figures::num_text(m.l1_hits as nat) + "  misses "@ + figures::num_text(
        m.l1_misses as nat,
    ) + "  hit rate "@ + hit_rate_text(m.l1_hits, m.l1_misses) + "%  entries "@
        + figures::num_text(m.l1_entries as nat) + "\n"@ + "  Cache L2 (disk):     hits "@
        + figures::num_text(m.l2_hits as nat) + "  misses "@ + figures::num_text(
        m.l2_misses as nat,
    ) + "  hit rate "@ + hit_rate_text(m.l2_hits, m.l2_misses) + "%\n"@
        + "  Cache L3 (metadata): hits "@ + figures::num_text(m.l3_hits as nat) + "  misses "@
        + figures::num_text(m.l3_misses as nat) + "  hit rate "@ + hit_rate_text(
        m.l3_hits,
        m.l3_misses,
    ) + "%\n"@;
    let reads = caches + "  Deferred reads:      "@ + figures::num_text(m.deferred_reads as nat)
        + "  Pending: "@ + figures::num_text(m.pending_reads_current as nat) + " current / "@
        + figures::num_text(m.pending_reads_peak as nat) + " peak\n"@
        + "  Poll hit rate:       hits "@ + figures::num_text(m.poll_hits as nat) + " / checks "@
        + figures::num_text(m.poll_checks as nat) + " ("@ + hit_rate_text(
        m.poll_hits,
        m.poll_checks,
    ) + "%)\n"@;
    reads + "  Download queue:      "@ + figures::num_text(m.download_queue_current as nat)
        + " current / "@ + figures::num_text(m.download_queue_peak as nat) + " peak\n"@
        + "  Workers:             "@ + figures::num_text(m.workers_active as nat) + " active / "@
        + figures::num_text(m.workers_peak as nat) + " peak\n"@ + "  Lock wait:           "@
        + figures::num_text(m.lock_acquires as nat) + " acquisitions, avg "@ + figures::num_text(
        average_wait_us(m),
    ) + " µs (total "@ + text::dec(m.lock_wait_nanos as nat / 1_000_000) + " ms)\n"@
}

/// Appends the filesystem's own counters; zeros when there are none.
pub fn write_observability(out: &mut String, metrics: Option<MetricsSnapshot>)
    requires
        metrics matches Some(m) ==> m.wf(),
    ensures
        final(out)@ == with_observability(
            old(out)@,
            match metrics {
                Some(m) => m,
                None => MetricsSnapshot::zero(),
            },
        ),
{
    let m: MetricsSnapshot = match metrics {
        Some(m) => m,
        None => MetricsSnapshot::default(),
    };
    text::push_text(out, "\n-- Observability --\n");
    text::push_text(out, "  Cache L1 (memory):   hits ");
    figures::push_num(out, m.l1_hits);
    text::push_text(out, "  misses ");
    figures::push_num(out, m.l1_misses);
    text::push_text(out, "  hit rate ");
    push_hit_rate(out, m.l1_hits, m.l1_misses);
    text::push_text(out, "%  entries ");
    figures::push_num(out, m.l1_entries);
    text::push_text(out, "\n");
    text::push_text(out, "  Cache L2 (disk):     hits ");
    figures::push_num(out, m.l2_hits);
    text::push_text(out, "  misses ");
    figures::push_num(out, m.l2_misses);
    text::push_text(out, "  hit rate ");
    push_hit_rate(out, m.l2_hits, m.l2_misses);
    text::push_text(out, "%\n");
    text::push_text(out, "  Cache L3 (metadata): hits ");
    figures::push_num(out, m.l3_hits);
    text::push_text(out, "  misses ");
    figures::push_num(out, m.l3_misses);
    text::push_text(out, "  hit rate ");
    push_hit_rate(out, m.l3_hits, m.l3_misses);
    text::push_text(out, "%\n");
    text::push_text(out, "  Deferred reads:      ");
    figures::push_num(out, m.deferred_reads);
    text::push_text(out, "  Pending: ");
    figures::push_num(out, m.pending_reads_current);
    text::push_text(out, " current / ");
    figures::push_num(out, m.pending_reads_peak);
    text::push_text(out, " peak\n");
    text::push_text(out, "  Poll hit rate:       hits ");
    figures::push_num(out, m.poll_hits);
    text::push_text(out, " / checks ");
    figures::push_num(out, m.poll_checks);
    text::push_text(out, " (");
    push_hit_rate(out, m.poll_hits, m.poll_checks);
    text::push_text(out, "%)\n");
    text::push_text(out, "  Download queue:      ");
    figures::push_num(out, m.download_queue_current);
    text::push_text(out, " current / ");
    figures::push_num(out, m.download_queue_peak);
    text::push_text(out, " peak\n");
    text::push_text(out, "  Workers:             ");
    figures::push_num(out, m.workers_active);
    text::push_text(out, " active / ");
    figures::push_num(out, m.workers_peak);
    text::push_text(out, " peak\n");
    let average: u64 = if m.lock_acquires > 0 {
        m.lock_wait_nanos / m.lock_acquires / 1000
    } else {
        0
    };
    text::push_text(out, "  Lock wait:           ");
    figures::push_num(out, m.lock_acquires);
    text::push_text(out, " acquisitions, avg ");
    figures::push_num(out, average);
    text::push_text(out, " µs (total ");
    text::push_dec(out, m.lock_wait_nanos / 1_000_000);
    text::push_text(out, " ms)\n");
}

} // verus!
