//! What the `.stats` files tell: each line shows the number that its label names.
use vstd::prelude::*;

use crate::db::types::Torrent;
use crate::stats::figures;
use crate::stats::reports;
use crate::stats::sections;
use crate::stats::sections::{CacheView, MetricsSnapshot, SessionStats, StatusCounts};
use crate::text;

verus! {

/// Whether a text shows a passage.
#[verifier::opaque]
pub open spec fn shows(s: Seq<char>, passage: Seq<char>) -> bool {
    exists|i: int|
        0 <= i && i + passage.len() <= s.len() && #[trigger] s.subrange(i, i + passage.len())
            == passage
}

/// What a text shows it still shows when more is written.
pub broadcast proof fn lemma_shows_more(s: Seq<char>, more: Seq<char>, passage: Seq<char>)
    requires
        shows(s, passage),
    ensures
        #[trigger] shows(s + more, passage),
{
    reveal(shows);
    let i = choose|i: int|
        0 <= i && i + passage.len() <= s.len() && #[trigger] s.subrange(i, i + passage.len())
            == passage;
    assert((s + more).subrange(i, i + passage.len()) =~= passage);
}

/// A text shows what was written to it last.
pub proof fn lemma_shows_last(s: Seq<char>, a: Seq<char>, b: Seq<char>, c: Seq<char>)
    ensures
        shows(s + a + b + c, a + b + c),
{
    reveal(shows);
    let all = s + a + b + c;
    let passage = a + b + c;
    let i: int = s.len() as int;
    assert(all.subrange(i, i + passage.len()) =~= passage);
}

// ── Each section keeps what stands before it ────────────────────────────────

proof fn lemma_rates_keeps(out: Seq<char>, session: Option<SessionStats>)
    ensures
        forall|p: Seq<char>| shows(out, p) ==> #[trigger] shows(
            sections::with_global_rates(out, session),
            p,
        ),
{
    broadcast use lemma_shows_more;

}

proof fn lemma_connections_keeps(out: Seq<char>, session: Option<SessionStats>)
    ensures
        forall|p: Seq<char>| shows(out, p) ==> #[trigger] shows(
            sections::with_connections(out, session),
            p,
        ),
{
    broadcast use lemma_shows_more;

}

proof fn lemma_counts_keeps(out: Seq<char>, counts: StatusCounts, unique: nat)
    ensures
        forall|p: Seq<char>| shows(out, p) ==> #[trigger] shows(
            sections::with_torrent_counts(out, counts, unique),
            p,
        ),
{
    broadcast use lemma_shows_more;

}

proof fn lemma_cache_keeps(out: Seq<char>, cache: CacheView)
    ensures
        forall|p: Seq<char>| shows(out, p) ==> #[trigger] shows(
            sections::with_cache_summary(out, cache),
            p,
        ),
{
    broadcast use lemma_shows_more;

}

proof fn lemma_performance_keeps(out: Seq<char>)
    ensures
        forall|p: Seq<char>| shows(out, p) ==> #[trigger] shows(sections::with_performance(out), p),
{
    broadcast use lemma_shows_more;

}

proof fn lemma_observability_keeps(out: Seq<char>, m: MetricsSnapshot)
    ensures
        forall|p: Seq<char>| shows(out, p) ==> #[trigger] shows(
            sections::with_observability(out, m),
            p,
        ),
{
    broadcast use lemma_shows_more;

}

pub proof fn lemma_footer_keeps(out: Seq<char>)
    ensures
        forall|p: Seq<char>| shows(out, p) ==> #[trigger] shows(sections::with_footer(out), p),
{
    broadcast use lemma_shows_more;

}

/// What stands before a section of the filesystem's `.stats` is in the whole text.
proof fn lemma_global_keeps(
    uptime_secs: nat,
    has_db: bool,
    counts: StatusCounts,
    unique: nat,
    session: Option<SessionStats>,
    cache: CacheView,
    listen_addr: Seq<char>,
    metrics: MetricsSnapshot,
)
    ensures
        ({
            let s1 = sections::with_overview(
                sections::with_banner(Seq::empty(), None),
                uptime_secs,
                has_db,
                session,
                cache,
                listen_addr,
            );
            let s2 = sections::with_global_rates(s1, session);
            let s3 = sections::with_connections(s2, session);
            let s4 = sections::with_torrent_counts(s3, counts, unique);
            let s5 = sections::with_cache_summary(s4, cache);
            let s6 = sections::with_observability(sections::with_performance(s5), metrics);
            let s = reports::global_text(
                uptime_secs,
                has_db,
                counts,
                unique,
                session,
                cache,
                listen_addr,
                metrics,
            );
            forall|p: Seq<char>|
                (shows(s1, p) || shows(s2, p) || shows(s3, p) || shows(s4, p) || shows(s5, p)
                    || shows(s6, p)) ==> #[trigger] shows(s, p)
        }),
{
    let s1 = sections::with_overview(
        sections::with_banner(Seq::empty(), None),
        uptime_secs,
        has_db,
        session,
        cache,
        listen_addr,
    );
    lemma_rates_keeps(s1, session);
    let s2 = sections::with_global_rates(s1, session);
    lemma_connections_keeps(s2, session);
    let s3 = sections::with_connections(s2, session);
    lemma_counts_keeps(s3, counts, unique);
    let s4 = sections::with_torrent_counts(s3, counts, unique);
    lemma_cache_keeps(s4, cache);
    let s5 = sections::with_cache_summary(s4, cache);
    lemma_performance_keeps(s5);
    let s6 = sections::with_performance(s5);
    lemma_observability_keeps(s6, metrics);
    lemma_footer_keeps(sections::with_observability(s6, metrics));
}

// ── Each section shows its own numbers ──────────────────────────────────────

/// The overview.
proof fn lemma_overview_show(
    out: Seq<char>,
    uptime_secs: nat,
    has_db: bool,
    session: SessionStats,
    cache: CacheView,
    listen_addr: Seq<char>,
)
    ensures
        ({
            let c = sections::cache_overview(cache);
            let s = sections::with_overview(
                out,
                uptime_secs,
                has_db,
                Some(session),
                cache,
                listen_addr,
            );
            &&& shows(s, "  Uptime:       "@ + text::dec(uptime_secs / 3600) + "h "@)
            &&& shows(s, "h "@ + text::dec(uptime_secs % 3600 / 60) + "m "@)
            &&& shows(s, "m "@ + text::dec(uptime_secs % 60) + "s\n"@)
            &&& shows(
                s,
                "  Database:     "@ + (if has_db { "(active)"@ } else { "(none)"@ }) + "\n"@,
            )
            &&& shows(s, "  Cache Dir:    "@ + c.2 + "\n"@)
            &&& shows(s, "  Cache Usage:  "@ + figures::cache_usage_text(c.0, c.1) + "\n"@)
            &&& shows(s, "  Listen:       "@ + listen_addr + "\n"@)
            &&& shows(s, "  DHT Nodes:    "@ + text::dec_int(session.dht_nodes as int) + "\n"@)
        }),
{
    broadcast use lemma_shows_more;

    let c = sections::cache_overview(cache);
    let s0 = out + "-- Overview --\n"@;
    lemma_shows_last(s0, "  Uptime:       "@, text::dec(uptime_secs / 3600), "h "@);
    let s1 = s0 + "  Uptime:       "@ + text::dec(uptime_secs / 3600);
    lemma_shows_last(s1, "h "@, text::dec(uptime_secs % 3600 / 60), "m "@);
    let s2 = s1 + "h "@ + text::dec(uptime_secs % 3600 / 60);
    lemma_shows_last(s2, "m "@, text::dec(uptime_secs % 60), "s\n"@);
    let s3 = s2 + "m "@ + text::dec(uptime_secs % 60) + "s\n"@ + "  Mount:        (dynamic)\n"@;
    lemma_shows_last(
        s3,
        "  Database:     "@,
        (if has_db { "(active)"@ } else { "(none)"@ }),
        "\n"@,
    );
    let s4 = s3 + "  Database:     "@ + (if has_db { "(active)"@ } else { "(none)"@ }) + "\n"@;
    lemma_shows_last(s4, "  Cache Dir:    "@, c.2, "\n"@);
    let s5 = s4 + "  Cache Dir:    "@ + c.2 + "\n"@;
    lemma_shows_last(s5, "  Cache Usage:  "@, figures::cache_usage_text(c.0, c.1), "\n"@);
    let s6 = s5 + "  Cache Usage:  "@ + figures::cache_usage_text(c.0, c.1) + "\n"@;
    lemma_shows_last(s6, "  Listen:       "@, listen_addr, "\n"@);
    let s7 = s6 + "  Listen:       "@ + listen_addr + "\n"@;
    lemma_shows_last(s7, "  DHT Nodes:    "@, text::dec_int(session.dht_nodes as int), "\n"@);
}

/// The rates and totals.
proof fn lemma_rates_show(out: Seq<char>, session: SessionStats)
    ensures
        ({
            let s = sections::with_global_rates(out, Some(session));
            &&& shows(
                s,
                "  Download Rate:  "@ + figures::bytes_text(session.download_rate as u64) + "/s\n"@,
            )
            &&& shows(
                s,
                "  Upload Rate:    "@ + figures::bytes_text(session.upload_rate as u64) + "/s\n"@,
            )
            &&& shows(
                s,
                "  Total DL:       "@ + figures::bytes_text(session.total_downloaded as u64)
                    + "\n"@,
            )
            &&& shows(
                s,
                "  Total UL:       "@ + figures::bytes_text(session.total_uploaded as u64) + "\n"@,
            )
        }),
{
    broadcast use lemma_shows_more;

    let s0 = out + "\n-- Global Rates --\n"@;
    lemma_shows_last(
        s0,
        "  Download Rate:  "@,
        figures::bytes_text(session.download_rate as u64),
        "/s\n"@,
    );
    let s1 = s0 + "  Download Rate:  "@ + figures::bytes_text(session.download_rate as u64)
        + "/s\n"@;
    lemma_shows_last(
        s1,
        "  Upload Rate:    "@,
        figures::bytes_text(session.upload_rate as u64),
        "/s\n"@,
    );
    let s2 = s1 + "  Upload Rate:    "@ + figures::bytes_text(session.upload_rate as u64) + "/s\n"@;
    lemma_shows_last(
        s2,
        "  Total DL:       "@,
        figures::bytes_text(session.total_downloaded as u64),
        "\n"@,
    );
    let s3 = s2 + "  Total DL:       "@ + figures::bytes_text(session.total_downloaded as u64)
        + "\n"@;
    lemma_shows_last(
        s3,
        "  Total UL:       "@,
        figures::bytes_text(session.total_uploaded as u64),
        "\n"@,
    );
}

/// The connections.
proof fn lemma_connections_show(out: Seq<char>, session: SessionStats)
    ensures
        ({
            let s = sections::with_connections(out, Some(session));
            &&& shows(
                s,
                "  Connected:      "@ + text::dec_int(session.peers_connected as int) + "\n"@,
            )
            &&& shows(
                s,
                "  Half-open:      "@ + text::dec_int(session.half_open_connections as int) + "\n"@,
            )
        }),
{
    broadcast use lemma_shows_more;

    let s0 = out + "\n-- Connections --\n"@;
    lemma_shows_last(
        s0,
        "  Connected:      "@,
        text::dec_int(session.peers_connected as int),
        "\n"@,
    );
    let s1 = s0 + "  Connected:      "@ + text::dec_int(session.peers_connected as int) + "\n"@;
    lemma_shows_last(
        s1,
        "  Half-open:      "@,
        text::dec_int(session.half_open_connections as int),
        "\n"@,
    );
}

/// The numbers of torrents.
proof fn lemma_counts_show(out: Seq<char>, counts: StatusCounts, unique: nat)
    ensures
        ({
            let s = sections::with_torrent_counts(out, counts, unique);
            &&& shows(s, "  Total: "@ + text::dec_int(counts.total as int) + "  Unique: "@)
            &&& shows(s, "  Unique: "@ + text::dec(unique) + "  Pending: "@)
            &&& shows(s, "  Pending: "@ + text::dec_int(counts.pending as int) + "  Downloading: "@)
            &&& shows(
                s,
                "  Downloading: "@ + text::dec_int(counts.downloading as int) + "  Seeding: "@,
            )
            &&& shows(s, "  Seeding: "@ + text::dec_int(counts.seeding as int) + "  Error: "@)
            &&& shows(s, "  Error: "@ + text::dec_int(counts.error as int) + "\n"@)
        }),
{
    broadcast use lemma_shows_more;

    let s0 = out + "\n-- Torrents --\n"@;
    lemma_shows_last(s0, "  Total: "@, text::dec_int(counts.total as int), "  Unique: "@);
    let s1 = s0 + "  Total: "@ + text::dec_int(counts.total as int);
    lemma_shows_last(s1, "  Unique: "@, text::dec(unique), "  Pending: "@);
    let s2 = s1 + "  Unique: "@ + text::dec(unique);
    lemma_shows_last(s2, "  Pending: "@, text::dec_int(counts.pending as int), "  Downloading: "@);
    let s3 = s2 + "  Pending: "@ + text::dec_int(counts.pending as int);
    lemma_shows_last(
        s3,
        "  Downloading: "@,
        text::dec_int(counts.downloading as int),
        "  Seeding: "@,
    );
    let s4 = s3 + "  Downloading: "@ + text::dec_int(counts.downloading as int);
    lemma_shows_last(s4, "  Seeding: "@, text::dec_int(counts.seeding as int), "  Error: "@);
    let s5 = s4 + "  Seeding: "@ + text::dec_int(counts.seeding as int);
    lemma_shows_last(s5, "  Error: "@, text::dec_int(counts.error as int), "\n"@);
}

/// The counters of an open cache.
proof fn lemma_cache_show(
    out: Seq<char>,
    current: u64,
    max: u64,
    hits: u64,
    misses: u64,
    evictions: u64,
)
    ensures
        ({
            let s = sections::with_cache_summary(
                out,
                (CacheView::Open { current, max, hits, misses, evictions }),
            );
            &&& shows(s, "  Hits: "@ + figures::num_text(hits as nat) + "  Misses: "@)
            &&& shows(s, "  Misses: "@ + figures::num_text(misses as nat) + "  Hit Rate: "@)
            &&& shows(
                s,
                "  Hit Rate: "@ + figures::percent_text(hits, (hits + misses) as u64)
                    + "%  Evictions: "@,
            )
            &&& shows(s, "%  Evictions: "@ + figures::num_text(evictions as nat) + "\n"@)
        }),
{
    broadcast use lemma_shows_more;

    let s0 = out + "\n-- Cache --\n"@;
    lemma_shows_last(s0, "  Hits: "@, figures::num_text(hits as nat), "  Misses: "@);
    let s1 = s0 + "  Hits: "@ + figures::num_text(hits as nat);
    lemma_shows_last(s1, "  Misses: "@, figures::num_text(misses as nat), "  Hit Rate: "@);
    let s2 = s1 + "  Misses: "@ + figures::num_text(misses as nat);
    lemma_shows_last(
        s2,
        "  Hit Rate: "@,
        figures::percent_text(hits, (hits + misses) as u64),
        "%  Evictions: "@,
    );
    let s3 = s2 + "  Hit Rate: "@ + figures::percent_text(hits, (hits + misses) as u64);
    lemma_shows_last(s3, "%  Evictions: "@, figures::num_text(evictions as nat), "\n"@);
}

pub proof fn lemma_shows_last_five(
    s: Seq<char>,
    a: Seq<char>,
    b: Seq<char>,
    c: Seq<char>,
    d: Seq<char>,
    e: Seq<char>,
)
    ensures
        shows(s + a + b + c + d + e, a + b + c + d + e),
{
    reveal(shows);
    let all = s + a + b + c + d + e;
    let passage = a + b + c + d + e;
    let i: int = s.len() as int;
    assert(all.subrange(i, i + passage.len()) =~= passage);
}

pub proof fn lemma_shows_last_seven(
    s: Seq<char>,
    a: Seq<char>,
    b: Seq<char>,
    c: Seq<char>,
    d: Seq<char>,
    e: Seq<char>,
    f: Seq<char>,
    g: Seq<char>,
)
    ensures
        shows(s + a + b + c + d + e + f + g, a + b + c + d + e + f + g),
{
    reveal(shows);
    let all = s + a + b + c + d + e + f + g;
    let passage = a + b + c + d + e + f + g;
    let i: int = s.len() as int;
    assert(all.subrange(i, i + passage.len()) =~= passage);
}

pub proof fn lemma_shows_last_nine(
    s: Seq<char>,
    a: Seq<char>,
    b: Seq<char>,
    c: Seq<char>,
    d: Seq<char>,
    e: Seq<char>,
    f: Seq<char>,
    g: Seq<char>,
    h: Seq<char>,
    i: Seq<char>,
)
    ensures
        shows(s + a + b + c + d + e + f + g + h + i, a + b + c + d + e + f + g + h + i),
{
    reveal(shows);
    let all = s + a + b + c + d + e + f + g + h + i;
    let passage = a + b + c + d + e + f + g + h + i;
    let i: int = s.len() as int;
    assert(all.subrange(i, i + passage.len()) =~= passage);
}

/// The counters of the filesystem.
proof fn lemma_observability_show(out: Seq<char>, m: MetricsSnapshot)
    ensures
        ({
            let s = sections::with_observability(out, m);
            &&& shows(
                s,
                "  Cache L1 (memory):   hits "@ + figures::num_text(m.l1_hits as nat) + "  misses "@
                    + figures::num_text(m.l1_misses as nat) + "  hit rate "@
                    + figures::percent_text(m.l1_hits, (m.l1_hits + m.l1_misses) as u64)
                    + "%  entries "@ + figures::num_text(m.l1_entries as nat) + "\n"@,
            )
            &&& shows(
                s,
                "  Cache L2 (disk):     hits "@ + figures::num_text(m.l2_hits as nat) + "  misses "@
                    + figures::num_text(m.l2_misses as nat) + "  hit rate "@
                    + figures::percent_text(m.l2_hits, (m.l2_hits + m.l2_misses) as u64) + "%\n"@,
            )
            &&& shows(
                s,
                "  Cache L3 (metadata): hits "@ + figures::num_text(m.l3_hits as nat) + "  misses "@
                    + figures::num_text(m.l3_misses as nat) + "  hit rate "@
                    + figures::percent_text(m.l3_hits, (m.l3_hits + m.l3_misses) as u64) + "%\n"@,
            )
            &&& shows(
                s,
                "  Deferred reads:      "@ + figures::num_text(m.deferred_reads as nat)
                    + "  Pending: "@ + figures::num_text(m.pending_reads_current as nat)
                    + " current / "@ + figures::num_text(m.pending_reads_peak as nat) + " peak\n"@,
            )
            &&& shows(
                s,
                "  Poll hit rate:       hits "@ + figures::num_text(m.poll_hits as nat)
                    + " / checks "@ + figures::num_text(m.poll_checks as nat) + " ("@
                    + figures::percent_text(m.poll_hits, (m.poll_hits + m.poll_checks) as u64)
                    + "%)\n"@,
            )
            &&& shows(
                s,
                "  Download queue:      "@ + figures::num_text(m.download_queue_current as nat)
                    + " current / "@ + figures::num_text(m.download_queue_peak as nat) + " peak\n"@,
            )
            &&& shows(
                s,
                "  Workers:             "@ + figures::num_text(m.workers_active as nat)
                    + " active / "@ + figures::num_text(m.workers_peak as nat) + " peak\n"@,
            )
            &&& shows(
                s,
                "  Lock wait:           "@ + figures::num_text(m.lock_acquires as nat)
                    + " acquisitions, avg "@ + figures::num_text(sections::average_wait_us(m))
                    + " µs (total "@ + text::dec(m.lock_wait_nanos as nat / 1_000_000) + " ms)\n"@,
            )
        }),
{
    let s0 = out + "\n-- Observability --\n"@;
    let s1 = s0 + "  Cache L1 (memory):   hits "@ + figures::num_text(m.l1_hits as nat)
        + "  misses "@ + figures::num_text(m.l1_misses as nat) + "  hit rate "@
        + figures::percent_text(m.l1_hits, (m.l1_hits + m.l1_misses) as u64) + "%  entries "@
        + figures::num_text(m.l1_entries as nat) + "\n"@;
    let s2 = s1 + "  Cache L2 (disk):     hits "@ + figures::num_text(m.l2_hits as nat)
        + "  misses "@ + figures::num_text(m.l2_misses as nat) + "  hit rate "@
        + figures::percent_text(m.l2_hits, (m.l2_hits + m.l2_misses) as u64) + "%\n"@;
    let s3 = s2 + "  Cache L3 (metadata): hits "@ + figures::num_text(m.l3_hits as nat)
        + "  misses "@ + figures::num_text(m.l3_misses as nat) + "  hit rate "@
        + figures::percent_text(m.l3_hits, (m.l3_hits + m.l3_misses) as u64) + "%\n"@;
    let s4 = s3 + "  Deferred reads:      "@ + figures::num_text(m.deferred_reads as nat)
        + "  Pending: "@ + figures::num_text(m.pending_reads_current as nat) + " current / "@
        + figures::num_text(m.pending_reads_peak as nat) + " peak\n"@;
    let s5 = s4 + "  Poll hit rate:       hits "@ + figures::num_text(m.poll_hits as nat)
        + " / checks "@ + figures::num_text(m.poll_checks as nat) + " ("@
        + figures::percent_text(m.poll_hits, (m.poll_hits + m.poll_checks) as u64) + "%)\n"@;
    let s6 = s5 + "  Download queue:      "@ + figures::num_text(m.download_queue_current as nat)
        + " current / "@ + figures::num_text(m.download_queue_peak as nat) + " peak\n"@;
    let s7 = s6 + "  Workers:             "@ + figures::num_text(m.workers_active as nat)
        + " active / "@ + figures::num_text(m.workers_peak as nat) + " peak\n"@;
    let s8 = s7 + "  Lock wait:           "@ + figures::num_text(m.lock_acquires as nat)
        + " acquisitions, avg "@ + figures::num_text(sections::average_wait_us(m)) + " µs (total "@
        + text::dec(m.lock_wait_nanos as nat / 1_000_000) + " ms)\n"@;
    let l0 = "  Cache L1 (memory):   hits "@ + figures::num_text(m.l1_hits as nat) + "  misses "@
        + figures::num_text(m.l1_misses as nat) + "  hit rate "@
        + figures::percent_text(m.l1_hits, (m.l1_hits + m.l1_misses) as u64) + "%  entries "@
        + figures::num_text(m.l1_entries as nat) + "\n"@;
    assert(shows(s8, l0)) by {
        broadcast use lemma_shows_more;

        lemma_shows_last_nine(
            s0,
            "  Cache L1 (memory):   hits "@,
            figures::num_text(m.l1_hits as nat),
            "  misses "@,
            figures::num_text(m.l1_misses as nat),
            "  hit rate "@,
            figures::percent_text(m.l1_hits, (m.l1_hits + m.l1_misses) as u64),
            "%  entries "@,
            figures::num_text(m.l1_entries as nat),
            "\n"@,
        );
    }
    let l1 = "  Cache L2 (disk):     hits "@ + figures::num_text(m.l2_hits as nat) + "  misses "@
        + figures::num_text(m.l2_misses as nat) + "  hit rate "@
        + figures::percent_text(m.l2_hits, (m.l2_hits + m.l2_misses) as u64) + "%\n"@;
    assert(shows(s8, l1)) by {
        broadcast use lemma_shows_more;

        lemma_shows_last_seven(
            s1,
            "  Cache L2 (disk):     hits "@,
            figures::num_text(m.l2_hits as nat),
            "  misses "@,
            figures::num_text(m.l2_misses as nat),
            "  hit rate "@,
            figures::percent_text(m.l2_hits, (m.l2_hits + m.l2_misses) as u64),
            "%\n"@,
        );
    }
    let l2 = "  Cache L3 (metadata): hits "@ + figures::num_text(m.l3_hits as nat) + "  misses "@
        + figures::num_text(m.l3_misses as nat) + "  hit rate "@
        + figures::percent_text(m.l3_hits, (m.l3_hits + m.l3_misses) as u64) + "%\n"@;
    assert(shows(s8, l2)) by {
        broadcast use lemma_shows_more;

        lemma_shows_last_seven(
            s2,
            "  Cache L3 (metadata): hits "@,
            figures::num_text(m.l3_hits as nat),
            "  misses "@,
            figures::num_text(m.l3_misses as nat),
            "  hit rate "@,
            figures::percent_text(m.l3_hits, (m.l3_hits + m.l3_misses) as u64),
            "%\n"@,
        );
    }
    let l3 = "  Deferred reads:      "@ + figures::num_text(m.deferred_reads as nat)
        + "  Pending: "@ + figures::num_text(m.pending_reads_current as nat) + " current / "@
        + figures::num_text(m.pending_reads_peak as nat) + " peak\n"@;
    assert(shows(s8, l3)) by {
        broadcast use lemma_shows_more;

        lemma_shows_last_seven(
            s3,
            "  Deferred reads:      "@,
            figures::num_text(m.deferred_reads as nat),
            "  Pending: "@,
            figures::num_text(m.pending_reads_current as nat),
            " current / "@,
            figures::num_text(m.pending_reads_peak as nat),
            " peak\n"@,
        );
    }
    let l4 = "  Poll hit rate:       hits "@ + figures::num_text(m.poll_hits as nat) + " / checks "@
        + figures::num_text(m.poll_checks as nat) + " ("@
        + figures::percent_text(m.poll_hits, (m.poll_hits + m.poll_checks) as u64) + "%)\n"@;
    assert(shows(s8, l4)) by {
        broadcast use lemma_shows_more;

        lemma_shows_last_seven(
            s4,
            "  Poll hit rate:       hits "@,
            figures::num_text(m.poll_hits as nat),
            " / checks "@,
            figures::num_text(m.poll_checks as nat),
            " ("@,
            figures::percent_text(m.poll_hits, (m.poll_hits + m.poll_checks) as u64),
            "%)\n"@,
        );
    }
    let l5 = "  Download queue:      "@ + figures::num_text(m.download_queue_current as nat)
        + " current / "@ + figures::num_text(m.download_queue_peak as nat) + " peak\n"@;
    assert(shows(s8, l5)) by {
        broadcast use lemma_shows_more;

        lemma_shows_last_five(
            s5,
            "  Download queue:      "@,
            figures::num_text(m.download_queue_current as nat),
            " current / "@,
            figures::num_text(m.download_queue_peak as nat),
            " peak\n"@,
        );
    }
    let l6 = "  Workers:             "@ + figures::num_text(m.workers_active as nat) + " active / "@
        + figures::num_text(m.workers_peak as nat) + " peak\n"@;
    assert(shows(s8, l6)) by {
        broadcast use lemma_shows_more;

        lemma_shows_last_five(
            s6,
            "  Workers:             "@,
            figures::num_text(m.workers_active as nat),
            " active / "@,
            figures::num_text(m.workers_peak as nat),
            " peak\n"@,
        );
    }
    let l7 = "  Lock wait:           "@ + figures::num_text(m.lock_acquires as nat)
        + " acquisitions, avg "@ + figures::num_text(sections::average_wait_us(m)) + " µs (total "@
        + text::dec(m.lock_wait_nanos as nat / 1_000_000) + " ms)\n"@;
    assert(shows(s8, l7)) by {
        broadcast use lemma_shows_more;

        lemma_shows_last_seven(
            s7,
            "  Lock wait:           "@,
            figures::num_text(m.lock_acquires as nat),
            " acquisitions, avg "@,
            figures::num_text(sections::average_wait_us(m)),
            " µs (total "@,
            text::dec(m.lock_wait_nanos as nat / 1_000_000),
            " ms)\n"@,
        );
    }
}

// ── Laws ────────────────────────────────────────────────────────────────────

/// What the swarm library reports stands behind its own label: the download rate
/// behind `Download Rate`, whatever is uploaded, the upload rate behind
/// `Upload Rate`, and the two totals likewise.
pub proof fn law_session_numbers_are_shown(
    uptime_secs: nat,
    has_db: bool,
    counts: StatusCounts,
    unique: nat,
    session: SessionStats,
    cache: CacheView,
    listen_addr: Seq<char>,
    metrics: MetricsSnapshot,
)
    ensures
        ({
            let s = reports::global_text(
                uptime_secs,
                has_db,
                counts,
                unique,
                Some(session),
                cache,
                listen_addr,
                metrics,
            );
            &&& shows(s, "  Listen:       "@ + listen_addr + "\n"@)
            &&& shows(s, "  DHT Nodes:    "@ + text::dec_int(session.dht_nodes as int) + "\n"@)
            &&& shows(
                s,
                "  Download Rate:  "@ + figures::bytes_text(session.download_rate as u64) + "/s\n"@,
            )
            &&& shows(
                s,
                "  Upload Rate:    "@ + figures::bytes_text(session.upload_rate as u64) + "/s\n"@,
            )
            &&& shows(
                s,
                "  Total DL:       "@ + figures::bytes_text(session.total_downloaded as u64)
                    + "\n"@,
            )
            &&& shows(
                s,
                "  Total UL:       "@ + figures::bytes_text(session.total_uploaded as u64) + "\n"@,
            )
            &&& shows(
                s,
                "  Connected:      "@ + text::dec_int(session.peers_connected as int) + "\n"@,
            )
            &&& shows(
                s,
                "  Half-open:      "@ + text::dec_int(session.half_open_connections as int) + "\n"@,
            )
        }),
{
    lemma_global_keeps(
        uptime_secs,
        has_db,
        counts,
        unique,
        Some(session),
        cache,
        listen_addr,
        metrics,
    );
    let s1 = sections::with_overview(
        sections::with_banner(Seq::empty(), None),
        uptime_secs,
        has_db,
        Some(session),
        cache,
        listen_addr,
    );
    lemma_overview_show(
        sections::with_banner(Seq::empty(), None),
        uptime_secs,
        has_db,
        session,
        cache,
        listen_addr,
    );
    lemma_rates_show(s1, session);
    let s2 = sections::with_global_rates(s1, Some(session));
    lemma_connections_show(s2, session);
}

/// The time since the filesystem was mounted is shown in whole hours, minutes and
/// seconds.
pub proof fn law_uptime_is_shown(
    uptime_secs: nat,
    has_db: bool,
    counts: StatusCounts,
    unique: nat,
    session: SessionStats,
    cache: CacheView,
    listen_addr: Seq<char>,
    metrics: MetricsSnapshot,
    hours: nat,
    minutes: nat,
    seconds: nat,
)
    requires
        uptime_secs == 3600 * hours + 60 * minutes + seconds,
        minutes < 60,
        seconds < 60,
    ensures
        ({
            let s = reports::global_text(
                uptime_secs,
                has_db,
                counts,
                unique,
                Some(session),
                cache,
                listen_addr,
                metrics,
            );
            &&& shows(s, "  Uptime:       "@ + text::dec(hours) + "h "@)
            &&& shows(s, "h "@ + text::dec(minutes) + "m "@)
            &&& shows(s, "m "@ + text::dec(seconds) + "s\n"@)
            &&& has_db ==> shows(s, "  Database:     "@ + "(active)"@ + "\n"@)
            &&& !has_db ==> shows(s, "  Database:     "@ + "(none)"@ + "\n"@)
        }),
{
    lemma_global_keeps(
        uptime_secs,
        has_db,
        counts,
        unique,
        Some(session),
        cache,
        listen_addr,
        metrics,
    );
    lemma_overview_show(
        sections::with_banner(Seq::empty(), None),
        uptime_secs,
        has_db,
        session,
        cache,
        listen_addr,
    );
    assert(uptime_secs / 3600 == hours);
    assert(uptime_secs % 3600 / 60 == minutes);
    assert(uptime_secs % 60 == seconds);
}

/// Each number of torrents stands behind its own label.
pub proof fn law_torrent_counts_are_shown(
    uptime_secs: nat,
    has_db: bool,
    counts: StatusCounts,
    unique: nat,
    session: Option<SessionStats>,
    cache: CacheView,
    listen_addr: Seq<char>,
    metrics: MetricsSnapshot,
)
    ensures
        ({
            let s = reports::global_text(
                uptime_secs,
                has_db,
                counts,
                unique,
                session,
                cache,
                listen_addr,
                metrics,
            );
            &&& shows(s, "  Total: "@ + text::dec_int(counts.total as int) + "  Unique: "@)
            &&& shows(s, "  Unique: "@ + text::dec(unique) + "  Pending: "@)
            &&& shows(s, "  Pending: "@ + text::dec_int(counts.pending as int) + "  Downloading: "@)
            &&& shows(
                s,
                "  Downloading: "@ + text::dec_int(counts.downloading as int) + "  Seeding: "@,
            )
            &&& shows(s, "  Seeding: "@ + text::dec_int(counts.seeding as int) + "  Error: "@)
            &&& shows(s, "  Error: "@ + text::dec_int(counts.error as int) + "\n"@)
        }),
{
    lemma_global_keeps(uptime_secs, has_db, counts, unique, session, cache, listen_addr, metrics);
    let s1 = sections::with_overview(
        sections::with_banner(Seq::empty(), None),
        uptime_secs,
        has_db,
        session,
        cache,
        listen_addr,
    );
    let s3 = sections::with_connections(sections::with_global_rates(s1, session), session);
    lemma_counts_show(s3, counts, unique);
}

/// The numbers of an open cache stand behind their own labels.
pub proof fn law_cache_numbers_are_shown(
    uptime_secs: nat,
    has_db: bool,
    counts: StatusCounts,
    unique: nat,
    session: SessionStats,
    listen_addr: Seq<char>,
    metrics: MetricsSnapshot,
    current: u64,
    max: u64,
    hits: u64,
    misses: u64,
    evictions: u64,
)
    ensures
        ({
            let s = reports::global_text(
                uptime_secs,
                has_db,
                counts,
                unique,
                Some(session),
                (CacheView::Open { current, max, hits, misses, evictions }),
                listen_addr,
                metrics,
            );
            &&& shows(s, "  Cache Usage:  "@ + figures::cache_usage_text(current, max) + "\n"@)
            &&& shows(s, "  Hits: "@ + figures::num_text(hits as nat) + "  Misses: "@)
            &&& shows(s, "  Misses: "@ + figures::num_text(misses as nat) + "  Hit Rate: "@)
            &&& shows(
                s,
                "  Hit Rate: "@ + figures::percent_text(hits, (hits + misses) as u64)
                    + "%  Evictions: "@,
            )
            &&& shows(s, "%  Evictions: "@ + figures::num_text(evictions as nat) + "\n"@)
        }),
{
    let cache = CacheView::Open { current, max, hits, misses, evictions };
    lemma_global_keeps(
        uptime_secs,
        has_db,
        counts,
        unique,
        Some(session),
        (CacheView::Open { current, max, hits, misses, evictions }),
        listen_addr,
        metrics,
    );
    lemma_overview_show(
        sections::with_banner(Seq::empty(), None),
        uptime_secs,
        has_db,
        session,
        cache,
        listen_addr,
    );
    let s1 = sections::with_overview(
        sections::with_banner(Seq::empty(), None),
        uptime_secs,
        has_db,
        Some(session),
        cache,
        listen_addr,
    );
    let s2 = sections::with_global_rates(s1, Some(session));
    let s4 = sections::with_torrent_counts(
        sections::with_connections(s2, Some(session)),
        counts,
        unique,
    );
    lemma_cache_show(s4, current, max, hits, misses, evictions);
}

/// Each counter of the filesystem stands behind its own label. The average wait
/// for a lock is in whole microseconds, none when no lock was taken.
pub proof fn law_counters_are_shown(
    uptime_secs: nat,
    has_db: bool,
    counts: StatusCounts,
    unique: nat,
    session: Option<SessionStats>,
    cache: CacheView,
    listen_addr: Seq<char>,
    m: MetricsSnapshot,
    average: nat,
)
    requires
        m.lock_acquires > 0 ==> average == m.lock_wait_nanos as nat / m.lock_acquires as nat / 1000,
        m.lock_acquires == 0 ==> average == 0,
    ensures
        ({
            let s = reports::global_text(
                uptime_secs,
                has_db,
                counts,
                unique,
                session,
                cache,
                listen_addr,
                m,
            );
            &&& shows(
                s,
                "  Cache L1 (memory):   hits "@ + figures::num_text(m.l1_hits as nat) + "  misses "@
                    + figures::num_text(m.l1_misses as nat) + "  hit rate "@
                    + figures::percent_text(m.l1_hits, (m.l1_hits + m.l1_misses) as u64)
                    + "%  entries "@ + figures::num_text(m.l1_entries as nat) + "\n"@,
            )
            &&& shows(
                s,
                "  Cache L2 (disk):     hits "@ + figures::num_text(m.l2_hits as nat) + "  misses "@
                    + figures::num_text(m.l2_misses as nat) + "  hit rate "@
                    + figures::percent_text(m.l2_hits, (m.l2_hits + m.l2_misses) as u64) + "%\n"@,
            )
            &&& shows(
                s,
                "  Cache L3 (metadata): hits "@ + figures::num_text(m.l3_hits as nat) + "  misses "@
                    + figures::num_text(m.l3_misses as nat) + "  hit rate "@
                    + figures::percent_text(m.l3_hits, (m.l3_hits + m.l3_misses) as u64) + "%\n"@,
            )
            &&& shows(
                s,
                "  Deferred reads:      "@ + figures::num_text(m.deferred_reads as nat)
                    + "  Pending: "@ + figures::num_text(m.pending_reads_current as nat)
                    + " current / "@ + figures::num_text(m.pending_reads_peak as nat) + " peak\n"@,
            )
            &&& shows(
                s,
                "  Poll hit rate:       hits "@ + figures::num_text(m.poll_hits as nat)
                    + " / checks "@ + figures::num_text(m.poll_checks as nat) + " ("@
                    + figures::percent_text(m.poll_hits, (m.poll_hits + m.poll_checks) as u64)
                    + "%)\n"@,
            )
            &&& shows(
                s,
                "  Download queue:      "@ + figures::num_text(m.download_queue_current as nat)
                    + " current / "@ + figures::num_text(m.download_queue_peak as nat) + " peak\n"@,
            )
            &&& shows(
                s,
                "  Workers:             "@ + figures::num_text(m.workers_active as nat)
                    + " active / "@ + figures::num_text(m.workers_peak as nat) + " peak\n"@,
            )
            &&& shows(
                s,
                "  Lock wait:           "@ + figures::num_text(m.lock_acquires as nat)
                    + " acquisitions, avg "@ + figures::num_text(average) + " µs (total "@
                    + text::dec(m.lock_wait_nanos as nat / 1_000_000) + " ms)\n"@,
            )
        }),
{
    lemma_global_keeps(uptime_secs, has_db, counts, unique, session, cache, listen_addr, m);
    let s1 = sections::with_overview(
        sections::with_banner(Seq::empty(), None),
        uptime_secs,
        has_db,
        session,
        cache,
        listen_addr,
    );
    let s3 = sections::with_connections(sections::with_global_rates(s1, session), session);
    let s4 = sections::with_torrent_counts(s3, counts, unique);
    let s6 = sections::with_performance(sections::with_cache_summary(s4, cache));
    lemma_observability_show(s6, m);
}

/// The filesystem has been up for the time since it was made, and for no time when the
/// clock was set back.
pub proof fn law_uptime_is_the_time_since(now_secs: u64, creation_secs: u64)
    ensures
        now_secs >= creation_secs ==> sections::uptime(now_secs, creation_secs) == now_secs
            - creation_secs,
        now_secs < creation_secs ==> sections::uptime(now_secs, creation_secs) == 0,
{
}

/// Torrents are told apart by their info hashes: those that count are the hashes of the
/// torrents, each once.
pub proof fn law_unique_torrents_differ_in_their_hash(
    torrents: Seq<Torrent>,
    n: nat,
    hash: Seq<char>,
)
    requires
        n <= torrents.len(),
    ensures
        sections::info_hashes(torrents, n).finite(),
        sections::info_hashes(torrents, n).contains(hash) <==> exists|i: int|
            0 <= i < n && (#[trigger] torrents[i]).info_hash@ == hash,
    decreases n,
{
    if n > 0 {
        law_unique_torrents_differ_in_their_hash(torrents, (n - 1) as nat, hash);
        assert(torrents[n - 1].info_hash@ == torrents[n - 1].info_hash@);
    }
}

/// A text shows the line that was written to it last.
proof fn lemma_shows_line(s: Seq<char>, line: Seq<char>)
    ensures
        shows(s + line, line),
{
    reveal(shows);
    let i: int = s.len() as int;
    assert((s + line).subrange(i, i + line.len()) =~= line);
}

/// Without a session there are dashes in place of its numbers.
pub proof fn law_no_session_has_no_numbers(
    uptime_secs: nat,
    has_db: bool,
    counts: StatusCounts,
    unique: nat,
    cache: CacheView,
    listen_addr: Seq<char>,
    metrics: MetricsSnapshot,
)
    ensures
        ({
            let s = reports::global_text(
                uptime_secs,
                has_db,
                counts,
                unique,
                None,
                cache,
                listen_addr,
                metrics,
            );
            &&& shows(s, "  Listen:       (not available)\n"@)
            &&& shows(s, "  DHT Nodes:    —\n"@)
            &&& shows(s, "  Download Rate:  —\n"@)
            &&& shows(s, "  Upload Rate:    —\n"@)
            &&& shows(s, "  Total DL:       —\n"@)
            &&& shows(s, "  Total UL:       —\n"@)
            &&& shows(s, "  Connected:      —\n"@)
            &&& shows(s, "  Half-open:      —\n"@)
        }),
{
    lemma_global_keeps(
        uptime_secs,
        has_db,
        counts,
        unique,
        None,
        cache,
        listen_addr,
        metrics,
    );
    let head = sections::with_banner(Seq::empty(), None);
    lemma_no_session_shows(head, uptime_secs, has_db, cache, listen_addr);
    let s1 = sections::with_overview(head, uptime_secs, has_db, None, cache, listen_addr);
    lemma_dashes_show(s1);
    let s2 = sections::with_global_rates(s1, None);
    lemma_no_connections_show(s2);
}

proof fn lemma_no_session_shows(
    out: Seq<char>,
    uptime_secs: nat,
    has_db: bool,
    cache: CacheView,
    listen_addr: Seq<char>,
)
    ensures
        ({
            let s = sections::with_overview(
                out,
                uptime_secs,
                has_db,
                None,
                cache,
                listen_addr,
            );
            &&& shows(s, "  Listen:       (not available)\n"@)
            &&& shows(s, "  DHT Nodes:    —\n"@)
            &&& cache is Absent ==> shows(s, "  Cache Dir:    "@ + "(none)"@ + "\n"@)
            &&& cache is Locked ==> shows(s, "  Cache Dir:    "@ + "(locked)"@ + "\n"@)
            &&& cache is Open ==> shows(s, "  Cache Dir:    "@ + "(cache)"@ + "\n"@)
        }),
{
    broadcast use lemma_shows_more;

    let c = sections::cache_overview(cache);
    let s0 = out + "-- Overview --\n"@ + "  Uptime:       "@ + text::dec(uptime_secs / 3600)
        + "h "@ + text::dec(uptime_secs % 3600 / 60) + "m "@ + text::dec(uptime_secs % 60)
        + "s\n"@ + "  Mount:        (dynamic)\n"@ + "  Database:     "@ + (if has_db {
        "(active)"@
    } else {
        "(none)"@
    }) + "\n"@;
    lemma_shows_last(s0, "  Cache Dir:    "@, c.2, "\n"@);
    let s1 = s0 + "  Cache Dir:    "@ + c.2 + "\n"@ + "  Cache Usage:  "@
        + figures::cache_usage_text(c.0, c.1) + "\n"@;
    lemma_shows_line(s1, "  Listen:       (not available)\n"@);
    lemma_shows_line(s1 + "  Listen:       (not available)\n"@, "  DHT Nodes:    —\n"@);
}

proof fn lemma_dashes_show(out: Seq<char>)
    ensures
        ({
            let s = sections::with_global_rates(out, None);
            &&& shows(s, "  Download Rate:  —\n"@)
            &&& shows(s, "  Upload Rate:    —\n"@)
            &&& shows(s, "  Total DL:       —\n"@)
            &&& shows(s, "  Total UL:       —\n"@)
        }),
{
    broadcast use lemma_shows_more;

    let s0 = out + "\n-- Global Rates --\n"@;
    lemma_shows_line(s0, "  Download Rate:  —\n"@);
    let s1 = s0 + "  Download Rate:  —\n"@;
    lemma_shows_line(s1, "  Upload Rate:    —\n"@);
    let s2 = s1 + "  Upload Rate:    —\n"@;
    lemma_shows_line(s2, "  Total DL:       —\n"@);
    lemma_shows_line(s2 + "  Total DL:       —\n"@, "  Total UL:       —\n"@);
}

proof fn lemma_no_connections_show(out: Seq<char>)
    ensures
        ({
            let s = sections::with_connections(out, None);
            &&& shows(s, "  Connected:      —\n"@)
            &&& shows(s, "  Half-open:      —\n"@)
        }),
{
    broadcast use lemma_shows_more;

    let s0 = out + "\n-- Connections --\n"@;
    lemma_shows_line(s0, "  Connected:      —\n"@);
    lemma_shows_line(s0 + "  Connected:      —\n"@, "  Half-open:      —\n"@);
}

/// The overview says whether there is a cache and whether it could be asked; a cache
/// that could not be asked counts nothing.
pub proof fn law_which_cache_there_is(
    uptime_secs: nat,
    has_db: bool,
    counts: StatusCounts,
    unique: nat,
    cache: CacheView,
    listen_addr: Seq<char>,
    metrics: MetricsSnapshot,
)
    ensures
        ({
            let s = reports::global_text(
                uptime_secs,
                has_db,
                counts,
                unique,
                None,
                cache,
                listen_addr,
                metrics,
            );
            &&& cache is Absent ==> shows(s, "  Cache Dir:    "@ + "(none)"@ + "\n"@)
            &&& cache is Locked ==> shows(s, "  Cache Dir:    "@ + "(locked)"@ + "\n"@)
            &&& cache is Open ==> shows(s, "  Cache Dir:    "@ + "(cache)"@ + "\n"@)
        }),
        cache !is Open ==> sections::cache_counters(cache) == (0u64, 0u64, 0u64),
{
    lemma_global_keeps(
        uptime_secs,
        has_db,
        counts,
        unique,
        None,
        cache,
        listen_addr,
        metrics,
    );
    let head = sections::with_banner(Seq::empty(), None);
    lemma_no_session_shows(head, uptime_secs, has_db, cache, listen_addr);
}

/// Without counters all of them are zero.
pub proof fn law_no_counters_are_zero()
    ensures
        ({
            let m = MetricsSnapshot::zero();
            &&& m.l1_hits == 0 && m.l1_misses == 0 && m.l1_entries == 0
            &&& m.l2_hits == 0 && m.l2_misses == 0
            &&& m.l3_hits == 0 && m.l3_misses == 0
            &&& m.deferred_reads == 0 && m.pending_reads_current == 0 && m.pending_reads_peak == 0
            &&& m.poll_hits == 0 && m.poll_checks == 0
            &&& m.download_queue_current == 0 && m.download_queue_peak == 0
            &&& m.workers_active == 0 && m.workers_peak == 0
            &&& m.lock_acquires == 0 && m.lock_wait_nanos == 0
        }),
{
}

} // verus!
