//! What `.stats` says of a torrent's pieces.
use vstd::prelude::*;

use crate::db::types::TorrentStatus;
use crate::piece_scheduler::PieceStatus;
use crate::read_plan;
use crate::read_wait::NO_SEEDER_READ_TIMEOUT_SECS;
use crate::stats::figures;
use crate::text;

verus! {

/// How long a swarm must stay empty before `.stats` warns of it, in seconds.
pub const HEALTH_ALERT_EMPTY_SWARM_GRACE_SECS: u64 = NO_SEEDER_READ_TIMEOUT_SECS;

/// The marker of one piece.
pub open spec fn marker_text(p: PieceStatus) -> Seq<char> {
    if p.is_cached {
        if p.hit_count > 0 {
            "[X "@ + text::dec(p.hit_count as nat) + "]"@
        } else {
            "[x]"@
        }
    } else if p.priority > 0 {
        "["@ + text::dec(p.priority as nat) + "]"@
    } else {
        "[]"@
    }
}

/// The marker of one piece: `[x]` cached and never read, `[X n]` cached and read
/// `n` times, `[n]` wanted with priority `n`, `[]` neither.
pub fn piece_marker(status: &PieceStatus) -> (s: String)
    ensures
        s@ == marker_text(*status),
{
    if status.is_cached {
        if status.hit_count > 0 {
            let mut s: String = "[X ".to_owned();
            text::push_dec(&mut s, status.hit_count);
            text::push_text(&mut s, "]");
            s
        } else {
            "[x]".to_owned()
        }
    } else if status.priority > 0 {
        let mut s: String = "[".to_owned();
        text::push_dec(&mut s, status.priority as u64);
        text::push_text(&mut s, "]");
        s
    } else {
        "[]".to_owned()
    }
}

/// The number of cached pieces among the first `n`.
pub open spec fn cached_count(pieces: Seq<PieceStatus>, n: nat) -> nat
    decreases n,
{
    if n == 0 {
        0
    } else {
        cached_count(pieces, (n - 1) as nat) + (if pieces[n - 1].is_cached {
            1nat
        } else {
            0nat
        })
    }
}

/// The number of cached pieces.
pub fn count_cached(pieces: &[PieceStatus]) -> (n: usize)
    ensures
        n == cached_count(pieces@, pieces@.len()),
        n <= pieces@.len(),
{
    let mut n: usize = 0;
    let mut i: usize = 0;
    while i < pieces.len()
        invariant
            n <= i <= pieces@.len(),
            n == cached_count(pieces@, i as nat),
        decreases pieces@.len() - i,
    {
        if pieces[i].is_cached {
            n = n + 1;
        }
        i = i + 1;
    }
    n
}

/// Progress of a torrent.
#[derive(Debug, Clone)]
pub enum Progress {
    /// So many of so many pieces are cached.
    Pieces { cached: u64, total: u64 },
    /// The swarm library's own word, in percent with one decimal.
    Reported(String),
}

impl Progress {
    /// The progress in percent with one decimal.
    pub open spec fn percent(self) -> Seq<char> {
        match self {
            Progress::Pieces { cached, total } => figures::percent_text(cached, total),
            Progress::Reported(s) => s@,
        }
    }

    /// Appends the progress in percent with one decimal.
    pub fn push_percent(&self, out: &mut String)
        ensures
            final(out)@ == old(out)@ + self.percent(),
    {
        match self {
            Progress::Pieces { cached, total } => figures::push_percent(out, *cached, *total),
            Progress::Reported(s) => text::push_text(out, s.as_str()),
        }
    }
}

/// Progress by the pieces that are really there.
pub fn piece_progress(pieces: &[PieceStatus]) -> (p: Progress)
    ensures
        p == (Progress::Pieces {
            cached: cached_count(pieces@, pieces@.len()) as u64,
            total: pieces@.len() as u64,
        }),
{
    Progress::Pieces { cached: count_cached(pieces) as u64, total: pieces.len() as u64 }
}

/// Downloaded bytes by the pieces that are really there.
pub fn piece_downloaded(pieces: &[PieceStatus], piece_length: u64) -> (bytes: u64)
    requires
        cached_count(pieces@, pieces@.len()) * piece_length <= u64::MAX,
    ensures
        bytes == cached_count(pieces@, pieces@.len()) * piece_length,
{
    if pieces.len() == 0 || piece_length == 0 {
        assert(cached_count(pieces@, pieces@.len()) * piece_length == 0) by (nonlinear_arith)
            requires
                cached_count(pieces@, pieces@.len()) == 0 || piece_length == 0,
        ;
        return 0;
    }
    count_cached(pieces) as u64 * piece_length
}

/// Every piece is cached, and there is one.
pub open spec fn complete(pieces: Seq<PieceStatus>) -> bool {
    pieces.len() > 0 && forall|i: int| 0 <= i < pieces.len() ==> (#[trigger] pieces[i]).is_cached
}

/// Some piece is cached.
pub open spec fn any_cached(pieces: Seq<PieceStatus>) -> bool {
    exists|i: int| 0 <= i < pieces.len() && (#[trigger] pieces[i]).is_cached
}

/// Some piece is wanted.
pub open spec fn any_wanted(pieces: Seq<PieceStatus>) -> bool {
    exists|i: int| 0 <= i < pieces.len() && (#[trigger] pieces[i]).priority > 0
}

/// Whether every piece is cached. A torrent without pieces is not complete.
pub fn is_download_complete(pieces: &[PieceStatus]) -> (yes: bool)
    ensures
        yes == complete(pieces@),
{
    let mut i: usize = 0;
    while i < pieces.len()
        invariant
            i <= pieces@.len(),
            forall|j: int| 0 <= j < i ==> (#[trigger] pieces@[j]).is_cached,
        decreases pieces@.len() - i,
    {
        if !pieces[i].is_cached {
            return false;
        }
        i = i + 1;
    }
    pieces.len() > 0
}

/// Whether some piece is cached.
pub fn has_cached_piece(pieces: &[PieceStatus]) -> (yes: bool)
    ensures
        yes == any_cached(pieces@),
{
    let mut i: usize = 0;
    while i < pieces.len()
        invariant
            i <= pieces@.len(),
            forall|j: int| 0 <= j < i ==> !(#[trigger] pieces@[j]).is_cached,
        decreases pieces@.len() - i,
    {
        if pieces[i].is_cached {
            return true;
        }
        i = i + 1;
    }
    false
}

/// Whether some piece is wanted by a reader.
pub fn has_active_reader(pieces: &[PieceStatus]) -> (yes: bool)
    ensures
        yes == any_wanted(pieces@),
{
    let mut i: usize = 0;
    while i < pieces.len()
        invariant
            i <= pieces@.len(),
            forall|j: int| 0 <= j < i ==> (#[trigger] pieces@[j]).priority <= 0,
        decreases pieces@.len() - i,
    {
        if pieces[i].priority > 0 {
            return true;
        }
        i = i + 1;
    }
    false
}

/// The status that goes with a snapshot of the pieces; without one, the status
/// that the database holds.
pub open spec fn shown_status(persisted: TorrentStatus, pieces: Option<Seq<PieceStatus>>) -> TorrentStatus {
    match pieces {
        None => persisted,
        Some(p) => if complete(p) {
            TorrentStatus::Seeding
        } else if any_cached(p) || any_wanted(p) {
            TorrentStatus::Downloading
        } else {
            TorrentStatus::Pending
        },
    }
}

/// A list of pieces, if there is one.
pub open spec fn pieces_of(pieces: Option<&[PieceStatus]>) -> Option<Seq<PieceStatus>> {
    match pieces {
        Some(p) => Some(p@),
        None => None,
    }
}

/// The status to show, from the same snapshot as the progress.
pub fn display_status(persisted: &TorrentStatus, pieces: Option<&[PieceStatus]>) -> (s: TorrentStatus)
    ensures
        s == shown_status(*persisted, pieces_of(pieces)),
{
    match pieces {
        None => *persisted,
        Some(p) => {
            if is_download_complete(p) {
                TorrentStatus::Seeding
            } else if has_cached_piece(p) || has_active_reader(p) {
                TorrentStatus::Downloading
            } else {
                TorrentStatus::Pending
            }
        },
    }
}

/// A status in English.
pub open spec fn english(status: TorrentStatus) -> Seq<char> {
    match status {
        TorrentStatus::Pending => "Pending"@,
        TorrentStatus::Downloading => "Downloading"@,
        TorrentStatus::Seeding => "Seeding"@,
        TorrentStatus::Error => "Error"@,
    }
}

/// A status in English.
pub fn status_to_english(status: &TorrentStatus) -> (s: &'static str)
    ensures
        s@ == english(*status),
{
    match status {
        TorrentStatus::Pending => "Pending",
        TorrentStatus::Downloading => "Downloading",
        TorrentStatus::Seeding => "Seeding",
        TorrentStatus::Error => "Error",
    }
}

/// The markers of the first `n` pieces, with nothing between them.
pub open spec fn markers_text(pieces: Seq<PieceStatus>, n: nat) -> Seq<char>
    decreases n,
{
    if n == 0 {
        Seq::empty()
    } else {
        markers_text(pieces, (n - 1) as nat) + marker_text(pieces[n - 1])
    }
}

/// The text with the block about the pieces behind it.
pub open spec fn with_piece_block(out: Seq<char>, piece_length: u64, pieces: Seq<PieceStatus>) -> Seq<
    char,
> {
    out + "\n-- Pieces ("@ + text::dec(pieces.len()) + " pieces, "@ + figures::bytes_text(
        piece_length,
    ) + " each) --\n  Pieces: "@ + markers_text(pieces, pieces.len()) + "\n"@ + "  PieceSize: "@
        + figures::bytes_text(piece_length) + "\n  PieceCount: "@ + text::dec(pieces.len()) + "\n"@
}

/// Appends the markers of all pieces.
fn push_markers(out: &mut String, pieces: &[PieceStatus])
    ensures
        final(out)@ == old(out)@ + markers_text(pieces@, pieces@.len()),
{
    let ghost before = out@;
    let mut i: usize = 0;
    assert(before + markers_text(pieces@, 0) =~= before);
    while i < pieces.len()
        invariant
            i <= pieces@.len(),
            out@ == before + markers_text(pieces@, i as nat),
        decreases pieces@.len() - i,
    {
        let marker: String = piece_marker(&pieces[i]);
        text::push_text(out, marker.as_str());
        assert(out@ =~= before + markers_text(pieces@, (i + 1) as nat));
        i = i + 1;
    }
}

/// Appends the block about the pieces.
pub fn push_piece_block(out: &mut String, piece_length: u64, pieces: &[PieceStatus])
    ensures
        final(out)@ == with_piece_block(old(out)@, piece_length, pieces@),
{
    text::push_text(out, "\n-- Pieces (");
    text::push_dec(out, pieces.len() as u64);
    text::push_text(out, " pieces, ");
    figures::push_bytes(out, piece_length);
    text::push_text(out, " each) --\n  Pieces: ");
    push_markers(out, pieces);
    text::push_text(out, "\n");
    text::push_text(out, "  PieceSize: ");
    figures::push_bytes(out, piece_length);
    text::push_text(out, "\n  PieceCount: ");
    text::push_dec(out, pieces.len() as u64);
    text::push_text(out, "\n");
}

/// The block about the pieces: a heading, one line of markers without blanks,
/// and the size and number of the pieces.
pub fn piece_block(piece_length: u64, pieces: &[PieceStatus]) -> (s: String)
    ensures
        s@ == with_piece_block(Seq::empty(), piece_length, pieces@),
{
    let mut s: String = String::new();
    push_piece_block(&mut s, piece_length, pieces);
    s
}

/// The warning about an empty swarm.
pub open spec fn health_text() -> Seq<char> {
    "  ⚠ Health: 0 peers / 0 seeds — no connected peers; tracker may be reachable\n"@
}

/// Whether the warning is due: the swarm has been empty for the whole grace
/// time, the torrent is not complete and nothing is being fetched.
pub open spec fn health_due(
    num_peers: i32,
    num_seeds: i32,
    empty_swarm_secs: u64,
    download_complete: bool,
    active_download: bool,
) -> bool {
    num_peers == 0 && num_seeds == 0 && empty_swarm_secs >= HEALTH_ALERT_EMPTY_SWARM_GRACE_SECS
        && !download_complete && !active_download
}

/// The warning about an empty swarm, when it is due.
pub fn health_alert(
    num_peers: i32,
    num_seeds: i32,
    empty_swarm_secs: u64,
    download_complete: bool,
    active_download: bool,
) -> (alert: Option<&'static str>)
    ensures
        (match alert {
            Some(s) => health_due(
                num_peers,
                num_seeds,
                empty_swarm_secs,
                download_complete,
                active_download,
            ) && s@ == health_text(),
            None => !health_due(
                num_peers,
                num_seeds,
                empty_swarm_secs,
                download_complete,
                active_download,
            ),
        }),
{
    if num_peers == 0 && num_seeds == 0 && empty_swarm_secs >= HEALTH_ALERT_EMPTY_SWARM_GRACE_SECS
        && !download_complete && !active_download {
        Some("  ⚠ Health: 0 peers / 0 seeds — no connected peers; tracker may be reachable\n")
    } else {
        None
    }
}

/// Bytes of the cached pieces among the first `n`, the last piece at its real
/// length.
pub open spec fn cached_bytes(
    pieces: Seq<PieceStatus>,
    piece_length: u64,
    total_size: u64,
    n: nat,
) -> int
    decreases n,
{
    if n == 0 {
        0
    } else {
        cached_bytes(pieces, piece_length, total_size, (n - 1) as nat) + (if pieces[n
            - 1].is_cached {
            read_plan::piece_size(n - 1, piece_length, total_size)
        } else {
            0
        })
    }
}

/// The bytes of the first `n` pieces, cached or not, never exceed what lies
/// before the next piece nor the torrent.
pub proof fn lemma_cached_bytes(pieces: Seq<PieceStatus>, piece_length: u64, total_size: u64, n: nat)
    requires
        n <= pieces.len(),
    ensures
        0 <= cached_bytes(pieces, piece_length, total_size, n) <= total_size,
        cached_bytes(pieces, piece_length, total_size, n) <= n * piece_length,
    decreases n,
{
    if n > 0 {
        lemma_cached_bytes(pieces, piece_length, total_size, (n - 1) as nat);
        assert(n * piece_length == (n - 1) * piece_length + piece_length) by (nonlinear_arith);
        assert((n - 1) * piece_length >= 0) by (nonlinear_arith)
            requires
                n >= 1,
        ;
    }
}

/// What the summary shows of one torrent: downloaded bytes and progress.
pub open spec fn summary_of(
    pieces: Option<(u64, Seq<PieceStatus>)>,
    reported: Option<(Seq<char>, u64)>,
    total_size: u64,
) -> (int, Seq<char>) {
    match pieces {
        Some((piece_length, p)) => (
            if piece_length == 0 {
                0
            } else {
                cached_bytes(p, piece_length, total_size, p.len())
            },
            figures::percent_text(cached_count(p, p.len()) as u64, p.len() as u64),
        ),
        None => match reported {
            Some((progress, done)) => (
                if done <= total_size {
                    done as int
                } else {
                    total_size as int
                },
                progress,
            ),
            None => (0, "0.0"@),
        },
    }
}

/// Downloaded bytes and progress of one torrent: by its pieces when they are
/// known, otherwise by the swarm library's word, otherwise nothing.
pub fn summary_torrent_stats(
    pieces: Option<(u64, &[PieceStatus])>,
    reported: Option<(&str, u64)>,
    total_size: u64,
) -> (r: (u64, Progress))
    requires
        pieces matches Some(p) ==> p.1@.len() <= i32::MAX && p.1@.len() * p.0 <= u64::MAX,
    ensures
        ({
            let want = summary_of(
                match pieces {
                    Some(p) => Some((p.0, p.1@)),
                    None => None,
                },
                match reported {
                    Some(s) => Some((s.0@, s.1)),
                    None => None,
                },
                total_size,
            );
            r.0 == want.0 && r.1.percent() == want.1
        }),
        r.0 <= total_size,
{
    match pieces {
        Some((piece_length, list)) => {
            let mut downloaded: u64 = 0;
            if piece_length != 0 {
                let mut i: usize = 0;
                while i < list.len()
                    invariant
                        i <= list@.len() <= i32::MAX,
                        list@.len() * piece_length <= u64::MAX,
                        downloaded == cached_bytes(list@, piece_length, total_size, i as nat),
                    decreases list@.len() - i,
                {
                    proof {
                        lemma_cached_bytes(list@, piece_length, total_size, (i + 1) as nat);
                    }
                    if list[i].is_cached {
                        downloaded = downloaded + read_plan::expected_piece_size(
                            i as i32,
                            piece_length,
                            list.len() as i32,
                            total_size,
                        );
                    }
                    i = i + 1;
                }
                proof {
                    lemma_cached_bytes(list@, piece_length, total_size, list@.len());
                }
            }
            (downloaded, piece_progress(list))
        },
        None => {
            match reported {
                Some((progress, done)) => {
                    let shown: u64 = if done <= total_size {
                        done
                    } else {
                        total_size
                    };
                    (shown, Progress::Reported(progress.to_owned()))
                },
                None => (0, Progress::Reported("0.0".to_owned())),
            }
        },
    }
}

// ── Laws ────────────────────────────────────────────────────────────────────

/// A fully cached torrent whose pieces cover it exactly reports its exact size.
pub proof fn law_complete_torrent_reports_its_size(
    pieces: Seq<PieceStatus>,
    piece_length: u64,
    total_size: u64,
)
    requires
        complete(pieces),
        (pieces.len() - 1) * piece_length < total_size <= pieces.len() * piece_length,
    ensures
        cached_bytes(pieces, piece_length, total_size, pieces.len()) == total_size,
{
    let n = pieces.len();
    lemma_full_pieces(pieces, piece_length, total_size, (n - 1) as nat);
    assert(n * piece_length == (n - 1) * piece_length + piece_length) by (nonlinear_arith);
    assert(pieces[n - 1].is_cached);
}

proof fn lemma_full_pieces(pieces: Seq<PieceStatus>, piece_length: u64, total_size: u64, n: nat)
    requires
        complete(pieces),
        n <= pieces.len(),
        n * piece_length <= total_size,
    ensures
        cached_bytes(pieces, piece_length, total_size, n) == n * piece_length,
    decreases n,
{
    if n > 0 {
        assert(n * piece_length == (n - 1) * piece_length + piece_length) by (nonlinear_arith);
        lemma_full_pieces(pieces, piece_length, total_size, (n - 1) as nat);
        assert(pieces[n - 1].is_cached);
    } else {
        assert(n * piece_length == 0) by (nonlinear_arith)
            requires
                n == 0,
        ;
    }
}

/// The status shown agrees with the pieces: complete exactly when seeding,
/// pending exactly when nothing is cached or wanted.
pub proof fn law_status_agrees_with_pieces(persisted: TorrentStatus, pieces: Seq<PieceStatus>)
    ensures
        (shown_status(persisted, Some(pieces)) == TorrentStatus::Seeding) <==> complete(pieces),
        (shown_status(persisted, Some(pieces)) == TorrentStatus::Pending) <==> !any_cached(pieces)
            && !any_wanted(pieces),
        (shown_status(persisted, Some(pieces)) == TorrentStatus::Seeding) ==> cached_count(
            pieces,
            pieces.len(),
        ) == pieces.len(),
{
    if complete(pieces) {
        assert(pieces[0].is_cached);
        lemma_all_counted(pieces, pieces.len());
    }
}

proof fn lemma_all_counted(pieces: Seq<PieceStatus>, n: nat)
    requires
        complete(pieces),
        n <= pieces.len(),
    ensures
        cached_count(pieces, n) == n,
    decreases n,
{
    if n > 0 {
        lemma_all_counted(pieces, (n - 1) as nat);
        assert(pieces[n - 1].is_cached);
    }
}

/// No marker holds a blank or a line break except between `[X` and its count, so
/// the line of markers has no blank at its end.
pub proof fn law_markers_end_with_bracket(pieces: Seq<PieceStatus>, n: nat)
    requires
        0 < n <= pieces.len(),
    ensures
        markers_text(pieces, n).len() > 0,
        markers_text(pieces, n).last() == ']',
{
    reveal_strlit("]");
    reveal_strlit("[x]");
    reveal_strlit("[]");
    let marker = marker_text(pieces[n - 1]);
    assert(marker.len() > 0 && marker.last() == ']');
    let before = markers_text(pieces, (n - 1) as nat);
    assert((before + marker).last() == marker.last());
}

} // verus!
