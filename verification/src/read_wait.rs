//! How a read waits for the swarm.
//!
//! A read that cannot be served at once is parked and advanced one step at a
//! time. A step looks at what is known of the torrent now and says what to do
//! next; it never sleeps and never talks to the swarm itself. The caller makes
//! the observation, performs the actions in order and brings the next
//! observation.
use vstd::prelude::*;

use crate::decimal;
use crate::error::{ErrorKind, ErrorView, TorrentError};
use crate::read_plan;
use crate::read_plan::ReadPlan;
use crate::text;

verus! {

/// Longest wait for a peer to appear, in seconds.
pub const PEER_WAIT_CAP_SECS: u64 = 9;

/// Longest wait for a recheck to finish, in seconds.
pub const RECHECK_WAIT_CAP_SECS: u64 = 10;

/// Longest wait for pieces while no seeder is connected, in seconds.
pub const NO_SEEDER_READ_TIMEOUT_SECS: u64 = 15;

/// Wait for pieces once the search for peers ended on an empty swarm.
pub const NO_SEEDER_FAST_FAIL_SECS: u64 = 0;

/// A recheck that has not begun after this many seconds is taken as done.
pub const RECHECK_GRACE_SECS: u64 = 2;

/// Nanoseconds in a second.
pub const NANOS: u64 = 1_000_000_000;

// ── Wait windows ────────────────────────────────────────────────────────────

/// The smaller of two numbers.
pub open spec fn least(a: int, b: int) -> int {
    if a <= b {
        a
    } else {
        b
    }
}

fn least_u64(a: u64, b: u64) -> (m: u64)
    ensures
        m == least(a as int, b as int),
{
    if a <= b {
        a
    } else {
        b
    }
}

/// The longest that one read may keep its caller waiting, in seconds: settling,
/// recheck, search for peers, the wait without a seeder and a full wait for a
/// seeder that connects at the end of it. Saturates.
pub fn read_wait_budget_secs(read_timeout_secs: u64) -> (secs: u64)
    ensures
        secs == least(wait_budget(read_timeout_secs), u64::MAX as int),
{
    let recheck_wait: u64 = least_u64(read_timeout_secs, RECHECK_WAIT_CAP_SECS);
    let peer_wait: u64 = least_u64(read_timeout_secs, PEER_WAIT_CAP_SECS);
    let no_seeder_wait: u64 = least_u64(read_timeout_secs, NO_SEEDER_READ_TIMEOUT_SECS);
    read_timeout_secs.saturating_add(recheck_wait).saturating_add(peer_wait).saturating_add(
        no_seeder_wait,
    ).saturating_add(read_timeout_secs)
}

/// The sum of the longest waits of every phase.
pub open spec fn wait_budget(read_timeout_secs: u64) -> int {
    let t = read_timeout_secs as int;
    t + least(t, RECHECK_WAIT_CAP_SECS as int) + least(t, PEER_WAIT_CAP_SECS as int) + least(
        t,
        NO_SEEDER_READ_TIMEOUT_SECS as int,
    ) + t
}

/// How long a read waits for its pieces, in seconds.
pub open spec fn piece_window(has_seeder: bool, exhausted: bool, read_timeout_secs: u64) -> int {
    if has_seeder {
        read_timeout_secs as int
    } else if exhausted {
        NO_SEEDER_FAST_FAIL_SECS as int
    } else {
        least(read_timeout_secs as int, NO_SEEDER_READ_TIMEOUT_SECS as int)
    }
}

/// How long a read waits for its pieces: the full timeout with a seeder, a
/// short one while a seeder may still come, none when the search for peers
/// already ended without one.
pub fn piece_wait_window_secs(
    has_seeder: bool,
    is_peer_wait_exhausted: bool,
    read_timeout_secs: u64,
) -> (secs: u64)
    ensures
        secs == piece_window(has_seeder, is_peer_wait_exhausted, read_timeout_secs),
{
    if has_seeder {
        read_timeout_secs
    } else if is_peer_wait_exhausted {
        NO_SEEDER_FAST_FAIL_SECS
    } else {
        least_u64(read_timeout_secs, NO_SEEDER_READ_TIMEOUT_SECS)
    }
}

/// Whether nobody at all is connected. A leecher is not nobody: it may serve, or
/// become a seeder.
pub fn swarm_is_empty(num_peers: i32, num_seeds: i32) -> (empty: bool)
    ensures
        empty == (num_peers == 0 && num_seeds == 0),
{
    num_peers == 0 && num_seeds == 0
}

/// The line that tells the operator that a read found no seeder.
pub fn no_seeder_stderr_hint(num_peers: i32, num_seeds: i32, truncated: bool) -> (s: String)
    ensures
        s@ == "no seeder connected (Peers:"@ + text::dec_int(num_peers as int) + " Seeds:"@
            + text::dec_int(num_seeds as int) + (if truncated {
            ", truncated piece re-download)"@
        } else {
            ")"@
        }),
{
    let mut s: String = "no seeder connected (Peers:".to_owned();
    text::push_dec_int(&mut s, num_peers as i64);
    text::push_text(&mut s, " Seeds:");
    text::push_dec_int(&mut s, num_seeds as i64);
    if truncated {
        text::push_text(&mut s, ", truncated piece re-download)");
    } else {
        text::push_text(&mut s, ")");
    }
    s
}

/// Why the cache cannot serve a read.
#[derive(Debug, Clone, Copy, PartialEq, Eq, Structural)]
pub enum StallCause {
    /// The read asks for more bytes than the whole cache holds.
    SpanTooLarge,
    /// The cache held the piece that the read waits on and has lost it.
    PieceGone,
}

impl StallCause {
    /// The cause in words.
    pub open spec fn words(self) -> Seq<char> {
        match self {
            StallCause::SpanTooLarge => "read span is larger than the cache"@,
            StallCause::PieceGone => "piece the read waits on is gone from cache"@,
        }
    }
}

/// A number of bytes in MiB, with two decimals.
pub open spec fn mib_text(bytes: u64) -> Seq<char> {
    decimal::hundredths_text(decimal::ratio_hundredths(bytes as nat, 1048576)) + " MiB"@
}

/// The text of [`cache_stall_hint`].
pub open spec fn cache_stall_text(
    cache_size: u64,
    span: u64,
    cause: StallCause,
    num_seeds: Option<i32>,
) -> Seq<char> {
    "read stalled on the on-disk cache (cache_size="@ + mib_text(cache_size) + ", read span="@
        + mib_text(span) + ", "@ + cause.words()
        + "); raise [cache] cache_size if the cache is evicting data the read needs"@ + (
    match num_seeds {
        Some(n) => if n > 0 {
            "; a seeder is connected"@
        } else {
            "; no seeder is connected"@
        },
        None => "; whether a seeder is connected is unknown"@,
    })
}

/// The line that tells the operator that the cache stalled a read, and whether
/// there is a seeder to fetch the data from again.
pub fn cache_stall_hint(cache_size: u64, span: u64, cause: StallCause, num_seeds: Option<i32>) -> (s:
    String)
    ensures
        s@ == cache_stall_text(cache_size, span, cause, num_seeds),
{
    let mut s: String = "read stalled on the on-disk cache (cache_size=".to_owned();
    decimal::push_ratio(&mut s, cache_size, 1048576);
    text::push_text(&mut s, " MiB");
    text::push_text(&mut s, ", read span=");
    let ghost head = s@;
    decimal::push_ratio(&mut s, span, 1048576);
    text::push_text(&mut s, " MiB");
    assert(s@ =~= head + mib_text(span));
    text::push_text(&mut s, ", ");
    match cause {
        StallCause::SpanTooLarge => text::push_text(&mut s, "read span is larger than the cache"),
        StallCause::PieceGone => text::push_text(
            &mut s,
            "piece the read waits on is gone from cache",
        ),
    }
    text::push_text(
        &mut s,
        "); raise [cache] cache_size if the cache is evicting data the read needs",
    );
    match num_seeds {
        Some(n) => if n > 0 {
            text::push_text(&mut s, "; a seeder is connected");
        } else {
            text::push_text(&mut s, "; no seeder is connected");
        },
        None => text::push_text(&mut s, "; whether a seeder is connected is unknown"),
    }
    assert(s@ =~= cache_stall_text(cache_size, span, cause, num_seeds));
    s
}

/// The text of [`no_peers_message`].
pub open spec fn no_peers_text(
    info_hash: Seq<char>,
    peer_wait_secs: u64,
    piece_wait_secs: u64,
    truncated: bool,
) -> Seq<char> {
    "No seeder connected for info_hash "@ + info_hash + " after "@ + text::dec(
        peer_wait_secs as nat,
    ) + "s peer discovery + "@ + text::dec(piece_wait_secs as nat) + (if truncated {
        "s piece wait. A truncated piece needs re-download, but the torrent has no available seeder — the file cannot self-heal until a seeder connects."@
    } else {
        "s piece wait. The torrent has no available seeder — check tracker health or try again later."@
    })
}

/// Why a read failed without a seeder: a plain cold read, or one whose damaged
/// piece nobody can replace.
pub fn no_peers_message(
    info_hash: &str,
    peer_wait_secs: u64,
    piece_wait_secs: u64,
    truncated: bool,
) -> (s: String)
    ensures
        s@ == no_peers_text(info_hash@, peer_wait_secs, piece_wait_secs, truncated),
{
    let mut s: String = "No seeder connected for info_hash ".to_owned();
    text::push_text(&mut s, info_hash);
    text::push_text(&mut s, " after ");
    text::push_dec(&mut s, peer_wait_secs);
    text::push_text(&mut s, "s peer discovery + ");
    text::push_dec(&mut s, piece_wait_secs);
    if truncated {
        text::push_text(
            &mut s,
            "s piece wait. A truncated piece needs re-download, but the torrent has no available seeder — the file cannot self-heal until a seeder connects.",
        );
    } else {
        text::push_text(
            &mut s,
            "s piece wait. The torrent has no available seeder — check tracker health or try again later.",
        );
    }
    s
}

// ── What a step sees and what it does ───────────────────────────────────────

/// What the swarm library says a torrent is doing.
#[derive(Debug, Clone, Copy, PartialEq, Eq, Structural)]
pub enum TorrentState {
    QueuedForChecking,
    CheckingFiles,
    DownloadingMetadata,
    Downloading,
    Finished,
    Seeding,
    Allocating,
    CheckingResumeData,
    Unknown,
}

impl TorrentState {
    /// The state's name.
    pub open spec fn name(self) -> Seq<char> {
        match self {
            TorrentState::QueuedForChecking => "QueuedForChecking"@,
            TorrentState::CheckingFiles => "CheckingFiles"@,
            TorrentState::DownloadingMetadata => "DownloadingMetadata"@,
            TorrentState::Downloading => "Downloading"@,
            TorrentState::Finished => "Finished"@,
            TorrentState::Seeding => "Seeding"@,
            TorrentState::Allocating => "Allocating"@,
            TorrentState::CheckingResumeData => "CheckingResumeData"@,
            TorrentState::Unknown => "Unknown"@,
        }
    }

    /// Whether the torrent is still verifying or allocating its storage.
    pub open spec fn settling(self) -> bool {
        self == TorrentState::QueuedForChecking || self == TorrentState::CheckingFiles || self
            == TorrentState::Allocating || self == TorrentState::CheckingResumeData
    }
}

/// The name of a state.
fn state_name(state: TorrentState) -> (s: &'static str)
    ensures
        s@ == state.name(),
{
    match state {
        TorrentState::QueuedForChecking => "QueuedForChecking",
        TorrentState::CheckingFiles => "CheckingFiles",
        TorrentState::DownloadingMetadata => "DownloadingMetadata",
        TorrentState::Downloading => "Downloading",
        TorrentState::Finished => "Finished",
        TorrentState::Seeding => "Seeding",
        TorrentState::Allocating => "Allocating",
        TorrentState::CheckingResumeData => "CheckingResumeData",
        TorrentState::Unknown => "Unknown",
    }
}

/// Whether a torrent is still verifying or allocating its storage and cannot
/// serve a read yet.
pub fn is_settling_state(state: TorrentState) -> (yes: bool)
    ensures
        yes == state.settling(),
{
    match state {
        TorrentState::QueuedForChecking => true,
        TorrentState::CheckingFiles => true,
        TorrentState::Allocating => true,
        TorrentState::CheckingResumeData => true,
        _ => false,
    }
}

/// State and connections of a torrent.
#[derive(Debug, Clone, Copy, PartialEq, Eq, Structural)]
pub struct SwarmStatus {
    pub state: TorrentState,
    pub num_peers: i32,
    pub num_seeds: i32,
}

impl SwarmStatus {
    /// Whether nobody is connected.
    pub open spec fn empty(self) -> bool {
        self.num_peers == 0 && self.num_seeds == 0
    }
}

/// What is known of one piece.
#[derive(Debug, Clone, Copy, PartialEq, Eq, Structural)]
pub struct PieceFacts {
    /// The swarm library says that it has the piece.
    pub have: bool,
    /// The piece's file is missing or too short.
    pub stale: bool,
    /// The cache holds the whole piece.
    pub complete: bool,
    /// The cache held the piece and has lost it: it was evicted, purged after a
    /// failed check or removed from outside.
    pub gone: bool,
}

impl PieceFacts {
    /// The swarm library has the piece and its file is whole.
    pub open spec fn valid(self) -> bool {
        self.have && !self.stale
    }

    /// The piece can be read now.
    pub open spec fn local(self) -> bool {
        self.valid() || self.complete
    }

    /// The piece was there and is gone: the cache lost it, or the swarm library
    /// has a piece whose file is missing or too short.
    pub open spec fn lost(self) -> bool {
        self.gone || (self.have && self.stale)
    }
}

/// What a status request answered.
#[derive(Debug)]
pub enum StatusAnswer {
    /// The torrent's status, and its progress in percent with two decimals.
    Known { swarm: SwarmStatus, progress: String },
    /// The request failed.
    Failed(TorrentError),
}

impl StatusAnswer {
    /// The status, when there is one.
    pub open spec fn swarm(self) -> Option<SwarmStatus> {
        match self {
            StatusAnswer::Known { swarm, progress } => Some(swarm),
            StatusAnswer::Failed(e) => None,
        }
    }
}

/// What is known at the moment of a step.
#[derive(Debug)]
pub struct Observation {
    /// A clock that never goes back, in nanoseconds.
    pub now: u64,
    /// The engine is shutting down.
    pub stopping: bool,
    /// The torrent's status.
    pub status: StatusAnswer,
    /// What is known of each piece of the read, the first piece first.
    pub pieces: Vec<PieceFacts>,
    /// Bytes that the cache may hold.
    pub cache_size: u64,
}

impl Observation {
    /// The observation covers the read, and its clock has room for one more
    /// phase.
    pub open spec fn wf(self, plan: ReadPlan) -> bool {
        &&& self.pieces@.len() == plan.end_piece - plan.start_piece + 1
        &&& self.now + RECHECK_WAIT_CAP_SECS * NANOS <= u64::MAX
    }
}

/// Phase of a waiting read.
#[derive(Debug, Clone, Copy, PartialEq, Eq, Structural)]
pub enum ReadPhase {
    /// The torrent is still checking or allocating.
    WaitState,
    /// Damaged pieces were found; a recheck is under way.
    Recheck,
    /// The swarm looked empty; somebody may still connect.
    PeerWait,
    /// The pieces were asked for.
    PieceWait,
}

/// Where a waiting read stands.
#[derive(Debug, Clone, Copy, PartialEq, Eq, Structural)]
pub struct ReadWait {
    pub phase: ReadPhase,
    /// First piece that is not yet known to be available.
    pub current_piece: i32,
    /// When the phase began.
    pub phase_start: u64,
    /// When the phase gives up.
    pub phase_deadline: u64,
    /// The last status that was seen.
    pub status: SwarmStatus,
    /// The search for peers ran out on an empty swarm.
    pub is_peer_wait_exhausted: bool,
    /// A seeder is connected.
    pub has_seeder: bool,
    /// The search for peers announced a second time.
    pub reannounced_mid_wait: bool,
    /// When the wait for pieces began; starts over when a seeder connects.
    pub piece_wait_start: u64,
    /// How long the search for peers took, in nanoseconds.
    pub peer_wait_elapsed: u64,
    /// A damaged piece was found when the read began.
    pub had_truncated_piece: bool,
    /// The recheck was seen at work.
    pub saw_checking: bool,
}

/// Something the caller does on behalf of a read.
#[derive(Debug, Clone, Copy, PartialEq, Eq, Structural)]
pub enum ReadAction {
    /// Announce to the trackers now.
    Reannounce,
    /// Ask for a piece with an immediate deadline.
    SetDeadline { piece: i32 },
    /// Enter a finished piece into the cache.
    RegisterPiece { piece: i32 },
    /// Count a look at a piece and whether it was there.
    RecordPoll { found: bool },
    /// Enter the damaged leftovers of the read's pieces into the cache.
    RegisterIncomplete,
    /// Add the read to the readers of its torrent.
    AddReader,
    /// Let the torrent download.
    EnterDownloadMode,
    /// Publish what `.stats` shows.
    PublishSnapshot,
    /// Ask for fresh session counters.
    RefreshStats,
    /// Tell the operator that there is no seeder.
    Hint { num_peers: i32, num_seeds: i32, truncated: bool },
    /// Tell the operator that the cache stalled the read.
    StallHint { cache_size: u64, span: u64, cause: StallCause, seeds: Option<i32> },
}

/// What a step comes to.
#[derive(Debug)]
pub enum ReadStep {
    /// The read stays parked.
    Wait,
    /// Force a recheck and report whether it began.
    AskRecheck,
    /// Serve the read from disk, up to the given piece and offset.
    Serve { end_piece: i32, end_offset: u64, size: u32 },
    /// The read failed.
    Fail(TorrentError),
}

/// What a step comes to, as mathematics.
pub enum StepView {
    Wait,
    AskRecheck,
    Serve { end_piece: i32, end_offset: u64, size: u32 },
    Fail(ErrorView),
}

impl View for ReadStep {
    type V = StepView;

    open spec fn view(&self) -> StepView {
        match self {
            ReadStep::Wait => StepView::Wait,
            ReadStep::AskRecheck => StepView::AskRecheck,
            ReadStep::Serve { end_piece, end_offset, size } => StepView::Serve {
                end_piece: *end_piece,
                end_offset: *end_offset,
                size: *size,
            },
            ReadStep::Fail(e) => StepView::Fail(e@),
        }
    }
}

/// The next state of a read, what is done on the way, and what comes of it.
#[verifier::ext_equal]
pub struct Transition {
    pub wait: ReadWait,
    pub actions: Seq<ReadAction>,
    pub step: StepView,
}

// ── The steps, as mathematics ───────────────────────────────────────────────

/// Nanoseconds from one moment to another, zero when it lies ahead.
pub open spec fn since(start: u64, now: u64) -> int {
    if now >= start {
        now - start
    } else {
        0
    }
}

/// A read that was just validated.
pub open spec fn fresh_wait(plan: ReadPlan, status: SwarmStatus, now: u64) -> ReadWait {
    ReadWait {
        phase: ReadPhase::PieceWait,
        current_piece: plan.start_piece,
        phase_start: now,
        phase_deadline: now,
        status,
        is_peer_wait_exhausted: false,
        has_seeder: false,
        reannounced_mid_wait: false,
        piece_wait_start: now,
        peer_wait_elapsed: 0,
        had_truncated_piece: false,
        saw_checking: false,
    }
}

/// The answer to a read that the shutdown cut short.
pub open spec fn aborted() -> ErrorView {
    ErrorView { kind: ErrorKind::Timeout, text: "shutdown requested, read aborted"@ }
}

/// The answer when the torrent is gone.
pub open spec fn missing_handle() -> ErrorView {
    ErrorView { kind: ErrorKind::Unknown((-1) as i32), text: "Torrent handle missing"@ }
}

/// Every piece of the read can be read now.
pub open spec fn all_local(pieces: Seq<PieceFacts>) -> bool {
    forall|k: int| 0 <= k < pieces.len() ==> (#[trigger] pieces[k]).local()
}

/// Some piece of the read is claimed but damaged.
pub open spec fn any_stale(pieces: Seq<PieceFacts>) -> bool {
    exists|k: int| 0 <= k < pieces.len() && (#[trigger] pieces[k]).have && pieces[k].stale
}

/// Deadlines for the first `n` pieces that are not truly there.
pub open spec fn deadlines(plan: ReadPlan, pieces: Seq<PieceFacts>, n: nat) -> Seq<ReadAction>
    decreases n,
{
    if n == 0 {
        Seq::empty()
    } else {
        let k = n - 1;
        let rest = deadlines(plan, pieces, k as nat);
        if pieces[k].valid() {
            rest
        } else {
            rest.push(ReadAction::SetDeadline { piece: (plan.start_piece + k) as i32 })
        }
    }
}

/// The read begins to search for peers.
pub open spec fn peer_wait_entered(w: ReadWait, timeout: u64, now: u64) -> ReadWait {
    ReadWait {
        phase: ReadPhase::PeerWait,
        phase_start: now,
        phase_deadline: (now + least(timeout as int, PEER_WAIT_CAP_SECS as int) * NANOS) as u64,
        reannounced_mid_wait: false,
        ..w
    }
}

/// The read begins to wait for its pieces.
pub open spec fn piece_wait_entered(w: ReadWait, now: u64) -> ReadWait {
    ReadWait {
        phase: ReadPhase::PieceWait,
        has_seeder: w.status.num_seeds > 0,
        piece_wait_start: now,
        ..w
    }
}

/// The whole range is served.
pub open spec fn serve_all(plan: ReadPlan) -> StepView {
    StepView::Serve { end_piece: plan.end_piece, end_offset: plan.end_offset, size: plan.size }
}

/// The torrent has settled and nothing is damaged: serve the read if its pieces
/// are here, otherwise join the readers and wait.
pub open spec fn waiting_begun(plan: ReadPlan, timeout: u64, w: ReadWait, obs: Observation) -> Transition {
    let pieces = obs.pieces@;
    let joined = seq![
        ReadAction::AddReader,
        ReadAction::PublishSnapshot,
        ReadAction::EnterDownloadMode,
        ReadAction::PublishSnapshot,
    ];
    if all_local(pieces) {
        Transition { wait: w, actions: Seq::empty(), step: serve_all(plan) }
    } else if w.status.empty() {
        Transition {
            wait: peer_wait_entered(w, timeout, obs.now),
            actions: joined.push(ReadAction::Reannounce),
            step: StepView::Wait,
        }
    } else {
        Transition {
            wait: piece_wait_entered(w, obs.now),
            actions: joined + deadlines(plan, pieces, pieces.len()),
            step: StepView::Wait,
        }
    }
}

/// The torrent has settled: a damaged piece asks for a recheck first.
pub open spec fn settled(plan: ReadPlan, timeout: u64, w: ReadWait, obs: Observation) -> Transition {
    if any_stale(obs.pieces@) {
        Transition {
            wait: ReadWait { had_truncated_piece: true, ..w },
            actions: Seq::empty(),
            step: StepView::AskRecheck,
        }
    } else {
        waiting_begun(plan, timeout, w, obs)
    }
}

/// A recheck was asked for.
pub open spec fn recheck_asked(
    plan: ReadPlan,
    timeout: u64,
    w: ReadWait,
    obs: Observation,
    began: bool,
) -> Transition {
    if began {
        Transition {
            wait: ReadWait {
                phase: ReadPhase::Recheck,
                phase_start: obs.now,
                phase_deadline: (obs.now + least(timeout as int, RECHECK_WAIT_CAP_SECS as int)
                    * NANOS) as u64,
                saw_checking: false,
                ..w
            },
            actions: Seq::empty(),
            step: StepView::Wait,
        }
    } else {
        waiting_begun(plan, timeout, w, obs)
    }
}

/// A look at a torrent that has not settled yet.
pub open spec fn wait_state_polled(plan: ReadPlan, timeout: u64, w: ReadWait, obs: Observation) -> Transition {
    if obs.stopping {
        Transition { wait: w, actions: Seq::empty(), step: StepView::Fail(aborted()) }
    } else if since(w.phase_start, obs.now) / NANOS as int > timeout {
        Transition {
            wait: w,
            actions: Seq::empty(),
            step: StepView::Fail(
                ErrorView {
                    kind: ErrorKind::Timeout,
                    text: "Torrent stuck in state "@ + w.status.state.name() + " for "@ + text::dec(
                        timeout as nat,
                    ) + " seconds"@,
                },
            ),
        }
    } else {
        match obs.status.swarm() {
            Some(s) => if s.state.settling() {
                Transition {
                    wait: ReadWait { status: s, ..w },
                    actions: Seq::empty(),
                    step: StepView::Wait,
                }
            } else {
                settled(plan, timeout, ReadWait { status: s, ..w }, obs)
            },
            None => Transition { wait: w, actions: Seq::empty(), step: StepView::Wait },
        }
    }
}

/// A look at a torrent that is being rechecked.
pub open spec fn recheck_polled(plan: ReadPlan, timeout: u64, w: ReadWait, obs: Observation) -> Transition {
    if obs.stopping {
        Transition { wait: w, actions: Seq::empty(), step: StepView::Fail(aborted()) }
    } else if obs.now >= w.phase_deadline {
        waiting_begun(plan, timeout, w, obs)
    } else {
        match obs.status.swarm() {
            Some(s) => if s.state.settling() {
                Transition {
                    wait: ReadWait { saw_checking: true, ..w },
                    actions: Seq::empty(),
                    step: StepView::Wait,
                }
            } else if w.saw_checking || since(w.phase_start, obs.now) > RECHECK_GRACE_SECS
                * NANOS {
                waiting_begun(plan, timeout, w, obs)
            } else {
                Transition { wait: w, actions: Seq::empty(), step: StepView::Wait }
            },
            None => waiting_begun(plan, timeout, w, obs),
        }
    }
}

/// A look at a swarm that was empty.
pub open spec fn peer_wait_polled(plan: ReadPlan, w: ReadWait, obs: Observation) -> Transition {
    let pieces = obs.pieces@;
    if obs.stopping {
        Transition { wait: w, actions: Seq::empty(), step: StepView::Fail(aborted()) }
    } else {
        match obs.status {
            StatusAnswer::Failed(e) => Transition {
                wait: w,
                actions: if obs.now >= w.phase_deadline {
                    Seq::empty()
                } else {
                    seq![ReadAction::RefreshStats]
                },
                step: StepView::Fail(e@),
            },
            StatusAnswer::Known { swarm, progress } => {
                let over = obs.now >= w.phase_deadline;
                let seen = seq![ReadAction::RefreshStats, ReadAction::PublishSnapshot];
                let found = ReadWait {
                    status: swarm,
                    is_peer_wait_exhausted: if over {
                        swarm.empty()
                    } else {
                        w.is_peer_wait_exhausted
                    },
                    peer_wait_elapsed: since(w.phase_start, obs.now) as u64,
                    ..w
                };
                let window = since(w.phase_start, w.phase_deadline);
                if over {
                    Transition {
                        wait: piece_wait_entered(found, obs.now),
                        actions: seq![ReadAction::PublishSnapshot] + deadlines(
                            plan,
                            pieces,
                            pieces.len(),
                        ),
                        step: StepView::Wait,
                    }
                } else if swarm.num_peers > 0 || swarm.num_seeds > 0 {
                    Transition {
                        wait: piece_wait_entered(found, obs.now),
                        actions: seen + deadlines(plan, pieces, pieces.len()),
                        step: StepView::Wait,
                    }
                } else if !w.reannounced_mid_wait && since(w.phase_start, obs.now) >= window / 2 {
                    Transition {
                        wait: ReadWait { status: swarm, reannounced_mid_wait: true, ..w },
                        actions: seen.push(ReadAction::Reannounce),
                        step: StepView::Wait,
                    }
                } else {
                    Transition {
                        wait: ReadWait { status: swarm, ..w },
                        actions: seen,
                        step: StepView::Wait,
                    }
                }
            },
        }
    }
}

/// The first piece from `p` on that cannot be read now, or the one past the
/// last.
pub open spec fn first_missing(plan: ReadPlan, pieces: Seq<PieceFacts>, p: int) -> int
    decreases plan.end_piece + 1 - p,
{
    if p > plan.end_piece || !pieces[p - plan.start_piece].local() {
        p
    } else {
        first_missing(plan, pieces, p + 1)
    }
}

/// What is done while looking at the pieces from `p` on.
pub open spec fn looks(plan: ReadPlan, pieces: Seq<PieceFacts>, p: int) -> Seq<ReadAction>
    decreases plan.end_piece + 1 - p,
{
    if p > plan.end_piece {
        Seq::empty()
    } else {
        let facts = pieces[p - plan.start_piece];
        if !facts.local() {
            seq![ReadAction::RecordPoll { found: false }]
        } else if facts.valid() {
            seq![
                ReadAction::RecordPoll { found: true },
                ReadAction::RegisterPiece { piece: p as i32 },
            ] + looks(plan, pieces, p + 1)
        } else {
            seq![ReadAction::RecordPoll { found: true }] + looks(plan, pieces, p + 1)
        }
    }
}

/// Why the cache cannot serve a read that waits on a piece, if it cannot.
pub open spec fn stall_cause(plan: ReadPlan, waited_on: PieceFacts, cache_size: u64) -> Option<
    StallCause,
> {
    if plan.size > cache_size {
        Some(StallCause::SpanTooLarge)
    } else if waited_on.lost() {
        Some(StallCause::PieceGone)
    } else {
        None
    }
}

/// What the operator is told of the cache when a read fails for want of a piece.
pub open spec fn stall_told(
    plan: ReadPlan,
    waited_on: PieceFacts,
    cache_size: u64,
    status: StatusAnswer,
) -> Seq<ReadAction> {
    match stall_cause(plan, waited_on, cache_size) {
        Some(cause) => seq![
            ReadAction::StallHint {
                cache_size,
                span: plan.size as u64,
                cause,
                seeds: match status.swarm() {
                    Some(s) => Some(s.num_seeds),
                    None => None,
                },
            },
        ],
        None => Seq::empty(),
    }
}

/// The end of a read whose pieces did not come in time: the complete prefix if
/// there is one, otherwise an error that tells "nobody has it" from "too slow".
/// A cache that cannot serve the read is named beside the error.
pub open spec fn timed_out(
    plan: ReadPlan,
    info_hash: Seq<char>,
    w: ReadWait,
    status: StatusAnswer,
    waited_on: PieceFacts,
    cache_size: u64,
    p: int,
    window_secs: int,
) -> (Seq<ReadAction>, StepView) {
    let told = seq![ReadAction::RegisterIncomplete] + stall_told(
        plan,
        waited_on,
        cache_size,
        status,
    );
    match read_plan::partial_bounds(
        plan.start_piece,
        (p - 1) as i32,
        plan.piece_length,
        plan.absolute_offset,
        plan.end_offset,
    ) {
        Some(b) => (
            seq![ReadAction::RegisterIncomplete],
            StepView::Serve { end_piece: (p - 1) as i32, end_offset: b.0, size: b.1 },
        ),
        None => match status {
            StatusAnswer::Failed(e) => (
                told,
                StepView::Fail(
                    ErrorView {
                        kind: ErrorKind::Timeout,
                        text: "Timed out waiting for piece "@ + text::dec_int(p) + " after "@
                            + text::dec(window_secs as nat) + "s (status unavailable)"@,
                    },
                ),
            ),
            StatusAnswer::Known { swarm, progress } => if swarm.num_seeds == 0 {
                (
                    told.push(
                        ReadAction::Hint {
                            num_peers: swarm.num_peers,
                            num_seeds: swarm.num_seeds,
                            truncated: w.had_truncated_piece,
                        },
                    ),
                    StepView::Fail(
                        ErrorView {
                            kind: ErrorKind::NoPeers,
                            text: no_peers_text(
                                info_hash,
                                (w.peer_wait_elapsed / NANOS) as u64,
                                window_secs as u64,
                                w.had_truncated_piece,
                            ),
                        },
                    ),
                )
            } else {
                (
                    told,
                    StepView::Fail(
                        ErrorView {
                            kind: ErrorKind::Timeout,
                            text: "Timed out waiting for piece "@ + text::dec_int(p) + " after "@
                                + text::dec(window_secs as nat) + "s. Torrent progress: "@
                                + progress@ + "%"@,
                        },
                    ),
                )
            },
        },
    }
}

/// A look at the pieces of a read.
pub open spec fn piece_wait_polled(
    plan: ReadPlan,
    info_hash: Seq<char>,
    timeout: u64,
    w: ReadWait,
    obs: Observation,
) -> Transition {
    let pieces = obs.pieces@;
    let p = first_missing(plan, pieces, w.current_piece as int);
    let seen = looks(plan, pieces, w.current_piece as int);
    let advanced = ReadWait { current_piece: p as i32, ..w };
    if obs.stopping {
        Transition { wait: w, actions: Seq::empty(), step: StepView::Fail(aborted()) }
    } else if p > plan.end_piece {
        Transition { wait: advanced, actions: seen, step: serve_all(plan) }
    } else {
        let next = match obs.status.swarm() {
            Some(s) => if !w.has_seeder && s.num_seeds > 0 {
                ReadWait { has_seeder: true, piece_wait_start: obs.now, status: s, ..advanced }
            } else {
                advanced
            },
            None => advanced,
        };
        let window = piece_window(next.has_seeder, next.is_peer_wait_exhausted, timeout);
        if since(next.piece_wait_start, obs.now) >= window * NANOS {
            let end = timed_out(
                plan,
                info_hash,
                next,
                obs.status,
                pieces[p - plan.start_piece],
                obs.cache_size,
                p,
                window,
            );
            Transition { wait: next, actions: seen + end.0, step: end.1 }
        } else {
            Transition { wait: next, actions: seen, step: StepView::Wait }
        }
    }
}

/// One look at a parked read, whatever its phase.
pub open spec fn polled(
    plan: ReadPlan,
    info_hash: Seq<char>,
    timeout: u64,
    w: ReadWait,
    obs: Observation,
) -> Transition {
    match w.phase {
        ReadPhase::WaitState => wait_state_polled(plan, timeout, w, obs),
        ReadPhase::Recheck => recheck_polled(plan, timeout, w, obs),
        ReadPhase::PeerWait => peer_wait_polled(plan, w, obs),
        ReadPhase::PieceWait => piece_wait_polled(plan, info_hash, timeout, w, obs),
    }
}

// ── The steps ───────────────────────────────────────────────────────────────

impl ReadWait {
    /// A read that was just validated.
    pub fn new(plan: &ReadPlan, status: SwarmStatus, now: u64) -> (w: Self)
        ensures
            w == fresh_wait(*plan, status, now),
    {
        ReadWait {
            phase: ReadPhase::PieceWait,
            current_piece: plan.start_piece,
            phase_start: now,
            phase_deadline: now,
            status,
            is_peer_wait_exhausted: false,
            has_seeder: false,
            reannounced_mid_wait: false,
            piece_wait_start: now,
            peer_wait_elapsed: 0,
            had_truncated_piece: false,
            saw_checking: false,
        }
    }
}

/// The error of a read that the shutdown cut short.
pub fn shutdown_error() -> (e: TorrentError)
    ensures
        e@ == aborted(),
{
    TorrentError::Timeout("shutdown requested, read aborted".to_owned())
}

/// The error of a read whose torrent is gone.
pub fn missing() -> (e: TorrentError)
    ensures
        e@ == missing_handle(),
{
    TorrentError::Unknown { code: -1, message: "Torrent handle missing".to_owned() }
}

/// Whether every piece of a read can be read now.
pub fn all_pieces_local(pieces: &Vec<PieceFacts>) -> (yes: bool)
    ensures
        yes == all_local(pieces@),
{
    let mut k: usize = 0;
    while k < pieces.len()
        invariant
            k <= pieces@.len(),
            forall|i: int| 0 <= i < k ==> (#[trigger] pieces@[i]).local(),
        decreases pieces@.len() - k,
    {
        let f: PieceFacts = pieces[k];
        if !((f.have && !f.stale) || f.complete) {
            return false;
        }
        k = k + 1;
    }
    true
}

/// Whether some piece of a read is claimed but missing or short on disk.
pub fn has_stale_pieces(pieces: &Vec<PieceFacts>) -> (yes: bool)
    ensures
        yes == any_stale(pieces@),
{
    let mut k: usize = 0;
    while k < pieces.len()
        invariant
            k <= pieces@.len(),
            forall|i: int| 0 <= i < k ==> !((#[trigger] pieces@[i]).have && pieces@[i].stale),
        decreases pieces@.len() - k,
    {
        let f: PieceFacts = pieces[k];
        if f.have && f.stale {
            return true;
        }
        k = k + 1;
    }
    false
}

/// Nanoseconds from one moment to another, zero when it lies ahead.
fn elapsed(start: u64, now: u64) -> (d: u64)
    ensures
        d == since(start, now),
{
    now.saturating_sub(start)
}

/// Asks for every piece that is not truly there.
fn set_deadlines(plan: &ReadPlan, pieces: &Vec<PieceFacts>, actions: &mut Vec<ReadAction>)
    requires
        plan.wf(),
        pieces@.len() == plan.end_piece - plan.start_piece + 1,
    ensures
        final(actions)@ == old(actions)@ + deadlines(*plan, pieces@, pieces@.len()),
{
    let ghost before = actions@;
    let mut k: usize = 0;
    assert(before + deadlines(*plan, pieces@, 0) =~= before);
    while k < pieces.len()
        invariant
            plan.wf(),
            pieces@.len() == plan.end_piece - plan.start_piece + 1,
            k <= pieces@.len(),
            actions@ == before + deadlines(*plan, pieces@, k as nat),
        decreases pieces@.len() - k,
    {
        let f: PieceFacts = pieces[k];
        if !(f.have && !f.stale) {
            actions.push(ReadAction::SetDeadline { piece: plan.start_piece + k as i32 });
        }
        assert(actions@ =~= before + deadlines(*plan, pieces@, (k + 1) as nat));
        k = k + 1;
    }
}

/// Begins the search for peers.
fn enter_peer_wait(w: &mut ReadWait, timeout: u64, now: u64)
    requires
        now + RECHECK_WAIT_CAP_SECS * NANOS <= u64::MAX,
    ensures
        *final(w) == peer_wait_entered(*old(w), timeout, now),
{
    let secs: u64 = least_u64(timeout, PEER_WAIT_CAP_SECS);
    w.phase = ReadPhase::PeerWait;
    w.phase_start = now;
    w.phase_deadline = now + secs * NANOS;
    w.reannounced_mid_wait = false;
}

/// Begins the wait for the pieces.
fn enter_piece_wait(w: &mut ReadWait, now: u64)
    ensures
        *final(w) == piece_wait_entered(*old(w), now),
{
    w.has_seeder = w.status.num_seeds > 0;
    w.piece_wait_start = now;
    w.phase = ReadPhase::PieceWait;
}

/// The step that serves the whole range.
fn serve_whole(plan: &ReadPlan) -> (step: ReadStep)
    ensures
        step@ == serve_all(*plan),
{
    ReadStep::Serve { end_piece: plan.end_piece, end_offset: plan.end_offset, size: plan.size }
}

/// Serves a read from local pieces when that is possible; otherwise joins the
/// readers and begins to wait.
pub fn begin_waiting(plan: &ReadPlan, timeout: u64, w: &mut ReadWait, obs: &Observation) -> (r: (
    Vec<ReadAction>,
    ReadStep,
))
    requires
        plan.wf(),
        obs.wf(*plan),
    ensures
        (Transition { wait: *final(w), actions: r.0@, step: r.1@ }) == waiting_begun(
            *plan,
            timeout,
            *old(w),
            *obs,
        ),
{
    let mut actions: Vec<ReadAction> = Vec::new();
    if all_pieces_local(&obs.pieces) {
        return (actions, serve_whole(plan));
    }
    actions.push(ReadAction::AddReader);
    actions.push(ReadAction::PublishSnapshot);
    actions.push(ReadAction::EnterDownloadMode);
    actions.push(ReadAction::PublishSnapshot);
    let ghost joined = seq![
        ReadAction::AddReader,
        ReadAction::PublishSnapshot,
        ReadAction::EnterDownloadMode,
        ReadAction::PublishSnapshot,
    ];
    assert(actions@ =~= joined);
    if swarm_is_empty(w.status.num_peers, w.status.num_seeds) {
        actions.push(ReadAction::Reannounce);
        enter_peer_wait(w, timeout, obs.now);
    } else {
        set_deadlines(plan, &obs.pieces, &mut actions);
        enter_piece_wait(w, obs.now);
    }
    (actions, ReadStep::Wait)
}

/// Goes on with a read whose torrent has settled.
pub fn after_settling(plan: &ReadPlan, timeout: u64, w: &mut ReadWait, obs: &Observation) -> (r: (
    Vec<ReadAction>,
    ReadStep,
))
    requires
        plan.wf(),
        obs.wf(*plan),
    ensures
        (Transition { wait: *final(w), actions: r.0@, step: r.1@ }) == settled(
            *plan,
            timeout,
            *old(w),
            *obs,
        ),
{
    if has_stale_pieces(&obs.pieces) {
        w.had_truncated_piece = true;
        return (Vec::new(), ReadStep::AskRecheck);
    }
    begin_waiting(plan, timeout, w, obs)
}

/// Goes on after a recheck was asked for. One that did not begin is left alone.
pub fn recheck_requested(
    plan: &ReadPlan,
    timeout: u64,
    w: &mut ReadWait,
    obs: &Observation,
    began: bool,
) -> (r: (Vec<ReadAction>, ReadStep))
    requires
        plan.wf(),
        obs.wf(*plan),
    ensures
        (Transition { wait: *final(w), actions: r.0@, step: r.1@ }) == recheck_asked(
            *plan,
            timeout,
            *old(w),
            *obs,
            began,
        ),
{
    if !began {
        return begin_waiting(plan, timeout, w, obs);
    }
    let secs: u64 = least_u64(timeout, RECHECK_WAIT_CAP_SECS);
    w.phase = ReadPhase::Recheck;
    w.phase_start = obs.now;
    w.phase_deadline = obs.now + secs * NANOS;
    w.saw_checking = false;
    (Vec::new(), ReadStep::Wait)
}

/// The first step of a validated read: wait for the torrent to settle, or go
/// on at once.
pub fn start_read(plan: &ReadPlan, timeout: u64, status: SwarmStatus, obs: &Observation) -> (r: (
    ReadWait,
    Vec<ReadAction>,
    ReadStep,
))
    requires
        plan.wf(),
        obs.wf(*plan),
    ensures
        (Transition { wait: r.0, actions: r.1@, step: r.2@ }) == started(
            *plan,
            timeout,
            status,
            *obs,
        ),
{
    let mut w: ReadWait = ReadWait::new(plan, status, obs.now);
    if is_settling_state(status.state) {
        w.phase = ReadPhase::WaitState;
        return (w, Vec::new(), ReadStep::Wait);
    }
    let (actions, step): (Vec<ReadAction>, ReadStep) = after_settling(plan, timeout, &mut w, obs);
    (w, actions, step)
}

/// See [`start_read`].
pub open spec fn started(plan: ReadPlan, timeout: u64, status: SwarmStatus, obs: Observation) -> Transition {
    let w = fresh_wait(plan, status, obs.now);
    if status.state.settling() {
        Transition {
            wait: ReadWait { phase: ReadPhase::WaitState, ..w },
            actions: Seq::empty(),
            step: StepView::Wait,
        }
    } else {
        settled(plan, timeout, w, obs)
    }
}

/// A look at a torrent that has not settled yet.
fn poll_wait_state(plan: &ReadPlan, timeout: u64, w: &mut ReadWait, obs: &Observation) -> (r: (
    Vec<ReadAction>,
    ReadStep,
))
    requires
        plan.wf(),
        obs.wf(*plan),
    ensures
        (Transition { wait: *final(w), actions: r.0@, step: r.1@ }) == wait_state_polled(
            *plan,
            timeout,
            *old(w),
            *obs,
        ),
{
    if obs.stopping {
        return (Vec::new(), ReadStep::Fail(shutdown_error()));
    }
    if elapsed(w.phase_start, obs.now) / NANOS > timeout {
        let mut message: String = "Torrent stuck in state ".to_owned();
        text::push_text(&mut message, state_name(w.status.state));
        text::push_text(&mut message, " for ");
        text::push_dec(&mut message, timeout);
        text::push_text(&mut message, " seconds");
        return (Vec::new(), ReadStep::Fail(TorrentError::Timeout(message)));
    }
    match &obs.status {
        StatusAnswer::Known { swarm, progress } => {
            w.status = *swarm;
            if is_settling_state(swarm.state) {
                (Vec::new(), ReadStep::Wait)
            } else {
                after_settling(plan, timeout, w, obs)
            }
        },
        StatusAnswer::Failed(e) => (Vec::new(), ReadStep::Wait),
    }
}

/// A look at a torrent that is being rechecked.
fn poll_recheck(plan: &ReadPlan, timeout: u64, w: &mut ReadWait, obs: &Observation) -> (r: (
    Vec<ReadAction>,
    ReadStep,
))
    requires
        plan.wf(),
        obs.wf(*plan),
    ensures
        (Transition { wait: *final(w), actions: r.0@, step: r.1@ }) == recheck_polled(
            *plan,
            timeout,
            *old(w),
            *obs,
        ),
{
    if obs.stopping {
        return (Vec::new(), ReadStep::Fail(shutdown_error()));
    }
    if obs.now >= w.phase_deadline {
        return begin_waiting(plan, timeout, w, obs);
    }
    match &obs.status {
        StatusAnswer::Known { swarm, progress } => {
            if is_settling_state(swarm.state) {
                w.saw_checking = true;
                (Vec::new(), ReadStep::Wait)
            } else if w.saw_checking || elapsed(w.phase_start, obs.now) > RECHECK_GRACE_SECS
                * NANOS {
                begin_waiting(plan, timeout, w, obs)
            } else {
                (Vec::new(), ReadStep::Wait)
            }
        },
        StatusAnswer::Failed(e) => begin_waiting(plan, timeout, w, obs),
    }
}

/// A look at a swarm that was empty.
fn poll_peer_wait(plan: &ReadPlan, w: &mut ReadWait, obs: Observation) -> (r: (
    Vec<ReadAction>,
    ReadStep,
))
    requires
        plan.wf(),
        obs.wf(*plan),
    ensures
        (Transition { wait: *final(w), actions: r.0@, step: r.1@ }) == peer_wait_polled(
            *plan,
            *old(w),
            obs,
        ),
{
    let mut actions: Vec<ReadAction> = Vec::new();
    if obs.stopping {
        return (actions, ReadStep::Fail(shutdown_error()));
    }
    let over: bool = obs.now >= w.phase_deadline;
    if !over {
        actions.push(ReadAction::RefreshStats);
        assert(actions@ =~= seq![ReadAction::RefreshStats]);
    }
    let swarm: SwarmStatus = match obs.status {
        StatusAnswer::Known { swarm, progress } => swarm,
        StatusAnswer::Failed(e) => {
            return (actions, ReadStep::Fail(e));
        },
    };
    w.status = swarm;
    actions.push(ReadAction::PublishSnapshot);
    if over {
        assert(actions@ =~= seq![ReadAction::PublishSnapshot]);
        w.is_peer_wait_exhausted = swarm_is_empty(swarm.num_peers, swarm.num_seeds);
    } else {
        assert(actions@ =~= seq![ReadAction::RefreshStats, ReadAction::PublishSnapshot]);
    }
    let gone: u64 = elapsed(w.phase_start, obs.now);
    if over || swarm.num_peers > 0 || swarm.num_seeds > 0 {
        w.peer_wait_elapsed = gone;
        set_deadlines(plan, &obs.pieces, &mut actions);
        enter_piece_wait(w, obs.now);
        return (actions, ReadStep::Wait);
    }
    let window: u64 = elapsed(w.phase_start, w.phase_deadline);
    if !w.reannounced_mid_wait && gone >= window / 2 {
        w.reannounced_mid_wait = true;
        actions.push(ReadAction::Reannounce);
    }
    (actions, ReadStep::Wait)
}

/// Why the cache cannot serve a read, if it cannot; see [`stall_cause`].
fn find_stall(plan: &ReadPlan, waited_on: PieceFacts, cache_size: u64) -> (cause: Option<StallCause>)
    ensures
        cause == stall_cause(*plan, waited_on, cache_size),
{
    if plan.size as u64 > cache_size {
        Some(StallCause::SpanTooLarge)
    } else if waited_on.gone || (waited_on.have && waited_on.stale) {
        Some(StallCause::PieceGone)
    } else {
        None
    }
}

/// Ends a read whose pieces did not come in time.
fn read_timed_out(
    plan: &ReadPlan,
    info_hash: &str,
    w: &ReadWait,
    status: StatusAnswer,
    waited_on: PieceFacts,
    cache_size: u64,
    piece_idx: i32,
    window_secs: u64,
    actions: &mut Vec<ReadAction>,
) -> (step: ReadStep)
    requires
        plan.wf(),
        plan.start_piece <= piece_idx <= plan.end_piece,
    ensures
        ({
            let end = timed_out(
                *plan,
                info_hash@,
                *w,
                status,
                waited_on,
                cache_size,
                piece_idx as int,
                window_secs as int,
            );
            final(actions)@ == old(actions)@ + end.0 && step@ == end.1
        }),
{
    let ghost before = actions@;
    actions.push(ReadAction::RegisterIncomplete);
    assert(actions@ =~= before + seq![ReadAction::RegisterIncomplete]);
    proof {
        read_plan::lemma_piece_start_fits(
            piece_idx as int,
            plan.num_pieces as int,
            plan.piece_length as int,
        );
    }
    let bounds: Option<(u64, u32)> = read_plan::partial_read_bounds(
        plan.start_piece,
        piece_idx - 1,
        plan.piece_length,
        plan.absolute_offset,
        plan.end_offset,
    );
    match bounds {
        Some((partial_end, partial_size)) => {
            return ReadStep::Serve {
                end_piece: piece_idx - 1,
                end_offset: partial_end,
                size: partial_size,
            };
        },
        None => {},
    }
    let seeds: Option<i32> = match &status {
        StatusAnswer::Known { swarm, progress } => Some(swarm.num_seeds),
        StatusAnswer::Failed(e) => None,
    };
    let span: u64 = plan.size as u64;
    match find_stall(plan, waited_on, cache_size) {
        Some(cause) => actions.push(
            ReadAction::StallHint { cache_size, span, cause, seeds },
        ),
        None => {},
    }
    let ghost told = seq![ReadAction::RegisterIncomplete] + stall_told(
        *plan,
        waited_on,
        cache_size,
        status,
    );
    assert(actions@ =~= before + told);
    let mut message: String = "Timed out waiting for piece ".to_owned();
    text::push_dec_int(&mut message, piece_idx as i64);
    text::push_text(&mut message, " after ");
    text::push_dec(&mut message, window_secs);
    match status {
        StatusAnswer::Failed(e) => {
            text::push_text(&mut message, "s (status unavailable)");
            ReadStep::Fail(TorrentError::Timeout(message))
        },
        StatusAnswer::Known { swarm, progress } => {
            if swarm.num_seeds == 0 {
                actions.push(
                    ReadAction::Hint {
                        num_peers: swarm.num_peers,
                        num_seeds: swarm.num_seeds,
                        truncated: w.had_truncated_piece,
                    },
                );
                assert(actions@ =~= before + told.push(actions@.last()));
                ReadStep::Fail(
                    TorrentError::NoPeers(
                        no_peers_message(
                            info_hash,
                            w.peer_wait_elapsed / NANOS,
                            window_secs,
                            w.had_truncated_piece,
                        ),
                    ),
                )
            } else {
                text::push_text(&mut message, "s. Torrent progress: ");
                text::push_text(&mut message, progress.as_str());
                text::push_text(&mut message, "%");
                ReadStep::Fail(TorrentError::Timeout(message))
            }
        },
    }
}

/// A look at the pieces of a read: those that are there are taken, and the read
/// waits for the first that is not.
fn poll_piece_wait(
    plan: &ReadPlan,
    info_hash: &str,
    timeout: u64,
    w: &mut ReadWait,
    obs: Observation,
) -> (r: (Vec<ReadAction>, ReadStep))
    requires
        plan.wf(),
        obs.wf(*plan),
        plan.start_piece <= old(w).current_piece <= plan.end_piece + 1,
    ensures
        (Transition { wait: *final(w), actions: r.0@, step: r.1@ }) == piece_wait_polled(
            *plan,
            info_hash@,
            timeout,
            *old(w),
            obs,
        ),
{
    let mut actions: Vec<ReadAction> = Vec::new();
    if obs.stopping {
        return (actions, ReadStep::Fail(shutdown_error()));
    }
    let ghost first = *w;
    let ghost pieces = obs.pieces@;
    let ghost all = looks(*plan, pieces, first.current_piece as int);
    let mut p: i32 = w.current_piece;
    assert(actions@ + all =~= all);
    let mut found: bool = true;
    while found && p <= plan.end_piece
        invariant
            plan.wf(),
            obs.wf(*plan),
            pieces == obs.pieces@,
            *w == first,
            plan.start_piece <= first.current_piece <= p <= plan.end_piece + 1,
            all == looks(*plan, pieces, first.current_piece as int),
            first_missing(*plan, pieces, first.current_piece as int) == first_missing(
                *plan,
                pieces,
                p as int,
            ),
            found ==> all == actions@ + looks(*plan, pieces, p as int),
            !found ==> p <= plan.end_piece && !pieces[p - plan.start_piece].local() && all
                == actions@,
        decreases plan.end_piece + 1 - p + (if found { 1int } else { 0int }),
    {
        let f: PieceFacts = obs.pieces[(p - plan.start_piece) as usize];
        let have_valid: bool = f.have && !f.stale;
        let ghost before = actions@;
        let ghost rest = looks(*plan, pieces, p + 1);
        actions.push(ReadAction::RecordPoll { found: have_valid || f.complete });
        if have_valid || f.complete {
            if have_valid {
                actions.push(ReadAction::RegisterPiece { piece: p });
                assert(actions@ + rest =~= before + (seq![
                    ReadAction::RecordPoll { found: true },
                    ReadAction::RegisterPiece { piece: p },
                ] + rest));
            } else {
                assert(actions@ + rest =~= before + (seq![ReadAction::RecordPoll { found: true }]
                    + rest));
            }
            p = p + 1;
        } else {
            assert(actions@ =~= before + seq![ReadAction::RecordPoll { found: false }]);
            found = false;
        }
    }
    w.current_piece = p;
    if p > plan.end_piece {
        assert(actions@ + Seq::<ReadAction>::empty() =~= actions@);
        return (actions, serve_whole(plan));
    }
    if !w.has_seeder {
        match &obs.status {
            StatusAnswer::Known { swarm, progress } => {
                if swarm.num_seeds > 0 {
                    w.has_seeder = true;
                    w.piece_wait_start = obs.now;
                    w.status = *swarm;
                }
            },
            StatusAnswer::Failed(e) => {},
        }
    }
    let window: u64 = piece_wait_window_secs(w.has_seeder, w.is_peer_wait_exhausted, timeout);
    if elapsed(w.piece_wait_start, obs.now) as u128 >= window as u128 * NANOS as u128 {
        let step: ReadStep = read_timed_out(
            plan,
            info_hash,
            w,
            obs.status,
            obs.pieces[(p - plan.start_piece) as usize],
            obs.cache_size,
            p,
            window,
            &mut actions,
        );
        return (actions, step);
    }
    (actions, ReadStep::Wait)
}

/// One look at a parked read. A read whose torrent is gone fails.
pub fn poll_read(
    plan: &ReadPlan,
    info_hash: &str,
    timeout: u64,
    w: &mut ReadWait,
    obs: Option<Observation>,
) -> (r: (Vec<ReadAction>, ReadStep))
    requires
        plan.wf(),
        obs matches Some(o) ==> o.wf(*plan),
        plan.start_piece <= old(w).current_piece <= plan.end_piece + 1,
    ensures
        (Transition { wait: *final(w), actions: r.0@, step: r.1@ }) == (match obs {
            Some(o) => polled(*plan, info_hash@, timeout, *old(w), o),
            None => Transition {
                wait: *old(w),
                actions: Seq::empty(),
                step: StepView::Fail(missing_handle()),
            },
        }),
{
    let o: Observation = match obs {
        Some(o) => o,
        None => {
            return (Vec::new(), ReadStep::Fail(missing()));
        },
    };
    match w.phase {
        ReadPhase::WaitState => poll_wait_state(plan, timeout, w, &o),
        ReadPhase::Recheck => poll_recheck(plan, timeout, w, &o),
        ReadPhase::PeerWait => poll_peer_wait(plan, w, o),
        ReadPhase::PieceWait => poll_piece_wait(plan, info_hash, timeout, w, o),
    }
}

// ── Laws ────────────────────────────────────────────────────────────────────

/// Order of the phases.
pub open spec fn rank(phase: ReadPhase) -> int {
    match phase {
        ReadPhase::WaitState => 0,
        ReadPhase::Recheck => 1,
        ReadPhase::PeerWait => 2,
        ReadPhase::PieceWait => 3,
    }
}

/// A shutdown ends every parked read at its next look, with a timeout.
pub proof fn law_shutdown_aborts(
    plan: ReadPlan,
    info_hash: Seq<char>,
    timeout: u64,
    w: ReadWait,
    obs: Observation,
)
    requires
        obs.stopping,
    ensures
        polled(plan, info_hash, timeout, w, obs).step == StepView::Fail(aborted()),
        polled(plan, info_hash, timeout, w, obs).wait == w,
        polled(plan, info_hash, timeout, w, obs).actions.len() == 0,
{
}

/// A read that stays parked never goes back to an earlier phase.
pub proof fn law_phases_advance(
    plan: ReadPlan,
    info_hash: Seq<char>,
    timeout: u64,
    w: ReadWait,
    obs: Observation,
    began: bool,
)
    ensures
        polled(plan, info_hash, timeout, w, obs).step is Wait ==> rank(
            polled(plan, info_hash, timeout, w, obs).wait.phase,
        ) >= rank(w.phase),
        polled(plan, info_hash, timeout, w, obs).step is AskRecheck ==> {
            let t = recheck_asked(
                plan,
                timeout,
                polled(plan, info_hash, timeout, w, obs).wait,
                obs,
                began,
            );
            &&& w.phase == ReadPhase::WaitState
            &&& t.step is Wait ==> rank(t.wait.phase) > rank(w.phase)
            &&& !(t.step is AskRecheck)
        },
{
}

proof fn lemma_first_missing(plan: ReadPlan, pieces: Seq<PieceFacts>, p: int)
    requires
        plan.start_piece <= p <= plan.end_piece + 1,
    ensures
        p <= first_missing(plan, pieces, p) <= plan.end_piece + 1,
        first_missing(plan, pieces, p) <= plan.end_piece ==> !pieces[first_missing(plan, pieces, p)
            - plan.start_piece].local(),
        forall|q: int|
            p <= q < first_missing(plan, pieces, p) ==> (#[trigger] pieces[q
                - plan.start_piece]).local(),
    decreases plan.end_piece + 1 - p,
{
    if p <= plan.end_piece && pieces[p - plan.start_piece].local() {
        lemma_first_missing(plan, pieces, p + 1);
    }
}

/// The pieces before the current one only grow, each of them was there when it
/// was passed, and the current piece stays within the read.
pub proof fn law_progress_is_kept(
    plan: ReadPlan,
    info_hash: Seq<char>,
    timeout: u64,
    w: ReadWait,
    obs: Observation,
    q: int,
)
    requires
        plan.wf(),
        obs.wf(plan),
        plan.start_piece <= w.current_piece <= plan.end_piece + 1,
    ensures
        ({
            let t = polled(plan, info_hash, timeout, w, obs).wait;
            &&& w.current_piece <= t.current_piece <= plan.end_piece + 1
            &&& w.current_piece <= q < t.current_piece ==> obs.pieces@[q
                - plan.start_piece].local()
        }),
{
    lemma_first_missing(plan, obs.pieces@, w.current_piece as int);
}

/// A read is only ever served up to the end of its own range, never empty, and
/// when it is cut short every byte lies in a piece that had come.
pub proof fn law_served_range(
    plan: ReadPlan,
    info_hash: Seq<char>,
    timeout: u64,
    w: ReadWait,
    obs: Observation,
)
    requires
        plan.wf(),
        obs.wf(plan),
        plan.start_piece <= w.current_piece <= plan.end_piece + 1,
    ensures
        polled(plan, info_hash, timeout, w, obs).step matches StepView::Serve {
            end_piece,
            end_offset,
            size,
        } ==> {
            &&& plan.start_piece <= end_piece <= plan.end_piece
            &&& plan.absolute_offset < end_offset <= plan.end_offset
            &&& size == end_offset - plan.absolute_offset
            &&& end_offset == plan.end_offset || end_offset <= (end_piece + 1)
                * plan.piece_length
        },
{
    lemma_first_missing(plan, obs.pieces@, w.current_piece as int);
    let p = first_missing(plan, obs.pieces@, w.current_piece as int);
    if p <= plan.end_piece {
        read_plan::law_partial_read_is_prefix(plan, (p - 1) as i32);
    }
}

/// A read that found nobody in its whole search does not wait for pieces again:
/// unless a seeder has come, the next look ends it.
pub proof fn law_sourceless_read_ends(
    plan: ReadPlan,
    info_hash: Seq<char>,
    timeout: u64,
    w: ReadWait,
    obs: Observation,
)
    requires
        w.phase == ReadPhase::PieceWait,
        w.is_peer_wait_exhausted,
        !w.has_seeder,
        obs.status.swarm() matches Some(s) ==> s.num_seeds <= 0,
    ensures
        !(polled(plan, info_hash, timeout, w, obs).step is Wait),
{
}

/// Only a swarm without a seeder is blamed for missing seeders, and a swarm with
/// one never is.
pub proof fn law_blame(
    plan: ReadPlan,
    info_hash: Seq<char>,
    timeout: u64,
    w: ReadWait,
    obs: Observation,
)
    requires
        w.phase == ReadPhase::PieceWait,
        !obs.stopping,
        polled(plan, info_hash, timeout, w, obs).step is Fail,
    ensures
        (polled(plan, info_hash, timeout, w, obs).step->Fail_0.kind == ErrorKind::NoPeers) <==> (
        obs.status.swarm() matches Some(s) && s.num_seeds == 0),
        (polled(plan, info_hash, timeout, w, obs).step->Fail_0.kind == ErrorKind::Timeout) <==> !(
        obs.status.swarm() matches Some(s) && s.num_seeds == 0),
{
}

/// Looking at pieces tells the operator nothing.
proof fn lemma_looks_tell_nothing(plan: ReadPlan, pieces: Seq<PieceFacts>, p: int)
    ensures
        forall|i: int|
            0 <= i < looks(plan, pieces, p).len() ==> !((#[trigger] looks(plan, pieces, p)[i]) is StallHint),
    decreases plan.end_piece + 1 - p,
{
    if p <= plan.end_piece && pieces[p - plan.start_piece].local() {
        lemma_looks_tell_nothing(plan, pieces, p + 1);
    }
}

/// A read that fails in its wait for pieces blames the cache exactly when the
/// cache cannot serve it: the piece it waits on was there and is gone, or it asks
/// for more than the cache holds. A read that stays parked or is served blames
/// nobody.
pub proof fn law_cache_blame(
    plan: ReadPlan,
    info_hash: Seq<char>,
    timeout: u64,
    w: ReadWait,
    obs: Observation,
)
    requires
        w.phase == ReadPhase::PieceWait,
        !obs.stopping,
    ensures
        ({
            let t = polled(plan, info_hash, timeout, w, obs);
            let waited_on = obs.pieces@[first_missing(plan, obs.pieces@, w.current_piece as int)
                - plan.start_piece];
            (exists|i: int| 0 <= i < t.actions.len() && (#[trigger] t.actions[i]) is StallHint)
                <==> t.step is Fail && (waited_on.lost() || plan.size > obs.cache_size)
        }),
{
    let t = polled(plan, info_hash, timeout, w, obs);
    let seen = looks(plan, obs.pieces@, w.current_piece as int);
    let p = first_missing(plan, obs.pieces@, w.current_piece as int);
    let waited_on = obs.pieces@[p - plan.start_piece];
    lemma_looks_tell_nothing(plan, obs.pieces@, w.current_piece as int);
    if t.step is Fail && stall_cause(plan, waited_on, obs.cache_size) is Some {
        assert(t.actions[seen.len() as int + 1] is StallHint);
    }
}

/// The read is within the time of its phase at moment `t`.
pub open spec fn within_phase(w: ReadWait, timeout: u64, t: int) -> bool {
    match w.phase {
        ReadPhase::WaitState => t <= w.phase_start + (timeout + 1) * NANOS,
        ReadPhase::Recheck => t <= w.phase_deadline,
        ReadPhase::PeerWait => t <= w.phase_deadline,
        ReadPhase::PieceWait => t <= w.piece_wait_start + piece_window(
            w.has_seeder,
            w.is_peer_wait_exhausted,
            timeout,
        ) * NANOS,
    }
}

/// When a read is over at the latest, if it is looked at no more than `gap`
/// nanoseconds apart.
pub open spec fn horizon(w: ReadWait, timeout: u64, gap: int) -> int {
    let t = timeout as int;
    let recheck = least(t, RECHECK_WAIT_CAP_SECS as int);
    let peers = least(t, PEER_WAIT_CAP_SECS as int);
    let nobody = least(t, NO_SEEDER_READ_TIMEOUT_SECS as int);
    match w.phase {
        ReadPhase::WaitState => w.phase_start + (t + 1 + recheck + peers + nobody + t) * NANOS + 4
            * gap,
        ReadPhase::Recheck => w.phase_deadline + (peers + nobody + t) * NANOS + 3 * gap,
        ReadPhase::PeerWait => w.phase_deadline + (nobody + t) * NANOS + 2 * gap,
        ReadPhase::PieceWait => if w.has_seeder {
            w.piece_wait_start + t * NANOS
        } else {
            w.piece_wait_start + (nobody + t) * NANOS + gap
        },
    }
}

/// A read that is looked at no more than `gap` nanoseconds apart is over by its
/// horizon: a look that leaves it parked comes before the horizon, keeps it
/// within the time of its phase and never moves the horizon out.
pub proof fn law_wait_is_bounded(
    plan: ReadPlan,
    info_hash: Seq<char>,
    timeout: u64,
    w: ReadWait,
    obs: Observation,
    last: int,
    gap: int,
)
    requires
        obs.wf(plan),
        last <= obs.now <= last + gap,
        within_phase(w, timeout, last),
        polled(plan, info_hash, timeout, w, obs).step is Wait,
    ensures
        ({
            let t = polled(plan, info_hash, timeout, w, obs).wait;
            &&& within_phase(t, timeout, obs.now as int)
            &&& horizon(t, timeout, gap) <= horizon(w, timeout, gap)
            &&& obs.now <= horizon(w, timeout, gap)
        }),
{
    let now = obs.now as int;
    if w.phase == ReadPhase::WaitState {
        let spent = since(w.phase_start, obs.now);
        vstd::arithmetic::div_mod::lemma_fundamental_div_mod(spent, NANOS as int);
    }
    let next = polled(plan, info_hash, timeout, w, obs).wait;
    if w.phase == ReadPhase::PieceWait {
        let window = piece_window(next.has_seeder, next.is_peer_wait_exhausted, timeout);
        assert(window * NANOS <= timeout * NANOS);
    }
}

/// The same when a look asks for a recheck: what follows ends by the horizon.
pub proof fn law_recheck_is_bounded(
    plan: ReadPlan,
    info_hash: Seq<char>,
    timeout: u64,
    w: ReadWait,
    obs: Observation,
    last: int,
    gap: int,
    began: bool,
)
    requires
        obs.wf(plan),
        last <= obs.now <= last + gap,
        within_phase(w, timeout, last),
        polled(plan, info_hash, timeout, w, obs).step is AskRecheck,
    ensures
        ({
            let asked = polled(plan, info_hash, timeout, w, obs).wait;
            let t = recheck_asked(plan, timeout, asked, obs, began);
            t.step is Wait ==> {
                &&& within_phase(t.wait, timeout, obs.now as int)
                &&& horizon(t.wait, timeout, gap) <= horizon(w, timeout, gap)
            }
        }),
{
}

/// A read that starts to wait is over within the read budget, one second for
/// the rounding of the first phase and four gaps between looks.
pub proof fn law_budget_covers_every_wait(
    plan: ReadPlan,
    timeout: u64,
    status: SwarmStatus,
    obs: Observation,
    gap: int,
    began: bool,
)
    requires
        obs.wf(plan),
        gap >= 0,
    ensures
        ({
            let first = started(plan, timeout, status, obs);
            let t = if first.step is AskRecheck {
                recheck_asked(plan, timeout, first.wait, obs, began)
            } else {
                first
            };
            t.step is Wait ==> {
                &&& within_phase(t.wait, timeout, obs.now as int)
                &&& horizon(t.wait, timeout, gap) <= obs.now + (wait_budget(timeout) + 1) * NANOS
                    + 4 * gap
            }
        }),
{
}

} // verus!
