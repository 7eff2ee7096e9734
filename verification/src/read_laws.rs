//! What a read is for, said of its inputs and results: which bytes it plans, when
//! it is served, how long it waits and what it does meanwhile.
use vstd::prelude::*;

use crate::decimal;
use crate::error::{ErrorKind, TorrentError};
use crate::read_plan;
use crate::read_plan::{PlanView, ReadPlan};
use crate::read_wait;
use crate::read_wait::{
    Observation, PieceFacts, ReadAction, ReadPhase, ReadStep, ReadWait, StallCause, StatusAnswer, StepView,
    SwarmStatus, TorrentState, Transition,
};
use crate::text;

verus! {

// ── The plan ────────────────────────────────────────────────────────────────

/// A read that is planned answers with every byte that was asked for and that the
/// file holds, from the first to the last, and its pieces are those of its first
/// and its last byte.
pub proof fn law_plan_covers_the_request(
    piece_length: u64,
    num_pieces: i32,
    total_size: u64,
    file_start: u64,
    file_size: u64,
    offset: u64,
    size: u32,
)
    requires
        piece_length > 0,
        size > 0,
        offset < file_size,
        file_start + file_size <= num_pieces * piece_length,
        file_start + file_size <= u64::MAX,
    ensures
        ({
            let planned = read_plan::plan_of(
                piece_length,
                num_pieces,
                total_size,
                file_start,
                file_size,
                offset,
                size,
            );
            match planned {
                PlanView::Read(plan) => {
                    &&& plan.piece_length == piece_length
                    &&& plan.num_pieces == num_pieces
                    &&& plan.total_size == total_size
                    &&& plan.absolute_offset == file_start + offset
                    &&& size <= file_size - offset ==> plan.size == size
                    &&& size > file_size - offset ==> plan.size == file_size - offset
                    &&& plan.end_offset == plan.absolute_offset + plan.size
                    &&& plan.start_piece * piece_length <= plan.absolute_offset
                    &&& plan.absolute_offset < (plan.start_piece + 1) * piece_length
                    &&& plan.end_piece * piece_length < plan.end_offset
                    &&& plan.end_offset <= (plan.end_piece + 1) * piece_length
                    &&& 0 <= plan.start_piece <= plan.end_piece < num_pieces
                },
                _ => false,
            }
        }),
{
    let len = piece_length as int;
    let start = file_start + offset;
    let n: int = if size <= file_size - offset {
        size as int
    } else {
        file_size - offset
    };
    let end = start + n - 1;
    vstd::arithmetic::div_mod::lemma_fundamental_div_mod(start, len);
    vstd::arithmetic::div_mod::lemma_fundamental_div_mod(end, len);
    vstd::arithmetic::div_mod::lemma_div_pos_is_pos(start, len);
    vstd::arithmetic::div_mod::lemma_div_is_ordered(start, end, len);
    let first = start / len;
    let last = end / len;
    assert(first * len <= start < (first + 1) * len) by (nonlinear_arith)
        requires
            start == len * first + start % len,
            0 <= start % len < len,
            first == start / len,
    ;
    assert(last * len <= end < (last + 1) * len) by (nonlinear_arith)
        requires
            end == len * last + end % len,
            0 <= end % len < len,
            last == end / len,
    ;
    assert(num_pieces > 0) by (nonlinear_arith)
        requires
            0 <= end < num_pieces * len,
            len > 0,
    ;
    assert(last < num_pieces) by (nonlinear_arith)
        requires
            last * len <= end,
            end < num_pieces * len,
            len > 0,
    ;
}

/// A read that starts past the torrent's last piece is refused, as is any read of a
/// torrent without pieces; nothing else is.
pub proof fn law_plan_refuses(
    piece_length: u64,
    num_pieces: i32,
    total_size: u64,
    file_start: u64,
    file_size: u64,
    offset: u64,
    size: u32,
)
    ensures
        ({
            let planned = read_plan::plan_of(
                piece_length,
                num_pieces,
                total_size,
                file_start,
                file_size,
                offset,
                size,
            );
            &&& planned is Refused <==> num_pieces <= 0 || piece_length == 0 || (size > 0 && offset
                < file_size && file_start + offset >= num_pieces * piece_length)
            &&& planned matches PlanView::Refused(e) ==> e.kind == ErrorKind::InvalidFile
        }),
{
    if num_pieces > 0 && piece_length > 0 {
        let len = piece_length as int;
        let start = file_start + offset;
        let first = start / len;
        vstd::arithmetic::div_mod::lemma_fundamental_div_mod(start, len);
        assert(first >= num_pieces <==> start >= num_pieces * len) by (nonlinear_arith)
            requires
                start == len * first + start % len,
                0 <= start % len < len,
                len > 0,
        ;
    }
}

/// The pieces of a torrent lie end to end and hold all of its bytes: each is full
/// but the last, which ends with the torrent.
pub proof fn law_pieces_cover_the_torrent(p: int, piece_length: u64, total_size: u64)
    requires
        0 <= p,
    ensures
        ({
            let n = read_plan::piece_size(p, piece_length, total_size);
            &&& (p + 1) * piece_length <= total_size ==> n == piece_length
            &&& p * piece_length <= total_size < (p + 1) * piece_length ==> p * piece_length + n
                == total_size
            &&& total_size < p * piece_length ==> n == 0
        }),
{
    assert((p + 1) * piece_length == p * piece_length + piece_length) by (nonlinear_arith);
}

/// A read that is cut short ends with the last piece that came, or where it would
/// have ended anyway.
pub proof fn law_partial_read_is_as_long_as_it_can_be(plan: ReadPlan, last_complete: i32)
    requires
        plan.wf(),
        plan.start_piece <= last_complete < plan.num_pieces,
    ensures
        match read_plan::partial_bounds(
            plan.start_piece,
            last_complete,
            plan.piece_length,
            plan.absolute_offset,
            plan.end_offset,
        ) {
            Some((end, size)) => {
                &&& end == plan.end_offset || end == (last_complete + 1) * plan.piece_length
                &&& end <= plan.end_offset
                &&& end <= (last_complete + 1) * plan.piece_length
                &&& size == end - plan.absolute_offset
            },
            None => false,
        },
{
    read_plan::law_partial_read_is_prefix(plan, last_complete);
    read_plan::lemma_piece_start_fits(
        last_complete as int,
        plan.num_pieces as int,
        plan.piece_length as int,
    );
    assert((last_complete + 1) * plan.piece_length == last_complete * plan.piece_length
        + plan.piece_length) by (nonlinear_arith);
}

// ── The start of a read ─────────────────────────────────────────────────────

/// A read whose bytes are all here is served at once and whole, whoever is
/// connected and whether the swarm library or only the cache has the pieces: nobody
/// is asked for anything and no reader is added.
pub proof fn law_read_of_local_pieces_is_served_at_once(
    plan: ReadPlan,
    timeout: u64,
    status: SwarmStatus,
    obs: Observation,
)
    requires
        status.state == TorrentState::DownloadingMetadata || status.state
            == TorrentState::Downloading || status.state == TorrentState::Finished || status.state
            == TorrentState::Seeding || status.state == TorrentState::Unknown,
        forall|k: int|
            0 <= k < obs.pieces@.len() ==> (#[trigger] obs.pieces@[k]).complete || (
            obs.pieces@[k].have && !obs.pieces@[k].stale),
        forall|k: int|
            0 <= k < obs.pieces@.len() ==> !((#[trigger] obs.pieces@[k]).have
                && obs.pieces@[k].stale),
    ensures
        ({
            let t = read_wait::started(plan, timeout, status, obs);
            &&& t.step == (StepView::Serve {
                end_piece: plan.end_piece,
                end_offset: plan.end_offset,
                size: plan.size,
            })
            &&& t.actions.len() == 0
        }),
{
}

/// Whether an action asks for a piece of the read that the swarm library does not
/// have whole.
pub open spec fn asks_for_a_missing_piece(
    plan: ReadPlan,
    pieces: Seq<PieceFacts>,
    n: int,
    a: ReadAction,
) -> bool {
    exists|k: int|
        0 <= k < n && !((#[trigger] pieces[k]).have && !pieces[k].stale) && a == (
        ReadAction::SetDeadline { piece: (plan.start_piece + k) as i32 })
}

/// Deadlines are set for exactly the pieces that the swarm library does not have
/// whole, and nothing else is done.
proof fn lemma_deadlines(plan: ReadPlan, pieces: Seq<PieceFacts>, n: nat)
    requires
        n <= pieces.len(),
        0 <= plan.start_piece,
        plan.start_piece + pieces.len() <= i32::MAX,
    ensures
        forall|k: int|
            0 <= k < n && !((#[trigger] pieces[k]).have && !pieces[k].stale)
                ==> read_wait::deadlines(plan, pieces, n).contains(
                ReadAction::SetDeadline { piece: (plan.start_piece + k) as i32 },
            ),
        forall|i: int|
            0 <= i < read_wait::deadlines(plan, pieces, n).len() ==> asks_for_a_missing_piece(
                plan,
                pieces,
                n as int,
                #[trigger] read_wait::deadlines(plan, pieces, n)[i],
            ),
    decreases n,
{
    if n > 0 {
        let k = n - 1;
        lemma_deadlines(plan, pieces, k as nat);
        let before = read_wait::deadlines(plan, pieces, k as nat);
        let all = read_wait::deadlines(plan, pieces, n);
        assert forall|j: int|
            0 <= j < n && !((#[trigger] pieces[j]).have && !pieces[j].stale) implies all.contains(
            ReadAction::SetDeadline { piece: (plan.start_piece + j) as i32 },
        ) by {
            let a = ReadAction::SetDeadline { piece: (plan.start_piece + j) as i32 };
            if j < k {
                assert(before.contains(a));
                let i = choose|i: int| 0 <= i < before.len() && before[i] == a;
                assert(all[i] == a);
            } else {
                assert(all[all.len() - 1] == a);
            }
        }
        assert forall|i: int| 0 <= i < all.len() implies asks_for_a_missing_piece(
            plan,
            pieces,
            n as int,
            #[trigger] all[i],
        ) by {
            if i < before.len() {
                assert(all[i] == before[i]);
                let j = choose|j: int|
                    0 <= j < k && !((#[trigger] pieces[j]).have && !pieces[j].stale) && before[i]
                        == (ReadAction::SetDeadline { piece: (plan.start_piece + j) as i32 });
                assert(!(pieces[j].have && !pieces[j].stale));
            } else {
                assert(!(pieces[k].have && !pieces[k].stale));
            }
        }
    }
}

/// What is asked of the swarm when a read begins to wait for its pieces: each piece
/// that the swarm library does not have whole, and no other.
pub open spec fn asks_for_what_is_missing(
    plan: ReadPlan,
    pieces: Seq<PieceFacts>,
    actions: Seq<ReadAction>,
) -> bool {
    &&& forall|k: int|
        0 <= k < pieces.len() && !((#[trigger] pieces[k]).have && !pieces[k].stale)
            ==> actions.contains(
            ReadAction::SetDeadline { piece: (plan.start_piece + k) as i32 },
        )
    &&& forall|i: int|
        0 <= i < actions.len() && (#[trigger] actions[i]) is SetDeadline
            ==> asks_for_a_missing_piece(plan, pieces, pieces.len() as int, actions[i])
}

proof fn lemma_asks(plan: ReadPlan, pieces: Seq<PieceFacts>, head: Seq<ReadAction>)
    requires
        0 <= plan.start_piece,
        plan.start_piece + pieces.len() <= i32::MAX,
        forall|i: int| 0 <= i < head.len() ==> !((#[trigger] head[i]) is SetDeadline),
    ensures
        asks_for_what_is_missing(
            plan,
            pieces,
            head + read_wait::deadlines(plan, pieces, pieces.len()),
        ),
{
    let tail = read_wait::deadlines(plan, pieces, pieces.len());
    let all = head + tail;
    lemma_deadlines(plan, pieces, pieces.len());
    assert forall|k: int|
        0 <= k < pieces.len() && !((#[trigger] pieces[k]).have
            && !pieces[k].stale) implies all.contains(
        ReadAction::SetDeadline { piece: (plan.start_piece + k) as i32 },
    ) by {
        let a = ReadAction::SetDeadline { piece: (plan.start_piece + k) as i32 };
        assert(tail.contains(a));
        let i = choose|i: int| 0 <= i < tail.len() && tail[i] == a;
        assert(all[head.len() + i] == a);
    }
    assert forall|i: int|
        0 <= i < all.len() && (#[trigger] all[i]) is SetDeadline implies asks_for_a_missing_piece(
        plan,
        pieces,
        pieces.len() as int,
        all[i],
    ) by {
        if i >= head.len() {
            assert(all[i] == tail[i - head.len()]);
        } else {
            assert(all[i] == head[i]);
        }
    }
}

/// A read of an undamaged torrent that lacks a piece joins the readers, lets the
/// torrent download and waits: for somebody to connect, announcing at once, while
/// nobody at all is there, and otherwise for its pieces, of which it asks for those
/// that the swarm library does not have.
pub proof fn law_read_of_missing_pieces_joins_and_waits(
    plan: ReadPlan,
    timeout: u64,
    status: SwarmStatus,
    obs: Observation,
    missing: int,
)
    requires
        plan.wf(),
        obs.wf(plan),
        status.state == TorrentState::DownloadingMetadata || status.state
            == TorrentState::Downloading || status.state == TorrentState::Finished || status.state
            == TorrentState::Seeding || status.state == TorrentState::Unknown,
        forall|k: int|
            0 <= k < obs.pieces@.len() ==> !((#[trigger] obs.pieces@[k]).have
                && obs.pieces@[k].stale),
        0 <= missing < obs.pieces@.len(),
        !obs.pieces@[missing].complete,
        !obs.pieces@[missing].have,
    ensures
        ({
            let t = read_wait::started(plan, timeout, status, obs);
            let secs: int = if timeout < 9 {
                timeout as int
            } else {
                9
            };
            &&& t.step is Wait
            &&& t.actions.contains(ReadAction::AddReader)
            &&& t.actions.contains(ReadAction::EnterDownloadMode)
            &&& t.wait.status == status
            &&& t.wait.current_piece == plan.start_piece
            &&& !t.wait.had_truncated_piece
            &&& !t.wait.is_peer_wait_exhausted
            &&& status.num_peers == 0 && status.num_seeds == 0 ==> {
                &&& t.wait.phase == ReadPhase::PeerWait
                &&& t.wait.phase_start == obs.now
                &&& t.wait.phase_deadline == obs.now + secs * 1_000_000_000
                &&& !t.wait.reannounced_mid_wait
                &&& t.actions.contains(ReadAction::Reannounce)
                &&& forall|i: int| 0 <= i < t.actions.len() ==> !((#[trigger] t.actions[i])
                    is SetDeadline)
            }
            &&& status.num_peers != 0 || status.num_seeds != 0 ==> {
                &&& t.wait.phase == ReadPhase::PieceWait
                &&& t.wait.piece_wait_start == obs.now
                &&& t.wait.has_seeder == (status.num_seeds > 0)
                &&& asks_for_what_is_missing(plan, obs.pieces@, t.actions)
            }
        }),
{
    let t = read_wait::started(plan, timeout, status, obs);
    let pieces = obs.pieces@;
    assert(!pieces[missing].local());
    assert(!read_wait::all_local(pieces));
    assert(t.actions[0] == ReadAction::AddReader);
    assert(t.actions[2] == ReadAction::EnterDownloadMode);
    if status.num_peers == 0 && status.num_seeds == 0 {
        assert(t.actions[4] == ReadAction::Reannounce);
    } else {
        let head = seq![
            ReadAction::AddReader,
            ReadAction::PublishSnapshot,
            ReadAction::EnterDownloadMode,
            ReadAction::PublishSnapshot,
        ];
        lemma_asks(plan, pieces, head);
    }
}

/// A read of a torrent that still checks or allocates its files waits for that and
/// does nothing.
pub proof fn law_unsettled_torrent_is_waited_for(
    plan: ReadPlan,
    timeout: u64,
    status: SwarmStatus,
    obs: Observation,
)
    requires
        status.state == TorrentState::QueuedForChecking || status.state
            == TorrentState::CheckingFiles || status.state == TorrentState::Allocating
            || status.state == TorrentState::CheckingResumeData,
    ensures
        ({
            let t = read_wait::started(plan, timeout, status, obs);
            &&& t.step is Wait
            &&& t.actions.len() == 0
            &&& t.wait.phase == ReadPhase::WaitState
            &&& t.wait.phase_start == obs.now
            &&& t.wait.current_piece == plan.start_piece
            &&& t.wait.status == status
        }),
{
}

/// A read whose torrent claims a piece that is damaged on disk asks for a recheck
/// first and remembers why. Once the recheck has begun it waits for that, no longer
/// than the timeout and ten seconds; if it did not begin, the read goes on as one of
/// a torrent without damage would.
pub proof fn law_damaged_piece_is_rechecked(
    plan: ReadPlan,
    timeout: u64,
    status: SwarmStatus,
    obs: Observation,
    damaged: int,
)
    requires
        obs.wf(plan),
        status.state == TorrentState::DownloadingMetadata || status.state
            == TorrentState::Downloading || status.state == TorrentState::Finished || status.state
            == TorrentState::Seeding || status.state == TorrentState::Unknown,
        0 <= damaged < obs.pieces@.len(),
        obs.pieces@[damaged].have,
        obs.pieces@[damaged].stale,
    ensures
        ({
            let t = read_wait::started(plan, timeout, status, obs);
            let began = read_wait::recheck_asked(plan, timeout, t.wait, obs, true);
            let secs: int = if timeout < 10 {
                timeout as int
            } else {
                10
            };
            &&& t.step is AskRecheck
            &&& t.actions.len() == 0
            &&& t.wait.had_truncated_piece
            &&& t.wait.current_piece == plan.start_piece
            &&& began.step is Wait
            &&& began.actions.len() == 0
            &&& began.wait.phase == ReadPhase::Recheck
            &&& began.wait.phase_start == obs.now
            &&& began.wait.phase_deadline == obs.now + secs * 1_000_000_000
            &&& !began.wait.saw_checking
            &&& began.wait.had_truncated_piece
        }),
{
    assert(read_wait::any_stale(obs.pieces@));
}

/// A read that no longer waits for its torrent's files is served if every piece can
/// be read, and otherwise joins the readers: this is what follows a recheck that did
/// not begin.
pub proof fn law_recheck_that_does_not_begin_is_no_hindrance(
    plan: ReadPlan,
    timeout: u64,
    w: ReadWait,
    obs: Observation,
)
    ensures
        ({
            let t = read_wait::recheck_asked(plan, timeout, w, obs, false);
            goes_on(plan, obs.pieces@, t)
        }),
{
    lemma_goes_on(plan, timeout, w, obs);
}

/// Whether a read is served whole where every piece can be read, with nothing done
/// on the way, and joins the readers to wait where one cannot.
pub open spec fn goes_on(plan: ReadPlan, pieces: Seq<PieceFacts>, t: Transition) -> bool {
    let here = forall|k: int|
        0 <= k < pieces.len() ==> (#[trigger] pieces[k]).complete || (pieces[k].have
            && !pieces[k].stale);
    &&& here ==> t.actions.len() == 0 && t.step == (StepView::Serve {
        end_piece: plan.end_piece,
        end_offset: plan.end_offset,
        size: plan.size,
    })
    &&& !here ==> t.step is Wait && t.actions.contains(ReadAction::AddReader)
        && t.actions.contains(ReadAction::EnterDownloadMode)
}

proof fn lemma_goes_on(plan: ReadPlan, timeout: u64, w: ReadWait, obs: Observation)
    ensures
        goes_on(plan, obs.pieces@, read_wait::waiting_begun(plan, timeout, w, obs)),
{
    let t = read_wait::waiting_begun(plan, timeout, w, obs);
    let pieces = obs.pieces@;
    let here = forall|k: int|
        0 <= k < pieces.len() ==> (#[trigger] pieces[k]).complete || (pieces[k].have
            && !pieces[k].stale);
    assert(here <==> read_wait::all_local(pieces)) by {
        if here {
            assert forall|k: int| 0 <= k < pieces.len() implies (#[trigger] pieces[k]).local() by {}
        }
        if read_wait::all_local(pieces) {
            assert forall|k: int| 0 <= k < pieces.len() implies (#[trigger] pieces[k]).complete || (
            pieces[k].have && !pieces[k].stale) by {
                assert(pieces[k].local());
            }
        }
    }
    if !here {
        assert(t.actions[0] == ReadAction::AddReader);
        assert(t.actions[2] == ReadAction::EnterDownloadMode);
    }
}

// ── While a read waits for its torrent's files ──────────────────────────────

/// A parked read goes on the moment its torrent has settled, exactly as it would
/// have started on a settled torrent, and until then it waits.
pub proof fn law_settled_torrent_lets_the_read_start(
    plan: ReadPlan,
    info_hash: Seq<char>,
    timeout: u64,
    w: ReadWait,
    obs: Observation,
)
    requires
        w.phase == ReadPhase::WaitState,
        !obs.stopping,
        w.phase_start <= obs.now,
        obs.now - w.phase_start < (timeout + 1) * 1_000_000_000,
    ensures
        ({
            let t = read_wait::polled(plan, info_hash, timeout, w, obs);
            match obs.status {
                StatusAnswer::Failed(_) => t.step is Wait && t.actions.len() == 0 && t.wait == w,
                StatusAnswer::Known { swarm, .. } => {
                    let fresh = read_wait::started(plan, timeout, swarm, obs);
                    if swarm.state == TorrentState::QueuedForChecking || swarm.state
                        == TorrentState::CheckingFiles || swarm.state == TorrentState::Allocating
                        || swarm.state == TorrentState::CheckingResumeData {
                        &&& t.step is Wait
                        &&& t.actions.len() == 0
                        &&& t.wait.phase == ReadPhase::WaitState
                        &&& t.wait.phase_start == w.phase_start
                        &&& t.wait.status == swarm
                    } else {
                        &&& t.step == fresh.step
                        &&& t.actions == fresh.actions
                        &&& t.wait.status == swarm
                    }
                },
            }
        }),
{
    let spent = obs.now - w.phase_start;
    vstd::arithmetic::div_mod::lemma_fundamental_div_mod(spent, 1_000_000_000);
    match obs.status {
        StatusAnswer::Known { swarm, .. } => {
            let fresh = read_wait::started(plan, timeout, swarm, obs);
            let t = read_wait::polled(plan, info_hash, timeout, w, obs);
            assert(t.actions =~= fresh.actions || t.step is Wait);
        },
        StatusAnswer::Failed(_) => {},
    }
}

/// A torrent that has not settled one second after the timeout fails the read, as
/// timed out and with the state that it is stuck in.
pub proof fn law_torrent_that_never_settles_fails_the_read(
    plan: ReadPlan,
    info_hash: Seq<char>,
    timeout: u64,
    w: ReadWait,
    obs: Observation,
)
    requires
        w.phase == ReadPhase::WaitState,
        !obs.stopping,
        w.phase_start <= obs.now,
        obs.now - w.phase_start >= (timeout + 1) * 1_000_000_000,
    ensures
        ({
            let t = read_wait::polled(plan, info_hash, timeout, w, obs);
            &&& t.step matches StepView::Fail(e) && e.kind == ErrorKind::Timeout
            &&& t.actions.len() == 0
        }),
{
    let spent = obs.now - w.phase_start;
    vstd::arithmetic::div_mod::lemma_fundamental_div_mod(spent, 1_000_000_000);
}

/// A read that waits for a recheck goes on when the recheck was seen at work and is
/// over, when it has not begun within two seconds, when nothing can be learned of the
/// torrent, and when its time is up; otherwise it waits.
pub proof fn law_recheck_ends(
    plan: ReadPlan,
    info_hash: Seq<char>,
    timeout: u64,
    w: ReadWait,
    obs: Observation,
)
    requires
        w.phase == ReadPhase::Recheck,
        !obs.stopping,
        w.phase_start <= obs.now,
    ensures
        ({
            let t = read_wait::polled(plan, info_hash, timeout, w, obs);
            let over = obs.now >= w.phase_deadline || (match obs.status {
                StatusAnswer::Failed(_) => true,
                StatusAnswer::Known { swarm, .. } => !(swarm.state
                    == TorrentState::QueuedForChecking || swarm.state
                    == TorrentState::CheckingFiles || swarm.state == TorrentState::Allocating
                    || swarm.state == TorrentState::CheckingResumeData) && (w.saw_checking
                    || obs.now - w.phase_start > 2_000_000_000),
            });
            &&& over ==> goes_on(plan, obs.pieces@, t)
            &&& !over ==> {
                &&& t.step is Wait
                &&& t.actions.len() == 0
                &&& t.wait.phase == ReadPhase::Recheck
                &&& t.wait.phase_start == w.phase_start
                &&& t.wait.phase_deadline == w.phase_deadline
                &&& t.wait.saw_checking == (w.saw_checking || (match obs.status {
                    StatusAnswer::Known { swarm, .. } => swarm.state
                        == TorrentState::QueuedForChecking || swarm.state
                        == TorrentState::CheckingFiles || swarm.state == TorrentState::Allocating
                        || swarm.state == TorrentState::CheckingResumeData,
                    StatusAnswer::Failed(_) => false,
                }))
            }
        }),
{
    lemma_goes_on(plan, timeout, w, obs);
}

// ── While a read waits for somebody to connect ──────────────────────────────

/// A read that searches for peers keeps searching while nobody is connected and its
/// time is not up, announcing once more when half of it has passed. It begins to
/// wait for its pieces as soon as somebody is connected, and at the end in any case;
/// only a search that ended on an empty swarm counts as exhausted.
pub proof fn law_search_for_peers(
    plan: ReadPlan,
    info_hash: Seq<char>,
    timeout: u64,
    w: ReadWait,
    obs: Observation,
)
    requires
        plan.wf(),
        obs.wf(plan),
        w.phase == ReadPhase::PeerWait,
        !obs.stopping,
        w.phase_start <= obs.now,
        w.phase_start <= w.phase_deadline,
    ensures
        ({
            let t = read_wait::polled(plan, info_hash, timeout, w, obs);
            match obs.status {
                StatusAnswer::Failed(e) => t.step == StepView::Fail(e@),
                StatusAnswer::Known { swarm, .. } => {
                    let nobody = swarm.num_peers == 0 && swarm.num_seeds == 0;
                    &&& t.step is Wait
                    &&& t.wait.status == swarm
                    &&& t.wait.current_piece == w.current_piece
                    &&& nobody && obs.now < w.phase_deadline ==> {
                        let half = 2 * (obs.now - w.phase_start) + 1 >= w.phase_deadline
                            - w.phase_start;
                        &&& t.wait.phase == ReadPhase::PeerWait
                        &&& t.wait.phase_start == w.phase_start
                        &&& t.wait.phase_deadline == w.phase_deadline
                        &&& t.wait.reannounced_mid_wait == (w.reannounced_mid_wait || half)
                        &&& t.actions.contains(ReadAction::Reannounce) <==> half
                            && !w.reannounced_mid_wait
                    }
                    &&& (swarm.num_peers > 0 || swarm.num_seeds > 0 || obs.now
                        >= w.phase_deadline) ==> {
                        &&& t.wait.phase == ReadPhase::PieceWait
                        &&& t.wait.piece_wait_start == obs.now
                        &&& t.wait.has_seeder == (swarm.num_seeds > 0)
                        &&& t.wait.peer_wait_elapsed == obs.now - w.phase_start
                        &&& t.wait.is_peer_wait_exhausted == (if obs.now >= w.phase_deadline {
                            nobody
                        } else {
                            w.is_peer_wait_exhausted
                        })
                        &&& asks_for_what_is_missing(plan, obs.pieces@, t.actions)
                    }
                },
            }
        }),
{
    let t = read_wait::polled(plan, info_hash, timeout, w, obs);
    let pieces = obs.pieces@;
    match obs.status {
        StatusAnswer::Failed(_) => {},
        StatusAnswer::Known { swarm, .. } => {
            if obs.now >= w.phase_deadline {
                lemma_asks(plan, pieces, seq![ReadAction::PublishSnapshot]);
            } else if swarm.num_peers > 0 || swarm.num_seeds > 0 {
                lemma_asks(
                    plan,
                    pieces,
                    seq![ReadAction::RefreshStats, ReadAction::PublishSnapshot],
                );
            } else if t.actions.len() > 2 {
                assert(t.actions[2] == ReadAction::Reannounce);
            }
        },
    }
}

// ── While a read waits for its pieces ───────────────────────────────────────

/// Whether `p` is where a look at the pieces of a read stops: every piece from the
/// current one up to it can be read, and it itself cannot, or it lies past the read.
pub open spec fn stops_at(plan: ReadPlan, pieces: Seq<PieceFacts>, from: int, p: int) -> bool {
    &&& from <= p <= plan.end_piece + 1
    &&& forall|q: int|
        from <= q < p ==> (#[trigger] pieces[q - plan.start_piece]).complete || (pieces[q
            - plan.start_piece].have && !pieces[q - plan.start_piece].stale)
    &&& p <= plan.end_piece ==> !(pieces[p - plan.start_piece].complete || (pieces[p
        - plan.start_piece].have && !pieces[p - plan.start_piece].stale))
}

proof fn lemma_stops(plan: ReadPlan, pieces: Seq<PieceFacts>, from: int, p: int)
    requires
        stops_at(plan, pieces, from, p),
    ensures
        read_wait::first_missing(plan, pieces, from) == p,
    decreases p - from,
{
    if from < p {
        assert(pieces[from - plan.start_piece].local());
        assert(stops_at(plan, pieces, from + 1, p));
        lemma_stops(plan, pieces, from + 1, p);
    }
}

/// A piece is entered into the cache, while a read looks at its pieces, exactly when
/// it was passed over and the swarm library has it whole.
proof fn lemma_looks(plan: ReadPlan, pieces: Seq<PieceFacts>, from: int, p: int)
    requires
        0 <= plan.start_piece <= from,
        plan.end_piece < i32::MAX,
        stops_at(plan, pieces, from, p),
    ensures
        forall|i: int|
            0 <= i < read_wait::looks(plan, pieces, from).len() ==> {
                let a = #[trigger] read_wait::looks(plan, pieces, from)[i];
                a is RecordPoll || (a matches ReadAction::RegisterPiece { piece } && from <= piece
                    < p && pieces[piece - plan.start_piece].have && !pieces[piece
                    - plan.start_piece].stale)
            },
        forall|q: int|
            from <= q < p && (#[trigger] pieces[q - plan.start_piece]).have && !pieces[q
                - plan.start_piece].stale ==> read_wait::looks(plan, pieces, from).contains(
                ReadAction::RegisterPiece { piece: q as i32 },
            ),
    decreases p - from,
{
    let all = read_wait::looks(plan, pieces, from);
    if from < p {
        let f = pieces[from - plan.start_piece];
        assert(f.local());
        assert(stops_at(plan, pieces, from + 1, p));
        lemma_looks(plan, pieces, from + 1, p);
        let rest = read_wait::looks(plan, pieces, from + 1);
        let n = all.len() - rest.len();
        assert(n == if f.have && !f.stale {
            2int
        } else {
            1int
        });
        assert forall|i: int| 0 <= i < all.len() implies ({
            let a = #[trigger] all[i];
            a is RecordPoll || (a matches ReadAction::RegisterPiece { piece } && from <= piece < p
                && pieces[piece - plan.start_piece].have && !pieces[piece - plan.start_piece].stale)
        }) by {
            if i >= n {
                assert(all[i] == rest[i - n]);
            }
        }
        assert forall|q: int|
            from <= q < p && (#[trigger] pieces[q - plan.start_piece]).have && !pieces[q
                - plan.start_piece].stale implies all.contains(
            ReadAction::RegisterPiece { piece: q as i32 },
        ) by {
            let a = ReadAction::RegisterPiece { piece: q as i32 };
            if q == from {
                assert(all[1] == a);
            } else {
                assert(rest.contains(a));
                let i = choose|i: int| 0 <= i < rest.len() && rest[i] == a;
                assert(all[n + i] == a);
            }
        }
    }
}

/// A look at the pieces passes over exactly those that can be read, from where the
/// read stood up to the first that cannot, and enters those of them that the swarm
/// library has whole into the cache. When none is left the whole range is served and
/// no reader is added.
pub proof fn law_pieces_that_came_are_taken(
    plan: ReadPlan,
    info_hash: Seq<char>,
    timeout: u64,
    w: ReadWait,
    obs: Observation,
    p: int,
)
    requires
        plan.wf(),
        obs.wf(plan),
        w.phase == ReadPhase::PieceWait,
        !obs.stopping,
        plan.start_piece <= w.current_piece,
        stops_at(plan, obs.pieces@, w.current_piece as int, p),
    ensures
        ({
            let t = read_wait::polled(plan, info_hash, timeout, w, obs);
            &&& t.wait.current_piece == p
            &&& forall|q: int|
                w.current_piece <= q < p && (#[trigger] obs.pieces@[q - plan.start_piece]).have
                    && !obs.pieces@[q - plan.start_piece].stale ==> t.actions.contains(
                    ReadAction::RegisterPiece { piece: q as i32 },
                )
            &&& forall|i: int|
                0 <= i < t.actions.len() ==> ((#[trigger] t.actions[i]) matches ReadAction::RegisterPiece {
                    piece,
                } ==> w.current_piece <= piece < p && obs.pieces@[piece - plan.start_piece].have
                    && !obs.pieces@[piece - plan.start_piece].stale)
            &&& forall|i: int|
                0 <= i < t.actions.len() ==> !((#[trigger] t.actions[i]) is AddReader)
            &&& t.step == (StepView::Serve {
                end_piece: plan.end_piece,
                end_offset: plan.end_offset,
                size: plan.size,
            }) <== p == plan.end_piece + 1
        }),
{
    let t = read_wait::polled(plan, info_hash, timeout, w, obs);
    let from = w.current_piece as int;
    lemma_stops(plan, obs.pieces@, from, p);
    lemma_looks(plan, obs.pieces@, from, p);
    let seen = read_wait::looks(plan, obs.pieces@, from);
    assert forall|q: int|
        from <= q < p && (#[trigger] obs.pieces@[q - plan.start_piece]).have && !obs.pieces@[q
            - plan.start_piece].stale implies t.actions.contains(
        ReadAction::RegisterPiece { piece: q as i32 },
    ) by {
        let a = ReadAction::RegisterPiece { piece: q as i32 };
        assert(seen.contains(a));
        let i = choose|i: int| 0 <= i < seen.len() && seen[i] == a;
        assert(t.actions[i] == a);
    }
    assert forall|i: int| 0 <= i < t.actions.len() implies ((
    #[trigger] t.actions[i]) matches ReadAction::RegisterPiece { piece } ==> from <= piece < p
        && obs.pieces@[piece - plan.start_piece].have && !obs.pieces@[piece
        - plan.start_piece].stale) && !(t.actions[i] is AddReader) by {
        if i < seen.len() {
            assert(t.actions[i] == seen[i]);
        }
    }
}

/// How long a read waits for a piece that does not come: with a seeder connected for
/// the whole timeout, counted from when the seeder came; without one for fifteen
/// seconds at most; and not at all once a search for peers has ended on an empty
/// swarm. Not sooner and not later does it end.
pub proof fn law_wait_for_pieces_has_its_length(
    plan: ReadPlan,
    info_hash: Seq<char>,
    timeout: u64,
    w: ReadWait,
    obs: Observation,
    p: int,
)
    requires
        plan.wf(),
        obs.wf(plan),
        w.phase == ReadPhase::PieceWait,
        !obs.stopping,
        plan.start_piece <= w.current_piece,
        stops_at(plan, obs.pieces@, w.current_piece as int, p),
        p <= plan.end_piece,
        w.piece_wait_start <= obs.now,
    ensures
        ({
            let t = read_wait::polled(plan, info_hash, timeout, w, obs);
            let spent = obs.now - w.piece_wait_start;
            let seeds = match obs.status {
                StatusAnswer::Known { swarm, .. } => swarm.num_seeds as int,
                StatusAnswer::Failed(_) => 0,
            };
            let short: int = if timeout < 15 {
                timeout as int
            } else {
                15
            };
            &&& w.has_seeder ==> (t.step is Wait <==> spent < timeout * 1_000_000_000)
            &&& w.has_seeder ==> t.wait.has_seeder && t.wait.piece_wait_start == w.piece_wait_start
            &&& !w.has_seeder && seeds > 0 ==> {
                &&& t.wait.has_seeder
                &&& t.wait.piece_wait_start == obs.now
                &&& t.step is Wait <==> timeout > 0
            }
            &&& !w.has_seeder && seeds <= 0 ==> {
                &&& !t.wait.has_seeder
                &&& t.wait.piece_wait_start == w.piece_wait_start
                &&& w.is_peer_wait_exhausted ==> !(t.step is Wait)
                &&& !w.is_peer_wait_exhausted ==> (t.step is Wait <==> spent < short
                    * 1_000_000_000)
            }
        }),
{
    lemma_stops(plan, obs.pieces@, w.current_piece as int, p);
}

/// A read whose time is up is served with what came before the first missing piece,
/// to the last byte of it. Only where nothing came does it fail: for want of a
/// seeder, of which the operator is told with the numbers of that moment, or else as
/// timed out.
pub proof fn law_read_whose_time_is_up(
    plan: ReadPlan,
    info_hash: Seq<char>,
    timeout: u64,
    w: ReadWait,
    obs: Observation,
    p: int,
)
    requires
        plan.wf(),
        obs.wf(plan),
        w.phase == ReadPhase::PieceWait,
        !obs.stopping,
        plan.start_piece <= w.current_piece,
        stops_at(plan, obs.pieces@, w.current_piece as int, p),
        p <= plan.end_piece,
        !(read_wait::polled(plan, info_hash, timeout, w, obs).step is Wait),
    ensures
        ({
            let t = read_wait::polled(plan, info_hash, timeout, w, obs);
            &&& t.actions.contains(ReadAction::RegisterIncomplete)
            &&& p > plan.start_piece ==> (t.step matches StepView::Serve {
                end_piece,
                end_offset,
                size,
            } && end_piece == p - 1 && end_offset == p * plan.piece_length && size == end_offset
                - plan.absolute_offset) || (t.step matches StepView::Serve {
                end_piece,
                end_offset,
                size,
            } && end_piece == p - 1 && end_offset == plan.end_offset && plan.end_offset <= p
                * plan.piece_length && size == plan.size)
            &&& p == plan.start_piece ==> {
                &&& t.step is Fail
                &&& match obs.status {
                    StatusAnswer::Known { swarm, .. } => if swarm.num_seeds == 0 {
                        t.step->Fail_0.kind == ErrorKind::NoPeers && t.actions.contains(
                            ReadAction::Hint {
                                num_peers: swarm.num_peers,
                                num_seeds: swarm.num_seeds,
                                truncated: w.had_truncated_piece,
                            },
                        )
                    } else {
                        t.step->Fail_0.kind == ErrorKind::Timeout
                    },
                    StatusAnswer::Failed(_) => t.step->Fail_0.kind == ErrorKind::Timeout,
                }
            }
        }),
{
    let t = read_wait::polled(plan, info_hash, timeout, w, obs);
    let from = w.current_piece as int;
    lemma_stops(plan, obs.pieces@, from, p);
    let seen = read_wait::looks(plan, obs.pieces@, from);
    assert(t.actions[seen.len() as int] == ReadAction::RegisterIncomplete);
    if p > plan.start_piece {
        law_partial_read_is_as_long_as_it_can_be(plan, (p - 1) as i32);
    } else {
        match obs.status {
            StatusAnswer::Known { swarm, .. } => if swarm.num_seeds == 0 {
                assert(t.actions[t.actions.len() - 1] == (ReadAction::Hint {
                    num_peers: swarm.num_peers,
                    num_seeds: swarm.num_seeds,
                    truncated: w.had_truncated_piece,
                }));
            },
            StatusAnswer::Failed(_) => {},
        }
    }
}

// ── Reading from disk ───────────────────────────────────────────────────────

/// A read that still lacks bytes is never answered past a piece of its range that is
/// missing, empty or shorter than the torrent says: it is not ready.
pub proof fn law_unusable_piece_fails_the_read(
    plan: ReadPlan,
    pieces: Seq<Option<Seq<u8>>>,
    k: int,
    got: Seq<u8>,
)
    requires
        0 <= k < pieces.len(),
        got.len() < plan.size,
        (plan.start_piece + k) * plan.piece_length < plan.end_offset,
        plan.absolute_offset < (plan.start_piece + k + 1) * plan.piece_length,
        pieces[k] matches Some(d) ==> d.len() == 0 || (d.len() < plan.piece_length && (
        plan.start_piece + k) * plan.piece_length + d.len() < plan.total_size),
    ensures
        read_plan::gathered(plan, pieces, k, got) is NotReady,
{
    let p = plan.start_piece + k;
    assert((p + 1) * plan.piece_length == p * plan.piece_length + plan.piece_length)
        by (nonlinear_arith);
}

/// A read is never answered with fewer bytes than it asked for: where the pieces end
/// too soon it is not ready.
pub proof fn law_answer_is_long_enough(
    plan: ReadPlan,
    pieces: Seq<Option<Seq<u8>>>,
    k: int,
    got: Seq<u8>,
)
    requires
        0 <= k <= pieces.len(),
    ensures
        read_plan::gathered(plan, pieces, k, got) matches read_plan::AnswerView::Bytes(b)
            ==> b.len() >= plan.size && got.is_prefix_of(b),
    decreases pieces.len() - k,
{
    let p = plan.start_piece + k;
    if got.len() < plan.size && k < pieces.len() {
        match read_plan::piece_defect(plan, p, pieces[k]) {
            Some(_) => law_answer_is_long_enough(plan, pieces, k + 1, got),
            None => {
                let more = got + read_plan::piece_chunk(plan, p, pieces[k]->0);
                law_answer_is_long_enough(plan, pieces, k + 1, more);
                assert(got.is_prefix_of(more));
                match read_plan::gathered(plan, pieces, k + 1, more) {
                    read_plan::AnswerView::Bytes(b) => {
                        assert(b.take(got.len() as int) =~= got) by {
                            assert(b.take(more.len() as int) == more);
                        }
                    },
                    _ => {},
                }
            },
        }
    }
}

// ── The pieces that a read brings to light ──────────────────────────────────

/// The part of a piece that a range covers is what lies in both, counted from the start
/// of the piece; there is none where they do not meet.
pub proof fn law_part_of_a_piece_lies_in_the_range(
    data_len: int,
    p: int,
    piece_length: u64,
    absolute_offset: u64,
    end_offset: u64,
    i: int,
)
    requires
        0 <= data_len,
    ensures
        ({
            let at = p * piece_length + i;
            let inside = 0 <= i < data_len && absolute_offset <= at < end_offset;
            match read_plan::chunk_bounds(
                data_len,
                p,
                piece_length,
                absolute_offset,
                end_offset,
            ) {
                Some((from, to)) => inside <==> from <= i < to,
                None => !inside,
            }
        }),
{
}

/// Whether the data of the piece `k` places behind the first one is whole.
pub open spec fn is_whole(plan: ReadPlan, pieces: Seq<Option<Seq<u8>>>, k: int) -> bool {
    &&& 0 <= k < pieces.len()
    &&& pieces[k] is Some
    &&& pieces[k]->0.len() > 0
    &&& pieces[k]->0.len() >= plan.piece_length || (plan.start_piece + k) * plan.piece_length
        + pieces[k]->0.len() >= plan.total_size
}

/// Only whole pieces that the cache did not know are entered into it.
pub proof fn law_entered_pieces_are_whole_and_new(
    plan: ReadPlan,
    pieces: Seq<Option<Seq<u8>>>,
    known: Seq<bool>,
    i: int,
)
    requires
        plan.wf(),
        pieces.len() <= plan.num_pieces - plan.start_piece,
        0 <= i < read_plan::newly_seen(plan, pieces, known, 0, Seq::empty()).len(),
    ensures
        ({
            let k = read_plan::newly_seen(plan, pieces, known, 0, Seq::empty())[i]
                - plan.start_piece;
            &&& is_whole(plan, pieces, k)
            &&& !(k < known.len() && known[k])
        }),
{
    lemma_entered(plan, pieces, known, 0, Seq::empty(), i);
}

proof fn lemma_entered(
    plan: ReadPlan,
    pieces: Seq<Option<Seq<u8>>>,
    known: Seq<bool>,
    from: int,
    got: Seq<u8>,
    i: int,
)
    requires
        plan.wf(),
        pieces.len() <= plan.num_pieces - plan.start_piece,
        0 <= from <= pieces.len(),
        0 <= i < read_plan::newly_seen(plan, pieces, known, from, got).len(),
    ensures
        ({
            let k = read_plan::newly_seen(plan, pieces, known, from, got)[i] - plan.start_piece;
            &&& from <= k
            &&& is_whole(plan, pieces, k)
            &&& !(k < known.len() && known[k])
        }),
    decreases pieces.len() - from,
{
    let p = plan.start_piece + from;
    let next = match read_plan::piece_defect(plan, p, pieces[from]) {
        Some(_) => got,
        None => got + read_plan::piece_chunk(plan, p, pieces[from]->0),
    };
    let rest = read_plan::newly_seen(plan, pieces, known, from + 1, next);
    let all = read_plan::newly_seen(plan, pieces, known, from, got);
    if read_plan::piece_defect(plan, p, pieces[from]) is None && !(from < known.len()
        && known[from]) {
        assert(all == seq![p as i32] + rest);
        if i > 0 {
            assert(all[i] == rest[i - 1]);
            lemma_entered(plan, pieces, known, from + 1, next, i - 1);
        }
    } else {
        assert(all == rest);
        lemma_entered(plan, pieces, known, from + 1, next, i);
    }
}

/// Every whole piece that a read needs and that the cache did not know is entered into
/// it, provided that those before it are whole too.
pub proof fn law_needed_pieces_are_entered(
    plan: ReadPlan,
    pieces: Seq<Option<Seq<u8>>>,
    known: Seq<bool>,
    k: int,
)
    requires
        plan.wf(),
        pieces.len() <= plan.num_pieces - plan.start_piece,
        forall|j: int| 0 <= j <= k ==> is_whole(plan, pieces, j),
        forall|j: int|
            0 <= j <= k ==> (#[trigger] pieces[j])->0.len() <= plan.piece_length,
        0 <= k,
        (plan.start_piece + k) * plan.piece_length < plan.end_offset,
        !(k < known.len() && known[k]),
    ensures
        read_plan::newly_seen(plan, pieces, known, 0, Seq::empty()).contains(
            (plan.start_piece + k) as i32,
        ),
{
    lemma_needed(plan, pieces, known, 0, Seq::empty(), k);
}

proof fn lemma_needed(
    plan: ReadPlan,
    pieces: Seq<Option<Seq<u8>>>,
    known: Seq<bool>,
    from: int,
    got: Seq<u8>,
    k: int,
)
    requires
        plan.wf(),
        pieces.len() <= plan.num_pieces - plan.start_piece,
        forall|j: int| 0 <= j <= k ==> is_whole(plan, pieces, j),
        forall|j: int|
            0 <= j <= k ==> (#[trigger] pieces[j])->0.len() <= plan.piece_length,
        0 <= from <= k,
        (plan.start_piece + k) * plan.piece_length < plan.end_offset,
        !(k < known.len() && known[k]),
        got.len() == 0 || got.len() <= (plan.start_piece + from) * plan.piece_length
            - plan.absolute_offset,
    ensures
        read_plan::newly_seen(plan, pieces, known, from, got).contains(
            (plan.start_piece + k) as i32,
        ),
    decreases k - from,
{
    let len = plan.piece_length as int;
    let p = plan.start_piece + from;
    assert(is_whole(plan, pieces, from));
    let data = pieces[from]->0;
    assert(p * len <= (plan.start_piece + k) * len) by (nonlinear_arith)
        requires
            p <= plan.start_piece + k,
            len > 0,
    ;
    assert((p + 1) * len == p * len + len) by (nonlinear_arith);
    assert(got.len() < plan.size);
    assert(read_plan::piece_defect(plan, p, pieces[from]) is None);
    let chunk = read_plan::piece_chunk(plan, p, data);
    let next = got + chunk;
    let rest = read_plan::newly_seen(plan, pieces, known, from + 1, next);
    let all = read_plan::newly_seen(plan, pieces, known, from, got);
    if from < k {
        assert((plan.start_piece + from + 1) * len == p * len + len) by (nonlinear_arith)
            requires
                p == plan.start_piece + from,
        ;
        assert(plan.absolute_offset < (plan.start_piece + 1) * len);
        assert((plan.start_piece + 1) * len <= (p + 1) * len) by (nonlinear_arith)
            requires
                plan.start_piece <= p,
                len > 0,
        ;
        lemma_needed(plan, pieces, known, from + 1, next, k);
        let j = choose|j: int| 0 <= j < rest.len() && rest[j] == (plan.start_piece + k) as i32;
        if from < known.len() && known[from] {
            assert(all == rest);
        } else {
            assert(all == seq![p as i32] + rest);
            assert(all[j + 1] == rest[j]);
        }
    } else {
        assert(all == seq![p as i32] + rest);
        assert(all[0] == (plan.start_piece + k) as i32);
    }
}

// ── What is said of a read that fails ───────────────────────────────────────

/// The cache is blamed for a read that is larger than it, and else for a piece that was
/// there and is not any more: one that the cache has lost, or one that the swarm library
/// has and whose file is not whole. No other read is blamed on it.
pub proof fn law_when_the_cache_is_blamed(plan: ReadPlan, piece: PieceFacts, cache_size: u64)
    ensures
        ({
            let cause = read_wait::stall_cause(plan, piece, cache_size);
            let gone = piece.gone || (piece.have && piece.stale);
            &&& plan.size > cache_size ==> cause == Some(StallCause::SpanTooLarge)
            &&& plan.size <= cache_size && gone ==> cause == Some(StallCause::PieceGone)
            &&& plan.size <= cache_size && !gone ==> cause is None
        }),
{
}

/// What the operator is told of the cache: its size, how much was to be read, the
/// cause, and the seeders if they are known; nothing without a cause.
pub proof fn law_what_is_told_of_the_cache(
    plan: ReadPlan,
    piece: PieceFacts,
    cache_size: u64,
    status: StatusAnswer,
)
    ensures
        ({
            let told = read_wait::stall_told(plan, piece, cache_size, status);
            match read_wait::stall_cause(plan, piece, cache_size) {
                None => told.len() == 0,
                Some(cause) => told.len() == 1 && told[0] == (ReadAction::StallHint {
                    cache_size,
                    span: plan.size as u64,
                    cause,
                    seeds: match status {
                        StatusAnswer::Known { swarm, .. } => Some(swarm.num_seeds),
                        StatusAnswer::Failed(_) => None,
                    },
                }),
            }
        }),
{
}

/// A read takes at most twice its timeout, ten seconds for a recheck, nine for peers
/// and fifteen for a seeder, where each of these is no longer than the timeout.
pub proof fn law_longest_read(timeout: u64)
    ensures
        timeout >= 15 ==> read_wait::wait_budget(timeout) == 2 * timeout + 34,
        timeout <= 9 ==> read_wait::wait_budget(timeout) == 5 * timeout,
        9 <= timeout <= 10 ==> read_wait::wait_budget(timeout) == 4 * timeout + 9,
        10 <= timeout <= 15 ==> read_wait::wait_budget(timeout) == 3 * timeout + 19,
{
}

/// A read that a shutdown cuts short times out, and one whose torrent is gone fails for
/// want of it.
pub proof fn law_reads_that_are_cut_short()
    ensures
        read_wait::aborted().kind is Timeout,
        read_wait::aborted().text == "shutdown requested, read aborted"@,
        read_wait::missing_handle().kind == ErrorKind::Unknown(-1i32),
        read_wait::missing_handle().text == "Torrent handle missing"@,
{
}

/// A read that failed without a seeder says of which torrent it was, how long it looked
/// for peers, how long it waited for pieces, and whether a damaged piece is waiting to
/// be replaced.
pub proof fn law_words_without_a_seeder(info_hash: Seq<char>, peer_secs: u64, piece_secs: u64)
    ensures
        read_wait::no_peers_text(info_hash, peer_secs, piece_secs, false)
            == "No seeder connected for info_hash "@ + info_hash + " after "@ + text::dec(
            peer_secs as nat,
        ) + "s peer discovery + "@ + text::dec(piece_secs as nat)
            + "s piece wait. The torrent has no available seeder — check tracker health or try again later."@,
        read_wait::no_peers_text(info_hash, peer_secs, piece_secs, true)
            == "No seeder connected for info_hash "@ + info_hash + " after "@ + text::dec(
            peer_secs as nat,
        ) + "s peer discovery + "@ + text::dec(piece_secs as nat)
            + "s piece wait. A truncated piece needs re-download, but the torrent has no available seeder — the file cannot self-heal until a seeder connects."@,
{
}

/// A read that the cache stalled says how large the cache and the read are, in
/// mebibytes, what the cause is, and whether a seeder is connected.
pub proof fn law_words_of_a_stalled_read(cache_size: u64, span: u64, cause: StallCause, seeds: i32)
    ensures
        ({
            let size = decimal::hundredths_text(
                decimal::ratio_hundredths(cache_size as nat, 1024 * 1024),
            ) + " MiB"@;
            let wanted = decimal::hundredths_text(
                decimal::ratio_hundredths(span as nat, 1024 * 1024),
            ) + " MiB"@;
            let why = match cause {
                StallCause::SpanTooLarge => "read span is larger than the cache"@,
                StallCause::PieceGone => "piece the read waits on is gone from cache"@,
            };
            let head = "read stalled on the on-disk cache (cache_size="@ + size + ", read span="@
                + wanted + ", "@ + why
                + "); raise [cache] cache_size if the cache is evicting data the read needs"@;
            &&& read_wait::cache_stall_text(cache_size, span, cause, None) == head
                + "; whether a seeder is connected is unknown"@
            &&& seeds > 0 ==> read_wait::cache_stall_text(cache_size, span, cause, Some(seeds))
                == head + "; a seeder is connected"@
            &&& seeds <= 0 ==> read_wait::cache_stall_text(cache_size, span, cause, Some(seeds))
                == head + "; no seeder is connected"@
        }),
{
}

/// The names of the states that a torrent can be in, and which of them are on the way
/// to serving.
pub proof fn law_states_of_a_torrent()
    ensures
        TorrentState::QueuedForChecking.name() == "QueuedForChecking"@,
        TorrentState::CheckingFiles.name() == "CheckingFiles"@,
        TorrentState::DownloadingMetadata.name() == "DownloadingMetadata"@,
        TorrentState::Downloading.name() == "Downloading"@,
        TorrentState::Finished.name() == "Finished"@,
        TorrentState::Seeding.name() == "Seeding"@,
        TorrentState::Allocating.name() == "Allocating"@,
        TorrentState::CheckingResumeData.name() == "CheckingResumeData"@,
        TorrentState::Unknown.name() == "Unknown"@,
        TorrentState::QueuedForChecking.settling(),
        TorrentState::CheckingFiles.settling(),
        TorrentState::Allocating.settling(),
        TorrentState::CheckingResumeData.settling(),
        !TorrentState::DownloadingMetadata.settling(),
        !TorrentState::Downloading.settling(),
        !TorrentState::Finished.settling(),
        !TorrentState::Seeding.settling(),
        !TorrentState::Unknown.settling(),
{
}

/// A piece matters to a read exactly when it holds a byte of the range.
pub proof fn law_which_pieces_matter(plan: ReadPlan, p: int)
    requires
        plan.wf(),
    ensures
        read_plan::overlaps(plan, p) <==> exists|byte: int|
            plan.absolute_offset <= byte < plan.end_offset && #[trigger] lies_in(
                byte,
                p,
                plan.piece_length,
            ),
{
    let start = p * plan.piece_length;
    let byte = if plan.absolute_offset > start {
        plan.absolute_offset as int
    } else {
        start
    };
    if read_plan::overlaps(plan, p) {
        assert(lies_in(byte, p, plan.piece_length));
    }
}

/// Whether a byte of a torrent lies in a piece.
pub open spec fn lies_in(byte: int, p: int, piece_length: u64) -> bool {
    p * piece_length <= byte < p * piece_length + piece_length
}

/// The plain value of a step is what it says.
pub proof fn law_step_is_what_it_says(end_piece: i32, end_offset: u64, size: u32, e: TorrentError)
    ensures
        ReadStep::Wait@ == StepView::Wait,
        ReadStep::AskRecheck@ == StepView::AskRecheck,
        (ReadStep::Serve { end_piece, end_offset, size })@ == (StepView::Serve {
            end_piece,
            end_offset,
            size,
        }),
        ReadStep::Fail(e)@ == StepView::Fail(e@),
{
}

/// A partial answer is never empty: it ends behind the first byte of the range, at the
/// end of the range or of the last piece that came, whichever is first.
pub proof fn law_partial_answer_is_not_empty(
    start_piece: i32,
    last_complete: i32,
    piece_length: u64,
    absolute_offset: u64,
    end_offset: u64,
)
    ensures
        ({
            let boundary = (last_complete + 1) * piece_length;
            match read_plan::partial_bounds(
                start_piece,
                last_complete,
                piece_length,
                absolute_offset,
                end_offset,
            ) {
                Some(b) => last_complete >= start_piece && absolute_offset < end_offset
                    && absolute_offset < boundary,
                None => last_complete < start_piece || end_offset <= absolute_offset || boundary
                    <= absolute_offset,
            }
        }),
{
}

} // verus!
