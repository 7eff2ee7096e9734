//! What the engine publishes, when it does so, and what it starts from.
use vstd::prelude::*;

use crate::engine;
use crate::engine::{Duties, EngineState, LoopClock, TorrentFacts};
use crate::error::ErrorKind;
use crate::piece_scheduler::SchedulerState;
use crate::read_wait;

verus! {

// ── The turns of the engine ─────────────────────────────────────────────────

/// Housekeeping and publishing come once a second; any command but a read publishes at
/// once; session counters are asked for while reads wait, and with the housekeeping
/// of a turn without a command.
pub proof fn law_what_is_due(clock: LoopClock, is_read: bool, parked: bool, now: u64)
    ensures
        ({
            let kept_house = now - clock.last_housekeeping >= 1_000_000_000;
            let published = now - clock.last_publish >= 1_000_000_000;
            let busy = clock.due_after_command(is_read, parked, now);
            let quiet = clock.due_after_timeout(parked, now);
            &&& busy.housekeeping <==> kept_house
            &&& busy.publish <==> !is_read || published
            &&& busy.refresh_stats <==> parked
            &&& quiet.housekeeping <==> kept_house
            &&& quiet.publish <==> published
            &&& quiet.refresh_stats <==> parked || kept_house
        }),
{
}

/// A duty that is done starts its interval anew, and the other one goes on.
pub proof fn law_done_duties_are_noted(clock: LoopClock, duties: Duties, now: u64)
    ensures
        ({
            let after = clock.after(duties, now);
            &&& duties.publish ==> after.last_publish == now
            &&& !duties.publish ==> after.last_publish == clock.last_publish
            &&& duties.housekeeping ==> after.last_housekeeping == now
            &&& !duties.housekeeping ==> after.last_housekeeping == clock.last_housekeeping
        }),
{
}

/// The engine waits a second for a command, a fifth of a second while reads wait; its
/// cache holds a gibibyte unless configured otherwise.
pub proof fn law_lengths_of_the_engine()
    ensures
        engine::SNAPSHOT_INTERVAL == 1_000_000_000,
        engine::PENDING_READ_POLL_INTERVAL == 200_000_000,
        engine::DEFAULT_CACHE_SIZE == 1024 * 1024 * 1024,
        read_wait::NANOS == 1_000_000_000,
{
}

/// A swarm that became empty at `t` has been so for the time since, and for no time
/// when the clock was set back.
pub proof fn law_time_since(t: u64, now: u64)
    ensures
        now >= t ==> read_wait::since(t, now) == now - t,
        now < t ==> read_wait::since(t, now) == 0,
{
}

/// The engine's own failures have the code minus one and say what happened.
pub proof fn law_engine_failures_have_one_code(message: Seq<char>)
    ensures
        engine::engine_failure(message).kind == ErrorKind::Unknown(-1i32),
        engine::engine_failure(message).text == message,
{
}

/// A torrent has nothing to do when nobody reads it and none of its pieces is wanted.
pub proof fn law_when_a_torrent_is_idle(state: EngineState, h: Seq<char>)
    ensures
        state.idle(h) <==> {
            &&& state.scheduler@.readers_of(h).len() == 0
            &&& state.scheduler@.elevated.contains_key(h) ==> forall|p: int|
                0 <= p < state.scheduler@.elevated[h].len()
                    ==> #[trigger] state.scheduler@.elevated[h][p] == 0
        },
{
}

/// A torrent that is served from now on is known with all its pieces, none of them
/// wanted, and with their length; other torrents and all readers stay as they were. A
/// torrent without pieces changes nothing.
pub proof fn law_served_torrent_is_known(
    s: SchedulerState,
    h: Seq<char>,
    k: Seq<char>,
    num_pieces: i32,
    piece_length: i64,
)
    requires
        k != h,
    ensures
        ({
            let t = s.tracking(h, num_pieces, piece_length);
            &&& num_pieces <= 0 ==> t == s
            &&& num_pieces > 0 ==> {
                &&& t.elevated.contains_key(h)
                &&& t.elevated[h].len() == num_pieces
                &&& forall|p: int| 0 <= p < num_pieces ==> #[trigger] t.elevated[h][p] == 0
                &&& t.piece_lengths.contains_key(h)
                &&& t.piece_lengths[h] == piece_length
                &&& !t.dirty.contains(h)
                &&& !t.prefetch.contains_key(h)
            }
            &&& t.elevated.contains_key(k) == s.elevated.contains_key(k)
            &&& s.elevated.contains_key(k) ==> t.elevated[k] == s.elevated[k]
            &&& t.piece_lengths.contains_key(k) == s.piece_lengths.contains_key(k)
            &&& s.piece_lengths.contains_key(k) ==> t.piece_lengths[k] == s.piece_lengths[k]
            &&& t.readers == s.readers
            &&& t.next_read_id == s.next_read_id
            &&& t.config == s.config
            &&& t.cache_capacity == s.cache_capacity
        }),
{
}

// ── The snapshot ────────────────────────────────────────────────────────────

/// A piece is published with the priority that the scheduler gives it, and as cached,
/// with the reads it has had, exactly when the cache has it.
pub proof fn law_published_piece(state: EngineState, h: Seq<char>, p: int, cached: Option<u64>)
    ensures
        ({
            let s = state.piece_status(h, p, cached);
            let wanted = state.scheduler@.elevated;
            &&& wanted.contains_key(h) && 0 <= p < wanted[h].len() ==> s.priority == wanted[h][p]
            &&& !(wanted.contains_key(h) && 0 <= p < wanted[h].len()) ==> s.priority == 0
            &&& s.is_cached <==> cached is Some
            &&& cached matches Some(hits) ==> s.hit_count == hits
            &&& cached is None ==> s.hit_count == 0
        }),
{
}

/// Whether fact `i` is the last one about a torrent that has a status.
pub open spec fn last_status(facts: Seq<TorrentFacts>, h: Seq<char>, i: int) -> bool {
    &&& 0 <= i < facts.len()
    &&& facts[i].info_hash@ == h
    &&& facts[i].status is Some
    &&& forall|j: int|
        i < j < facts.len() ==> (#[trigger] facts[j]).info_hash@ != h || facts[j].status is None
}

/// Every torrent of which the swarm library gave a status has it published, and no
/// other has one.
pub proof fn law_statuses_are_published(facts: Seq<TorrentFacts>, h: Seq<char>)
    ensures
        forall|i: int| #[trigger]
            last_status(facts, h, i) ==> engine::statuses_of(facts).contains_key(h)
                && engine::statuses_of(facts)[h] == facts[i].status->0,
        engine::statuses_of(facts).contains_key(h) ==> exists|i: int|
            0 <= i < facts.len() && (#[trigger] facts[i]).info_hash@ == h && facts[i].status
                is Some,
    decreases facts.len(),
{
    if facts.len() > 0 {
        let rest = facts.drop_last();
        law_statuses_are_published(rest, h);
        let n = facts.len() - 1;
        if engine::statuses_of(facts).contains_key(h) {
            if facts.last().info_hash@ == h && facts.last().status is Some {
                assert(facts[n].info_hash@ == h);
            } else {
                let i = choose|i: int|
                    0 <= i < rest.len() && (#[trigger] rest[i]).info_hash@ == h && rest[i].status
                        is Some;
                assert(facts[i].info_hash@ == h);
            }
        }
        assert forall|i: int| #[trigger] last_status(facts, h, i) implies engine::statuses_of(
            facts,
        ).contains_key(h) && engine::statuses_of(facts)[h] == facts[i].status->0 by {
            if i < n {
                assert(facts[n].info_hash@ != h || facts[n].status is None);
                assert forall|j: int| i < j < rest.len() implies (#[trigger] rest[j]).info_hash@
                    != h || rest[j].status is None by {
                    assert(facts[j] == rest[j]);
                }
                assert(last_status(rest, h, i));
            }
        }
    }
}

/// Whether fact `i` is the last one about a torrent whose cached pieces are known.
pub open spec fn last_cached(facts: Seq<TorrentFacts>, h: Seq<char>, i: int) -> bool {
    &&& 0 <= i < facts.len()
    &&& facts[i].info_hash@ == h
    &&& facts[i].cached is Some
    &&& forall|j: int|
        i < j < facts.len() ==> (#[trigger] facts[j]).info_hash@ != h || facts[j].cached is None
}

/// The pieces of a torrent that the scheduler knows are published with their length,
/// one status for each that was asked about, where the cache could be asked; those of
/// any other torrent are not.
pub proof fn law_pieces_are_published(
    state: EngineState,
    facts: Seq<TorrentFacts>,
    h: Seq<char>,
    i: int,
)
    requires
        last_cached(facts, h, i),
    ensures
        ({
            let published = state.pieces_of(facts);
            let cached = facts[i].cached->0@;
            &&& published.contains_key(h) <==> state.scheduler@.elevated.contains_key(h)
            &&& published.contains_key(h) ==> {
                &&& published[h].0 == state.scheduler@.piece_lengths[h] as u64
                &&& published[h].1.len() == cached.len()
                &&& forall|p: int|
                    0 <= p < cached.len() ==> (#[trigger] published[h].1[p]).is_cached
                        == cached[p] is Some
                &&& forall|p: int|
                    0 <= p < cached.len() ==> (#[trigger] published[h].1[p]).hit_count == (
                    match cached[p] {
                        Some(hits) => hits,
                        None => 0u64,
                    })
                &&& forall|p: int|
                    0 <= p < cached.len() && p < state.scheduler@.elevated[h].len() ==> (
                    #[trigger] published[h].1[p]).priority == state.scheduler@.elevated[h][p]
            }
        }),
    decreases facts.len(),
{
    let rest = facts.drop_last();
    let n = facts.len() - 1;
    if i < n {
        assert(facts[n].info_hash@ != h || facts[n].cached is None);
        assert forall|j: int| i < j < rest.len() implies (#[trigger] rest[j]).info_hash@ != h
            || rest[j].cached is None by {
            assert(facts[j] == rest[j]);
        }
        law_pieces_are_published(state, rest, h, i);
    } else {
        lemma_untold_pieces(state, rest, h);
    }
}

/// Only the pieces of torrents that the scheduler knows are published.
proof fn lemma_untold_pieces(state: EngineState, facts: Seq<TorrentFacts>, h: Seq<char>)
    ensures
        state.pieces_of(facts).contains_key(h) ==> state.scheduler@.elevated.contains_key(h),
    decreases facts.len(),
{
    if facts.len() > 0 {
        lemma_untold_pieces(state, facts.drop_last(), h);
    }
}

} // verus!
