//! What the piece scheduler is for: which pieces a read makes the swarm fetch, and
//! in which order.
use vstd::prelude::*;

use crate::piece_scheduler;
use crate::piece_scheduler::{
    FilePieceInfo, PiecePriorityConfig, PieceScheduler, PriorityWrite, ReadRange, Reader,
    SchedulerState, TorrentLayout,
};

verus! {

// ── The gradient of one read ────────────────────────────────────────────────

/// A read asks for pieces exactly when its torrent has pieces, its file is known and
/// has a piece of the torrent, and it starts before the end of its file. It says
/// something of every piece of the torrent.
pub proof fn law_which_reads_ask_for_pieces(
    config: PiecePriorityConfig,
    cache_capacity: u64,
    layout: TorrentLayout,
    piece_info: Option<FilePieceInfo>,
    file_index: i32,
    offset: u64,
    size: u32,
)
    ensures
        ({
            let g = piece_scheduler::read_gradient(
                config,
                cache_capacity,
                layout,
                piece_info,
                file_index,
                offset,
                size,
            );
            &&& g is Some <==> {
                &&& layout.num_pieces > 0
                &&& layout.piece_length > 0
                &&& layout.file_sizes is Some
                &&& 0 <= file_index < layout.file_sizes->0@.len()
                &&& offset < layout.file_sizes->0@[file_index as int]
                &&& piece_info is Some
                &&& piece_info->0.first_piece < layout.num_pieces
                &&& piece_info->0.first_piece + piece_info->0.num_pieces > 0
            }
            &&& g matches Some(g) ==> g.len() == layout.num_pieces
        }),
{
}

/// The bytes of a read, from its first to just past its last.
pub open spec fn bytes_of_read(
    layout: TorrentLayout,
    info: FilePieceInfo,
    file_index: i32,
    offset: u64,
    size: u32,
) -> (int, int) {
    let start = info.file_offset + offset;
    let left = layout.file_sizes->0@[file_index as int] - offset;
    (
        start,
        if size <= left {
            start + size
        } else {
            start + left
        },
    )
}

/// Every piece of the file that holds a byte of the read gets the current priority,
/// the first and the last included, also where it is shared with another file.
pub proof fn law_pieces_of_a_read_come_first(
    config: PiecePriorityConfig,
    cache_capacity: u64,
    layout: TorrentLayout,
    info: FilePieceInfo,
    file_index: i32,
    offset: u64,
    size: u32,
    p: int,
)
    requires
        piece_scheduler::read_gradient(
            config,
            cache_capacity,
            layout,
            Some(info),
            file_index,
            offset,
            size,
        ) is Some,
        0 <= p < layout.num_pieces,
        info.first_piece <= p < info.first_piece + info.num_pieces,
        ({
            let (from, to) = bytes_of_read(layout, info, file_index, offset, size);
            p * layout.piece_length < to && from < (p + 1) * layout.piece_length
        }),
    ensures
        piece_scheduler::read_gradient(
            config,
            cache_capacity,
            layout,
            Some(info),
            file_index,
            offset,
            size,
        )->0[p] == config.current_priority,
{
    let len = layout.piece_length as int;
    let (from, to) = bytes_of_read(layout, info, file_index, offset, size);
    lemma_piece_of(from, p, len);
    assert(from / len <= p);
    if to > from {
        vstd::arithmetic::div_mod::lemma_fundamental_div_mod(to - 1, len);
        let last = (to - 1) / len;
        assert(p <= last) by (nonlinear_arith)
            requires
                p * len < to,
                to - 1 == len * last + (to - 1) % len,
                0 <= (to - 1) % len < len,
                len > 0,
        ;
    } else {
        vstd::arithmetic::div_mod::lemma_fundamental_div_mod(from, len);
        let last = from / len;
        assert(p <= last) by (nonlinear_arith)
            requires
                p * len < from,
                from == len * last + from % len,
                0 <= from % len < len,
                len > 0,
        ;
    }
}

proof fn lemma_piece_of(byte: int, p: int, len: int)
    requires
        len > 0,
        byte < (p + 1) * len,
    ensures
        byte / len <= p,
{
    vstd::arithmetic::div_mod::lemma_fundamental_div_mod(byte, len);
    let q = byte / len;
    assert(q <= p) by (nonlinear_arith)
        requires
            byte < (p + 1) * len,
            byte == len * q + byte % len,
            0 <= byte % len < len,
            len > 0,
    ;
}

/// Pieces that hold no byte of the read's file are not asked for.
pub proof fn law_other_files_are_left_alone(
    config: PiecePriorityConfig,
    cache_capacity: u64,
    layout: TorrentLayout,
    info: FilePieceInfo,
    file_index: i32,
    offset: u64,
    size: u32,
    p: int,
)
    requires
        piece_scheduler::read_gradient(
            config,
            cache_capacity,
            layout,
            Some(info),
            file_index,
            offset,
            size,
        ) is Some,
        0 <= p < layout.num_pieces,
        p < info.first_piece || info.first_piece + info.num_pieces <= p,
    ensures
        piece_scheduler::read_gradient(
            config,
            cache_capacity,
            layout,
            Some(info),
            file_index,
            offset,
            size,
        )->0[p] == 0,
{
}

/// Whether a window of `w` pieces is as wide as it may be: it fits into the access
/// window and, beside one served piece, into the cache, and one more piece would not.
pub open spec fn is_window(w: int, access_window_mb: u32, cache_capacity: u64, piece_length: u64) -> bool {
    &&& 0 <= w
    &&& w * piece_length <= access_window_mb * 1048576
    &&& w > 0 ==> (w + 1) * piece_length <= cache_capacity
    &&& (w + 1) * piece_length > access_window_mb * 1048576 || (w + 2) * piece_length
        > cache_capacity
}

/// Past the end of a read, the pieces of its file are asked for in falling order: the
/// first four by the steps, the others of the window at its edge priority, and those
/// past the window at the rest's.
pub proof fn law_pieces_ahead_follow_the_steps(
    config: PiecePriorityConfig,
    cache_capacity: u64,
    layout: TorrentLayout,
    info: FilePieceInfo,
    file_index: i32,
    offset: u64,
    size: u32,
    last: int,
    ahead: int,
    w: int,
)
    requires
        piece_scheduler::read_gradient(
            config,
            cache_capacity,
            layout,
            Some(info),
            file_index,
            offset,
            size,
        ) is Some,
        size > 0,
        ({
            let (from, to) = bytes_of_read(layout, info, file_index, offset, size);
            last * layout.piece_length < to <= (last + 1) * layout.piece_length
        }),
        ahead > 0,
        0 <= last + ahead < layout.num_pieces,
        info.first_piece <= last + ahead < info.first_piece + info.num_pieces,
        is_window(w, config.access_window_mb, cache_capacity, layout.piece_length),
        w <= i32::MAX,
    ensures
        ({
            let g = piece_scheduler::read_gradient(
                config,
                cache_capacity,
                layout,
                Some(info),
                file_index,
                offset,
                size,
            )->0[last + ahead];
            &&& ahead > w ==> g == config.rest_priority
            &&& ahead <= w && ahead <= 4 ==> g == config.step_priorities@[ahead - 1]
            &&& ahead <= w && ahead > 4 ==> g == config.window_edge_priority
        }),
{
    let len = layout.piece_length as int;
    let (from, to) = bytes_of_read(layout, info, file_index, offset, size);
    let end = to - 1;
    vstd::arithmetic::div_mod::lemma_fundamental_div_mod(end, len);
    let q = end / len;
    assert(q == last) by (nonlinear_arith)
        requires
            last * len <= end < (last + 1) * len,
            end == len * q + end % len,
            0 <= end % len < len,
            len > 0,
    ;
    lemma_window(w, config.access_window_mb, cache_capacity, layout.piece_length);
    vstd::arithmetic::div_mod::lemma_div_is_ordered(from, end, len);
}

proof fn lemma_window(w: int, access_window_mb: u32, cache_capacity: u64, piece_length: u64)
    requires
        piece_length > 0,
        is_window(w, access_window_mb, cache_capacity, piece_length),
    ensures
        piece_scheduler::window_bytes(access_window_mb, cache_capacity, piece_length)
            / piece_length as int == w,
{
    let len = piece_length as int;
    let bytes = piece_scheduler::window_bytes(access_window_mb, cache_capacity, piece_length);
    let mb = access_window_mb * 1048576;
    assert((w + 1) * len == w * len + len && (w + 2) * len == w * len + 2 * len)
        by (nonlinear_arith);
    assert(w == 0 ==> w * len == 0) by (nonlinear_arith);
    assert(w * len <= bytes < w * len + len);
    vstd::arithmetic::div_mod::lemma_fundamental_div_mod(bytes, len);
    let q = bytes / len;
    assert(q == w) by (nonlinear_arith)
        requires
            w * len <= bytes < w * len + len,
            bytes == len * q + bytes % len,
            0 <= bytes % len < len,
            len > 0,
    ;
}

// ── What a torrent wants ────────────────────────────────────────────────────

proof fn lemma_wanted_is_asked(readers: Seq<Reader>, p: int)
    requires
        0 <= p,
    ensures
        piece_scheduler::wanted_at(readers, p) >= 0,
        piece_scheduler::wanted_at(readers, p) == 0 || exists|r: int|
            0 <= r < readers.len() && 0 <= p < (#[trigger] readers[r]).gradient.len()
                && readers[r].gradient[p] == piece_scheduler::wanted_at(readers, p),
        forall|r: int|
            0 <= r < readers.len() && 0 <= p < (#[trigger] readers[r]).gradient.len()
                ==> readers[r].gradient[p] <= piece_scheduler::wanted_at(readers, p),
    decreases readers.len(),
{
    if readers.len() > 0 {
        let init = readers.drop_last();
        lemma_wanted_is_asked(init, p);
        assert(forall|r: int| 0 <= r < init.len() ==> init[r] == readers[r]);
        let before = piece_scheduler::wanted_at(init, p);
        let now = piece_scheduler::wanted_at(readers, p);
        if now != 0 {
            if now == before {
                let r = choose|r: int|
                    0 <= r < init.len() && 0 <= p < (#[trigger] init[r]).gradient.len()
                        && init[r].gradient[p] == before;
                assert(readers[r].gradient[p] == now);
            } else {
                assert(readers[readers.len() - 1].gradient[p] == now);
            }
        }
        assert forall|r: int|
            0 <= r < readers.len() && 0 <= p < (
            #[trigger] readers[r]).gradient.len() implies readers[r].gradient[p] <= now by {
            if r < init.len() {
                assert(init[r] == readers[r]);
            }
        }
    }
}

/// While a torrent is read, a piece that is not here has exactly the highest priority
/// that any of its readers asks for: no reader's wish is passed over, and no piece is
/// wanted more than by the reader who wants it most.
pub proof fn law_readers_decide_what_is_wanted(
    s: SchedulerState,
    hash: Seq<char>,
    local: Seq<bool>,
    p: int,
)
    requires
        s.wf(),
        s.elevated.contains_key(hash),
        s.readers.contains_key(hash),
        s.readers[hash].len() > 0,
        0 <= p < s.elevated[hash].len(),
    ensures
        ({
            let got = s.recomputed(hash, local).elevated[hash][p];
            let readers = s.readers[hash];
            &&& p < local.len() && local[p] ==> got == 0
            &&& !(p < local.len() && local[p]) ==> {
                &&& got >= 0
                &&& forall|r: int|
                    0 <= r < readers.len() && p < (#[trigger] readers[r]).gradient.len()
                        ==> readers[r].gradient[p] <= got
                &&& got == 0 || exists|r: int|
                    0 <= r < readers.len() && p < (#[trigger] readers[r]).gradient.len()
                        && readers[r].gradient[p] == got
            }
        }),
{
    assert(s.torrent_wf(hash));
    lemma_wanted_is_asked(s.readers[hash], p);
}

/// A torrent that nobody reads wants what its last reader left behind, and nothing if
/// that reader left nothing.
pub proof fn law_unread_torrent_wants_what_was_left(
    s: SchedulerState,
    hash: Seq<char>,
    local: Seq<bool>,
    p: int,
)
    requires
        s.wf(),
        s.elevated.contains_key(hash),
        s.readers.contains_key(hash) ==> s.readers[hash].len() == 0,
        0 <= p < s.elevated[hash].len(),
    ensures
        ({
            let got = s.recomputed(hash, local).elevated[hash][p];
            let left = if s.prefetch.contains_key(hash) && p < s.prefetch[hash].len() {
                s.prefetch[hash][p]
            } else {
                0
            };
            got == (if left > 0 && !(p < local.len() && local[p]) {
                left
            } else {
                0
            })
        }),
{
    assert(s.torrent_wf(hash));
}

/// The first reader of a torrent gets exactly what it asks for, but for what is here
/// already. When it leaves, what it has not got stays wanted; what is here does not.
pub proof fn law_one_reader_comes_and_goes(
    s: SchedulerState,
    hash: Seq<char>,
    gradient: Seq<i32>,
    local: Seq<bool>,
    later: Seq<bool>,
    p: int,
)
    requires
        s.wf(),
        s.elevated.contains_key(hash),
        s.readers.contains_key(hash) ==> s.readers[hash].len() == 0,
        gradient.len() == s.elevated[hash].len(),
        0 <= p < gradient.len(),
        0 <= s.next_read_id <= u64::MAX,
    ensures
        ({
            let came = s.with_reader(hash, Some(gradient)).recomputed(hash, local);
            let gone = came.without_reader(hash, s.next_read_id as u64, later).recomputed(
                hash,
                later,
            );
            &&& came.elevated[hash][p] == (if gradient[p] > 0 && !(p < local.len() && local[p]) {
                gradient[p]
            } else {
                0
            })
            &&& gone.readers[hash].len() == 0
            &&& gone.elevated[hash][p] == (if gradient[p] > 0 && !(p < later.len() && later[p]) {
                gradient[p]
            } else {
                0
            })
        }),
{
    assert(s.torrent_wf(hash));
    let joined = s.with_reader(hash, Some(gradient));
    let one = Reader { id: s.next_read_id as u64, gradient };
    assert(joined.readers[hash] =~= seq![one]);
    let came = joined.recomputed(hash, local);
    lemma_wanted_is_asked(joined.readers[hash], p);
    assert(joined.readers[hash][0] == one);
    assert(came.readers_of(hash) == seq![one]);
    let left = came.without_reader(hash, s.next_read_id as u64, later);
    assert(piece_scheduler::position_of(seq![one], one.id) == 0);
    assert(left.readers[hash] =~= Seq::<Reader>::empty());
    let window = piece_scheduler::without_local(gradient, later);
    if !piece_scheduler::all_zero(window) {
        assert(left.prefetch[hash] == window);
    } else {
        assert(window[p] == 0);
        assert(!left.prefetch.contains_key(hash));
    }
}

/// A piece that became ready is no longer wanted, now or from what a reader left; every
/// other piece is wanted as before.
pub proof fn law_ready_piece_is_the_only_change(
    s: SchedulerState,
    hash: Seq<char>,
    piece: int,
    other: int,
)
    requires
        s.elevated.contains_key(hash),
        0 <= piece < s.elevated[hash].len(),
        0 <= other < s.elevated[hash].len(),
        other != piece,
    ensures
        ({
            let t = s.with_piece_ready(hash, piece);
            &&& t.elevated[hash].len() == s.elevated[hash].len()
            &&& t.elevated[hash][piece] == 0
            &&& t.elevated[hash][other] == s.elevated[hash][other]
            &&& t.readers == s.readers
            &&& t.prefetch.contains_key(hash) ==> {
                &&& s.prefetch.contains_key(hash)
                &&& piece < t.prefetch[hash].len() ==> t.prefetch[hash][piece] == 0
                &&& other < t.prefetch[hash].len() ==> t.prefetch[hash][other]
                    == s.prefetch[hash][other]
            }
            &&& s.prefetch.contains_key(hash) && other < s.prefetch[hash].len()
                && s.prefetch[hash][other] != 0 ==> t.prefetch.contains_key(hash)
        }),
{
    if s.prefetch.contains_key(hash) && other < s.prefetch[hash].len() && s.prefetch[hash][other]
        != 0 {
        let cleared = piece_scheduler::piece_cleared(s.prefetch[hash], piece);
        assert(cleared[other] != 0);
    }
}

/// Unless the handle is out of step, a recomputation writes no piece whose priority
/// stays.
pub proof fn law_unchanged_pieces_are_not_written(
    s: SchedulerState,
    hash: Seq<char>,
    local: Seq<bool>,
    i: int,
)
    requires
        s.wf(),
        s.elevated.contains_key(hash),
        !s.dirty.contains(hash),
        0 <= i < s.recompute_writes(hash, local).len(),
    ensures
        s.recompute_writes(hash, local)[i] matches PriorityWrite::One { piece, priority } ==> {
            &&& 0 <= piece < s.elevated[hash].len()
            &&& priority == s.recomputed(hash, local).elevated[hash][piece as int]
            &&& priority != s.elevated[hash][piece as int]
        },
{
    assert(s.torrent_wf(hash));
    lemma_written(
        s.elevated[hash],
        s.recomputed_priorities(hash, local),
        s.elevated[hash].len(),
    );
}

proof fn lemma_written(before: Seq<i32>, after: Seq<i32>, n: nat)
    requires
        n <= before.len() <= i32::MAX,
    ensures
        forall|i: int|
            0 <= i < piece_scheduler::writes_between(before, after, false, n).len() ==> ((
            #[trigger] piece_scheduler::writes_between(
                before,
                after,
                false,
                n,
            )[i]) matches PriorityWrite::One { piece, priority } && 0 <= piece < n && priority
                == after[piece as int] && priority != before[piece as int]),
    decreases n,
{
    if n > 0 {
        lemma_written(before, after, (n - 1) as nat);
    }
}

/// The pieces that are listed as wanted are those with a priority above zero, each
/// once and in order.
pub proof fn law_listed_pieces_are_wanted(priorities: Seq<i32>, n: nat)
    requires
        n <= priorities.len() <= i32::MAX,
    ensures
        ({
            let listed = piece_scheduler::wanted_pieces(priorities, n);
            &&& forall|i: int|
                0 <= i < listed.len() ==> 0 <= #[trigger] listed[i] < n
                    && priorities[listed[i] as int] > 0
            &&& forall|i: int, j: int| 0 <= i < j < listed.len() ==> listed[i] < listed[j]
            &&& forall|p: int|
                0 <= p < n && #[trigger] priorities[p] > 0 ==> listed.contains(p as i32)
        }),
    decreases n,
{
    if n > 0 {
        let m = (n - 1) as nat;
        law_listed_pieces_are_wanted(priorities, m);
        let before = piece_scheduler::wanted_pieces(priorities, m);
        let listed = piece_scheduler::wanted_pieces(priorities, n);
        assert forall|p: int| 0 <= p < n && #[trigger] priorities[p] > 0 implies listed.contains(
            p as i32,
        ) by {
            if p < m {
                assert(before.contains(p as i32));
                let i = choose|i: int| 0 <= i < before.len() && before[i] == p as i32;
                assert(listed[i] == p as i32);
            } else {
                assert(listed[listed.len() - 1] == p as i32);
            }
        }
    }
}

/// A setting of the configuration counts where it is given, and its default where it is
/// not.
pub proof fn law_settings_have_defaults(value: i32, default: i32)
    ensures
        piece_scheduler::or_else(Some(value), default) == value,
        piece_scheduler::or_else(None, default) == default,
{
}

/// What the scheduler is said to know is what its fields hold.
pub proof fn law_scheduler_is_its_fields(s: PieceScheduler, h: Seq<char>, r: ReadRange)
    ensures
        s@.elevated.contains_key(h) == s.elevated@.contains_key(h),
        s.elevated@.contains_key(h) ==> s@.elevated[h] == s.elevated@[h]@,
        s@.piece_lengths == s.piece_lengths@,
        s@.readers.contains_key(h) == s.readers@.contains_key(h),
        s.readers@.contains_key(h) ==> s@.readers[h].len() == s.readers@[h]@.len(),
        s.readers@.contains_key(h) ==> forall|i: int|
            0 <= i < s.readers@[h]@.len() ==> (#[trigger] s@.readers[h][i]) == s.readers@[h]@[i]@,
        s@.prefetch.contains_key(h) == s.prefetch@.contains_key(h),
        s.prefetch@.contains_key(h) ==> s@.prefetch[h] == s.prefetch@[h]@,
        s@.dirty == s.dirty@,
        s@.next_read_id == s.next_read_id,
        s@.config == s.config,
        s@.cache_capacity == s.cache_capacity_bytes,
        r@.id == r.id.0,
        r@.gradient == r.gradient@,
{
}

} // verus!
