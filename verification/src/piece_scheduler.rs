//! Piece priorities.
//!
//! The scheduler owns the priority vector of every torrent and recomputes it
//! from events: a reader was added or released, a piece became ready, a piece
//! was evicted. It never talks to the swarm itself. Each event returns the
//! priority writes that the caller performs on the torrent's handle, in order.
use vstd::hash_map::StringHashMap;
use vstd::hash_set::StringHashSet;
use vstd::prelude::*;

use crate::digest;
use crate::error::TorrentError;

verus! {

/// Priority of a piece that nobody wants.
pub const DEFAULT_PRIORITY: i32 = 0;

/// Number of priorities on the ladder behind the current read.
pub const STEP_COUNT: usize = 4;

/// Priority gradient configuration.
#[derive(Debug, Clone, Copy)]
pub struct PiecePriorityConfig {
    /// Read-ahead window in MiB.
    pub access_window_mb: u32,
    /// Priority of the pieces that the current read covers.
    pub current_priority: i32,
    /// Priorities at distance one to four past the current read.
    pub step_priorities: [i32; 4],
    /// Priority of the rest of the window.
    pub window_edge_priority: i32,
    /// Priority past the window.
    pub rest_priority: i32,
}

/// The optional values of the `[piece_priority]` section of the configuration.
#[derive(Debug, Clone, Copy)]
pub struct PiecePriorityToml {
    pub access_window_mb: Option<u32>,
    pub current_priority: Option<i32>,
    pub step_priorities: Option<[i32; 4]>,
    pub window_edge_priority: Option<i32>,
    pub rest_priority: Option<i32>,
    /// Accepted and ignored: nothing is ever prefetched behind a read.
    pub backward_priority: Option<i32>,
}

impl Default for PiecePriorityToml {
    fn default() -> (d: Self)
        ensures
            d.access_window_mb is None,
            d.current_priority is None,
            d.step_priorities is None,
            d.window_edge_priority is None,
            d.rest_priority is None,
            d.backward_priority is None,
    {
        PiecePriorityToml {
            access_window_mb: None,
            current_priority: None,
            step_priorities: None,
            window_edge_priority: None,
            rest_priority: None,
            backward_priority: None,
        }
    }
}

impl Default for PiecePriorityConfig {
    fn default() -> (d: Self)
        ensures
            d.access_window_mb == 4096,
            d.current_priority == 7,
            d.step_priorities@ == seq![6i32, 5i32, 4i32, 3i32],
            d.window_edge_priority == 1,
            d.rest_priority == 0,
    {
        let d = PiecePriorityConfig {
            access_window_mb: 4096,
            current_priority: 7,
            step_priorities: [6, 5, 4, 3],
            window_edge_priority: 1,
            rest_priority: 0,
        };
        assert(d.step_priorities@ =~= seq![6i32, 5i32, 4i32, 3i32]);
        d
    }
}

/// The value of an option, or a default.
pub open spec fn or_else<T>(value: Option<T>, default: T) -> T {
    match value {
        Some(v) => v,
        None => default,
    }
}

impl PiecePriorityConfig {
    /// The configuration with every value that the user did not give at its
    /// default.
    pub fn from_toml(toml: &PiecePriorityToml) -> (c: Self)
        ensures
            c.access_window_mb == or_else(toml.access_window_mb, 4096u32),
            c.current_priority == or_else(toml.current_priority, 7i32),
            c.step_priorities@ == (match toml.step_priorities {
                Some(s) => s@,
                None => seq![6i32, 5i32, 4i32, 3i32],
            }),
            c.window_edge_priority == or_else(toml.window_edge_priority, 1i32),
            c.rest_priority == or_else(toml.rest_priority, 0i32),
    {
        let d = PiecePriorityConfig::default();
        PiecePriorityConfig {
            access_window_mb: match toml.access_window_mb {
                Some(v) => v,
                None => d.access_window_mb,
            },
            current_priority: match toml.current_priority {
                Some(v) => v,
                None => d.current_priority,
            },
            step_priorities: match toml.step_priorities {
                Some(v) => v,
                None => d.step_priorities,
            },
            window_edge_priority: match toml.window_edge_priority {
                Some(v) => v,
                None => d.window_edge_priority,
            },
            rest_priority: match toml.rest_priority {
                Some(v) => v,
                None => d.rest_priority,
            },
        }
    }
}

/// What `.stats` shows of one piece.
#[derive(Debug, Clone, Copy, PartialEq, Eq, Structural)]
pub struct PieceStatus {
    /// Current priority; zero means not wanted.
    pub priority: i32,
    /// Whether the piece is in the disk cache.
    pub is_cached: bool,
    /// How often the cached piece was read.
    pub hit_count: u64,
}

/// Identity of an active reader.
#[derive(Debug, Clone, Copy, PartialEq, Eq, Structural)]
pub struct ReadId(pub u64);

/// An active reader: its identity and the gradient that it asks for.
#[derive(Debug, Clone)]
pub struct ReadRange {
    pub id: ReadId,
    pub gradient: Vec<i32>,
}

/// One write to a torrent's handle.
#[derive(Debug, Clone, Copy, PartialEq, Eq, Structural)]
pub enum PriorityWrite {
    /// Set the priority of one piece.
    One { piece: i32, priority: i32 },
    /// Set the priority of every piece.
    All { priority: i32 },
}

/// What the scheduler reads of a torrent's metadata.
#[derive(Debug, Clone)]
pub struct TorrentLayout {
    /// The raw info hash.
    pub info_hash: Vec<u8>,
    /// Bytes in a piece.
    pub piece_length: u64,
    /// Pieces in the torrent.
    pub num_pieces: i32,
    /// Bytes in the torrent.
    pub total_size: u64,
    /// Bytes in each file, when the file list could be read.
    pub file_sizes: Option<Vec<u64>>,
}

/// Where a file lies within its torrent.
#[derive(Debug, Clone, Copy, PartialEq, Eq, Structural)]
pub struct FilePieceInfo {
    /// Offset of the file's first byte within the torrent.
    pub file_offset: u64,
    /// Piece that holds the file's first byte.
    pub first_piece: i32,
    /// Number of pieces that hold bytes of the file.
    pub num_pieces: i32,
}

impl TorrentLayout {
    /// The size of a file, or a default when the layout does not tell it.
    pub open spec fn size_of_file(self, file_index: int, default: u64) -> u64 {
        match self.file_sizes {
            Some(sizes) => if 0 <= file_index < sizes@.len() {
                sizes@[file_index]
            } else {
                default
            },
            None => default,
        }
    }

    /// The size of a file, or `default` when the file list could not be read
    /// or does not hold the file.
    pub fn file_size_or(&self, file_index: i32, default: u64) -> (size: u64)
        ensures
            size == self.size_of_file(file_index as int, default),
    {
        match &self.file_sizes {
            Some(sizes) => {
                if file_index >= 0 && (file_index as usize) < sizes.len() {
                    sizes[file_index as usize]
                } else {
                    default
                }
            },
            None => default,
        }
    }
}

// ── The gradient of one read ────────────────────────────────────────────────

/// Bytes that prefetch may fill: the access window, but never more than the
/// cache holds beside the piece that is being served.
pub open spec fn window_bytes(access_window_mb: u32, cache_capacity: u64, piece_length: u64) -> int {
    let window = access_window_mb * 1048576;
    let room = if cache_capacity >= piece_length {
        cache_capacity - piece_length
    } else {
        0
    };
    if window <= room {
        window
    } else {
        room
    }
}

/// Read-ahead window in whole pieces, rounded down.
pub fn effective_window_pieces(
    access_window_mb: u32,
    cache_capacity_bytes: u64,
    piece_length: u64,
) -> (pieces: i32)
    requires
        piece_length > 0,
    ensures
        pieces == (window_bytes(access_window_mb, cache_capacity_bytes, piece_length)
            / piece_length as int) as i32,
{
    let window: u64 = access_window_mb as u64 * 1048576;
    let room: u64 = cache_capacity_bytes.saturating_sub(piece_length);
    let bytes: u64 = if window <= room {
        window
    } else {
        room
    };
    (bytes / piece_length) as i32
}

/// The priority that a read of the pieces `start..=end` gives to piece `p`.
pub open spec fn priority_at(config: PiecePriorityConfig, p: int, start: int, end: int, window: int) -> i32 {
    if p < start {
        0
    } else if p <= end {
        config.current_priority
    } else if p - end > window {
        config.rest_priority
    } else if p - end <= STEP_COUNT {
        config.step_priorities@[p - end - 1]
    } else {
        config.window_edge_priority
    }
}

/// Priority of one piece: nothing behind the read, the current priority within
/// it, then the step ladder and the edge priority up to the end of the window.
pub fn decide_priority(
    config: &PiecePriorityConfig,
    p: i32,
    p_cur_start: i32,
    p_cur_end: i32,
    window_pieces: i32,
) -> (priority: i32)
    requires
        p >= p_cur_start && p > p_cur_end ==> p - p_cur_end <= i32::MAX,
    ensures
        priority == priority_at(
            *config,
            p as int,
            p_cur_start as int,
            p_cur_end as int,
            window_pieces as int,
        ),
{
    if p < p_cur_start {
        0
    } else if p <= p_cur_end {
        config.current_priority
    } else {
        let dist: i32 = p - p_cur_end;
        if dist > window_pieces {
            config.rest_priority
        } else {
            let idx: usize = (dist - 1) as usize;
            if idx < STEP_COUNT {
                config.step_priorities[idx]
            } else {
                config.window_edge_priority
            }
        }
    }
}

/// Number of bytes of a read that lie within the file.
pub open spec fn clamped_len(size: u32, start: int, file_end: int) -> int {
    if size <= file_end - start {
        size as int
    } else {
        file_end - start
    }
}

/// Last piece of a read of `len` bytes at `start`.
pub open spec fn last_piece_of(start: int, len: int, piece_length: u64) -> int {
    if len > 0 {
        (start + len - 1) / piece_length as int
    } else {
        start / piece_length as int
    }
}

/// The gradient of one read, over all the pieces of the torrent; nothing when
/// the torrent has no pieces, the file is unknown or the read starts past its
/// end.
pub open spec fn read_gradient(
    config: PiecePriorityConfig,
    cache_capacity: u64,
    layout: TorrentLayout,
    piece_info: Option<FilePieceInfo>,
    file_index: i32,
    offset: u64,
    size: u32,
) -> Option<Seq<i32>> {
    if layout.num_pieces <= 0 || layout.piece_length == 0 {
        None
    } else {
        match piece_info {
            None => None,
            Some(info) => {
                let first = info.first_piece as int;
                let last = info.first_piece + info.num_pieces - 1;
                let start = info.file_offset + offset;
                let file_end = info.file_offset + layout.size_of_file(file_index as int, 0);
                if first >= layout.num_pieces || last < 0 || layout.file_sizes is None || start
                    >= file_end {
                    None
                } else {
                    let from = start / layout.piece_length as int;
                    let to = last_piece_of(start, clamped_len(size, start, file_end), layout.piece_length);
                    let window = (window_bytes(
                        config.access_window_mb,
                        cache_capacity,
                        layout.piece_length,
                    ) / layout.piece_length as int) as i32;
                    Some(
                        Seq::new(
                            layout.num_pieces as nat,
                            |p: int|
                                if first <= p <= last {
                                    priority_at(config, p, from, to, window as int)
                                } else {
                                    0i32
                                },
                        ),
                    )
                }
            },
        }
    }
}

/// The offsets and piece indices of a read stay within their integer types.
pub open spec fn read_in_range(
    layout: TorrentLayout,
    piece_info: Option<FilePieceInfo>,
    file_index: i32,
    offset: u64,
    size: u32,
) -> bool {
    layout.num_pieces > 0 && layout.piece_length > 0 ==> (match piece_info {
        None => true,
        Some(info) => {
            let start = info.file_offset + offset;
            let file_end = info.file_offset + layout.size_of_file(file_index as int, 0);
            &&& i32::MIN < info.first_piece + info.num_pieces <= i32::MAX
            &&& start <= u64::MAX
            &&& file_end <= u64::MAX
            &&& start < file_end ==> last_piece_of(
                start,
                clamped_len(size, start, file_end),
                layout.piece_length,
            ) <= i32::MAX
        },
    })
}

/// Whether the offsets and piece indices of a read stay within their integer
/// types; see [`read_in_range`].
pub fn read_fits(
    layout: &TorrentLayout,
    piece_info: Option<FilePieceInfo>,
    file_index: i32,
    offset: u64,
    size: u32,
) -> (fits: bool)
    ensures
        fits == read_in_range(*layout, piece_info, file_index, offset, size),
{
    if layout.num_pieces <= 0 || layout.piece_length == 0 {
        return true;
    }
    let info: FilePieceInfo = match piece_info {
        Some(info) => info,
        None => {
            return true;
        },
    };
    let past_last: i64 = info.first_piece as i64 + info.num_pieces as i64;
    if past_last <= i32::MIN as i64 || past_last > i32::MAX as i64 {
        return false;
    }
    match (
        info.file_offset.checked_add(offset),
        info.file_offset.checked_add(layout.file_size_or(file_index, 0)),
    ) {
        (Some(start), Some(file_end)) => {
            if start >= file_end {
                return true;
            }
            let left: u64 = file_end - start;
            let len: u64 = if size as u64 <= left {
                size as u64
            } else {
                left
            };
            let last: u64 = if len > 0 {
                (start + len - 1) / layout.piece_length
            } else {
                start / layout.piece_length
            };
            last <= i32::MAX as u64
        },
        _ => false,
    }
}

/// The gradient of one read; see [`read_gradient`].
pub fn gradient_for(
    config: &PiecePriorityConfig,
    cache_capacity_bytes: u64,
    layout: &TorrentLayout,
    piece_info: Option<FilePieceInfo>,
    file_index: i32,
    offset: u64,
    size: u32,
) -> (gradient: Option<Vec<i32>>)
    requires
        read_in_range(*layout, piece_info, file_index, offset, size),
    ensures
        (match gradient {
            Some(g) => Some(g@),
            None => None,
        }) == read_gradient(
            *config,
            cache_capacity_bytes,
            *layout,
            piece_info,
            file_index,
            offset,
            size,
        ),
{
    let piece_length: u64 = layout.piece_length;
    let num_pieces: i32 = layout.num_pieces;
    if num_pieces <= 0 || piece_length == 0 {
        return None;
    }
    let info: FilePieceInfo = match piece_info {
        Some(info) => info,
        None => {
            return None;
        },
    };
    let file_offset: u64 = info.file_offset;
    let p_file_start: i32 = info.first_piece;
    let p_file_end: i32 = p_file_start + info.num_pieces - 1;
    if p_file_start >= num_pieces || p_file_end < 0 {
        return None;
    }
    if layout.file_sizes.is_none() {
        return None;
    }
    let absolute_offset: u64 = file_offset + offset;
    let file_abs_end: u64 = file_offset + layout.file_size_or(file_index, 0);
    if absolute_offset >= file_abs_end {
        return None;
    }
    let left: u64 = file_abs_end - absolute_offset;
    let clamped_size: u64 = if size as u64 <= left {
        size as u64
    } else {
        left
    };
    proof {
        lemma_quotients_ordered(absolute_offset as int, clamped_size as int, piece_length);
    }
    let p_cur_start: i32 = (absolute_offset / piece_length) as i32;
    let p_cur_end: i32 = if clamped_size > 0 {
        ((absolute_offset + clamped_size - 1) / piece_length) as i32
    } else {
        p_cur_start
    };
    let window_pieces: i32 = effective_window_pieces(
        config.access_window_mb,
        cache_capacity_bytes,
        piece_length,
    );
    let ghost target = read_gradient(
        *config,
        cache_capacity_bytes,
        *layout,
        piece_info,
        file_index,
        offset,
        size,
    )->0;
    let mut gradient: Vec<i32> = Vec::new();
    let mut p: i32 = 0;
    while p < num_pieces
        invariant
            0 <= p <= num_pieces,
            gradient@.len() == p,
            p_cur_end >= 0,
            target.len() == num_pieces,
            forall|i: int|
                0 <= i < num_pieces ==> target[i] == (if p_file_start <= i <= p_file_end {
                    priority_at(
                        *config,
                        i,
                        p_cur_start as int,
                        p_cur_end as int,
                        window_pieces as int,
                    )
                } else {
                    0i32
                }),
            forall|i: int| 0 <= i < p ==> gradient@[i] == target[i],
        decreases num_pieces - p,
    {
        if p_file_start <= p && p <= p_file_end {
            gradient.push(decide_priority(config, p, p_cur_start, p_cur_end, window_pieces));
        } else {
            gradient.push(0);
        }
        p = p + 1;
    }
    assert(gradient@ =~= target);
    Some(gradient)
}

/// The first and last piece of a read, as quotients.
proof fn lemma_quotients_ordered(start: int, len: int, piece_length: u64)
    requires
        0 <= start,
        0 <= len,
        piece_length > 0,
    ensures
        0 <= start / piece_length as int <= last_piece_of(start, len, piece_length),
{
    vstd::arithmetic::div_mod::lemma_div_pos_is_pos(start, piece_length as int);
    if len > 0 {
        vstd::arithmetic::div_mod::lemma_div_is_ordered(start, start + len - 1, piece_length as int);
    }
}

// ── The scheduler's state, as mathematics ───────────────────────────────────

/// An active reader.
#[verifier::ext_equal]
pub struct Reader {
    pub id: u64,
    pub gradient: Seq<i32>,
}

impl View for ReadRange {
    type V = Reader;

    open spec fn view(&self) -> Reader {
        Reader { id: self.id.0, gradient: self.gradient@ }
    }
}

/// Everything the scheduler knows: of each torrent by its info hash, and how it
/// was set up.
#[verifier::ext_equal]
pub struct SchedulerState {
    /// Priority of every piece of every tracked torrent.
    pub elevated: Map<Seq<char>, Seq<i32>>,
    /// Piece length of every tracked torrent.
    pub piece_lengths: Map<Seq<char>, i64>,
    /// Active readers, oldest first.
    pub readers: Map<Seq<char>, Seq<Reader>>,
    /// The gradient that outlives the last reader.
    pub prefetch: Map<Seq<char>, Seq<i32>>,
    /// Torrents whose handle may disagree with `elevated`.
    pub dirty: Set<Seq<char>>,
    /// The next reader's identity.
    pub next_read_id: int,
    /// Priority configuration.
    pub config: PiecePriorityConfig,
    /// Bytes that the piece cache holds.
    pub cache_capacity: u64,
}

/// The larger of two priorities.
pub open spec fn higher(a: i32, b: i32) -> i32 {
    if b > a {
        b
    } else {
        a
    }
}

/// The highest priority that any reader asks for at piece `i`, at least zero.
pub open spec fn wanted_at(readers: Seq<Reader>, i: int) -> i32
    decreases readers.len(),
{
    if readers.len() == 0 {
        0
    } else {
        let rest = wanted_at(readers.drop_last(), i);
        let g = readers.last().gradient;
        if i < g.len() {
            higher(rest, g[i])
        } else {
            rest
        }
    }
}

/// The priorities that a torrent should have: the highest over its readers, or
/// the retained window when it has none, or nothing when nothing is wanted.
pub open spec fn target_of(readers: Seq<Reader>, prefetch: Option<Seq<i32>>, num_pieces: nat) -> Option<
    Seq<i32>,
> {
    if readers.len() > 0 {
        Some(Seq::new(num_pieces, |i: int| wanted_at(readers, i)))
    } else {
        match prefetch {
            Some(window) => Some(
                Seq::new(
                    num_pieces,
                    |i: int|
                        if i < window.len() {
                            higher(0, window[i])
                        } else {
                            0i32
                        },
                ),
            ),
            None => None,
        }
    }
}

/// Whether a piece is on this machine: the caller's answer, or no when the
/// caller says nothing of it.
pub open spec fn is_local(local: Seq<bool>, p: int) -> bool {
    0 <= p < local.len() && local[p]
}

/// The given priorities with every local piece at zero.
pub open spec fn without_local(priorities: Seq<i32>, local: Seq<bool>) -> Seq<i32> {
    Seq::new(
        priorities.len(),
        |p: int|
            if is_local(local, p) {
                0i32
            } else {
                priorities[p]
            },
    )
}

/// The writes that take the first `n` pieces from one priority vector to
/// another: the pieces that differ, or all of them.
pub open spec fn writes_between(before: Seq<i32>, after: Seq<i32>, all: bool, n: nat) -> Seq<
    PriorityWrite,
>
    decreases n,
{
    if n == 0 {
        Seq::empty()
    } else {
        let p = n - 1;
        let rest = writes_between(before, after, all, p as nat);
        if all || before[p] != after[p] {
            rest.push(PriorityWrite::One { piece: p as i32, priority: after[p] })
        } else {
            rest
        }
    }
}

/// The priorities of a handle after one write.
pub open spec fn write_applied(handle: Seq<i32>, w: PriorityWrite) -> Seq<i32> {
    match w {
        PriorityWrite::One { piece, priority } => handle.update(piece as int, priority),
        PriorityWrite::All { priority } => Seq::new(handle.len(), |i: int| priority),
    }
}

/// The priorities of a handle after a list of writes.
pub open spec fn writes_applied(handle: Seq<i32>, writes: Seq<PriorityWrite>) -> Seq<i32>
    decreases writes.len(),
{
    if writes.len() == 0 {
        handle
    } else {
        write_applied(writes_applied(handle, writes.drop_last()), writes.last())
    }
}

/// Position of the reader with the given identity, or the number of readers.
pub open spec fn position_of(readers: Seq<Reader>, id: u64) -> int
    decreases readers.len(),
{
    if readers.len() == 0 {
        0
    } else if readers[0].id == id {
        0
    } else {
        1 + position_of(readers.drop_first(), id)
    }
}

/// Whether every priority is zero.
pub open spec fn all_zero(priorities: Seq<i32>) -> bool {
    forall|i: int| 0 <= i < priorities.len() ==> priorities[i] == 0
}

/// The priorities with one piece at zero; unchanged when there is no such piece.
pub open spec fn piece_cleared(priorities: Seq<i32>, piece: int) -> Seq<i32> {
    if 0 <= piece < priorities.len() {
        priorities.update(piece, 0)
    } else {
        priorities
    }
}

impl SchedulerState {
    /// The readers of a torrent, none when it has never had one.
    pub open spec fn readers_of(self, hash: Seq<char>) -> Seq<Reader> {
        if self.readers.contains_key(hash) {
            self.readers[hash]
        } else {
            Seq::empty()
        }
    }

    /// The retained window of a torrent.
    pub open spec fn prefetch_of(self, hash: Seq<char>) -> Option<Seq<i32>> {
        if self.prefetch.contains_key(hash) {
            Some(self.prefetch[hash])
        } else {
            None
        }
    }

    /// Every gradient of a tracked torrent fits its priority vector, and only
    /// tracked torrents can be out of step with their handle.
    pub open spec fn wf(self) -> bool {
        &&& self.elevated.dom() == self.piece_lengths.dom()
        &&& forall|h: Seq<char>| #[trigger]
            self.elevated.contains_key(h) ==> self.torrent_wf(h)
        &&& forall|h: Seq<char>| #[trigger]
            self.dirty.contains(h) ==> self.elevated.contains_key(h)
    }

    /// The part of [`Self::wf`] about one tracked torrent.
    pub open spec fn torrent_wf(self, h: Seq<char>) -> bool {
        &&& 0 < self.elevated[h].len() <= i32::MAX
        &&& self.readers_fit(h, self.elevated[h].len())
        &&& self.prefetch.contains_key(h) ==> self.prefetch[h].len() <= self.elevated[h].len()
    }

    /// No reader of the torrent asks for a piece past `n`.
    pub open spec fn readers_fit(self, h: Seq<char>, n: nat) -> bool {
        forall|i: int|
            0 <= i < self.readers_of(h).len() ==> (#[trigger] self.readers_of(h)[i]).gradient.len()
                <= n
    }

    /// Reader identities are below the next one and differ from one another,
    /// so an identity is never handed out twice.
    pub open spec fn ids_unique(self) -> bool {
        forall|h: Seq<char>, i: int|
            #![trigger self.readers_of(h)[i]]
            0 <= i < self.readers_of(h).len() ==> {
                &&& self.readers_of(h)[i].id < self.next_read_id
                &&& forall|k: Seq<char>, j: int|
                    #![trigger self.readers_of(k)[j]]
                    0 <= j < self.readers_of(k).len() && self.readers_of(k)[j].id
                        == self.readers_of(h)[i].id ==> h == k && i == j
            }
    }

    /// The priorities that the torrent should have.
    pub open spec fn target(self, h: Seq<char>) -> Option<Seq<i32>> {
        target_of(self.readers_of(h), self.prefetch_of(h), self.elevated[h].len())
    }

    /// The priorities after a recomputation.
    pub open spec fn recomputed_priorities(self, h: Seq<char>, local: Seq<bool>) -> Seq<i32> {
        match self.target(h) {
            Some(t) => without_local(t, local),
            None => Seq::new(self.elevated[h].len(), |i: int| DEFAULT_PRIORITY),
        }
    }

    /// The state after a recomputation.
    pub open spec fn recomputed(self, h: Seq<char>, local: Seq<bool>) -> SchedulerState {
        if self.elevated.contains_key(h) {
            SchedulerState {
                elevated: self.elevated.insert(h, self.recomputed_priorities(h, local)),
                dirty: self.dirty.remove(h),
                ..self
            }
        } else {
            self
        }
    }

    /// The writes of a recomputation: the pieces whose priority changes, every
    /// piece when the handle is out of step, one bulk write when nothing is
    /// wanted, none for a torrent that is not tracked.
    pub open spec fn recompute_writes(self, h: Seq<char>, local: Seq<bool>) -> Seq<PriorityWrite> {
        if !self.elevated.contains_key(h) {
            Seq::empty()
        } else if self.target(h) is None {
            seq![PriorityWrite::All { priority: DEFAULT_PRIORITY }]
        } else {
            writes_between(
                self.elevated[h],
                self.recomputed_priorities(h, local),
                self.dirty.contains(h),
                self.elevated[h].len(),
            )
        }
    }

    /// The state with a torrent tracked anew.
    pub open spec fn tracking(self, h: Seq<char>, num_pieces: i32, piece_length: i64) -> SchedulerState {
        if num_pieces <= 0 {
            self
        } else {
            SchedulerState {
                elevated: self.elevated.insert(
                    h,
                    Seq::new(num_pieces as nat, |i: int| DEFAULT_PRIORITY),
                ),
                piece_lengths: self.piece_lengths.insert(h, piece_length),
                prefetch: self.prefetch.remove(h),
                dirty: self.dirty.remove(h),
                ..self
            }
        }
    }

    /// The state with a new reader, which has no gradient when its range cannot
    /// be read.
    pub open spec fn with_reader(self, h: Seq<char>, gradient: Option<Seq<i32>>) -> SchedulerState {
        match gradient {
            Some(g) => SchedulerState {
                readers: self.readers.insert(
                    h,
                    self.readers_of(h).push(Reader { id: self.next_read_id as u64, gradient: g }),
                ),
                next_read_id: self.next_read_id + 1,
                ..self
            },
            None => SchedulerState { next_read_id: self.next_read_id + 1, ..self },
        }
    }

    /// The state without one reader. The last reader leaves the pieces that it
    /// still misses behind as the retained window.
    pub open spec fn without_reader(self, h: Seq<char>, id: u64, local: Seq<bool>) -> SchedulerState {
        let readers = self.readers_of(h);
        let pos = position_of(readers, id);
        if pos == readers.len() {
            self
        } else {
            let left = readers.remove(pos);
            let window = without_local(readers[pos].gradient, local);
            SchedulerState {
                readers: self.readers.insert(h, left),
                prefetch: if left.len() > 0 {
                    self.prefetch
                } else if all_zero(window) {
                    self.prefetch.remove(h)
                } else {
                    self.prefetch.insert(h, window)
                },
                ..self
            }
        }
    }

    /// The state after a piece became ready.
    pub open spec fn with_piece_ready(self, h: Seq<char>, piece: int) -> SchedulerState {
        SchedulerState {
            elevated: if self.elevated.contains_key(h) {
                self.elevated.insert(h, piece_cleared(self.elevated[h], piece))
            } else {
                self.elevated
            },
            prefetch: if !self.prefetch.contains_key(h) {
                self.prefetch
            } else if all_zero(piece_cleared(self.prefetch[h], piece)) {
                self.prefetch.remove(h)
            } else {
                self.prefetch.insert(h, piece_cleared(self.prefetch[h], piece))
            },
            ..self
        }
    }

    /// The state without a torrent.
    pub open spec fn without_torrent(self, h: Seq<char>) -> SchedulerState {
        SchedulerState {
            elevated: self.elevated.remove(h),
            piece_lengths: self.piece_lengths.remove(h),
            readers: self.readers.remove(h),
            prefetch: self.prefetch.remove(h),
            dirty: self.dirty.remove(h),
            ..self
        }
    }
}

// ── The scheduler ───────────────────────────────────────────────────────────

/// Manages the piece priorities of all active torrents.
pub struct PieceScheduler {
    /// Priority vector of every tracked torrent.
    pub elevated: StringHashMap<Vec<i32>>,
    /// Piece length of every tracked torrent.
    pub piece_lengths: StringHashMap<i64>,
    /// Priority configuration.
    pub config: PiecePriorityConfig,
    /// Active readers. A read that waits for the swarm keeps its reader, so a
    /// torrent can have several; a release therefore names the reader.
    pub readers: StringHashMap<Vec<ReadRange>>,
    /// Identity of the next reader. It only grows.
    pub next_read_id: u64,
    /// The window that the last reader left behind.
    pub prefetch: StringHashMap<Vec<i32>>,
    /// Torrents whose handle was reset behind the scheduler's back.
    pub dirty: StringHashSet,
    /// Bytes that the piece cache holds.
    pub cache_capacity_bytes: u64,
}

impl View for PieceScheduler {
    type V = SchedulerState;

    open spec fn view(&self) -> SchedulerState {
        SchedulerState {
            elevated: Map::new(
                |h: Seq<char>| self.elevated@.contains_key(h),
                |h: Seq<char>| self.elevated@[h]@,
            ),
            piece_lengths: self.piece_lengths@,
            readers: Map::new(
                |h: Seq<char>| self.readers@.contains_key(h),
                |h: Seq<char>| readers_view(self.readers@[h]@),
            ),
            prefetch: Map::new(
                |h: Seq<char>| self.prefetch@.contains_key(h),
                |h: Seq<char>| self.prefetch@[h]@,
            ),
            dirty: self.dirty@,
            next_read_id: self.next_read_id as int,
            config: self.config,
            cache_capacity: self.cache_capacity_bytes,
        }
    }
}

/// The readers of a list of ranges.
pub open spec fn readers_view(ranges: Seq<ReadRange>) -> Seq<Reader> {
    ranges.map_values(|r: ReadRange| r@)
}

/// A copy of a priority vector.
fn copy_priorities(v: &[i32]) -> (copy: Vec<i32>)
    ensures
        copy@ == v@,
{
    let mut copy: Vec<i32> = Vec::new();
    let mut i: usize = 0;
    while i < v.len()
        invariant
            i <= v@.len(),
            copy@ == v@.take(i as int),
        decreases v@.len() - i,
    {
        copy.push(v[i]);
        assert(v@.take(i as int + 1) =~= v@.take(i as int).push(v@[i as int]));
        i = i + 1;
    }
    assert(v@.take(v@.len() as int) =~= v@);
    copy
}

/// A copy of the readers, leaving out the one at position `skip` if there is
/// one.
fn copy_readers(ranges: &Vec<ReadRange>, skip: usize) -> (copy: Vec<ReadRange>)
    ensures
        readers_view(copy@) == (if skip < ranges@.len() {
            readers_view(ranges@).remove(skip as int)
        } else {
            readers_view(ranges@)
        }),
{
    let mut copy: Vec<ReadRange> = Vec::new();
    let mut i: usize = 0;
    while i < ranges.len()
        invariant
            i <= ranges@.len(),
            readers_view(copy@) == (if skip < i {
                readers_view(ranges@.take(i as int)).remove(skip as int)
            } else {
                readers_view(ranges@.take(i as int))
            }),
        decreases ranges@.len() - i,
    {
        assert(ranges@.take(i as int + 1) =~= ranges@.take(i as int).push(ranges@[i as int]));
        if i != skip {
            let r: ReadRange = ReadRange {
                id: ranges[i].id,
                gradient: copy_priorities(ranges[i].gradient.as_slice()),
            };
            let ghost before = copy@;
            copy.push(r);
            assert(readers_view(copy@) =~= readers_view(before).push(ranges@[i as int]@));
            assert(readers_view(ranges@.take(i as int + 1)) =~= readers_view(
                ranges@.take(i as int),
            ).push(ranges@[i as int]@));
            if skip < i {
                assert(readers_view(ranges@.take(i as int + 1)).remove(skip as int)
                    =~= readers_view(ranges@.take(i as int)).remove(skip as int).push(
                    ranges@[i as int]@,
                ));
            }
        } else {
            assert(readers_view(ranges@.take(i as int + 1)).remove(skip as int)
                =~= readers_view(ranges@.take(i as int)));
        }
        i = i + 1;
    }
    assert(ranges@.take(ranges@.len() as int) =~= ranges@);
    copy
}

/// A priority vector of zeros.
fn idle_priorities(n: usize) -> (v: Vec<i32>)
    ensures
        v@ == Seq::new(n as nat, |i: int| DEFAULT_PRIORITY),
{
    let mut v: Vec<i32> = Vec::new();
    let mut i: usize = 0;
    while i < n
        invariant
            i <= n,
            v@ == Seq::new(i as nat, |j: int| DEFAULT_PRIORITY),
        decreases n - i,
    {
        v.push(DEFAULT_PRIORITY);
        i = i + 1;
        assert(v@ =~= Seq::new(i as nat, |j: int| DEFAULT_PRIORITY));
    }
    v
}

/// Raises every priority to at least that of the gradient.
fn raise(target: &mut Vec<i32>, gradient: &[i32])
    requires
        gradient@.len() <= old(target)@.len(),
    ensures
        final(target)@.len() == old(target)@.len(),
        forall|i: int|
            0 <= i < old(target)@.len() ==> #[trigger] final(target)@[i] == (if i
                < gradient@.len() {
                higher(old(target)@[i], gradient@[i])
            } else {
                old(target)@[i]
            }),
{
    let ghost before = target@;
    let mut i: usize = 0;
    while i < gradient.len()
        invariant
            i <= gradient@.len() <= before.len(),
            target@.len() == before.len(),
            forall|j: int|
                0 <= j < before.len() ==> #[trigger] target@[j] == (if j < i {
                    higher(before[j], gradient@[j])
                } else {
                    before[j]
                }),
        decreases gradient@.len() - i,
    {
        if gradient[i] > target[i] {
            target.set(i, gradient[i]);
        }
        i = i + 1;
    }
}

/// The priorities that a torrent should have: the element-wise maximum over the
/// active readers, the retained window when there are none, and nothing when
/// nothing is wanted.
pub fn resolve_target(readers: &[ReadRange], prefetch: Option<&[i32]>, num_pieces: usize) -> (target:
    Option<Vec<i32>>)
    requires
        forall|i: int|
            0 <= i < readers@.len() ==> (#[trigger] readers@[i]).gradient@.len() <= num_pieces,
        prefetch matches Some(window) ==> window@.len() <= num_pieces,
    ensures
        (match target {
            Some(t) => Some(t@),
            None => None,
        }) == target_of(
            readers_view(readers@),
            match prefetch {
                Some(window) => Some(window@),
                None => None,
            },
            num_pieces as nat,
        ),
{
    let mut target: Vec<i32> = idle_priorities(num_pieces);
    let mut k: usize = 0;
    while k < readers.len()
        invariant
            k <= readers@.len(),
            target@.len() == num_pieces,
            forall|i: int|
                0 <= i < readers@.len() ==> (#[trigger] readers@[i]).gradient@.len() <= num_pieces,
            forall|i: int|
                0 <= i < num_pieces ==> #[trigger] target@[i] == wanted_at(
                    readers_view(readers@.take(k as int)),
                    i,
                ),
        decreases readers@.len() - k,
    {
        let ghost before = target@;
        raise(&mut target, readers[k].gradient.as_slice());
        proof {
            let next = readers_view(readers@.take(k as int + 1));
            assert(next.drop_last() =~= readers_view(readers@.take(k as int)));
            assert(next.last() == readers@[k as int]@);
            assert forall|i: int| 0 <= i < num_pieces implies #[trigger] target@[i] == wanted_at(
                next,
                i,
            ) by {
                assert(before[i] == wanted_at(next.drop_last(), i));
            }
        }
        k = k + 1;
    }
    assert(readers@.take(readers@.len() as int) =~= readers@);
    if readers.len() > 0 {
        proof {
            let all = readers_view(readers@);
            assert(target@ =~= Seq::new(num_pieces as nat, |i: int| wanted_at(all, i)));
        }
        return Some(target);
    }
    match prefetch {
        Some(window) => {
            let ghost before = target@;
            raise(&mut target, window);
            assert(target@ =~= Seq::new(
                num_pieces as nat,
                |i: int|
                    if i < window@.len() {
                        higher(0, window@[i])
                    } else {
                        0i32
                    },
            ));
            Some(target)
        },
        None => None,
    }
}

/// Sets a ready piece to zero in a retained window and tells whether nothing
/// of the window is left. An index outside the window changes nothing.
pub fn clear_ready_piece(pref: &mut Vec<i32>, piece_index: i32) -> (satisfied: bool)
    ensures
        final(pref)@ == piece_cleared(old(pref)@, piece_index as int),
        satisfied == all_zero(final(pref)@),
{
    if piece_index >= 0 && (piece_index as usize) < pref.len() {
        pref.set(piece_index as usize, 0);
    }
    is_all_zero(pref.as_slice())
}

/// Whether every priority is zero.
fn is_all_zero(priorities: &[i32]) -> (yes: bool)
    ensures
        yes == all_zero(priorities@),
{
    let mut i: usize = 0;
    while i < priorities.len()
        invariant
            i <= priorities@.len(),
            forall|j: int| 0 <= j < i ==> priorities@[j] == 0,
        decreases priorities@.len() - i,
    {
        if priorities[i] != 0 {
            return false;
        }
        i = i + 1;
    }
    true
}

/// Whether the caller says that a piece is on this machine.
fn piece_is_local(local: &Vec<bool>, p: usize) -> (yes: bool)
    ensures
        yes == is_local(local@, p as int),
{
    p < local.len() && local[p]
}

/// The priorities with every local piece at zero.
fn drop_local(priorities: &Vec<i32>, local: &Vec<bool>) -> (out: Vec<i32>)
    ensures
        out@ == without_local(priorities@, local@),
{
    let mut out: Vec<i32> = Vec::new();
    let mut p: usize = 0;
    while p < priorities.len()
        invariant
            p <= priorities@.len(),
            out@.len() == p,
            forall|i: int|
                0 <= i < p ==> #[trigger] out@[i] == without_local(priorities@, local@)[i],
        decreases priorities@.len() - p,
    {
        if piece_is_local(local, p) {
            out.push(0);
        } else {
            out.push(priorities[p]);
        }
        p = p + 1;
    }
    assert(out@ =~= without_local(priorities@, local@));
    out
}

/// The writes that take a handle from one priority vector to another.
fn collect_writes(before: &Vec<i32>, after: &Vec<i32>, all: bool) -> (writes: Vec<PriorityWrite>)
    requires
        before@.len() == after@.len(),
        before@.len() <= i32::MAX,
    ensures
        writes@ == writes_between(before@, after@, all, before@.len()),
{
    let mut writes: Vec<PriorityWrite> = Vec::new();
    let mut p: usize = 0;
    while p < before.len()
        invariant
            p <= before@.len(),
            before@.len() == after@.len(),
            before@.len() <= i32::MAX,
            writes@ == writes_between(before@, after@, all, p as nat),
        decreases before@.len() - p,
    {
        if all || before[p] != after[p] {
            writes.push(PriorityWrite::One { piece: p as i32, priority: after[p] });
        }
        p = p + 1;
    }
    writes
}

/// Position of the reader with the given identity, or the number of readers.
fn find_reader(ranges: &Vec<ReadRange>, id: ReadId) -> (pos: usize)
    ensures
        pos == position_of(readers_view(ranges@), id.0),
        pos <= ranges@.len(),
{
    let mut i: usize = 0;
    assert(ranges@.skip(0) =~= ranges@);
    while i < ranges.len()
        invariant
            i <= ranges@.len(),
            position_of(readers_view(ranges@), id.0) == i + position_of(
                readers_view(ranges@.skip(i as int)),
                id.0,
            ),
        decreases ranges@.len() - i,
    {
        assert(readers_view(ranges@.skip(i as int))[0] == ranges@[i as int]@);
        assert(readers_view(ranges@.skip(i as int)).drop_first() =~= readers_view(
            ranges@.skip(i as int + 1),
        ));
        if ranges[i].id == id {
            return i;
        }
        i = i + 1;
    }
    assert(readers_view(ranges@.skip(i as int)).len() == 0);
    i
}

impl PieceScheduler {
    /// A scheduler that tracks nothing.
    pub fn new(config: PiecePriorityConfig, cache_capacity_bytes: u64) -> (s: Self)
        ensures
            s@ == (SchedulerState {
                elevated: Map::empty(),
                piece_lengths: Map::empty(),
                readers: Map::empty(),
                prefetch: Map::empty(),
                dirty: Set::empty(),
                next_read_id: 0,
                config,
                cache_capacity: cache_capacity_bytes,
            }),
            s@.wf(),
            s@.ids_unique(),
    {
        let s = PieceScheduler {
            elevated: StringHashMap::new(),
            piece_lengths: StringHashMap::new(),
            config,
            readers: StringHashMap::new(),
            next_read_id: 0,
            prefetch: StringHashMap::new(),
            dirty: StringHashSet::new(),
            cache_capacity_bytes,
        };
        assert(s@ =~= (SchedulerState {
            elevated: Map::empty(),
            piece_lengths: Map::empty(),
            readers: Map::empty(),
            prefetch: Map::empty(),
            dirty: Set::empty(),
            next_read_id: 0,
            config,
            cache_capacity: cache_capacity_bytes,
        }));
        s
    }

    /// Starts to track a torrent, with no piece wanted. A torrent without
    /// pieces is not tracked. Readers that it already has stay; the state is in
    /// order afterwards when none of them asks for a piece that the torrent lacks.
    pub fn init_torrent(&mut self, info_hash: &str, num_pieces: i32, piece_length: i64) -> (r: Result<
        (),
        TorrentError,
    >)
        requires
            old(self)@.wf(),
        ensures
            r is Ok,
            final(self)@ == old(self)@.tracking(info_hash@, num_pieces, piece_length),
            num_pieces <= 0 || old(self)@.readers_fit(info_hash@, num_pieces as nat)
                ==> final(self)@.wf(),
    {
        if num_pieces <= 0 {
            return Ok(());
        }
        let ghost before = self@;
        let fresh: Vec<i32> = idle_priorities(num_pieces as usize);
        self.elevated.insert(info_hash.to_owned(), fresh);
        self.piece_lengths.insert(info_hash.to_owned(), piece_length);
        self.prefetch.remove(info_hash);
        self.dirty.remove(info_hash);
        proof {
            assert(self@ =~= before.tracking(info_hash@, num_pieces, piece_length));
            assert(self@.readers == before.readers);
            if before.readers_fit(info_hash@, num_pieces as nat) {
                assert forall|h: Seq<char>| #[trigger] self@.elevated.contains_key(h) implies
                    self@.torrent_wf(h) by {
                    assert(self@.readers_of(h) == before.readers_of(h));
                    if h != info_hash@ {
                        assert(before.torrent_wf(h));
                    }
                }
            }
            assert(self@.elevated.dom() =~= self@.piece_lengths.dom());
        }
        Ok(())
    }

    /// Recomputes the priorities of a torrent and returns the writes that bring
    /// its handle in line. Pieces on this machine are never wanted.
    pub fn recompute(&mut self, info_hash: &str, local: &Vec<bool>) -> (writes: Vec<PriorityWrite>)
        requires
            old(self)@.wf(),
        ensures
            final(self)@ == old(self)@.recomputed(info_hash@, local@),
            writes@ == old(self)@.recompute_writes(info_hash@, local@),
            final(self)@.wf(),
    {
        let ghost before = self@;
        let current: Vec<i32> = match self.elevated.get(info_hash) {
            Some(v) => copy_priorities(v.as_slice()),
            None => {
                return Vec::new();
            },
        };
        assert(before.torrent_wf(info_hash@));
        let num_pieces: usize = current.len();
        let full_rewrite: bool = self.dirty.contains(info_hash);
        let empty: Vec<ReadRange> = Vec::new();
        let readers: &Vec<ReadRange> = match self.readers.get(info_hash) {
            Some(r) => r,
            None => &empty,
        };
        let prefetch: Option<&[i32]> = match self.prefetch.get(info_hash) {
            Some(p) => Some(p.as_slice()),
            None => None,
        };
        proof {
            assert(readers_view(readers@) =~= before.readers_of(info_hash@));
            assert forall|i: int| 0 <= i < readers@.len() implies (
            #[trigger] readers@[i]).gradient@.len() <= num_pieces by {
                assert(before.readers_of(info_hash@)[i] == readers@[i]@);
            }
        }
        let target: Option<Vec<i32>> = resolve_target(readers.as_slice(), prefetch, num_pieces);
        assert(before.target(info_hash@) == (match target {
            Some(t) => Some(t@),
            None => None,
        }));
        let (next, writes): (Vec<i32>, Vec<PriorityWrite>) = match target {
            Some(t) => {
                let next: Vec<i32> = drop_local(&t, local);
                let writes: Vec<PriorityWrite> = collect_writes(&current, &next, full_rewrite);
                (next, writes)
            },
            None => {
                let mut writes: Vec<PriorityWrite> = Vec::new();
                writes.push(PriorityWrite::All { priority: DEFAULT_PRIORITY });
                (idle_priorities(num_pieces), writes)
            },
        };
        assert(next@ == before.recomputed_priorities(info_hash@, local@));
        self.elevated.insert(info_hash.to_owned(), next);
        self.dirty.remove(info_hash);
        proof {
            assert(self@ =~= before.recomputed(info_hash@, local@));
            lemma_recomputed_wf(before, info_hash@, local@);
            assert(writes@ =~= before.recompute_writes(info_hash@, local@));
        }
        writes
    }

    /// A reader started. Its gradient joins the torrent's wanted pieces under a
    /// fresh identity, which the caller hands back to
    /// [`Self::reader_released`]. A range that cannot be read asks for nothing
    /// and still gets an identity.
    pub fn reader_added(
        &mut self,
        layout: &TorrentLayout,
        piece_info: Option<FilePieceInfo>,
        file_index: i32,
        offset: u64,
        size: u32,
        local: &Vec<bool>,
    ) -> (r: (ReadId, Vec<PriorityWrite>))
        requires
            old(self)@.wf(),
            old(self).next_read_id < u64::MAX,
            read_in_range(*layout, piece_info, file_index, offset, size),
            ({
                let hash = digest::hex_text(layout.info_hash@);
                old(self)@.elevated.contains_key(hash) ==> layout.num_pieces
                    <= old(self)@.elevated[hash].len()
            }),
        ensures
            r.0.0 == old(self).next_read_id,
            ({
                let hash = digest::hex_text(layout.info_hash@);
                let gradient = read_gradient(
                    old(self)@.config,
                    old(self)@.cache_capacity,
                    *layout,
                    piece_info,
                    file_index,
                    offset,
                    size,
                );
                let joined = old(self)@.with_reader(hash, gradient);
                if gradient is Some {
                    &&& final(self)@ == joined.recomputed(hash, local@)
                    &&& r.1@ == joined.recompute_writes(hash, local@)
                } else {
                    &&& final(self)@ == joined
                    &&& r.1@.len() == 0
                }
            }),
            final(self)@.wf(),
            old(self)@.ids_unique() ==> final(self)@.ids_unique(),
    {
        let ghost before = self@;
        let info_hash: String = digest::hex_encode(layout.info_hash.as_slice());
        let ghost hash = info_hash@;
        let id: ReadId = ReadId(self.next_read_id);
        self.next_read_id = self.next_read_id + 1;
        let gradient: Vec<i32> = match gradient_for(
            &self.config,
            self.cache_capacity_bytes,
            layout,
            piece_info,
            file_index,
            offset,
            size,
        ) {
            Some(g) => g,
            None => {
                assert(self@ =~= before.with_reader(hash, None));
                proof {
                    lemma_with_reader_wf(before, hash, None);
                    lemma_with_reader_ids(before, hash, None);
                }
                return (id, Vec::new());
            },
        };
        let ghost g = gradient@;
        let mut ranges: Vec<ReadRange> = match self.readers.get(info_hash.as_str()) {
            Some(r) => copy_readers(r, r.len()),
            None => Vec::new(),
        };
        proof {
            assert(readers_view(ranges@) =~= before.readers_of(hash));
        }
        let ghost was = ranges@;
        ranges.push(ReadRange { id, gradient });
        proof {
            assert(readers_view(ranges@) =~= readers_view(was).push(Reader { id: id.0, gradient: g }));
        }
        self.readers.insert(info_hash.clone(), ranges);
        proof {
            assert(self@ =~= before.with_reader(hash, Some(g)));
            lemma_with_reader_wf(before, hash, Some(g));
            lemma_with_reader_ids(before, hash, Some(g));
            lemma_same_readers_ids(self@, self@.recomputed(hash, local@));
        }
        let writes: Vec<PriorityWrite> = self.recompute(info_hash.as_str(), local);
        (id, writes)
    }

    /// The reader with the given identity finished: exactly that reader leaves.
    /// When it was the last one, the pieces that it still misses stay wanted as
    /// the retained window. An unknown identity changes no reader.
    pub fn reader_released(&mut self, info_hash: &str, id: ReadId, local: &Vec<bool>) -> (writes: Vec<
        PriorityWrite,
    >)
        requires
            old(self)@.wf(),
        ensures
            final(self)@ == old(self)@.without_reader(info_hash@, id.0, local@).recomputed(
                info_hash@,
                local@,
            ),
            writes@ == old(self)@.without_reader(info_hash@, id.0, local@).recompute_writes(
                info_hash@,
                local@,
            ),
            final(self)@.wf(),
            old(self)@.ids_unique() ==> final(self)@.ids_unique(),
    {
        let ghost before = self@;
        let ghost hash = info_hash@;
        let found: Option<(Vec<ReadRange>, Vec<i32>)> = match self.readers.get(info_hash) {
            Some(ranges) => {
                let pos: usize = find_reader(ranges, id);
                assert(readers_view(ranges@) == before.readers_of(hash));
                if pos < ranges.len() {
                    let window: Vec<i32> = drop_local(&ranges[pos].gradient, local);
                    assert(before.readers_of(hash)[pos as int] == ranges@[pos as int]@);
                    Some((copy_readers(ranges, pos), window))
                } else {
                    None
                }
            },
            None => None,
        };
        match found {
            Some((left, window)) => {
                let last: bool = left.len() == 0;
                self.readers.insert(info_hash.to_owned(), left);
                if last {
                    if is_all_zero(window.as_slice()) {
                        self.prefetch.remove(info_hash);
                    } else {
                        self.prefetch.insert(info_hash.to_owned(), window);
                    }
                }
            },
            None => {},
        }
        proof {
            assert(self@ =~= before.without_reader(hash, id.0, local@));
            lemma_without_reader_wf(before, hash, id.0, local@);
            if before.ids_unique() {
                lemma_without_reader_ids(before, hash, id.0, local@);
                lemma_same_readers_ids(self@, self@.recomputed(hash, local@));
            }
        }
        self.recompute(info_hash, local)
    }

    /// A piece finished: it is no longer wanted, and it leaves the retained
    /// window, which goes away with its last piece.
    pub fn piece_ready(&mut self, info_hash: &str, piece_index: i32) -> (writes: Vec<PriorityWrite>)
        requires
            old(self)@.wf(),
        ensures
            final(self)@ == old(self)@.with_piece_ready(info_hash@, piece_index as int),
            writes@ == (if old(self)@.elevated.contains_key(info_hash@) && 0 <= piece_index < old(
                self,
            )@.elevated[info_hash@].len() && old(self)@.elevated[info_hash@][piece_index as int]
                != 0 {
                seq![PriorityWrite::One { piece: piece_index, priority: 0 }]
            } else {
                Seq::empty()
            }),
            final(self)@.wf(),
            old(self)@.ids_unique() ==> final(self)@.ids_unique(),
    {
        let ghost before = self@;
        let ghost hash = info_hash@;
        let mut writes: Vec<PriorityWrite> = Vec::new();
        let priorities: Option<Vec<i32>> = match self.elevated.get(info_hash) {
            Some(v) => Some(copy_priorities(v.as_slice())),
            None => None,
        };
        match priorities {
            Some(mut v) => {
                assert(before.torrent_wf(hash));
                if piece_index >= 0 && (piece_index as usize) < v.len() {
                    if v[piece_index as usize] != 0 {
                        v.set(piece_index as usize, 0);
                        writes.push(PriorityWrite::One { piece: piece_index, priority: 0 });
                    } else {
                        assert(piece_cleared(v@, piece_index as int) =~= v@);
                    }
                }
                self.elevated.insert(info_hash.to_owned(), v);
            },
            None => {},
        }
        let window: Option<Vec<i32>> = match self.prefetch.get(info_hash) {
            Some(v) => Some(copy_priorities(v.as_slice())),
            None => None,
        };
        match window {
            Some(mut v) => {
                if clear_ready_piece(&mut v, piece_index) {
                    self.prefetch.remove(info_hash);
                } else {
                    self.prefetch.insert(info_hash.to_owned(), v);
                }
            },
            None => {},
        }
        proof {
            assert(self@ =~= before.with_piece_ready(hash, piece_index as int));
            lemma_piece_ready_wf(before, hash, piece_index as int);
            lemma_same_readers_ids(before, self@);
        }
        writes
    }

    /// A cached piece was evicted: it becomes wanted again if a reader asks for
    /// it.
    pub fn piece_evicted(&mut self, info_hash: &str, local: &Vec<bool>) -> (r: Result<
        Vec<PriorityWrite>,
        TorrentError,
    >)
        requires
            old(self)@.wf(),
        ensures
            final(self)@ == old(self)@.recomputed(info_hash@, local@),
            r matches Ok(writes) && writes@ == old(self)@.recompute_writes(info_hash@, local@),
            final(self)@.wf(),
    {
        Ok(self.recompute(info_hash, local))
    }

    /// The handle's priorities were reset behind the scheduler's back: the next
    /// recomputation writes every piece once. A torrent that is not tracked has
    /// nothing to rewrite.
    pub fn mark_priorities_dirty(&mut self, info_hash: &str)
        requires
            old(self)@.wf(),
        ensures
            final(self)@ == (if old(self)@.elevated.contains_key(info_hash@) {
                SchedulerState { dirty: old(self)@.dirty.insert(info_hash@), ..old(self)@ }
            } else {
                old(self)@
            }),
            final(self)@.wf(),
            old(self)@.ids_unique() ==> final(self)@.ids_unique(),
    {
        let ghost before = self@;
        if self.elevated.contains_key(info_hash) {
            self.dirty.insert(info_hash.to_owned());
        }
        proof {
            if before.elevated.contains_key(info_hash@) {
                assert(self@ =~= (SchedulerState {
                    dirty: before.dirty.insert(info_hash@),
                    ..before
                }));
            } else {
                assert(self@ =~= before);
            }
            lemma_same_readers_wf(before, self@);
            lemma_same_readers_ids(before, self@);
        }
    }

    /// The priorities of a torrent, if it is tracked.
    pub fn priorities(&self, info_hash: &str) -> (r: Option<&[i32]>)
        ensures
            (match r {
                Some(v) => self@.elevated.contains_key(info_hash@) && v@
                    == self@.elevated[info_hash@],
                None => !self@.elevated.contains_key(info_hash@),
            }),
    {
        match self.elevated.get(info_hash) {
            Some(v) => Some(v.as_slice()),
            None => None,
        }
    }

    /// The priority of one piece, zero when there is no such piece.
    pub fn get_piece_priority(&self, info_hash: &str, piece_index: i32) -> (priority: i32)
        ensures
            priority == (if self@.elevated.contains_key(info_hash@) && 0 <= piece_index
                < self@.elevated[info_hash@].len() {
                self@.elevated[info_hash@][piece_index as int]
            } else {
                0
            }),
    {
        match self.priorities(info_hash) {
            Some(v) => {
                if piece_index >= 0 && (piece_index as usize) < v.len() {
                    v[piece_index as usize]
                } else {
                    0
                }
            },
            None => 0,
        }
    }

    /// The number of pieces of a tracked torrent.
    pub fn num_pieces(&self, info_hash: &str) -> (n: Option<i32>)
        requires
            self@.wf(),
        ensures
            n == (if self@.elevated.contains_key(info_hash@) {
                Some(self@.elevated[info_hash@].len() as i32)
            } else {
                None
            }),
            n matches Some(k) ==> k == self@.elevated[info_hash@].len(),
    {
        match self.elevated.get(info_hash) {
            Some(v) => {
                assert(self@.torrent_wf(info_hash@));
                Some(v.len() as i32)
            },
            None => None,
        }
    }

    /// The piece length of a tracked torrent.
    pub fn piece_length(&self, info_hash: &str) -> (n: Option<u64>)
        ensures
            n == (if self@.piece_lengths.contains_key(info_hash@) {
                Some(self@.piece_lengths[info_hash@] as u64)
            } else {
                None
            }),
    {
        match self.piece_lengths.get(info_hash) {
            Some(v) => Some(*v as u64),
            None => None,
        }
    }

    /// The pieces with a priority above zero, in order.
    pub fn elevated_pieces(&self, info_hash: &str) -> (pieces: Vec<i32>)
        requires
            self@.wf(),
        ensures
            pieces@ == (if self@.elevated.contains_key(info_hash@) {
                wanted_pieces(self@.elevated[info_hash@], self@.elevated[info_hash@].len())
            } else {
                Seq::empty()
            }),
    {
        let mut pieces: Vec<i32> = Vec::new();
        match self.priorities(info_hash) {
            Some(v) => {
                assert(self@.torrent_wf(info_hash@));
                let mut p: usize = 0;
                while p < v.len()
                    invariant
                        p <= v@.len() <= i32::MAX,
                        pieces@ == wanted_pieces(v@, p as nat),
                    decreases v@.len() - p,
                {
                    if v[p] > 0 {
                        pieces.push(p as i32);
                    }
                    p = p + 1;
                }
            },
            None => {},
        }
        pieces
    }

    /// Whether a torrent has converged: no reader and no wanted piece.
    pub fn is_idle(&self, info_hash: &str) -> (idle: bool)
        ensures
            idle == (self@.readers_of(info_hash@).len() == 0 && (self@.elevated.contains_key(
                info_hash@,
            ) ==> all_zero(self@.elevated[info_hash@]))),
    {
        let reading: bool = match self.readers.get(info_hash) {
            Some(r) => r.len() > 0,
            None => false,
        };
        let wanted: bool = match self.elevated.get(info_hash) {
            Some(v) => !is_all_zero(v.as_slice()),
            None => false,
        };
        !reading && !wanted
    }

    /// Forgets a torrent.
    pub fn remove_torrent(&mut self, info_hash: &str)
        requires
            old(self)@.wf(),
        ensures
            final(self)@ == old(self)@.without_torrent(info_hash@),
            final(self)@.wf(),
            old(self)@.ids_unique() ==> final(self)@.ids_unique(),
    {
        let ghost before = self@;
        self.elevated.remove(info_hash);
        self.piece_lengths.remove(info_hash);
        self.readers.remove(info_hash);
        self.prefetch.remove(info_hash);
        self.dirty.remove(info_hash);
        proof {
            assert(self@ =~= before.without_torrent(info_hash@));
            assert(self@.elevated.dom() =~= self@.piece_lengths.dom());
            assert forall|h: Seq<char>| #[trigger] self@.elevated.contains_key(h) implies
                self@.torrent_wf(h) by {
                assert(before.torrent_wf(h));
                assert(self@.readers_of(h) == before.readers_of(h));
            }
            if before.ids_unique() {
                assert forall|h: Seq<char>, i: int|
                    #![trigger self@.readers_of(h)[i]]
                    0 <= i < self@.readers_of(h).len() implies {
                    &&& self@.readers_of(h)[i].id < self@.next_read_id
                    &&& forall|k: Seq<char>, j: int|
                        #![trigger self@.readers_of(k)[j]]
                        0 <= j < self@.readers_of(k).len() && self@.readers_of(k)[j].id
                            == self@.readers_of(h)[i].id ==> h == k && i == j
                } by {
                    assert(self@.readers_of(h) == before.readers_of(h));
                    assert(before.readers_of(h)[i].id < before.next_read_id);
                    assert forall|k: Seq<char>, j: int|
                        #![trigger self@.readers_of(k)[j]]
                        0 <= j < self@.readers_of(k).len() && self@.readers_of(k)[j].id
                            == self@.readers_of(h)[i].id implies h == k && i == j by {
                        assert(self@.readers_of(k) == before.readers_of(k));
                        assert(before.readers_of(k)[j].id == before.readers_of(h)[i].id);
                    }
                }
            }
        }
    }
}

/// The pieces below `n` with a priority above zero, in order.
pub open spec fn wanted_pieces(priorities: Seq<i32>, n: nat) -> Seq<i32>
    decreases n,
{
    if n == 0 {
        Seq::empty()
    } else {
        let rest = wanted_pieces(priorities, (n - 1) as nat);
        if priorities[n - 1] > 0 {
            rest.push((n - 1) as i32)
        } else {
            rest
        }
    }
}

// ── What every event keeps ──────────────────────────────────────────────────

/// A state that differs in nothing but which handles are out of step is as
/// well formed as before.
proof fn lemma_same_readers_wf(a: SchedulerState, b: SchedulerState)
    requires
        a.wf(),
        b.elevated == a.elevated,
        b.piece_lengths == a.piece_lengths,
        b.readers == a.readers,
        b.prefetch == a.prefetch,
        forall|h: Seq<char>| #[trigger] b.dirty.contains(h) ==> a.elevated.contains_key(h),
    ensures
        b.wf(),
{
    assert forall|h: Seq<char>| #[trigger] b.elevated.contains_key(h) implies b.torrent_wf(h) by {
        assert(a.torrent_wf(h));
        assert(a.readers_of(h) == b.readers_of(h));
    }
}

/// Identities stay unique as long as the readers stay the same.
pub proof fn lemma_same_readers_ids(a: SchedulerState, b: SchedulerState)
    requires
        b.readers == a.readers,
        b.next_read_id >= a.next_read_id,
    ensures
        a.ids_unique() ==> b.ids_unique(),
{
    if a.ids_unique() {
        assert forall|h: Seq<char>, i: int|
            #![trigger b.readers_of(h)[i]]
            0 <= i < b.readers_of(h).len() implies {
            &&& b.readers_of(h)[i].id < b.next_read_id
            &&& forall|k: Seq<char>, j: int|
                #![trigger b.readers_of(k)[j]]
                0 <= j < b.readers_of(k).len() && b.readers_of(k)[j].id == b.readers_of(h)[i].id
                    ==> h == k && i == j
        } by {
            assert(b.readers_of(h) == a.readers_of(h));
            assert(a.readers_of(h)[i].id < a.next_read_id);
            assert forall|k: Seq<char>, j: int|
                #![trigger b.readers_of(k)[j]]
                0 <= j < b.readers_of(k).len() && b.readers_of(k)[j].id == b.readers_of(
                    h,
                )[i].id implies h == k && i == j by {
                assert(b.readers_of(k) == a.readers_of(k));
                assert(a.readers_of(k)[j].id == a.readers_of(h)[i].id);
            }
        }
    }
}

proof fn lemma_recomputed_wf(s: SchedulerState, hash: Seq<char>, local: Seq<bool>)
    requires
        s.wf(),
    ensures
        s.recomputed(hash, local).wf(),
{
    let t = s.recomputed(hash, local);
    if s.elevated.contains_key(hash) {
        assert(s.torrent_wf(hash));
        assert(t.elevated.dom() =~= t.piece_lengths.dom());
        assert forall|h: Seq<char>| #[trigger] t.elevated.contains_key(h) implies t.torrent_wf(h) by {
            assert(s.torrent_wf(h));
            assert(t.readers_of(h) == s.readers_of(h));
        }
    }
}

proof fn lemma_with_reader_wf(s: SchedulerState, hash: Seq<char>, gradient: Option<Seq<i32>>)
    requires
        s.wf(),
        gradient matches Some(g) ==> s.elevated.contains_key(hash) ==> g.len()
            <= s.elevated[hash].len(),
    ensures
        s.with_reader(hash, gradient).wf(),
{
    let t = s.with_reader(hash, gradient);
    assert forall|h: Seq<char>| #[trigger] t.elevated.contains_key(h) implies t.torrent_wf(h) by {
        assert(s.torrent_wf(h));
        if h != hash || gradient is None {
            assert(t.readers_of(h) == s.readers_of(h));
        } else {
            assert forall|i: int| 0 <= i < t.readers_of(h).len() implies (#[trigger] t.readers_of(
                h,
            )[i]).gradient.len() <= t.elevated[h].len() by {
                if i < s.readers_of(h).len() {
                    assert(t.readers_of(h)[i] == s.readers_of(h)[i]);
                }
            }
        }
    }
}

proof fn lemma_with_reader_ids(s: SchedulerState, hash: Seq<char>, gradient: Option<Seq<i32>>)
    requires
        0 <= s.next_read_id <= u64::MAX,
    ensures
        s.ids_unique() ==> s.with_reader(hash, gradient).ids_unique(),
{
    let t = s.with_reader(hash, gradient);
    if s.ids_unique() {
        if gradient is None {
            lemma_same_readers_ids(s, t);
        } else {
            assert forall|h: Seq<char>, i: int|
                #![trigger t.readers_of(h)[i]]
                0 <= i < t.readers_of(h).len() implies {
                &&& t.readers_of(h)[i].id < t.next_read_id
                &&& forall|k: Seq<char>, j: int|
                    #![trigger t.readers_of(k)[j]]
                    0 <= j < t.readers_of(k).len() && t.readers_of(k)[j].id == t.readers_of(
                        h,
                    )[i].id ==> h == k && i == j
            } by {
                let n = s.readers_of(hash).len();
                if h == hash && i == n {
                    assert(t.readers_of(h)[i].id == s.next_read_id);
                } else {
                    assert(t.readers_of(h)[i] == s.readers_of(h)[i]);
                    assert(s.readers_of(h)[i].id < s.next_read_id);
                }
                assert forall|k: Seq<char>, j: int|
                    #![trigger t.readers_of(k)[j]]
                    0 <= j < t.readers_of(k).len() && t.readers_of(k)[j].id == t.readers_of(
                        h,
                    )[i].id implies h == k && i == j by {
                    if k == hash && j == n {
                        assert(t.readers_of(k)[j].id == s.next_read_id);
                        if !(h == hash && i == n) {
                            assert(s.readers_of(h)[i].id < s.next_read_id);
                        }
                    } else {
                        assert(t.readers_of(k)[j] == s.readers_of(k)[j]);
                        assert(s.readers_of(k)[j].id < s.next_read_id);
                        if !(h == hash && i == n) {
                            assert(s.readers_of(k)[j].id == s.readers_of(h)[i].id);
                        }
                    }
                }
            }
        }
    }
}

/// The position of a reader is a position with its identity, or past the end.
proof fn lemma_position_of(readers: Seq<Reader>, id: u64)
    ensures
        0 <= position_of(readers, id) <= readers.len(),
        position_of(readers, id) < readers.len() ==> readers[position_of(readers, id)].id == id,
        forall|i: int|
            0 <= i < position_of(readers, id) ==> (#[trigger] readers[i]).id != id,
    decreases readers.len(),
{
    if readers.len() > 0 && readers[0].id != id {
        let rest = readers.drop_first();
        lemma_position_of(rest, id);
        assert forall|i: int| 0 <= i < position_of(readers, id) implies (
        #[trigger] readers[i]).id != id by {
            if i > 0 {
                assert(rest[i - 1] == readers[i]);
            }
        }
    }
}

proof fn lemma_without_reader_wf(s: SchedulerState, hash: Seq<char>, id: u64, local: Seq<bool>)
    requires
        s.wf(),
    ensures
        s.without_reader(hash, id, local).wf(),
{
    let t = s.without_reader(hash, id, local);
    let readers = s.readers_of(hash);
    let pos = position_of(readers, id);
    lemma_position_of(readers, id);
    if pos < readers.len() {
        assert forall|h: Seq<char>| #[trigger] t.elevated.contains_key(h) implies t.torrent_wf(h) by {
            assert(s.torrent_wf(h));
            if h != hash {
                assert(t.readers_of(h) == s.readers_of(h));
            } else {
                assert(readers[pos].gradient.len() <= s.elevated[h].len());
                assert forall|i: int| 0 <= i < t.readers_of(h).len() implies (
                #[trigger] t.readers_of(h)[i]).gradient.len() <= t.elevated[h].len() by {
                    if i < pos {
                        assert(t.readers_of(h)[i] == s.readers_of(h)[i]);
                    } else {
                        assert(t.readers_of(h)[i] == s.readers_of(h)[i + 1]);
                    }
                }
            }
        }
    }
}

proof fn lemma_without_reader_ids(s: SchedulerState, hash: Seq<char>, id: u64, local: Seq<bool>)
    requires
        s.ids_unique(),
    ensures
        s.without_reader(hash, id, local).ids_unique(),
{
    let t = s.without_reader(hash, id, local);
    let pos = position_of(s.readers_of(hash), id);
    lemma_position_of(s.readers_of(hash), id);
    if pos < s.readers_of(hash).len() {
        let orig = |h: Seq<char>, i: int|
            if h == hash && i >= pos {
                i + 1
            } else {
                i
            };
        assert forall|h: Seq<char>, i: int|
            #![trigger t.readers_of(h)[i]]
            0 <= i < t.readers_of(h).len() implies {
            &&& t.readers_of(h)[i].id < t.next_read_id
            &&& forall|k: Seq<char>, j: int|
                #![trigger t.readers_of(k)[j]]
                0 <= j < t.readers_of(k).len() && t.readers_of(k)[j].id == t.readers_of(h)[i].id
                    ==> h == k && i == j
        } by {
            assert(t.readers_of(h)[i] == s.readers_of(h)[orig(h, i)]);
            assert(s.readers_of(h)[orig(h, i)].id < s.next_read_id);
            assert forall|k: Seq<char>, j: int|
                #![trigger t.readers_of(k)[j]]
                0 <= j < t.readers_of(k).len() && t.readers_of(k)[j].id == t.readers_of(
                    h,
                )[i].id implies h == k && i == j by {
                assert(t.readers_of(k)[j] == s.readers_of(k)[orig(k, j)]);
                assert(s.readers_of(k)[orig(k, j)].id == s.readers_of(h)[orig(h, i)].id);
            }
        }
    }
}

proof fn lemma_piece_ready_wf(s: SchedulerState, hash: Seq<char>, piece: int)
    requires
        s.wf(),
    ensures
        s.with_piece_ready(hash, piece).wf(),
{
    let t = s.with_piece_ready(hash, piece);
    assert(t.elevated.dom() =~= t.piece_lengths.dom());
    assert forall|h: Seq<char>| #[trigger] t.elevated.contains_key(h) implies t.torrent_wf(h) by {
        assert(s.torrent_wf(h));
        assert(t.readers_of(h) == s.readers_of(h));
    }
}

// ── Laws ────────────────────────────────────────────────────────────────────

/// A recomputation brings the handle in line: when the handle agreed with the
/// scheduler before, or was known to be out of step, then after the returned
/// writes it holds exactly the scheduler's priorities.
pub proof fn law_handle_follows_scheduler(
    s: SchedulerState,
    hash: Seq<char>,
    local: Seq<bool>,
    handle: Seq<i32>,
)
    requires
        s.wf(),
        s.elevated.contains_key(hash),
        handle.len() == s.elevated[hash].len(),
        handle == s.elevated[hash] || s.dirty.contains(hash),
    ensures
        writes_applied(handle, s.recompute_writes(hash, local)) == s.recomputed(
            hash,
            local,
        ).elevated[hash],
{
    assert(s.torrent_wf(hash));
    let before = s.elevated[hash];
    let after = s.recomputed_priorities(hash, local);
    let n = before.len();
    if s.target(hash) is None {
        let writes = s.recompute_writes(hash, local);
        assert(writes.drop_last() =~= Seq::<PriorityWrite>::empty());
        assert(writes_applied(handle, writes.drop_last()) == handle);
        assert(writes_applied(handle, writes) =~= after);
    } else {
        lemma_writes_between(handle, before, after, s.dirty.contains(hash), n);
        assert(writes_applied(handle, writes_between(before, after, s.dirty.contains(hash), n))
            =~= after);
    }
}

proof fn lemma_writes_between(
    handle: Seq<i32>,
    before: Seq<i32>,
    after: Seq<i32>,
    all: bool,
    n: nat,
)
    requires
        n <= before.len() <= i32::MAX,
        handle.len() == before.len(),
        after.len() == before.len(),
        handle == before || all,
    ensures
        writes_applied(handle, writes_between(before, after, all, n)) == after.take(n as int)
            + handle.skip(n as int),
    decreases n,
{
    if n == 0 {
        assert(after.take(0) + handle.skip(0) =~= handle);
    } else {
        let p = n - 1;
        lemma_writes_between(handle, before, after, all, p as nat);
        let rest = writes_between(before, after, all, p as nat);
        let done = after.take(p) + handle.skip(p);
        let writes = writes_between(before, after, all, n);
        if all || before[p] != after[p] {
            assert(writes.drop_last() =~= rest);
            assert(done.update(p, after[p]) =~= after.take(n as int) + handle.skip(n as int));
        } else {
            assert(done =~= after.take(n as int) + handle.skip(n as int));
        }
    }
}

/// When a piece becomes ready the handle stays in line: the returned write is
/// the only difference.
pub proof fn law_ready_piece_follows(s: SchedulerState, hash: Seq<char>, piece: i32)
    requires
        s.wf(),
        s.elevated.contains_key(hash),
        0 <= piece < s.elevated[hash].len(),
    ensures
        s.with_piece_ready(hash, piece as int).elevated[hash] == write_applied(
            s.elevated[hash],
            PriorityWrite::One { piece, priority: 0 },
        ),
        s.with_piece_ready(hash, piece as int).elevated[hash][piece as int] == 0,
{
}

/// Pieces on this machine are never wanted after a recomputation.
pub proof fn law_local_pieces_not_wanted(
    s: SchedulerState,
    hash: Seq<char>,
    local: Seq<bool>,
    p: int,
)
    requires
        s.elevated.contains_key(hash),
        0 <= p < s.elevated[hash].len(),
        is_local(local, p),
    ensures
        s.recomputed(hash, local).elevated[hash][p] == 0,
{
}

/// A piece that is not on this machine has, after a recomputation, at least the
/// priority that each reader asks for: an evicted piece is fetched again as
/// long as a reader wants it.
pub proof fn law_readers_get_what_they_ask(
    s: SchedulerState,
    hash: Seq<char>,
    local: Seq<bool>,
    r: int,
    p: int,
)
    requires
        s.wf(),
        s.elevated.contains_key(hash),
        0 <= r < s.readers_of(hash).len(),
        0 <= p < s.readers_of(hash)[r].gradient.len(),
        !is_local(local, p),
    ensures
        s.recomputed(hash, local).elevated[hash][p] >= s.readers_of(hash)[r].gradient[p],
{
    assert(s.torrent_wf(hash));
    let readers = s.readers_of(hash);
    assert(readers[r].gradient.len() <= s.elevated[hash].len());
    lemma_wanted_at_least(readers, r, p);
}

proof fn lemma_wanted_at_least(readers: Seq<Reader>, r: int, p: int)
    requires
        0 <= r < readers.len(),
        0 <= p < readers[r].gradient.len(),
    ensures
        wanted_at(readers, p) >= readers[r].gradient[p],
    decreases readers.len(),
{
    if r < readers.len() - 1 {
        assert(readers.drop_last()[r] == readers[r]);
        lemma_wanted_at_least(readers.drop_last(), r, p);
    }
}

/// A torrent that is tracked anew wants nothing before it is read: no piece is
/// wanted at once, and none after a recomputation without readers.
pub proof fn law_nothing_wanted_before_a_read(
    s: SchedulerState,
    hash: Seq<char>,
    num_pieces: i32,
    piece_length: i64,
    local: Seq<bool>,
)
    requires
        num_pieces > 0,
        s.readers_of(hash).len() == 0,
    ensures
        ({
            let t = s.tracking(hash, num_pieces, piece_length);
            &&& t.elevated.contains_key(hash)
            &&& t.elevated[hash].len() == num_pieces
            &&& all_zero(t.elevated[hash])
            &&& all_zero(t.recomputed(hash, local).elevated[hash])
        }),
{
}

/// Nothing behind a read is ever prefetched.
pub proof fn law_nothing_behind_a_read(
    config: PiecePriorityConfig,
    cache_capacity: u64,
    layout: TorrentLayout,
    info: FilePieceInfo,
    file_index: i32,
    offset: u64,
    size: u32,
    p: int,
)
    requires
        ({
            let g = read_gradient(
                config,
                cache_capacity,
                layout,
                Some(info),
                file_index,
                offset,
                size,
            );
            g is Some && 0 <= p < g->0.len()
        }),
        p < (info.file_offset + offset) / layout.piece_length as int,
    ensures
        read_gradient(config, cache_capacity, layout, Some(info), file_index, offset, size)->0[p]
            == 0,
{
}

/// With no priority past the window, the pieces that a read asks for past its
/// own end fit into the cache beside one served piece.
pub proof fn law_prefetch_fits_cache(
    config: PiecePriorityConfig,
    cache_capacity: u64,
    layout: TorrentLayout,
    info: FilePieceInfo,
    file_index: i32,
    offset: u64,
    size: u32,
    p: int,
)
    requires
        config.rest_priority == 0,
        ({
            let g = read_gradient(
                config,
                cache_capacity,
                layout,
                Some(info),
                file_index,
                offset,
                size,
            );
            g is Some && 0 <= p < g->0.len() && g->0[p] != 0
        }),
    ensures
        ({
            let start = info.file_offset + offset;
            let file_end = info.file_offset + layout.size_of_file(file_index as int, 0);
            let to = last_piece_of(start, clamped_len(size, start, file_end), layout.piece_length);
            p > to ==> (p - to) * layout.piece_length + layout.piece_length <= cache_capacity
        }),
{
    let start = info.file_offset + offset;
    let file_end = info.file_offset + layout.size_of_file(file_index as int, 0);
    let to = last_piece_of(start, clamped_len(size, start, file_end), layout.piece_length);
    let bytes = window_bytes(config.access_window_mb, cache_capacity, layout.piece_length);
    let len = layout.piece_length as int;
    let q = bytes / len;
    vstd::arithmetic::div_mod::lemma_div_pos_is_pos(bytes, len);
    vstd::arithmetic::div_mod::lemma_div_is_ordered_by_denominator(bytes, 1, len);
    assert(0 <= q <= bytes);
    let u = q as u64;
    assert((u as i32) <= u) by (bit_vector);
    if p > to {
        let d = p - to;
        assert(d <= q as i32);
        assert(d <= q);
        assert(d * len <= q * len) by (nonlinear_arith)
            requires
                d <= q,
                len > 0,
        ;
        vstd::arithmetic::div_mod::lemma_fundamental_div_mod(bytes, len);
        assert(q * len <= bytes) by (nonlinear_arith)
            requires
                bytes == len * q + bytes % len,
                0 <= bytes % len,
        ;
        if bytes > 0 {
            assert(bytes <= cache_capacity - len);
        } else {
            assert(q == 0) by {
                vstd::arithmetic::div_mod::lemma_small_mod(0nat, len as nat);
            }
        }
    }
}

/// Releasing a reader removes exactly that reader: the others stay, in order,
/// and no other torrent is touched.
pub proof fn law_release_removes_exactly_one(
    s: SchedulerState,
    hash: Seq<char>,
    pos: int,
    local: Seq<bool>,
)
    requires
        s.ids_unique(),
        0 <= pos < s.readers_of(hash).len(),
    ensures
        s.without_reader(hash, s.readers_of(hash)[pos].id, local).readers_of(hash) == s.readers_of(
            hash,
        ).remove(pos),
        forall|h: Seq<char>|
            h != hash ==> #[trigger] s.without_reader(
                hash,
                s.readers_of(hash)[pos].id,
                local,
            ).readers_of(h) == s.readers_of(h),
{
    let id = s.readers_of(hash)[pos].id;
    lemma_position_of(s.readers_of(hash), id);
    let found = position_of(s.readers_of(hash), id);
    if found < s.readers_of(hash).len() {
        assert(s.readers_of(hash)[found].id == s.readers_of(hash)[pos].id);
    } else {
        assert(s.readers_of(hash)[pos].id != id);
    }
    assert(found == pos);
}

/// Releasing an identity that no reader of the torrent has changes nothing.
pub proof fn law_unknown_release_is_harmless(
    s: SchedulerState,
    hash: Seq<char>,
    id: u64,
    local: Seq<bool>,
)
    requires
        forall|i: int|
            0 <= i < s.readers_of(hash).len() ==> (#[trigger] s.readers_of(hash)[i]).id != id,
    ensures
        s.without_reader(hash, id, local) == s,
{
    lemma_position_of(s.readers_of(hash), id);
}

/// A fresh identity belongs to no reader of any torrent, so a stale release
/// can never hit a newer reader.
pub proof fn law_fresh_identity(s: SchedulerState, hash: Seq<char>, i: int)
    requires
        s.ids_unique(),
        0 <= i < s.readers_of(hash).len(),
    ensures
        s.readers_of(hash)[i].id != s.next_read_id,
{
    assert(s.readers_of(hash)[i].id < s.next_read_id);
}

/// Adding a reader and releasing it again leaves the readers as they were.
pub proof fn law_release_undoes_add(
    s: SchedulerState,
    hash: Seq<char>,
    gradient: Seq<i32>,
    local: Seq<bool>,
)
    requires
        s.ids_unique(),
        0 <= s.next_read_id <= u64::MAX,
    ensures
        s.with_reader(hash, Some(gradient)).without_reader(
            hash,
            s.next_read_id as u64,
            local,
        ).readers_of(hash) == s.readers_of(hash),
{
    let t = s.with_reader(hash, Some(gradient));
    lemma_with_reader_ids(s, hash, Some(gradient));
    let n = s.readers_of(hash).len();
    assert(t.readers_of(hash)[n as int].id == s.next_read_id);
    law_release_removes_exactly_one(t, hash, n as int, local);
    assert(t.readers_of(hash).remove(n as int) =~= s.readers_of(hash));
}

/// An event on one torrent leaves the priorities of every other alone.
pub proof fn law_torrents_are_independent(
    s: SchedulerState,
    hash: Seq<char>,
    other: Seq<char>,
    id: u64,
    piece: int,
    gradient: Option<Seq<i32>>,
    local: Seq<bool>,
)
    requires
        hash != other,
        s.elevated.contains_key(other),
    ensures
        s.recomputed(hash, local).elevated[other] == s.elevated[other],
        s.with_reader(hash, gradient).recomputed(hash, local).elevated[other] == s.elevated[other],
        s.without_reader(hash, id, local).recomputed(hash, local).elevated[other]
            == s.elevated[other],
        s.with_piece_ready(hash, piece).elevated[other] == s.elevated[other],
        s.without_torrent(hash).elevated[other] == s.elevated[other],
{
}

} // verus!
