//! What the download engine knows and decides between its calls into the swarm.
use vstd::prelude::*;

use vstd::hash_map::StringHashMap;

use crate::config::timeouts::TimeoutsConfig;
use crate::digest;
use crate::error::{ErrorKind, ErrorView, TorrentError};
use crate::piece_scheduler;
use crate::piece_scheduler::{
    FilePieceInfo, PiecePriorityConfig, PiecePriorityToml, PieceScheduler, PieceStatus,
    PriorityWrite, ReadId, SchedulerState, TorrentLayout,
};
use crate::read_wait;
use crate::stats::reports::TransferStatus;
use crate::text;
use crate::trackers;
use crate::trackers::{MergeOutcome, TrackerEntry};

verus! {

// ── Commands ────────────────────────────────────────────────────────────────

/// What callers ask of the engine.
#[derive(Debug)]
pub enum Command {
    /// Serve a torrent, and say when it is served.
    EnsureHandle { info_hash: String },
    /// Serve a torrent some time.
    EnsureHandleAsync { info_hash: String },
    /// Read a range of a file, and fetch it if need be.
    ReadFileRange { info_hash: String, file_index: i32, offset: u64, size: u32 },
    /// Say how the pieces of a torrent are.
    GetPiecesStatus { info_hash: String, num_pieces: i32 },
    /// Stop serving a torrent.
    RemoveHandle { info_hash: String },
    /// Take over the trackers of another file of the same torrent.
    MergeTrackers { info_hash: String },
    /// Say which trackers a torrent has.
    GetTrackers { info_hash: String },
    /// Stop.
    Shutdown,
}

impl Command {
    /// Whether the command is a read.
    pub fn is_read(&self) -> (yes: bool)
        ensures
            yes == (self is ReadFileRange),
    {
        match self {
            Command::ReadFileRange { .. } => true,
            _ => false,
        }
    }

    /// Whether the engine stops after the command.
    pub fn stops(&self) -> (yes: bool)
        ensures
            yes == (self is Shutdown),
    {
        match self {
            Command::Shutdown => true,
            _ => false,
        }
    }
}

/// A failure of the engine itself.
pub open spec fn engine_failure(message: Seq<char>) -> ErrorView {
    ErrorView { kind: ErrorKind::Unknown((-1) as i32), text: message }
}

/// The answer of an engine that has gone away during a command.
pub fn disconnected() -> (e: TorrentError)
    ensures
        e@ == engine_failure("Download engine thread disconnected"@),
{
    TorrentError::Unknown { code: -1, message: "Download engine thread disconnected".to_owned() }
}

/// The answer to a command after the engine has gone away.
pub fn has_shut_down() -> (e: TorrentError)
    ensures
        e@ == engine_failure("Download engine has shut down"@),
{
    TorrentError::Unknown { code: -1, message: "Download engine has shut down".to_owned() }
}

/// The answer to a question about a torrent that is not served.
pub fn no_handle() -> (e: TorrentError)
    ensures
        e@ == engine_failure("No handle for info_hash"@),
{
    TorrentError::Unknown { code: -1, message: "No handle for info_hash".to_owned() }
}

// ── The state ───────────────────────────────────────────────────────────────

/// Bytes that the piece cache holds unless configured otherwise.
pub const DEFAULT_CACHE_SIZE: u64 = 1_073_741_824;

/// Bytes that the piece cache holds: as configured if that is positive.
pub fn resolve_cache_size(configured: Option<i64>) -> (bytes: u64)
    ensures
        bytes == (match configured {
            Some(v) => if v > 0 {
                v as u64
            } else {
                DEFAULT_CACHE_SIZE
            },
            None => DEFAULT_CACHE_SIZE,
        }),
        bytes > 0,
{
    match configured {
        Some(v) => if v > 0 {
            v as u64
        } else {
            DEFAULT_CACHE_SIZE
        },
        None => DEFAULT_CACHE_SIZE,
    }
}

/// What the engine knows of the torrents that it serves.
pub struct EngineState {
    /// The torrents that are served, by their info hashes in hexadecimal.
    pub handles: Vec<String>,
    /// Whether each of them is private.
    pub private_torrents: StringHashMap<bool>,
    pub scheduler: PieceScheduler,
    pub read_timeout_secs: u64,
}

impl EngineState {
    /// The torrents that are served.
    pub open spec fn served(&self) -> Seq<Seq<char>> {
        text::texts(self.handles@)
    }

    /// Only torrents that are served have readers, each is served once, and of
    /// each it is known whether it is private.
    pub open spec fn wf(&self) -> bool {
        &&& self.scheduler@.wf()
        &&& self.scheduler@.ids_unique()
        &&& self.served().no_duplicates()
        &&& forall|h: Seq<char>| #[trigger]
            self.scheduler@.readers_of(h).len() > 0 ==> self.served().contains(h)
        &&& forall|h: Seq<char>| #[trigger]
            self.private_torrents@.contains_key(h) <==> self.served().contains(h)
    }

    /// Whether a torrent has nothing to do: no reader and no wanted piece.
    pub open spec fn idle(&self, h: Seq<char>) -> bool {
        self.scheduler@.readers_of(h).len() == 0 && (self.scheduler@.elevated.contains_key(h)
            ==> piece_scheduler::all_zero(self.scheduler@.elevated[h]))
    }

    /// An engine that serves nothing yet.
    pub fn new(
        cache_size: Option<i64>,
        priorities: &PiecePriorityToml,
        timeouts: &TimeoutsConfig,
    ) -> (s: EngineState)
        ensures
            s.wf(),
            s.served() == Seq::<Seq<char>>::empty(),
            s.scheduler@ == (SchedulerState {
                elevated: Map::empty(),
                piece_lengths: Map::empty(),
                readers: Map::empty(),
                prefetch: Map::empty(),
                dirty: Set::empty(),
                next_read_id: 0,
                config: s.scheduler.config,
                cache_capacity: match cache_size {
                    Some(v) => if v > 0 {
                        v as u64
                    } else {
                        DEFAULT_CACHE_SIZE
                    },
                    None => DEFAULT_CACHE_SIZE,
                },
            }),
            s.scheduler.config.access_window_mb == piece_scheduler::or_else(
                priorities.access_window_mb,
                4096u32,
            ),
            s.scheduler.config.current_priority == piece_scheduler::or_else(
                priorities.current_priority,
                7i32,
            ),
            s.scheduler.config.step_priorities@ == (match priorities.step_priorities {
                Some(p) => p@,
                None => seq![6i32, 5i32, 4i32, 3i32],
            }),
            s.scheduler.config.window_edge_priority == piece_scheduler::or_else(
                priorities.window_edge_priority,
                1i32,
            ),
            s.scheduler.config.rest_priority == piece_scheduler::or_else(
                priorities.rest_priority,
                0i32,
            ),
            s.read_timeout_secs == timeouts.read_timeout(),
    {
        let config = PiecePriorityConfig::from_toml(priorities);
        let s = EngineState {
            handles: Vec::new(),
            private_torrents: StringHashMap::new(),
            scheduler: PieceScheduler::new(config, resolve_cache_size(cache_size)),
            read_timeout_secs: timeouts.resolved_read_timeout_secs(),
        };
        assert(s.served() =~= Seq::empty());
        s
    }

    /// Whether a torrent is served.
    pub fn has_handle(&self, info_hash: &str) -> (yes: bool)
        ensures
            yes == self.served().contains(info_hash@),
    {
        text::among(&self.handles, info_hash)
    }

    /// The name of a torrent, and whether it has yet to be served.
    pub fn needs_handle(&self, info_hash: &[u8]) -> (r: (String, bool))
        ensures
            r.0@ == digest::hex_text(info_hash@),
            r.1 == !self.served().contains(r.0@),
    {
        let name = digest::hex_encode(info_hash);
        let needed = !self.has_handle(name.as_str());
        (name, needed)
    }

    /// Enters a torrent that is served from now on.
    pub fn handle_added(
        &mut self,
        info_hash: &str,
        num_pieces: i32,
        piece_length: i64,
        private: bool,
    )
        requires
            old(self).wf(),
            !old(self).served().contains(info_hash@),
        ensures
            final(self).wf(),
            final(self).served() == old(self).served().push(info_hash@),
            final(self).private_torrents@ == old(self).private_torrents@.insert(
                info_hash@,
                private,
            ),
            final(self).scheduler@ == old(self).scheduler@.tracking(
                info_hash@,
                num_pieces,
                piece_length,
            ),
            final(self).read_timeout_secs == old(self).read_timeout_secs,
    {
        let ghost before = *self;
        assert(self.scheduler@.readers_of(info_hash@).len() == 0);
        let r = self.scheduler.init_torrent(info_hash, num_pieces, piece_length);
        self.private_torrents.insert(info_hash.to_owned(), private);
        self.handles.push(info_hash.to_owned());
        proof {
            let h = info_hash@;
            assert(self.served() =~= before.served().push(h));
            assert(self.scheduler@.readers == before.scheduler@.readers);
            assert forall|k: Seq<char>| #[trigger]
                self.served().contains(k) <==> before.served().contains(k) || k == h by {
                lemma_push_contains(before.served(), h, k);
            }
            assert forall|k: Seq<char>| #[trigger]
                self.scheduler@.readers_of(k).len() > 0 implies self.served().contains(k) by {
                assert(self.scheduler@.readers_of(k) == before.scheduler@.readers_of(k));
            }
            assert forall|i: int, j: int| 0 <= i < j < self.served().len() implies self.served()[i]
                != self.served()[j] by {
                if j == before.served().len() {
                    assert(before.served()[i] == self.served()[i]);
                    assert(before.served().contains(self.served()[i]));
                }
            }
            assert(self.scheduler@.ids_unique()) by {
                piece_scheduler::lemma_same_readers_ids(before.scheduler@, self.scheduler@);
            }
        }
    }

    /// Forgets a torrent: whether it was served, and so has to leave the session.
    pub fn remove_handle(&mut self, info_hash: &str) -> (was_served: bool)
        requires
            old(self).wf(),
        ensures
            final(self).wf(),
            was_served == old(self).served().contains(info_hash@),
            !final(self).served().contains(info_hash@),
            forall|h: Seq<char>|
                h != info_hash@ ==> (#[trigger] final(self).served().contains(h) <==> old(
                    self,
                ).served().contains(h)),
            final(self).private_torrents@ == old(self).private_torrents@.remove(info_hash@),
            final(self).scheduler@ == old(self).scheduler@.without_torrent(info_hash@),
            final(self).read_timeout_secs == old(self).read_timeout_secs,
    {
        let ghost before = *self;
        let ghost h = info_hash@;
        let mut was_served = false;
        let mut i: usize = 0;
        while i < self.handles.len() && !was_served
            invariant
                i <= self.handles@.len(),
                before.wf(),
                h == info_hash@,
                self.scheduler == before.scheduler,
                self.private_torrents == before.private_torrents,
                self.read_timeout_secs == before.read_timeout_secs,
                !was_served ==> self.handles@ == before.handles@ && forall|j: int|
                    0 <= j < i ==> (#[trigger] before.served()[j]) != h,
                was_served ==> exists|at: int|
                    0 <= at < before.served().len() && (#[trigger] before.served()[at]) == h
                        && self.served() == before.served().remove(at),
            decreases self.handles@.len() - i, if was_served {
                0int
            } else {
                1int
            },
        {
            if text::same(self.handles[i].as_str(), info_hash) {
                let ghost at = i as int;
                self.handles.remove(i);
                was_served = true;
                assert(self.served() =~= before.served().remove(at));
                assert(before.served()[at] == h);
            } else {
                i = i + 1;
            }
        }
        self.scheduler.remove_torrent(info_hash);
        self.private_torrents.remove(info_hash);
        proof {
            if was_served {
                let at = choose|at: int|
                    0 <= at < before.served().len() && (#[trigger] before.served()[at]) == h
                        && self.served() == before.served().remove(at);
                lemma_remove_unique(before.served(), at);
                assert(before.served().contains(h));
            } else {
                assert(self.served() == before.served());
                assert(!before.served().contains(h));
            }
            assert forall|k: Seq<char>| #[trigger]
                self.scheduler@.readers_of(k).len() > 0 implies self.served().contains(k) by {
                assert(k != h);
                assert(self.scheduler@.readers_of(k) == before.scheduler@.readers_of(k));
                assert(before.served().contains(k));
            }
            assert forall|k: Seq<char>| #[trigger]
                self.private_torrents@.contains_key(k) <==> self.served().contains(k) by {
                assert(before.private_torrents@.contains_key(k) <==> before.served().contains(k));
            }
        }
        was_served
    }

    /// Decides what becomes of the trackers of another file of a torrent.
    pub fn merge_trackers(
        &self,
        info_hash: &[u8],
        incoming_private: bool,
        incoming: &Option<Vec<TrackerEntry>>,
        existing: &Option<Vec<TrackerEntry>>,
    ) -> (outcome: MergeOutcome)
        ensures
            ({
                let h = digest::hex_text(info_hash@);
                outcome@ == trackers::merge_outcome(
                    self.served().contains(h),
                    if self.private_torrents@.contains_key(h) {
                        Some(self.private_torrents@[h])
                    } else {
                        None
                    },
                    incoming_private,
                    trackers::list_view(*incoming),
                    trackers::list_view(*existing),
                )
            }),
    {
        let name = digest::hex_encode(info_hash);
        let known: Option<bool> = match self.private_torrents.get(name.as_str()) {
            Some(p) => Some(*p),
            None => None,
        };
        trackers::merge_trackers(
            self.has_handle(name.as_str()),
            known,
            incoming_private,
            incoming,
            existing,
        )
    }

    /// Whether a torrent is to stop downloading: it is served and has nothing to
    /// do.
    pub fn restores_upload_mode(&self, info_hash: &str) -> (yes: bool)
        ensures
            yes == (self.idle(info_hash@) && self.served().contains(info_hash@)),
    {
        self.scheduler.is_idle(info_hash) && self.has_handle(info_hash)
    }

    /// Whether a read can join the readers of its torrent: the torrent is served,
    /// there is an identity left, and the read stays within the torrent's pieces and
    /// the integer types.
    pub fn accepts_reader(
        &self,
        layout: &TorrentLayout,
        piece_info: Option<FilePieceInfo>,
        file_index: i32,
        offset: u64,
        size: u32,
    ) -> (yes: bool)
        requires
            self.wf(),
        ensures
            yes == ({
                let h = digest::hex_text(layout.info_hash@);
                &&& self.served().contains(h)
                &&& self.scheduler.next_read_id < u64::MAX
                &&& piece_scheduler::read_in_range(*layout, piece_info, file_index, offset, size)
                &&& self.scheduler@.elevated.contains_key(h) ==> layout.num_pieces
                    <= self.scheduler@.elevated[h].len()
            }),
    {
        let name = digest::hex_encode(layout.info_hash.as_slice());
        let within: bool = match self.scheduler.num_pieces(name.as_str()) {
            Some(n) => layout.num_pieces <= n,
            None => true,
        };
        within && self.has_handle(name.as_str()) && self.scheduler.next_read_id < u64::MAX
            && piece_scheduler::read_fits(layout, piece_info, file_index, offset, size)
    }

    /// Adds a reader to a torrent that is served: its identity, and the writes to
    /// the torrent's handle.
    pub fn add_reader(
        &mut self,
        layout: &TorrentLayout,
        piece_info: Option<FilePieceInfo>,
        file_index: i32,
        offset: u64,
        size: u32,
        local: &Vec<bool>,
    ) -> (r: (ReadId, Vec<PriorityWrite>))
        requires
            old(self).wf(),
            old(self).served().contains(digest::hex_text(layout.info_hash@)),
            old(self).scheduler.next_read_id < u64::MAX,
            piece_scheduler::read_in_range(*layout, piece_info, file_index, offset, size),
            ({
                let h = digest::hex_text(layout.info_hash@);
                old(self).scheduler@.elevated.contains_key(h) ==> layout.num_pieces
                    <= old(self).scheduler@.elevated[h].len()
            }),
        ensures
            final(self).wf(),
            final(self).served() == old(self).served(),
            final(self).private_torrents@ == old(self).private_torrents@,
            final(self).read_timeout_secs == old(self).read_timeout_secs,
            r.0.0 == old(self).scheduler.next_read_id,
            ({
                let h = digest::hex_text(layout.info_hash@);
                let gradient = piece_scheduler::read_gradient(
                    old(self).scheduler@.config,
                    old(self).scheduler@.cache_capacity,
                    *layout,
                    piece_info,
                    file_index,
                    offset,
                    size,
                );
                let joined = old(self).scheduler@.with_reader(h, gradient);
                if gradient is Some {
                    &&& final(self).scheduler@ == joined.recomputed(h, local@)
                    &&& r.1@ == joined.recompute_writes(h, local@)
                } else {
                    &&& final(self).scheduler@ == joined
                    &&& r.1@ == Seq::<PriorityWrite>::empty()
                }
            }),
    {
        let ghost before = *self;
        let ghost h = digest::hex_text(layout.info_hash@);
        let r = self.scheduler.reader_added(layout, piece_info, file_index, offset, size, local);
        proof {
            assert forall|k: Seq<char>| #[trigger]
                self.scheduler@.readers_of(k).len() > 0 implies self.served().contains(k) by {
                if k != h {
                    assert(self.scheduler@.readers_of(k) == before.scheduler@.readers_of(k));
                }
            }
            if r.1@.len() == 0 {
                assert(r.1@ =~= Seq::empty());
            }
        }
        r
    }

    /// Takes a reader out: the writes to the torrent's handle, and whether the
    /// torrent is to stop downloading.
    pub fn release_reader(&mut self, info_hash: &str, id: ReadId, local: &Vec<bool>) -> (r: (
        Vec<PriorityWrite>,
        bool,
    ))
        requires
            old(self).wf(),
        ensures
            final(self).wf(),
            final(self).served() == old(self).served(),
            final(self).private_torrents@ == old(self).private_torrents@,
            final(self).read_timeout_secs == old(self).read_timeout_secs,
            ({
                let h = info_hash@;
                let left = old(self).scheduler@.without_reader(h, id.0, local@);
                if old(self).served().contains(h) {
                    &&& final(self).scheduler@ == left.recomputed(h, local@)
                    &&& r.0@ == left.recompute_writes(h, local@)
                } else {
                    &&& final(self).scheduler@ == old(self).scheduler@
                    &&& r.0@ == Seq::<PriorityWrite>::empty()
                }
            }),
            r.1 == (final(self).idle(info_hash@) && final(self).served().contains(info_hash@)),
    {
        let ghost before = *self;
        let writes = if self.has_handle(info_hash) {
            self.scheduler.reader_released(info_hash, id, local)
        } else {
            Vec::new()
        };
        proof {
            assert forall|k: Seq<char>| #[trigger]
                self.scheduler@.readers_of(k).len() > 0 implies self.served().contains(k) by {
                if k != info_hash@ {
                    assert(self.scheduler@.readers_of(k) == before.scheduler@.readers_of(k));
                }
            }
        }
        let restore = self.restores_upload_mode(info_hash);
        (writes, restore)
    }

    /// A piece has been finished: the writes to the torrent's handle.
    pub fn piece_finished(&mut self, info_hash: &str, piece_index: i32) -> (writes: Vec<
        PriorityWrite,
    >)
        requires
            old(self).wf(),
        ensures
            final(self).wf(),
            final(self).served() == old(self).served(),
            final(self).private_torrents@ == old(self).private_torrents@,
            final(self).read_timeout_secs == old(self).read_timeout_secs,
            ({
                let h = info_hash@;
                let before = old(self).scheduler@;
                if old(self).served().contains(h) {
                    &&& final(self).scheduler@ == before.with_piece_ready(h, piece_index as int)
                    &&& writes@ == (if before.elevated.contains_key(h) && 0 <= piece_index
                        < before.elevated[h].len() && before.elevated[h][piece_index as int] != 0 {
                        seq![PriorityWrite::One { piece: piece_index, priority: 0 }]
                    } else {
                        Seq::empty()
                    })
                } else {
                    &&& final(self).scheduler@ == before
                    &&& writes@ == Seq::<PriorityWrite>::empty()
                }
            }),
    {
        let ghost before = *self;
        let writes = if self.has_handle(info_hash) {
            self.scheduler.piece_ready(info_hash, piece_index)
        } else {
            Vec::new()
        };
        proof {
            assert forall|k: Seq<char>| #[trigger]
                self.scheduler@.readers_of(k).len() > 0 implies self.served().contains(k) by {
                assert(self.scheduler@.readers_of(k) == before.scheduler@.readers_of(k));
            }
        }
        writes
    }

    /// The torrents that are served and have nothing to do: they are to stop
    /// downloading.
    pub fn settle_idle_torrents(&self) -> (idle: Vec<String>)
        ensures
            text::texts(idle@) == self.served().filter(|h: Seq<char>| self.idle(h)),
    {
        let ghost all = self.served();
        let ghost is_idle = |h: Seq<char>| self.idle(h);
        let mut idle: Vec<String> = Vec::new();
        let mut i: usize = 0;
        proof {
            reveal(Seq::filter);
            assert(text::texts(idle@) =~= all.take(0).filter(is_idle));
        }
        while i < self.handles.len()
            invariant
                i <= self.handles@.len(),
                all == self.served(),
                is_idle == (|h: Seq<char>| self.idle(h)),
                text::texts(idle@) == all.take(i as int).filter(is_idle),
            decreases self.handles@.len() - i,
        {
            reveal(Seq::filter);
            let ghost was = idle@;
            assert(all.take(i as int + 1).drop_last() =~= all.take(i as int));
            assert(all.take(i as int + 1).last() == self.handles@[i as int]@);
            if self.scheduler.is_idle(self.handles[i].as_str()) {
                idle.push(self.handles[i].clone());
                assert(text::texts(idle@) =~= text::texts(was).push(self.handles@[i as int]@));
            }
            i = i + 1;
        }
        assert(all.take(all.len() as int) =~= all);
        idle
    }

    /// How one piece of a torrent is.
    pub open spec fn piece_status(&self, h: Seq<char>, p: int, cached: Option<u64>) -> PieceStatus {
        PieceStatus {
            priority: if self.scheduler@.elevated.contains_key(h) && 0 <= p
                < self.scheduler@.elevated[h].len() {
                self.scheduler@.elevated[h][p]
            } else {
                0
            },
            is_cached: cached is Some,
            hit_count: match cached {
                Some(hits) => hits,
                None => 0,
            },
        }
    }

    /// How the pieces of a torrent are, given how often each cached one was read.
    pub fn build_pieces_status(&self, info_hash: &str, cached: &Vec<Option<u64>>) -> (pieces: Vec<
        PieceStatus,
    >)
        requires
            cached@.len() <= i32::MAX,
        ensures
            pieces@ == Seq::new(
                cached@.len(),
                |p: int| self.piece_status(info_hash@, p, cached@[p]),
            ),
    {
        let mut pieces: Vec<PieceStatus> = Vec::new();
        let mut p: usize = 0;
        while p < cached.len()
            invariant
                p <= cached@.len() <= i32::MAX,
                pieces@ == Seq::new(
                    p as nat,
                    |q: int| self.piece_status(info_hash@, q, cached@[q]),
                ),
            decreases cached@.len() - p,
        {
            let priority: i32 = self.scheduler.get_piece_priority(info_hash, p as i32);
            let hit_count: u64 = match cached[p] {
                Some(hits) => hits,
                None => 0,
            };
            pieces.push(PieceStatus { priority, is_cached: cached[p].is_some(), hit_count });
            p = p + 1;
            assert(pieces@ =~= Seq::new(
                p as nat,
                |q: int| self.piece_status(info_hash@, q, cached@[q]),
            ));
        }
        pieces
    }
}

proof fn lemma_push_contains(s: Seq<Seq<char>>, h: Seq<char>, k: Seq<char>)
    ensures
        s.push(h).contains(k) <==> s.contains(k) || k == h,
{
    let t = s.push(h);
    if s.contains(k) {
        let i = choose|i: int| 0 <= i < s.len() && s[i] == k;
        assert(t[i] == k);
    }
    if k == h {
        assert(t[s.len() as int] == k);
    }
    if t.contains(k) {
        let i = choose|i: int| 0 <= i < t.len() && t[i] == k;
        if i < s.len() {
            assert(s[i] == k);
        }
    }
}

proof fn lemma_remove_unique(s: Seq<Seq<char>>, at: int)
    requires
        s.no_duplicates(),
        0 <= at < s.len(),
    ensures
        s.remove(at).no_duplicates(),
        !s.remove(at).contains(s[at]),
        forall|k: Seq<char>| k != s[at] ==> (#[trigger] s.remove(at).contains(k) <==> s.contains(k)),
{
    let t = s.remove(at);
    assert forall|i: int, j: int| 0 <= i < j < t.len() implies t[i] != t[j] by {
        let a = if i < at {
            i
        } else {
            i + 1
        };
        let b = if j < at {
            j
        } else {
            j + 1
        };
        assert(s[a] != s[b]);
    }
    assert forall|k: Seq<char>| #[trigger] t.contains(k) implies s.contains(k) && k != s[at] by {
        let i = choose|i: int| 0 <= i < t.len() && t[i] == k;
        let a = if i < at {
            i
        } else {
            i + 1
        };
        assert(s[a] == k);
        assert(s[a] != s[at]);
    }
    assert forall|k: Seq<char>| k != s[at] && s.contains(k) implies #[trigger] t.contains(k) by {
        let a = choose|a: int| 0 <= a < s.len() && s[a] == k;
        let i = if a < at {
            a
        } else {
            a - 1
        };
        assert(t[i] == k);
    }
}

// ── The snapshot ────────────────────────────────────────────────────────────

/// What the engine last published, for everyone to look at.
pub struct DownloadSnapshot {
    pub statuses: StringHashMap<TransferStatus>,
    /// Piece length and pieces.
    pub pieces: StringHashMap<(u64, Vec<PieceStatus>)>,
    pub private_torrents: StringHashMap<bool>,
}

/// What the swarm and the cache say of a torrent when a snapshot is made.
pub struct TorrentFacts {
    pub info_hash: String,
    pub status: Option<TransferStatus>,
    /// How often each cached piece was read, if the cache could be asked.
    pub cached: Option<Vec<Option<u64>>>,
}

impl Default for DownloadSnapshot {
    fn default() -> (s: DownloadSnapshot)
        ensures
            s.statuses@ == Map::<Seq<char>, TransferStatus>::empty(),
            s.pieces@ == Map::<Seq<char>, (u64, Vec<PieceStatus>)>::empty(),
            s.private_torrents@ == Map::<Seq<char>, bool>::empty(),
    {
        DownloadSnapshot {
            statuses: StringHashMap::new(),
            pieces: StringHashMap::new(),
            private_torrents: StringHashMap::new(),
        }
    }
}

impl DownloadSnapshot {
    /// The published status of a torrent.
    pub fn torrent_status(&self, info_hash: &str) -> (r: Option<&TransferStatus>)
        ensures
            match r {
                Some(s) => self.statuses@.contains_key(info_hash@) && *s
                    == self.statuses@[info_hash@],
                None => !self.statuses@.contains_key(info_hash@),
            },
    {
        self.statuses.get(info_hash)
    }

    /// The published pieces of a torrent and their length.
    pub fn pieces_status(&self, info_hash: &str) -> (r: Option<&(u64, Vec<PieceStatus>)>)
        ensures
            match r {
                Some(p) => self.pieces@.contains_key(info_hash@) && *p == self.pieces@[info_hash@],
                None => !self.pieces@.contains_key(info_hash@),
            },
    {
        self.pieces.get(info_hash)
    }

    /// Whether a torrent is private, if it is served.
    pub fn is_private(&self, info_hash: &str) -> (r: Option<bool>)
        ensures
            r == (if self.private_torrents@.contains_key(info_hash@) {
                Some(self.private_torrents@[info_hash@])
            } else {
                None
            }),
    {
        match self.private_torrents.get(info_hash) {
            Some(p) => Some(*p),
            None => None,
        }
    }
}

/// The published statuses after some facts.
pub open spec fn statuses_of(facts: Seq<TorrentFacts>) -> Map<Seq<char>, TransferStatus>
    decreases facts.len(),
{
    if facts.len() == 0 {
        Map::empty()
    } else {
        let before = statuses_of(facts.drop_last());
        match facts.last().status {
            Some(status) => before.insert(facts.last().info_hash@, status),
            None => before,
        }
    }
}

/// Published pieces, as plain values.
pub open spec fn pieces_view(pieces: Map<Seq<char>, (u64, Vec<PieceStatus>)>) -> Map<
    Seq<char>,
    (u64, Seq<PieceStatus>),
> {
    Map::new(
        |h: Seq<char>| pieces.contains_key(h),
        |h: Seq<char>| (pieces[h].0, pieces[h].1@),
    )
}

impl EngineState {
    /// The published pieces after some facts: of torrents that are tracked, where
    /// the cache could be asked.
    pub open spec fn pieces_of(&self, facts: Seq<TorrentFacts>) -> Map<
        Seq<char>,
        (u64, Seq<PieceStatus>),
    >
        decreases facts.len(),
    {
        if facts.len() == 0 {
            Map::empty()
        } else {
            let before = self.pieces_of(facts.drop_last());
            let h = facts.last().info_hash@;
            match facts.last().cached {
                Some(cached) => if self.scheduler@.elevated.contains_key(h) {
                    before.insert(
                        h,
                        (
                            self.scheduler@.piece_lengths[h] as u64,
                            Seq::new(
                                cached@.len(),
                                |p: int| self.piece_status(h, p, cached@[p]),
                            ),
                        ),
                    )
                } else {
                    before
                },
                None => before,
            }
        }
    }

    /// A snapshot to publish.
    pub fn publish_snapshot(&self, facts: Vec<TorrentFacts>) -> (snapshot: DownloadSnapshot)
        requires
            self.wf(),
            forall|i: int|
                0 <= i < facts@.len() ==> ((#[trigger] facts@[i]).cached matches Some(c)
                    ==> c@.len() <= i32::MAX),
        ensures
            snapshot.statuses@ == statuses_of(facts@),
            pieces_view(snapshot.pieces@) == self.pieces_of(facts@),
            snapshot.private_torrents@ == self.private_torrents@,
    {
        let ghost all = facts@;
        let mut rest = facts;
        let mut snapshot = DownloadSnapshot::default();
        let ghost mut done: int = 0;
        proof {
            assert(all.skip(0) =~= all);
            assert(snapshot.statuses@ =~= statuses_of(all.take(0)));
            assert(pieces_view(snapshot.pieces@) =~= self.pieces_of(all.take(0)));
        }
        while rest.len() > 0
            invariant
                self.wf(),
                0 <= done <= all.len(),
                rest@ == all.skip(done),
                forall|i: int|
                    0 <= i < all.len() ==> ((#[trigger] all[i]).cached matches Some(c) ==> c@.len()
                        <= i32::MAX),
                snapshot.statuses@ == statuses_of(all.take(done)),
                pieces_view(snapshot.pieces@) == self.pieces_of(all.take(done)),
                snapshot.private_torrents@ == Map::<Seq<char>, bool>::empty(),
            decreases rest@.len(),
        {
            let ghost upto = all.take(done + 1);
            let fact = rest.remove(0);
            proof {
                assert(fact == all[done]);
                assert(upto.drop_last() =~= all.take(done));
                assert(upto.last() == fact);
                assert(rest@ =~= all.skip(done + 1));
            }
            match fact.status {
                Some(status) => {
                    snapshot.statuses.insert(fact.info_hash.clone(), status);
                },
                None => {},
            }
            let ghost before = pieces_view(snapshot.pieces@);
            match &fact.cached {
                Some(cached) => {
                    let name = fact.info_hash.as_str();
                    if self.scheduler.num_pieces(name).is_some() {
                        let pieces = self.build_pieces_status(name, cached);
                        let piece_length: u64 = match self.scheduler.piece_length(name) {
                            Some(n) => n,
                            None => 0,
                        };
                        let ghost entry = (piece_length, pieces@);
                        snapshot.pieces.insert(fact.info_hash.clone(), (piece_length, pieces));
                        assert(pieces_view(snapshot.pieces@) =~= before.insert(
                            fact.info_hash@,
                            entry,
                        ));
                    }
                },
                None => {},
            }
            proof {
                done = done + 1;
            }
        }
        assert(all.take(done) =~= all);
        let ghost names = self.served();
        let mut i: usize = 0;
        while i < self.handles.len()
            invariant
                self.wf(),
                i <= self.handles@.len(),
                names == self.served(),
                snapshot.statuses@ == statuses_of(all),
                pieces_view(snapshot.pieces@) == self.pieces_of(all),
                forall|h: Seq<char>| #[trigger]
                    snapshot.private_torrents@.contains_key(h) <==> names.take(i as int).contains(
                        h,
                    ),
                forall|h: Seq<char>| #[trigger]
                    snapshot.private_torrents@.contains_key(h) ==> self.private_torrents@.contains_key(
                        h,
                    ) && snapshot.private_torrents@[h] == self.private_torrents@[h],
            decreases self.handles@.len() - i,
        {
            let ghost before = snapshot.private_torrents@;
            let ghost h = self.handles@[i as int]@;
            proof {
                assert(names[i as int] == h);
                assert(names.contains(h));
                assert(self.private_torrents@.contains_key(h));
                assert(names.take(i as int + 1) =~= names.take(i as int).push(h));
            }
            match self.private_torrents.get(self.handles[i].as_str()) {
                Some(p) => {
                    snapshot.private_torrents.insert(self.handles[i].clone(), *p);
                },
                None => {},
            }
            proof {
                assert forall|k: Seq<char>| #[trigger]
                    snapshot.private_torrents@.contains_key(k) <==> names.take(
                    i as int + 1,
                ).contains(k) by {
                    lemma_push_contains(names.take(i as int), h, k);
                }
            }
            i = i + 1;
        }
        proof {
            assert(names.take(names.len() as int) =~= names);
            assert forall|h: Seq<char>| #[trigger]
                self.private_torrents@.contains_key(h) implies snapshot.private_torrents@.contains_key(
                h,
            ) by {
                assert(names.contains(h));
            }
            assert(snapshot.private_torrents@ =~= self.private_torrents@);
        }
        snapshot
    }
}

// ── Empty swarms ────────────────────────────────────────────────────────────

/// Since when nobody has been connected to a torrent, after a look at its swarm:
/// since before if it was empty already, since now if it just became empty.
pub fn empty_since(before: Option<u64>, num_peers: i32, num_seeds: i32, now: u64) -> (since: Option<
    u64,
>)
    ensures
        since == (if num_peers == 0 && num_seeds == 0 {
            match before {
                Some(t) => Some(t),
                None => Some(now),
            }
        } else {
            None
        }),
{
    if !read_wait::swarm_is_empty(num_peers, num_seeds) {
        return None;
    }
    match before {
        Some(t) => Some(t),
        None => Some(now),
    }
}

/// For how many whole seconds a swarm has been empty, if it is.
pub fn empty_secs(since: Option<u64>, now: u64) -> (secs: Option<u64>)
    ensures
        secs == (match since {
            Some(t) => Some((read_wait::since(t, now) / read_wait::NANOS as int) as u64),
            None => None,
        }),
{
    match since {
        Some(t) => if now >= t {
            Some((now - t) / read_wait::NANOS)
        } else {
            Some(0)
        },
        None => None,
    }
}

// ── The loop ────────────────────────────────────────────────────────────────

/// Nanoseconds between two snapshots.
pub const SNAPSHOT_INTERVAL: u64 = 1_000_000_000;

/// Nanoseconds between two looks at reads that wait.
pub const PENDING_READ_POLL_INTERVAL: u64 = 200_000_000;

/// How long the engine waits for a command: shorter while reads wait.
pub fn command_wait(parked: bool) -> (nanos: u64)
    ensures
        nanos == (if parked {
            PENDING_READ_POLL_INTERVAL
        } else {
            SNAPSHOT_INTERVAL
        }),
{
    if parked {
        PENDING_READ_POLL_INTERVAL
    } else {
        SNAPSHOT_INTERVAL
    }
}

/// When the engine last published a snapshot and last kept house.
#[derive(Debug, Clone, Copy)]
pub struct LoopClock {
    pub last_publish: u64,
    pub last_housekeeping: u64,
}

/// What the engine does besides commands and reads.
#[derive(Debug, Clone, Copy, PartialEq, Eq, Structural)]
pub struct Duties {
    /// Let idle torrents rest and write the cache's data to disk.
    pub housekeeping: bool,
    /// Ask for fresh session counters.
    pub refresh_stats: bool,
    /// Publish a snapshot.
    pub publish: bool,
}

/// Whether an interval has passed since a time.
pub open spec fn passed(since: u64, now: u64) -> bool {
    now - since >= SNAPSHOT_INTERVAL
}

fn has_passed(since: u64, now: u64) -> (yes: bool)
    ensures
        yes == passed(since, now),
{
    now >= since && now - since >= SNAPSHOT_INTERVAL
}

impl LoopClock {
    /// A clock that starts now.
    pub fn new(now: u64) -> (clock: LoopClock)
        ensures
            clock.last_publish == now,
            clock.last_housekeeping == now,
    {
        LoopClock { last_publish: now, last_housekeeping: now }
    }

    /// The clock after duties have been done.
    pub open spec fn after(self, duties: Duties, now: u64) -> LoopClock {
        LoopClock {
            last_publish: if duties.publish {
                now
            } else {
                self.last_publish
            },
            last_housekeeping: if duties.housekeeping {
                now
            } else {
                self.last_housekeeping
            },
        }
    }

    /// What is due after a command. What is published changes with any command
    /// but a read, which comes often and mostly changes nothing.
    pub open spec fn due_after_command(self, is_read: bool, parked: bool, now: u64) -> Duties {
        Duties {
            housekeeping: passed(self.last_housekeeping, now),
            refresh_stats: parked,
            publish: !is_read || passed(self.last_publish, now),
        }
    }

    /// What is due when no command came.
    pub open spec fn due_after_timeout(self, parked: bool, now: u64) -> Duties {
        Duties {
            housekeeping: passed(self.last_housekeeping, now),
            refresh_stats: parked || passed(self.last_housekeeping, now),
            publish: passed(self.last_publish, now),
        }
    }

    /// The duties after a command; see [`Self::due_after_command`].
    pub fn after_command(&mut self, is_read: bool, parked: bool, now: u64) -> (duties: Duties)
        ensures
            duties == old(self).due_after_command(is_read, parked, now),
            *final(self) == old(self).after(duties, now),
    {
        let duties = Duties {
            housekeeping: has_passed(self.last_housekeeping, now),
            refresh_stats: parked,
            publish: !is_read || has_passed(self.last_publish, now),
        };
        self.note(duties, now);
        duties
    }

    /// The duties when no command came; see [`Self::due_after_timeout`].
    pub fn after_timeout(&mut self, parked: bool, now: u64) -> (duties: Duties)
        ensures
            duties == old(self).due_after_timeout(parked, now),
            *final(self) == old(self).after(duties, now),
    {
        let housekeeping = has_passed(self.last_housekeeping, now);
        let duties = Duties {
            housekeeping,
            refresh_stats: parked || housekeeping,
            publish: has_passed(self.last_publish, now),
        };
        self.note(duties, now);
        duties
    }

    fn note(&mut self, duties: Duties, now: u64)
        ensures
            *final(self) == old(self).after(duties, now),
    {
        if duties.publish {
            self.last_publish = now;
        }
        if duties.housekeeping {
            self.last_housekeeping = now;
        }
    }
}

// ── Laws ────────────────────────────────────────────────────────────────────

/// However busy the engine is, whether commands come or not, each turn leaves
/// the snapshot and the housekeeping younger than the interval.
pub proof fn law_nothing_gets_stale(clock: LoopClock, is_read: bool, parked: bool, now: u64)
    ensures
        ({
            let served = clock.after(clock.due_after_command(is_read, parked, now), now);
            &&& !passed(served.last_publish, now)
            &&& !passed(served.last_housekeeping, now)
        }),
        ({
            let rested = clock.after(clock.due_after_timeout(parked, now), now);
            &&& !passed(rested.last_publish, now)
            &&& !passed(rested.last_housekeeping, now)
        }),
{
}

/// A torrent that is removed leaves nothing behind in the scheduler, and every
/// other torrent keeps what the scheduler knew of it.
pub proof fn law_removal_forgets_a_torrent(s: SchedulerState, h: Seq<char>, k: Seq<char>)
    requires
        k != h,
    ensures
        ({
            let t = s.without_torrent(h);
            &&& !t.elevated.contains_key(h)
            &&& !t.piece_lengths.contains_key(h)
            &&& !t.prefetch.contains_key(h)
            &&& t.readers_of(h).len() == 0
            &&& !t.dirty.contains(h)
        }),
        ({
            let t = s.without_torrent(h);
            &&& t.elevated.contains_key(k) == s.elevated.contains_key(k)
            &&& s.elevated.contains_key(k) ==> t.elevated[k] == s.elevated[k]
            &&& t.prefetch_of(k) == s.prefetch_of(k)
            &&& t.readers_of(k) == s.readers_of(k)
            &&& t.dirty.contains(k) == s.dirty.contains(k)
        }),
{
}

} // verus!
