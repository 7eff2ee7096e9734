//! What the filesystem does with the requests of the kernel.
use vstd::prelude::*;

use crate::config::timeouts::TimeoutsConfig;
use crate::error::FsError;
use crate::fuse::pending;
use crate::fuse::pending::{Answer, GroupView, InsertOutcome, PendingTable, RangeKey, Waiter};

verus! {

/// Seconds that a reply waits on top of the longest that the engine takes.
pub const READ_DEADLINE_MARGIN_SECS: u64 = 5;

/// Nanoseconds in a second.
pub const NANOS: u64 = 1_000_000_000;

/// What a read came to without waiting.
pub enum ReadOutcome {
    /// The bytes are there.
    Ready(Vec<u8>),
    /// The bytes have to be fetched.
    Pending { info_hash: String, file_index: i32, offset: u64, size: u32, torrent_id: i64 },
    /// The read failed, with an error number.
    Failed(i32),
}

/// What is to be done about a read.
pub enum ReadStep<R> {
    /// Reply with bytes.
    Reply { reply: R, data: Vec<u8> },
    /// Reply with an error number.
    Fail { reply: R, errno: i32 },
    /// Nothing: the reply waits for a range that is being fetched already.
    Wait,
    /// Fetch the range of a ticket.
    Fetch { ticket: u64 },
    /// Reply to everyone under a ticket that cannot be fetched.
    Refuse { waiting: Vec<R>, error: FsError },
    /// Put the reply into the table again once a group has gone.
    Block { reply: R, key: RangeKey, deadline: u64 },
}

/// When a reply that starts to wait gives up: after the longest that the engine
/// takes, or the read timeout without an engine, and the margin.
pub open spec fn deadline_of(now: u64, budget: Option<u64>, read_timeout_secs: u64) -> u64 {
    let wait: int = (match budget {
        Some(secs) => secs,
        None => read_timeout_secs,
    }) + READ_DEADLINE_MARGIN_SECS;
    let secs: int = if wait > u64::MAX {
        u64::MAX as int
    } else {
        wait
    };
    if now + secs * NANOS > u64::MAX {
        u64::MAX
    } else {
        (now + secs * NANOS) as u64
    }
}

/// Computes when a reply that starts to wait gives up.
pub fn read_deadline(now: u64, budget: Option<u64>, read_timeout_secs: u64) -> (deadline: u64)
    ensures
        deadline == deadline_of(now, budget, read_timeout_secs),
{
    let wait: u64 = match budget {
        Some(secs) => secs,
        None => read_timeout_secs,
    };
    let secs: u64 = wait.saturating_add(READ_DEADLINE_MARGIN_SECS);
    assert(secs * NANOS <= u64::MAX * NANOS) by (nonlinear_arith)
        requires
            secs <= u64::MAX,
    ;
    let end: u128 = now as u128 + secs as u128 * NANOS as u128;
    if end > u64::MAX as u128 {
        u64::MAX
    } else {
        end as u64
    }
}

/// The read side of the filesystem.
pub struct TorrentFs<R> {
    pub pending: PendingTable<R>,
    pub read_timeout_secs: u64,
}

impl<R> TorrentFs<R> {
    /// Whether the replies that wait are in order.
    pub open spec fn wf(&self) -> bool {
        self.pending.wf()
    }

    /// A filesystem without reads.
    pub fn new(timeouts: &TimeoutsConfig) -> (fs: TorrentFs<R>)
        ensures
            fs.wf(),
            fs.pending.view_groups() == Seq::<GroupView<R>>::empty(),
            fs.pending.next_id == 0,
            fs.read_timeout_secs == timeouts.read_timeout(),
    {
        TorrentFs {
            pending: PendingTable::new(),
            read_timeout_secs: timeouts.resolved_read_timeout_secs(),
        }
    }

    /// Answers a read at once where it can be, and else lets its reply wait.
    /// `budget` is the longest that the engine takes, if there is an engine.
    pub fn read(&mut self, outcome: ReadOutcome, reply: R, budget: Option<u64>, now: u64) -> (step:
        ReadStep<R>)
        requires
            old(self).wf(),
        ensures
            final(self).wf(),
            final(self).read_timeout_secs == old(self).read_timeout_secs,
            final(self).pending.next_id == (if step is Fetch || step is Refuse {
                (old(self).pending.next_id as int + 1) % (u64::MAX as int + 1)
            } else {
                old(self).pending.next_id as int
            }),
            ({
                let before = old(self).pending.view_groups();
                let after = final(self).pending.view_groups();
                match outcome {
                    ReadOutcome::Ready(data) => step == (ReadStep::Reply { reply, data })
                        && *final(self) == *old(self),
                    ReadOutcome::Failed(errno) => step == (ReadStep::Fail { reply, errno })
                        && *final(self) == *old(self),
                    ReadOutcome::Pending { info_hash, file_index, offset, size, torrent_id } => {
                        let deadline = deadline_of(now, budget, old(self).read_timeout_secs);
                        let w = Waiter { reply, torrent_id, deadline };
                        let key = (RangeKey { info_hash, file_index, offset, size });
                        let id = old(self).pending.next_id;
                        match pending::range_at(before, key@) {
                            Some(at) => step is Wait && after == pending::with_waiter(
                                before,
                                at,
                                w,
                            ),
                            None => if before.len() < pending::MAX_PENDING && pending::ticket_at(
                                before,
                                id,
                            ) is None {
                                if budget is Some {
                                    step == (ReadStep::<R>::Fetch { ticket: id }) && after
                                        == before.push(
                                        GroupView { id, key: key@, waiters: seq![w] },
                                    )
                                } else {
                                    (step matches ReadStep::Refuse {
                                        waiting,
                                        error: FsError::Internal(message),
                                    } && waiting@ == seq![reply] && message@
                                        == "download manager not available"@) && after == before
                                }
                            } else {
                                (step matches ReadStep::Block { reply: r, key: k, deadline: d } && r
                                    == reply && k@ == key@ && d == deadline) && *final(self)
                                    == *old(self)
                            },
                        }
                    },
                }
            }),
    {
        match outcome {
            ReadOutcome::Ready(data) => ReadStep::Reply { reply, data },
            ReadOutcome::Failed(errno) => ReadStep::Fail { reply, errno },
            ReadOutcome::Pending { info_hash, file_index, offset, size, torrent_id } => {
                let deadline: u64 = read_deadline(now, budget, self.read_timeout_secs);
                let key = RangeKey { info_hash, file_index, offset, size };
                let ghost before = self.pending.view_groups();
                let ghost fresh = GroupView {
                    id: self.pending.next_id,
                    key: key@,
                    waiters: seq![Waiter { reply, torrent_id, deadline }],
                };
                match self.pending.insert(reply, torrent_id, deadline, key) {
                    InsertOutcome::Joined => ReadStep::Wait,
                    InsertOutcome::Full { reply, key } => ReadStep::Block { reply, key, deadline },
                    InsertOutcome::Leader(ticket) => if budget.is_some() {
                        ReadStep::Fetch { ticket }
                    } else {
                        let waiting = self.pending.resolve(ticket);
                        proof {
                            let held = before.push(fresh);
                            assert(pending::ticket_at(held, ticket) == Some(before.len() as int));
                            assert(held.remove(before.len() as int) =~= before);
                            assert(pending::replies(fresh.waiters) =~= seq![reply]);
                        }
                        ReadStep::Refuse {
                            waiting,
                            error: FsError::Internal("download manager not available".to_owned()),
                        }
                    },
                }
            },
        }
    }
}

/// How a fetch ended.
pub enum FetchResult {
    /// With bytes.
    Bytes(Vec<u8>),
    /// With an error number.
    Failed(i32),
    /// It was never begun, as the workers are shutting down.
    NotQueued,
}

/// What everyone under a ticket is answered.
pub enum FetchAnswer {
    /// These bytes.
    Data(Vec<u8>),
    /// No data available.
    NoData,
    /// Input or output error.
    Io,
    /// This error number.
    Errno(i32),
}

impl<R> TorrentFs<R> {
    /// Ends the wait of everyone under a ticket.
    pub fn finish(&mut self, ticket: u64, result: FetchResult, size: u32) -> (r: (
        Vec<R>,
        FetchAnswer,
    ))
        requires
            old(self).wf(),
        ensures
            final(self).wf(),
            final(self).read_timeout_secs == old(self).read_timeout_secs,
            final(self).pending.next_id == old(self).pending.next_id,
            ({
                let before = old(self).pending.view_groups();
                let after = final(self).pending.view_groups();
                match pending::ticket_at(before, ticket) {
                    Some(at) => after == before.remove(at) && r.0@ == pending::replies(
                        before[at].waiters,
                    ),
                    None => after == before && r.0@ == Seq::<R>::empty(),
                }
            }),
            r.1 == (match result {
                FetchResult::Bytes(data) => if data@.len() == 0 && size > 0 {
                    FetchAnswer::NoData
                } else {
                    FetchAnswer::Data(data)
                },
                FetchResult::Failed(errno) => FetchAnswer::Errno(errno),
                FetchResult::NotQueued => FetchAnswer::Io,
            }),
    {
        match result {
            FetchResult::Bytes(data) => {
                let (waiting, answer) = self.pending.resolve_or_enodata(
                    ticket,
                    data.as_slice(),
                    size,
                );
                if answer == Answer::Data {
                    (waiting, FetchAnswer::Data(data))
                } else {
                    (waiting, FetchAnswer::NoData)
                }
            },
            FetchResult::Failed(errno) => (self.pending.resolve(ticket), FetchAnswer::Errno(errno)),
            FetchResult::NotQueued => (self.pending.resolve(ticket), FetchAnswer::Io),
        }
    }
}

// ── Attributes ──────────────────────────────────────────────────────────────

/// Which attributes a request wants to change.
pub struct SetAttr {
    pub mode: bool,
    pub uid: bool,
    pub gid: bool,
    pub size: Option<u64>,
    pub atime: bool,
    pub mtime: bool,
    pub ctime: bool,
    pub crtime: bool,
    pub chgtime: bool,
    pub bkuptime: bool,
}

impl SetAttr {
    /// Whether an attribute other than the size is to change.
    pub open spec fn changes_attributes(&self) -> bool {
        self.mode || self.uid || self.gid || self.atime || self.mtime || self.ctime || self.crtime
            || self.chgtime || self.bkuptime
    }

    /// The size to truncate a file to: only a request that changes nothing else is
    /// a write.
    pub fn truncate(&self) -> (size: Option<u64>)
        ensures
            size == (if self.changes_attributes() {
                None
            } else {
                self.size
            }),
    {
        if self.mode || self.uid || self.gid || self.atime || self.mtime || self.ctime
            || self.crtime || self.chgtime || self.bkuptime {
            None
        } else {
            self.size
        }
    }
}

/// How many blocks of 512 bytes a size takes up.
pub fn blocks_of(size: u64) -> (blocks: u64)
    ensures
        blocks == (size + 511) / 512,
{
    if size % 512 == 0 {
        size / 512
    } else {
        size / 512 + 1
    }
}

// ── Settings ────────────────────────────────────────────────────────────────

/// How many threads fetch: as configured or, if that is not at all, one for each
/// processor there is, and one if that is unknown.
pub fn download_workers(configured: Option<usize>, processors: Option<usize>) -> (n: usize)
    ensures
        n == (match configured {
            Some(v) => if v > 0 {
                v
            } else {
                match processors {
                    Some(p) => p,
                    None => 1,
                }
            },
            None => match processors {
                Some(p) => p,
                None => 1,
            },
        }),
{
    let fallback: usize = match processors {
        Some(p) => p,
        None => 1,
    };
    match configured {
        Some(v) => if v > 0 {
            v
        } else {
            fallback
        },
        None => fallback,
    }
}

/// How many fetches may queue up: as configured, or 256.
pub fn download_queue_depth(configured: Option<usize>) -> (n: usize)
    ensures
        n == (match configured {
            Some(v) => if v > 0 {
                v
            } else {
                256
            },
            None => 256,
        }),
{
    match configured {
        Some(v) => if v > 0 {
            v
        } else {
            256
        },
        None => 256,
    }
}

/// A reply never gives up before the engine does.
pub proof fn law_deadline_covers_the_engine(now: u64, budget: u64, read_timeout_secs: u64)
    requires
        now + (budget + READ_DEADLINE_MARGIN_SECS) * NANOS <= u64::MAX,
    ensures
        deadline_of(now, Some(budget), read_timeout_secs) >= now + budget * NANOS,
{
    assert(budget + READ_DEADLINE_MARGIN_SECS <= u64::MAX);
}

} // verus!
