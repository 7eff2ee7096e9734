//! Reads whose replies wait for pieces to arrive.
use vstd::prelude::*;

use crate::text;

verus! {

/// The most byte ranges that can be waited for at once.
pub const MAX_PENDING: usize = 256;

/// Which bytes a read asks for. Reads with one key get the same bytes, so they
/// share one download.
#[derive(Debug)]
pub struct RangeKey {
    pub info_hash: String,
    pub file_index: i32,
    pub offset: u64,
    pub size: u32,
}

/// Which bytes a read asks for, as plain values.
pub struct RangeView {
    pub info_hash: Seq<char>,
    pub file_index: i32,
    pub offset: u64,
    pub size: u32,
}

impl View for RangeKey {
    type V = RangeView;

    open spec fn view(&self) -> RangeView {
        RangeView {
            info_hash: self.info_hash@,
            file_index: self.file_index,
            offset: self.offset,
            size: self.size,
        }
    }
}

impl RangeKey {
    fn same(&self, other: &RangeKey) -> (yes: bool)
        ensures
            yes == (self@ == other@),
    {
        self.file_index == other.file_index && self.offset == other.offset && self.size
            == other.size && text::same(self.info_hash.as_str(), other.info_hash.as_str())
    }
}

/// One reply that waits: which torrent it reads from, and until when it waits, in
/// nanoseconds.
pub struct Waiter<R> {
    pub reply: R,
    pub torrent_id: i64,
    pub deadline: u64,
}

/// The replies that wait for one byte range, under one ticket.
pub struct Group<R> {
    pub id: u64,
    pub key: RangeKey,
    pub waiters: Vec<Waiter<R>>,
}

/// A group as plain values.
pub struct GroupView<R> {
    pub id: u64,
    pub key: RangeView,
    pub waiters: Seq<Waiter<R>>,
}

impl<R> View for Group<R> {
    type V = GroupView<R>;

    open spec fn view(&self) -> GroupView<R> {
        GroupView { id: self.id, key: self.key@, waiters: self.waiters@ }
    }
}

/// Groups as plain values.
pub open spec fn groups_view<R>(groups: Seq<Group<R>>) -> Seq<GroupView<R>> {
    Seq::new(groups.len(), |i: int| groups[i]@)
}

/// What became of a reply that was put into the table.
pub enum InsertOutcome<R> {
    /// It waits under a new ticket, whose range someone has to fetch.
    Leader(u64),
    /// It waits for a range that is being fetched already.
    Joined,
    /// There is no room; it has to be put in again once a group has gone.
    Full { reply: R, key: RangeKey },
}

/// What replies are answered.
#[derive(Debug, Clone, Copy, PartialEq, Eq, Structural)]
pub enum Answer {
    /// The bytes that were read.
    Data,
    /// No data available.
    NoData,
    /// Input or output error.
    Io,
}

/// Why waiters are dropped before their range has arrived.
#[derive(Clone, Copy)]
pub enum Reason {
    /// Their torrent has gone.
    Gone(i64),
    /// Their time is up.
    Due(u64),
}

impl Reason {
    /// Whether a waiter is dropped.
    pub open spec fn drops<R>(self, w: Waiter<R>) -> bool {
        match self {
            Reason::Gone(torrent_id) => w.torrent_id == torrent_id,
            Reason::Due(now) => w.deadline <= now,
        }
    }

    fn test<R>(&self, w: &Waiter<R>) -> (yes: bool)
        ensures
            yes == self.drops(*w),
    {
        match self {
            Reason::Gone(torrent_id) => w.torrent_id == *torrent_id,
            Reason::Due(now) => w.deadline <= *now,
        }
    }
}

/// The waiters that stay.
pub open spec fn staying<R>(waiters: Seq<Waiter<R>>, why: Reason) -> Seq<Waiter<R>> {
    waiters.filter(|w: Waiter<R>| !why.drops(w))
}

/// The waiters that are dropped.
pub open spec fn leaving<R>(waiters: Seq<Waiter<R>>, why: Reason) -> Seq<Waiter<R>> {
    waiters.filter(|w: Waiter<R>| why.drops(w))
}

/// The groups once waiters have been dropped; a group without waiters goes.
pub open spec fn swept<R>(groups: Seq<GroupView<R>>, why: Reason) -> Seq<GroupView<R>>
    decreases groups.len(),
{
    if groups.len() == 0 {
        Seq::empty()
    } else {
        let before = swept(groups.drop_last(), why);
        let g = groups.last();
        let kept = staying(g.waiters, why);
        if kept.len() == 0 {
            before
        } else {
            before.push(GroupView { id: g.id, key: g.key, waiters: kept })
        }
    }
}

/// The waiters that are dropped from all groups.
pub open spec fn swept_out<R>(groups: Seq<GroupView<R>>, why: Reason) -> Seq<Waiter<R>>
    decreases groups.len(),
{
    if groups.len() == 0 {
        Seq::empty()
    } else {
        swept_out(groups.drop_last(), why) + leaving(groups.last().waiters, why)
    }
}

/// The replies of waiters.
pub open spec fn replies<R>(waiters: Seq<Waiter<R>>) -> Seq<R> {
    Seq::new(waiters.len(), |i: int| waiters[i].reply)
}

/// Where a ticket stands.
pub open spec fn ticket_at<R>(groups: Seq<GroupView<R>>, id: u64) -> Option<int>
    decreases groups.len(),
{
    if groups.len() == 0 {
        None
    } else if groups.last().id == id {
        Some(groups.len() - 1)
    } else {
        ticket_at(groups.drop_last(), id)
    }
}

/// Where a range stands.
pub open spec fn range_at<R>(groups: Seq<GroupView<R>>, key: RangeView) -> Option<int>
    decreases groups.len(),
{
    if groups.len() == 0 {
        None
    } else if groups.last().key == key {
        Some(groups.len() - 1)
    } else {
        range_at(groups.drop_last(), key)
    }
}

/// What keeps a table sound: there is room in it, no ticket and no range stands
/// twice, and someone waits in every group.
pub open spec fn sound<R>(groups: Seq<GroupView<R>>) -> bool {
    &&& groups.len() <= MAX_PENDING
    &&& forall|i: int, j: int|
        0 <= i < j < groups.len() ==> (#[trigger] groups[i]).id != (#[trigger] groups[j]).id
            && groups[i].key != groups[j].key
    &&& forall|i: int| 0 <= i < groups.len() ==> (#[trigger] groups[i]).waiters.len() > 0
}

/// The groups after a reply has joined one of them.
pub open spec fn with_waiter<R>(groups: Seq<GroupView<R>>, at: int, w: Waiter<R>) -> Seq<
    GroupView<R>,
> {
    groups.update(
        at,
        GroupView {
            id: groups[at].id,
            key: groups[at].key,
            waiters: groups[at].waiters.push(w),
        },
    )
}

/// A bounded table of replies that wait for pieces.
pub struct PendingTable<R> {
    pub groups: Vec<Group<R>>,
    pub next_id: u64,
}

proof fn lemma_ticket_at<R>(groups: Seq<GroupView<R>>, id: u64)
    ensures
        match ticket_at(groups, id) {
            Some(i) => 0 <= i < groups.len() && groups[i].id == id,
            None => forall|i: int| 0 <= i < groups.len() ==> (#[trigger] groups[i]).id != id,
        },
    decreases groups.len(),
{
    if groups.len() > 0 && groups.last().id != id {
        let init = groups.drop_last();
        lemma_ticket_at(init, id);
        assert(forall|i: int| 0 <= i < init.len() ==> init[i] == groups[i]);
    }
}

proof fn lemma_range_at<R>(groups: Seq<GroupView<R>>, key: RangeView)
    ensures
        match range_at(groups, key) {
            Some(i) => 0 <= i < groups.len() && groups[i].key == key,
            None => forall|i: int| 0 <= i < groups.len() ==> (#[trigger] groups[i]).key != key,
        },
    decreases groups.len(),
{
    if groups.len() > 0 && groups.last().key != key {
        let init = groups.drop_last();
        lemma_range_at(init, key);
        assert(forall|i: int| 0 <= i < init.len() ==> init[i] == groups[i]);
    }
}

/// What a sweep leaves keeps its order, and with it tickets and ranges stay
/// unique.
proof fn lemma_sweep_is_sound<R>(groups: Seq<GroupView<R>>, why: Reason)
    requires
        sound(groups),
    ensures
        sound(swept(groups, why)),
        swept(groups, why).len() <= groups.len(),
        forall|i: int|
            0 <= i < swept(groups, why).len() ==> exists|j: int|
                0 <= j < groups.len() && (#[trigger] groups[j]).id == (#[trigger] swept(
                    groups,
                    why,
                )[i]).id && groups[j].key == swept(groups, why)[i].key,
    decreases groups.len(),
{
    if groups.len() > 0 {
        let init = groups.drop_last();
        assert(forall|i: int| 0 <= i < init.len() ==> init[i] == groups[i]);
        assert(sound(init));
        lemma_sweep_is_sound(init, why);
        let before = swept(init, why);
        let after = swept(groups, why);
        assert forall|i: int| 0 <= i < after.len() implies exists|j: int|
            0 <= j < groups.len() && (#[trigger] groups[j]).id == (#[trigger] after[i]).id
                && groups[j].key == after[i].key by {
            if i < before.len() {
                assert(after[i] == before[i]);
                let j = choose|j: int|
                    0 <= j < init.len() && (#[trigger] init[j]).id == before[i].id && init[j].key
                        == before[i].key;
                assert(groups[j].id == after[i].id);
            } else {
                assert(groups[groups.len() - 1].id == after[i].id);
            }
        }
        assert forall|i: int, j: int| 0 <= i < j < after.len() implies (#[trigger] after[i]).id != (
        #[trigger] after[j]).id && after[i].key != after[j].key by {
            assert(after[i] == before[i]);
            if j < before.len() {
                assert(after[j] == before[j]);
            } else {
                let k = choose|k: int|
                    0 <= k < init.len() && (#[trigger] init[k]).id == before[i].id && init[k].key
                        == before[i].key;
                assert(groups[k].id != groups[groups.len() - 1].id);
            }
        }
        assert forall|i: int| 0 <= i < after.len() implies (#[trigger] after[i]).waiters.len()
            > 0 by {
            if i < before.len() {
                assert(after[i] == before[i]);
            }
        }
    }
}

fn split_waiters<R>(waiters: Vec<Waiter<R>>, why: Reason, out: &mut Vec<R>) -> (kept: Vec<
    Waiter<R>,
>)
    ensures
        kept@ == staying(waiters@, why),
        final(out)@ == old(out)@ + replies(leaving(waiters@, why)),
{
    let ghost all = waiters@;
    let ghost before = out@;
    let mut rest = waiters;
    let mut kept: Vec<Waiter<R>> = Vec::new();
    let ghost mut done: int = 0;
    proof {
        reveal(Seq::filter);
        assert(all.skip(0) =~= all);
        assert(all.take(0) =~= Seq::empty());
        assert(before + replies(leaving(all.take(0), why)) =~= before);
    }
    while rest.len() > 0
        invariant
            0 <= done <= all.len(),
            rest@ == all.skip(done),
            kept@ == staying(all.take(done), why),
            out@ == before + replies(leaving(all.take(done), why)),
        decreases rest@.len(),
    {
        let w = rest.remove(0);
        proof {
            reveal(Seq::filter);
            assert(all.take(done + 1).drop_last() =~= all.take(done));
            assert(all.take(done + 1).last() == w);
            assert(rest@ =~= all.skip(done + 1));
        }
        if why.test(&w) {
            let ghost was = leaving(all.take(done), why);
            let ghost earlier = out@;
            let ghost reply = w.reply;
            out.push(w.reply);
            assert(replies(was.push(w)) =~= replies(was).push(reply));
            assert(out@ =~= before + replies(leaving(all.take(done + 1), why)));
        } else {
            kept.push(w);
        }
        proof {
            done = done + 1;
        }
    }
    assert(all.take(done) =~= all);
    kept
}

impl<R> PendingTable<R> {
    /// The groups as plain values.
    pub open spec fn view_groups(&self) -> Seq<GroupView<R>> {
        groups_view(self.groups@)
    }

    /// Whether the table is sound.
    pub open spec fn wf(&self) -> bool {
        sound(self.view_groups())
    }

    /// An empty table.
    pub fn new() -> (table: PendingTable<R>)
        ensures
            table.wf(),
            table.view_groups() == Seq::<GroupView<R>>::empty(),
            table.next_id == 0,
    {
        let table = PendingTable { groups: Vec::new(), next_id: 0 };
        assert(table.view_groups() =~= Seq::empty());
        table
    }

    fn find_range(&self, key: &RangeKey) -> (at: Option<usize>)
        ensures
            (match at {
                Some(i) => Some(i as int),
                None => None,
            }) == range_at(self.view_groups(), key@),
            at matches Some(i) ==> i < self.groups@.len(),
    {
        let ghost all = self.view_groups();
        let mut i: usize = self.groups.len();
        assert(all.take(i as int) =~= all);
        while i > 0
            invariant
                i <= self.groups@.len(),
                all == self.view_groups(),
                range_at(all, key@) == range_at(all.take(i as int), key@),
            decreases i,
        {
            assert(all.take(i as int).drop_last() =~= all.take(i as int - 1));
            i = i - 1;
            if self.groups[i].key.same(key) {
                return Some(i);
            }
        }
        None
    }

    fn find_ticket(&self, id: u64) -> (at: Option<usize>)
        ensures
            (match at {
                Some(i) => Some(i as int),
                None => None,
            }) == ticket_at(self.view_groups(), id),
            at matches Some(i) ==> i < self.groups@.len(),
    {
        let ghost all = self.view_groups();
        let mut i: usize = self.groups.len();
        assert(all.take(i as int) =~= all);
        while i > 0
            invariant
                i <= self.groups@.len(),
                all == self.view_groups(),
                ticket_at(all, id) == ticket_at(all.take(i as int), id),
            decreases i,
        {
            assert(all.take(i as int).drop_last() =~= all.take(i as int - 1));
            i = i - 1;
            if self.groups[i].id == id {
                return Some(i);
            }
        }
        None
    }

    /// Puts a reply into the table: it joins the group of its range or, if there
    /// is none, opens one under the next ticket. Without room, or while that
    /// ticket is still held, the reply is handed back.
    pub fn insert(
        &mut self,
        reply: R,
        torrent_id: i64,
        deadline: u64,
        key: RangeKey,
    ) -> (outcome: InsertOutcome<R>)
        requires
            old(self).wf(),
        ensures
            final(self).wf(),
            ({
                let w = Waiter { reply, torrent_id, deadline };
                let before = old(self).view_groups();
                match range_at(before, key@) {
                    Some(at) => outcome is Joined && final(self).view_groups() == with_waiter(
                        before,
                        at,
                        w,
                    ) && final(self).next_id == old(self).next_id,
                    None => if before.len() < MAX_PENDING && ticket_at(before, old(self).next_id) is None {
                        outcome == InsertOutcome::<R>::Leader(old(self).next_id)
                            && final(self).view_groups() == before.push(
                            GroupView { id: old(self).next_id, key: key@, waiters: seq![w] },
                        ) && final(self).next_id == (old(self).next_id as int + 1) % (u64::MAX as int
                            + 1)
                    } else {
                        (outcome matches InsertOutcome::Full { reply: r, key: k } && r == reply && k
                            == key) && *final(self) == *old(self)
                    },
                }
            }),
    {
        let ghost before = self.view_groups();
        proof {
            lemma_range_at(before, key@);
            lemma_ticket_at(before, self.next_id);
        }
        match self.find_range(&key) {
            Some(at) => {
                let ghost w = Waiter { reply, torrent_id, deadline };
                let mut group = self.groups.remove(at);
                group.waiters.push(Waiter { reply, torrent_id, deadline });
                self.groups.insert(at, group);
                assert(self.view_groups() =~= with_waiter(before, at as int, w));
                assert forall|i: int, j: int| 0 <= i < j < self.groups@.len() implies (
                #[trigger] self.view_groups()[i]).id != (#[trigger] self.view_groups()[j]).id
                    && self.view_groups()[i].key != self.view_groups()[j].key by {
                    assert(before[i].id != before[j].id);
                }
                InsertOutcome::Joined
            },
            None => {
                if self.groups.len() < MAX_PENDING && self.find_ticket(self.next_id).is_none() {
                    let id: u64 = self.next_id;
                    let ghost w = Waiter { reply, torrent_id, deadline };
                    let ghost range = key@;
                    self.next_id = if id == u64::MAX {
                        0
                    } else {
                        id + 1
                    };
                    let mut waiters: Vec<Waiter<R>> = Vec::new();
                    waiters.push(Waiter { reply, torrent_id, deadline });
                    assert(waiters@ =~= seq![w]);
                    self.groups.push(Group { id, key, waiters });
                    let ghost after = self.view_groups();
                    assert(after =~= before.push(GroupView { id, key: range, waiters: seq![w] }));
                    assert forall|i: int, j: int| 0 <= i < j < after.len() implies (
                    #[trigger] after[i]).id != (#[trigger] after[j]).id && after[i].key
                        != after[j].key by {
                        if j < before.len() {
                            assert(before[i].id != before[j].id);
                        } else {
                            assert(before[i].id != id);
                            assert(before[i].key != range);
                        }
                    }
                    InsertOutcome::Leader(id)
                } else {
                    InsertOutcome::Full { reply, key }
                }
            },
        }
    }

    /// Takes the group of a ticket out of the table: the replies that waited in
    /// it. A ticket that is not held has none.
    pub fn resolve(&mut self, id: u64) -> (waiting: Vec<R>)
        requires
            old(self).wf(),
        ensures
            final(self).wf(),
            final(self).next_id == old(self).next_id,
            match ticket_at(old(self).view_groups(), id) {
                Some(at) => final(self).view_groups() == old(self).view_groups().remove(at)
                    && waiting@ == replies(old(self).view_groups()[at].waiters),
                None => final(self).view_groups() == old(self).view_groups() && waiting@
                    == Seq::<R>::empty(),
            },
    {
        let ghost before = self.view_groups();
        proof {
            lemma_ticket_at(before, id);
        }
        let mut waiting: Vec<R> = Vec::new();
        match self.find_ticket(id) {
            Some(at) => {
                let group = self.groups.remove(at);
                let ghost after = self.view_groups();
                proof {
                    assert(after =~= before.remove(at as int));
                    assert forall|i: int, j: int| 0 <= i < j < after.len() implies (
                    #[trigger] after[i]).id != (#[trigger] after[j]).id && after[i].key
                        != after[j].key by {
                        let a = if i < at {
                            i
                        } else {
                            i + 1
                        };
                        let b = if j < at {
                            j
                        } else {
                            j + 1
                        };
                        assert(before[a].id != before[b].id);
                    }
                }
                let ghost all = group.waiters@;
                let mut rest = group.waiters;
                let ghost mut done: int = 0;
                assert(all.skip(0) =~= all);
                while rest.len() > 0
                    invariant
                        0 <= done <= all.len(),
                        rest@ == all.skip(done),
                        waiting@ == replies(all.take(done)),
                    decreases rest@.len(),
                {
                    let w = rest.remove(0);
                    waiting.push(w.reply);
                    proof {
                        assert(rest@ =~= all.skip(done + 1));
                        assert(waiting@ =~= replies(all.take(done + 1)));
                        done = done + 1;
                    }
                }
                assert(all.take(done) =~= all);
            },
            None => {},
        }
        waiting
    }

    fn sweep(&mut self, why: Reason) -> (out: Vec<R>)
        requires
            old(self).wf(),
        ensures
            final(self).wf(),
            final(self).next_id == old(self).next_id,
            final(self).view_groups() == swept(old(self).view_groups(), why),
            out@ == replies(swept_out(old(self).view_groups(), why)),
    {
        let ghost before = self.view_groups();
        let mut rest: Vec<Group<R>> = Vec::new();
        std::mem::swap(&mut rest, &mut self.groups);
        let mut kept: Vec<Group<R>> = Vec::new();
        let mut out: Vec<R> = Vec::new();
        let ghost mut done: int = 0;
        assert(groups_view(rest@) =~= before.skip(0));
        assert(groups_view(kept@) =~= Seq::empty());
        assert(out@ =~= replies(swept_out(before.take(0), why)));
        while rest.len() > 0
            invariant
                0 <= done <= before.len(),
                groups_view(rest@) == before.skip(done),
                groups_view(kept@) == swept(before.take(done), why),
                out@ == replies(swept_out(before.take(done), why)),
            decreases rest@.len(),
        {
            let ghost upto = before.take(done + 1);
            let ghost was = kept@;
            let ghost left = swept_out(before.take(done), why);
            let ghost rest_was = rest@;
            let group = rest.remove(0);
            proof {
                assert(groups_view(rest_was).len() == before.skip(done).len());
                assert(before.skip(done)[0] == before[done]);
                assert(groups_view(rest_was)[0] == before[done]);
                assert(upto.drop_last() =~= before.take(done));
                assert(upto.last() == before[done]);
                assert(groups_view(rest@) =~= before.skip(done + 1)) by {
                    assert forall|i: int| 0 <= i < rest@.len() implies groups_view(rest@)[i]
                        == before.skip(done + 1)[i] by {
                        assert(groups_view(rest_was)[i + 1] == before.skip(done)[i + 1]);
                    }
                }
            }
            let ghost g = group@;
            let waiters = split_waiters(group.waiters, why, &mut out);
            proof {
                let gone = leaving(g.waiters, why);
                assert(replies(left + gone) =~= replies(left) + replies(gone));
            }
            if waiters.len() > 0 {
                kept.push(Group { id: group.id, key: group.key, waiters });
                assert(groups_view(kept@) =~= groups_view(was).push(
                    GroupView { id: g.id, key: g.key, waiters: staying(g.waiters, why) },
                ));
            }
            proof {
                done = done + 1;
            }
        }
        proof {
            assert(before.take(done) =~= before);
            lemma_sweep_is_sound(before, why);
        }
        self.groups = kept;
        out
    }

    /// Drops everyone who waits for a torrent that has gone, whatever the group:
    /// others in the group keep waiting.
    pub fn cancel_by_torrent_id(&mut self, torrent_id: i64) -> (r: (Vec<R>, Answer))
        requires
            old(self).wf(),
        ensures
            final(self).wf(),
            final(self).next_id == old(self).next_id,
            final(self).view_groups() == swept(old(self).view_groups(), Reason::Gone(torrent_id)),
            r.0@ == replies(swept_out(old(self).view_groups(), Reason::Gone(torrent_id))),
            r.1 == Answer::Io,
    {
        (self.sweep(Reason::Gone(torrent_id)), Answer::Io)
    }

    /// Drops everyone whose own time is up: someone who joined later keeps
    /// waiting.
    pub fn expire(&mut self, now: u64) -> (r: (Vec<R>, Answer))
        requires
            old(self).wf(),
        ensures
            final(self).wf(),
            final(self).next_id == old(self).next_id,
            final(self).view_groups() == swept(old(self).view_groups(), Reason::Due(now)),
            r.0@ == replies(swept_out(old(self).view_groups(), Reason::Due(now))),
            r.1 == Answer::NoData,
    {
        (self.sweep(Reason::Due(now)), Answer::NoData)
    }

    /// Takes the group of a ticket out of the table once its bytes are there. No
    /// bytes where some were asked for is not the end of the file: it is answered
    /// as no data.
    pub fn resolve_or_enodata(&mut self, id: u64, data: &[u8], size: u32) -> (r: (Vec<R>, Answer))
        requires
            old(self).wf(),
        ensures
            final(self).wf(),
            final(self).next_id == old(self).next_id,
            match ticket_at(old(self).view_groups(), id) {
                Some(at) => final(self).view_groups() == old(self).view_groups().remove(at)
                    && r.0@ == replies(old(self).view_groups()[at].waiters),
                None => final(self).view_groups() == old(self).view_groups() && r.0@
                    == Seq::<R>::empty(),
            },
            r.1 == (if data@.len() == 0 && size > 0 {
                Answer::NoData
            } else {
                Answer::Data
            }),
    {
        let waiting = self.resolve(id);
        if data.len() == 0 && size > 0 {
            (waiting, Answer::NoData)
        } else {
            (waiting, Answer::Data)
        }
    }
}

// ── Laws ────────────────────────────────────────────────────────────────────

/// Everyone who waits.
pub open spec fn everyone<R>(groups: Seq<GroupView<R>>) -> vstd::multiset::Multiset<Waiter<R>>
    decreases groups.len(),
{
    if groups.len() == 0 {
        vstd::multiset::Multiset::empty()
    } else {
        everyone(groups.drop_last()).add(groups.last().waiters.to_multiset())
    }
}

proof fn lemma_split<R>(waiters: Seq<Waiter<R>>, why: Reason)
    ensures
        waiters.to_multiset() == staying(waiters, why).to_multiset().add(
            leaving(waiters, why).to_multiset(),
        ),
    decreases waiters.len(),
{
    broadcast use vstd::seq_lib::group_to_multiset_ensures;

    reveal(Seq::filter);
    if waiters.len() > 0 {
        let init = waiters.drop_last();
        let w = waiters.last();
        lemma_split(init, why);
        assert(init.push(w) =~= waiters);
        assert(waiters.to_multiset() =~= init.to_multiset().insert(w));
        if why.drops(w) {
            assert(leaving(waiters, why) == leaving(init, why).push(w));
            assert(staying(waiters, why) == staying(init, why));
            assert(waiters.to_multiset() =~= staying(waiters, why).to_multiset().add(
                leaving(waiters, why).to_multiset(),
            ));
        } else {
            assert(staying(waiters, why) == staying(init, why).push(w));
            assert(leaving(waiters, why) == leaving(init, why));
            assert(waiters.to_multiset() =~= staying(waiters, why).to_multiset().add(
                leaving(waiters, why).to_multiset(),
            ));
        }
    } else {
        assert(staying(waiters, why).len() == 0);
        assert(leaving(waiters, why).len() == 0);
        assert(waiters.to_multiset() =~= staying(waiters, why).to_multiset().add(
            leaving(waiters, why).to_multiset(),
        ));
    }
}

/// No one is lost or answered twice when waiters are dropped: everyone who
/// waited either still waits or is answered, once.
pub proof fn law_sweep_answers_once<R>(groups: Seq<GroupView<R>>, why: Reason)
    ensures
        everyone(groups) == everyone(swept(groups, why)).add(
            swept_out(groups, why).to_multiset(),
        ),
    decreases groups.len(),
{
    broadcast use vstd::seq_lib::group_to_multiset_ensures;

    if groups.len() > 0 {
        let init = groups.drop_last();
        let g = groups.last();
        law_sweep_answers_once(init, why);
        lemma_split(g.waiters, why);
        let before = swept(init, why);
        let kept = staying(g.waiters, why);
        let gone = leaving(g.waiters, why);
        vstd::seq_lib::lemma_multiset_commutative(swept_out(init, why), gone);
        if kept.len() > 0 {
            let after = before.push(GroupView { id: g.id, key: g.key, waiters: kept });
            assert(after.drop_last() =~= before);
        } else {
            assert(kept =~= Seq::empty());
        }
        assert(everyone(groups) =~= everyone(swept(groups, why)).add(
            swept_out(groups, why).to_multiset(),
        ));
    } else {
        assert(everyone(groups) =~= everyone(swept(groups, why)).add(
            swept_out(groups, why).to_multiset(),
        ));
    }
}

/// No one is lost or answered twice when a ticket is resolved: everyone who
/// waited under it is answered, and everyone else still waits.
pub proof fn law_resolve_answers_once<R>(groups: Seq<GroupView<R>>, at: int)
    requires
        0 <= at < groups.len(),
    ensures
        everyone(groups) == everyone(groups.remove(at)).add(groups[at].waiters.to_multiset()),
    decreases groups.len(),
{
    let after = groups.remove(at);
    if at == groups.len() - 1 {
        assert(after =~= groups.drop_last());
    } else {
        let init = groups.drop_last();
        law_resolve_answers_once(init, at);
        assert(after.drop_last() =~= init.remove(at));
        assert(after.last() == groups.last());
    }
    assert(everyone(groups) =~= everyone(groups.remove(at)).add(
        groups[at].waiters.to_multiset(),
    ));
}

/// A reply that joins a group waits from then on, beside everyone who waited.
pub proof fn law_joining_adds_one<R>(groups: Seq<GroupView<R>>, at: int, w: Waiter<R>)
    requires
        0 <= at < groups.len(),
    ensures
        everyone(with_waiter(groups, at, w)) == everyone(groups).insert(w),
    decreases groups.len(),
{
    broadcast use vstd::seq_lib::group_to_multiset_ensures;

    let after = with_waiter(groups, at, w);
    if at == groups.len() - 1 {
        assert(after.drop_last() =~= groups.drop_last());
    } else {
        law_joining_adds_one(groups.drop_last(), at, w);
        assert(after.drop_last() =~= with_waiter(groups.drop_last(), at, w));
        assert(after.last() == groups.last());
    }
    assert(everyone(after) =~= everyone(groups).insert(w));
}

/// A reply that opens a group waits from then on, beside everyone who waited.
pub proof fn law_opening_adds_one<R>(
    groups: Seq<GroupView<R>>,
    id: u64,
    key: RangeView,
    w: Waiter<R>,
)
    ensures
        everyone(groups.push(GroupView { id, key, waiters: seq![w] })) == everyone(groups).insert(
            w,
        ),
{
    broadcast use vstd::seq_lib::group_to_multiset_ensures;

    let after = groups.push(GroupView { id, key, waiters: seq![w] });
    assert(after.drop_last() =~= groups);
    assert(seq![w] =~= Seq::<Waiter<R>>::empty().push(w));
    assert(everyone(after) =~= everyone(groups).insert(w));
}

/// A ticket that was resolved is not held any more: resolving it again answers no
/// one.
pub proof fn law_resolved_ticket_is_gone<R>(groups: Seq<GroupView<R>>, id: u64, at: int)
    requires
        sound(groups),
        ticket_at(groups, id) == Some(at),
    ensures
        ticket_at(groups.remove(at), id) is None,
        range_at(groups.remove(at), groups[at].key) is None,
{
    lemma_ticket_at(groups, id);
    let after = groups.remove(at);
    lemma_ticket_at(after, id);
    lemma_range_at(after, groups[at].key);
    if ticket_at(after, id) is Some {
        let i = ticket_at(after, id)->0;
        let j = if i < at {
            i
        } else {
            i + 1
        };
        assert(groups[j].id == id);
        if j < at {
            assert(groups[j].id != groups[at].id);
        } else {
            assert(groups[at].id != groups[j].id);
        }
    }
    if range_at(after, groups[at].key) is Some {
        let i = range_at(after, groups[at].key)->0;
        let j = if i < at {
            i
        } else {
            i + 1
        };
        assert(groups[j].key == groups[at].key);
        if j < at {
            assert(groups[j].key != groups[at].key);
        } else {
            assert(groups[at].key != groups[j].key);
        }
    }
}

/// Waiters are dropped one by one: whoever the reason does not name keeps
/// waiting, whatever group they are in.
pub proof fn law_sweep_spares_the_others<R>(
    groups: Seq<GroupView<R>>,
    why: Reason,
    at: int,
    w: Waiter<R>,
)
    requires
        0 <= at < groups.len(),
        groups[at].waiters.contains(w),
        !why.drops(w),
    ensures
        exists|i: int|
            0 <= i < swept(groups, why).len() && (#[trigger] swept(groups, why)[i]).id
                == groups[at].id && swept(groups, why)[i].waiters.contains(w),
    decreases groups.len(),
{
    let init = groups.drop_last();
    let after = swept(groups, why);
    if at == groups.len() - 1 {
        let all = groups[at].waiters;
        let keep = |x: Waiter<R>| !why.drops(x);
        all.filter_lemma(keep);
        let k = choose|k: int| 0 <= k < all.len() && all[k] == w;
        assert(keep(all[k]));
        assert(all.filter(keep).contains(all[k]));
        assert(staying(all, why) == all.filter(keep));
        assert(after[after.len() - 1].id == groups[at].id);
    } else {
        assert(init[at] == groups[at]);
        law_sweep_spares_the_others(init, why, at, w);
        let before = swept(init, why);
        let i = choose|i: int|
            0 <= i < before.len() && (#[trigger] before[i]).id == init[at].id
                && before[i].waiters.contains(w);
        assert(after[i] == before[i]);
    }
}

} // verus!
