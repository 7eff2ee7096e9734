//! Who waits, for how long, and who is left when waiters are dropped.
use vstd::prelude::*;

use crate::fuse::inodes;
use crate::fuse::inodes::{Node, NodeData};
use crate::fuse::pending;
use crate::fuse::pending::{Group, GroupView, RangeKey, RangeView, Reason, Waiter};
use crate::fuse::requests;
use crate::fuse::requests::SetAttr;

verus! {

// ── How long a reply waits ──────────────────────────────────────────────────

/// A reply gives up five seconds after the engine would, or, without an engine, five
/// seconds after the read timeout; later than any clock can show means never.
pub proof fn law_when_a_reply_gives_up(now: u64, budget: Option<u64>, read_timeout_secs: u64)
    ensures
        ({
            let wait = match budget {
                Some(secs) => secs,
                None => read_timeout_secs,
            };
            let end = now + (wait + 5) * 1_000_000_000;
            &&& end <= u64::MAX ==> requests::deadline_of(now, budget, read_timeout_secs) == end
            &&& end > u64::MAX ==> requests::deadline_of(now, budget, read_timeout_secs) == u64::MAX
        }),
{
    let wait = match budget {
        Some(secs) => secs,
        None => read_timeout_secs,
    };
    if wait + 5 > u64::MAX {
        assert(u64::MAX * 1_000_000_000 > u64::MAX);
    }
}

/// There is room for 256 ranges.
pub proof fn law_room_for_ranges()
    ensures
        pending::MAX_PENDING == 256,
{
}

// ── Who is dropped ──────────────────────────────────────────────────────────

/// Waiters are dropped with their torrent, whoever they wait with, and at their
/// deadline, not before.
pub proof fn law_who_is_dropped<R>(w: Waiter<R>, torrent_id: i64, now: u64)
    ensures
        Reason::Gone(torrent_id).drops(w) <==> w.torrent_id == torrent_id,
        Reason::Due(now).drops(w) <==> now >= w.deadline,
{
}

/// Whether a waiter stays, whatever the reason is to drop some.
pub open spec fn stays<R>(w: Waiter<R>, why: Reason) -> bool {
    match why {
        Reason::Gone(torrent_id) => w.torrent_id != torrent_id,
        Reason::Due(now) => now < w.deadline,
    }
}

/// What is left of a group.
pub open spec fn what_is_left<R>(g: GroupView<R>, why: Reason) -> GroupView<R> {
    GroupView { id: g.id, key: g.key, waiters: g.waiters.filter(|w: Waiter<R>| stays(w, why)) }
}

proof fn lemma_same_tests<R>(
    s: Seq<Waiter<R>>,
    a: spec_fn(Waiter<R>) -> bool,
    b: spec_fn(Waiter<R>) -> bool,
)
    requires
        forall|w: Waiter<R>| #[trigger] a(w) == b(w),
    ensures
        s.filter(a) == s.filter(b),
    decreases s.len(),
{
    reveal(Seq::filter);
    if s.len() > 0 {
        lemma_same_tests(s.drop_last(), a, b);
        assert(a(s.last()) == b(s.last()));
    }
}

proof fn lemma_left<R>(g: GroupView<R>, why: Reason)
    ensures
        pending::staying(g.waiters, why) == what_is_left(g, why).waiters,
{
    lemma_same_tests(
        g.waiters,
        |w: Waiter<R>| !why.drops(w),
        |w: Waiter<R>| stays(w, why),
    );
}

/// A sweep leaves of every group those who stay, under the same ticket and for the
/// same range, and nothing else; a group without anyone left goes.
pub proof fn law_what_a_sweep_leaves<R>(groups: Seq<GroupView<R>>, why: Reason, g: GroupView<R>)
    ensures
        pending::swept(groups, why).contains(g) <==> g.waiters.len() > 0 && exists|i: int|
            0 <= i < groups.len() && g == what_is_left(#[trigger] groups[i], why),
    decreases groups.len(),
{
    if groups.len() > 0 {
        let rest = groups.drop_last();
        law_what_a_sweep_leaves(rest, why, g);
        let before = pending::swept(rest, why);
        let after = pending::swept(groups, why);
        let n = groups.len() - 1;
        let last = what_is_left(groups.last(), why);
        lemma_left(groups.last(), why);
        assert(groups[n] == groups.last());
        if before.contains(g) {
            let k = choose|k: int| 0 <= k < before.len() && before[k] == g;
            assert(after[k] == g);
            let i = choose|i: int|
                0 <= i < rest.len() && g == what_is_left(#[trigger] rest[i], why);
            assert(g == what_is_left(groups[i], why));
        }
        if g == last && g.waiters.len() > 0 {
            assert(after[before.len() as int] == last);
        }
        if after.contains(g) {
            let k = choose|k: int| 0 <= k < after.len() && after[k] == g;
            if k < before.len() {
                assert(before[k] == g);
            } else {
                assert(g == what_is_left(groups[n], why));
            }
        }
        if exists|i: int| 0 <= i < groups.len() && g == what_is_left(#[trigger] groups[i], why) {
            let i = choose|i: int|
                0 <= i < groups.len() && g == what_is_left(#[trigger] groups[i], why);
            if i < n {
                assert(g == what_is_left(rest[i], why));
            }
        }
    }
}

/// Everyone whom a sweep answers is to be dropped.
pub proof fn law_whom_a_sweep_answers<R>(groups: Seq<GroupView<R>>, why: Reason, k: int)
    requires
        0 <= k < pending::swept_out(groups, why).len(),
    ensures
        !stays(pending::swept_out(groups, why)[k], why),
    decreases groups.len(),
{
    let rest = groups.drop_last();
    let before = pending::swept_out(rest, why);
    if k < before.len() {
        law_whom_a_sweep_answers(rest, why, k);
    } else {
        let test = |w: Waiter<R>| why.drops(w);
        groups.last().waiters.filter_lemma(test);
        let left = pending::leaving(groups.last().waiters, why);
        assert(left[k - before.len()] == pending::swept_out(groups, why)[k]);
        assert(test(left[k - before.len()]));
    }
}

/// The replies of waiters are theirs, in order.
pub proof fn law_replies_are_theirs<R>(waiters: Seq<Waiter<R>>, i: int)
    requires
        0 <= i < waiters.len(),
    ensures
        pending::replies(waiters).len() == waiters.len(),
        pending::replies(waiters)[i] == waiters[i].reply,
{
}

// ── The table ───────────────────────────────────────────────────────────────

/// In a sound table a ticket and a range are found where they stand, and only there.
pub proof fn law_tickets_and_ranges_are_found<R>(
    groups: Seq<GroupView<R>>,
    id: u64,
    key: RangeView,
)
    requires
        pending::sound(groups),
    ensures
        match pending::ticket_at(groups, id) {
            Some(i) => 0 <= i < groups.len() && groups[i].id == id,
            None => forall|i: int| 0 <= i < groups.len() ==> (#[trigger] groups[i]).id != id,
        },
        match pending::range_at(groups, key) {
            Some(i) => 0 <= i < groups.len() && groups[i].key == key,
            None => forall|i: int| 0 <= i < groups.len() ==> (#[trigger] groups[i]).key != key,
        },
{
    lemma_found(groups, id, key);
}

proof fn lemma_found<R>(groups: Seq<GroupView<R>>, id: u64, key: RangeView)
    ensures
        match pending::ticket_at(groups, id) {
            Some(i) => 0 <= i < groups.len() && groups[i].id == id,
            None => forall|i: int| 0 <= i < groups.len() ==> (#[trigger] groups[i]).id != id,
        },
        match pending::range_at(groups, key) {
            Some(i) => 0 <= i < groups.len() && groups[i].key == key,
            None => forall|i: int| 0 <= i < groups.len() ==> (#[trigger] groups[i]).key != key,
        },
    decreases groups.len(),
{
    if groups.len() > 0 {
        let rest = groups.drop_last();
        lemma_found(rest, id, key);
        assert(forall|i: int| 0 <= i < rest.len() ==> rest[i] == groups[i]);
        assert forall|i: int| 0 <= i < groups.len() && i != groups.len() - 1 implies groups[i]
            == rest[i] by {}
    }
}

/// Who joins a group waits at its end; its ticket, its range and all other groups stay
/// as they were.
pub proof fn law_joining_changes_one_group<R>(
    groups: Seq<GroupView<R>>,
    at: int,
    w: Waiter<R>,
    i: int,
)
    requires
        0 <= at < groups.len(),
        0 <= i < groups.len(),
    ensures
        ({
            let after = pending::with_waiter(groups, at, w);
            &&& after.len() == groups.len()
            &&& i != at ==> after[i] == groups[i]
            &&& after[at].id == groups[at].id
            &&& after[at].key == groups[at].key
            &&& after[at].waiters == groups[at].waiters.push(w)
        }),
{
}

// ── Attributes ──────────────────────────────────────────────────────────────

/// A request for a size is one to truncate exactly when it asks for nothing else.
pub proof fn law_truncation_asks_for_nothing_else(a: SetAttr)
    ensures
        a.changes_attributes() <==> !(!a.mode && !a.uid && !a.gid && !a.atime && !a.mtime
            && !a.ctime && !a.crtime && !a.chgtime && !a.bkuptime),
{
}

// ── The nodes that are known ────────────────────────────────────────────────

/// Whether a node is of a torrent that is being added to a directory under one of
/// some names.
pub open spec fn being_added(data: NodeData, dir: Seq<char>, names: Seq<Seq<char>>) -> bool {
    match data {
        NodeData::SourcePathDir { .. } => false,
        NodeData::TorrentRoot { torrent_id, source_path, filename, .. } => torrent_id == 0
            && source_path == dir && names.contains(filename),
        NodeData::TorrentDir { torrent_id, source_path, filename, .. } => torrent_id == 0
            && source_path == dir && names.contains(filename),
        NodeData::TorrentFile { torrent_id, source_path, filename, .. } => torrent_id == 0
            && source_path == dir && names.contains(filename),
    }
}

/// What is forgotten once a directory lists names are the nodes of the torrents that
/// were being added to it under those names; everything else stays as it was.
pub proof fn law_what_is_forgotten(
    table: Map<Node, NodeData>,
    dir: Seq<char>,
    names: Seq<Seq<char>>,
    n: Node,
)
    ensures
        ({
            let after = inodes::without_stale(table, dir, names);
            &&& after.contains_key(n) <==> table.contains_key(n) && !being_added(
                table[n],
                dir,
                names,
            )
            &&& after.contains_key(n) ==> after[n] == table[n]
        }),
{
}

/// What is entered last of a node is what is known of it; a node that is not entered
/// stays as it was.
pub proof fn law_what_is_entered_is_known(
    table: Map<Node, NodeData>,
    more: Seq<(Node, NodeData)>,
    entry: (Node, NodeData),
    n: Node,
)
    requires
        n != entry.0,
    ensures
        ({
            let before = inodes::with_nodes(table, more);
            let after = inodes::with_nodes(table, more.push(entry));
            &&& inodes::with_nodes(table, Seq::empty()) == table
            &&& after.contains_key(entry.0)
            &&& after[entry.0] == entry.1
            &&& after.contains_key(n) == before.contains_key(n)
            &&& before.contains_key(n) ==> after[n] == before[n]
        }),
{
    assert(more.push(entry).drop_last() =~= more);
}

/// Reads share a download exactly when they ask for the same bytes: of the same torrent
/// and file, from the same offset and of the same size.
pub proof fn law_which_reads_share_a_download(a: RangeKey, b: RangeKey)
    ensures
        a@ == b@ <==> a.info_hash@ == b.info_hash@ && a.file_index == b.file_index && a.offset
            == b.offset && a.size == b.size,
        a@.info_hash == a.info_hash@,
        a@.file_index == a.file_index,
        a@.offset == a.offset,
        a@.size == a.size,
{
}

/// The plain values of a group are those of its fields.
pub proof fn law_group_is_its_fields<R>(g: Group<R>, groups: Seq<Group<R>>, i: int)
    requires
        0 <= i < groups.len(),
    ensures
        g@.id == g.id,
        g@.key == g.key@,
        g@.waiters == g.waiters@,
        pending::groups_view(groups).len() == groups.len(),
        pending::groups_view(groups)[i] == groups[i]@,
{
}

} // verus!
