//! Merging the trackers of two torrents with the same content.
use vstd::hash_set::StringHashSet;
use vstd::prelude::*;

verus! {

/// A tracker and its tier.
#[derive(Debug, Clone)]
pub struct TrackerEntry {
    pub url: String,
    pub tier: u8,
}

/// A tracker and its tier, as mathematics.
#[verifier::ext_equal]
pub struct Tracker {
    pub url: Seq<char>,
    pub tier: u8,
}

impl View for TrackerEntry {
    type V = Tracker;

    open spec fn view(&self) -> Tracker {
        Tracker { url: self.url@, tier: self.tier }
    }
}

/// A list of trackers.
pub open spec fn trackers_view(list: Seq<TrackerEntry>) -> Seq<Tracker> {
    list.map_values(|t: TrackerEntry| t@)
}

/// Whether a tracker with the given address is in the list.
pub open spec fn has_url(list: Seq<Tracker>, url: Seq<char>) -> bool {
    exists|i: int| 0 <= i < list.len() && (#[trigger] list[i]).url == url
}

/// The list with the first `n` incoming trackers behind it, each only when its
/// address is not there yet.
pub open spec fn merged(existing: Seq<Tracker>, incoming: Seq<Tracker>, n: nat) -> Seq<Tracker>
    decreases n,
{
    if n == 0 {
        existing
    } else {
        let before = merged(existing, incoming, (n - 1) as nat);
        if has_url(before, incoming[n - 1].url) {
            before
        } else {
            before.push(incoming[n - 1])
        }
    }
}

/// What a request to merge trackers comes to.
#[derive(Debug)]
pub enum MergeOutcome {
    /// The torrent has no handle yet: it will be made with its own trackers.
    NoHandle,
    /// One of the two torrents is private: their trackers stay apart.
    Isolated { existing_private: bool, incoming_private: bool },
    /// One of the lists could not be read.
    Unreadable,
    /// There is nothing new.
    NothingNew,
    /// The handle's trackers are to be replaced by these, and announced to.
    Replace(Vec<TrackerEntry>),
}

/// What a request to merge trackers comes to, as mathematics.
#[verifier::ext_equal]
pub enum MergeView {
    NoHandle,
    Isolated { existing_private: bool, incoming_private: bool },
    Unreadable,
    NothingNew,
    Replace(Seq<Tracker>),
}

impl View for MergeOutcome {
    type V = MergeView;

    open spec fn view(&self) -> MergeView {
        match self {
            MergeOutcome::NoHandle => MergeView::NoHandle,
            MergeOutcome::Isolated { existing_private, incoming_private } => MergeView::Isolated {
                existing_private: *existing_private,
                incoming_private: *incoming_private,
            },
            MergeOutcome::Unreadable => MergeView::Unreadable,
            MergeOutcome::NothingNew => MergeView::NothingNew,
            MergeOutcome::Replace(list) => MergeView::Replace(trackers_view(list@)),
        }
    }
}

/// See [`merge_trackers`].
pub open spec fn merge_outcome(
    has_handle: bool,
    known_private: Option<bool>,
    incoming_private: bool,
    incoming: Option<Seq<Tracker>>,
    existing: Option<Seq<Tracker>>,
) -> MergeView {
    let existing_private = match known_private {
        Some(p) => p,
        None => true,
    };
    if !has_handle {
        MergeView::NoHandle
    } else if incoming_private || existing_private {
        MergeView::Isolated { existing_private, incoming_private }
    } else {
        match incoming {
            None => MergeView::Unreadable,
            Some(new) => if new.len() == 0 {
                MergeView::NothingNew
            } else {
                match existing {
                    None => MergeView::Unreadable,
                    Some(old_list) => {
                        let all = merged(old_list, new, new.len());
                        if all.len() == old_list.len() {
                            MergeView::NothingNew
                        } else {
                            MergeView::Replace(all)
                        }
                    },
                }
            },
        }
    }
}

/// The list that was read, as mathematics.
pub open spec fn list_view(list: Option<Vec<TrackerEntry>>) -> Option<Seq<Tracker>> {
    match list {
        Some(v) => Some(trackers_view(v@)),
        None => None,
    }
}

/// A copy of a tracker.
fn copy_tracker(t: &TrackerEntry) -> (copy: TrackerEntry)
    ensures
        copy@ == t@,
{
    TrackerEntry { url: t.url.clone(), tier: t.tier }
}

/// The existing trackers followed by the incoming ones whose address is new.
/// Existing trackers keep their place and tier.
pub fn merge_lists(existing: &Vec<TrackerEntry>, incoming: &Vec<TrackerEntry>) -> (all: Vec<
    TrackerEntry,
>)
    ensures
        trackers_view(all@) == merged(
            trackers_view(existing@),
            trackers_view(incoming@),
            incoming@.len(),
        ),
{
    let mut all: Vec<TrackerEntry> = Vec::new();
    let mut seen: StringHashSet = StringHashSet::new();
    let ghost before = trackers_view(existing@);
    let ghost new = trackers_view(incoming@);
    let mut i: usize = 0;
    while i < existing.len()
        invariant
            i <= existing@.len(),
            before == trackers_view(existing@),
            trackers_view(all@) == before.take(i as int),
            forall|url: Seq<char>| #[trigger] seen@.contains(url) == has_url(trackers_view(all@), url),
        decreases existing@.len() - i,
    {
        let ghost was = all@;
        let ghost set_was = seen@;
        all.push(copy_tracker(&existing[i]));
        seen.insert(existing[i].url.clone());
        proof {
            let t = existing@[i as int]@;
            assert(trackers_view(all@) =~= trackers_view(was).push(t));
            assert(before.take(i as int + 1) =~= before.take(i as int).push(t));
            lemma_seen_after_push(trackers_view(was), t, set_was);
            assert(seen@ == set_was.insert(t.url));
        }
        i = i + 1;
    }
    assert(before.take(before.len() as int) =~= before);
    let mut k: usize = 0;
    while k < incoming.len()
        invariant
            k <= incoming@.len(),
            before == trackers_view(existing@),
            new == trackers_view(incoming@),
            trackers_view(all@) == merged(before, new, k as nat),
            forall|url: Seq<char>| #[trigger] seen@.contains(url) == has_url(trackers_view(all@), url),
        decreases incoming@.len() - k,
    {
        let ghost was = all@;
        let ghost set_was = seen@;
        assert(new[k as int] == incoming@[k as int]@);
        if !seen.contains(incoming[k].url.as_str()) {
            seen.insert(incoming[k].url.clone());
            all.push(copy_tracker(&incoming[k]));
            proof {
                let t = incoming@[k as int]@;
                assert(trackers_view(all@) =~= trackers_view(was).push(t));
                lemma_seen_after_push(trackers_view(was), t, set_was);
            }
        }
        k = k + 1;
    }
    all
}

/// The addresses of a list after one more tracker.
proof fn lemma_seen_after_push(list: Seq<Tracker>, t: Tracker, seen: Set<Seq<char>>)
    requires
        forall|url: Seq<char>| #[trigger] seen.contains(url) == has_url(list, url),
    ensures
        forall|url: Seq<char>| #[trigger]
            seen.insert(t.url).contains(url) == has_url(list.push(t), url),
{
    assert forall|url: Seq<char>| #[trigger] seen.insert(t.url).contains(url) == has_url(
        list.push(t),
        url,
    ) by {
        if has_url(list, url) {
            let i = choose|i: int| 0 <= i < list.len() && (#[trigger] list[i]).url == url;
            assert(list.push(t)[i].url == url);
        }
        if url == t.url {
            assert(list.push(t)[list.len() as int].url == url);
        }
        if has_url(list.push(t), url) {
            let i = choose|i: int|
                0 <= i < list.push(t).len() && (#[trigger] list.push(t)[i]).url == url;
            if i < list.len() {
                assert(list[i].url == url);
            }
        }
    }
}

/// Decides what becomes of the trackers of a torrent whose content is already
/// served. Private torrents stay isolated: when either is private, or when it
/// is not known whether the existing one is, nothing is merged.
pub fn merge_trackers(
    has_handle: bool,
    known_private: Option<bool>,
    incoming_private: bool,
    incoming: &Option<Vec<TrackerEntry>>,
    existing: &Option<Vec<TrackerEntry>>,
) -> (outcome: MergeOutcome)
    ensures
        outcome@ == merge_outcome(
            has_handle,
            known_private,
            incoming_private,
            list_view(*incoming),
            list_view(*existing),
        ),
{
    if !has_handle {
        return MergeOutcome::NoHandle;
    }
    let existing_private: bool = match known_private {
        Some(p) => p,
        None => true,
    };
    if incoming_private || existing_private {
        return MergeOutcome::Isolated { existing_private, incoming_private };
    }
    let new: &Vec<TrackerEntry> = match incoming {
        Some(list) => list,
        None => {
            return MergeOutcome::Unreadable;
        },
    };
    if new.len() == 0 {
        return MergeOutcome::NothingNew;
    }
    let current: &Vec<TrackerEntry> = match existing {
        Some(list) => list,
        None => {
            return MergeOutcome::Unreadable;
        },
    };
    let all: Vec<TrackerEntry> = merge_lists(current, new);
    if all.len() == current.len() {
        MergeOutcome::NothingNew
    } else {
        MergeOutcome::Replace(all)
    }
}

// ── Laws ────────────────────────────────────────────────────────────────────

/// No tracker ever passes between two torrents of which one is private, or of
/// which one is not known to be public.
pub proof fn law_private_torrents_are_isolated(
    has_handle: bool,
    known_private: Option<bool>,
    incoming_private: bool,
    incoming: Option<Seq<Tracker>>,
    existing: Option<Seq<Tracker>>,
)
    requires
        incoming_private || known_private != Some(false),
    ensures
        !(merge_outcome(has_handle, known_private, incoming_private, incoming, existing) is Replace),
{
}

/// The existing trackers stay in front, in order and with their tiers.
pub proof fn law_existing_trackers_stay(existing: Seq<Tracker>, incoming: Seq<Tracker>, n: nat)
    requires
        n <= incoming.len(),
    ensures
        merged(existing, incoming, n).len() >= existing.len(),
        merged(existing, incoming, n).take(existing.len() as int) == existing,
    decreases n,
{
    if n == 0 {
        assert(existing.take(existing.len() as int) =~= existing);
    } else {
        law_existing_trackers_stay(existing, incoming, (n - 1) as nat);
        let before = merged(existing, incoming, (n - 1) as nat);
        assert(before.push(incoming[n - 1]).take(existing.len() as int) =~= before.take(
            existing.len() as int,
        ));
    }
}

/// Every incoming address is in the merged list.
pub proof fn law_incoming_trackers_arrive(
    existing: Seq<Tracker>,
    incoming: Seq<Tracker>,
    n: nat,
    k: int,
)
    requires
        n <= incoming.len(),
        0 <= k < n,
    ensures
        has_url(merged(existing, incoming, n), incoming[k].url),
    decreases n,
{
    let before = merged(existing, incoming, (n - 1) as nat);
    let after = merged(existing, incoming, n);
    if k < n - 1 {
        law_incoming_trackers_arrive(existing, incoming, (n - 1) as nat, k);
        let i = choose|i: int| 0 <= i < before.len() && (#[trigger] before[i]).url == incoming[k].url;
        assert(after[i].url == incoming[k].url);
    } else if !has_url(before, incoming[k].url) {
        assert(after[before.len() as int].url == incoming[k].url);
    }
}

/// No address occurs twice.
pub open spec fn urls_distinct(list: Seq<Tracker>) -> bool {
    forall|i: int, j: int|
        0 <= i < list.len() && 0 <= j < list.len() && #[trigger] list[i].url == #[trigger] list[j].url
            ==> i == j
}

/// Merging never makes an address occur twice.
pub proof fn law_merge_makes_no_duplicates(existing: Seq<Tracker>, incoming: Seq<Tracker>, n: nat)
    requires
        n <= incoming.len(),
        urls_distinct(existing),
    ensures
        urls_distinct(merged(existing, incoming, n)),
    decreases n,
{
    if n > 0 {
        law_merge_makes_no_duplicates(existing, incoming, (n - 1) as nat);
        let before = merged(existing, incoming, (n - 1) as nat);
        let t = incoming[n - 1];
        if !has_url(before, t.url) {
            let after = before.push(t);
            assert forall|i: int, j: int|
                0 <= i < after.len() && 0 <= j < after.len() && #[trigger] after[i].url
                    == #[trigger] after[j].url implies i == j by {
                if i < before.len() && j < before.len() {
                    assert(before[i].url == before[j].url);
                } else if i < before.len() {
                    assert(before[i].url == t.url);
                } else if j < before.len() {
                    assert(before[j].url == t.url);
                }
            }
        }
    }
}

/// Merging the same trackers again finds nothing new.
pub proof fn law_merge_is_idempotent(existing: Seq<Tracker>, incoming: Seq<Tracker>, n: nat)
    requires
        n <= incoming.len(),
    ensures
        merged(merged(existing, incoming, incoming.len()), incoming, n) == merged(
            existing,
            incoming,
            incoming.len(),
        ),
    decreases n,
{
    if n > 0 {
        law_merge_is_idempotent(existing, incoming, (n - 1) as nat);
        law_incoming_trackers_arrive(existing, incoming, incoming.len(), n - 1);
    }
}

/// The trackers are to be replaced exactly when the torrent is served, both torrents
/// are known to be public, both lists could be read, and some incoming address is new;
/// with nothing new, nothing happens.
pub proof fn law_when_trackers_are_replaced(
    has_handle: bool,
    known_private: Option<bool>,
    incoming_private: bool,
    incoming: Seq<Tracker>,
    existing: Seq<Tracker>,
)
    ensures
        ({
            let r = merge_outcome(
                has_handle,
                known_private,
                incoming_private,
                Some(incoming),
                Some(existing),
            );
            let public = has_handle && known_private == Some(false) && !incoming_private;
            let new = exists|k: int|
                0 <= k < incoming.len() && !has_url(existing, (#[trigger] incoming[k]).url);
            &&& r is Replace <==> public && new
            &&& r is NothingNew <==> public && !new
            &&& r is NoHandle <==> !has_handle
            &&& r is Isolated <==> has_handle && !public
            &&& r matches MergeView::Isolated { existing_private: e, incoming_private: i } ==> e
                == (known_private != Some(false)) && i == incoming_private
            &&& r matches MergeView::Replace(all) ==> {
                &&& all.len() > existing.len()
                &&& all.take(existing.len() as int) == existing
                &&& forall|k: int|
                    0 <= k < incoming.len() ==> has_url(all, (#[trigger] incoming[k]).url)
                &&& forall|i: int|
                    existing.len() <= i < all.len() ==> incoming.contains(#[trigger] all[i])
                        && !has_url(existing, all[i].url)
            }
        }),
{
    law_existing_trackers_stay(existing, incoming, incoming.len());
    lemma_added_are_new(existing, incoming, incoming.len());
    let all = merged(existing, incoming, incoming.len());
    assert forall|k: int| 0 <= k < incoming.len() implies has_url(
        all,
        (#[trigger] incoming[k]).url,
    ) by {
        law_incoming_trackers_arrive(existing, incoming, incoming.len(), k);
    }
    if all.len() > existing.len() {
        let t = all[existing.len() as int];
        assert(incoming.contains(t));
        let k = choose|k: int| 0 <= k < incoming.len() && incoming[k] == t;
        assert(!has_url(existing, incoming[k].url));
    } else {
        assert(all =~= existing);
    }
    if exists|k: int| 0 <= k < incoming.len() && !has_url(existing, (#[trigger] incoming[k]).url) {
        let k = choose|k: int|
            0 <= k < incoming.len() && !has_url(existing, (#[trigger] incoming[k]).url);
        assert(has_url(all, incoming[k].url));
    }
}

/// What a merge adds comes from the incoming trackers, with their tiers.
proof fn lemma_added_are_new(existing: Seq<Tracker>, incoming: Seq<Tracker>, n: nat)
    requires
        n <= incoming.len(),
    ensures
        forall|i: int|
            existing.len() <= i < merged(existing, incoming, n).len() ==> incoming.contains(
                #[trigger] merged(existing, incoming, n)[i],
            ) && !has_url(existing, merged(existing, incoming, n)[i].url),
    decreases n,
{
    if n > 0 {
        lemma_added_are_new(existing, incoming, (n - 1) as nat);
        law_existing_trackers_stay(existing, incoming, (n - 1) as nat);
        let before = merged(existing, incoming, (n - 1) as nat);
        let t = incoming[n - 1];
        if !has_url(before, t.url) {
            assert(!has_url(existing, t.url)) by {
                if has_url(existing, t.url) {
                    let i = choose|i: int|
                        0 <= i < existing.len() && (#[trigger] existing[i]).url == t.url;
                    assert(before.take(existing.len() as int)[i] == existing[i]);
                    assert(before[i].url == t.url);
                }
            }
            assert forall|i: int|
                existing.len() <= i < merged(existing, incoming, n).len() implies incoming.contains(
                #[trigger] merged(existing, incoming, n)[i],
            ) && !has_url(existing, merged(existing, incoming, n)[i].url) by {
                if i < before.len() {
                    assert(merged(existing, incoming, n)[i] == before[i]);
                }
            }
        }
    }
}

/// Without a list that could be read, nothing is replaced.
pub proof fn law_unreadable_trackers_change_nothing(
    incoming: Option<Seq<Tracker>>,
    existing: Option<Seq<Tracker>>,
)
    requires
        incoming is None || (existing is None && incoming->0.len() > 0),
    ensures
        merge_outcome(true, Some(false), false, incoming, existing) == MergeView::Unreadable,
{
}

/// The plain values of trackers, of lists of them and of outcomes are those of their
/// fields.
pub proof fn law_tracker_is_its_fields(t: TrackerEntry, list: Vec<TrackerEntry>, i: int)
    requires
        0 <= i < list@.len(),
    ensures
        t@.url == t.url@,
        t@.tier == t.tier,
        trackers_view(list@).len() == list@.len(),
        trackers_view(list@)[i].url == list@[i].url@,
        trackers_view(list@)[i].tier == list@[i].tier,
        list_view(Some(list)) == Some(trackers_view(list@)),
        list_view(None) is None,
        MergeOutcome::NoHandle@ == MergeView::NoHandle,
        MergeOutcome::Unreadable@ == MergeView::Unreadable,
        MergeOutcome::NothingNew@ == MergeView::NothingNew,
        MergeOutcome::Replace(list)@ == MergeView::Replace(trackers_view(list@)),
        forall|e: bool, n: bool|
            (#[trigger] MergeOutcome::Isolated { existing_private: e, incoming_private: n }@) == (
            MergeView::Isolated { existing_private: e, incoming_private: n }),
{
}

} // verus!
