//! Bringing an older database up to date.
use vstd::prelude::*;

use crate::bytes;
use crate::text;

verus! {

/// The version that every database ends up at.
pub const LATEST: i64 = 6;

/// One step of an update.
#[derive(Debug, Clone, Copy, PartialEq, Eq, Structural)]
pub enum Migration {
    /// Makes the tables of the first layout.
    CreateTables,
    /// Adds the columns that the first layout lacked.
    AddColumns,
    /// Makes the tables of directories below `metadata/`.
    CreateMetadataTables,
    /// Gives torrents a file name.
    AddFilenames,
    /// Lets one torrent stand at several places.
    KeyByPlace,
    /// Parts contents from sources.
    SplitSources,
    /// Fills the tables of directories below `metadata/`.
    RebuildDirectories,
}

impl Migration {
    /// The version of the database after a step, if the step changes it.
    pub open spec fn leads_to(self) -> Option<i64> {
        match self {
            Migration::CreateTables => Some(2),
            Migration::AddColumns => Some(2),
            Migration::CreateMetadataTables => Some(3),
            Migration::AddFilenames => Some(4),
            Migration::KeyByPlace => Some(5),
            Migration::SplitSources => Some(6),
            Migration::RebuildDirectories => None,
        }
    }

    /// The version of the database after a step, if the step changes it.
    pub fn version(&self) -> (v: Option<i64>)
        ensures
            v == self.leads_to(),
    {
        match self {
            Migration::CreateTables => Some(2),
            Migration::AddColumns => Some(2),
            Migration::CreateMetadataTables => Some(3),
            Migration::AddFilenames => Some(4),
            Migration::KeyByPlace => Some(5),
            Migration::SplitSources => Some(6),
            Migration::RebuildDirectories => None,
        }
    }

    /// Whether a step rebuilds a table that others refer to, and so has to run
    /// without the checks on references.
    pub fn unchecked(&self) -> (yes: bool)
        ensures
            yes == (*self == Migration::KeyByPlace || *self == Migration::SplitSources),
    {
        match self {
            Migration::KeyByPlace => true,
            Migration::SplitSources => true,
            _ => false,
        }
    }
}

/// A step, if it is needed.
pub open spec fn only_if(needed: bool, step: Migration) -> Seq<Migration> {
    if needed {
        seq![step]
    } else {
        Seq::empty()
    }
}

/// The steps from a version to the latest one.
pub open spec fn steps_from(version: i64) -> Seq<Migration> {
    only_if(version < 1, Migration::CreateTables) + only_if(version == 1, Migration::AddColumns)
        + only_if(version < 3, Migration::CreateMetadataTables) + only_if(
        version < 4,
        Migration::AddFilenames,
    ) + only_if(version < 5, Migration::KeyByPlace) + only_if(version < 6, Migration::SplitSources)
        + only_if(version < 3, Migration::RebuildDirectories)
}

fn push_if(steps: &mut Vec<Migration>, needed: bool, step: Migration)
    ensures
        final(steps)@ == old(steps)@ + only_if(needed, step),
{
    let ghost before = steps@;
    if needed {
        steps.push(step);
    }
    assert(steps@ =~= before + only_if(needed, step));
}

/// The steps from a version to the latest one, in the order in which they run.
pub fn migrations_from(version: i64) -> (steps: Vec<Migration>)
    ensures
        steps@ == steps_from(version),
{
    let mut steps: Vec<Migration> = Vec::new();
    push_if(&mut steps, version < 1, Migration::CreateTables);
    assert(steps@ =~= only_if(version < 1, Migration::CreateTables));
    push_if(&mut steps, version == 1, Migration::AddColumns);
    push_if(&mut steps, version < 3, Migration::CreateMetadataTables);
    push_if(&mut steps, version < 4, Migration::AddFilenames);
    push_if(&mut steps, version < 5, Migration::KeyByPlace);
    push_if(&mut steps, version < 6, Migration::SplitSources);
    push_if(&mut steps, version < 3, Migration::RebuildDirectories);
    steps
}

/// The version after some steps.
pub open spec fn version_after(version: i64, steps: Seq<Migration>) -> i64
    decreases steps.len(),
{
    if steps.len() == 0 {
        version
    } else {
        match steps.last().leads_to() {
            Some(v) => v,
            None => version_after(version, steps.drop_last()),
        }
    }
}

/// Every older database ends up at the latest version, and one that is there
/// already is left alone.
pub proof fn law_update_reaches_the_latest(version: i64)
    ensures
        version <= LATEST ==> version_after(version, steps_from(version)) == LATEST,
        version >= LATEST ==> steps_from(version) == Seq::<Migration>::empty(),
{
    let steps = steps_from(version);
    reveal_with_fuel(version_after, 3);
    if version >= LATEST {
        assert(steps =~= Seq::empty());
    } else if version < 3 {
        assert(steps.last() == Migration::RebuildDirectories);
        assert(steps.drop_last().last() == Migration::SplitSources);
    } else {
        assert(steps.last() == Migration::SplitSources);
    }
}

// ── Parting contents from sources ───────────────────────────────────────────

/// A torrent of the old layout, as far as it matters here: its number and its
/// bytes, if there are any.
pub struct OldTorrent {
    pub id: i64,
    pub data: Option<Vec<u8>>,
}

/// Whether two torrents have the same bytes.
pub open spec fn same_data(a: OldTorrent, b: OldTorrent) -> bool {
    match (a.data, b.data) {
        (Some(x), Some(y)) => x@ == y@,
        _ => false,
    }
}

/// Which torrent a torrent's content comes from: the first one with the same
/// bytes. A torrent without bytes is its own.
pub open spec fn origin(old: Seq<OldTorrent>, i: int) -> int
    decreases i,
{
    first_like(old, i, 0)
}

/// The first torrent from `j` on with the same bytes as torrent `i`, which stands
/// for itself.
pub open spec fn first_like(old: Seq<OldTorrent>, i: int, j: int) -> int
    decreases i - j,
{
    if j >= i || same_data(old[j], old[i]) {
        if j >= i {
            i
        } else {
            j
        }
    } else {
        first_like(old, i, j + 1)
    }
}

/// The numbers of the torrents whose contents come from others.
pub open spec fn duplicates(old: Seq<OldTorrent>, n: int) -> Seq<i64>
    decreases n,
{
    if n <= 0 {
        Seq::empty()
    } else if origin(old, n - 1) != n - 1 {
        duplicates(old, n - 1).push(old[n - 1].id)
    } else {
        duplicates(old, n - 1)
    }
}

/// How contents are parted from sources.
pub struct SplitPlan {
    /// For each torrent of the old layout, the one that its content comes from.
    pub origins: Vec<usize>,
    /// The numbers of the torrents whose contents come from others: their files
    /// are dropped.
    pub duplicates: Vec<i64>,
}

fn find_origin(old: &Vec<OldTorrent>, i: usize) -> (j: usize)
    requires
        i < old@.len(),
    ensures
        j == origin(old@, i as int),
        j <= i,
{
    let mut j: usize = 0;
    while j < i
        invariant
            i < old@.len(),
            j <= i,
            first_like(old@, i as int, 0) == first_like(old@, i as int, j as int),
        decreases i - j,
    {
        let same = match (&old[j].data, &old[i].data) {
            (Some(a), Some(b)) => bytes::same_bytes(a.as_slice(), b.as_slice()),
            _ => false,
        };
        if same {
            return j;
        }
        j = j + 1;
    }
    i
}

/// Plans how contents are parted from sources: torrents with the same bytes share
/// one content, and its files are those of the first of them.
pub fn plan_split(old: &Vec<OldTorrent>) -> (plan: SplitPlan)
    ensures
        plan.origins@.len() == old@.len(),
        forall|i: int|
            0 <= i < old@.len() ==> (#[trigger] plan.origins@[i]) == origin(old@, i),
        plan.duplicates@ == duplicates(old@, old@.len() as int),
{
    let mut origins: Vec<usize> = Vec::new();
    let mut dups: Vec<i64> = Vec::new();
    let mut i: usize = 0;
    assert(dups@ =~= duplicates(old@, 0));
    while i < old.len()
        invariant
            i <= old@.len(),
            origins@.len() == i,
            forall|k: int| 0 <= k < i ==> (#[trigger] origins@[k]) == origin(old@, k),
            dups@ == duplicates(old@, i as int),
        decreases old@.len() - i,
    {
        let j: usize = find_origin(old, i);
        origins.push(j);
        if j != i {
            dups.push(old[i].id);
        }
        i = i + 1;
    }
    SplitPlan { origins, duplicates: dups }
}

/// The first torrent with the same bytes is one of those with the same bytes, and
/// none comes before it.
pub proof fn lemma_origin(old: Seq<OldTorrent>, i: int, j: int)
    requires
        0 <= j <= i < old.len(),
        forall|k: int| 0 <= k < j ==> !same_data(#[trigger] old[k], old[i]),
    ensures
        j <= first_like(old, i, j) <= i,
        first_like(old, i, j) < i ==> same_data(old[first_like(old, i, j)], old[i]),
        forall|k: int|
            0 <= k < first_like(old, i, j) ==> !same_data(#[trigger] old[k], old[i]),
    decreases i - j,
{
    if j < i && !same_data(old[j], old[i]) {
        lemma_origin(old, i, j + 1);
    }
}

/// Two torrents share a content exactly when they have the same bytes; a torrent
/// without bytes shares none. A content comes from the first torrent that has it.
pub proof fn law_contents_are_shared_by_bytes(old: Seq<OldTorrent>, a: int, b: int)
    requires
        0 <= a < b < old.len(),
    ensures
        origin(old, a) == origin(old, b) <==> same_data(old[a], old[b]),
        0 <= origin(old, b) <= b,
        origin(old, origin(old, b)) == origin(old, b),
{
    lemma_origin(old, a, 0);
    lemma_origin(old, b, 0);
    let oa = origin(old, a);
    let ob = origin(old, b);
    lemma_origin(old, ob, 0);
    if same_data(old[a], old[b]) {
        if oa < ob {
            assert(same_data(old[oa], old[b])) by {
                if oa < a {
                    assert(same_data(old[oa], old[a]));
                }
            }
        }
        if ob < oa {
            assert(same_data(old[ob], old[a]));
        }
    }
    if oa == ob {
        if ob < b {
            assert(same_data(old[ob], old[b]));
        }
    }
    let oo = origin(old, ob);
    if oo < ob {
        assert(same_data(old[oo], old[ob]));
        if ob < b {
            assert(same_data(old[oo], old[b]));
        }
    }
}

/// Numbers with commas between them.
pub open spec fn comma_list(ids: Seq<i64>) -> Seq<char>
    decreases ids.len(),
{
    if ids.len() == 0 {
        Seq::empty()
    } else if ids.len() == 1 {
        text::dec_int(ids[0] as int)
    } else {
        comma_list(ids.drop_last()).push(',') + text::dec_int(ids.last() as int)
    }
}

/// Numbers with commas between them.
pub fn join_ids(ids: &Vec<i64>) -> (list: String)
    ensures
        list@ == comma_list(ids@),
{
    let mut list: String = String::new();
    let mut i: usize = 0;
    assert(list@ =~= comma_list(ids@.take(0)));
    while i < ids.len()
        invariant
            i <= ids@.len(),
            list@ == comma_list(ids@.take(i as int)),
        decreases ids@.len() - i,
    {
        assert(ids@.take(i as int + 1).drop_last() =~= ids@.take(i as int));
        assert(ids@.take(i as int + 1).last() == ids@[i as int]);
        if i > 0 {
            list.push(',');
        }
        let ghost before = list@;
        text::push_dec_int(&mut list, ids[i]);
        assert(list@ =~= comma_list(ids@.take(i as int + 1)));
        i = i + 1;
    }
    assert(ids@.take(ids@.len() as int) =~= ids@);
    list
}

/// Each step leads to its version, and the steps from a version are those that it
/// lacks, in order; the tables of directories are filled at the very end.
pub proof fn law_steps_from_each_version(version: i64)
    ensures
        LATEST == 6,
        Migration::CreateTables.leads_to() == Some(2i64),
        Migration::AddColumns.leads_to() == Some(2i64),
        Migration::CreateMetadataTables.leads_to() == Some(3i64),
        Migration::AddFilenames.leads_to() == Some(4i64),
        Migration::KeyByPlace.leads_to() == Some(5i64),
        Migration::SplitSources.leads_to() == Some(6i64),
        Migration::RebuildDirectories.leads_to() is None,
        ({
            let late = seq![Migration::AddFilenames, Migration::KeyByPlace, Migration::SplitSources];
            &&& version < 1 ==> steps_from(version) == seq![
                Migration::CreateTables,
                Migration::CreateMetadataTables,
            ] + late + seq![Migration::RebuildDirectories]
            &&& version == 1 ==> steps_from(version) == seq![
                Migration::AddColumns,
                Migration::CreateMetadataTables,
            ] + late + seq![Migration::RebuildDirectories]
            &&& version == 2 ==> steps_from(version) == seq![Migration::CreateMetadataTables] + late
                + seq![Migration::RebuildDirectories]
            &&& version == 3 ==> steps_from(version) == late
            &&& version == 4 ==> steps_from(version) == late.skip(1)
            &&& version == 5 ==> steps_from(version) == late.skip(2)
            &&& version >= 6 ==> steps_from(version) == Seq::<Migration>::empty()
        }),
{
    let late = seq![Migration::AddFilenames, Migration::KeyByPlace, Migration::SplitSources];
    if version < 1 {
        assert(steps_from(version) =~= seq![
            Migration::CreateTables,
            Migration::CreateMetadataTables,
        ] + late + seq![Migration::RebuildDirectories]);
    } else if version == 1 {
        assert(steps_from(version) =~= seq![Migration::AddColumns, Migration::CreateMetadataTables]
            + late + seq![Migration::RebuildDirectories]);
    } else if version == 2 {
        assert(steps_from(version) =~= seq![Migration::CreateMetadataTables] + late + seq![
            Migration::RebuildDirectories,
        ]);
    } else if version == 3 {
        assert(steps_from(version) =~= late);
    } else if version == 4 {
        assert(steps_from(version) =~= late.skip(1));
    } else if version == 5 {
        assert(steps_from(version) =~= late.skip(2));
    } else {
        assert(steps_from(version) =~= Seq::<Migration>::empty());
    }
}

/// Whether torrent `k` comes before torrent `i` and has the same bytes.
pub open spec fn repeats(old: Seq<OldTorrent>, k: int, i: int) -> bool {
    0 <= k < i && old[k].data is Some && old[i].data is Some && old[k].data->0@ == old[i].data->0@
}

/// Whether torrent `i` has that number and the bytes of one before it.
pub open spec fn is_repeated(old: Seq<OldTorrent>, i: int, id: i64) -> bool {
    old[i].id == id && exists|k: int| repeats(old, k, i)
}

/// The files of a torrent are dropped exactly when one before it has the same bytes.
pub proof fn law_repeated_contents_are_dropped(old: Seq<OldTorrent>, n: int, id: i64)
    requires
        0 <= n <= old.len(),
    ensures
        duplicates(old, n).contains(id) <==> exists|i: int| 0 <= i < n && is_repeated(old, i, id),
    decreases n,
{
    if n > 0 {
        law_repeated_contents_are_dropped(old, n - 1, id);
        let before = duplicates(old, n - 1);
        let after = duplicates(old, n);
        lemma_origin(old, n - 1, 0);
        let o = origin(old, n - 1);
        if o != n - 1 {
            assert(repeats(old, o, n - 1));
            assert(after[before.len() as int] == old[n - 1].id);
        }
        let last: int = n - 1;
        if exists|k: int| repeats(old, k, last) {
            let k = choose|k: int| repeats(old, k, last);
            assert(same_data(old[k], old[last]));
            assert(o != n - 1);
        }
        if before.contains(id) {
            let j = choose|j: int| 0 <= j < before.len() && before[j] == id;
            assert(after[j] == id);
        }
        if after.contains(id) && !before.contains(id) {
            let j = choose|j: int| 0 <= j < after.len() && after[j] == id;
            assert(j == before.len());
            assert(is_repeated(old, n - 1, id));
        }
        if exists|i: int| 0 <= i < n && is_repeated(old, i, id) {
            let i = choose|i: int| 0 <= i < n && is_repeated(old, i, id);
            if i == n - 1 {
                assert(after.contains(id));
            } else {
                assert(before.contains(id));
            }
        }
    }
}

/// Numbers in a list have one comma between each two of them.
pub proof fn law_numbers_have_commas_between(ids: Seq<i64>, id: i64)
    ensures
        comma_list(Seq::empty()) == Seq::<char>::empty(),
        comma_list(seq![id]) == text::dec_int(id as int),
        ids.len() > 0 ==> comma_list(ids.push(id)) == comma_list(ids) + seq![','] + text::dec_int(
            id as int,
        ),
{
    if ids.len() > 0 {
        assert(ids.push(id).drop_last() =~= ids);
        assert(comma_list(ids).push(',') + text::dec_int(id as int) =~= comma_list(ids) + seq![','] + text::dec_int(
            id as int,
        ));
    }
}

} // verus!
