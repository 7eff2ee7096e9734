//! Patterns and sums of queries.
use vstd::prelude::*;
use vstd::string::StrSliceExecFns;

use crate::paths;
use crate::text;

verus! {

/// Whether a character stands for itself in a pattern only behind a backslash.
pub open spec fn is_special(c: char) -> bool {
    c == '\\' || c == '%' || c == '_'
}

/// A text as a pattern without wildcards. SQLite's `LIKE` does not tell small from
/// capital letters of ASCII apart, so that the pattern of `a` matches `A` too;
/// [`stands_at_or_below`] does tell them apart.
pub open spec fn escaped(s: Seq<char>) -> Seq<char>
    decreases s.len(),
{
    if s.len() == 0 {
        Seq::empty()
    } else if is_special(s.last()) {
        escaped(s.drop_last()).push('\\').push(s.last())
    } else {
        escaped(s.drop_last()).push(s.last())
    }
}

/// A text as a pattern without wildcards; see [`escaped`].
pub fn escape_like_pattern(s: &str) -> (pattern: String)
    ensures
        pattern@ == escaped(s@),
{
    let chars = text::chars_of(s);
    let mut pattern: String = String::new();
    let mut i: usize = 0;
    assert(pattern@ =~= escaped(s@.take(0)));
    while i < chars.len()
        invariant
            chars@ == s@,
            i <= s@.len(),
            pattern@ == escaped(s@.take(i as int)),
        decreases s@.len() - i,
    {
        let c: char = chars[i];
        assert(s@.take(i as int + 1).drop_last() =~= s@.take(i as int));
        assert(s@.take(i as int + 1).last() == c);
        if c == '\\' || c == '%' || c == '_' {
            pattern.push('\\');
        }
        pattern.push(c);
        i = i + 1;
    }
    assert(s@.take(s@.len() as int) =~= s@);
    pattern
}

/// The pattern of the paths below a directory: all paths below none.
pub fn below_pattern(source_path: &str) -> (pattern: String)
    ensures
        pattern@ == (if source_path@.len() == 0 {
            "%"@
        } else {
            escaped(source_path@) + "/%"@
        }),
{
    if source_path.is_empty() {
        "%".to_owned()
    } else {
        let mut pattern: String = escape_like_pattern(source_path);
        text::push_text(&mut pattern, "/%");
        pattern
    }
}

/// Whether a path is a directory or stands below it. Every path stands below the
/// empty one.
pub open spec fn at_or_below(path: Seq<char>, dir: Seq<char>) -> bool {
    path == dir || paths::inside(dir).is_prefix_of(path)
}

/// Whether a path is a directory or stands below it. A row that a query by
/// [`below_pattern`] finds belongs to the directory only if this holds.
pub fn stands_at_or_below(path: &str, dir: &str) -> (yes: bool)
    ensures
        yes == at_or_below(path@, dir@),
{
    text::same(path, dir) || paths::strip_prefix(path, paths::inside_of(dir).as_str()).is_some()
}

/// The part of a path that follows a directory, if the path stands below it.
pub open spec fn next_part(path: Seq<char>, dir: Seq<char>) -> Option<Seq<char>> {
    let prefix = paths::inside(dir);
    let rest = path.skip(prefix.len() as int);
    if !prefix.is_prefix_of(path) || rest.len() == 0 {
        None
    } else {
        match paths::first_slash(rest) {
            Some(at) => Some(rest.take(at)),
            None => Some(rest),
        }
    }
}

/// The parts that follow a directory in some paths, each once, in the order in
/// which they first occur.
pub open spec fn next_parts(all: Seq<Seq<char>>, dir: Seq<char>) -> Seq<Seq<char>>
    decreases all.len(),
{
    if all.len() == 0 {
        Seq::empty()
    } else {
        let before = next_parts(all.drop_last(), dir);
        match next_part(all.last(), dir) {
            Some(part) => if before.contains(part) {
                before
            } else {
                before.push(part)
            },
            None => before,
        }
    }
}

fn part_after(path: &str, dir: &str) -> (part: Option<String>)
    ensures
        text::opt_view(part) == next_part(path@, dir@),
{
    let rest = match paths::strip_prefix(path, paths::inside_of(dir).as_str()) {
        Some(rest) => rest,
        None => {
            return None;
        },
    };
    if rest.as_str().is_empty() {
        return None;
    }
    match paths::find_slash(rest.as_str()) {
        Some(at) => {
            let part: String = rest.as_str().substring_char(0, at).to_owned();
            assert(part@ =~= rest@.take(at as int));
            Some(part)
        },
        None => Some(rest),
    }
}

/// The directories that follow a directory on the way to some paths.
pub fn parts_below(all: &Vec<String>, dir: &str) -> (parts: Vec<String>)
    ensures
        text::texts(parts@) == next_parts(text::texts(all@), dir@),
{
    let ghost seen = text::texts(all@);
    let mut parts: Vec<String> = Vec::new();
    let mut i: usize = 0;
    assert(text::texts(parts@) =~= next_parts(seen.take(0), dir@));
    while i < all.len()
        invariant
            i <= all@.len(),
            seen == text::texts(all@),
            text::texts(parts@) == next_parts(seen.take(i as int), dir@),
        decreases all@.len() - i,
    {
        let ghost was = parts@;
        assert(seen.take(i as int + 1).drop_last() =~= seen.take(i as int));
        assert(seen.take(i as int + 1).last() == all@[i as int]@);
        match part_after(all[i].as_str(), dir) {
            Some(part) => {
                if !text::among(&parts, part.as_str()) {
                    let ghost new = part@;
                    parts.push(part);
                    assert(text::texts(parts@) =~= text::texts(was).push(new));
                }
            },
            None => {},
        }
        i = i + 1;
    }
    assert(seen.take(seen.len() as int) =~= seen);
    parts
}

/// The count of a status among rows of statuses and counts: the last one.
pub open spec fn count_of(rows: Seq<(String, i64)>, status: Seq<char>) -> i64
    decreases rows.len(),
{
    if rows.len() == 0 {
        0
    } else if rows.last().0@ == status {
        rows.last().1
    } else {
        count_of(rows.drop_last(), status)
    }
}

/// The counts of the four statuses add up, from the left, within their type.
pub open spec fn sums_fit(rows: Seq<(String, i64)>) -> bool {
    let two = count_of(rows, "pending"@) + count_of(rows, "downloading"@);
    let three = two + count_of(rows, "seeding"@);
    let four = three + count_of(rows, "error"@);
    &&& i64::MIN <= two <= i64::MAX
    &&& i64::MIN <= three <= i64::MAX
    &&& i64::MIN <= four <= i64::MAX
}

/// The counts of the four statuses and their sum. A status that is not known does
/// not count.
pub fn counts_by_status(rows: &Vec<(String, i64)>) -> (r: (i64, i64, i64, i64, i64))
    requires
        sums_fit(rows@),
    ensures
        r.0 == count_of(rows@, "pending"@),
        r.1 == count_of(rows@, "downloading"@),
        r.2 == count_of(rows@, "seeding"@),
        r.3 == count_of(rows@, "error"@),
        r.4 == r.0 + r.1 + r.2 + r.3,
{
    let mut pending: i64 = 0;
    let mut downloading: i64 = 0;
    let mut seeding: i64 = 0;
    let mut error: i64 = 0;
    let mut i: usize = 0;
    proof {
        reveal_strlit("pending");
        reveal_strlit("downloading");
        reveal_strlit("seeding");
        reveal_strlit("error");
        assert("pending"@[0] != "seeding"@[0]);
        assert("downloading"@.len() == 11 && "pending"@.len() == 7 && "seeding"@.len() == 7
            && "error"@.len() == 5);
    }
    while i < rows.len()
        invariant
            i <= rows@.len(),
            pending == count_of(rows@.take(i as int), "pending"@),
            downloading == count_of(rows@.take(i as int), "downloading"@),
            seeding == count_of(rows@.take(i as int), "seeding"@),
            error == count_of(rows@.take(i as int), "error"@),
            "pending"@ != "downloading"@,
            "pending"@ != "seeding"@,
            "pending"@ != "error"@,
            "downloading"@ != "seeding"@,
            "downloading"@ != "error"@,
            "seeding"@ != "error"@,
        decreases rows@.len() - i,
    {
        assert(rows@.take(i as int + 1).drop_last() =~= rows@.take(i as int));
        assert(rows@.take(i as int + 1).last() == rows@[i as int]);
        let status = rows[i].0.as_str();
        let count: i64 = rows[i].1;
        if text::same(status, "pending") {
            pending = count;
        } else if text::same(status, "downloading") {
            downloading = count;
        } else if text::same(status, "seeding") {
            seeding = count;
        } else if text::same(status, "error") {
            error = count;
        }
        i = i + 1;
    }
    assert(rows@.take(rows@.len() as int) =~= rows@);
    (pending, downloading, seeding, error, pending + downloading + seeding + error)
}

// ── Laws ────────────────────────────────────────────────────────────────────

/// In a pattern every character stands behind those before it: a backslash, a percent
/// sign and an underscore behind a backslash of their own, any other as it is.
pub proof fn law_pattern_stands_for_its_text(s: Seq<char>, c: char)
    ensures
        escaped(Seq::empty()) == Seq::<char>::empty(),
        c == '\\' || c == '%' || c == '_' ==> escaped(s.push(c)) == escaped(s) + seq!['\\', c],
        c != '\\' && c != '%' && c != '_' ==> escaped(s.push(c)) == escaped(s) + seq![c],
{
    assert(s.push(c).drop_last() =~= s);
    assert(escaped(s).push('\\').push(c) =~= escaped(s) + seq!['\\', c]);
    assert(escaped(s).push(c) =~= escaped(s) + seq![c]);
}

/// A path is at or below a directory when it is the directory, or goes on behind it
/// with a slash; everything is below the directory without a path.
pub proof fn law_what_is_below_a_directory(path: Seq<char>, dir: Seq<char>)
    ensures
        dir.len() == 0 ==> at_or_below(path, dir),
        at_or_below(dir, dir),
        dir.len() > 0 ==> (at_or_below(path, dir) <==> path == dir || (dir + seq![
            '/',
        ]).is_prefix_of(path)),
{
    assert(dir + seq!['/'] =~= dir.push('/'));
    if dir.len() == 0 {
        assert(paths::inside(dir) =~= path.take(0));
    }
}

/// The part that follows a directory goes up to the next slash, or to the end.
pub proof fn law_next_part_goes_up_to_a_slash(
    dir: Seq<char>,
    part: Seq<char>,
    more: Seq<char>,
    path: Seq<char>,
)
    requires
        part.len() > 0,
        !part.contains('/'),
    ensures
        ({
            let below = if dir.len() == 0 {
                Seq::empty()
            } else {
                dir + seq!['/']
            };
            &&& next_part(below + part, dir) == Some(part)
            &&& next_part(below + part + seq!['/'] + more, dir) == Some(part)
            &&& next_part(below, dir) is None
            &&& !below.is_prefix_of(path) ==> next_part(path, dir) is None
        }),
{
    let below = if dir.len() == 0 {
        Seq::empty()
    } else {
        dir + seq!['/']
    };
    assert(below =~= paths::inside(dir));
    let short = below + part;
    let long = below + part + seq!['/'] + more;
    let n = below.len() as int;
    assert(short.skip(n) =~= part);
    assert(long.skip(n) =~= part + seq!['/'] + more);
    assert(below.is_prefix_of(short)) by {
        assert(short.take(n) =~= below);
    }
    assert(below.is_prefix_of(long)) by {
        assert(long.take(n) =~= below);
    }
    paths::lemma_first_slash(part);
    if let Some(at) = paths::first_slash(part) {
        assert(part.contains(part[at]));
    }
    let rest = part + seq!['/'] + more;
    paths::lemma_first_slash(rest);
    assert(rest[part.len() as int] == '/');
    match paths::first_slash(rest) {
        Some(at) => {
            if at < part.len() {
                assert(part[at] == rest[at]);
                assert(part.contains(part[at]));
            }
            assert(rest.take(at) =~= part);
        },
        None => {},
    }
}

/// The directories that follow a directory are the next parts of the paths, each once.
pub proof fn law_next_parts_come_from_the_paths(all: Seq<Seq<char>>, dir: Seq<char>, part: Seq<char>)
    ensures
        next_parts(all, dir).contains(part) <==> exists|i: int|
            0 <= i < all.len() && next_part(#[trigger] all[i], dir) == Some(part),
        next_parts(all, dir).no_duplicates(),
    decreases all.len(),
{
    if all.len() > 0 {
        let rest = all.drop_last();
        law_next_parts_come_from_the_paths(rest, dir, part);
        let before = next_parts(rest, dir);
        let after = next_parts(all, dir);
        let n = all.len() - 1;
        assert(all[n] == all.last());
        if before.contains(part) {
            let i = choose|i: int|
                0 <= i < rest.len() && next_part(#[trigger] rest[i], dir) == Some(part);
            assert(next_part(all[i], dir) == Some(part));
            let k = choose|k: int| 0 <= k < before.len() && before[k] == part;
            assert(after[k] == part);
        }
        if after.contains(part) && !before.contains(part) {
            let k = choose|k: int| 0 <= k < after.len() && after[k] == part;
            assert(k == before.len());
            assert(next_part(all[n], dir) == Some(part));
        }
        if exists|i: int| 0 <= i < all.len() && next_part(#[trigger] all[i], dir) == Some(part) {
            let i = choose|i: int|
                0 <= i < all.len() && next_part(#[trigger] all[i], dir) == Some(part);
            if i < n {
                assert(next_part(rest[i], dir) == Some(part));
            } else if !before.contains(part) {
                assert(after[before.len() as int] == part);
            }
        }
        if let Some(new) = next_part(all.last(), dir) {
            if !before.contains(new) {
                assert forall|i: int, j: int| 0 <= i < j < after.len() implies after[i]
                    != after[j] by {
                    if j == before.len() {
                        assert(before.contains(before[i]));
                    }
                }
            }
        }
    }
}

/// The count of a status is that of its last row, and none without a row.
pub proof fn law_last_row_counts(rows: Seq<(String, i64)>, row: (String, i64), status: Seq<char>)
    ensures
        rows.len() == 0 ==> count_of(rows, status) == 0,
        row.0@ == status ==> count_of(rows.push(row), status) == row.1,
        row.0@ != status ==> count_of(rows.push(row), status) == count_of(rows, status),
{
    assert(rows.push(row).drop_last() =~= rows);
}

} // verus!
