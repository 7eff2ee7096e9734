//! Slash-separated paths and file names.
use vstd::prelude::*;

use vstd::string::StrSliceExecFns;

use crate::text;

verus! {

/// Where the first slash stands, if there is one.
pub open spec fn first_slash(path: Seq<char>) -> Option<int>
    decreases path.len(),
{
    if path.len() == 0 {
        None
    } else if path[0] == '/' {
        Some(0)
    } else {
        match first_slash(path.skip(1)) {
            Some(at) => Some(at + 1),
            None => None,
        }
    }
}

/// Where the last slash stands, if there is one.
pub open spec fn last_slash(path: Seq<char>) -> Option<int>
    decreases path.len(),
{
    if path.len() == 0 {
        None
    } else if path.last() == '/' {
        Some(path.len() - 1)
    } else {
        last_slash(path.drop_last())
    }
}

/// The path of what a directory holds under a name.
pub open spec fn child(dir: Seq<char>, name: Seq<char>) -> Seq<char> {
    if dir.len() == 0 {
        name
    } else {
        dir.push('/') + name
    }
}

/// What every path within a directory starts with.
pub open spec fn inside(dir: Seq<char>) -> Seq<char> {
    if dir.len() == 0 {
        Seq::empty()
    } else {
        dir.push('/')
    }
}

/// The directory that a path stands in; none for a path of one part.
pub open spec fn parent(path: Seq<char>) -> Option<Seq<char>> {
    match last_slash(path) {
        Some(at) => Some(path.take(at)),
        None => None,
    }
}

/// A file name without the endings `.torrent` that it carries.
pub open spec fn stem(name: Seq<char>) -> Seq<char>
    decreases name.len(),
{
    if name.len() >= 8 && name.skip(name.len() - 8) == seq![
        '.',
        't',
        'o',
        'r',
        'r',
        'e',
        'n',
        't',
    ] {
        stem(name.take(name.len() - 8))
    } else {
        name
    }
}

/// The first slash is a slash, and none stands before it.
pub proof fn lemma_first_slash(path: Seq<char>)
    ensures
        match first_slash(path) {
            Some(at) => 0 <= at < path.len() && path[at] == '/' && forall|i: int|
                0 <= i < at ==> path[i] != '/',
            None => forall|i: int| 0 <= i < path.len() ==> path[i] != '/',
        },
    decreases path.len(),
{
    if path.len() > 0 && path[0] != '/' {
        let rest = path.skip(1);
        lemma_first_slash(rest);
        assert(forall|i: int| 1 <= i < path.len() ==> path[i] == rest[i - 1]);
    }
}

/// The last slash is a slash, and none stands after it.
pub proof fn lemma_last_slash(path: Seq<char>)
    ensures
        match last_slash(path) {
            Some(at) => 0 <= at < path.len() && path[at] == '/' && forall|i: int|
                at < i < path.len() ==> path[i] != '/',
            None => forall|i: int| 0 <= i < path.len() ==> path[i] != '/',
        },
    decreases path.len(),
{
    if path.len() > 0 && path.last() != '/' {
        lemma_last_slash(path.drop_last());
        assert(forall|i: int| 0 <= i < path.len() - 1 ==> path[i] == path.drop_last()[i]);
    }
}

/// Looks for the first slash.
pub fn find_slash(path: &str) -> (at: Option<usize>)
    ensures
        (match at {
            Some(i) => Some(i as int),
            None => None,
        }) == first_slash(path@),
        at matches Some(i) ==> i < path@.len(),
{
    let chars = text::chars_of(path);
    let mut i: usize = 0;
    assert(path@.skip(0) =~= path@);
    while i < chars.len()
        invariant
            chars@ == path@,
            i <= path@.len(),
            first_slash(path@) == (match first_slash(path@.skip(i as int)) {
                Some(at) => Some(at + i),
                None => None,
            }),
        decreases path@.len() - i,
    {
        if chars[i] == '/' {
            return Some(i);
        }
        assert(path@.skip(i as int).skip(1) =~= path@.skip(i as int + 1));
        i = i + 1;
    }
    None
}

/// The directory that a path stands in; none for a path of one part.
pub fn parent_of(path: &str) -> (dir: Option<String>)
    ensures
        text::opt_view(dir) == parent(path@),
{
    let chars = text::chars_of(path);
    let mut i: usize = chars.len();
    assert(path@.take(i as int) =~= path@);
    while i > 0
        invariant
            chars@ == path@,
            i <= path@.len(),
            last_slash(path@) == last_slash(path@.take(i as int)),
        decreases i,
    {
        assert(path@.take(i as int).last() == path@[i - 1]);
        assert(path@.take(i as int).drop_last() =~= path@.take(i as int - 1));
        i = i - 1;
        if chars[i] == '/' {
            let dir = path.substring_char(0, i).to_owned();
            assert(dir@ =~= path@.take(i as int));
            return Some(dir);
        }
    }
    None
}

/// The path of what a directory holds under a name.
pub fn child_of(dir: &str, name: &str) -> (path: String)
    ensures
        path@ == child(dir@, name@),
{
    if dir.is_empty() {
        name.to_owned()
    } else {
        let mut path: String = dir.to_owned();
        path.push('/');
        text::push_text(&mut path, name);
        path
    }
}

/// What every path within a directory starts with.
pub fn inside_of(dir: &str) -> (prefix: String)
    ensures
        prefix@ == inside(dir@),
{
    let mut prefix: String = dir.to_owned();
    if !dir.is_empty() {
        prefix.push('/');
    } else {
        assert(prefix@ =~= Seq::empty());
    }
    prefix
}

/// What a text holds after a prefix, if it starts with it.
pub fn strip_prefix(s: &str, prefix: &str) -> (rest: Option<String>)
    ensures
        text::opt_view(rest) == (if prefix@.is_prefix_of(s@) {
            Some(s@.skip(prefix@.len() as int))
        } else {
            None
        }),
{
    let n: usize = prefix.unicode_len();
    let len: usize = s.unicode_len();
    if n > len {
        return None;
    }
    let head = s.substring_char(0, n);
    assert(head@ =~= s@.take(n as int));
    if text::same(head, prefix) {
        let rest = s.substring_char(n, len).to_owned();
        assert(rest@ =~= s@.skip(n as int));
        assert(prefix@.is_prefix_of(s@));
        Some(rest)
    } else {
        None
    }
}

/// A file name without the endings `.torrent` that it carries.
pub fn stem_of(name: &str) -> (s: String)
    ensures
        s@ == stem(name@),
{
    let mut end: usize = name.unicode_len();
    assert(name@.take(end as int) =~= name@);
    proof {
        reveal_strlit(".torrent");
        assert(".torrent"@ =~= seq!['.', 't', 'o', 'r', 'r', 'e', 'n', 't']);
    }
    while end >= 8 && text::same(name.substring_char(end - 8, end), ".torrent")
        invariant
            end <= name@.len(),
            stem(name@) == stem(name@.take(end as int)),
            ".torrent"@ == seq!['.', 't', 'o', 'r', 'r', 'e', 'n', 't'],
        decreases end,
    {
        let ghost upto = name@.take(end as int);
        assert(upto.skip(upto.len() - 8) =~= name@.subrange(end as int - 8, end as int));
        assert(upto.take(upto.len() - 8) =~= name@.take(end as int - 8));
        end = end - 8;
    }
    let ghost upto = name@.take(end as int);
    proof {
        if end >= 8 {
            assert(upto.skip(upto.len() - 8) =~= name@.subrange(end as int - 8, end as int));
        }
    }
    let s = name.substring_char(0, end).to_owned();
    assert(s@ =~= upto);
    s
}

// ── Laws ────────────────────────────────────────────────────────────────────

/// A name that ends in `.torrent` has the stem of what stands before the ending; any
/// other name is its own stem.
pub proof fn law_stem_has_no_ending(name: Seq<char>)
    ensures
        stem(name + ".torrent"@) == stem(name),
        !".torrent"@.is_suffix_of(name) ==> stem(name) == name,
        !".torrent"@.is_suffix_of(stem(name)),
    decreases name.len(),
{
    reveal_strlit(".torrent");
    let ending = seq!['.', 't', 'o', 'r', 'r', 'e', 'n', 't'];
    assert(".torrent"@ =~= ending);
    let long = name + ending;
    assert(long.skip(long.len() - 8) =~= ending);
    assert(long.take(long.len() - 8) =~= name);
    if name.len() >= 8 {
        assert(name.skip(name.len() - 8) =~= name.subrange(name.len() - 8, name.len() as int));
        if name.skip(name.len() - 8) == ending {
            law_stem_has_no_ending(name.take(name.len() - 8));
            assert(ending.is_suffix_of(name));
        } else {
            assert(!ending.is_suffix_of(name));
        }
    }
}

/// What a directory holds under a name has the path of the directory, a slash and the
/// name; at the top, the name alone.
pub proof fn law_path_of_a_child(dir: Seq<char>, name: Seq<char>)
    ensures
        dir.len() == 0 ==> child(dir, name) == name,
        dir.len() > 0 ==> child(dir, name) == dir + seq!['/'] + name,
        inside(dir) + name == child(dir, name),
{
    assert(dir.push('/') + name =~= dir + seq!['/'] + name);
    assert(inside(dir) + name =~= child(dir, name));
}

/// A path stands in the directory before its last slash; one without a slash stands in
/// none.
pub proof fn law_parent_stands_before_the_last_slash(dir: Seq<char>, name: Seq<char>)
    requires
        !name.contains('/'),
    ensures
        parent(name) is None,
        parent(dir + seq!['/'] + name) == Some(dir),
{
    lemma_last_slash(name);
    if let Some(at) = last_slash(name) {
        assert(name.contains(name[at]));
    }
    let path = dir + seq!['/'] + name;
    lemma_last_slash(path);
    assert(path[dir.len() as int] == '/');
    match last_slash(path) {
        Some(at) => {
            if at > dir.len() {
                assert(path[at] == name[at - dir.len() - 1]);
                assert(name.contains('/'));
            }
            assert(path.take(at) =~= dir);
        },
        None => {},
    }
}

} // verus!
