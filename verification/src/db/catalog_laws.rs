//! What the operations on the database come to, statement by statement, and what
//! they keep.
use vstd::prelude::*;

use crate::db::catalog::{
    Answer, InsertEnd, InsertMode, Insertion, MoveOverwriteResult, Next, Relocation, Removal,
    Statement,
};

verus! {

// ── The tables ──────────────────────────────────────────────────────────────

/// A content.
pub struct Content {
    pub info_hash: String,
    pub total_size: i64,
    pub file_count: i64,
    pub data: Option<Seq<u8>>,
}

/// A source.
pub struct Source {
    pub content_id: i64,
    pub path: Seq<char>,
    pub filename: Seq<char>,
}

/// The contents and the sources in the database.
#[verifier::ext_equal]
pub struct Tables {
    pub contents: Map<i64, Content>,
    pub sources: Map<i64, Source>,
}

/// What a request is about: a content and a place.
pub struct Request {
    pub content: Content,
    pub path: Seq<char>,
    pub filename: Seq<char>,
}

impl Tables {
    /// Whether a source stands at a place.
    pub open spec fn stands_at(self, id: i64, path: Seq<char>, filename: Seq<char>) -> bool {
        self.sources.contains_key(id) && self.sources[id].path == path && self.sources[id].filename
            == filename
    }

    /// The source at a place.
    pub open spec fn source_at(self, path: Seq<char>, filename: Seq<char>) -> Option<i64> {
        if exists|id: i64| self.stands_at(id, path, filename) {
            Some(choose|id: i64| self.stands_at(id, path, filename))
        } else {
            None
        }
    }

    /// The sources of a content.
    pub open spec fn sources_of(self, content_id: i64) -> Set<i64> {
        Set::new(
            |id: i64| self.sources.contains_key(id) && self.sources[id].content_id == content_id,
        )
    }

    /// The sources of contents with a hash.
    pub open spec fn sources_of_hash(self, info_hash: Seq<char>) -> Set<i64> {
        Set::new(
            |id: i64|
                self.sources.contains_key(id) && self.contents.contains_key(
                    self.sources[id].content_id,
                ) && self.contents[self.sources[id].content_id].info_hash@ == info_hash,
        )
    }

    /// What every operation keeps: each source has a content, each content a
    /// source, and no two sources stand at one place.
    pub open spec fn sound(self) -> bool {
        &&& self.sources.dom().finite()
        &&& forall|id: i64| #[trigger]
            self.sources.contains_key(id) ==> self.contents.contains_key(
                self.sources[id].content_id,
            )
        &&& forall|c: i64| #[trigger]
            self.contents.contains_key(c) ==> exists|id: i64| #[trigger]
                self.sources.contains_key(id) && self.sources[id].content_id == c
        &&& forall|a: i64, b: i64|
            a != b && #[trigger] self.sources.contains_key(a) && #[trigger]
            self.sources.contains_key(b) ==> !(self.sources[a].path == self.sources[b].path
                && self.sources[a].filename == self.sources[b].filename)
    }
}

impl Content {
    /// Whether a content in the database is that of a request: the same bytes or,
    /// where the request has none, the same hash, size and number of files.
    pub open spec fn is(self, wanted: Content) -> bool {
        match wanted.data {
            Some(bytes) => self.data == Some(bytes),
            None => self.info_hash@ == wanted.info_hash@ && self.total_size == wanted.total_size
                && self.file_count == wanted.file_count,
        }
    }
}

/// What the database is free in: which of several matching contents it finds, and
/// the numbers of new rows.
pub struct Choice {
    pub found: Option<i64>,
    pub new_content: i64,
    pub new_source: i64,
}

impl Choice {
    /// Whether the database can choose so.
    pub open spec fn possible(self, t: Tables, request: Request) -> bool {
        &&& match self.found {
            Some(c) => t.contents.contains_key(c) && t.contents[c].is(request.content),
            None => forall|c: i64| #[trigger]
                t.contents.contains_key(c) ==> !t.contents[c].is(request.content),
        }
        &&& !t.contents.contains_key(self.new_content)
        &&& !t.sources.contains_key(self.new_source)
    }
}

/// What a statement does to the tables, and what it gives.
pub open spec fn perform(
    t: Tables,
    request: Request,
    target: (Seq<char>, Seq<char>),
    removed_hash: Seq<char>,
    choice: Choice,
    statement: Statement,
) -> (Tables, Answer) {
    match statement {
        Statement::FindSource => (t, Answer::Found(t.source_at(request.path, request.filename))),
        Statement::FindContent => (t, Answer::Found(choice.found)),
        Statement::InsertContent => (
            Tables { contents: t.contents.insert(choice.new_content, request.content), ..t },
            Answer::New(choice.new_content),
        ),
        Statement::InsertFiles { .. } => (t, Answer::Done),
        Statement::FindContentOf { source_id } => (
            t,
            Answer::Content(
                if t.sources.contains_key(source_id) {
                    let c = t.sources[source_id].content_id;
                    Some((c, t.contents[c].info_hash))
                } else {
                    None
                },
            ),
        ),
        Statement::Repoint { source_id, content_id } => (
            Tables {
                sources: t.sources.insert(
                    source_id,
                    Source { content_id, ..t.sources[source_id] },
                ),
                ..t
            },
            Answer::Done,
        ),
        Statement::InsertSource { content_id } => (
            Tables {
                sources: t.sources.insert(
                    choice.new_source,
                    Source { content_id, path: request.path, filename: request.filename },
                ),
                ..t
            },
            Answer::New(choice.new_source),
        ),
        Statement::CountSources { content_id } => (
            t,
            Answer::Count(t.sources_of(content_id).len() as i64),
        ),
        Statement::DeleteContent { content_id } => (
            Tables { contents: t.contents.remove(content_id), ..t },
            Answer::Done,
        ),
        Statement::CountSourcesOfHash => (
            t,
            Answer::Count(t.sources_of_hash(removed_hash).len() as i64),
        ),
        Statement::DeleteSource { source_id } => (
            Tables { sources: t.sources.remove(source_id), ..t },
            Answer::Done,
        ),
        Statement::FindTarget => (t, Answer::Found(t.source_at(target.0, target.1))),
        Statement::Relocate { source_id } => (
            if t.sources.contains_key(source_id) {
                Tables {
                    sources: t.sources.insert(
                        source_id,
                        Source { path: target.0, filename: target.1, ..t.sources[source_id] },
                    ),
                    ..t
                }
            } else {
                t
            },
            Answer::Done,
        ),
    }
}

/// The tables without a content, if no source is left of it.
pub open spec fn without_orphan(t: Tables, content_id: i64) -> Tables {
    if t.sources_of(content_id).is_empty() {
        Tables { contents: t.contents.remove(content_id), ..t }
    } else {
        t
    }
}

proof fn lemma_count(t: Tables, s: Set<i64>)
    requires
        t.sources.dom().finite(),
        t.sources.dom().len() <= i64::MAX,
        s.subset_of(t.sources.dom()),
    ensures
        (s.len() as i64 == 0) == s.is_empty(),
{
    vstd::set_lib::lemma_len_subset(s, t.sources.dom());
    if s.len() == 0 {
        s.lemma_len0_is_empty();
    }
}

// ── Inserting ───────────────────────────────────────────────────────────────

/// Runs an insertion from a step on.
pub open spec fn insertion_run(
    t: Tables,
    request: Request,
    mode: InsertMode,
    choice: Choice,
    step: Next<Insertion, InsertEnd>,
    fuel: nat,
) -> Option<(Tables, InsertEnd)>
    decreases fuel,
{
    match step {
        Next::End(end) => Some((t, end)),
        Next::Broken => None,
        Next::Run(at, statement) => if fuel == 0 {
            None
        } else {
            let removed_hash = match at {
                Insertion::CountedHash { old_hash, .. } => old_hash@,
                _ => Seq::empty(),
            };
            let (after, answer) = perform(
                t,
                request,
                (Seq::empty(), Seq::empty()),
                removed_hash,
                choice,
                statement,
            );
            insertion_run(
                after,
                request,
                mode,
                choice,
                at.after(mode, answer),
                (fuel - 1) as nat,
            )
        },
    }
}

/// The content that a request ends up at.
pub open spec fn content_for(choice: Choice) -> i64 {
    match choice.found {
        Some(c) => c,
        None => choice.new_content,
    }
}

/// The tables once the content of a request is in them.
pub open spec fn with_content(t: Tables, request: Request, choice: Choice) -> Tables {
    match choice.found {
        Some(_) => t,
        None => Tables { contents: t.contents.insert(choice.new_content, request.content), ..t },
    }
}

/// The tables after an insertion: the content is there, once; the source at the
/// place is new or points at it; and the content it pointed at before is gone if
/// it was the last source of it.
pub open spec fn inserted(t: Tables, request: Request, choice: Choice) -> Tables {
    let ready = with_content(t, request, choice);
    let content_id = content_for(choice);
    match t.source_at(request.path, request.filename) {
        None => Tables {
            sources: ready.sources.insert(
                choice.new_source,
                Source { content_id, path: request.path, filename: request.filename },
            ),
            ..ready
        },
        Some(source_id) => {
            let old = t.sources[source_id].content_id;
            let pointed = Tables {
                sources: ready.sources.insert(
                    source_id,
                    Source { content_id, ..t.sources[source_id] },
                ),
                ..ready
            };
            if old == content_id {
                pointed
            } else {
                without_orphan(pointed, old)
            }
        },
    }
}

/// What an insertion that runs to its end comes to.
pub proof fn law_insertion_runs_to_its_end(
    t: Tables,
    request: Request,
    mode: InsertMode,
    choice: Choice,
)
    requires
        t.sound(),
        t.sources.dom().len() < i64::MAX,
        choice.possible(t, request),
    ensures
        match insertion_run(
            t,
            request,
            mode,
            choice,
            Next::Run(Insertion::LookedForSource, Statement::FindSource),
            9,
        ) {
            None => false,
            Some((after, end)) => match (t.source_at(request.path, request.filename), end) {
                (Some(id), InsertEnd::Duplicate(same)) => !mode.replace && id == same && after == t,
                (source, InsertEnd::Placed(o)) => {
                    &&& source is Some ==> mode.replace
                    &&& after == inserted(t, request, choice)
                    &&& o.content_id == content_for(choice)
                    &&& o.content_created == choice.found is None
                    &&& o.source_reused == source is Some
                    &&& match source {
                        Some(id) => {
                            let old = t.contents[t.sources[id].content_id];
                            &&& o.source_id == id
                            &&& match o.stale_info_hash {
                                Some(h) => h@ == old.info_hash@ && after.sources_of_hash(
                                    h@,
                                ).is_empty(),
                                None => !after.sources_of_hash(old.info_hash@).is_empty(),
                            }
                        },
                        None => o.source_id == choice.new_source && o.stale_info_hash is None,
                    }
                },
                _ => false,
            },
        },
{
    reveal_with_fuel(insertion_run, 10);
    let source = t.source_at(request.path, request.filename);
    let ready = with_content(t, request, choice);
    let content_id = content_for(choice);
    match source {
        None => {},
        Some(id) => {
            assert(t.stands_at(id, request.path, request.filename)) by {
                assert(exists|id: i64| t.stands_at(id, request.path, request.filename));
            }
            let old_id = t.sources[id].content_id;
            let old_hash = t.contents[old_id].info_hash;
            assert(t.contents.contains_key(old_id));
            let pointed = Tables {
                sources: ready.sources.insert(id, Source { content_id, ..t.sources[id] }),
                ..ready
            };
            assert(pointed.sources.dom() =~= t.sources.dom());
            assert(pointed.sources_of(old_id).subset_of(pointed.sources.dom()));
            lemma_count(pointed, pointed.sources_of(old_id));
            let gone = Tables { contents: pointed.contents.remove(old_id), ..pointed };
            assert(gone.sources_of_hash(old_hash@).subset_of(gone.sources.dom()));
            lemma_count(gone, gone.sources_of_hash(old_hash@));
            if old_id == content_id {
                assert(pointed.sources_of_hash(old_hash@).contains(id));
            } else if !pointed.sources_of(old_id).is_empty() {
                let other = choose|other: i64| pointed.sources_of(old_id).contains(other);
                assert(pointed.sources_of(old_id).contains(other)) by {
                    if forall|x: i64| !pointed.sources_of(old_id).contains(x) {
                        assert(pointed.sources_of(old_id) =~= Set::empty());
                    }
                }
                assert(pointed.sources_of_hash(old_hash@).contains(other));
            }
        },
    }
}

proof fn lemma_place_is_unique(t: Tables, path: Seq<char>, filename: Seq<char>, id: i64)
    requires
        t.sound(),
        t.stands_at(id, path, filename),
    ensures
        t.source_at(path, filename) == Some(id),
{
    let found = choose|found: i64| t.stands_at(found, path, filename);
    if found != id {
        assert(t.sources.contains_key(found) && t.sources.contains_key(id));
    }
}

proof fn lemma_no_source_left(t: Tables, content_id: i64)
    requires
        t.sources_of(content_id).is_empty(),
    ensures
        forall|id: i64| #[trigger]
            t.sources.contains_key(id) ==> t.sources[id].content_id != content_id,
{
    assert forall|id: i64| #[trigger] t.sources.contains_key(id) implies t.sources[id].content_id
        != content_id by {
        assert(!t.sources_of(content_id).contains(id));
    }
}

/// Removing an orphan leaves sound tables where it was the only fault.
proof fn lemma_without_orphan(t: Tables, content_id: i64)
    requires
        t.sources.dom().finite(),
        forall|id: i64| #[trigger]
            t.sources.contains_key(id) ==> t.contents.contains_key(t.sources[id].content_id),
        forall|c: i64| #[trigger]
            t.contents.contains_key(c) && c != content_id ==> exists|id: i64| #[trigger]
                t.sources.contains_key(id) && t.sources[id].content_id == c,
        forall|a: i64, b: i64|
            a != b && #[trigger] t.sources.contains_key(a) && #[trigger] t.sources.contains_key(b)
                ==> !(t.sources[a].path == t.sources[b].path && t.sources[a].filename
                == t.sources[b].filename),
    ensures
        without_orphan(t, content_id).sound(),
{
    if t.sources_of(content_id).is_empty() {
        lemma_no_source_left(t, content_id);
    } else {
        if forall|x: i64| !t.sources_of(content_id).contains(x) {
            assert(t.sources_of(content_id) =~= Set::empty());
        }
        let x = choose|x: i64| t.sources_of(content_id).contains(x);
        assert(t.sources.contains_key(x) && t.sources[x].content_id == content_id);
    }
}

/// An insertion keeps the database sound: every source has a content, no content
/// is left without a source, and no place is taken twice.
pub proof fn law_insertion_keeps_the_database_sound(t: Tables, request: Request, choice: Choice)
    requires
        t.sound(),
        choice.possible(t, request),
    ensures
        inserted(t, request, choice).sound(),
{
    let ready = with_content(t, request, choice);
    let content_id = content_for(choice);
    let after = inserted(t, request, choice);
    match t.source_at(request.path, request.filename) {
        None => {
            assert(after.sources.contains_key(choice.new_source));
            assert forall|c: i64| #[trigger] after.contents.contains_key(c) implies exists|id: i64|
                #[trigger]
                after.sources.contains_key(id) && after.sources[id].content_id == c by {
                if c == content_id {
                    assert(after.sources.contains_key(choice.new_source));
                } else {
                    assert(t.contents.contains_key(c));
                    let id = choose|id: i64| #[trigger]
                        t.sources.contains_key(id) && t.sources[id].content_id == c;
                    assert(after.sources.contains_key(id));
                }
            }
            assert forall|a: i64, b: i64|
                a != b && #[trigger] after.sources.contains_key(a) && #[trigger]
                after.sources.contains_key(b) implies !(after.sources[a].path
                == after.sources[b].path && after.sources[a].filename
                == after.sources[b].filename) by {
                if a == choice.new_source {
                    assert(t.sources.contains_key(b));
                    assert(!t.stands_at(b, request.path, request.filename));
                } else if b == choice.new_source {
                    assert(t.sources.contains_key(a));
                    assert(!t.stands_at(a, request.path, request.filename));
                } else {
                    assert(t.sources.contains_key(a) && t.sources.contains_key(b));
                }
            }
            assert forall|id: i64| #[trigger]
                after.sources.contains_key(id) implies after.contents.contains_key(
                after.sources[id].content_id,
            ) by {
                if id != choice.new_source {
                    assert(t.sources.contains_key(id));
                }
            }
        },
        Some(sid) => {
            assert(t.stands_at(sid, request.path, request.filename));
            let old = t.sources[sid].content_id;
            let pointed = Tables {
                sources: ready.sources.insert(sid, Source { content_id, ..t.sources[sid] }),
                ..ready
            };
            assert(pointed.sources.dom() =~= t.sources.dom());
            assert forall|id: i64| #[trigger]
                pointed.sources.contains_key(id) implies pointed.contents.contains_key(
                pointed.sources[id].content_id,
            ) by {
                assert(t.sources.contains_key(id));
            }
            assert forall|c: i64| #[trigger]
                pointed.contents.contains_key(c) && c != old implies exists|id: i64| #[trigger]
                pointed.sources.contains_key(id) && pointed.sources[id].content_id == c by {
                if c == content_id {
                    assert(pointed.sources.contains_key(sid));
                } else {
                    assert(t.contents.contains_key(c));
                    let id = choose|id: i64| #[trigger]
                        t.sources.contains_key(id) && t.sources[id].content_id == c;
                    assert(pointed.sources.contains_key(id));
                }
            }
            assert forall|a: i64, b: i64|
                a != b && #[trigger] pointed.sources.contains_key(a) && #[trigger]
                pointed.sources.contains_key(b) implies !(pointed.sources[a].path
                == pointed.sources[b].path && pointed.sources[a].filename
                == pointed.sources[b].filename) by {
                assert(t.sources.contains_key(a) && t.sources.contains_key(b));
            }
            if old == content_id {
                assert(pointed.sources.contains_key(sid) && pointed.sources[sid].content_id == old);
            } else {
                lemma_without_orphan(pointed, old);
            }
        },
    }
}

/// After an insertion the place holds a content with the bytes of the request.
pub proof fn law_insertion_fills_the_place(t: Tables, request: Request, choice: Choice)
    requires
        t.sound(),
        choice.possible(t, request),
    ensures
        ({
            let after = inserted(t, request, choice);
            match after.source_at(request.path, request.filename) {
                Some(id) => after.contents[after.sources[id].content_id].is(request.content),
                None => false,
            }
        }),
{
    let after = inserted(t, request, choice);
    law_insertion_keeps_the_database_sound(t, request, choice);
    match t.source_at(request.path, request.filename) {
        None => {
            assert(after.stands_at(choice.new_source, request.path, request.filename));
            lemma_place_is_unique(after, request.path, request.filename, choice.new_source);
        },
        Some(sid) => {
            assert(t.stands_at(sid, request.path, request.filename));
            assert(after.stands_at(sid, request.path, request.filename));
            lemma_place_is_unique(after, request.path, request.filename, sid);
            assert(after.contents.contains_key(after.sources[sid].content_id));
        },
    }
}

/// After an insertion every other place holds what it held.
pub proof fn law_insertion_spares_other_places(
    t: Tables,
    request: Request,
    choice: Choice,
    other: i64,
)
    requires
        t.sound(),
        choice.possible(t, request),
        t.sources.contains_key(other),
        !t.stands_at(other, request.path, request.filename),
    ensures
        ({
            let after = inserted(t, request, choice);
            &&& after.sources.contains_key(other)
            &&& after.sources[other] == t.sources[other]
            &&& after.contents.contains_key(t.sources[other].content_id)
            &&& after.contents[t.sources[other].content_id]
                == t.contents[t.sources[other].content_id]
        }),
{
    let after = inserted(t, request, choice);
    law_insertion_keeps_the_database_sound(t, request, choice);
    assert(t.contents.contains_key(t.sources[other].content_id));
    match t.source_at(request.path, request.filename) {
        None => {},
        Some(sid) => {
            assert(t.stands_at(sid, request.path, request.filename));
            assert(other != sid);
            assert(after.sources.contains_key(other));
            assert(after.contents.contains_key(after.sources[other].content_id));
        },
    }
}

/// Contents are shared: putting bytes that the database already has at a place
/// where nothing stands makes no new content.
pub proof fn law_known_bytes_are_not_stored_again(t: Tables, request: Request, choice: Choice)
    requires
        t.sound(),
        choice.possible(t, request),
        t.source_at(request.path, request.filename) is None,
        exists|c: i64| #[trigger] t.contents.contains_key(c) && t.contents[c].is(request.content),
    ensures
        inserted(t, request, choice).contents == t.contents,
{
}

// ── Removing ────────────────────────────────────────────────────────────────

/// Runs a removal from a step on.
pub open spec fn removal_run(t: Tables, step: Next<Removal, ()>, fuel: nat) -> Option<Tables>
    decreases fuel,
{
    match step {
        Next::End(_) => Some(t),
        Next::Broken => None,
        Next::Run(at, statement) => if fuel == 0 {
            None
        } else {
            let (after, answer) = perform(
                t,
                arbitrary(),
                (Seq::empty(), Seq::empty()),
                Seq::empty(),
                arbitrary(),
                statement,
            );
            removal_run(after, at.after(answer), (fuel - 1) as nat)
        },
    }
}

/// The tables after a removal: the source is gone, and with it its content if it
/// was the last source of it.
pub open spec fn removed(t: Tables, source_id: i64) -> Tables {
    let gone = Tables { sources: t.sources.remove(source_id), ..t };
    if t.sources.contains_key(source_id) {
        without_orphan(gone, t.sources[source_id].content_id)
    } else {
        gone
    }
}

/// A removal runs to its end.
pub proof fn law_removal_runs_to_its_end(t: Tables, source_id: i64)
    requires
        t.sound(),
        t.sources.dom().len() <= i64::MAX,
    ensures
        removal_run(
            t,
            Next::Run(
                Removal::LookedForContent { source_id },
                Statement::FindContentOf { source_id },
            ),
            4,
        ) == Some(removed(t, source_id)),
{
    reveal_with_fuel(removal_run, 5);
    let gone = Tables { sources: t.sources.remove(source_id), ..t };
    if t.sources.contains_key(source_id) {
        let c = t.sources[source_id].content_id;
        assert(gone.sources_of(c).subset_of(gone.sources.dom()));
        assert(gone.sources.dom() =~= t.sources.dom().remove(source_id));
        lemma_count(gone, gone.sources_of(c));
    } else {
        assert(gone.sources =~= t.sources);
    }
}

/// A removal keeps the database sound, and every other source keeps its content.
pub proof fn law_removal_keeps_the_database_sound(t: Tables, source_id: i64)
    requires
        t.sound(),
    ensures
        removed(t, source_id).sound(),
        forall|id: i64| #[trigger]
            t.sources.contains_key(id) && id != source_id ==> removed(
                t,
                source_id,
            ).sources.contains_key(id) && removed(t, source_id).sources[id] == t.sources[id]
                && removed(t, source_id).contents[t.sources[id].content_id]
                == t.contents[t.sources[id].content_id],
        !removed(t, source_id).sources.contains_key(source_id),
{
    let gone = Tables { sources: t.sources.remove(source_id), ..t };
    if t.sources.contains_key(source_id) {
        let old = t.sources[source_id].content_id;
        assert forall|c: i64| #[trigger]
            gone.contents.contains_key(c) && c != old implies exists|id: i64| #[trigger]
            gone.sources.contains_key(id) && gone.sources[id].content_id == c by {
            assert(t.contents.contains_key(c));
            let id = choose|id: i64| #[trigger]
                t.sources.contains_key(id) && t.sources[id].content_id == c;
            assert(gone.sources.contains_key(id));
        }
        assert forall|a: i64, b: i64|
            a != b && #[trigger] gone.sources.contains_key(a) && #[trigger]
            gone.sources.contains_key(b) implies !(gone.sources[a].path == gone.sources[b].path
            && gone.sources[a].filename == gone.sources[b].filename) by {
            assert(t.sources.contains_key(a) && t.sources.contains_key(b));
        }
        assert forall|id: i64| #[trigger]
            gone.sources.contains_key(id) implies gone.contents.contains_key(
            gone.sources[id].content_id,
        ) by {
            assert(t.sources.contains_key(id));
        }
        lemma_without_orphan(gone, old);
        let after = removed(t, source_id);
        assert forall|id: i64| #[trigger]
            t.sources.contains_key(id) && id != source_id implies after.sources.contains_key(id)
            && after.sources[id] == t.sources[id] && after.contents[t.sources[id].content_id]
            == t.contents[t.sources[id].content_id] by {
            assert(after.sources.contains_key(id));
            assert(after.contents.contains_key(after.sources[id].content_id));
        }
    } else {
        assert(gone.sources =~= t.sources);
    }
}

/// Taking out what was just put in at a free place leaves the database as it was.
pub proof fn law_removal_undoes_insertion(t: Tables, request: Request, choice: Choice)
    requires
        t.sound(),
        choice.possible(t, request),
        t.source_at(request.path, request.filename) is None,
    ensures
        removed(inserted(t, request, choice), choice.new_source) == t,
{
    let after = inserted(t, request, choice);
    let content_id = content_for(choice);
    let gone = Tables { sources: after.sources.remove(choice.new_source), ..after };
    assert(gone.sources =~= t.sources);
    match choice.found {
        Some(c) => {
            let id = choose|id: i64| #[trigger]
                t.sources.contains_key(id) && t.sources[id].content_id == c;
            assert(gone.sources_of(c).contains(id));
            assert(removed(after, choice.new_source) =~= t);
        },
        None => {
            assert forall|id: i64| !gone.sources_of(content_id).contains(id) by {
                if gone.sources.contains_key(id) {
                    assert(t.sources.contains_key(id));
                    assert(t.contents.contains_key(t.sources[id].content_id));
                }
            }
            assert(gone.sources_of(content_id) =~= Set::empty());
            assert(gone.contents.remove(content_id) =~= t.contents);
            assert(removed(after, choice.new_source) =~= t);
        },
    }
}

// ── Moving ──────────────────────────────────────────────────────────────────

/// Runs a move from a step on.
pub open spec fn move_run(
    t: Tables,
    request: Request,
    target: (Seq<char>, Seq<char>),
    step: Next<Relocation, MoveOverwriteResult>,
    fuel: nat,
) -> Option<(Tables, MoveOverwriteResult)>
    decreases fuel,
{
    match step {
        Next::End(end) => Some((t, end)),
        Next::Broken => None,
        Next::Run(at, statement) => if fuel == 0 {
            None
        } else {
            let (after, answer) = perform(
                t,
                request,
                target,
                Seq::empty(),
                arbitrary(),
                statement,
            );
            move_run(after, request, target, at.after(answer), (fuel - 1) as nat)
        },
    }
}

/// The tables after a source has been moved to another place, over what stood
/// there.
pub open spec fn moved(t: Tables, source_id: i64, target: (Seq<char>, Seq<char>)) -> Tables {
    let cleared = match t.source_at(target.0, target.1) {
        Some(id) => removed(t, id),
        None => t,
    };
    if cleared.sources.contains_key(source_id) {
        Tables {
            sources: cleared.sources.insert(
                source_id,
                Source { path: target.0, filename: target.1, ..cleared.sources[source_id] },
            ),
            ..cleared
        }
    } else {
        cleared
    }
}

/// A move runs to its end: without a source nothing changes, and otherwise the
/// source takes the place of what stood at the target.
pub proof fn law_move_runs_to_its_end(
    t: Tables,
    request: Request,
    target: (Seq<char>, Seq<char>),
)
    requires
        t.sound(),
        t.sources.dom().len() <= i64::MAX,
    ensures
        match move_run(
            t,
            request,
            target,
            Next::Run(Relocation::LookedForSource, Statement::FindSource),
            7,
        ) {
            None => false,
            Some((after, end)) => match (t.source_at(request.path, request.filename), end) {
                (None, MoveOverwriteResult::SourceAbsent) => after == t,
                (Some(id), MoveOverwriteResult::Moved { removed_target }) => after == moved(
                    t,
                    id,
                    target,
                ) && (match (t.source_at(target.0, target.1), removed_target) {
                    (None, None) => true,
                    (Some(there), Some((gone, info_hash))) => gone == there && info_hash
                        == t.contents[t.sources[there].content_id].info_hash,
                    _ => false,
                }),
                _ => false,
            },
        },
{
    reveal_with_fuel(move_run, 8);
    match t.source_at(target.0, target.1) {
        Some(there) => {
            assert(t.stands_at(there, target.0, target.1)) by {
                assert(exists|id: i64| t.stands_at(id, target.0, target.1));
            }
            let c = t.sources[there].content_id;
            let gone = Tables { sources: t.sources.remove(there), ..t };
            assert(gone.sources_of(c).subset_of(gone.sources.dom()));
            assert(gone.sources.dom() =~= t.sources.dom().remove(there));
            lemma_count(gone, gone.sources_of(c));
        },
        None => {},
    }
}

/// A move to another place keeps the database sound: the source stands at the
/// target with its content, and no other source changes.
pub proof fn law_move_keeps_the_database_sound(
    t: Tables,
    source_id: i64,
    target: (Seq<char>, Seq<char>),
)
    requires
        t.sound(),
        t.sources.contains_key(source_id),
        !t.stands_at(source_id, target.0, target.1),
    ensures
        moved(t, source_id, target).sound(),
        moved(t, source_id, target).stands_at(source_id, target.0, target.1),
        moved(t, source_id, target).sources[source_id].content_id
            == t.sources[source_id].content_id,
        forall|id: i64| #[trigger]
            t.sources.contains_key(id) && id != source_id && !t.stands_at(id, target.0, target.1)
                ==> moved(t, source_id, target).sources.contains_key(id) && moved(
                t,
                source_id,
                target,
            ).sources[id] == t.sources[id],
{
    let cleared = match t.source_at(target.0, target.1) {
        Some(id) => removed(t, id),
        None => t,
    };
    match t.source_at(target.0, target.1) {
        Some(there) => {
            assert(t.stands_at(there, target.0, target.1)) by {
                assert(exists|id: i64| t.stands_at(id, target.0, target.1));
            }
            law_removal_keeps_the_database_sound(t, there);
        },
        None => {},
    }
    let after = moved(t, source_id, target);
    assert(cleared.sources.contains_key(source_id));
    assert forall|id: i64| #[trigger] cleared.sources.contains_key(id) implies !cleared.stands_at(
        id,
        target.0,
        target.1,
    ) by {
        match t.source_at(target.0, target.1) {
            Some(there) => {
                assert(id != there);
                assert(t.sources.contains_key(id));
                if cleared.stands_at(id, target.0, target.1) {
                    lemma_place_is_unique(t, target.0, target.1, id);
                }
            },
            None => {
                assert(!t.stands_at(id, target.0, target.1));
            },
        }
    }
    assert(after.sources.dom() =~= cleared.sources.dom());
    assert forall|id: i64| #[trigger] after.sources.contains_key(id) implies after.contents.contains_key(
        after.sources[id].content_id,
    ) by {
        assert(cleared.sources.contains_key(id));
    }
    assert forall|c: i64| #[trigger] after.contents.contains_key(c) implies exists|id: i64| #[trigger]
        after.sources.contains_key(id) && after.sources[id].content_id == c by {
        assert(cleared.contents.contains_key(c));
        let id = choose|id: i64| #[trigger]
            cleared.sources.contains_key(id) && cleared.sources[id].content_id == c;
        assert(after.sources.contains_key(id));
    }
    assert forall|a: i64, b: i64|
        a != b && #[trigger] after.sources.contains_key(a) && #[trigger]
        after.sources.contains_key(b) implies !(after.sources[a].path == after.sources[b].path
        && after.sources[a].filename == after.sources[b].filename) by {
        assert(cleared.sources.contains_key(a) && cleared.sources.contains_key(b));
        assert(!cleared.stands_at(a, target.0, target.1));
        assert(!cleared.stands_at(b, target.0, target.1));
    }
    assert forall|id: i64| #[trigger]
        t.sources.contains_key(id) && id != source_id && !t.stands_at(id, target.0, target.1) implies after.sources.contains_key(
        id,
    ) && after.sources[id] == t.sources[id] by {
        match t.source_at(target.0, target.1) {
            Some(there) => {
                assert(id != there);
            },
            None => {},
        }
    }
}

// ── Files ───────────────────────────────────────────────────────────────────

/// The files of a request are put in exactly for a content that was just made, where
/// the request brings files: right behind it, and under its number.
pub proof fn law_new_content_gets_its_files(at: Insertion, mode: InsertMode, answer: Answer)
    ensures
        at.after(mode, answer) matches Next::Run(
            next,
            Statement::InsertFiles { content_id },
        ) ==> mode.with_files && at is MadeContent && answer == Answer::New(content_id),
        at is MadeContent && mode.with_files && answer is New ==> (at.after(mode, answer)
            matches Next::Run(next, Statement::InsertFiles { content_id }) && next is MadeFiles),
{
}

/// A content is made exactly when none of the request's was found.
pub proof fn law_content_is_made_where_none_is_found(
    at: Insertion,
    mode: InsertMode,
    answer: Answer,
)
    ensures
        (at.after(mode, answer) matches Next::Run(_, s) && s is InsertContent) <==> (at
            is LookedForContent && answer == Answer::Found(None)),
{
}

} // verus!
