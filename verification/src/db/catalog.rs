//! Putting torrents into the database and taking them out again.
//!
//! A *content* is a torrent with its files; a *source* is a place, a directory
//! and a file name, at which a content was put. Several sources may share one
//! content. Each operation runs inside one transaction as a sequence of
//! statements; which statement comes next depends on what the last one gave.
use vstd::prelude::*;

verus! {

/// A statement on the database.
pub enum Statement {
    /// The source at the place of the request.
    FindSource,
    /// A content with the bytes of the request or, without bytes, with its hash,
    /// size and number of files.
    FindContent,
    /// A new content as the request describes it.
    InsertContent,
    /// The files of the request, for a content.
    InsertFiles { content_id: i64 },
    /// The content of a source, with its hash.
    FindContentOf { source_id: i64 },
    /// Points a source at another content.
    Repoint { source_id: i64, content_id: i64 },
    /// A new source at the place of the request.
    InsertSource { content_id: i64 },
    /// How many sources a content has.
    CountSources { content_id: i64 },
    /// Removes a content with its files.
    DeleteContent { content_id: i64 },
    /// How many sources there are of contents with the hash of a removed one.
    CountSourcesOfHash,
    /// Removes a source.
    DeleteSource { source_id: i64 },
    /// The source at the place that a move leads to.
    FindTarget,
    /// Moves a source to the place that a move leads to.
    Relocate { source_id: i64 },
}

/// What a statement gave.
pub enum Answer {
    /// The number of a row, if there is one.
    Found(Option<i64>),
    /// The number of a new row.
    New(i64),
    /// A content and its hash, if there is one.
    Content(Option<(i64, String)>),
    /// A count.
    Count(i64),
    /// Nothing.
    Done,
}

/// What an insertion did.
pub struct InsertTorrentOutcome {
    pub source_id: i64,
    pub content_id: i64,
    pub content_created: bool,
    pub source_reused: bool,
    /// The hash that no source refers to any more.
    pub stale_info_hash: Option<String>,
}

/// How an insertion ended.
pub enum InsertEnd {
    /// Something was already at the place, and stays.
    Duplicate(i64),
    /// The torrent is at the place.
    Placed(InsertTorrentOutcome),
}

/// What an operation does next.
pub enum Next<S, E> {
    /// Run a statement, and go on with what it gives.
    Run(S, Statement),
    /// Commit: the operation has ended.
    End(E),
    /// Roll back: a statement gave what it cannot give.
    Broken,
}

/// How far an insertion has come.
pub enum Insertion {
    LookedForSource,
    LookedForContent { source: Option<i64> },
    MadeContent { source: Option<i64> },
    MadeFiles { source: Option<i64>, content_id: i64 },
    FoundOld { source_id: i64, content_id: i64, created: bool },
    Repointed { source_id: i64, content_id: i64, created: bool, old: Option<(i64, String)> },
    CountedOld { source_id: i64, content_id: i64, created: bool, old: (i64, String) },
    DeletedOld { source_id: i64, content_id: i64, created: bool, old_hash: String },
    CountedHash { source_id: i64, content_id: i64, created: bool, old_hash: String },
    MadeSource { content_id: i64, created: bool },
}

/// Whether an insertion takes the place of what is there, and whether it brings
/// files.
#[derive(Clone, Copy)]
pub struct InsertMode {
    pub replace: bool,
    pub with_files: bool,
}

impl Insertion {
    /// Starts an insertion.
    pub fn start() -> (next: (Insertion, Statement))
        ensures
            next == (Insertion::LookedForSource, Statement::FindSource),
    {
        (Insertion::LookedForSource, Statement::FindSource)
    }

    /// What follows once the content of the torrent is known.
    pub open spec fn placing(source: Option<i64>, content_id: i64, created: bool) -> Next<
        Insertion,
        InsertEnd,
    > {
        match source {
            Some(source_id) => Next::Run(
                Insertion::FoundOld { source_id, content_id, created },
                Statement::FindContentOf { source_id },
            ),
            None => Next::Run(
                Insertion::MadeSource { content_id, created },
                Statement::InsertSource { content_id },
            ),
        }
    }

    fn place(source: Option<i64>, content_id: i64, created: bool) -> (next: Next<
        Insertion,
        InsertEnd,
    >)
        ensures
            next == Self::placing(source, content_id, created),
    {
        match source {
            Some(source_id) => Next::Run(
                Insertion::FoundOld { source_id, content_id, created },
                Statement::FindContentOf { source_id },
            ),
            None => Next::Run(
                Insertion::MadeSource { content_id, created },
                Statement::InsertSource { content_id },
            ),
        }
    }

    /// How an insertion ends at a place that was there before.
    pub open spec fn reused(
        source_id: i64,
        content_id: i64,
        content_created: bool,
        stale_info_hash: Option<String>,
    ) -> Next<Insertion, InsertEnd> {
        Next::End(
            InsertEnd::Placed(
                InsertTorrentOutcome {
                    source_id,
                    content_id,
                    content_created,
                    source_reused: true,
                    stale_info_hash,
                },
            ),
        )
    }

    fn end_reused(
        source_id: i64,
        content_id: i64,
        content_created: bool,
        stale_info_hash: Option<String>,
    ) -> (next: Next<Insertion, InsertEnd>)
        ensures
            next == Self::reused(source_id, content_id, content_created, stale_info_hash),
    {
        Next::End(
            InsertEnd::Placed(
                InsertTorrentOutcome {
                    source_id,
                    content_id,
                    content_created,
                    source_reused: true,
                    stale_info_hash,
                },
            ),
        )
    }

    /// What an insertion does after a statement.
    pub open spec fn after(self, mode: InsertMode, answer: Answer) -> Next<Insertion, InsertEnd> {
        match (self, answer) {
            (Insertion::LookedForSource, Answer::Found(source)) => match source {
                Some(id) if !mode.replace => Next::End(InsertEnd::Duplicate(id)),
                _ => Next::Run(
                    Insertion::LookedForContent { source },
                    Statement::FindContent,
                ),
            },
            (Insertion::LookedForContent { source }, Answer::Found(content)) => match content {
                Some(content_id) => Self::placing(source, content_id, false),
                None => Next::Run(Insertion::MadeContent { source }, Statement::InsertContent),
            },
            (Insertion::MadeContent { source }, Answer::New(content_id)) => if mode.with_files {
                Next::Run(
                    Insertion::MadeFiles { source, content_id },
                    Statement::InsertFiles { content_id },
                )
            } else {
                Self::placing(source, content_id, true)
            },
            (Insertion::MadeFiles { source, content_id }, Answer::Done) => Self::placing(
                source,
                content_id,
                true,
            ),
            (
                Insertion::FoundOld { source_id, content_id, created },
                Answer::Content(old),
            ) => Next::Run(
                Insertion::Repointed { source_id, content_id, created, old },
                Statement::Repoint { source_id, content_id },
            ),
            (Insertion::Repointed { source_id, content_id, created, old }, Answer::Done) => match old {
                Some((old_id, old_hash)) => if old_id == content_id {
                    Self::reused(source_id, content_id, created, None)
                } else {
                    Next::Run(
                        Insertion::CountedOld {
                            source_id,
                            content_id,
                            created,
                            old: (old_id, old_hash),
                        },
                        Statement::CountSources { content_id: old_id },
                    )
                },
                None => Self::reused(source_id, content_id, created, None),
            },
            (
                Insertion::CountedOld { source_id, content_id, created, old },
                Answer::Count(n),
            ) => if n == 0 {
                Next::Run(
                    Insertion::DeletedOld { source_id, content_id, created, old_hash: old.1 },
                    Statement::DeleteContent { content_id: old.0 },
                )
            } else {
                Self::reused(source_id, content_id, created, None)
            },
            (
                Insertion::DeletedOld { source_id, content_id, created, old_hash },
                Answer::Done,
            ) => Next::Run(
                Insertion::CountedHash { source_id, content_id, created, old_hash },
                Statement::CountSourcesOfHash,
            ),
            (
                Insertion::CountedHash { source_id, content_id, created, old_hash },
                Answer::Count(n),
            ) => Self::reused(
                source_id,
                content_id,
                created,
                if n == 0 {
                    Some(old_hash)
                } else {
                    None
                },
            ),
            (Insertion::MadeSource { content_id, created }, Answer::New(source_id)) => Next::End(
                InsertEnd::Placed(
                    InsertTorrentOutcome {
                        source_id,
                        content_id,
                        content_created: created,
                        source_reused: false,
                        stale_info_hash: None,
                    },
                ),
            ),
            _ => Next::Broken,
        }
    }

    /// The hash of the content that was removed, where sources of it are counted.
    pub fn removed_hash(&self) -> (hash: Option<&String>)
        ensures
            match self {
                Insertion::CountedHash { old_hash, .. } => hash == Some(old_hash),
                _ => hash is None,
            },
    {
        match self {
            Insertion::CountedHash { old_hash, .. } => Some(old_hash),
            _ => None,
        }
    }

    /// Goes on after a statement.
    pub fn next(self, mode: InsertMode, answer: Answer) -> (next: Next<Insertion, InsertEnd>)
        ensures
            next == self.after(mode, answer),
    {
        match (self, answer) {
            (Insertion::LookedForSource, Answer::Found(source)) => match source {
                Some(id) if !mode.replace => Next::End(InsertEnd::Duplicate(id)),
                _ => Next::Run(
                    Insertion::LookedForContent { source },
                    Statement::FindContent,
                ),
            },
            (Insertion::LookedForContent { source }, Answer::Found(content)) => match content {
                Some(content_id) => Self::place(source, content_id, false),
                None => Next::Run(Insertion::MadeContent { source }, Statement::InsertContent),
            },
            (Insertion::MadeContent { source }, Answer::New(content_id)) => if mode.with_files {
                Next::Run(
                    Insertion::MadeFiles { source, content_id },
                    Statement::InsertFiles { content_id },
                )
            } else {
                Self::place(source, content_id, true)
            },
            (Insertion::MadeFiles { source, content_id }, Answer::Done) => Self::place(
                source,
                content_id,
                true,
            ),
            (
                Insertion::FoundOld { source_id, content_id, created },
                Answer::Content(old),
            ) => Next::Run(
                Insertion::Repointed { source_id, content_id, created, old },
                Statement::Repoint { source_id, content_id },
            ),
            (Insertion::Repointed { source_id, content_id, created, old }, Answer::Done) => match old {
                Some((old_id, old_hash)) => if old_id == content_id {
                    Self::end_reused(source_id, content_id, created, None)
                } else {
                    Next::Run(
                        Insertion::CountedOld {
                            source_id,
                            content_id,
                            created,
                            old: (old_id, old_hash),
                        },
                        Statement::CountSources { content_id: old_id },
                    )
                },
                None => Self::end_reused(source_id, content_id, created, None),
            },
            (
                Insertion::CountedOld { source_id, content_id, created, old },
                Answer::Count(n),
            ) => if n == 0 {
                let old_id: i64 = old.0;
                Next::Run(
                    Insertion::DeletedOld { source_id, content_id, created, old_hash: old.1 },
                    Statement::DeleteContent { content_id: old_id },
                )
            } else {
                Self::end_reused(source_id, content_id, created, None)
            },
            (
                Insertion::DeletedOld { source_id, content_id, created, old_hash },
                Answer::Done,
            ) => Next::Run(
                Insertion::CountedHash { source_id, content_id, created, old_hash },
                Statement::CountSourcesOfHash,
            ),
            (
                Insertion::CountedHash { source_id, content_id, created, old_hash },
                Answer::Count(n),
            ) => Self::end_reused(
                source_id,
                content_id,
                created,
                if n == 0 {
                    Some(old_hash)
                } else {
                    None
                },
            ),
            (Insertion::MadeSource { content_id, created }, Answer::New(source_id)) => Next::End(
                InsertEnd::Placed(
                    InsertTorrentOutcome {
                        source_id,
                        content_id,
                        content_created: created,
                        source_reused: false,
                        stale_info_hash: None,
                    },
                ),
            ),
            _ => Next::Broken,
        }
    }
}

/// How far a removal has come.
pub enum Removal {
    LookedForContent { source_id: i64 },
    DeletedSource { content_id: Option<i64> },
    Counted { content_id: i64 },
    DeletedContent,
}

impl Removal {
    /// Starts to remove a source.
    pub fn start(source_id: i64) -> (next: (Removal, Statement))
        ensures
            next == (
                Removal::LookedForContent { source_id },
                Statement::FindContentOf { source_id },
            ),
    {
        (Removal::LookedForContent { source_id }, Statement::FindContentOf { source_id })
    }

    /// What a removal does after a statement: a content that no source is left of
    /// goes too.
    pub open spec fn after(self, answer: Answer) -> Next<Removal, ()> {
        match (self, answer) {
            (Removal::LookedForContent { source_id }, Answer::Content(content)) => Next::Run(
                Removal::DeletedSource {
                    content_id: match content {
                        Some((id, _)) => Some(id),
                        None => None,
                    },
                },
                Statement::DeleteSource { source_id },
            ),
            (Removal::DeletedSource { content_id }, Answer::Done) => match content_id {
                Some(content_id) => Next::Run(
                    Removal::Counted { content_id },
                    Statement::CountSources { content_id },
                ),
                None => Next::End(()),
            },
            (Removal::Counted { content_id }, Answer::Count(n)) => if n == 0 {
                Next::Run(Removal::DeletedContent, Statement::DeleteContent { content_id })
            } else {
                Next::End(())
            },
            (Removal::DeletedContent, Answer::Done) => Next::End(()),
            _ => Next::Broken,
        }
    }

    /// Goes on after a statement.
    pub fn next(self, answer: Answer) -> (next: Next<Removal, ()>)
        ensures
            next == self.after(answer),
    {
        match (self, answer) {
            (Removal::LookedForContent { source_id }, Answer::Content(content)) => {
                let content_id: Option<i64> = match content {
                    Some((id, _)) => Some(id),
                    None => None,
                };
                Next::Run(
                    Removal::DeletedSource { content_id },
                    Statement::DeleteSource { source_id },
                )
            },
            (Removal::DeletedSource { content_id }, Answer::Done) => match content_id {
                Some(content_id) => Next::Run(
                    Removal::Counted { content_id },
                    Statement::CountSources { content_id },
                ),
                None => Next::End(()),
            },
            (Removal::Counted { content_id }, Answer::Count(n)) => if n == 0 {
                Next::Run(Removal::DeletedContent, Statement::DeleteContent { content_id })
            } else {
                Next::End(())
            },
            (Removal::DeletedContent, Answer::Done) => Next::End(()),
            _ => Next::Broken,
        }
    }
}

/// How a move ended.
pub enum MoveOverwriteResult {
    /// There was nothing to move.
    SourceAbsent,
    /// It was moved, over what stood at the target: a source and its hash.
    Moved { removed_target: Option<(i64, String)> },
}

/// How far a move has come.
pub enum Relocation {
    LookedForSource,
    LookedForTarget { source_id: i64 },
    LookedForHash { source_id: i64, target_id: i64 },
    Removing { source_id: i64, target: (i64, String), removal: Removal },
    Relocated { removed_target: Option<(i64, String)> },
}

impl Relocation {
    /// Starts to move a source.
    pub fn start() -> (next: (Relocation, Statement))
        ensures
            next == (Relocation::LookedForSource, Statement::FindSource),
    {
        (Relocation::LookedForSource, Statement::FindSource)
    }

    /// What a move does after a statement: what stands at the target is removed
    /// before the source takes its place.
    pub open spec fn after(self, answer: Answer) -> Next<Relocation, MoveOverwriteResult> {
        match (self, answer) {
            (Relocation::LookedForSource, Answer::Found(source)) => match source {
                Some(source_id) => Next::Run(
                    Relocation::LookedForTarget { source_id },
                    Statement::FindTarget,
                ),
                None => Next::End(MoveOverwriteResult::SourceAbsent),
            },
            (Relocation::LookedForTarget { source_id }, Answer::Found(target)) => match target {
                Some(target_id) => Next::Run(
                    Relocation::LookedForHash { source_id, target_id },
                    Statement::FindContentOf { source_id: target_id },
                ),
                None => Next::Run(
                    Relocation::Relocated { removed_target: None },
                    Statement::Relocate { source_id },
                ),
            },
            (
                Relocation::LookedForHash { source_id, target_id },
                Answer::Content(Some((content_id, info_hash))),
            ) => Next::Run(
                Relocation::Removing {
                    source_id,
                    target: (target_id, info_hash),
                    removal: Removal::DeletedSource { content_id: Some(content_id) },
                },
                Statement::DeleteSource { source_id: target_id },
            ),
            (Relocation::Removing { source_id, target, removal }, answer) => match removal.after(
                answer,
            ) {
                Next::Run(removal, statement) => Next::Run(
                    Relocation::Removing { source_id, target, removal },
                    statement,
                ),
                Next::End(()) => Next::Run(
                    Relocation::Relocated { removed_target: Some(target) },
                    Statement::Relocate { source_id },
                ),
                Next::Broken => Next::Broken,
            },
            (Relocation::Relocated { removed_target }, Answer::Done) => Next::End(
                MoveOverwriteResult::Moved { removed_target },
            ),
            _ => Next::Broken,
        }
    }

    /// Goes on after a statement.
    pub fn next(self, answer: Answer) -> (next: Next<Relocation, MoveOverwriteResult>)
        ensures
            next == self.after(answer),
    {
        match (self, answer) {
            (Relocation::LookedForSource, Answer::Found(source)) => match source {
                Some(source_id) => Next::Run(
                    Relocation::LookedForTarget { source_id },
                    Statement::FindTarget,
                ),
                None => Next::End(MoveOverwriteResult::SourceAbsent),
            },
            (Relocation::LookedForTarget { source_id }, Answer::Found(target)) => match target {
                Some(target_id) => Next::Run(
                    Relocation::LookedForHash { source_id, target_id },
                    Statement::FindContentOf { source_id: target_id },
                ),
                None => Next::Run(
                    Relocation::Relocated { removed_target: None },
                    Statement::Relocate { source_id },
                ),
            },
            (
                Relocation::LookedForHash { source_id, target_id },
                Answer::Content(Some((content_id, info_hash))),
            ) => Next::Run(
                Relocation::Removing {
                    source_id,
                    target: (target_id, info_hash),
                    removal: Removal::DeletedSource { content_id: Some(content_id) },
                },
                Statement::DeleteSource { source_id: target_id },
            ),
            (Relocation::Removing { source_id, target, removal }, answer) => match removal.next(
                answer,
            ) {
                Next::Run(removal, statement) => Next::Run(
                    Relocation::Removing { source_id, target, removal },
                    statement,
                ),
                Next::End(()) => Next::Run(
                    Relocation::Relocated { removed_target: Some(target) },
                    Statement::Relocate { source_id },
                ),
                Next::Broken => Next::Broken,
            },
            (Relocation::Relocated { removed_target }, Answer::Done) => Next::End(
                MoveOverwriteResult::Moved { removed_target },
            ),
            _ => Next::Broken,
        }
    }
}

} // verus!
