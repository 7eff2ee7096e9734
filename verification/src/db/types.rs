//! Rows of the torrent database.
use vstd::prelude::*;

use crate::text;

verus! {

/// What the database says of a torrent.
#[derive(Debug, Clone, Copy, PartialEq, Eq, Structural)]
pub enum TorrentStatus {
    Pending,
    Downloading,
    Seeding,
    Error,
}

impl TorrentStatus {
    /// The word that stands for the status in the database.
    pub open spec fn word(self) -> Seq<char> {
        match self {
            TorrentStatus::Pending => "pending"@,
            TorrentStatus::Downloading => "downloading"@,
            TorrentStatus::Seeding => "seeding"@,
            TorrentStatus::Error => "error"@,
        }
    }

    /// The word that stands for the status in the database.
    pub fn as_str(&self) -> (s: &'static str)
        ensures
            s@ == self.word(),
    {
        match self {
            TorrentStatus::Pending => "pending",
            TorrentStatus::Downloading => "downloading",
            TorrentStatus::Seeding => "seeding",
            TorrentStatus::Error => "error",
        }
    }

    /// The status that a word stands for, if it stands for one.
    pub fn from_word(word: &str) -> (status: Option<TorrentStatus>)
        ensures
            (match status {
                Some(s) => s.word() == word@,
                None => forall|s: TorrentStatus| #[trigger] s.word() != word@,
            }),
    {
        if text::same(word, "pending") {
            Some(TorrentStatus::Pending)
        } else if text::same(word, "downloading") {
            Some(TorrentStatus::Downloading)
        } else if text::same(word, "seeding") {
            Some(TorrentStatus::Seeding)
        } else if text::same(word, "error") {
            Some(TorrentStatus::Error)
        } else {
            assert forall|s: TorrentStatus| #[trigger] s.word() != word@ by {
                match s {
                    TorrentStatus::Pending => {},
                    TorrentStatus::Downloading => {},
                    TorrentStatus::Seeding => {},
                    TorrentStatus::Error => {},
                }
            }
            None
        }
    }
}

/// One place at which a torrent was put, with the torrent's own data.
#[derive(Debug, Clone)]
pub struct Torrent {
    /// Identity of the place.
    pub id: i64,
    /// Identity of the content.
    pub torrent_id: i64,
    pub source_path: String,
    pub name: String,
    pub filename: String,
    pub total_size: i64,
    pub info_hash: String,
    pub file_count: i64,
    pub status: TorrentStatus,
}

/// A directory within a torrent.
#[derive(Debug, Clone)]
pub struct TorrentDirectory {
    pub id: i64,
    pub torrent_id: i64,
    pub parent_id: Option<i64>,
    pub name: String,
}

/// A file within a torrent.
#[derive(Debug, Clone)]
pub struct TorrentFile {
    pub id: i64,
    pub torrent_id: i64,
    pub directory_id: Option<i64>,
    pub name: String,
    pub path: String,
    pub size: i64,
}

/// The words that stand for the statuses in the database.
pub proof fn law_words_of_the_statuses()
    ensures
        TorrentStatus::Pending.word() == "pending"@,
        TorrentStatus::Downloading.word() == "downloading"@,
        TorrentStatus::Seeding.word() == "seeding"@,
        TorrentStatus::Error.word() == "error"@,
{
}

} // verus!
