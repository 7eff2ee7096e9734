//! Errors of the download side.
use vstd::prelude::*;

verus! {

/// Why a download request could not be served.
#[derive(Debug)]
pub enum TorrentError {
    /// The request names something that the torrent does not hold.
    InvalidFile(String),
    /// The disk refused an operation.
    IoError(String),
    /// Nobody in the swarm can serve the request.
    NoPeers(String),
    /// A piece that should be on disk is not usable.
    PieceNotReady(String),
    /// The request was given up after its time was spent.
    Timeout(String),
    /// Anything else, with the code that came with it.
    Unknown {
        code: i32,
        message: String,
    },
}

/// Result of a download request.
pub type TorrentResult<T> = Result<T, TorrentError>;

/// Which kind of error it is.
pub enum ErrorKind {
    InvalidFile,
    IoError,
    NoPeers,
    PieceNotReady,
    Timeout,
    Unknown(i32),
}

/// An error: its kind and its text.
#[verifier::ext_equal]
pub struct ErrorView {
    pub kind: ErrorKind,
    pub text: Seq<char>,
}

impl View for TorrentError {
    type V = ErrorView;

    open spec fn view(&self) -> ErrorView {
        match self {
            TorrentError::InvalidFile(s) => ErrorView { kind: ErrorKind::InvalidFile, text: s@ },
            TorrentError::IoError(s) => ErrorView { kind: ErrorKind::IoError, text: s@ },
            TorrentError::NoPeers(s) => ErrorView { kind: ErrorKind::NoPeers, text: s@ },
            TorrentError::PieceNotReady(s) => ErrorView { kind: ErrorKind::PieceNotReady, text: s@ },
            TorrentError::Timeout(s) => ErrorView { kind: ErrorKind::Timeout, text: s@ },
            TorrentError::Unknown { code, message } => ErrorView {
                kind: ErrorKind::Unknown(*code),
                text: message@,
            },
        }
    }
}

/// Why a filesystem request fails.
#[derive(Debug)]
pub enum FsError {
    NotFound,
    Internal(String),
}

/// Each error keeps its kind, its code and its text.
pub proof fn law_error_is_its_fields(text: String, code: i32)
    ensures
        TorrentError::InvalidFile(text)@ == (ErrorView {
            kind: ErrorKind::InvalidFile,
            text: text@,
        }),
        TorrentError::IoError(text)@ == (ErrorView { kind: ErrorKind::IoError, text: text@ }),
        TorrentError::NoPeers(text)@ == (ErrorView { kind: ErrorKind::NoPeers, text: text@ }),
        TorrentError::PieceNotReady(text)@ == (ErrorView {
            kind: ErrorKind::PieceNotReady,
            text: text@,
        }),
        TorrentError::Timeout(text)@ == (ErrorView { kind: ErrorKind::Timeout, text: text@ }),
        (TorrentError::Unknown { code, message: text })@ == (ErrorView {
            kind: ErrorKind::Unknown(code),
            text: text@,
        }),
{
}

} // verus!
