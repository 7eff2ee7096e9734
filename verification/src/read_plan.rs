//! The geometry of a read: which pieces a byte range covers, and how the bytes
//! of those pieces make up the answer.
use vstd::prelude::*;

use crate::error::{ErrorKind, ErrorView, TorrentError};
use crate::text;

verus! {

/// A read that passed validation.
#[derive(Debug, Clone, Copy, PartialEq, Eq, Structural)]
pub struct ReadPlan {
    /// Bytes in a piece.
    pub piece_length: u64,
    /// Pieces in the torrent.
    pub num_pieces: i32,
    /// Bytes in the torrent.
    pub total_size: u64,
    /// Offset of the first byte, within the torrent.
    pub absolute_offset: u64,
    /// Offset past the last byte, within the torrent.
    pub end_offset: u64,
    /// Bytes to answer with.
    pub size: u32,
    /// Piece of the first byte.
    pub start_piece: i32,
    /// Piece of the last byte.
    pub end_piece: i32,
}

impl ReadPlan {
    /// The pieces and offsets of the plan belong together and stay within their
    /// integer types.
    pub open spec fn wf(self) -> bool {
        &&& self.piece_length > 0
        &&& 0 <= self.start_piece <= self.end_piece < self.num_pieces
        &&& self.num_pieces * self.piece_length <= u64::MAX
        &&& self.absolute_offset < self.end_offset
        &&& self.end_offset == self.absolute_offset + self.size
        &&& self.start_piece * self.piece_length <= self.absolute_offset
        &&& self.absolute_offset < (self.start_piece + 1) * self.piece_length
    }
}

/// Number of bytes of a request that the file still holds.
pub open spec fn answer_size(size: u32, left: int) -> int {
    if size <= left {
        size as int
    } else {
        left
    }
}

/// What a validated request comes to.
pub enum PlanView {
    /// The range holds no byte.
    Empty,
    /// The range is served under this plan.
    Read(ReadPlan),
    /// The request is refused.
    Refused(ErrorView),
}

/// The plan of a request for `size` bytes at `offset` of a file that starts at
/// `file_start` and holds `file_size` bytes.
pub open spec fn plan_of(
    piece_length: u64,
    num_pieces: i32,
    total_size: u64,
    file_start: u64,
    file_size: u64,
    offset: u64,
    size: u32,
) -> PlanView {
    let start = file_start + offset;
    let file_end = file_start + file_size;
    if num_pieces <= 0 || piece_length == 0 {
        PlanView::Refused(
            ErrorView {
                kind: ErrorKind::InvalidFile,
                text: "Invalid torrent: num_pieces = "@ + text::dec_int(num_pieces as int)
                    + ", piece_length = "@ + text::dec(piece_length as nat),
            },
        )
    } else if size == 0 || start >= file_end {
        PlanView::Empty
    } else {
        let n = answer_size(size, file_end - start);
        let first = start / piece_length as int;
        let last_wanted = (start + n - 1) / piece_length as int;
        let last = if last_wanted < num_pieces - 1 {
            last_wanted
        } else {
            num_pieces - 1
        };
        if first >= num_pieces {
            PlanView::Refused(
                ErrorView {
                    kind: ErrorKind::InvalidFile,
                    text: "start_piece "@ + text::dec_int(first) + " exceeds num_pieces "@
                        + text::dec_int(num_pieces as int),
                },
            )
        } else {
            PlanView::Read(
                ReadPlan {
                    piece_length,
                    num_pieces,
                    total_size,
                    absolute_offset: start as u64,
                    end_offset: (start + n) as u64,
                    size: n as u32,
                    start_piece: first as i32,
                    end_piece: last as i32,
                },
            )
        }
    }
}

/// Validates a request and works out which pieces it covers. A request for no
/// bytes, or past the end of the file, is an empty read, not a failure.
pub fn prepare_read(
    piece_length: u64,
    num_pieces: i32,
    total_size: u64,
    file_start: u64,
    file_size: u64,
    offset: u64,
    size: u32,
) -> (r: Result<Option<ReadPlan>, TorrentError>)
    requires
        file_start + offset <= u64::MAX,
        file_start + file_size <= u64::MAX,
        num_pieces > 0 && piece_length > 0 && size > 0 && offset < file_size ==> (file_start
            + offset + answer_size(size, file_size - offset) - 1) / piece_length as int <= i32::MAX,
    ensures
        (match r {
            Ok(None) => PlanView::Empty,
            Ok(Some(plan)) => PlanView::Read(plan),
            Err(e) => PlanView::Refused(e@),
        }) == plan_of(
            piece_length,
            num_pieces,
            total_size,
            file_start,
            file_size,
            offset,
            size,
        ),
        num_pieces * piece_length <= u64::MAX ==> (r matches Ok(Some(plan)) ==> plan.wf()),
{
    if num_pieces <= 0 || piece_length == 0 {
        let mut message: String = "Invalid torrent: num_pieces = ".to_owned();
        text::push_dec_int(&mut message, num_pieces as i64);
        text::push_text(&mut message, ", piece_length = ");
        text::push_dec(&mut message, piece_length);
        return Err(TorrentError::InvalidFile(message));
    }
    let absolute_offset: u64 = file_start + offset;
    let file_end: u64 = file_start + file_size;
    if size == 0 || absolute_offset >= file_end {
        return Ok(None);
    }
    let left: u64 = file_end - absolute_offset;
    let n: u32 = if (size as u64) <= left {
        size
    } else {
        left as u32
    };
    let end_offset: u64 = absolute_offset + n as u64;
    proof {
        lemma_piece_bounds(absolute_offset as int, n as int, piece_length as int);
    }
    let start_piece: i32 = (absolute_offset / piece_length) as i32;
    let last_wanted: i32 = ((end_offset - 1) / piece_length) as i32;
    let end_piece: i32 = if last_wanted < num_pieces - 1 {
        last_wanted
    } else {
        num_pieces - 1
    };
    if start_piece >= num_pieces {
        let mut message: String = "start_piece ".to_owned();
        text::push_dec_int(&mut message, start_piece as i64);
        text::push_text(&mut message, " exceeds num_pieces ");
        text::push_dec_int(&mut message, num_pieces as i64);
        return Err(TorrentError::InvalidFile(message));
    }
    Ok(
        Some(
            ReadPlan {
                piece_length,
                num_pieces,
                total_size,
                absolute_offset,
                end_offset,
                size: n,
                start_piece,
                end_piece,
            },
        ),
    )
}

/// The first and last piece of a range of bytes.
proof fn lemma_piece_bounds(start: int, n: int, len: int)
    requires
        0 <= start,
        1 <= n,
        0 < len,
    ensures
        0 <= start / len <= (start + n - 1) / len,
        (start / len) * len <= start < (start / len + 1) * len,
{
    vstd::arithmetic::div_mod::lemma_div_pos_is_pos(start, len);
    vstd::arithmetic::div_mod::lemma_div_is_ordered(start, start + n - 1, len);
    vstd::arithmetic::div_mod::lemma_fundamental_div_mod(start, len);
    assert((start / len) * len <= start < (start / len + 1) * len) by (nonlinear_arith)
        requires
            start == len * (start / len) + start % len,
            0 <= start % len < len,
    ;
}

/// Bounds of the part of a read that is complete when the wait is over: the
/// pieces up to `last_complete`. Nothing when not even the first piece came.
pub fn partial_read_bounds(
    start_piece: i32,
    last_complete: i32,
    piece_length: u64,
    absolute_offset: u64,
    end_offset: u64,
) -> (r: Option<(u64, u32)>)
    requires
        0 <= start_piece,
        last_complete >= start_piece ==> (last_complete + 1) * piece_length <= u64::MAX,
        end_offset - absolute_offset <= u32::MAX,
    ensures
        r == partial_bounds(start_piece, last_complete, piece_length, absolute_offset, end_offset),
{
    if last_complete < start_piece {
        return None;
    }
    let boundary: u64 = (last_complete as u64 + 1) * piece_length;
    let partial_end: u64 = if end_offset <= boundary {
        end_offset
    } else {
        boundary
    };
    if partial_end <= absolute_offset {
        return None;
    }
    Some((partial_end, (partial_end - absolute_offset) as u32))
}

/// See [`partial_read_bounds`].
pub open spec fn partial_bounds(
    start_piece: i32,
    last_complete: i32,
    piece_length: u64,
    absolute_offset: u64,
    end_offset: u64,
) -> Option<(u64, u32)> {
    let boundary = (last_complete + 1) * piece_length;
    let partial_end = if end_offset <= boundary {
        end_offset as int
    } else {
        boundary
    };
    if last_complete < start_piece || partial_end <= absolute_offset {
        None
    } else {
        Some((partial_end as u64, (partial_end - absolute_offset) as u32))
    }
}

/// Bytes that piece `p` holds: the piece length, or what is left of the torrent
/// for its last piece.
pub open spec fn piece_size(p: int, piece_length: u64, total_size: u64) -> int {
    let start = p * piece_length;
    if start + piece_length <= total_size {
        piece_length as int
    } else if start < total_size {
        total_size - start
    } else {
        0
    }
}

/// Bytes that a piece holds; the last one may be short.
pub fn expected_piece_size(piece_index: i32, piece_length: u64, num_pieces: i32, total_size: u64) -> (size:
    u64)
    requires
        0 <= piece_index < num_pieces,
        num_pieces * piece_length <= u64::MAX,
    ensures
        size == piece_size(piece_index as int, piece_length, total_size),
{
    proof {
        lemma_piece_start_fits(piece_index as int, num_pieces as int, piece_length as int);
    }
    let start: u64 = piece_index as u64 * piece_length;
    if start + piece_length <= total_size {
        piece_length
    } else if start < total_size {
        total_size - start
    } else {
        0
    }
}

/// A piece below the number of pieces lies within the pieces' span.
pub proof fn lemma_piece_start_fits(p: int, num_pieces: int, len: int)
    requires
        0 <= p < num_pieces,
        0 <= len,
    ensures
        0 <= p * len,
        p * len + len <= num_pieces * len,
        (p + 1) * len == p * len + len,
{
    assert(0 <= p * len) by (nonlinear_arith)
        requires
            0 <= p,
            0 <= len,
    ;
    assert(p * len + len <= num_pieces * len && (p + 1) * len == p * len + len) by (nonlinear_arith)
        requires
            p + 1 <= num_pieces,
            0 <= len,
    ;
}

/// The bytes of a piece's data that a range covers, as positions in the data.
pub open spec fn chunk_bounds(
    data_len: int,
    p: int,
    piece_length: u64,
    absolute_offset: u64,
    end_offset: u64,
) -> Option<(int, int)> {
    let piece_start = p * piece_length;
    let from = if absolute_offset > piece_start {
        absolute_offset as int
    } else {
        piece_start
    };
    let to = if end_offset < piece_start + data_len {
        end_offset as int
    } else {
        piece_start + data_len
    };
    if from < to {
        Some((from - piece_start, to - piece_start))
    } else {
        None
    }
}

/// The byte range within a piece's data that overlaps a requested read.
pub fn piece_chunk_bounds(
    piece_data: &[u8],
    piece_idx: i32,
    piece_length: u64,
    absolute_offset: u64,
    end_offset: u64,
) -> (r: Option<(usize, usize)>)
    requires
        0 <= piece_idx,
        piece_idx * piece_length + piece_data@.len() <= u64::MAX,
    ensures
        (match r {
            Some(b) => Some((b.0 as int, b.1 as int)),
            None => None,
        }) == chunk_bounds(
            piece_data@.len() as int,
            piece_idx as int,
            piece_length,
            absolute_offset,
            end_offset,
        ),
        r matches Some(b) ==> b.0 < b.1 <= piece_data@.len(),
{
    assert(0 <= piece_idx * piece_length) by (nonlinear_arith)
        requires
            0 <= piece_idx,
            0 <= piece_length,
    ;
    let piece_start: u64 = piece_idx as u64 * piece_length;
    let piece_end: u64 = piece_start + piece_data.len() as u64;
    let read_start: u64 = if absolute_offset > piece_start {
        absolute_offset
    } else {
        piece_start
    };
    let read_end: u64 = if end_offset < piece_end {
        end_offset
    } else {
        piece_end
    };
    if read_start < read_end {
        Some(((read_start - piece_start) as usize, (read_end - piece_start) as usize))
    } else {
        None
    }
}

// ── Putting an answer together ──────────────────────────────────────────────

/// The data of a piece, as far as it could be read.
pub open spec fn data_view(data: Option<Vec<u8>>) -> Option<Seq<u8>> {
    match data {
        Some(d) => Some(d@),
        None => None,
    }
}

/// The data of every piece, as far as it could be read.
pub open spec fn pieces_view(pieces: Seq<Option<Vec<u8>>>) -> Seq<Option<Seq<u8>>> {
    pieces.map_values(|d: Option<Vec<u8>>| data_view(d))
}

/// Whether a range covers a byte of piece `p`.
pub open spec fn overlaps(plan: ReadPlan, p: int) -> bool {
    plan.absolute_offset < p * plan.piece_length + plan.piece_length && plan.end_offset > p
        * plan.piece_length
}

/// Why the data of a piece cannot be used, if it cannot.
pub open spec fn piece_defect(plan: ReadPlan, p: int, data: Option<Seq<u8>>) -> Option<Seq<char>> {
    match data {
        None => Some(
            "Piece "@ + text::dec_int(p)
                + " file missing from cache but overlaps requested range (possible stale libtorrent state)"@,
        ),
        Some(d) => if d.len() == 0 {
            Some("Piece "@ + text::dec_int(p) + " data is empty but overlaps requested range"@)
        } else if d.len() < piece_size(p, plan.piece_length, plan.total_size) {
            Some(
                "Piece "@ + text::dec_int(p) + " data is "@ + text::dec(d.len())
                    + " bytes, expected "@ + text::dec(
                    piece_size(p, plan.piece_length, plan.total_size) as nat,
                ) + " (possible write-during-read race)"@,
            )
        } else {
            None
        },
    }
}

/// The bytes that piece `p` adds to the answer.
pub open spec fn piece_chunk(plan: ReadPlan, p: int, data: Seq<u8>) -> Seq<u8> {
    match chunk_bounds(
        data.len() as int,
        p,
        plan.piece_length,
        plan.absolute_offset,
        plan.end_offset,
    ) {
        Some(b) => data.subrange(b.0, b.1),
        None => Seq::empty(),
    }
}

/// What a read from disk comes to.
#[verifier::ext_equal]
pub enum AnswerView {
    Bytes(Seq<u8>),
    NotReady(Seq<char>),
}

/// The answer of a read that has gathered `got` from the pieces before the
/// `k`-th. Reading stops when the answer is long enough. A piece that cannot be
/// used fails the read if the range needs it and is passed over if not.
pub open spec fn gathered(
    plan: ReadPlan,
    pieces: Seq<Option<Seq<u8>>>,
    k: int,
    got: Seq<u8>,
) -> AnswerView
    decreases pieces.len() - k,
{
    let p = plan.start_piece + k;
    if got.len() >= plan.size {
        AnswerView::Bytes(got)
    } else if k >= pieces.len() {
        AnswerView::NotReady(
            "Short read: expected "@ + text::dec(plan.size as nat) + " bytes, got "@ + text::dec(
                got.len(),
            ) + " bytes"@,
        )
    } else {
        match piece_defect(plan, p, pieces[k]) {
            Some(why) => if overlaps(plan, p) {
                AnswerView::NotReady(why)
            } else {
                gathered(plan, pieces, k + 1, got)
            },
            None => gathered(plan, pieces, k + 1, got + piece_chunk(plan, p, pieces[k]->0)),
        }
    }
}

/// The pieces that such a read takes from disk and that the cache does not know
/// yet.
pub open spec fn newly_seen(
    plan: ReadPlan,
    pieces: Seq<Option<Seq<u8>>>,
    known: Seq<bool>,
    k: int,
    got: Seq<u8>,
) -> Seq<i32>
    decreases pieces.len() - k,
{
    let p = plan.start_piece + k;
    if got.len() >= plan.size || k >= pieces.len() {
        Seq::empty()
    } else {
        match piece_defect(plan, p, pieces[k]) {
            Some(why) => if overlaps(plan, p) {
                Seq::empty()
            } else {
                newly_seen(plan, pieces, known, k + 1, got)
            },
            None => {
                let rest = newly_seen(
                    plan,
                    pieces,
                    known,
                    k + 1,
                    got + piece_chunk(plan, p, pieces[k]->0),
                );
                if k < known.len() && known[k] {
                    rest
                } else {
                    seq![p as i32] + rest
                }
            },
        }
    }
}

/// Why a piece cannot be used, if it cannot.
fn find_defect(plan: &ReadPlan, p: i32, data: &Option<Vec<u8>>) -> (why: Option<String>)
    requires
        plan.wf(),
        0 <= p < plan.num_pieces,
    ensures
        (match why {
            Some(s) => Some(s@),
            None => None,
        }) == piece_defect(*plan, p as int, data_view(*data)),
{
    let mut message: String = "Piece ".to_owned();
    text::push_dec_int(&mut message, p as i64);
    match data {
        None => {
            text::push_text(
                &mut message,
                " file missing from cache but overlaps requested range (possible stale libtorrent state)",
            );
            Some(message)
        },
        Some(d) => {
            if d.len() == 0 {
                text::push_text(&mut message, " data is empty but overlaps requested range");
                return Some(message);
            }
            let expected: u64 = expected_piece_size(
                p,
                plan.piece_length,
                plan.num_pieces,
                plan.total_size,
            );
            if (d.len() as u64) < expected {
                text::push_text(&mut message, " data is ");
                text::push_dec(&mut message, d.len() as u64);
                text::push_text(&mut message, " bytes, expected ");
                text::push_dec(&mut message, expected);
                text::push_text(&mut message, " (possible write-during-read race)");
                return Some(message);
            }
            None
        },
    }
}

/// Puts the answer of a read together from the data of its pieces, the first of
/// which belongs to `plan.start_piece`. The second result lists the pieces that
/// were used and that the cache does not know yet, in order.
pub fn read_from_disk(plan: &ReadPlan, pieces: &Vec<Option<Vec<u8>>>, known: &Vec<bool>) -> (r: (
    Result<Vec<u8>, TorrentError>,
    Vec<i32>,
))
    requires
        plan.wf(),
        pieces@.len() <= plan.num_pieces - plan.start_piece,
        forall|k: int|
            0 <= k < pieces@.len() ==> ((#[trigger] pieces@[k]) matches Some(d) ==> (
            plan.start_piece + k) * plan.piece_length + d@.len() <= u64::MAX),
    ensures
        (match r.0 {
            Ok(bytes) => AnswerView::Bytes(bytes@),
            Err(e) => AnswerView::NotReady(e@.text),
        }) == gathered(*plan, pieces_view(pieces@), 0, Seq::empty()),
        r.0 matches Err(e) ==> e@.kind == ErrorKind::PieceNotReady,
        r.1@ == newly_seen(*plan, pieces_view(pieces@), known@, 0, Seq::empty()),
{
    let mut result: Vec<u8> = Vec::new();
    let mut fresh: Vec<i32> = Vec::new();
    let mut k: usize = 0;
    let ghost all = pieces_view(pieces@);
    assert(fresh@ + newly_seen(*plan, all, known@, 0, Seq::empty()) =~= newly_seen(
        *plan,
        all,
        known@,
        0,
        Seq::empty(),
    ));
    while k < pieces.len() && result.len() < plan.size as usize
        invariant
            plan.wf(),
            all == pieces_view(pieces@),
            k <= pieces@.len() <= plan.num_pieces - plan.start_piece,
            forall|i: int|
                0 <= i < pieces@.len() ==> ((#[trigger] pieces@[i]) matches Some(d) ==> (
                plan.start_piece + i) * plan.piece_length + d@.len() <= u64::MAX),
            gathered(*plan, all, 0, Seq::empty()) == gathered(*plan, all, k as int, result@),
            newly_seen(*plan, all, known@, 0, Seq::empty()) == fresh@ + newly_seen(
                *plan,
                all,
                known@,
                k as int,
                result@,
            ),
        decreases pieces@.len() - k,
    {
        let p: i32 = plan.start_piece + k as i32;
        let ghost before = result@;
        let ghost fresh_before = fresh@;
        assert(all[k as int] == data_view(pieces@[k as int]));
        proof {
            lemma_piece_start_fits(p as int, plan.num_pieces as int, plan.piece_length as int);
        }
        let defect: Option<String> = find_defect(plan, p, &pieces[k]);
        match defect {
            Some(why) => {
                let piece_start: u64 = p as u64 * plan.piece_length;
                let piece_end: u64 = piece_start + plan.piece_length;
                if plan.absolute_offset < piece_end && plan.end_offset > piece_start {
                    assert(fresh@ + Seq::<i32>::empty() =~= fresh@);
                    return (Err(TorrentError::PieceNotReady(why)), fresh);
                }
            },
            None => {
                if !(k < known.len() && known[k]) {
                    fresh.push(p);
                }
                match &pieces[k] {
                    Some(data) => {
                        let bounds: Option<(usize, usize)> = piece_chunk_bounds(
                            data.as_slice(),
                            p,
                            plan.piece_length,
                            plan.absolute_offset,
                            plan.end_offset,
                        );
                        match bounds {
                            Some((from, to)) => {
                                append_range(&mut result, data, from, to);
                            },
                            None => {
                                assert(before + Seq::<u8>::empty() =~= before);
                            },
                        }
                        assert(result@ == before + piece_chunk(*plan, p as int, data@));
                        proof {
                            let rest = newly_seen(*plan, all, known@, k as int + 1, result@);
                            if k < known@.len() && known@[k as int] {
                            } else {
                                assert(fresh_before + (seq![p] + rest) =~= fresh_before.push(p)
                                    + rest);
                            }
                        }
                    },
                    None => {},
                }
            },
        }
        k = k + 1;
    }
    assert(fresh@ + Seq::<i32>::empty() =~= fresh@);
    if result.len() < plan.size as usize {
        let mut message: String = "Short read: expected ".to_owned();
        text::push_dec(&mut message, plan.size as u64);
        text::push_text(&mut message, " bytes, got ");
        text::push_dec(&mut message, result.len() as u64);
        text::push_text(&mut message, " bytes");
        return (Err(TorrentError::PieceNotReady(message)), fresh);
    }
    (Ok(result), fresh)
}

/// Appends a part of some data.
pub fn append_range(out: &mut Vec<u8>, data: &Vec<u8>, from: usize, to: usize)
    requires
        from <= to <= data@.len(),
    ensures
        final(out)@ == old(out)@ + data@.subrange(from as int, to as int),
{
    let ghost before = out@;
    let mut i: usize = from;
    assert(before + data@.subrange(from as int, from as int) =~= before);
    while i < to
        invariant
            from <= i <= to <= data@.len(),
            out@ == before + data@.subrange(from as int, i as int),
        decreases to - i,
    {
        out.push(data[i]);
        assert(data@.subrange(from as int, i as int + 1) =~= data@.subrange(
            from as int,
            i as int,
        ).push(data@[i as int]));
        assert((before + data@.subrange(from as int, i as int)).push(data@[i as int]) =~= before
            + data@.subrange(from as int, i as int + 1));
        i = i + 1;
    }
}

/// In a torrent with pieces, a read is empty exactly when it asks for no bytes or
/// starts past the end of its file, and a planned read answers with at least one
/// byte, no more than were asked for and none from past the end of the file.
pub proof fn law_answer_fits_request(
    piece_length: u64,
    num_pieces: i32,
    total_size: u64,
    file_start: u64,
    file_size: u64,
    offset: u64,
    size: u32,
)
    requires
        file_start + file_size <= u64::MAX,
        piece_length > 0,
        num_pieces > 0,
    ensures
        ({
            let planned = plan_of(
                piece_length,
                num_pieces,
                total_size,
                file_start,
                file_size,
                offset,
                size,
            );
            &&& planned is Empty <==> size == 0 || offset >= file_size
            &&& planned matches PlanView::Read(plan) ==> {
                &&& 0 < plan.size <= size
                &&& plan.end_offset <= file_start + file_size
            }
        }),
{
}

/// When every piece on disk holds the torrent's own bytes, a read answers with
/// exactly the bytes of its range.
pub proof fn law_read_returns_content(plan: ReadPlan, pieces: Seq<Option<Seq<u8>>>, content: Seq<u8>)
    requires
        plan.wf(),
        content.len() == plan.total_size,
        plan.end_offset <= plan.total_size,
        pieces.len() <= plan.num_pieces - plan.start_piece,
        plan.end_offset <= (plan.start_piece + pieces.len()) * plan.piece_length,
        forall|k: int|
            0 <= k < pieces.len() ==> (#[trigger] pieces[k]) == Some(
                content.subrange(
                    (plan.start_piece + k) * plan.piece_length,
                    (plan.start_piece + k) * plan.piece_length + piece_size(
                        plan.start_piece + k,
                        plan.piece_length,
                        plan.total_size,
                    ),
                ),
            ),
    ensures
        gathered(plan, pieces, 0, Seq::empty()) == AnswerView::Bytes(
            content.subrange(plan.absolute_offset as int, plan.end_offset as int),
        ),
{
    lemma_gather_content(plan, pieces, content, 0, Seq::empty());
}

proof fn lemma_gather_content(
    plan: ReadPlan,
    pieces: Seq<Option<Seq<u8>>>,
    content: Seq<u8>,
    k: int,
    got: Seq<u8>,
)
    requires
        plan.wf(),
        content.len() == plan.total_size,
        plan.end_offset <= plan.total_size,
        pieces.len() <= plan.num_pieces - plan.start_piece,
        plan.end_offset <= (plan.start_piece + pieces.len()) * plan.piece_length,
        forall|i: int|
            0 <= i < pieces.len() ==> (#[trigger] pieces[i]) == Some(
                content.subrange(
                    (plan.start_piece + i) * plan.piece_length,
                    (plan.start_piece + i) * plan.piece_length + piece_size(
                        plan.start_piece + i,
                        plan.piece_length,
                        plan.total_size,
                    ),
                ),
            ),
        0 <= k <= pieces.len(),
        k == 0 ==> got.len() == 0,
        k > 0 ==> ({
            let reached = (plan.start_piece + k) * plan.piece_length;
            let to = if plan.end_offset <= reached {
                plan.end_offset as int
            } else {
                reached
            };
            plan.absolute_offset < to && got == content.subrange(plan.absolute_offset as int, to)
        }),
    ensures
        gathered(plan, pieces, k, got) == AnswerView::Bytes(
            content.subrange(plan.absolute_offset as int, plan.end_offset as int),
        ),
    decreases pieces.len() - k,
{
    let len = plan.piece_length as int;
    let p = plan.start_piece + k;
    if got.len() >= plan.size {
        assert(got =~= content.subrange(plan.absolute_offset as int, plan.end_offset as int));
    } else {
        if k == pieces.len() {
            assert(false);
        }
        lemma_piece_start_fits(p, plan.num_pieces as int, len);
        let ps = p * len;
        let size = piece_size(p, plan.piece_length, plan.total_size);
        let data = pieces[k]->0;
        assert(pieces[k] == Some(content.subrange(ps, ps + size)));
        if k == 0 {
            assert(ps <= plan.absolute_offset);
        } else {
            assert(ps < plan.end_offset);
        }
        assert(data.len() == size);
        assert(size > 0);
        assert(piece_defect(plan, p, pieces[k]) is None);
        let next = ps + len;
        let to = if plan.end_offset <= next {
            plan.end_offset as int
        } else {
            next
        };
        let from = if plan.absolute_offset > ps {
            plan.absolute_offset as int
        } else {
            ps
        };
        let chunk = piece_chunk(plan, p, data);
        assert(chunk =~= content.subrange(from, to));
        assert(got + chunk =~= content.subrange(plan.absolute_offset as int, to));
        lemma_gather_content(plan, pieces, content, k + 1, got + chunk);
    }
}

/// The part of a read that is answered when the wait is over is a non-empty
/// prefix of the request, and every byte of it lies in a complete piece.
pub proof fn law_partial_read_is_prefix(plan: ReadPlan, last_complete: i32)
    requires
        plan.wf(),
        last_complete < plan.num_pieces,
    ensures
        ({
            let r = partial_bounds(
                plan.start_piece,
                last_complete,
                plan.piece_length,
                plan.absolute_offset,
                plan.end_offset,
            );
            &&& r is Some <==> last_complete >= plan.start_piece
            &&& r matches Some(b) ==> {
                &&& plan.absolute_offset < b.0 <= plan.end_offset
                &&& b.0 <= (last_complete + 1) * plan.piece_length
                &&& b.1 == b.0 - plan.absolute_offset
                &&& 0 < b.1 <= plan.size
            }
        }),
{
    if last_complete >= plan.start_piece {
        let len = plan.piece_length as int;
        lemma_piece_start_fits(last_complete as int, plan.num_pieces as int, len);
        assert((plan.start_piece + 1) * len <= (last_complete + 1) * len) by (nonlinear_arith)
            requires
                plan.start_piece <= last_complete,
                0 <= len,
        ;
    }
}

} // verus!
