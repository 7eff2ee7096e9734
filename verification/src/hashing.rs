//! Hashing a payload piece by piece as it streams by.
use vstd::prelude::*;

use crate::bytes;
use crate::digest;
use crate::torrent_file::PIECE_LEN;

verus! {

/// The digests of a payload: one for each piece in order, the last of which may
/// be short.
pub open spec fn piece_digests(payload: Seq<u8>) -> Seq<u8>
    decreases payload.len(),
{
    if payload.len() == 0 {
        Seq::empty()
    } else if payload.len() <= PIECE_LEN {
        digest::sha1(payload)
    } else {
        digest::sha1(payload.take(PIECE_LEN as int)) + piece_digests(
            payload.skip(PIECE_LEN as int),
        )
    }
}

/// The digests of the full pieces of a payload, and what is left after them.
pub open spec fn full_pieces(payload: Seq<u8>) -> (Seq<u8>, Seq<u8>)
    decreases payload.len(),
{
    if payload.len() < PIECE_LEN {
        (Seq::empty(), payload)
    } else {
        let (digests, rest) = full_pieces(payload.skip(PIECE_LEN as int));
        (digest::sha1(payload.take(PIECE_LEN as int)) + digests, rest)
    }
}

proof fn lemma_rest_is_short(payload: Seq<u8>)
    ensures
        full_pieces(payload).1.len() < PIECE_LEN,
    decreases payload.len(),
{
    if payload.len() >= PIECE_LEN {
        lemma_rest_is_short(payload.skip(PIECE_LEN as int));
    }
}

/// More payload only goes on from what was left.
proof fn lemma_pieces_extend(payload: Seq<u8>, more: Seq<u8>)
    ensures
        full_pieces(payload + more) == (
            full_pieces(payload).0 + full_pieces(full_pieces(payload).1 + more).0,
            full_pieces(full_pieces(payload).1 + more).1,
        ),
    decreases payload.len(),
{
    let whole = payload + more;
    if payload.len() < PIECE_LEN {
        assert(Seq::<u8>::empty() + full_pieces(whole).0 =~= full_pieces(whole).0);
    } else {
        let later = payload.skip(PIECE_LEN as int);
        lemma_pieces_extend(later, more);
        assert(whole.skip(PIECE_LEN as int) =~= later + more);
        assert(whole.take(PIECE_LEN as int) =~= payload.take(PIECE_LEN as int));
        assert(full_pieces(whole).0 =~= full_pieces(payload).0 + full_pieces(
            full_pieces(payload).1 + more,
        ).0);
    }
}

proof fn lemma_digests_end_with_rest(payload: Seq<u8>)
    ensures
        piece_digests(payload) == (if full_pieces(payload).1.len() > 0 {
            full_pieces(payload).0 + digest::sha1(full_pieces(payload).1)
        } else {
            full_pieces(payload).0
        }),
    decreases payload.len(),
{
    if payload.len() == 0 {
    } else if payload.len() < PIECE_LEN {
        assert(Seq::<u8>::empty() + digest::sha1(payload) =~= digest::sha1(payload));
    } else {
        let later = payload.skip(PIECE_LEN as int);
        lemma_digests_end_with_rest(later);
        let first = digest::sha1(payload.take(PIECE_LEN as int));
        let (digests, rest) = full_pieces(later);
        if payload.len() == PIECE_LEN {
            assert(payload.take(PIECE_LEN as int) =~= payload);
            assert(first + Seq::<u8>::empty() =~= first);
        } else if rest.len() > 0 {
            assert(first + (digests + digest::sha1(rest)) =~= first + digests + digest::sha1(rest));
        }
    }
}

/// The digests of a stream so far, and the bytes of the piece at hand.
pub struct PieceHasher {
    pub pieces: Vec<u8>,
    pub pending: Vec<u8>,
    pub total: u64,
}

impl PieceHasher {
    /// Whether the hasher has been given exactly this payload.
    pub open spec fn holds(&self, payload: Seq<u8>) -> bool {
        &&& self.pieces@ == full_pieces(payload).0
        &&& self.pending@ == full_pieces(payload).1
        &&& self.total == payload.len()
    }

    /// A hasher of nothing.
    pub fn new() -> (hasher: PieceHasher)
        ensures
            hasher.holds(Seq::empty()),
            hasher.total == 0,
    {
        let hasher = PieceHasher { pieces: Vec::new(), pending: Vec::new(), total: 0 };
        assert(hasher.pending@ =~= Seq::empty());
        hasher
    }

    /// Takes more of the payload. A piece may span the border between two calls.
    pub fn update(&mut self, data: &[u8])
        requires
            old(self).total + data@.len() <= u64::MAX,
        ensures
            final(self).total == old(self).total + data@.len(),
            forall|payload: Seq<u8>| #[trigger]
                old(self).holds(payload) ==> final(self).holds(payload + data@),
    {
        let ghost was = *self;
        self.total = self.total + data.len() as u64;
        bytes::push_all(&mut self.pending, data);
        let ghost fed = was.pending@ + data@;
        assert(was.pieces@ + full_pieces(fed).0 =~= self.pieces@ + full_pieces(self.pending@).0);
        while self.pending.len() >= PIECE_LEN
            invariant
                self.total == was.total + data@.len(),
                was.pieces@ + full_pieces(fed).0 == self.pieces@ + full_pieces(self.pending@).0,
                full_pieces(fed).1 == full_pieces(self.pending@).1,
            decreases self.pending@.len(),
        {
            let ghost before = *self;
            let piece = bytes::copy_range(self.pending.as_slice(), 0, PIECE_LEN);
            let digest = digest::sha1_digest(piece.as_slice());
            bytes::push_all(&mut self.pieces, digest.as_slice());
            self.pending = bytes::copy_range(self.pending.as_slice(), PIECE_LEN, self.pending.len());
            proof {
                assert(piece@ =~= before.pending@.take(PIECE_LEN as int));
                assert(self.pending@ =~= before.pending@.skip(PIECE_LEN as int));
                assert(self.pieces@ + full_pieces(self.pending@).0 =~= before.pieces@ + full_pieces(
                    before.pending@,
                ).0);
            }
        }
        proof {
            assert(self.pieces@ + full_pieces(self.pending@).0 =~= self.pieces@);
            assert forall|payload: Seq<u8>| #[trigger] was.holds(payload) implies self.holds(
                payload + data@,
            ) by {
                lemma_pieces_extend(payload, data@);
            }
        }
    }

    /// The digests of the payload and its length.
    pub fn finish(self) -> (r: (Vec<u8>, u64))
        requires
            self.pending@.len() <= PIECE_LEN,
        ensures
            r.1 == self.total,
            forall|payload: Seq<u8>| #[trigger]
                self.holds(payload) ==> r.0@ == piece_digests(payload) && r.1 == payload.len(),
    {
        let mut pieces = self.pieces;
        let ghost full = pieces@;
        if self.pending.len() > 0 {
            let digest = digest::sha1_digest(self.pending.as_slice());
            bytes::push_all(&mut pieces, digest.as_slice());
        }
        proof {
            assert forall|payload: Seq<u8>| #[trigger] self.holds(payload) implies pieces@
                == piece_digests(payload) by {
                lemma_digests_end_with_rest(payload);
            }
        }
        (pieces, self.total)
    }
}

/// A hasher that has been given a payload has less than a piece at hand.
pub proof fn law_pending_is_short(hasher: PieceHasher, payload: Seq<u8>)
    requires
        hasher.holds(payload),
    ensures
        hasher.pending@.len() < PIECE_LEN,
{
    lemma_rest_is_short(payload);
}

/// Whether a chunk is a full piece of zeroes, which a seeder leaves as a hole.
pub fn is_zero_piece(chunk: &[u8]) -> (yes: bool)
    ensures
        yes <==> chunk@.len() == PIECE_LEN && forall|i: int|
            0 <= i < chunk@.len() ==> chunk@[i] == 0,
{
    if chunk.len() != PIECE_LEN {
        return false;
    }
    let mut i: usize = 0;
    while i < chunk.len()
        invariant
            i <= chunk@.len(),
            forall|j: int| 0 <= j < i ==> chunk@[j] == 0,
        decreases chunk@.len() - i,
    {
        if chunk[i] != 0 {
            return false;
        }
        i = i + 1;
    }
    true
}

/// A payload of up to a quarter of a mebibyte has one digest, its own; of a longer one
/// the first quarter of a mebibyte has its own digest, in front of those of the rest.
/// Nothing has none.
pub proof fn law_each_piece_has_its_digest(piece: Seq<u8>, rest: Seq<u8>)
    ensures
        piece.len() == 0 ==> piece_digests(piece) == Seq::<u8>::empty(),
        0 < piece.len() <= 262_144 ==> piece_digests(piece) == digest::sha1(piece),
        piece.len() == 262_144 && rest.len() > 0 ==> piece_digests(piece + rest) == digest::sha1(
            piece,
        ) + piece_digests(rest),
{
    assert((piece + rest).len() == piece.len() + rest.len());
    if piece.len() == 262_144 {
        assert((piece + rest).take(262_144) =~= piece);
        assert((piece + rest).skip(262_144) =~= rest);
    }
}

} // verus!
