//! Hexadecimal names and SHA-1 digests.
use vstd::prelude::*;

verus! {

/// The lower-case hexadecimal digit of a number below sixteen.
pub open spec fn hex_digit(n: int) -> char {
    if n < 10 {
        ('0' as int + n) as char
    } else {
        ('a' as int + (n - 10)) as char
    }
}

/// Each byte as two lower-case hexadecimal digits, the high one first.
pub open spec fn hex_text(data: Seq<u8>) -> Seq<char> {
    Seq::new(
        2 * data.len(),
        |i: int|
            if i % 2 == 0 {
                hex_digit(data[i / 2] as int / 16)
            } else {
                hex_digit(data[i / 2] as int % 16)
            },
    )
}

/// Calls `hex::encode`, which writes every byte as two lower-case hexadecimal
/// digits, the high half of the byte first.
#[verifier::external_body]
pub(crate) fn hex_encode(data: &[u8]) -> (text: String)
    ensures
        text@ == hex_text(data@),
{
    hex::encode(data)
}

/// The SHA-1 digest of some bytes.
pub uninterp spec fn sha1(data: Seq<u8>) -> Seq<u8>;

/// Calls `sha1_smol::Sha1`: a new hasher that is given the bytes at once and then
/// asked for its digest, which is twenty bytes long and depends on the bytes
/// alone. Which digest belongs to which bytes is left unsaid. The hasher counts
/// bits in 64 bits, so the input has to be shorter than that.
#[verifier::external_body]
pub(crate) fn sha1_digest(data: &[u8]) -> (digest: Vec<u8>)
    requires
        data@.len() < 0x2000_0000_0000_0000,
    ensures
        digest@ == sha1(data@),
        digest@.len() == 20,
{
    let mut hasher = sha1_smol::Sha1::new();
    hasher.update(data);
    hasher.digest().bytes().to_vec()
}

/// The name under which the bytes of a torrent file are looked up: their digest in
/// hexadecimal.
pub fn content_hash_of(data: &[u8]) -> (name: String)
    requires
        data@.len() < 0x2000_0000_0000_0000,
    ensures
        name@ == hex_text(sha1(data@)),
{
    hex_encode(sha1_digest(data).as_slice())
}

/// Each byte becomes two digits, and different bytes become different texts.
pub proof fn law_hexadecimal_is_faithful(a: Seq<u8>, b: Seq<u8>)
    ensures
        hex_text(a).len() == 2 * a.len(),
        hex_text(a) == hex_text(b) ==> a == b,
        forall|i: int|
            0 <= i < hex_text(a).len() ==> '0' <= #[trigger] hex_text(a)[i] <= '9' || 'a'
                <= hex_text(a)[i] <= 'f',
{
    if hex_text(a) == hex_text(b) {
        assert(hex_text(a).len() == hex_text(b).len());
        assert forall|i: int| 0 <= i < a.len() implies a[i] == b[i] by {
            assert(hex_text(a)[2 * i] == hex_text(b)[2 * i]);
            assert(hex_text(a)[2 * i + 1] == hex_text(b)[2 * i + 1]);
            assert((2 * i) / 2 == i && (2 * i) % 2 == 0);
            assert((2 * i + 1) / 2 == i && (2 * i + 1) % 2 == 1);
        }
        assert(a =~= b);
    }
}

} // verus!
