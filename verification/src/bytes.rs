//! Bytes: decimal numbers and text within byte strings.
use vstd::prelude::*;

verus! {

/// A natural number in decimal, as ASCII bytes.
pub open spec fn dec_bytes(n: nat) -> Seq<u8>
    decreases n,
{
    if n < 10 {
        seq![(48 + n) as u8]
    } else {
        dec_bytes(n / 10).push((48 + n % 10) as u8)
    }
}

/// Appends a number in decimal.
pub fn push_dec_bytes(out: &mut Vec<u8>, n: u64)
    ensures
        final(out)@ == old(out)@ + dec_bytes(n as nat),
    decreases n,
{
    let ghost before = out@;
    if n < 10 {
        out.push(48 + n as u8);
    } else {
        push_dec_bytes(out, n / 10);
        out.push(48 + (n % 10) as u8);
    }
    assert(out@ =~= before + dec_bytes(n as nat));
}

/// Appends bytes.
pub fn push_all(out: &mut Vec<u8>, data: &[u8])
    ensures
        final(out)@ == old(out)@ + data@,
{
    let ghost before = out@;
    let mut i: usize = 0;
    assert(before + data@.take(0) =~= before);
    while i < data.len()
        invariant
            i <= data@.len(),
            out@ == before + data@.take(i as int),
        decreases data@.len() - i,
    {
        out.push(data[i]);
        assert(out@ =~= before + data@.take(i as int + 1));
        i = i + 1;
    }
    assert(data@.take(data@.len() as int) =~= data@);
}

/// Appends the bytes of a text.
pub fn push_str_bytes(out: &mut Vec<u8>, s: &str)
    ensures
        final(out)@ == old(out)@ + vstd::utf8::encode_utf8(s@),
{
    push_all(out, s.as_bytes());
}

/// A copy of a part of some bytes.
pub fn copy_range(data: &[u8], from: usize, to: usize) -> (out: Vec<u8>)
    requires
        from <= to <= data@.len(),
    ensures
        out@ == data@.subrange(from as int, to as int),
{
    let mut out: Vec<u8> = Vec::new();
    let mut i: usize = from;
    while i < to
        invariant
            from <= i <= to <= data@.len(),
            out@ == data@.subrange(from as int, i as int),
        decreases to - i,
    {
        out.push(data[i]);
        assert(out@ =~= data@.subrange(from as int, i as int + 1));
        i = i + 1;
    }
    out
}

/// Whether two byte strings are the same.
pub fn same_bytes(a: &[u8], b: &[u8]) -> (yes: bool)
    ensures
        yes == (a@ == b@),
{
    if a.len() != b.len() {
        return false;
    }
    let mut i: usize = 0;
    while i < a.len()
        invariant
            i <= a@.len(),
            a@.len() == b@.len(),
            forall|j: int| 0 <= j < i ==> a@[j] == b@[j],
        decreases a@.len() - i,
    {
        if a[i] != b[i] {
            return false;
        }
        i = i + 1;
    }
    assert(a@ =~= b@);
    true
}

/// Position of the first occurrence of a byte, or the length.
pub open spec fn position(data: Seq<u8>, b: u8) -> int
    decreases data.len(),
{
    if data.len() == 0 || data[0] == b {
        0
    } else {
        1 + position(data.skip(1), b)
    }
}

/// Position of the first occurrence of a byte, or the length.
pub fn find_byte(data: &[u8], b: u8) -> (at: usize)
    ensures
        at == position(data@, b),
        at <= data@.len(),
        at < data@.len() ==> data@[at as int] == b,
{
    let mut i: usize = 0;
    assert(data@.skip(0) =~= data@);
    while i < data.len() && data[i] != b
        invariant
            i <= data@.len(),
            position(data@, b) == i + position(data@.skip(i as int), b),
        decreases data@.len() - i,
    {
        assert(data@.skip(i as int).skip(1) =~= data@.skip(i as int + 1));
        i = i + 1;
    }
    i
}

/// A byte that first occurs at the end of a prefix is found there.
pub proof fn lemma_position(prefix: Seq<u8>, b: u8, rest: Seq<u8>)
    requires
        forall|i: int| 0 <= i < prefix.len() ==> prefix[i] != b,
    ensures
        position(prefix.push(b) + rest, b) == prefix.len(),
    decreases prefix.len(),
{
    let data = prefix.push(b) + rest;
    if prefix.len() > 0 {
        lemma_position(prefix.skip(1), b, rest);
        assert(data.skip(1) =~= prefix.skip(1).push(b) + rest);
        assert(data[0] == prefix[0]);
    } else {
        assert(data[0] == b);
    }
}

/// Whether a byte is a decimal digit.
pub open spec fn is_digit(b: u8) -> bool {
    48 <= b <= 57
}

/// The value of a string of digits.
pub open spec fn digits_value(d: Seq<u8>) -> nat
    decreases d.len(),
{
    if d.len() == 0 {
        0
    } else {
        digits_value(d.drop_last()) * 10 + (d.last() - 48) as nat
    }
}

/// The digits of a number: what follows an optional plus sign.
pub open spec fn unsigned_digits(b: Seq<u8>) -> Seq<u8> {
    if b.len() > 0 && b[0] == 43 {
        b.skip(1)
    } else {
        b
    }
}

/// The number that a byte string stands for: an optional plus sign and at least
/// one digit, and a value of at most `max`.
pub open spec fn unsigned_value(b: Seq<u8>, max: nat) -> Option<nat> {
    let d = unsigned_digits(b);
    if d.len() > 0 && (forall|i: int| 0 <= i < d.len() ==> is_digit(#[trigger] d[i]))
        && digits_value(d) <= max {
        Some(digits_value(d))
    } else {
        None
    }
}

/// A longer string of digits has no smaller value.
proof fn lemma_digits_grow(d: Seq<u8>, n: int)
    requires
        0 <= n <= d.len(),
        forall|i: int| 0 <= i < d.len() ==> is_digit(#[trigger] d[i]),
    ensures
        digits_value(d.take(n)) <= digits_value(d),
    decreases d.len() - n,
{
    if n < d.len() {
        lemma_digits_grow(d, n + 1);
        assert(d.take(n + 1).drop_last() =~= d.take(n));
    } else {
        assert(d.take(n) =~= d);
    }
}

/// Reads an unsigned number from a part of some bytes.
pub fn parse_unsigned(data: &[u8], from: usize, to: usize, max: u64) -> (r: Option<u64>)
    requires
        from <= to <= data@.len(),
    ensures
        (match r {
            Some(n) => Some(n as nat),
            None => None,
        }) == unsigned_value(data@.subrange(from as int, to as int), max as nat),
{
    let ghost b = data@.subrange(from as int, to as int);
    let start: usize = if from < to && data[from] == 43 {
        from + 1
    } else {
        from
    };
    let ghost d = unsigned_digits(b);
    assert(d =~= data@.subrange(start as int, to as int));
    if start == to {
        return None;
    }
    let mut n: u64 = 0;
    let mut i: usize = start;
    while i < to
        invariant
            from <= start <= i <= to <= data@.len(),
            d == data@.subrange(start as int, to as int),
            b == data@.subrange(from as int, to as int),
            d == unsigned_digits(b),
            n == digits_value(d.take(i - start)),
            n <= max,
            forall|j: int| 0 <= j < i - start ==> is_digit(#[trigger] d[j]),
        decreases to - i,
    {
        let c: u8 = data[i];
        assert(c == d[i - start]);
        if c < 48 || c > 57 {
            return None;
        }
        let next: u128 = n as u128 * 10 + (c - 48) as u128;
        assert(d.take(i - start + 1).drop_last() =~= d.take(i - start));
        if next > max as u128 {
            proof {
                if forall|j: int| 0 <= j < d.len() ==> is_digit(#[trigger] d[j]) {
                    lemma_digits_grow(d, i - start + 1);
                    assert(digits_value(d) > max);
                }
            }
            return None;
        }
        n = next as u64;
        i = i + 1;
    }
    assert(d.take(to - start) =~= d);
    Some(n)
}

/// A number in decimal reads back as itself.
pub proof fn law_decimal_reads_back(n: nat)
    ensures
        dec_bytes(n).len() > 0,
        forall|i: int| 0 <= i < dec_bytes(n).len() ==> is_digit(#[trigger] dec_bytes(n)[i]),
        digits_value(dec_bytes(n)) == n,
        unsigned_value(dec_bytes(n), n) == Some(n),
    decreases n,
{
    if n >= 10 {
        law_decimal_reads_back(n / 10);
        let d = dec_bytes(n);
        assert(d.drop_last() =~= dec_bytes(n / 10));
        assert(d.last() == (48 + n % 10) as u8);
        assert((d.last() - 48) as nat == n % 10);
        assert forall|i: int| 0 <= i < d.len() implies is_digit(#[trigger] d[i]) by {
            if i < d.len() - 1 {
                assert(d[i] == dec_bytes(n / 10)[i]);
            }
        }
    } else {
        let d = dec_bytes(n);
        assert(d.drop_last() =~= Seq::<u8>::empty());
        assert(digits_value(d.drop_last()) == 0);
        assert(d.last() == (48 + n) as u8);
        assert((d.last() - 48) as nat == n);
    }
    assert(is_digit(dec_bytes(n)[0]));
    assert(unsigned_digits(dec_bytes(n)) == dec_bytes(n));
}

} // verus!
