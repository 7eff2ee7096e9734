//! The bencode format, as far as `.torrent` files need it.
use vstd::prelude::*;

use vstd::slice::slice_subrange;
use vstd::utf8;

use crate::bytes;
use crate::text;

verus! {

/// A value: a byte string, a number, a list or a dictionary.
#[verifier::ext_equal]
pub enum Term {
    Str(Seq<u8>),
    Int(u64),
    List(Seq<Term>),
    Dict(Seq<(Seq<u8>, Term)>),
}

// ── The grammar ─────────────────────────────────────────────────────────────

/// A byte string: its length in decimal, a colon, its bytes.
pub open spec fn parsed_str(data: Seq<u8>) -> Option<(Seq<u8>, int)> {
    let colon = bytes::position(data, 58);
    if colon == data.len() {
        None
    } else {
        match bytes::unsigned_value(data.take(colon), usize::MAX as nat) {
            None => None,
            Some(len) => {
                let end = colon + 1 + len;
                if end > data.len() {
                    None
                } else {
                    Some((data.subrange(colon + 1, end), end))
                }
            },
        }
    }
}

/// A number: an `i`, its decimal digits, an `e`.
pub open spec fn parsed_int(data: Seq<u8>) -> Option<(u64, int)> {
    let end = bytes::position(data.skip(1), 101);
    if end == data.len() - 1 {
        None
    } else {
        match bytes::unsigned_value(data.subrange(1, 1 + end), u64::MAX as nat) {
            None => None,
            Some(n) => Some((n as u64, end + 2)),
        }
    }
}

/// The value at the start of some bytes and how many of them it takes.
pub open spec fn parsed(data: Seq<u8>) -> Option<(Term, int)>
    decreases data.len(), 0int,
{
    if data.len() == 0 {
        None
    } else if data[0] == 100 {
        match parsed_entries(data.skip(1)) {
            Some((entries, n)) => Some((Term::Dict(entries), n + 1)),
            None => None,
        }
    } else if data[0] == 108 {
        match parsed_items(data.skip(1)) {
            Some((items, n)) => Some((Term::List(items), n + 1)),
            None => None,
        }
    } else if data[0] == 105 {
        match parsed_int(data) {
            Some((i, n)) => Some((Term::Int(i), n)),
            None => None,
        }
    } else if bytes::is_digit(data[0]) {
        match parsed_str(data) {
            Some((s, n)) => Some((Term::Str(s), n)),
            None => None,
        }
    } else {
        None
    }
}

/// The items of a list up to its closing `e`.
pub open spec fn parsed_items(data: Seq<u8>) -> Option<(Seq<Term>, int)>
    decreases data.len(), 1int,
{
    if data.len() == 0 {
        None
    } else if data[0] == 101 {
        Some((Seq::empty(), 1))
    } else {
        match parsed(data) {
            Some((v, n)) => if 0 < n <= data.len() {
                match parsed_items(data.skip(n)) {
                    Some((rest, m)) => Some((seq![v] + rest, n + m)),
                    None => None,
                }
            } else {
                None
            },
            None => None,
        }
    }
}

/// The entries of a dictionary up to its closing `e`: each a byte string and a
/// value.
pub open spec fn parsed_entries(data: Seq<u8>) -> Option<(Seq<(Seq<u8>, Term)>, int)>
    decreases data.len(), 1int,
{
    if data.len() == 0 {
        None
    } else if data[0] == 101 {
        Some((Seq::empty(), 1))
    } else {
        match parsed_str(data) {
            Some((key, k)) => if 0 < k <= data.len() {
                match parsed(data.skip(k)) {
                    Some((v, n)) => if 0 < n <= data.len() - k {
                        match parsed_entries(data.skip(k + n)) {
                            Some((rest, m)) => Some((seq![(key, v)] + rest, k + n + m)),
                            None => None,
                        }
                    } else {
                        None
                    },
                    None => None,
                }
            } else {
                None
            },
            None => None,
        }
    }
}

// ── Looking into terms ──────────────────────────────────────────────────────

/// The value of the first entry with a key.
pub open spec fn entry_of(d: Seq<(Seq<u8>, Term)>, key: Seq<u8>) -> Option<Term>
    decreases d.len(),
{
    if d.len() == 0 {
        None
    } else if d[0].0 == key {
        Some(d[0].1)
    } else {
        entry_of(d.skip(1), key)
    }
}

impl Term {
    /// The value under a key of a dictionary.
    pub open spec fn entry(self, key: Seq<char>) -> Option<Term> {
        match self {
            Term::Dict(d) => entry_of(d, utf8::encode_utf8(key)),
            _ => None,
        }
    }

    /// The text that a byte string encodes.
    pub open spec fn text(self) -> Option<Seq<char>> {
        match self {
            Term::Str(s) => if utf8::valid_utf8(s) {
                Some(utf8::decode_utf8(s))
            } else {
                None
            },
            _ => None,
        }
    }

    /// The text under a key.
    pub open spec fn entry_text(self, key: Seq<char>) -> Option<Seq<char>> {
        match self.entry(key) {
            Some(t) => t.text(),
            None => None,
        }
    }

    /// The number under a key.
    pub open spec fn entry_int(self, key: Seq<char>) -> Option<u64> {
        match self.entry(key) {
            Some(Term::Int(n)) => Some(n),
            _ => None,
        }
    }

    /// The list under a key.
    pub open spec fn entry_list(self, key: Seq<char>) -> Option<Seq<Term>> {
        match self.entry(key) {
            Some(Term::List(l)) => Some(l),
            _ => None,
        }
    }
}

// ── Values in memory ────────────────────────────────────────────────────────

/// A value in memory.
pub enum Bencode {
    Str(Vec<u8>),
    Int(u64),
    List(Vec<Bencode>),
    Dict(Vec<(Vec<u8>, Bencode)>),
}

impl View for Bencode {
    type V = Term;

    open spec fn view(&self) -> Term
        decreases self,
    {
        match self {
            Bencode::Str(s) => Term::Str(s@),
            Bencode::Int(n) => Term::Int(*n),
            Bencode::List(l) => Term::List(
                Seq::new(
                    l@.len(),
                    |i: int|
                        if 0 <= i < l@.len() {
                            l@[i].view()
                        } else {
                            Term::Int(0)
                        },
                ),
            ),
            Bencode::Dict(d) => Term::Dict(
                Seq::new(
                    d@.len(),
                    |i: int|
                        if 0 <= i < d@.len() {
                            (d@[i].0@, d@[i].1.view())
                        } else {
                            (Seq::empty(), Term::Int(0))
                        },
                ),
            ),
        }
    }
}

/// The terms that some values stand for.
pub open spec fn terms(items: Seq<Bencode>) -> Seq<Term> {
    Seq::new(items.len(), |i: int| items[i]@)
}

/// The entries that some keys and values stand for.
pub open spec fn entry_terms(entries: Seq<(Vec<u8>, Bencode)>) -> Seq<(Seq<u8>, Term)> {
    Seq::new(entries.len(), |i: int| (entries[i].0@, entries[i].1@))
}

proof fn lemma_list_view(items: Vec<Bencode>)
    ensures
        Bencode::List(items)@ == Term::List(terms(items@)),
{
    reveal_with_fuel(<Bencode as View>::view, 2);
    assert(Bencode::List(items)@->List_0 =~= terms(items@));
}

proof fn lemma_dict_view(entries: Vec<(Vec<u8>, Bencode)>)
    ensures
        Bencode::Dict(entries)@ == Term::Dict(entry_terms(entries@)),
{
    reveal_with_fuel(<Bencode as View>::view, 2);
    assert(Bencode::Dict(entries)@->Dict_0 =~= entry_terms(entries@));
}

impl Bencode {
    /// The text that a byte string encodes.
    pub fn as_str(&self) -> (r: Option<String>)
        ensures
            text::opt_view(r) == self@.text(),
    {
        match self {
            Bencode::Str(v) => text::from_utf8(v.as_slice()),
            _ => {
                proof {
                    self.lemma_variant();
                }
                None
            },
        }
    }

    /// The value under a key of a dictionary.
    pub fn get_dict(&self, key: &str) -> (r: Option<&Bencode>)
        ensures
            (match r {
                Some(v) => Some(v@),
                None => None,
            }) == self@.entry(key@),
    {
        let entries = match self {
            Bencode::Dict(d) => d,
            _ => {
                proof {
                    self.lemma_variant();
                }
                return None;
            },
        };
        let bytes_of_key = key.as_bytes();
        let ghost all = entry_terms(entries@);
        proof {
            lemma_dict_view(*entries);
        }
        assert(all.skip(0) =~= all);
        let mut i: usize = 0;
        while i < entries.len()
            invariant
                i <= entries@.len(),
                all == entry_terms(entries@),
                bytes_of_key@ == utf8::encode_utf8(key@),
                self@.entry(key@) == entry_of(all.skip(i as int), utf8::encode_utf8(key@)),
            decreases entries@.len() - i,
        {
            if bytes::same_bytes(entries[i].0.as_slice(), bytes_of_key) {
                return Some(&entries[i].1);
            }
            assert(all.skip(i as int).skip(1) =~= all.skip(i as int + 1));
            i = i + 1;
        }
        None
    }

    /// The text under a key.
    pub fn get_str(&self, key: &str) -> (r: Option<String>)
        ensures
            text::opt_view(r) == self@.entry_text(key@),
    {
        match self.get_dict(key) {
            Some(v) => v.as_str(),
            None => None,
        }
    }

    /// The number under a key.
    pub fn get_int(&self, key: &str) -> (r: Option<u64>)
        ensures
            r == self@.entry_int(key@),
    {
        match self.get_dict(key) {
            Some(v) => {
                proof {
                    v.lemma_variant();
                }
                match v {
                    Bencode::Int(n) => Some(*n),
                    _ => None,
                }
            },
            None => None,
        }
    }

    /// The list under a key.
    pub fn get_list(&self, key: &str) -> (r: Option<&Vec<Bencode>>)
        ensures
            (match r {
                Some(l) => Some(terms(l@)),
                None => None,
            }) == self@.entry_list(key@),
    {
        match self.get_dict(key) {
            Some(v) => {
                proof {
                    v.lemma_variant();
                }
                match v {
                    Bencode::List(l) => {
                        proof {
                            lemma_list_view(*l);
                        }
                        Some(l)
                    },
                    _ => None,
                }
            },
            None => None,
        }
    }

    proof fn lemma_variant(&self)
        ensures
            self is Str <==> self@ is Str,
            self is Int <==> self@ is Int,
            self is List <==> self@ is List,
            self is Dict <==> self@ is Dict,
            self matches Bencode::Int(n) ==> self@ == Term::Int(*n),
    {
    }
}

/// What a parse gave, as a term and a number of bytes.
pub open spec fn outcome(r: Option<(Bencode, usize)>) -> Option<(Term, int)> {
    match r {
        Some((v, n)) => Some((v@, n as int)),
        None => None,
    }
}

/// Reads values from bytes.
pub struct BencodeParser;

impl BencodeParser {
    /// Reads the value at the start of some bytes: the value and how many bytes
    /// it takes.
    pub fn parse(data: &[u8]) -> (r: Option<(Bencode, usize)>)
        ensures
            outcome(r) == parsed(data@),
            r matches Some((_, n)) ==> 0 < n <= data@.len(),
        decreases data@.len(), 1int,
    {
        if data.len() == 0 {
            return None;
        }
        let first: u8 = data[0];
        if first == 100 {
            Self::parse_dict(data)
        } else if first == 108 {
            Self::parse_list(data)
        } else if first == 105 {
            Self::parse_int(data)
        } else if 48 <= first && first <= 57 {
            match Self::parse_str(data) {
                Some((s, n)) => Some((Bencode::Str(s), n)),
                None => None,
            }
        } else {
            None
        }
    }

    fn parse_dict(data: &[u8]) -> (r: Option<(Bencode, usize)>)
        requires
            data@.len() > 0,
            data@[0] == 100,
        ensures
            outcome(r) == parsed(data@),
            r matches Some((_, n)) ==> 0 < n <= data@.len(),
        decreases data@.len(), 0int,
    {
        let mut pos: usize = 1;
        let mut entries: Vec<(Vec<u8>, Bencode)> = Vec::new();
        let ghost whole = parsed_entries(data@.skip(1));
        proof {
            if let Some((rest, _)) = whole {
                assert(entry_terms(entries@) + rest =~= rest);
            }
        }
        while pos < data.len()
            invariant
                1 <= pos <= data@.len(),
                whole == parsed_entries(data@.skip(1)),
                data@[0] == 100,
                whole == (match parsed_entries(data@.skip(pos as int)) {
                    Some((rest, m)) => Some((entry_terms(entries@) + rest, pos - 1 + m)),
                    None => None,
                }),
            decreases data@.len() - pos,
        {
            let ghost tail = data@.skip(pos as int);
            if data[pos] == 101 {
                proof {
                    lemma_dict_view(entries);
                    assert(entry_terms(entries@) + Seq::<(Seq<u8>, Term)>::empty()
                        =~= entry_terms(entries@));
                }
                return Some((Bencode::Dict(entries), pos + 1));
            }
            let rest = slice_subrange(data, pos, data.len());
            assert(rest@ =~= tail);
            let (key, k) = match Self::parse_str(rest) {
                Some(found) => found,
                None => {
                    return None;
                },
            };
            let rest = slice_subrange(data, pos + k, data.len());
            assert(rest@ =~= tail.skip(k as int));
            let (value, n) = match Self::parse(rest) {
                Some(found) => found,
                None => {
                    return None;
                },
            };
            let ghost old_entries = entries@;
            let ghost entry = (key@, value@);
            entries.push((key, value));
            pos = pos + k + n;
            proof {
                assert(tail.skip(k + n) =~= data@.skip(pos as int));
                assert(entry_terms(entries@) =~= entry_terms(old_entries).push(entry));
                if let Some((after, m)) = parsed_entries(data@.skip(pos as int)) {
                    assert(entry_terms(entries@) + after =~= entry_terms(old_entries) + (
                    seq![entry] + after));
                }
            }
        }
        None
    }

    fn parse_list(data: &[u8]) -> (r: Option<(Bencode, usize)>)
        requires
            data@.len() > 0,
            data@[0] == 108,
        ensures
            outcome(r) == parsed(data@),
            r matches Some((_, n)) ==> 0 < n <= data@.len(),
        decreases data@.len(), 0int,
    {
        let mut pos: usize = 1;
        let mut items: Vec<Bencode> = Vec::new();
        let ghost whole = parsed_items(data@.skip(1));
        proof {
            if let Some((rest, _)) = whole {
                assert(terms(items@) + rest =~= rest);
            }
        }
        while pos < data.len()
            invariant
                1 <= pos <= data@.len(),
                whole == parsed_items(data@.skip(1)),
                data@[0] == 108,
                whole == (match parsed_items(data@.skip(pos as int)) {
                    Some((rest, m)) => Some((terms(items@) + rest, pos - 1 + m)),
                    None => None,
                }),
            decreases data@.len() - pos,
        {
            let ghost tail = data@.skip(pos as int);
            if data[pos] == 101 {
                proof {
                    lemma_list_view(items);
                    assert(terms(items@) + Seq::<Term>::empty() =~= terms(items@));
                }
                return Some((Bencode::List(items), pos + 1));
            }
            let rest = slice_subrange(data, pos, data.len());
            assert(rest@ =~= tail);
            let (value, n) = match Self::parse(rest) {
                Some(found) => found,
                None => {
                    return None;
                },
            };
            let ghost old_items = items@;
            let ghost term = value@;
            items.push(value);
            pos = pos + n;
            proof {
                assert(tail.skip(n as int) =~= data@.skip(pos as int));
                assert(terms(items@) =~= terms(old_items).push(term));
                if let Some((after, m)) = parsed_items(data@.skip(pos as int)) {
                    assert(terms(items@) + after =~= terms(old_items) + (seq![term] + after));
                }
            }
        }
        None
    }

    fn parse_int(data: &[u8]) -> (r: Option<(Bencode, usize)>)
        requires
            data@.len() > 0,
            data@[0] == 105,
        ensures
            outcome(r) == parsed(data@),
            r matches Some((_, n)) ==> 0 < n <= data@.len(),
    {
        let rest = slice_subrange(data, 1, data.len());
        assert(rest@ =~= data@.skip(1));
        let end: usize = bytes::find_byte(rest, 101);
        if end == rest.len() {
            return None;
        }
        match bytes::parse_unsigned(data, 1, 1 + end, u64::MAX) {
            Some(n) => Some((Bencode::Int(n), end + 2)),
            None => None,
        }
    }

    fn parse_str(data: &[u8]) -> (r: Option<(Vec<u8>, usize)>)
        ensures
            (match r {
                Some((s, n)) => Some((s@, n as int)),
                None => None,
            }) == parsed_str(data@),
            r matches Some((_, n)) ==> 0 < n <= data@.len(),
    {
        let colon: usize = bytes::find_byte(data, 58);
        if colon == data.len() {
            return None;
        }
        assert(data@.subrange(0, colon as int) =~= data@.take(colon as int));
        let len: u64 = match bytes::parse_unsigned(data, 0, colon, usize::MAX as u64) {
            Some(len) => len,
            None => {
                return None;
            },
        };
        let start: usize = colon + 1;
        if len > (data.len() - start) as u64 {
            return None;
        }
        let end: usize = start + len as usize;
        Some((bytes::copy_range(data, start, end), end))
    }
}

// ── Writing ─────────────────────────────────────────────────────────────────

/// A byte string as it is written: its length, a colon, its bytes.
pub open spec fn str_bytes(s: Seq<u8>) -> Seq<u8> {
    bytes::dec_bytes(s.len()).push(58) + s
}

/// A number as it is written: an `i`, the number in decimal, an `e`.
pub open spec fn int_bytes(i: int) -> Seq<u8> {
    let sign: Seq<u8> = if i < 0 {
        seq![105u8, 45u8]
    } else {
        seq![105u8]
    };
    let size: nat = if i < 0 {
        (-i) as nat
    } else {
        i as nat
    };
    (sign + bytes::dec_bytes(size)).push(101)
}

/// A term as it is written.
pub open spec fn encoded(t: Term) -> Seq<u8>
    decreases t,
{
    match t {
        Term::Str(s) => str_bytes(s),
        Term::Int(n) => int_bytes(n as int),
        Term::List(l) => seq![108u8] + encoded_items(l),
        Term::Dict(d) => seq![100u8] + encoded_entries(d),
    }
}

/// The items of a list as they are written, with the closing `e`.
pub open spec fn encoded_items(l: Seq<Term>) -> Seq<u8>
    decreases l,
{
    if l.len() == 0 {
        seq![101u8]
    } else {
        encoded(l[0]) + encoded_items(l.subrange(1, l.len() as int))
    }
}

/// The entries of a dictionary as they are written, with the closing `e`.
pub open spec fn encoded_entries(d: Seq<(Seq<u8>, Term)>) -> Seq<u8>
    decreases d,
{
    if d.len() == 0 {
        seq![101u8]
    } else {
        str_bytes(d[0].0) + encoded(d[0].1) + encoded_entries(d.subrange(1, d.len() as int))
    }
}

/// Whether every byte string in a term fits in memory.
pub open spec fn fits(t: Term) -> bool
    decreases t,
{
    match t {
        Term::Str(s) => s.len() <= usize::MAX,
        Term::Int(_) => true,
        Term::List(l) => forall|i: int| 0 <= i < l.len() ==> fits(#[trigger] l[i]),
        Term::Dict(d) => forall|i: int|
            0 <= i < d.len() ==> (#[trigger] d[i]).0.len() <= usize::MAX && fits(d[i].1),
    }
}

/// A written byte string reads back as itself, whatever follows.
proof fn lemma_str_reads_back(s: Seq<u8>, rest: Seq<u8>)
    requires
        s.len() <= usize::MAX,
    ensures
        parsed_str(str_bytes(s) + rest) == Some((s, str_bytes(s).len() as int)),
        str_bytes(s).len() > 0,
        bytes::is_digit((str_bytes(s) + rest)[0]),
{
    let digits = bytes::dec_bytes(s.len());
    bytes::law_decimal_reads_back(s.len());
    let data = str_bytes(s) + rest;
    assert(data =~= digits.push(58) + (s + rest));
    assert forall|i: int| 0 <= i < digits.len() implies digits[i] != 58 by {
        assert(bytes::is_digit(digits[i]));
    }
    bytes::lemma_position(digits, 58, s + rest);
    assert(data.take(digits.len() as int) =~= digits);
    assert(bytes::unsigned_value(digits, usize::MAX as nat) == Some(s.len()));
    let start: int = digits.len() as int + 1;
    assert(data.subrange(start, start + s.len() as int) =~= s);
    assert(data[0] == digits[0]);
}

/// A written number reads back as itself, whatever follows.
proof fn lemma_int_reads_back(n: u64, rest: Seq<u8>)
    ensures
        parsed(int_bytes(n as int) + rest) == Some(
            (Term::Int(n), int_bytes(n as int).len() as int),
        ),
        int_bytes(n as int).len() > 0,
{
    let digits = bytes::dec_bytes(n as nat);
    bytes::law_decimal_reads_back(n as nat);
    let data = int_bytes(n as int) + rest;
    assert(data.skip(1) =~= digits.push(101) + rest);
    assert forall|i: int| 0 <= i < digits.len() implies digits[i] != 101 by {
        assert(bytes::is_digit(digits[i]));
    }
    bytes::lemma_position(digits, 101, rest);
    assert(data.subrange(1, 1 + digits.len() as int) =~= digits);
    assert(bytes::unsigned_value(digits, u64::MAX as nat) == Some(n as nat));
    assert(data[0] == 105);
}

/// What is written reads back: the encoding of a term, whatever follows it,
/// parses as that term and takes exactly the bytes of the encoding.
pub proof fn law_written_reads_back(t: Term, rest: Seq<u8>)
    requires
        fits(t),
    ensures
        parsed(encoded(t) + rest) == Some((t, encoded(t).len() as int)),
        encoded(t).len() > 0,
        encoded(t)[0] != 101,
    decreases t,
{
    let data = encoded(t) + rest;
    match t {
        Term::Str(s) => {
            lemma_str_reads_back(s, rest);
            assert(data[0] == encoded(t)[0]);
        },
        Term::Int(n) => {
            lemma_int_reads_back(n, rest);
            assert(encoded(t)[0] == 105);
        },
        Term::List(l) => {
            lemma_items_read_back(l, rest);
            assert(data.skip(1) =~= encoded_items(l) + rest);
            assert(data[0] == 108);
            assert(encoded(t)[0] == 108);
        },
        Term::Dict(d) => {
            lemma_entries_read_back(d, rest);
            assert(data.skip(1) =~= encoded_entries(d) + rest);
            assert(data[0] == 100);
            assert(encoded(t)[0] == 100);
        },
    }
}

proof fn lemma_items_read_back(l: Seq<Term>, rest: Seq<u8>)
    requires
        forall|i: int| 0 <= i < l.len() ==> fits(#[trigger] l[i]),
    ensures
        parsed_items(encoded_items(l) + rest) == Some((l, encoded_items(l).len() as int)),
    decreases l,
{
    let data = encoded_items(l) + rest;
    if l.len() == 0 {
        assert(data[0] == 101);
        assert(l =~= Seq::empty());
    } else {
        let first = encoded(l[0]);
        let others = l.subrange(1, l.len() as int);
        let after = encoded_items(others) + rest;
        law_written_reads_back(l[0], after);
        lemma_items_read_back(others, rest);
        assert(data =~= first + after);
        assert(data[0] == first[0]);
        assert(data.skip(first.len() as int) =~= after);
        assert(seq![l[0]] + others =~= l);
    }
}

proof fn lemma_entries_read_back(d: Seq<(Seq<u8>, Term)>, rest: Seq<u8>)
    requires
        forall|i: int|
            0 <= i < d.len() ==> (#[trigger] d[i]).0.len() <= usize::MAX && fits(d[i].1),
    ensures
        parsed_entries(encoded_entries(d) + rest) == Some((d, encoded_entries(d).len() as int)),
    decreases d,
{
    let data = encoded_entries(d) + rest;
    if d.len() == 0 {
        assert(data[0] == 101);
        assert(d =~= Seq::empty());
    } else {
        let key = str_bytes(d[0].0);
        let value = encoded(d[0].1);
        let others = d.subrange(1, d.len() as int);
        let after = encoded_entries(others) + rest;
        lemma_str_reads_back(d[0].0, value + after);
        law_written_reads_back(d[0].1, after);
        lemma_entries_read_back(others, rest);
        assert(data =~= key + (value + after));
        assert(data.skip(key.len() as int) =~= value + after);
        assert(data.skip(key.len() as int + value.len() as int) =~= after);
        assert(seq![(d[0].0, d[0].1)] + others =~= d);
    }
}

/// Appends a byte string as it is written.
pub fn push_str(out: &mut Vec<u8>, s: &[u8])
    ensures
        final(out)@ == old(out)@ + str_bytes(s@),
{
    let ghost before = out@;
    bytes::push_dec_bytes(out, s.len() as u64);
    out.push(58);
    bytes::push_all(out, s);
    assert(out@ =~= before + str_bytes(s@));
}

/// Appends a number as it is written.
pub fn push_int(out: &mut Vec<u8>, i: i64)
    ensures
        final(out)@ == old(out)@ + int_bytes(i as int),
{
    let ghost before = out@;
    out.push(105);
    if i < 0 {
        out.push(45);
        bytes::push_dec_bytes(out, (-(i as i128)) as u64);
    } else {
        bytes::push_dec_bytes(out, i as u64);
    }
    out.push(101);
    assert(out@ =~= before + int_bytes(i as int));
}

/// A number as it is written.
pub fn bencode_int(i: i64) -> (out: Vec<u8>)
    ensures
        out@ == int_bytes(i as int),
{
    let mut out: Vec<u8> = Vec::new();
    push_int(&mut out, i);
    assert(out@ =~= int_bytes(i as int));
    out
}

/// A byte string as it is written.
pub fn bencode_bytes(b: &[u8]) -> (out: Vec<u8>)
    ensures
        out@ == str_bytes(b@),
{
    let mut out: Vec<u8> = Vec::new();
    push_str(&mut out, b);
    assert(out@ =~= str_bytes(b@));
    out
}

/// Only a `d`, an `l`, an `i` or a digit starts a value, and a number has no sign but
/// a plus.
pub proof fn law_what_starts_a_value(data: Seq<u8>)
    ensures
        data.len() == 0 ==> parsed(data) is None,
        data.len() > 0 && data[0] != 100 && data[0] != 108 && data[0] != 105 && !(48 <= data[0]
            <= 57) ==> parsed(data) is None,
        data.len() > 1 && data[0] == 105 && data[1] == 45 ==> parsed(data) is None,
        parsed(data) matches Some((t, n)) ==> {
            &&& data[0] == 100 <==> t is Dict
            &&& data[0] == 108 <==> t is List
            &&& data[0] == 105 <==> t is Int
            &&& 48 <= data[0] <= 57 <==> t is Str
        },
{
    if data.len() > 1 && data[0] == 105 && data[1] == 45 {
        let rest = data.skip(1);
        let end = bytes::position(rest, 101);
        assert(rest[0] == 45);
        assert(end == 1 + bytes::position(rest.skip(1), 101));
        lemma_position_bound(rest.skip(1), 101);
        let digits = data.subrange(1, 1 + end);
        if end < rest.len() {
            assert(digits[0] == 45);
            assert(bytes::unsigned_digits(digits) == digits);
            assert(!bytes::is_digit(digits[0]));
        }
    }
}

proof fn lemma_position_bound(data: Seq<u8>, b: u8)
    ensures
        0 <= bytes::position(data, b) <= data.len(),
    decreases data.len(),
{
    if data.len() > 0 && data[0] != b {
        lemma_position_bound(data.skip(1), b);
    }
}

/// A byte string is as long as it says: the bytes behind the colon, no more and no
/// fewer; with fewer there is none.
pub proof fn law_byte_string_has_its_length(n: nat, rest: Seq<u8>)
    requires
        n <= usize::MAX,
    ensures
        n <= rest.len() ==> parsed_str(bytes::dec_bytes(n).push(58) + rest) == Some(
            (rest.take(n as int), (bytes::dec_bytes(n).len() + 1 + n) as int),
        ),
        n > rest.len() ==> parsed_str(bytes::dec_bytes(n).push(58) + rest) is None,
{
    let digits = bytes::dec_bytes(n);
    let data = digits.push(58) + rest;
    bytes::law_decimal_reads_back(n);
    bytes::lemma_position(digits, 58, rest);
    assert(data.take(digits.len() as int) =~= digits);
    assert(bytes::unsigned_digits(digits) == digits);
    assert(bytes::unsigned_value(digits, usize::MAX as nat) == Some(n));
    if n <= rest.len() {
        let from: int = digits.len() as int + 1;
        assert(data.subrange(from, from + n) =~= rest.take(n as int));
    }
}

/// The first entry of a key is the one that counts.
pub proof fn law_first_entry_counts(
    key: Seq<u8>,
    other: Seq<u8>,
    t: Term,
    rest: Seq<(Seq<u8>, Term)>,
)
    requires
        other != key,
    ensures
        entry_of(Seq::empty(), key) is None,
        entry_of(seq![(key, t)] + rest, key) == Some(t),
        entry_of(seq![(other, t)] + rest, key) == entry_of(rest, key),
{
    assert((seq![(key, t)] + rest)[0] == (key, t));
    assert((seq![(other, t)] + rest)[0] == (other, t));
    assert((seq![(other, t)] + rest).skip(1) =~= rest);
}

/// A value in memory stands for the term with its bytes, its number, its items or its
/// entries, in order.
pub proof fn law_value_is_its_term(
    s: Vec<u8>,
    n: u64,
    l: Vec<Bencode>,
    d: Vec<(Vec<u8>, Bencode)>,
    i: int,
)
    requires
        0 <= i < l@.len(),
        0 <= i < d@.len(),
    ensures
        Bencode::Str(s)@ == Term::Str(s@),
        Bencode::Int(n)@ == Term::Int(n),
        Bencode::List(l)@ matches Term::List(items) && items.len() == l@.len() && items[i]
            == l@[i]@,
        Bencode::Dict(d)@ matches Term::Dict(entries) && entries.len() == d@.len() && entries[i].0
            == d@[i].0@ && entries[i].1 == d@[i].1@,
{
    lemma_list_view(l);
    lemma_dict_view(d);
}

/// A number goes up to its `e`; without one it is none, and so it is without digits.
pub proof fn law_number_goes_up_to_its_end(n: u64, rest: Seq<u8>, data: Seq<u8>)
    ensures
        parsed_int(seq![105u8] + bytes::dec_bytes(n as nat) + seq![101u8] + rest) == Some(
            (n, (bytes::dec_bytes(n as nat).len() + 2) as int),
        ),
        data.len() > 0 && (forall|i: int| 0 < i < data.len() ==> data[i] != 101) ==> parsed_int(
            data,
        ) is None,
        data.len() > 1 && data[1] == 101 ==> parsed_int(data) is None,
{
    let digits = bytes::dec_bytes(n as nat);
    let whole = seq![105u8] + digits + seq![101u8] + rest;
    bytes::law_decimal_reads_back(n as nat);
    assert(whole.skip(1) =~= digits.push(101) + rest);
    assert forall|i: int| 0 <= i < digits.len() implies digits[i] != 101 by {
        assert(bytes::is_digit(digits[i]));
    }
    bytes::lemma_position(digits, 101, rest);
    assert(whole.subrange(1, 1 + digits.len() as int) =~= digits);
    assert(bytes::unsigned_digits(digits) == digits);
    if data.len() > 0 && (forall|i: int| 0 < i < data.len() ==> data[i] != 101) {
        let tail = data.skip(1);
        assert forall|i: int| 0 <= i < tail.len() implies tail[i] != 101 by {
            assert(tail[i] == data[i + 1]);
        }
        lemma_position_of_none(tail, 101);
    }
    if data.len() > 1 && data[1] == 101 {
        assert(data.skip(1)[0] == 101);
        assert(data.subrange(1, 1).len() == 0);
    }
}

proof fn lemma_position_of_none(data: Seq<u8>, b: u8)
    requires
        forall|i: int| 0 <= i < data.len() ==> data[i] != b,
    ensures
        bytes::position(data, b) == data.len(),
    decreases data.len(),
{
    if data.len() > 0 {
        assert(data[0] != b);
        lemma_position_of_none(data.skip(1), b);
    }
}

} // verus!
