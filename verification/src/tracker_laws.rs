//! What the tracker reads from a request, whom it keeps, and what it answers.
use vstd::prelude::*;

use vstd::utf8;

use crate::bencode;
use crate::bytes;
use crate::tracker;
use crate::tracker::{Announce, AnnounceView, Peer};

verus! {

// ── Swarms ──────────────────────────────────────────────────────────────────

/// Whether two peers are one and the same: the address, the port and what is left.
pub open spec fn same_peer(a: Peer, b: Peer) -> bool {
    a.ip@ == b.ip@ && a.port == b.port && a.left == b.left
}

/// After an announce a swarm holds the announcer, as it announced itself, and those of
/// the others who announced less than thirty seconds before.
pub proof fn law_swarm_after_an_announce(
    peers: Seq<Peer>,
    a: AnnounceView,
    ip: [u8; 4],
    now: u64,
    other: Peer,
)
    requires
        !a.stopped,
    ensures
        ({
            let after = tracker::swarm_after(peers, a, ip, now);
            let me = Peer { ip, port: a.port, left: a.left, seen: now };
            &&& after.last() == me
            &&& !same_peer(other, me) ==> (after.contains(other) <==> peers.contains(other) && now
                - other.seen < 30_000_000_000)
            &&& same_peer(other, me) && after.contains(other) ==> other == me
        }),
{
    let me = Peer { ip, port: a.port, left: a.left, seen: now };
    let after = tracker::swarm_after(peers, a, ip, now);
    tracker::law_announcer_stands_once(peers, me);
    if same_peer(other, me) {
        if after.contains(other) {
            let i = choose|i: int| 0 <= i < after.len() && after[i] == other;
            assert(!(i < after.len() - 1));
        }
    } else {
        tracker::law_others_stay(peers, me, other);
    }
}

/// Who says that it stops leaves its swarm, whatever it had left; everyone at another
/// address or port stays.
pub proof fn law_swarm_after_a_farewell(
    peers: Seq<Peer>,
    a: AnnounceView,
    ip: [u8; 4],
    now: u64,
    other: Peer,
)
    requires
        a.stopped,
    ensures
        tracker::swarm_after(peers, a, ip, now).contains(other) <==> peers.contains(other) && (
        other.ip@ != ip@ || other.port != a.port),
{
    tracker::law_leaving_removes_the_address(peers, ip, a.port, other);
}

/// A peer is told of everyone in its swarm but itself.
pub proof fn law_whom_a_peer_is_told_of(peers: Seq<Peer>, me: Peer, other: Peer)
    ensures
        tracker::shown_to(peers, me).contains(other) <==> peers.contains(other) && !same_peer(
            other,
            me,
        ),
{
    tracker::law_announcer_sees_the_others(peers, me, other);
}

/// Clients are asked to announce every five seconds and are dropped after thirty.
pub proof fn law_times_of_the_tracker()
    ensures
        tracker::ANNOUNCE_INTERVAL == 5,
        tracker::PEER_EXPIRY == 30 * 1_000_000_000,
        tracker::NANOS == 1_000_000_000,
{
}

// ── Answers ─────────────────────────────────────────────────────────────────

/// Each peer takes six bytes of an answer: its address as it is, and its port with the
/// high byte first.
pub proof fn law_compact_peers_read_back(peers: Seq<Peer>, i: int)
    requires
        0 <= i < peers.len(),
    ensures
        ({
            let c = tracker::compact(peers);
            &&& c.len() == 6 * peers.len()
            &&& forall|k: int| 0 <= k < 4 ==> c[6 * i + k] == #[trigger] peers[i].ip@[k]
            &&& 256 * c[6 * i + 4] + c[6 * i + 5] == peers[i].port
        }),
    decreases peers.len(),
{
    lemma_compact_length(peers);
    let rest = peers.drop_last();
    lemma_compact_length(rest);
    let c = tracker::compact(peers);
    let d = tracker::compact(rest);
    if i < rest.len() {
        law_compact_peers_read_back(rest, i);
        assert(c[6 * i + 4] == d[6 * i + 4]);
        assert(c[6 * i + 5] == d[6 * i + 5]);
        assert forall|k: int| 0 <= k < 4 implies c[6 * i + k] == #[trigger] peers[i].ip@[k] by {
            assert(c[6 * i + k] == d[6 * i + k]);
            assert(rest[i].ip@[k] == peers[i].ip@[k]);
        }
    } else {
        let p = peers.last();
        let head = d + p.ip@;
        assert(c == head + seq![(p.port / 256) as u8, (p.port % 256) as u8]);
        assert(c[6 * i + 4] == (p.port / 256) as u8);
        assert(c[6 * i + 5] == (p.port % 256) as u8);
    }
}

proof fn lemma_compact_length(peers: Seq<Peer>)
    ensures
        tracker::compact(peers).len() == 6 * peers.len(),
    decreases peers.len(),
{
    if peers.len() > 0 {
        lemma_compact_length(peers.drop_last());
        assert(peers.last().ip@.len() == 4);
    }
}

/// The answer to an announce that is no farewell is an HTTP answer whose body names
/// the interval of five seconds and the peers of the swarm but the announcer; that to
/// a farewell names no peers. The length in the header is that of the body.
pub proof fn law_answer_names_the_peers(
    peers: Seq<Peer>,
    a: AnnounceView,
    ip: [u8; 4],
    now: u64,
    shown: Seq<Peer>,
)
    requires
        a.stopped ==> shown == Seq::<Peer>::empty(),
        !a.stopped ==> shown == tracker::swarm_after(peers, a, ip, now).filter(
            |p: Peer| !same_peer(p, (Peer { ip, port: a.port, left: a.left, seen: now })),
        ),
    ensures
        ({
            let list = tracker::compact(shown);
            let body = utf8::encode_utf8("d8:interval"@) + bencode::int_bytes(5)
                + utf8::encode_utf8("12:min interval"@) + bencode::int_bytes(5)
                + utf8::encode_utf8("5:peers"@) + (bytes::dec_bytes(list.len()) + seq![58u8] + list)
                + seq![101u8];
            tracker::answer_to(peers, a, ip, now) == utf8::encode_utf8(
                "HTTP/1.0 200 OK\r\nContent-Length: "@,
            ) + bytes::dec_bytes(body.len()) + utf8::encode_utf8(
                "\r\nContent-Type: text/plain\r\nConnection: close\r\n\r\n"@,
            ) + body
        }),
{
    let me = Peer { ip, port: a.port, left: a.left, seen: now };
    let list = tracker::compact(shown);
    assert(bytes::dec_bytes(list.len()).push(58) + list =~= bytes::dec_bytes(list.len())
        + seq![58u8] + list);
    if !a.stopped {
        let after = tracker::swarm_after(peers, a, ip, now);
        let mine = tracker::Keep::OtherThan { ip: me.ip, port: me.port, left: me.left }.admits();
        let theirs = |p: Peer| !same_peer(p, (Peer { ip, port: a.port, left: a.left, seen: now }));
        lemma_same_filter(after, mine, theirs);
    }
}

/// Two tests that agree keep the same.
proof fn lemma_same_filter(s: Seq<Peer>, a: spec_fn(Peer) -> bool, b: spec_fn(Peer) -> bool)
    requires
        forall|p: Peer| #[trigger] a(p) == b(p),
    ensures
        s.filter(a) == s.filter(b),
    decreases s.len(),
{
    reveal(Seq::filter);
    if s.len() > 0 {
        lemma_same_filter(s.drop_last(), a, b);
        assert(a(s.last()) == b(s.last()));
    }
}

/// A request that is no announce, or that does not come from an IPv4 address, is
/// refused and changes nothing.
pub proof fn law_other_requests_are_refused(
    before: tracker::TrackerState,
    request: Seq<u8>,
    ip: Option<[u8; 4]>,
    now: u64,
    after: tracker::TrackerState,
    response: Seq<u8>,
)
    requires
        tracker::handled(before, request, ip, now, after, response),
        tracker::announce_of(request) is None || ip is None,
    ensures
        after == before,
        response == utf8::encode_utf8(
            "HTTP/1.0 400 Bad Request\r\nContent-Length: 0\r\nConnection: close\r\n\r\n"@,
        ),
{
}

// ── Requests ────────────────────────────────────────────────────────────────

/// Whether a byte does not occur.
pub open spec fn lacks(data: Seq<u8>, b: u8) -> bool {
    forall|i: int| 0 <= i < data.len() ==> data[i] != b
}

proof fn lemma_position_none(data: Seq<u8>, b: u8)
    requires
        lacks(data, b),
    ensures
        bytes::position(data, b) == data.len(),
    decreases data.len(),
{
    if data.len() > 0 {
        assert(data[0] != b);
        let rest = data.skip(1);
        assert forall|i: int| 0 <= i < rest.len() implies rest[i] != b by {
            assert(rest[i] == data[i + 1]);
        }
        lemma_position_none(rest, b);
    }
}

/// The query of a request is what stands in its first line behind the question mark,
/// up to the next blank.
pub proof fn law_query_stands_behind_the_question_mark(
    path: Seq<u8>,
    query: Seq<u8>,
    version: Seq<u8>,
    rest: Seq<u8>,
)
    requires
        lacks(path, 10),
        lacks(path, 63),
        lacks(query, 10),
        lacks(query, 32),
        lacks(version, 10),
        lacks(version, 13),
    ensures
        tracker::query_of(
            tracker::first_line(
                path.push(63) + query.push(32) + version.push(13).push(10) + rest,
            ),
        ) == Some(query),
        tracker::query_of(
            tracker::first_line(path.push(63) + query.push(32) + version.push(10) + rest),
        ) == Some(query),
{
    let line = path.push(63) + query.push(32) + version;
    assert(lacks(line, 10));
    let text = path.push(63) + query.push(32) + version.push(13).push(10) + rest;
    assert(text =~= line.push(13).push(10) + rest);
    bytes::lemma_position(line.push(13), 10, rest);
    assert(text.take(line.len() as int) =~= line);
    let plain = path.push(63) + query.push(32) + version.push(10) + rest;
    assert(plain =~= line.push(10) + rest);
    bytes::lemma_position(line, 10, rest);
    assert(line.last() != 13) by {
        if version.len() > 0 {
            assert(line.last() == version.last());
        } else {
            assert(line.last() == 32);
        }
    }
    assert(plain[line.len() - 1] == line.last());
    assert(plain.take(line.len() as int) =~= line);
    assert(tracker::first_line(text) == line);
    assert(tracker::first_line(plain) == line);
    let tail = query.push(32) + version;
    assert(line =~= path.push(63) + tail);
    bytes::lemma_position(path, 63, tail);
    assert(line.skip(path.len() as int + 1) =~= tail);
    bytes::lemma_position(query, 32, version);
    assert(tail.take(query.len() as int) =~= query);
}

/// A parameter at the head of a query has its value; a parameter of another name in
/// front is passed over.
pub proof fn law_parameters_are_found_by_name(
    key: Seq<u8>,
    other: Seq<u8>,
    value: Seq<u8>,
    rest: Seq<u8>,
)
    requires
        lacks(key, 38),
        lacks(key, 61),
        lacks(other, 38),
        lacks(other, 61),
        lacks(value, 38),
        other != key,
    ensures
        tracker::param_of(key.push(61) + value, key) == Some(value),
        tracker::param_of(key.push(61) + value.push(38) + rest, key) == Some(value),
        tracker::param_of(other.push(61) + value, key) is None,
        tracker::param_of(other.push(61) + value.push(38) + rest, key) == tracker::param_of(
            rest,
            key,
        ),
{
    lemma_param(key, key, value, rest);
    lemma_param(other, key, value, rest);
}

proof fn lemma_param(name: Seq<u8>, key: Seq<u8>, value: Seq<u8>, rest: Seq<u8>)
    requires
        lacks(name, 38),
        lacks(name, 61),
        lacks(value, 38),
    ensures
        tracker::param_of(name.push(61) + value, key) == (if name == key {
            Some(value)
        } else {
            None
        }),
        tracker::param_of(name.push(61) + value.push(38) + rest, key) == (if name == key {
            Some(value)
        } else {
            tracker::param_of(rest, key)
        }),
{
    let pair = name.push(61) + value;
    assert(lacks(pair, 38));
    bytes::lemma_position(name, 61, value);
    assert(pair.take(name.len() as int) =~= name);
    assert(pair.skip(name.len() as int + 1) =~= value);
    lemma_position_none(pair, 38);
    assert(pair.take(pair.len() as int) =~= pair);
    let query = name.push(61) + value.push(38) + rest;
    assert(query =~= pair.push(38) + rest);
    bytes::lemma_position(pair, 38, rest);
    assert(query.take(pair.len() as int) =~= pair);
    assert(query.skip(pair.len() as int + 1) =~= rest);
}

/// The value of a hexadecimal digit, from zero to fifteen, in either case.
pub proof fn law_hexadecimal_digits(b: u8)
    ensures
        48 <= b <= 57 ==> tracker::hex_value(b) == Some((b - 48) as u8),
        97 <= b <= 102 ==> tracker::hex_value(b) == Some((b - 97 + 10) as u8),
        65 <= b <= 70 ==> tracker::hex_value(b) == Some((b - 65 + 10) as u8),
        !(48 <= b <= 57) && !(97 <= b <= 102) && !(65 <= b <= 70) ==> tracker::hex_value(b) is None,
{
}

/// The two hexadecimal digits of a byte.
pub open spec fn hex_digits(b: u8) -> (u8, u8) {
    let h = b / 16;
    let l = b % 16;
    (
        if h < 10 {
            (48 + h) as u8
        } else {
            (87 + h) as u8
        },
        if l < 10 {
            (48 + l) as u8
        } else {
            (87 + l) as u8
        },
    )
}

/// Bytes with each of them escaped: a percent sign and two hexadecimal digits.
pub open spec fn escaped(data: Seq<u8>) -> Seq<u8>
    decreases data.len(),
{
    if data.len() == 0 {
        Seq::empty()
    } else {
        seq![37u8, hex_digits(data[0]).0, hex_digits(data[0]).1] + escaped(data.skip(1))
    }
}

/// Escaped bytes are read back as they were.
pub proof fn law_escapes_read_back(data: Seq<u8>)
    ensures
        tracker::unescaped(escaped(data)) == data,
    decreases data.len(),
{
    if data.len() > 0 {
        let e = escaped(data);
        let (high, low) = hex_digits(data[0]);
        law_escapes_read_back(data.skip(1));
        assert(e.skip(3) =~= escaped(data.skip(1)));
        assert(tracker::hex_pair(high, low) == Some(data[0]));
        assert(tracker::unescaped(e) =~= seq![data[0]] + tracker::unescaped(e.skip(3)));
        assert(seq![data[0]] + data.skip(1) =~= data);
    }
}

/// Bytes without percent signs stand for themselves.
pub proof fn law_plain_bytes_stay(data: Seq<u8>)
    requires
        lacks(data, 37),
    ensures
        tracker::unescaped(data) == data,
    decreases data.len(),
{
    if data.len() > 0 {
        let rest = data.skip(1);
        assert forall|i: int| 0 <= i < rest.len() implies rest[i] != 37 by {
            assert(rest[i] == data[i + 1]);
        }
        law_plain_bytes_stay(rest);
        assert(seq![data[0]] + rest =~= data);
    }
}

/// Bytes in hexadecimal.
pub open spec fn in_hexadecimal(data: Seq<u8>) -> Seq<u8> {
    Seq::new(
        2 * data.len(),
        |i: int|
            if i % 2 == 0 {
                hex_digits(data[i / 2]).0
            } else {
                hex_digits(data[i / 2]).1
            },
    )
}

/// Twenty bytes are an info hash when each is escaped and when they are written in
/// hexadecimal.
pub proof fn law_info_hashes_read_back(hash: Seq<u8>)
    requires
        hash.len() == 20,
    ensures
        tracker::info_hash_of(escaped(hash)) == Some(hash),
        tracker::info_hash_of(in_hexadecimal(hash)) == Some(hash),
{
    law_escapes_read_back(hash);
    let hex = in_hexadecimal(hash);
    assert forall|i: int| 0 <= i < hex.len() implies hex[i] != 37 by {
        let b = hash[i / 2];
        let (h, l) = hex_digits(b);
        assert(h != 37 && l != 37);
    }
    law_plain_bytes_stay(hex);
    assert forall|i: int| 0 <= i < 20 implies #[trigger] tracker::hex_pair(
        hex[2 * i],
        hex[2 * i + 1],
    ) == Some(hash[i]) by {
        let (h, l) = hex_digits(hash[i]);
        assert(2 * i / 2 == i && (2 * i) % 2 == 0);
        assert((2 * i + 1) / 2 == i && (2 * i + 1) % 2 == 1);
        assert(hex[2 * i] == h && hex[2 * i + 1] == l);
    }
    assert(tracker::info_hash_of(hex)->0 =~= hash);
}

/// A value of any other length than twenty or forty bytes is no info hash.
pub proof fn law_info_hash_has_its_length(value: Seq<u8>)
    requires
        lacks(value, 37),
        value.len() != 20,
        value.len() != 40,
    ensures
        tracker::info_hash_of(value) is None,
{
    law_plain_bytes_stay(value);
}

/// An announce takes its info hash, its port and what is left from the parameters of
/// those names, and is a farewell exactly when its event is `stopped`. Without a
/// number there, as much as possible is left.
pub proof fn law_announce_is_read_from_its_parameters(
    query: Seq<u8>,
    hash: Seq<u8>,
    port: u16,
    left: u64,
)
    requires
        hash.len() == 20,
        tracker::param_of(query, utf8::encode_utf8("info_hash"@)) == Some(escaped(hash)),
        tracker::param_of(query, utf8::encode_utf8("port"@)) == Some(bytes::dec_bytes(port as nat)),
    ensures
        match tracker::announce_in(query) {
            Some(a) => {
                &&& a.info_hash == hash
                &&& a.port == port
                &&& tracker::param_of(query, utf8::encode_utf8("left"@)) == Some(
                    bytes::dec_bytes(left as nat),
                ) ==> a.left == left
                &&& tracker::param_of(query, utf8::encode_utf8("left"@)) is None ==> a.left
                    == u64::MAX
                &&& a.stopped <==> tracker::param_of(query, utf8::encode_utf8("event"@)) == Some(
                    utf8::encode_utf8("stopped"@),
                )
            },
            None => false,
        },
{
    law_info_hashes_read_back(hash);
    bytes::law_decimal_reads_back(port as nat);
    bytes::law_decimal_reads_back(left as nat);
}

/// Without an info hash or a port there is no announce.
pub proof fn law_announce_needs_hash_and_port(query: Seq<u8>)
    requires
        tracker::param_of(query, utf8::encode_utf8("info_hash"@)) is None || tracker::param_of(
            query,
            utf8::encode_utf8("port"@),
        ) is None,
    ensures
        tracker::announce_in(query) is None,
{
}

/// The plain values of an announce are those of its fields.
pub proof fn law_announce_is_its_fields(a: Announce)
    ensures
        a@.info_hash == a.info_hash@,
        a@.port == a.port,
        a@.left == a.left,
        a@.stopped == a.stopped,
{
}

} // verus!
