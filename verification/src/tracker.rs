//! A small HTTP tracker: who is in which swarm, and what an announce is answered.
use vstd::prelude::*;

use vstd::slice::slice_subrange;
use vstd::utf8;

use crate::bencode;
use crate::bytes;
use crate::text;

verus! {

/// Seconds between two announces of a client, as the tracker asks for.
pub const ANNOUNCE_INTERVAL: u64 = 5;

/// Nanoseconds after which a peer that has not announced again is dropped.
pub const PEER_EXPIRY: u64 = 30_000_000_000;

/// Nanoseconds in a second.
pub const NANOS: u64 = 1_000_000_000;

// ── Peers ───────────────────────────────────────────────────────────────────

/// A peer of a swarm. Two clients behind one address differ by what they have
/// left to download, so that is part of who a peer is.
#[derive(Clone, Copy)]
pub struct Peer {
    pub ip: [u8; 4],
    pub port: u16,
    pub left: u64,
    /// When it last announced, in nanoseconds.
    pub seen: u64,
}

/// A reason to keep a peer.
#[derive(Clone, Copy)]
pub enum Keep {
    /// It announced within the expiry before this time.
    Fresh(u64),
    /// It is not this peer.
    OtherThan { ip: [u8; 4], port: u16, left: u64 },
    /// It is at another address.
    AwayFrom { ip: [u8; 4], port: u16 },
}

impl Peer {
    /// Whether this is the peer with that address and that much left.
    pub open spec fn is_peer(self, ip: Seq<u8>, port: u16, left: u64) -> bool {
        self.ip@ == ip && self.port == port && self.left == left
    }

    /// Whether the peer is at that address.
    pub open spec fn is_at(self, ip: Seq<u8>, port: u16) -> bool {
        self.ip@ == ip && self.port == port
    }

    /// Whether the peer announced within the expiry.
    pub open spec fn is_fresh(self, now: u64) -> bool {
        now < self.seen + PEER_EXPIRY
    }
}

impl Keep {
    /// Which peers are kept.
    pub open spec fn admits(self) -> spec_fn(Peer) -> bool {
        |p: Peer|
            match self {
                Keep::Fresh(now) => p.is_fresh(now),
                Keep::OtherThan { ip, port, left } => !p.is_peer(ip@, port, left),
                Keep::AwayFrom { ip, port } => !p.is_at(ip@, port),
            }
    }

    fn keeps(&self, p: &Peer) -> (yes: bool)
        ensures
            yes == self.admits()(*p),
    {
        match self {
            Keep::Fresh(now) => if *now >= p.seen {
                *now - p.seen < PEER_EXPIRY
            } else {
                true
            },
            Keep::OtherThan { ip, port, left } => !(bytes::same_bytes(&p.ip, ip) && p.port == *port
                && p.left == *left),
            Keep::AwayFrom { ip, port } => !(bytes::same_bytes(&p.ip, ip) && p.port == *port),
        }
    }
}

/// The peers that a reason keeps, in their order.
fn retain(peers: &Vec<Peer>, keep: Keep) -> (kept: Vec<Peer>)
    ensures
        kept@ == peers@.filter(keep.admits()),
{
    reveal(Seq::filter);
    let mut kept: Vec<Peer> = Vec::new();
    let mut i: usize = 0;
    assert(peers@.take(0).filter(keep.admits()) =~= Seq::empty());
    while i < peers.len()
        invariant
            i <= peers@.len(),
            kept@ == peers@.take(i as int).filter(keep.admits()),
        decreases peers@.len() - i,
    {
        reveal(Seq::filter);
        assert(peers@.take(i as int + 1).drop_last() =~= peers@.take(i as int));
        if keep.keeps(&peers[i]) {
            kept.push(peers[i]);
        }
        i = i + 1;
    }
    assert(peers@.take(peers@.len() as int) =~= peers@);
    kept
}

/// A swarm after a peer has announced: the stale ones are gone, and the peer
/// stands once, at the end.
pub open spec fn joined(peers: Seq<Peer>, me: Peer) -> Seq<Peer> {
    peers.filter(Keep::Fresh(me.seen).admits()).filter(
        Keep::OtherThan { ip: me.ip, port: me.port, left: me.left }.admits(),
    ).push(me)
}

/// A swarm after whoever is at an address has left.
pub open spec fn left_by(peers: Seq<Peer>, ip: [u8; 4], port: u16) -> Seq<Peer> {
    peers.filter(Keep::AwayFrom { ip, port }.admits())
}

/// What a peer is told of its swarm: everyone but itself.
pub open spec fn shown_to(peers: Seq<Peer>, me: Peer) -> Seq<Peer> {
    peers.filter(Keep::OtherThan { ip: me.ip, port: me.port, left: me.left }.admits())
}

// ── The state ───────────────────────────────────────────────────────────────

/// The swarms, each under its info hash.
pub struct TrackerState {
    pub swarms: Vec<([u8; 20], Vec<Peer>)>,
}

/// The peers under a hash.
pub open spec fn swarm_in(swarms: Seq<([u8; 20], Vec<Peer>)>, hash: Seq<u8>) -> Seq<Peer>
    decreases swarms.len(),
{
    if swarms.len() == 0 {
        Seq::empty()
    } else if swarms.last().0@ == hash {
        swarms.last().1@
    } else {
        swarm_in(swarms.drop_last(), hash)
    }
}

impl TrackerState {
    /// The peers of a swarm.
    pub open spec fn swarm(&self, hash: Seq<u8>) -> Seq<Peer> {
        swarm_in(self.swarms@, hash)
    }

    /// A tracker without swarms.
    pub fn new() -> (state: TrackerState)
        ensures
            forall|hash: Seq<u8>| state.swarm(hash) == Seq::<Peer>::empty(),
    {
        TrackerState { swarms: Vec::new() }
    }

    /// The place of a swarm, if there is one under this hash.
    fn find(&self, hash: &[u8; 20]) -> (at: Option<usize>)
        ensures
            match at {
                Some(i) => i < self.swarms@.len() && self.swarms@[i as int].0@ == hash@
                    && self.swarms@[i as int].1@ == self.swarm(hash@) && forall|j: int|
                    i < j < self.swarms@.len() ==> (#[trigger] self.swarms@[j]).0@ != hash@,
                None => self.swarm(hash@) == Seq::<Peer>::empty() && forall|j: int|
                    0 <= j < self.swarms@.len() ==> (#[trigger] self.swarms@[j]).0@ != hash@,
            },
    {
        let mut i: usize = self.swarms.len();
        assert(self.swarms@.take(i as int) =~= self.swarms@);
        while i > 0
            invariant
                i <= self.swarms@.len(),
                self.swarm(hash@) == swarm_in(self.swarms@.take(i as int), hash@),
                forall|j: int| i <= j < self.swarms@.len() ==> (#[trigger] self.swarms@[j]).0@ != hash@,
            decreases i,
        {
            i = i - 1;
            let ghost upto = self.swarms@.take(i as int + 1);
            assert(upto.drop_last() =~= self.swarms@.take(i as int));
            assert(upto.last() == self.swarms@[i as int]);
            if bytes::same_bytes(&self.swarms[i].0, hash) {
                return Some(i);
            }
        }
        None
    }

    /// Replaces the peers of a swarm.
    fn put(&mut self, hash: [u8; 20], peers: Vec<Peer>)
        ensures
            final(self).swarm(hash@) == peers@,
            forall|other: Seq<u8>|
                other != hash@ ==> #[trigger] final(self).swarm(other) == old(self).swarm(other),
    {
        let ghost was = self.swarms@;
        match self.find(&hash) {
            Some(i) => {
                self.swarms.set(i, (hash, peers));
                proof {
                    assert forall|other: Seq<u8>| #[trigger] self.swarm(other) == (if other
                        == hash@ {
                        peers@
                    } else {
                        swarm_in(was, other)
                    }) by {
                        lemma_swarm_update(was, i as int, hash, peers, other);
                    }
                }
            },
            None => {
                self.swarms.push((hash, peers));
                assert(self.swarms@.drop_last() =~= was);
            },
        }
    }

    /// Enters a peer into a swarm, or refreshes it there.
    pub fn register_peer(
        &mut self,
        info_hash: [u8; 20],
        ip: [u8; 4],
        peer_port: u16,
        left: u64,
        now: u64,
    )
        ensures
            final(self).swarm(info_hash@) == joined(
                old(self).swarm(info_hash@),
                (Peer { ip, port: peer_port, left, seen: now }),
            ),
            forall|other: Seq<u8>|
                other != info_hash@ ==> #[trigger] final(self).swarm(other) == old(self).swarm(
                    other,
                ),
    {
        let me = Peer { ip, port: peer_port, left, seen: now };
        let fresh = match self.find(&info_hash) {
            Some(i) => retain(&self.swarms[i].1, Keep::Fresh(now)),
            None => {
                assert(Seq::<Peer>::empty().filter(Keep::Fresh(now).admits()) =~= Seq::empty()) by {
                    reveal(Seq::filter);
                }
                Vec::new()
            },
        };
        let mut peers = retain(&fresh, Keep::OtherThan { ip, port: peer_port, left });
        peers.push(me);
        self.put(info_hash, peers);
    }

    /// Takes whoever is at an address out of a swarm.
    pub fn remove_peer(&mut self, info_hash: [u8; 20], ip: [u8; 4], peer_port: u16)
        ensures
            final(self).swarm(info_hash@) == left_by(old(self).swarm(info_hash@), ip, peer_port),
            forall|other: Seq<u8>|
                other != info_hash@ ==> #[trigger] final(self).swarm(other) == old(self).swarm(
                    other,
                ),
    {
        match self.find(&info_hash) {
            Some(i) => {
                let peers = retain(&self.swarms[i].1, Keep::AwayFrom { ip, port: peer_port });
                self.put(info_hash, peers);
            },
            None => {
                assert(Seq::<Peer>::empty().filter(
                    Keep::AwayFrom { ip, port: peer_port }.admits(),
                ) =~= Seq::empty()) by {
                    reveal(Seq::filter);
                }
            },
        }
    }

    /// The peers of a swarm that a peer of it is told of.
    fn shown(&self, info_hash: &[u8; 20], me: Peer) -> (peers: Vec<Peer>)
        ensures
            peers@ == shown_to(self.swarm(info_hash@), me),
    {
        match self.find(info_hash) {
            Some(i) => retain(
                &self.swarms[i].1,
                Keep::OtherThan { ip: me.ip, port: me.port, left: me.left },
            ),
            None => {
                assert(shown_to(Seq::empty(), me) =~= Seq::empty()) by {
                    reveal(Seq::filter);
                }
                Vec::new()
            },
        }
    }
}

proof fn lemma_swarm_update(
    swarms: Seq<([u8; 20], Vec<Peer>)>,
    i: int,
    hash: [u8; 20],
    peers: Vec<Peer>,
    other: Seq<u8>,
)
    requires
        0 <= i < swarms.len(),
        swarms[i].0@ == hash@,
        forall|j: int| i < j < swarms.len() ==> (#[trigger] swarms[j]).0@ != hash@,
    ensures
        swarm_in(swarms.update(i, (hash, peers)), other) == (if other == hash@ {
            peers@
        } else {
            swarm_in(swarms, other)
        }),
    decreases swarms.len(),
{
    let updated = swarms.update(i, (hash, peers));
    if i == swarms.len() - 1 {
        assert(updated.drop_last() =~= swarms.drop_last());
    } else {
        assert(updated.drop_last() =~= swarms.drop_last().update(i, (hash, peers)));
        assert(updated.last() == swarms.last());
        lemma_swarm_update(swarms.drop_last(), i, hash, peers, other);
    }
}

// ── Requests ────────────────────────────────────────────────────────────────

/// The first line of a text: what stands before the first line feed, without a
/// carriage return right before it.
pub open spec fn first_line(text: Seq<u8>) -> Seq<u8> {
    let end = bytes::position(text, 10);
    if 0 < end < text.len() && text[end - 1] == 13 {
        text.take(end - 1)
    } else {
        text.take(end)
    }
}

/// The query of a request line: what stands between the first question mark and
/// the next space.
pub open spec fn query_of(line: Seq<u8>) -> Option<Seq<u8>> {
    let mark = bytes::position(line, 63);
    if mark == line.len() {
        None
    } else {
        let rest = line.skip(mark + 1);
        Some(rest.take(bytes::position(rest, 32)))
    }
}

/// The value of the first parameter with a key. A parameter without an equals
/// sign has an empty value.
pub open spec fn param_of(query: Seq<u8>, key: Seq<u8>) -> Option<Seq<u8>>
    decreases query.len(),
{
    let end = bytes::position(query, 38);
    let pair = query.take(end);
    let eq = bytes::position(pair, 61);
    if pair.take(eq) == key {
        Some(if eq == pair.len() {
            Seq::empty()
        } else {
            pair.skip(eq + 1)
        })
    } else if end >= query.len() || end < 0 {
        None
    } else {
        param_of(query.skip(end + 1), key)
    }
}

/// The value of a hexadecimal digit.
pub open spec fn hex_value(b: u8) -> Option<u8> {
    if 48 <= b <= 57 {
        Some((b - 48) as u8)
    } else if 97 <= b <= 102 {
        Some((b - 87) as u8)
    } else if 65 <= b <= 70 {
        Some((b - 55) as u8)
    } else {
        None
    }
}

/// The byte that two hexadecimal digits stand for.
pub open spec fn hex_pair(high: u8, low: u8) -> Option<u8> {
    match (hex_value(high), hex_value(low)) {
        (Some(h), Some(l)) => Some((16 * h + l) as u8),
        _ => None,
    }
}

/// A value with its escapes replaced by the bytes that they stand for. What is no
/// full escape stays as it is.
pub open spec fn unescaped(value: Seq<u8>) -> Seq<u8>
    decreases value.len(),
{
    if value.len() == 0 {
        Seq::empty()
    } else if value[0] == 37 && value.len() >= 3 && hex_pair(value[1], value[2]) is Some {
        seq![hex_pair(value[1], value[2])->0] + unescaped(value.skip(3))
    } else {
        seq![value[0]] + unescaped(value.skip(1))
    }
}

/// The twenty bytes that an info hash stands for: the unescaped value itself, or
/// what its forty hexadecimal digits say.
pub open spec fn info_hash_of(value: Seq<u8>) -> Option<Seq<u8>> {
    let raw = unescaped(value);
    if raw.len() == 20 {
        Some(raw)
    } else if raw.len() == 40 && (forall|i: int|
        0 <= i < 20 ==> #[trigger] hex_pair(raw[2 * i], raw[2 * i + 1]) is Some) {
        Some(Seq::new(20, |i: int| hex_pair(raw[2 * i], raw[2 * i + 1])->0))
    } else {
        None
    }
}

fn hex_digit(b: u8) -> (v: Option<u8>)
    ensures
        v == hex_value(b),
        v matches Some(n) ==> n < 16,
{
    if 48 <= b && b <= 57 {
        Some(b - 48)
    } else if 97 <= b && b <= 102 {
        Some(b - 87)
    } else if 65 <= b && b <= 70 {
        Some(b - 55)
    } else {
        None
    }
}

fn hex_byte(high: u8, low: u8) -> (v: Option<u8>)
    ensures
        v == hex_pair(high, low),
{
    match (hex_digit(high), hex_digit(low)) {
        (Some(h), Some(l)) => Some(16 * h + l),
        _ => None,
    }
}

/// Replaces the escapes of a value.
pub fn percent_decode(input: &[u8]) -> (out: Vec<u8>)
    ensures
        out@ == unescaped(input@),
{
    let mut out: Vec<u8> = Vec::new();
    let mut i: usize = 0;
    assert(input@.skip(0) =~= input@);
    assert(out@ + unescaped(input@) =~= unescaped(input@));
    while i < input.len()
        invariant
            i <= input@.len(),
            unescaped(input@) == out@ + unescaped(input@.skip(i as int)),
        decreases input@.len() - i,
    {
        let ghost rest = input@.skip(i as int);
        let ghost before = out@;
        let escape = if input[i] == 37 && input.len() - i >= 3 {
            hex_byte(input[i + 1], input[i + 2])
        } else {
            None
        };
        match escape {
            Some(b) => {
                out.push(b);
                i = i + 3;
                assert(rest.skip(3) =~= input@.skip(i as int));
                assert(before + (seq![b] + unescaped(rest.skip(3))) =~= out@ + unescaped(
                    rest.skip(3),
                ));
            },
            None => {
                out.push(input[i]);
                i = i + 1;
                assert(rest.skip(1) =~= input@.skip(i as int));
                assert(before + (seq![rest[0]] + unescaped(rest.skip(1))) =~= out@ + unescaped(
                    rest.skip(1),
                ));
            },
        }
    }
    assert(out@ + unescaped(input@.skip(i as int)) =~= out@);
    out
}

/// The value of the first parameter with a key.
pub fn query_param(query: &[u8], key: &str) -> (value: Option<Vec<u8>>)
    ensures
        (match value {
            Some(v) => Some(v@),
            None => None,
        }) == param_of(query@, utf8::encode_utf8(key@)),
{
    let mut from: usize = 0;
    let wanted = key.as_bytes();
    assert(query@.skip(0) =~= query@);
    loop
        invariant
            from <= query@.len(),
            wanted@ == utf8::encode_utf8(key@),
            param_of(query@, wanted@) == param_of(query@.skip(from as int), wanted@),
        decreases query@.len() - from,
    {
        let rest = slice_subrange(query, from, query.len());
        assert(rest@ =~= query@.skip(from as int));
        let end: usize = bytes::find_byte(rest, 38);
        let pair = slice_subrange(rest, 0, end);
        assert(pair@ =~= rest@.take(end as int));
        let eq: usize = bytes::find_byte(pair, 61);
        let name = slice_subrange(pair, 0, eq);
        assert(name@ =~= pair@.take(eq as int));
        if bytes::same_bytes(name, wanted) {
            if eq == pair.len() {
                return Some(Vec::new());
            }
            let value = bytes::copy_range(pair, eq + 1, pair.len());
            assert(value@ =~= pair@.skip(eq as int + 1));
            return Some(value);
        }
        if end == rest.len() {
            return None;
        }
        assert(rest@.skip(end as int + 1) =~= query@.skip(from as int + end as int + 1));
        from = from + end + 1;
    }
}

/// The twenty bytes that an info hash in a query stands for.
fn decode_hash(value: &[u8]) -> (hash: Option<[u8; 20]>)
    ensures
        (match hash {
            Some(h) => Some(h@),
            None => None,
        }) == info_hash_of(value@),
{
    let raw = percent_decode(value);
    let mut out: [u8; 20] = [0u8; 20];
    if raw.len() == 20 {
        let mut i: usize = 0;
        while i < 20
            invariant
                i <= 20,
                raw@.len() == 20,
                forall|j: int| 0 <= j < i ==> out@[j] == raw@[j],
            decreases 20 - i,
        {
            out.set(i, raw[i]);
            i = i + 1;
        }
        assert(out@ =~= raw@);
        return Some(out);
    }
    if raw.len() != 40 {
        return None;
    }
    let mut i: usize = 0;
    while i < 20
        invariant
            i <= 20,
            raw@.len() == 40,
            raw@ == unescaped(value@),
            forall|j: int|
                0 <= j < i ==> #[trigger] hex_pair(raw@[2 * j], raw@[2 * j + 1]) == Some(out@[j]),
        decreases 20 - i,
    {
        match hex_byte(raw[2 * i], raw[2 * i + 1]) {
            Some(b) => {
                out.set(i, b);
            },
            None => {
                assert(hex_pair(raw@[2 * (i as int)], raw@[2 * (i as int) + 1]) is None);
                return None;
            },
        }
        i = i + 1;
    }
    proof {
        assert forall|j: int| 0 <= j < 20 implies out@[j] == hex_pair(
            raw@[2 * j],
            raw@[2 * j + 1],
        )->0 by {
            assert(hex_pair(raw@[2 * j], raw@[2 * j + 1]) == Some(out@[j]));
        }
        assert(info_hash_of(value@)->0 =~= out@);
    }
    Some(out)
}

/// The twenty bytes that an info hash in a query stands for: percent escapes of
/// raw bytes, or forty hexadecimal digits.
pub fn decode_info_hash(value: &str) -> (hash: Option<[u8; 20]>)
    ensures
        (match hash {
            Some(h) => Some(h@),
            None => None,
        }) == info_hash_of(utf8::encode_utf8(value@)),
{
    decode_hash(value.as_bytes())
}

/// What an announce asks for.
pub struct Announce {
    pub info_hash: [u8; 20],
    pub port: u16,
    pub left: u64,
    pub stopped: bool,
}

/// An announce as plain values.
pub struct AnnounceView {
    pub info_hash: Seq<u8>,
    pub port: u16,
    pub left: u64,
    pub stopped: bool,
}

impl View for Announce {
    type V = AnnounceView;

    open spec fn view(&self) -> AnnounceView {
        AnnounceView {
            info_hash: self.info_hash@,
            port: self.port,
            left: self.left,
            stopped: self.stopped,
        }
    }
}

/// The value of a parameter by its name.
pub open spec fn named_param(query: Seq<u8>, key: Seq<char>) -> Option<Seq<u8>> {
    param_of(query, utf8::encode_utf8(key))
}

/// How much is left to download; the most there can be when a query does not say.
pub open spec fn left_of(query: Seq<u8>) -> u64 {
    match named_param(query, "left"@) {
        Some(v) => match bytes::unsigned_value(v, u64::MAX as nat) {
            Some(n) => n as u64,
            None => u64::MAX,
        },
        None => u64::MAX,
    }
}

/// The announce in a query: it needs an info hash and a port.
pub open spec fn announce_in(query: Seq<u8>) -> Option<AnnounceView> {
    match (named_param(query, "info_hash"@), named_param(query, "port"@)) {
        (Some(h), Some(p)) => match (
            info_hash_of(h),
            bytes::unsigned_value(p, u16::MAX as nat),
        ) {
            (Some(info_hash), Some(port)) => Some(
                AnnounceView {
                    info_hash,
                    port: port as u16,
                    left: left_of(query),
                    stopped: named_param(query, "event"@) == Some(utf8::encode_utf8("stopped"@)),
                },
            ),
            _ => None,
        },
        _ => None,
    }
}

/// The announce that a request makes in its first line.
pub open spec fn announce_of(request: Seq<u8>) -> Option<AnnounceView> {
    match query_of(first_line(request)) {
        Some(query) => announce_in(query),
        None => None,
    }
}

fn split_query(request: &[u8]) -> (query: Option<Vec<u8>>)
    ensures
        (match query {
            Some(q) => Some(q@),
            None => None,
        }) == query_of(first_line(request@)),
{
    let feed: usize = bytes::find_byte(request, 10);
    let end: usize = if 0 < feed && feed < request.len() && request[feed - 1] == 13 {
        feed - 1
    } else {
        feed
    };
    let line = slice_subrange(request, 0, end);
    assert(line@ =~= first_line(request@));
    let mark: usize = bytes::find_byte(line, 63);
    if mark == line.len() {
        return None;
    }
    let rest = slice_subrange(line, mark + 1, line.len());
    assert(rest@ =~= line@.skip(mark as int + 1));
    let space: usize = bytes::find_byte(rest, 32);
    let query = bytes::copy_range(rest, 0, space);
    assert(query@ =~= rest@.take(space as int));
    Some(query)
}

fn number_param(query: &[u8], key: &str, max: u64) -> (n: Option<u64>)
    ensures
        (match n {
            Some(n) => Some(n as nat),
            None => None,
        }) == (match named_param(query@, key@) {
            Some(v) => bytes::unsigned_value(v, max as nat),
            None => None,
        }),
{
    match query_param(query, key) {
        Some(v) => {
            assert(v@.subrange(0, v@.len() as int) =~= v@);
            bytes::parse_unsigned(v.as_slice(), 0, v.len(), max)
        },
        None => None,
    }
}

/// Reads an announce from the text of a request.
pub fn parse_announce(request: &str) -> (announce: Option<Announce>)
    ensures
        (match announce {
            Some(a) => Some(a@),
            None => None,
        }) == announce_of(utf8::encode_utf8(request@)),
{
    let query = match split_query(request.as_bytes()) {
        Some(query) => query,
        None => {
            return None;
        },
    };
    let info_hash = match query_param(query.as_slice(), "info_hash") {
        Some(v) => match decode_hash(v.as_slice()) {
            Some(h) => h,
            None => {
                return None;
            },
        },
        None => {
            return None;
        },
    };
    let port: u16 = match number_param(query.as_slice(), "port", u16::MAX as u64) {
        Some(p) => p as u16,
        None => {
            return None;
        },
    };
    let left: u64 = match number_param(query.as_slice(), "left", u64::MAX) {
        Some(n) => n,
        None => u64::MAX,
    };
    let stopped = match query_param(query.as_slice(), "event") {
        Some(v) => bytes::same_bytes(v.as_slice(), "stopped".as_bytes()),
        None => false,
    };
    Some(Announce { info_hash, port, left, stopped })
}

// ── Answers ─────────────────────────────────────────────────────────────────

/// Peers in the compact form: four bytes of address and two of port, the high
/// one first.
pub open spec fn compact(peers: Seq<Peer>) -> Seq<u8>
    decreases peers.len(),
{
    if peers.len() == 0 {
        Seq::empty()
    } else {
        let p = peers.last();
        compact(peers.drop_last()) + p.ip@ + seq![(p.port / 256) as u8, (p.port % 256) as u8]
    }
}

/// The body of an answer: how often to announce, and the peers.
pub open spec fn answer_body(peers: Seq<Peer>) -> Seq<u8> {
    utf8::encode_utf8("d8:interval"@) + bencode::int_bytes(ANNOUNCE_INTERVAL as int)
        + utf8::encode_utf8("12:min interval"@) + bencode::int_bytes(ANNOUNCE_INTERVAL as int)
        + utf8::encode_utf8("5:peers"@) + bencode::str_bytes(compact(peers)) + seq![101u8]
}

/// An answer with a body.
pub open spec fn ok_answer(body: Seq<u8>) -> Seq<u8> {
    utf8::encode_utf8("HTTP/1.0 200 OK\r\nContent-Length: "@) + bytes::dec_bytes(body.len())
        + utf8::encode_utf8("\r\nContent-Type: text/plain\r\nConnection: close\r\n\r\n"@) + body
}

/// The answer to a request that is no announce.
pub open spec fn refusal() -> Seq<u8> {
    utf8::encode_utf8("HTTP/1.0 400 Bad Request\r\nContent-Length: 0\r\nConnection: close\r\n\r\n"@)
}

/// The answer to a request that is no announce.
pub fn bad_request() -> (response: Vec<u8>)
    ensures
        response@ == refusal(),
{
    let mut out: Vec<u8> = Vec::new();
    bytes::push_str_bytes(
        &mut out,
        "HTTP/1.0 400 Bad Request\r\nContent-Length: 0\r\nConnection: close\r\n\r\n",
    );
    assert(out@ =~= refusal());
    out
}

fn compact_bytes(peers: &Vec<Peer>) -> (out: Vec<u8>)
    ensures
        out@ == compact(peers@),
{
    let mut out: Vec<u8> = Vec::new();
    let mut i: usize = 0;
    while i < peers.len()
        invariant
            i <= peers@.len(),
            out@ == compact(peers@.take(i as int)),
        decreases peers@.len() - i,
    {
        let p = peers[i];
        let ghost before = out@;
        bytes::push_all(&mut out, &p.ip);
        out.push((p.port / 256) as u8);
        out.push((p.port % 256) as u8);
        assert(peers@.take(i as int + 1).drop_last() =~= peers@.take(i as int));
        assert(out@ =~= before + p.ip@ + seq![(p.port / 256) as u8, (p.port % 256) as u8]);
        i = i + 1;
    }
    assert(peers@.take(peers@.len() as int) =~= peers@);
    out
}

fn answer(peers: &Vec<Peer>) -> (response: Vec<u8>)
    ensures
        response@ == ok_answer(answer_body(peers@)),
{
    let list = compact_bytes(peers);
    let mut body: Vec<u8> = Vec::new();
    bytes::push_str_bytes(&mut body, "d8:interval");
    bencode::push_int(&mut body, ANNOUNCE_INTERVAL as i64);
    bytes::push_str_bytes(&mut body, "12:min interval");
    bencode::push_int(&mut body, ANNOUNCE_INTERVAL as i64);
    bytes::push_str_bytes(&mut body, "5:peers");
    bencode::push_str(&mut body, list.as_slice());
    let ghost before = body@;
    body.push(101);
    assert(body@ =~= before + seq![101u8]);
    assert(body@ =~= answer_body(peers@));
    let mut out: Vec<u8> = Vec::new();
    bytes::push_str_bytes(&mut out, "HTTP/1.0 200 OK\r\nContent-Length: ");
    bytes::push_dec_bytes(&mut out, body.len() as u64);
    bytes::push_str_bytes(
        &mut out,
        "\r\nContent-Type: text/plain\r\nConnection: close\r\n\r\n",
    );
    bytes::push_all(&mut out, body.as_slice());
    assert(out@ =~= ok_answer(body@));
    out
}

/// The peer that makes an announce.
pub open spec fn announcer(a: AnnounceView, ip: [u8; 4], now: u64) -> Peer {
    Peer { ip, port: a.port, left: a.left, seen: now }
}

/// A swarm after an announce.
pub open spec fn swarm_after(peers: Seq<Peer>, a: AnnounceView, ip: [u8; 4], now: u64) -> Seq<
    Peer,
> {
    if a.stopped {
        left_by(peers, ip, a.port)
    } else {
        joined(peers, announcer(a, ip, now))
    }
}

/// What an announce is answered, given its swarm before: a peer that leaves is
/// told of no one.
pub open spec fn answer_to(peers: Seq<Peer>, a: AnnounceView, ip: [u8; 4], now: u64) -> Seq<u8> {
    if a.stopped {
        ok_answer(answer_body(Seq::empty()))
    } else {
        ok_answer(
            answer_body(shown_to(swarm_after(peers, a, ip, now), announcer(a, ip, now))),
        )
    }
}

/// The swarms and the answer after a request that reads as `request`. Only an
/// announce from an IPv4 address counts.
pub open spec fn handled(
    before: TrackerState,
    request: Seq<u8>,
    ip: Option<[u8; 4]>,
    now: u64,
    after: TrackerState,
    response: Seq<u8>,
) -> bool {
    match (announce_of(request), ip) {
        (Some(a), Some(ip)) => {
            &&& response == answer_to(before.swarm(a.info_hash), a, ip, now)
            &&& after.swarm(a.info_hash) == swarm_after(before.swarm(a.info_hash), a, ip, now)
            &&& forall|other: Seq<u8>|
                other != a.info_hash ==> #[trigger] after.swarm(other) == before.swarm(other)
        },
        _ => response == refusal() && after == before,
    }
}

impl TrackerState {
    /// Carries out the announce in the text of a request and answers it.
    pub fn announce(&mut self, request: &str, ip: Option<[u8; 4]>, now: u64) -> (response: Vec<u8>)
        ensures
            handled(
                *old(self),
                utf8::encode_utf8(request@),
                ip,
                now,
                *final(self),
                response@,
            ),
    {
        let a = match parse_announce(request) {
            Some(a) => a,
            None => {
                return bad_request();
            },
        };
        let ip = match ip {
            Some(ip) => ip,
            None => {
                return bad_request();
            },
        };
        if a.stopped {
            self.remove_peer(a.info_hash, ip, a.port);
            let none: Vec<Peer> = Vec::new();
            assert(none@ =~= Seq::empty());
            answer(&none)
        } else {
            self.register_peer(a.info_hash, ip, a.port, a.left, now);
            let me = Peer { ip, port: a.port, left: a.left, seen: now };
            let shown = self.shown(&a.info_hash, me);
            answer(&shown)
        }
    }

    /// Carries out the announce in the bytes of a request and answers it.
    pub fn handle_announce(
        &mut self,
        request: &[u8],
        ip: Option<[u8; 4]>,
        now: u64,
    ) -> (response: Vec<u8>)
        ensures
            handled(
                *old(self),
                utf8::encode_utf8(text::lossy_text(request@)),
                ip,
                now,
                *final(self),
                response@,
            ),
            utf8::valid_utf8(request@) ==> handled(
                *old(self),
                request@,
                ip,
                now,
                *final(self),
                response@,
            ),
    {
        let text = text::from_utf8_lossy(request);
        proof {
            if utf8::valid_utf8(request@) {
                utf8::decode_utf8_encode_utf8(request@);
            }
        }
        self.announce(text.as_str(), ip, now)
    }
}

// ── Laws ────────────────────────────────────────────────────────────────────

/// Whoever is in a swarm afterwards was there before or is the announcer, and
/// everyone fresh who is someone else stays: two clients behind one address that
/// differ in what they have left do not displace each other.
pub proof fn law_others_stay(peers: Seq<Peer>, me: Peer, other: Peer)
    requires
        !other.is_peer(me.ip@, me.port, me.left),
    ensures
        joined(peers, me).contains(other) <==> peers.contains(other) && other.is_fresh(me.seen),
{
    let fresh = Keep::Fresh(me.seen).admits();
    let others = Keep::OtherThan { ip: me.ip, port: me.port, left: me.left }.admits();
    lemma_filter_contains(peers, fresh, other);
    lemma_filter_contains(peers.filter(fresh), others, other);
    let kept = peers.filter(fresh).filter(others);
    let after = kept.push(me);
    if kept.contains(other) {
        let i = choose|i: int| 0 <= i < kept.len() && kept[i] == other;
        assert(after[i] == other);
    }
    if after.contains(other) {
        let i = choose|i: int| 0 <= i < after.len() && after[i] == other;
        assert(other != me);
        assert(kept[i] == other);
    }
}

/// After an announce the announcer stands in its swarm exactly once: announcing
/// again refreshes it in place of entering it twice.
pub proof fn law_announcer_stands_once(peers: Seq<Peer>, me: Peer)
    ensures
        joined(peers, me).last() == me,
        forall|i: int|
            0 <= i < joined(peers, me).len() - 1 ==> !(#[trigger] joined(peers, me)[i]).is_peer(
                me.ip@,
                me.port,
                me.left,
            ),
{
    let kept = peers.filter(Keep::Fresh(me.seen).admits());
    kept.filter_lemma(Keep::OtherThan { ip: me.ip, port: me.port, left: me.left }.admits());
}

/// After an announce no one is left who has not announced within the expiry.
pub proof fn law_stale_peers_are_gone(peers: Seq<Peer>, me: Peer)
    ensures
        forall|i: int|
            0 <= i < joined(peers, me).len() ==> (#[trigger] joined(peers, me)[i]).is_fresh(me.seen),
{
    let fresh = Keep::Fresh(me.seen).admits();
    let others = Keep::OtherThan { ip: me.ip, port: me.port, left: me.left }.admits();
    let kept = peers.filter(fresh).filter(others);
    peers.filter_lemma(fresh);
    assert forall|i: int| 0 <= i < kept.len() implies (#[trigger] kept[i]).is_fresh(me.seen) by {
        lemma_filter_contains(peers.filter(fresh), others, kept[i]);
        lemma_filter_contains(peers, fresh, kept[i]);
        assert(kept.contains(kept[i]));
    }
}

/// Who leaves is gone whatever it had left, and everyone at another address
/// stays.
pub proof fn law_leaving_removes_the_address(peers: Seq<Peer>, ip: [u8; 4], port: u16, p: Peer)
    ensures
        left_by(peers, ip, port).contains(p) <==> peers.contains(p) && !p.is_at(ip@, port),
{
    lemma_filter_contains(peers, Keep::AwayFrom { ip, port }.admits(), p);
}

/// A peer is never told of itself, and is told of everyone else in its swarm.
pub proof fn law_announcer_sees_the_others(peers: Seq<Peer>, me: Peer, p: Peer)
    ensures
        shown_to(peers, me).contains(p) <==> peers.contains(p) && !p.is_peer(
            me.ip@,
            me.port,
            me.left,
        ),
{
    lemma_filter_contains(
        peers,
        Keep::OtherThan { ip: me.ip, port: me.port, left: me.left }.admits(),
        p,
    );
}

/// A client that announces as often as it is asked to never expires.
pub proof fn law_interval_outruns_expiry(peers: Seq<Peer>, p: Peer, me: Peer)
    requires
        peers.contains(p),
        p.seen <= me.seen <= p.seen + ANNOUNCE_INTERVAL * NANOS,
        !p.is_peer(me.ip@, me.port, me.left),
    ensures
        joined(peers, me).contains(p),
{
    law_others_stay(peers, me, p);
}

proof fn lemma_filter_contains(s: Seq<Peer>, keep: spec_fn(Peer) -> bool, p: Peer)
    ensures
        s.filter(keep).contains(p) <==> s.contains(p) && keep(p),
    decreases s.len(),
{
    reveal(Seq::filter);
    if s.len() > 0 {
        let init = s.drop_last();
        lemma_filter_contains(init, keep, p);
        let sub = init.filter(keep);
        if s.contains(p) {
            let i = choose|i: int| 0 <= i < s.len() && s[i] == p;
            if i < s.len() - 1 {
                assert(init[i] == p);
            }
        }
        if init.contains(p) {
            let i = choose|i: int| 0 <= i < init.len() && init[i] == p;
            assert(s[i] == p);
        }
        if keep(s.last()) {
            let pushed = sub.push(s.last());
            if sub.contains(p) {
                let i = choose|i: int| 0 <= i < sub.len() && sub[i] == p;
                assert(pushed[i] == p);
            }
            if p == s.last() {
                assert(pushed[sub.len() as int] == p);
                assert(s[s.len() - 1] == p);
            }
            if pushed.contains(p) {
                let i = choose|i: int| 0 <= i < pushed.len() && pushed[i] == p;
                if i < sub.len() {
                    assert(sub[i] == p);
                } else {
                    assert(s[s.len() - 1] == p);
                }
            }
        }
    }
}

} // verus!
