use torrentfs::tracker::{
    bad_request, decode_info_hash, parse_announce, percent_decode, query_param, Peer, TrackerState,
    ANNOUNCE_INTERVAL, PEER_EXPIRY,
};

const SECOND: u64 = 1_000_000_000;
const NOW: u64 = 1_000 * SECOND;
const HOST: [u8; 4] = [127, 0, 0, 1];
const HASH: [u8; 20] = [0; 20];

fn swarm(state: &TrackerState) -> Vec<Peer> {
    state
        .swarms
        .iter()
        .find(|(hash, _)| *hash == HASH)
        .map(|(_, peers)| peers.clone())
        .unwrap_or_default()
}

#[test]
fn same_ip_port_different_left_keeps_seeder_entry() {
    let mut state = TrackerState::new();
    state.register_peer(HASH, HOST, 6881, 0, NOW);
    let leecher_left = 4 * 1024 * 1024u64;
    state.register_peer(HASH, HOST, 6881, leecher_left, NOW);

    let list = swarm(&state);
    assert_eq!(list.len(), 2);
    assert!(list
        .iter()
        .any(|p| p.ip == HOST && p.port == 6881 && p.left == 0));

    let visible: Vec<&Peer> = list
        .iter()
        .filter(|p| !(p.ip == HOST && p.port == 6881 && p.left == leecher_left))
        .collect();
    assert_eq!(visible.len(), 1);
    assert_eq!(visible[0].left, 0);
}

#[test]
fn stale_peer_entries_expire() {
    let mut state = TrackerState::new();
    let make = |port: u16, left: u64, age: u64| Peer {
        ip: HOST,
        port,
        left,
        seen: NOW - age,
    };
    state.swarms.push((
        HASH,
        vec![
            make(6883, 0, 2 * SECOND),
            make(6881, 4_194_304, SECOND),
            make(6881, 4_194_305, PEER_EXPIRY * 3),
            make(6882, 4_194_306, PEER_EXPIRY * 3),
        ],
    ));

    state.register_peer(HASH, HOST, 6881, 4_194_304, NOW);
    let list = swarm(&state);
    assert_eq!(list.len(), 2);
    assert!(list.iter().all(|p| NOW - p.seen < PEER_EXPIRY));
}

#[test]
fn stopped_event_deletes_peer_entry() {
    let mut state = TrackerState::new();
    state.register_peer(HASH, HOST, 6883, 0, NOW);
    state.register_peer(HASH, HOST, 6881, 4_194_304, NOW);
    assert_eq!(swarm(&state).len(), 2);

    state.remove_peer(HASH, HOST, 6881);
    let list = swarm(&state);
    assert_eq!(list.len(), 1);
    assert_eq!(list[0].port, 6883);
    assert_eq!(list[0].left, 0);
}

#[test]
fn malformed_announce_gets_400_bad_request() {
    let response = String::from_utf8(bad_request()).unwrap();
    assert!(response.starts_with("HTTP/1.0 400 Bad Request\r\n"), "{response}");
    assert!(response.ends_with("\r\n\r\n"));
    let mut state = TrackerState::new();
    for request in ["GET / HTTP/1.1\r\n\r\n", "GET /announce?port=1 HTTP/1.1\r\n\r\n", "x"] {
        assert_eq!(
            state.handle_announce(request.as_bytes(), Some(HOST), NOW),
            bad_request(),
            "{request}"
        );
    }
    assert!(state.swarms.is_empty());
}

#[test]
fn an_empty_request_gets_400_bad_request() {
    let mut state = TrackerState::new();
    assert_eq!(state.handle_announce(&[], Some(HOST), NOW), bad_request());
}

fn announce(left: u64, port: u16, event: &str) -> String {
    format!(
        "GET /announce?info_hash=0102030405060708090a0b0c0d0e0f1011121314\
         &peer_id=0123456789abcdefghij&port={port}&left={left}&event={event} \
         HTTP/1.1\r\nHost: 127.0.0.1\r\n\r\n"
    )
}

#[test]
fn announce_response_advertises_min_interval() {
    let mut state = TrackerState::new();
    let request = announce(0, 6881, "started");
    let response = state.handle_announce(request.as_bytes(), Some(HOST), NOW);
    let response = String::from_utf8_lossy(&response);
    let expected = format!("12:min intervali{}e", ANNOUNCE_INTERVAL);
    assert!(response.contains(&expected), "{response}");
}

#[test]
fn percent_encoded_info_hash_decodes() {
    let encoded = "%01%23%45%67%89%AB%CD%EF%01%23%45%67%89%AB%CD%EF%FE%DC%BA%98";
    let hash = decode_info_hash(encoded).expect("percent-encoded hash must decode");
    assert_eq!(
        hash,
        [
            0x01, 0x23, 0x45, 0x67, 0x89, 0xab, 0xcd, 0xef, 0x01, 0x23, 0x45, 0x67, 0x89, 0xab,
            0xcd, 0xef, 0xfe, 0xdc, 0xba, 0x98,
        ]
    );
}

#[test]
fn bare_hex_info_hash_decodes() {
    let hex = "0102030405060708090a0b0c0d0e0f1011121314";
    let hash = decode_info_hash(hex).expect("bare hex hash must decode");
    assert_eq!(
        hash,
        [
            0x01, 0x02, 0x03, 0x04, 0x05, 0x06, 0x07, 0x08, 0x09, 0x0a, 0x0b, 0x0c, 0x0d, 0x0e,
            0x0f, 0x10, 0x11, 0x12, 0x13, 0x14,
        ]
    );
}

#[test]
fn malformed_info_hash_rejected() {
    let uppercase = "0102030405060708090A0B0C0D0E0F1011121314";
    assert!(decode_info_hash(uppercase).is_some());
    assert!(decode_info_hash("0102").is_none());
    assert!(decode_info_hash("").is_none());
    let mut forty_non_hex = String::from("z");
    forty_non_hex.push_str(&"0".repeat(39));
    assert!(decode_info_hash(&forty_non_hex).is_none());
    // A sign is no hexadecimal digit.
    let mut signed = String::from("+1");
    signed.push_str(&"0".repeat(38));
    assert!(decode_info_hash(&signed).is_none());
}

#[test]
fn an_announcer_sees_the_others_only() {
    let mut state = TrackerState::new();
    state.announce(&announce(0, 6883, "started"), Some([10, 0, 0, 1]), NOW);
    let response = state.announce(&announce(9, 6881, "started"), Some(HOST), NOW);
    let mut body: Vec<u8> = b"d8:intervali5e12:min intervali5e5:peers6:".to_vec();
    body.extend_from_slice(&[10, 0, 0, 1, 0x1a, 0xe3]);
    body.push(b'e');
    let at = response.len() - body.len();
    assert_eq!(&response[at..], &body[..]);
    let head = String::from_utf8(response[..at].to_vec()).unwrap();
    assert!(head.starts_with("HTTP/1.0 200 OK\r\n"), "{head}");
    assert!(head.contains(&format!("Content-Length: {}\r\n", body.len())), "{head}");
    assert!(head.ends_with("\r\n\r\n"), "{head}");

    // A stopped announce takes the address out of the swarm.
    state.announce(&announce(3, 6883, "stopped"), Some([10, 0, 0, 1]), NOW);
    let response = state.announce(&announce(9, 6881, ""), Some(HOST), NOW);
    assert!(response.ends_with(b"5:peers0:e"));
}

#[test]
fn an_announce_needs_a_hash_and_a_port() {
    let a = parse_announce(&announce(7, 6881, "stopped")).expect("announce");
    assert_eq!((a.port, a.left, a.stopped), (6881, 7, true));
    assert_eq!(a.info_hash[19], 0x14);
    assert!(parse_announce("GET /announce?port=6881 HTTP/1.1").is_none());
    let line = "GET /announce?info_hash=0102030405060708090a0b0c0d0e0f1011121314&left=0 HTTP/1.1";
    assert!(parse_announce(line).is_none());
}

#[test]
fn bytes_that_are_no_text_do_not_spoil_an_announce() {
    let mut request: Vec<u8> = announce(0, 6881, "").into_bytes();
    let at = request.windows(4).position(|w| w == b"ghij").unwrap();
    request[at] = 0xff;
    let mut state = TrackerState::new();
    let response = state.handle_announce(&request, Some(HOST), NOW);
    assert!(response.starts_with(b"HTTP/1.0 200 OK"));
    assert_eq!(state.swarms.len(), 1);
}

#[test]
fn query_parameters_and_escapes() {
    assert_eq!(query_param(b"a=1&b=2&a=3", "a"), Some(b"1".to_vec()));
    assert_eq!(query_param(b"a=1&b=2", "b"), Some(b"2".to_vec()));
    assert_eq!(query_param(b"a=1", "c"), None);
    assert_eq!(percent_decode(b"a%20b%zz%4"), b"a b%zz%4".to_vec());
    assert_eq!(percent_decode(b"%+1"), b"%+1".to_vec());
}
