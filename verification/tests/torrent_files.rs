use torrentfs::bencode::{bencode_bytes, bencode_int, push_int, push_str, Bencode, BencodeParser};
use torrentfs::digest::content_hash_of;
use torrentfs::hashing::{is_zero_piece, PieceHasher};
use torrentfs::torrent_file::{
    bencode_multifile_torrent, bencode_singlefile_torrent, extract_bencode_files,
    extract_bencode_name, PIECE_LEN,
};

fn minimal_torrent_bytes() -> Vec<u8> {
    let mut t = Vec::new();
    t.push(b'd');
    t.extend_from_slice(b"4:infod");
    t.extend_from_slice(b"6:lengthi16e");
    t.extend_from_slice(b"4:name3:foo");
    t.extend_from_slice(b"12:piece lengthi16384e");
    t.extend_from_slice(b"6:pieces20:");
    t.extend_from_slice(&[0u8; 20]);
    t.extend_from_slice(b"ee");
    t
}

fn multifile_torrent_bytes() -> Vec<u8> {
    let mut t = Vec::new();
    t.push(b'd');
    t.extend_from_slice(b"4:infod");
    t.extend_from_slice(b"5:filesl");
    t.extend_from_slice(b"d6:lengthi10e4:pathl3:dir7:sub.txtee");
    t.extend_from_slice(b"d6:lengthi5e4:pathl4:dir210:readme.txtee");
    t.extend_from_slice(b"d6:lengthi8e4:pathl7:top.txtee");
    t.extend_from_slice(b"e");
    t.extend_from_slice(b"4:name3:foo");
    t.extend_from_slice(b"12:piece lengthi16384e");
    t.extend_from_slice(b"6:pieces20:");
    t.extend_from_slice(&[0u8; 20]);
    t.extend_from_slice(b"ee");
    t
}

#[test]
fn extract_bencode_files_multifile() {
    let data = multifile_torrent_bytes();
    let (name, files) = extract_bencode_files(&data).expect("should parse multi-file torrent");
    assert_eq!(name, "foo");
    assert_eq!(files.len(), 3);

    let paths: Vec<&str> = files.iter().map(|f| f.path.as_str()).collect();
    assert!(paths.contains(&"dir/sub.txt"));
    assert!(paths.contains(&"dir2/readme.txt"));
    assert!(paths.contains(&"top.txt"));

    let sizes: std::collections::HashMap<&str, u64> =
        files.iter().map(|f| (f.path.as_str(), f.size)).collect();
    assert_eq!(sizes["dir/sub.txt"], 10);
    assert_eq!(sizes["dir2/readme.txt"], 5);
    assert_eq!(sizes["top.txt"], 8);
}

#[test]
fn extract_bencode_files_singlefile() {
    let data = minimal_torrent_bytes();
    let (name, files) = extract_bencode_files(&data).expect("should parse single-file torrent");
    assert_eq!(name, "foo");
    assert_eq!(files.len(), 1);
    assert_eq!(files[0].path, "foo");
    assert_eq!(files[0].size, 16);
}

#[test]
fn extract_bencode_files_malformed_returns_none() {
    assert!(extract_bencode_files(b"not bencode").is_none());
    assert!(extract_bencode_files(b"").is_none());
}

#[test]
fn a_name_is_text() {
    assert_eq!(extract_bencode_name(&minimal_torrent_bytes()), Some("foo".to_string()));
    let accents = "d4:infod6:lengthi1e4:name3:é!ee";
    assert_eq!(extract_bencode_name(accents.as_bytes()), Some("é!".to_string()));
    let mut t: Vec<u8> = b"d4:infod6:lengthi1e4:name3:a".to_vec();
    t.extend_from_slice(&[0xff, b'b']);
    t.extend_from_slice(b"ee");
    assert_eq!(extract_bencode_name(&t), None);
    assert_eq!(extract_bencode_name(b"i3e"), None);
}

// ── Bencode ─────────────────────────────────────────────────────────────────

#[test]
fn bencode_reads_every_kind_of_value() {
    let (v, used) = BencodeParser::parse(b"d1:ai7e1:bl2:xyi0eee rest").expect("value");
    assert_eq!(used, 20);
    assert_eq!(v.get_int("a"), Some(7));
    assert_eq!(v.get_int("b"), None);
    let list = v.get_list("b").expect("list");
    assert_eq!(list.len(), 2);
    assert_eq!(list[0].as_str(), Some("xy".to_string()));
    assert!(matches!(list[1], Bencode::Int(0)));
    assert!(v.get_dict("c").is_none());
    assert!(v.get_str("a").is_none());
}

#[test]
fn broken_bencode_is_refused() {
    for text in ["", "i-1e", "i1", "3:ab", "l1:a", "d1:a", "di1e1:ae", "x", "99999999999999999999:a"] {
        assert!(BencodeParser::parse(text.as_bytes()).is_none(), "{text}");
    }
}

#[test]
fn what_is_written_reads_back() {
    let mut out = Vec::new();
    push_str(&mut out, b"spam");
    push_int(&mut out, 42);
    assert_eq!(out, b"4:spami42e");
    assert_eq!(bencode_int(-3), b"i-3e");
    assert_eq!(bencode_bytes(&[0, 255]), vec![b'2', b':', 0, 255]);
    let (v, used) = BencodeParser::parse(&bencode_int(i64::MAX)).expect("value");
    assert_eq!(used, 21);
    assert!(matches!(v, Bencode::Int(n) if n == i64::MAX as u64));
}

// ── Torrent files ───────────────────────────────────────────────────────────

#[test]
fn bencoded_multifile_torrent_parses() {
    let files = vec![
        (vec![b"readme.md".to_vec()], 100),
        (vec![b"sub".to_vec(), b"data.bin".to_vec()], 200),
    ];
    let dict = bencode_multifile_torrent("http://example.com/announce", "mffs", &files, &[7; 20]);
    let (name, got) = extract_bencode_files(&dict).expect("parse generated torrent");
    assert_eq!(name, "mffs");
    let mut got: Vec<(String, u64)> = got.into_iter().map(|f| (f.path, f.size)).collect();
    got.sort();
    assert_eq!(
        got,
        vec![("readme.md".to_string(), 100), ("sub/data.bin".to_string(), 200)]
    );
}

#[test]
fn a_single_file_torrent_is_written_key_by_key() {
    let dict = bencode_singlefile_torrent("http://t/announce", "x", 5, &[1; 20]);
    let mut wanted: Vec<u8> = b"d8:announce17:http://t/announce4:infod6:lengthi5e4:name1:x".to_vec();
    wanted.extend_from_slice(b"12:piece lengthi262144e6:pieces20:");
    wanted.extend_from_slice(&[1; 20]);
    wanted.extend_from_slice(b"ee");
    assert_eq!(dict, wanted);
    let (name, files) = extract_bencode_files(&dict).expect("parse");
    assert_eq!((name.as_str(), files.len()), ("x", 1));
    assert_eq!((files[0].path.as_str(), files[0].size), ("x", 5));
}

// ── Digests ─────────────────────────────────────────────────────────────────

fn digests(data: &[u8]) -> Vec<u8> {
    data.chunks(PIECE_LEN)
        .flat_map(|chunk| {
            let mut h = sha1_smol::Sha1::new();
            h.update(chunk);
            h.digest().bytes()
        })
        .collect()
}

#[test]
fn hash_and_seed_streams_correctly() {
    let mut data = vec![0u8; PIECE_LEN * 2 + 12345];
    for (i, b) in data.iter_mut().enumerate() {
        *b = (i % 251) as u8;
    }
    let mut hasher = PieceHasher::new();
    for part in data.chunks(100_000) {
        hasher.update(part);
    }
    let (pieces, total) = hasher.finish();
    assert_eq!(total, data.len() as u64);
    assert_eq!(pieces, digests(&data));
}

#[test]
fn hash_and_seed_files_streams_across_boundaries() {
    let a = vec![b'a'; PIECE_LEN / 2];
    let b = vec![b'b'; PIECE_LEN + 123];
    let c = vec![b'c'; 45];
    let mut hasher = PieceHasher::new();
    hasher.update(&a);
    hasher.update(&b);
    hasher.update(&c);
    let (pieces, total) = hasher.finish();

    let mut concat = Vec::new();
    concat.extend_from_slice(&a);
    concat.extend_from_slice(&b);
    concat.extend_from_slice(&c);
    assert_eq!(total, concat.len() as u64);
    assert_eq!(pieces, digests(&concat));
}

#[test]
fn nothing_has_no_pieces() {
    let (pieces, total) = PieceHasher::new().finish();
    assert!(pieces.is_empty());
    assert_eq!(total, 0);
}

#[test]
fn a_hole_is_a_whole_piece_of_zeroes() {
    let mut chunk = vec![0; PIECE_LEN];
    assert!(is_zero_piece(&chunk));
    assert!(!is_zero_piece(&chunk[1..]));
    chunk[PIECE_LEN - 1] = 1;
    assert!(!is_zero_piece(&chunk));
}

#[test]
fn content_is_named_by_its_digest() {
    assert_eq!(content_hash_of(b"abc"), "a9993e364706816aba3e25717850c26c9cd0d89d");
    assert_eq!(content_hash_of(b""), "da39a3ee5e6b4b0d3255bfef95601890afd80709");
}
