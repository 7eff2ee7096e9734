//! `.torrent` files: reading the file list of one, and making one.
use vstd::prelude::*;

use vstd::utf8;

use crate::bencode;
use crate::bencode::{Bencode, BencodeParser, Term};

verus! {

// ── Reading ─────────────────────────────────────────────────────────────────

/// A file of a torrent: its path, with `/` between the parts, and its size.
pub struct PendingFile {
    pub path: String,
    pub size: u64,
}

impl View for PendingFile {
    type V = (Seq<char>, u64);

    open spec fn view(&self) -> (Seq<char>, u64) {
        (self.path@, self.size)
    }
}

/// Files as paths and sizes.
pub open spec fn files_view(files: Seq<PendingFile>) -> Seq<(Seq<char>, u64)> {
    Seq::new(files.len(), |i: int| files[i]@)
}

/// Parts of a path with `/` between them.
pub open spec fn joined(parts: Seq<Seq<char>>) -> Seq<char>
    decreases parts.len(),
{
    if parts.len() == 0 {
        Seq::empty()
    } else if parts.len() == 1 {
        parts[0]
    } else {
        joined(parts.drop_last()).push('/') + parts.last()
    }
}

/// The parts of a path, if every one of them is text.
pub open spec fn path_parts(l: Seq<Term>) -> Option<Seq<Seq<char>>> {
    if forall|i: int| 0 <= i < l.len() ==> (#[trigger] l[i]).text() is Some {
        Some(Seq::new(l.len(), |i: int| l[i].text()->0))
    } else {
        None
    }
}

/// One entry of a file list: a length and a list of path parts.
pub open spec fn listed_file(entry: Term) -> Option<(Seq<char>, u64)> {
    match (entry.entry_int("length"@), entry.entry_list("path"@)) {
        (Some(length), Some(l)) => match path_parts(l) {
            Some(parts) => Some((joined(parts), length)),
            None => None,
        },
        _ => None,
    }
}

/// A file list, if every entry of it is a file.
pub open spec fn listed_files(l: Seq<Term>) -> Option<Seq<(Seq<char>, u64)>> {
    if forall|i: int| 0 <= i < l.len() ==> listed_file(#[trigger] l[i]) is Some {
        Some(Seq::new(l.len(), |i: int| listed_file(l[i])->0))
    } else {
        None
    }
}

/// The `info` dictionary of a torrent file.
pub open spec fn info_of(data: Seq<u8>) -> Option<Term> {
    match bencode::parsed(data) {
        Some((root, _)) => root.entry("info"@),
        None => None,
    }
}

/// The name in a torrent file.
pub open spec fn torrent_name(data: Seq<u8>) -> Option<Seq<char>> {
    match info_of(data) {
        Some(info) => info.entry_text("name"@),
        None => None,
    }
}

/// The files in an `info` dictionary: those of its `files` list or, without one,
/// a single file of the torrent's own name.
pub open spec fn info_files(info: Term, name: Seq<char>) -> Option<Seq<(Seq<char>, u64)>> {
    match info.entry_list("files"@) {
        Some(l) => listed_files(l),
        None => match info.entry_int("length"@) {
            Some(length) => Some(seq![(name, length)]),
            None => None,
        },
    }
}

/// The name and the files in a torrent file.
pub open spec fn torrent_files(data: Seq<u8>) -> Option<(Seq<char>, Seq<(Seq<char>, u64)>)> {
    match (info_of(data), torrent_name(data)) {
        (Some(info), Some(name)) => match info_files(info, name) {
            Some(files) => Some((name, files)),
            None => None,
        },
        _ => None,
    }
}

/// The name in a torrent file.
pub fn extract_bencode_name(data: &[u8]) -> (r: Option<String>)
    ensures
        crate::text::opt_view(r) == torrent_name(data@),
{
    match BencodeParser::parse(data) {
        Some((root, _)) => match root.get_dict("info") {
            Some(info) => info.get_str("name"),
            None => None,
        },
        None => None,
    }
}

/// Joins the parts of a path, unless one of them is no text.
fn join_path(l: &Vec<Bencode>) -> (r: Option<String>)
    ensures
        crate::text::opt_view(r) == (match path_parts(bencode::terms(l@)) {
            Some(parts) => Some(joined(parts)),
            None => None,
        }),
{
    let ghost all = bencode::terms(l@);
    let mut path: String = "".to_owned();
    let mut i: usize = 0;
    let ghost mut parts: Seq<Seq<char>> = Seq::empty();
    proof {
        reveal_strlit("");
        assert(path@ =~= joined(parts));
    }
    while i < l.len()
        invariant
            i <= l@.len(),
            all == bencode::terms(l@),
            parts.len() == i,
            forall|j: int| 0 <= j < i ==> (#[trigger] all[j]).text() == Some(parts[j]),
            path@ == joined(parts),
        decreases l@.len() - i,
    {
        let part = l[i].as_str();
        match part {
            Some(part) => {
                let ghost old_parts = parts;
                proof {
                    assert(all[i as int].text() == Some(part@));
                    parts = parts.push(part@);
                    assert(parts.drop_last() =~= old_parts);
                }
                if i > 0 {
                    path.push('/');
                }
                crate::text::push_text(&mut path, part.as_str());
                assert(path@ =~= joined(parts)) by {
                    if i == 0 {
                        assert(old_parts =~= Seq::empty());
                    }
                }
            },
            None => {
                assert(all[i as int].text() is None);
                return None;
            },
        }
        i = i + 1;
    }
    assert(path_parts(all)->0 =~= parts);
    Some(path)
}

/// Reads a file list, unless an entry of it is no file.
fn read_file_list(l: &Vec<Bencode>) -> (r: Option<Vec<PendingFile>>)
    ensures
        (match r {
            Some(files) => Some(files_view(files@)),
            None => None,
        }) == listed_files(bencode::terms(l@)),
{
    let ghost all = bencode::terms(l@);
    let mut files: Vec<PendingFile> = Vec::new();
    let mut i: usize = 0;
    while i < l.len()
        invariant
            i <= l@.len(),
            all == bencode::terms(l@),
            files@.len() == i,
            forall|j: int| 0 <= j < i ==> listed_file(#[trigger] all[j]) == Some(files@[j]@),
        decreases l@.len() - i,
    {
        let ghost entry = all[i as int];
        let length: u64 = match l[i].get_int("length") {
            Some(length) => length,
            None => {
                assert(listed_file(entry) is None);
                return None;
            },
        };
        let path = match l[i].get_list("path") {
            Some(parts) => join_path(parts),
            None => {
                assert(listed_file(entry) is None);
                return None;
            },
        };
        match path {
            Some(path) => {
                files.push(PendingFile { path, size: length });
            },
            None => {
                assert(listed_file(entry) is None);
                return None;
            },
        }
        assert(listed_file(all[i as int]) == Some(files@[i as int]@));
        i = i + 1;
    }
    assert(listed_files(all)->0 =~= files_view(files@));
    Some(files)
}

/// The name and the files in a torrent file.
pub fn extract_bencode_files(data: &[u8]) -> (r: Option<(String, Vec<PendingFile>)>)
    ensures
        (match r {
            Some((name, files)) => Some((name@, files_view(files@))),
            None => None,
        }) == torrent_files(data@),
{
    let root = match BencodeParser::parse(data) {
        Some((root, _)) => root,
        None => {
            return None;
        },
    };
    let info = match root.get_dict("info") {
        Some(info) => info,
        None => {
            return None;
        },
    };
    let name = match info.get_str("name") {
        Some(name) => name,
        None => {
            return None;
        },
    };
    match info.get_list("files") {
        Some(l) => match read_file_list(l) {
            Some(files) => Some((name, files)),
            None => None,
        },
        None => match info.get_int("length") {
            Some(length) => {
                let file = PendingFile { path: name.clone(), size: length };
                let mut files: Vec<PendingFile> = Vec::new();
                files.push(file);
                assert(files_view(files@) =~= seq![(name@, length)]);
                Some((name, files))
            },
            None => None,
        },
    }
}

// ── Making ──────────────────────────────────────────────────────────────────

/// Length of a piece of a torrent made here.
pub const PIECE_LEN: usize = 262_144;

/// A key as it is written.
pub open spec fn key_bytes(key: Seq<char>) -> Seq<u8> {
    bencode::str_bytes(utf8::encode_utf8(key))
}

/// The parts of a path as they are written.
pub open spec fn path_bytes(parts: Seq<Seq<u8>>) -> Seq<u8>
    decreases parts.len(),
{
    if parts.len() == 0 {
        Seq::empty()
    } else {
        path_bytes(parts.drop_last()) + bencode::str_bytes(parts.last())
    }
}

/// A file of a payload: the parts of its path and its size. A size is written as
/// a signed number.
pub open spec fn file_bytes(file: (Seq<Seq<u8>>, u64)) -> Seq<u8> {
    seq![100u8] + key_bytes("length"@) + bencode::int_bytes((file.1 as i64) as int) + key_bytes(
        "path"@,
    ) + seq![108u8] + path_bytes(file.0) + seq![101u8] + seq![101u8]
}

/// The files of a payload as they are written.
pub open spec fn file_list_bytes(files: Seq<(Seq<Seq<u8>>, u64)>) -> Seq<u8>
    decreases files.len(),
{
    if files.len() == 0 {
        Seq::empty()
    } else {
        file_list_bytes(files.drop_last()) + file_bytes(files.last())
    }
}

/// How every torrent file starts.
pub open spec fn head_bytes(announce_url: Seq<char>) -> Seq<u8> {
    seq![100u8] + key_bytes("announce"@) + bencode::str_bytes(utf8::encode_utf8(announce_url))
        + key_bytes("info"@) + seq![100u8]
}

/// How every torrent file ends.
pub open spec fn tail_bytes(name: Seq<char>, pieces: Seq<u8>) -> Seq<u8> {
    key_bytes("name"@) + bencode::str_bytes(utf8::encode_utf8(name)) + key_bytes("piece length"@)
        + bencode::int_bytes(PIECE_LEN as int) + key_bytes("pieces"@) + bencode::str_bytes(pieces)
        + seq![101u8] + seq![101u8]
}

/// A torrent file of several files.
pub open spec fn multifile_bytes(
    announce_url: Seq<char>,
    name: Seq<char>,
    files: Seq<(Seq<Seq<u8>>, u64)>,
    pieces: Seq<u8>,
) -> Seq<u8> {
    head_bytes(announce_url) + key_bytes("files"@) + seq![108u8] + file_list_bytes(files)
        + seq![101u8] + tail_bytes(name, pieces)
}

/// A torrent file of one file.
pub open spec fn singlefile_bytes(
    announce_url: Seq<char>,
    name: Seq<char>,
    length: u64,
    pieces: Seq<u8>,
) -> Seq<u8> {
    head_bytes(announce_url) + key_bytes("length"@) + bencode::int_bytes((length as i64) as int)
        + tail_bytes(name, pieces)
}

/// The parts of a path as byte strings.
pub open spec fn parts_view(parts: Seq<Vec<u8>>) -> Seq<Seq<u8>> {
    Seq::new(parts.len(), |i: int| parts[i]@)
}

/// The files of a payload as paths and sizes.
pub open spec fn payload_view(files: Seq<(Vec<Vec<u8>>, u64)>) -> Seq<(Seq<Seq<u8>>, u64)> {
    Seq::new(files.len(), |i: int| (parts_view(files[i].0@), files[i].1))
}

fn push_key(out: &mut Vec<u8>, key: &str)
    ensures
        final(out)@ == old(out)@ + key_bytes(key@),
{
    bencode::push_str(out, key.as_bytes());
}

fn push_byte(out: &mut Vec<u8>, b: u8)
    ensures
        final(out)@ == old(out)@ + seq![b],
{
    let ghost before = out@;
    out.push(b);
    assert(out@ =~= before + seq![b]);
}

fn push_head(out: &mut Vec<u8>, announce_url: &str)
    ensures
        final(out)@ == old(out)@ + head_bytes(announce_url@),
{
    let ghost before = out@;
    push_byte(out, 100);
    push_key(out, "announce");
    push_key(out, announce_url);
    push_key(out, "info");
    push_byte(out, 100);
    assert(out@ =~= before + head_bytes(announce_url@));
}

fn push_tail(out: &mut Vec<u8>, name: &str, pieces: &[u8])
    ensures
        final(out)@ == old(out)@ + tail_bytes(name@, pieces@),
{
    let ghost before = out@;
    push_key(out, "name");
    push_key(out, name);
    push_key(out, "piece length");
    bencode::push_int(out, PIECE_LEN as i64);
    push_key(out, "pieces");
    bencode::push_str(out, pieces);
    push_byte(out, 101);
    push_byte(out, 101);
    assert(out@ =~= before + tail_bytes(name@, pieces@));
}

fn push_file(out: &mut Vec<u8>, parts: &Vec<Vec<u8>>, size: u64)
    ensures
        final(out)@ == old(out)@ + file_bytes((parts_view(parts@), size)),
{
    let ghost before = out@;
    let ghost all = parts_view(parts@);
    push_byte(out, 100);
    push_key(out, "length");
    bencode::push_int(out, size as i64);
    push_key(out, "path");
    push_byte(out, 108);
    let ghost opened = out@;
    let mut i: usize = 0;
    assert(opened + path_bytes(all.take(0)) =~= opened);
    while i < parts.len()
        invariant
            i <= parts@.len(),
            all == parts_view(parts@),
            out@ == opened + path_bytes(all.take(i as int)),
        decreases parts@.len() - i,
    {
        bencode::push_str(out, parts[i].as_slice());
        assert(all.take(i as int + 1).drop_last() =~= all.take(i as int));
        assert(out@ =~= opened + path_bytes(all.take(i as int + 1)));
        i = i + 1;
    }
    assert(all.take(all.len() as int) =~= all);
    push_byte(out, 101);
    push_byte(out, 101);
    assert(out@ =~= before + file_bytes((all, size)));
}

/// Makes a torrent file of several files: where to announce, and an `info`
/// dictionary with the files, the name, the piece length and the digests.
pub fn bencode_multifile_torrent(
    announce_url: &str,
    name: &str,
    files: &[(Vec<Vec<u8>>, u64)],
    pieces: &[u8],
) -> (out: Vec<u8>)
    ensures
        out@ == multifile_bytes(announce_url@, name@, payload_view(files@), pieces@),
{
    let mut out: Vec<u8> = Vec::new();
    let ghost all = payload_view(files@);
    push_head(&mut out, announce_url);
    push_key(&mut out, "files");
    push_byte(&mut out, 108);
    let ghost opened = out@;
    let mut i: usize = 0;
    assert(opened + file_list_bytes(all.take(0)) =~= opened);
    while i < files.len()
        invariant
            i <= files@.len(),
            all == payload_view(files@),
            out@ == opened + file_list_bytes(all.take(i as int)),
        decreases files@.len() - i,
    {
        push_file(&mut out, &files[i].0, files[i].1);
        assert(all.take(i as int + 1).drop_last() =~= all.take(i as int));
        assert(out@ =~= opened + file_list_bytes(all.take(i as int + 1)));
        i = i + 1;
    }
    assert(all.take(all.len() as int) =~= all);
    push_byte(&mut out, 101);
    push_tail(&mut out, name, pieces);
    assert(out@ =~= multifile_bytes(announce_url@, name@, all, pieces@));
    out
}

/// Makes a torrent file of one file.
pub fn bencode_singlefile_torrent(
    announce_url: &str,
    name: &str,
    length: u64,
    pieces: &[u8],
) -> (out: Vec<u8>)
    ensures
        out@ == singlefile_bytes(announce_url@, name@, length, pieces@),
{
    let mut out: Vec<u8> = Vec::new();
    push_head(&mut out, announce_url);
    push_key(&mut out, "length");
    bencode::push_int(&mut out, length as i64);
    push_tail(&mut out, name, pieces);
    assert(out@ =~= singlefile_bytes(announce_url@, name@, length, pieces@));
    out
}

// ── What is made reads back ─────────────────────────────────────────────────

/// The parts of a path as terms.
pub open spec fn part_terms(parts: Seq<Seq<u8>>) -> Seq<Term> {
    Seq::new(parts.len(), |i: int| Term::Str(parts[i]))
}

/// A file of a payload as a term.
pub open spec fn file_term(file: (Seq<Seq<u8>>, u64)) -> Term {
    Term::Dict(
        seq![
            (utf8::encode_utf8("length"@), Term::Int(file.1)),
            (utf8::encode_utf8("path"@), Term::List(part_terms(file.0))),
        ],
    )
}

/// The files of a payload as terms.
pub open spec fn file_terms(files: Seq<(Seq<Seq<u8>>, u64)>) -> Seq<Term> {
    Seq::new(files.len(), |i: int| file_term(files[i]))
}

/// A torrent file as a term; `what` says what the payload is.
pub open spec fn torrent_term(
    announce_url: Seq<char>,
    what: (Seq<u8>, Term),
    name: Seq<char>,
    pieces: Seq<u8>,
) -> Term {
    Term::Dict(
        seq![
            (utf8::encode_utf8("announce"@), Term::Str(utf8::encode_utf8(announce_url))),
            (
                utf8::encode_utf8("info"@),
                Term::Dict(
                    seq![
                        what,
                        (utf8::encode_utf8("name"@), Term::Str(utf8::encode_utf8(name))),
                        (utf8::encode_utf8("piece length"@), Term::Int(PIECE_LEN as u64)),
                        (utf8::encode_utf8("pieces"@), Term::Str(pieces)),
                    ],
                ),
            ),
        ],
    )
}

proof fn lemma_entries_cons(entry: (Seq<u8>, Term), d: Seq<(Seq<u8>, Term)>)
    ensures
        bencode::encoded_entries(seq![entry] + d) == bencode::str_bytes(entry.0)
            + bencode::encoded(entry.1) + bencode::encoded_entries(d),
{
    let all = seq![entry] + d;
    assert(all.subrange(1, all.len() as int) =~= d);
}

proof fn lemma_items_snoc(l: Seq<Term>, t: Term)
    ensures
        bencode::encoded_items(l).len() > 0,
        bencode::encoded_items(l.push(t)) == bencode::encoded_items(l).drop_last()
            + bencode::encoded(t) + seq![101u8],
    decreases l.len(),
{
    let all = l.push(t);
    if l.len() == 0 {
        assert(all.subrange(1, 1) =~= Seq::empty());
        assert(bencode::encoded_items(all.subrange(1, 1)) == seq![101u8]);
        assert(bencode::encoded_items(all) =~= bencode::encoded_items(l).drop_last()
            + bencode::encoded(t) + seq![101u8]);
    } else {
        let others = l.subrange(1, l.len() as int);
        lemma_items_snoc(others, t);
        assert(all.subrange(1, all.len() as int) =~= others.push(t));
        assert(all[0] == l[0]);
        assert(bencode::encoded_items(all) =~= bencode::encoded_items(l).drop_last()
            + bencode::encoded(t) + seq![101u8]);
    }
}

proof fn lemma_path_is_list(parts: Seq<Seq<u8>>)
    ensures
        path_bytes(parts) + seq![101u8] == bencode::encoded_items(part_terms(parts)),
    decreases parts.len(),
{
    if parts.len() == 0 {
        assert(path_bytes(parts) + seq![101u8] =~= seq![101u8]);
    } else {
        let others = parts.drop_last();
        lemma_path_is_list(others);
        lemma_items_snoc(part_terms(others), Term::Str(parts.last()));
        assert(part_terms(parts) =~= part_terms(others).push(Term::Str(parts.last())));
        assert(bencode::encoded_items(part_terms(others)).drop_last() =~= path_bytes(others));
    }
}

proof fn lemma_file_is_dict(file: (Seq<Seq<u8>>, u64))
    requires
        file.1 <= i64::MAX,
    ensures
        file_bytes(file) == bencode::encoded(file_term(file)),
{
    let length = (utf8::encode_utf8("length"@), Term::Int(file.1));
    let path = (utf8::encode_utf8("path"@), Term::List(part_terms(file.0)));
    let none = Seq::<(Seq<u8>, Term)>::empty();
    lemma_path_is_list(file.0);
    lemma_entries_cons(path, none);
    lemma_entries_cons(length, seq![path] + none);
    assert(seq![length, path] =~= seq![length] + (seq![path] + none));
    assert(bencode::encoded(path.1) == seq![108u8] + bencode::encoded_items(part_terms(file.0)));
    assert(file_bytes(file) =~= bencode::encoded(file_term(file)));
}

proof fn lemma_files_are_list(files: Seq<(Seq<Seq<u8>>, u64)>)
    requires
        forall|i: int| 0 <= i < files.len() ==> (#[trigger] files[i]).1 <= i64::MAX,
    ensures
        file_list_bytes(files) + seq![101u8] == bencode::encoded_items(file_terms(files)),
    decreases files.len(),
{
    if files.len() == 0 {
        assert(file_list_bytes(files) + seq![101u8] =~= seq![101u8]);
    } else {
        let others = files.drop_last();
        lemma_files_are_list(others);
        lemma_file_is_dict(files.last());
        lemma_items_snoc(file_terms(others), file_term(files.last()));
        assert(file_terms(files) =~= file_terms(others).push(file_term(files.last())));
        assert(bencode::encoded_items(file_terms(others)).drop_last() =~= file_list_bytes(others));
    }
}

/// Concatenation is associative, for the parts of the inner dictionary.
proof fn lemma_regroup_inner(
    w: Seq<u8>,
    k2: Seq<u8>,
    v2: Seq<u8>,
    k3: Seq<u8>,
    v3: Seq<u8>,
    k4: Seq<u8>,
    v4: Seq<u8>,
    end: Seq<u8>,
)
    ensures
        w + (k2 + v2 + (k3 + v3 + (k4 + v4 + end))) == w + (k2 + v2 + k3 + v3 + k4 + v4 + end),
{
    assert(k3 + v3 + (k4 + v4 + end) =~= k3 + v3 + k4 + v4 + end);
    assert(k2 + v2 + (k3 + v3 + k4 + v4 + end) =~= k2 + v2 + k3 + v3 + k4 + v4 + end);
}

/// Concatenation is associative, for the parts of the outer dictionary.
proof fn lemma_regroup_outer(
    open: Seq<u8>,
    k: Seq<u8>,
    v: Seq<u8>,
    i: Seq<u8>,
    w: Seq<u8>,
    x: Seq<u8>,
    rest: Seq<u8>,
    end: Seq<u8>,
)
    ensures
        open + (k + v + (i + (open + (w + x + rest)) + end)) == (open + k + v + i + open) + w + x + (
        rest + end),
{
    assert(i + (open + (w + x + rest)) + end =~= i + open + w + x + (rest + end));
    assert(k + v + (i + open + w + x + (rest + end)) =~= k + v + i + open + w + x + (rest + end));
    assert(open + (k + v + i + open + w + x + (rest + end)) =~= (open + k + v + i + open) + w + x + (
    rest + end));
}

proof fn lemma_torrent_is_dict(
    announce_url: Seq<char>,
    what: (Seq<u8>, Term),
    name: Seq<char>,
    pieces: Seq<u8>,
)
    ensures
        bencode::encoded(torrent_term(announce_url, what, name, pieces)) == head_bytes(announce_url)
            + bencode::str_bytes(what.0) + bencode::encoded(what.1) + tail_bytes(name, pieces),
{
    let none = Seq::<(Seq<u8>, Term)>::empty();
    let e2 = (utf8::encode_utf8("name"@), Term::Str(utf8::encode_utf8(name)));
    let e3 = (utf8::encode_utf8("piece length"@), Term::Int(PIECE_LEN as u64));
    let e4 = (utf8::encode_utf8("pieces"@), Term::Str(pieces));
    lemma_entries_cons(e4, none);
    lemma_entries_cons(e3, seq![e4] + none);
    lemma_entries_cons(e2, seq![e3] + (seq![e4] + none));
    lemma_entries_cons(what, seq![e2] + (seq![e3] + (seq![e4] + none)));
    let inner = seq![what, e2, e3, e4];
    assert(inner =~= seq![what] + (seq![e2] + (seq![e3] + (seq![e4] + none))));
    let a = (utf8::encode_utf8("announce"@), Term::Str(utf8::encode_utf8(announce_url)));
    let b = (utf8::encode_utf8("info"@), Term::Dict(inner));
    lemma_entries_cons(b, none);
    lemma_entries_cons(a, seq![b] + none);
    assert(seq![a, b] =~= seq![a] + (seq![b] + none));
    assert(bencode::encoded(b.1) == seq![100u8] + bencode::encoded_entries(inner));
    let t = torrent_term(announce_url, what, name, pieces);
    assert(t == Term::Dict(seq![a, b]));
    let end = seq![101u8];
    let open = seq![100u8];
    let w = bencode::str_bytes(what.0);
    let x = bencode::encoded(what.1);
    let k2 = key_bytes("name"@);
    let v2 = bencode::str_bytes(utf8::encode_utf8(name));
    let k3 = key_bytes("piece length"@);
    let v3 = bencode::int_bytes(PIECE_LEN as int);
    let k4 = key_bytes("pieces"@);
    let v4 = bencode::str_bytes(pieces);
    lemma_regroup_inner(w + x, k2, v2, k3, v3, k4, v4, end);
    let rest = k2 + v2 + k3 + v3 + k4 + v4 + end;
    assert(bencode::encoded_entries(none) == end);
    assert(bencode::encoded_entries(inner) == w + x + rest);
    lemma_regroup_outer(
        open,
        key_bytes("announce"@),
        bencode::str_bytes(utf8::encode_utf8(announce_url)),
        key_bytes("info"@),
        w,
        x,
        rest,
        end,
    );
    assert(bencode::encoded(t) == open + bencode::encoded_entries(seq![a, b]));
    assert(tail_bytes(name, pieces) == rest + end);
}

/// The keys differ where they have to, and are short.
proof fn lemma_keys()
    ensures
        utf8::encode_utf8("announce"@).len() == 8,
        utf8::encode_utf8("info"@).len() == 4,
        utf8::encode_utf8("files"@).len() == 5,
        utf8::encode_utf8("name"@).len() == 4,
        utf8::encode_utf8("length"@).len() == 6,
        utf8::encode_utf8("path"@).len() == 4,
        utf8::encode_utf8("piece length"@).len() == 12,
        utf8::encode_utf8("pieces"@).len() == 6,
        utf8::encode_utf8("pieces"@) != utf8::encode_utf8("length"@),
{
    reveal_strlit("announce");
    reveal_strlit("info");
    reveal_strlit("files");
    reveal_strlit("name");
    reveal_strlit("length");
    reveal_strlit("path");
    reveal_strlit("piece length");
    reveal_strlit("pieces");
    utf8::is_ascii_chars_encode_utf8("announce"@);
    utf8::is_ascii_chars_encode_utf8("info"@);
    utf8::is_ascii_chars_encode_utf8("files"@);
    utf8::is_ascii_chars_encode_utf8("name"@);
    utf8::is_ascii_chars_encode_utf8("length"@);
    utf8::is_ascii_chars_encode_utf8("path"@);
    utf8::is_ascii_chars_encode_utf8("piece length"@);
    utf8::is_ascii_chars_encode_utf8("pieces"@);
    assert("pieces"@[0] != "length"@[0]);
    utf8::encode_utf8_decode_utf8("pieces"@);
    utf8::encode_utf8_decode_utf8("length"@);
}

/// What a torrent made here is read back as, from its term.
proof fn lemma_made_reads_back(
    announce_url: Seq<char>,
    what: (Seq<u8>, Term),
    name: Seq<char>,
    pieces: Seq<u8>,
    data: Seq<u8>,
)
    requires
        data == bencode::encoded(torrent_term(announce_url, what, name, pieces)),
        utf8::encode_utf8(announce_url).len() <= usize::MAX,
        utf8::encode_utf8(name).len() <= usize::MAX,
        pieces.len() <= usize::MAX,
        bencode::fits(what.1),
        what.0 == utf8::encode_utf8("files"@) || what.0 == utf8::encode_utf8("length"@),
    ensures
        torrent_name(data) == Some(name),
        info_of(data) matches Some(info) ==> info.entry("files"@) == (if what.0
            == utf8::encode_utf8("files"@) {
            Some(what.1)
        } else {
            None
        }) && (what.0 == utf8::encode_utf8("length"@) ==> info.entry("length"@) == Some(what.1)),
        info_of(data) is Some,
{
    let t = torrent_term(announce_url, what, name, pieces);
    lemma_keys();
    let a = (utf8::encode_utf8("announce"@), Term::Str(utf8::encode_utf8(announce_url)));
    let e2 = (utf8::encode_utf8("name"@), Term::Str(utf8::encode_utf8(name)));
    let e3 = (utf8::encode_utf8("piece length"@), Term::Int(PIECE_LEN as u64));
    let e4 = (utf8::encode_utf8("pieces"@), Term::Str(pieces));
    let inner = seq![what, e2, e3, e4];
    let info = Term::Dict(inner);
    let b = (utf8::encode_utf8("info"@), info);
    let outer = seq![a, b];
    assert(bencode::fits(e2.1) && bencode::fits(e3.1) && bencode::fits(e4.1));
    assert(bencode::fits(info)) by {
        assert forall|i: int| 0 <= i < inner.len() implies (#[trigger] inner[i]).0.len()
            <= usize::MAX && bencode::fits(inner[i].1) by {}
    }
    assert(bencode::fits(a.1));
    assert(bencode::fits(t)) by {
        assert forall|i: int| 0 <= i < outer.len() implies (#[trigger] outer[i]).0.len()
            <= usize::MAX && bencode::fits(outer[i].1) by {}
    }
    bencode::law_written_reads_back(t, Seq::empty());
    assert(data + Seq::<u8>::empty() =~= data);
    reveal_with_fuel(bencode::entry_of, 6);
    assert(outer.skip(1)[0] == b);
    assert(info_of(data) == Some(info));
    assert(inner.skip(1)[0] == e2);
    assert(inner.skip(1).skip(1)[0] == e3);
    assert(inner.skip(1).skip(1).skip(1)[0] == e4);
    assert(inner.skip(1).skip(1).skip(1).skip(1).len() == 0);
    utf8::encode_utf8_decode_utf8(name);
    utf8::encode_utf8_valid_utf8(name);
}

/// The files of a payload as a reader of the torrent sees them.
pub open spec fn seen_files(files: Seq<(Seq<Seq<u8>>, u64)>) -> Seq<(Seq<char>, u64)> {
    Seq::new(
        files.len(),
        |i: int|
            (
                joined(Seq::new(files[i].0.len(), |j: int| utf8::decode_utf8(files[i].0[j]))),
                files[i].1,
            ),
    )
}

/// A torrent made of several files reads back with its name and with every file
/// under its path and its size, provided that the path parts are text.
pub proof fn law_multifile_torrent_reads_back(
    announce_url: Seq<char>,
    name: Seq<char>,
    files: Seq<(Seq<Seq<u8>>, u64)>,
    pieces: Seq<u8>,
)
    requires
        utf8::encode_utf8(announce_url).len() <= usize::MAX,
        utf8::encode_utf8(name).len() <= usize::MAX,
        pieces.len() <= usize::MAX,
        forall|i: int| 0 <= i < files.len() ==> (#[trigger] files[i]).1 <= i64::MAX,
        forall|i: int, j: int|
            0 <= i < files.len() && 0 <= j < files[i].0.len() ==> (#[trigger] files[i].0[j]).len()
                <= usize::MAX && utf8::valid_utf8(files[i].0[j]),
    ensures
        torrent_files(multifile_bytes(announce_url, name, files, pieces)) == Some(
            (name, seen_files(files)),
        ),
{
    let data = multifile_bytes(announce_url, name, files, pieces);
    let l = file_terms(files);
    let what = (utf8::encode_utf8("files"@), Term::List(l));
    lemma_keys();
    lemma_files_are_list(files);
    lemma_torrent_is_dict(announce_url, what, name, pieces);
    assert(bencode::encoded(what.1) == seq![108u8] + bencode::encoded_items(l));
    assert(data =~= bencode::encoded(torrent_term(announce_url, what, name, pieces)));
    reveal_with_fuel(bencode::entry_of, 3);
    assert forall|i: int| 0 <= i < l.len() implies bencode::fits(#[trigger] l[i]) && listed_file(
        l[i],
    ) == Some(seen_files(files)[i]) by {
        let file = files[i];
        let parts = part_terms(file.0);
        let e1 = (utf8::encode_utf8("length"@), Term::Int(file.1));
        let e2 = (utf8::encode_utf8("path"@), Term::List(parts));
        let d = seq![e1, e2];
        assert(l[i] == Term::Dict(d));
        assert forall|j: int| 0 <= j < parts.len() implies bencode::fits(#[trigger] parts[j])
            && parts[j].text() == Some(utf8::decode_utf8(file.0[j])) by {
            assert(files[i].0[j].len() <= usize::MAX);
        }
        assert(bencode::fits(e1.1));
        assert(bencode::fits(e2.1));
        assert forall|j: int| 0 <= j < d.len() implies (#[trigger] d[j]).0.len() <= usize::MAX
            && bencode::fits(d[j].1) by {}
        assert(d.skip(1)[0] == e2);
        assert(l[i].entry_int("length"@) == Some(file.1));
        assert(l[i].entry_list("path"@) == Some(parts));
        let texts = Seq::new(file.0.len(), |j: int| utf8::decode_utf8(files[i].0[j]));
        assert(path_parts(parts) is Some);
        assert(path_parts(parts)->0 =~= texts);
    }
    assert(bencode::fits(what.1));
    lemma_made_reads_back(announce_url, what, name, pieces, data);
    assert(listed_files(l) is Some);
    assert(listed_files(l)->0 =~= seen_files(files));
}

/// A torrent made of one file reads back with its name and as one file of that
/// name and the given size.
pub proof fn law_singlefile_torrent_reads_back(
    announce_url: Seq<char>,
    name: Seq<char>,
    length: u64,
    pieces: Seq<u8>,
)
    requires
        utf8::encode_utf8(announce_url).len() <= usize::MAX,
        utf8::encode_utf8(name).len() <= usize::MAX,
        pieces.len() <= usize::MAX,
        length <= i64::MAX,
    ensures
        torrent_files(singlefile_bytes(announce_url, name, length, pieces)) == Some(
            (name, seq![(name, length)]),
        ),
{
    let data = singlefile_bytes(announce_url, name, length, pieces);
    let what = (utf8::encode_utf8("length"@), Term::Int(length));
    lemma_keys();
    lemma_torrent_is_dict(announce_url, what, name, pieces);
    assert(data =~= bencode::encoded(torrent_term(announce_url, what, name, pieces)));
    lemma_made_reads_back(announce_url, what, name, pieces, data);
}

/// The parts of a path have one slash between each two of them.
pub proof fn law_path_parts_are_joined(parts: Seq<Seq<char>>, part: Seq<char>)
    ensures
        joined(Seq::empty()) == Seq::<char>::empty(),
        joined(seq![part]) == part,
        parts.len() > 0 ==> joined(parts.push(part)) == joined(parts) + seq!['/'] + part,
{
    if parts.len() > 0 {
        assert(parts.push(part).drop_last() =~= parts);
        assert(joined(parts).push('/') + part =~= joined(parts) + seq!['/'] + part);
    }
}

/// A file list with an entry that is no file is no file list: an entry needs a number
/// under `length` and a list of texts under `path`.
pub proof fn law_every_entry_is_a_file(l: Seq<Term>, i: int)
    requires
        0 <= i < l.len(),
    ensures
        l[i].entry_int("length"@) is None ==> listed_files(l) is None,
        l[i].entry_list("path"@) is None ==> listed_files(l) is None,
        listed_files(l) matches Some(files) ==> files.len() == l.len() && l[i].entry_int(
            "length"@,
        ) == Some(files[i].1),
{
    if listed_files(l) is Some {
        assert(listed_file(l[i]) is Some);
    } else {
    }
    if l[i].entry_int("length"@) is None || l[i].entry_list("path"@) is None {
        assert(listed_file(l[i]) is None);
    }
}

/// A torrent whose `info` has a file list has those files, whatever else it has;
/// without one it is one file of its own name, of the length that it gives.
pub proof fn law_files_of_a_torrent(info: Term, name: Seq<char>)
    ensures
        info.entry_list("files"@) matches Some(l) ==> info_files(info, name) == listed_files(l),
        info.entry_list("files"@) is None ==> (match info.entry_int("length"@) {
            Some(n) => info_files(info, name) == Some(seq![(name, n)]),
            None => info_files(info, name) is None,
        }),
{
}

/// A torrent made here says where to announce, and gives its digests and the length of
/// its pieces: a quarter of a mebibyte.
pub proof fn law_made_torrent_gives_its_pieces(
    announce_url: Seq<char>,
    name: Seq<char>,
    length: u64,
    pieces: Seq<u8>,
)
    requires
        utf8::encode_utf8(announce_url).len() <= usize::MAX,
        utf8::encode_utf8(name).len() <= usize::MAX,
        pieces.len() <= usize::MAX,
        length <= i64::MAX,
    ensures
        match bencode::parsed(singlefile_bytes(announce_url, name, length, pieces)) {
            Some((root, n)) => {
                &&& n == singlefile_bytes(announce_url, name, length, pieces).len()
                &&& root.entry_text("announce"@) == Some(announce_url)
                &&& root.entry("info"@) matches Some(info) && info.entry_text("name"@) == Some(name)
                    && info.entry_int("length"@) == Some(length) && info.entry_int("piece length"@)
                    == Some(262_144u64) && info.entry("pieces"@) == Some(Term::Str(pieces))
            },
            None => false,
        },
{
    let data = singlefile_bytes(announce_url, name, length, pieces);
    let what = (utf8::encode_utf8("length"@), Term::Int(length));
    lemma_keys();
    lemma_torrent_is_dict(announce_url, what, name, pieces);
    assert(data =~= bencode::encoded(torrent_term(announce_url, what, name, pieces)));
    let a = (utf8::encode_utf8("announce"@), Term::Str(utf8::encode_utf8(announce_url)));
    let e2 = (utf8::encode_utf8("name"@), Term::Str(utf8::encode_utf8(name)));
    let e3 = (utf8::encode_utf8("piece length"@), Term::Int(PIECE_LEN as u64));
    let e4 = (utf8::encode_utf8("pieces"@), Term::Str(pieces));
    let inner = seq![what, e2, e3, e4];
    let info = Term::Dict(inner);
    let b = (utf8::encode_utf8("info"@), info);
    let outer = seq![a, b];
    let t = torrent_term(announce_url, what, name, pieces);
    assert(bencode::fits(e2.1) && bencode::fits(e3.1) && bencode::fits(e4.1) && bencode::fits(
        what.1,
    ));
    assert(bencode::fits(info)) by {
        assert forall|i: int| 0 <= i < inner.len() implies (#[trigger] inner[i]).0.len()
            <= usize::MAX && bencode::fits(inner[i].1) by {}
    }
    assert(bencode::fits(t)) by {
        assert forall|i: int| 0 <= i < outer.len() implies (#[trigger] outer[i]).0.len()
            <= usize::MAX && bencode::fits(outer[i].1) by {}
    }
    bencode::law_written_reads_back(t, Seq::empty());
    assert(data + Seq::<u8>::empty() =~= data);
    reveal_with_fuel(bencode::entry_of, 6);
    assert(outer.skip(1)[0] == b);
    assert(inner.skip(1)[0] == e2);
    assert(inner.skip(1).skip(1)[0] == e3);
    assert(inner.skip(1).skip(1).skip(1)[0] == e4);
    utf8::encode_utf8_decode_utf8(name);
    utf8::encode_utf8_valid_utf8(name);
    utf8::encode_utf8_decode_utf8(announce_url);
    utf8::encode_utf8_valid_utf8(announce_url);
}

/// The plain values of files are those of their fields, in order.
pub proof fn law_file_is_its_fields(
    f: PendingFile,
    files: Seq<PendingFile>,
    payload: Seq<(Vec<Vec<u8>>, u64)>,
    i: int,
    k: int,
)
    requires
        0 <= i < files.len(),
        0 <= i < payload.len(),
        0 <= k < payload[i].0@.len(),
    ensures
        f@.0 == f.path@,
        f@.1 == f.size,
        files_view(files).len() == files.len(),
        files_view(files)[i] == (files[i].path@, files[i].size),
        payload_view(payload).len() == payload.len(),
        payload_view(payload)[i].1 == payload[i].1,
        payload_view(payload)[i].0.len() == payload[i].0@.len(),
        payload_view(payload)[i].0[k] == payload[i].0@[k]@,
{
}

} // verus!
