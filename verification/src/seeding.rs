//! The local seeder: its arguments, and when it is ready and announces.
use vstd::prelude::*;

use crate::bytes;
use crate::read_wait::TorrentState;
use crate::text;
use crate::tracker::ANNOUNCE_INTERVAL;

verus! {

/// What a seeder is told.
pub struct SeedArgs {
    /// The file, or the directory, to seed.
    pub payload: String,
    /// The address that the tracker listens on.
    pub tracker_bind: String,
    /// The port that the tracker listens on; zero for any.
    pub tracker_port: u16,
    /// The host in the announce address.
    pub announce_host: String,
    pub torrent_out: String,
    pub url_out: String,
}

/// What a seeder is told, as plain values.
#[verifier::ext_equal]
pub struct SeedArgsView {
    pub payload: Seq<char>,
    pub tracker_bind: Seq<char>,
    pub tracker_port: u16,
    pub announce_host: Seq<char>,
    pub torrent_out: Seq<char>,
    pub url_out: Seq<char>,
}

impl View for SeedArgs {
    type V = SeedArgsView;

    open spec fn view(&self) -> SeedArgsView {
        SeedArgsView {
            payload: self.payload@,
            tracker_bind: self.tracker_bind@,
            tracker_port: self.tracker_port,
            announce_host: self.announce_host@,
            torrent_out: self.torrent_out@,
            url_out: self.url_out@,
        }
    }
}

/// What is wrong with arguments.
#[derive(Debug)]
pub enum ArgsError {
    /// No such flag.
    Unknown(String),
    /// A flag without a value.
    MissingValue(String),
    /// No port number.
    BadPort,
}

/// What is wrong with arguments, as plain values.
pub enum ArgsFault {
    Unknown(Seq<char>),
    MissingValue(Seq<char>),
    BadPort,
}

impl View for ArgsError {
    type V = ArgsFault;

    open spec fn view(&self) -> ArgsFault {
        match self {
            ArgsError::Unknown(s) => ArgsFault::Unknown(s@),
            ArgsError::MissingValue(s) => ArgsFault::MissingValue(s@),
            ArgsError::BadPort => ArgsFault::BadPort,
        }
    }
}

/// Whether an argument is a flag.
pub open spec fn is_flag(arg: Seq<char>, payload_flag: Seq<char>) -> bool {
    arg == payload_flag || arg == "--tracker-port"@ || arg == "--tracker-bind"@ || arg
        == "--announce-host"@ || arg == "--torrent-out"@ || arg == "--url-out"@
}

/// The port that a text stands for.
pub open spec fn port_of(s: Seq<char>) -> Option<u16> {
    match bytes::unsigned_value(vstd::utf8::encode_utf8(s), u16::MAX as nat) {
        Some(n) => Some(n as u16),
        None => None,
    }
}

/// Arguments with one flag set to a value.
pub open spec fn with_flag(
    args: SeedArgsView,
    payload_flag: Seq<char>,
    flag: Seq<char>,
    value: Seq<char>,
) -> Result<SeedArgsView, ArgsFault> {
    if flag == payload_flag {
        Ok(SeedArgsView { payload: value, ..args })
    } else if flag == "--tracker-port"@ {
        match port_of(value) {
            Some(port) => Ok(SeedArgsView { tracker_port: port, ..args }),
            None => Err(ArgsFault::BadPort),
        }
    } else if flag == "--tracker-bind"@ {
        Ok(SeedArgsView { tracker_bind: value, ..args })
    } else if flag == "--announce-host"@ {
        Ok(SeedArgsView { announce_host: value, ..args })
    } else if flag == "--torrent-out"@ {
        Ok(SeedArgsView { torrent_out: value, ..args })
    } else {
        Ok(SeedArgsView { url_out: value, ..args })
    }
}

/// Arguments with the flags of a command line set, in order.
pub open spec fn with_flags(
    args: SeedArgsView,
    payload_flag: Seq<char>,
    argv: Seq<Seq<char>>,
) -> Result<SeedArgsView, ArgsFault>
    decreases argv.len(),
{
    if argv.len() == 0 {
        Ok(args)
    } else if !is_flag(argv[0], payload_flag) {
        Err(ArgsFault::Unknown(argv[0]))
    } else if argv.len() == 1 {
        Err(ArgsFault::MissingValue(argv[0]))
    } else {
        match with_flag(args, payload_flag, argv[0], argv[1]) {
            Ok(next) => with_flags(next, payload_flag, argv.skip(2)),
            Err(e) => Err(e),
        }
    }
}

/// Reads a command line over what holds without one. `payload_flag` names what is
/// seeded.
pub fn parse_args(defaults: SeedArgs, payload_flag: &str, argv: &Vec<String>) -> (r: Result<
    SeedArgs,
    ArgsError,
>)
    ensures
        (match r {
            Ok(args) => Ok(args@),
            Err(e) => Err(e@),
        }) == with_flags(defaults@, payload_flag@, text::texts(argv@)),
{
    let ghost all = text::texts(argv@);
    let ghost start = defaults@;
    let mut args = defaults;
    let mut i: usize = 0;
    assert(all.skip(0) =~= all);
    while i < argv.len()
        invariant
            i <= argv@.len(),
            start == defaults@,
            all == text::texts(argv@),
            with_flags(start, payload_flag@, all) == with_flags(
                args@,
                payload_flag@,
                all.skip(i as int),
            ),
        decreases argv@.len() - i,
    {
        let ghost rest = all.skip(i as int);
        let flag = argv[i].as_str();
        assert(rest[0] == flag@);
        let known = text::same(flag, payload_flag) || text::same(flag, "--tracker-port")
            || text::same(flag, "--tracker-bind") || text::same(flag, "--announce-host")
            || text::same(flag, "--torrent-out") || text::same(flag, "--url-out");
        if !known {
            return Err(ArgsError::Unknown(flag.to_owned()));
        }
        if argv.len() - i < 2 {
            return Err(ArgsError::MissingValue(flag.to_owned()));
        }
        let value: String = argv[i + 1].clone();
        assert(rest[1] == value@);
        assert(rest.skip(2) =~= all.skip(i as int + 2));
        let ghost before = args@;
        if text::same(flag, payload_flag) {
            args.payload = value;
            assert(args@ =~= (SeedArgsView { payload: rest[1], ..before }));
        } else if text::same(flag, "--tracker-port") {
            let digits = value.as_str().as_bytes();
            assert(digits@.subrange(0, digits@.len() as int) =~= digits@);
            match bytes::parse_unsigned(digits, 0, digits.len(), u16::MAX as u64) {
                Some(n) => {
                    args.tracker_port = n as u16;
                },
                None => {
                    return Err(ArgsError::BadPort);
                },
            }
            assert(args@ =~= (SeedArgsView { tracker_port: port_of(rest[1])->0, ..before }));
        } else if text::same(flag, "--tracker-bind") {
            args.tracker_bind = value;
            assert(args@ =~= (SeedArgsView { tracker_bind: rest[1], ..before }));
        } else if text::same(flag, "--announce-host") {
            args.announce_host = value;
            assert(args@ =~= (SeedArgsView { announce_host: rest[1], ..before }));
        } else if text::same(flag, "--torrent-out") {
            args.torrent_out = value;
            assert(args@ =~= (SeedArgsView { torrent_out: rest[1], ..before }));
        } else {
            args.url_out = value;
            assert(args@ =~= (SeedArgsView { url_out: rest[1], ..before }));
        }
        i = i + 2;
    }
    assert(all.skip(i as int) =~= Seq::empty());
    Ok(args)
}

/// The address that clients announce to.
pub fn announce_url(host: &str, port: u16) -> (url: String)
    ensures
        url@ == "http://"@ + host@ + ":"@ + text::dec(port as nat) + "/announce"@,
{
    let mut url: String = "http://".to_owned();
    text::push_text(&mut url, host);
    text::push_text(&mut url, ":");
    text::push_dec(&mut url, port as u64);
    text::push_text(&mut url, "/announce");
    url
}

// ── Getting ready ───────────────────────────────────────────────────────────

/// Whether every torrent serves.
pub open spec fn all_serve(states: Seq<TorrentState>) -> bool {
    forall|i: int|
        0 <= i < states.len() ==> (#[trigger] states[i]) == TorrentState::Seeding || states[i]
            == TorrentState::Finished
}

/// Whether every torrent serves.
pub fn all_serving(states: &Vec<TorrentState>) -> (yes: bool)
    ensures
        yes == all_serve(states@),
{
    let mut i: usize = 0;
    while i < states.len()
        invariant
            i <= states@.len(),
            forall|j: int|
                0 <= j < i ==> (#[trigger] states@[j]) == TorrentState::Seeding || states@[j]
                    == TorrentState::Finished,
        decreases states@.len() - i,
    {
        if states[i] != TorrentState::Seeding && states[i] != TorrentState::Finished {
            return false;
        }
        i = i + 1;
    }
    true
}

/// What a seeder does while it gets ready.
#[derive(Debug, Clone, Copy, PartialEq, Eq, Structural)]
pub enum Warmup {
    /// It was asked to stop.
    Stop,
    /// Everything serves.
    Ready,
    /// Not everything serves, and it goes on all the same.
    GiveUp,
    /// Look again later.
    Wait,
}

/// What a seeder does next while it gets ready. A request to stop comes first.
pub fn warmup_step(stopping: bool, states: &Vec<TorrentState>, now: u64, deadline: u64) -> (step:
    Warmup)
    ensures
        step == (if stopping {
            Warmup::Stop
        } else if all_serve(states@) {
            Warmup::Ready
        } else if now > deadline {
            Warmup::GiveUp
        } else {
            Warmup::Wait
        }),
{
    if stopping {
        Warmup::Stop
    } else if all_serving(states) {
        Warmup::Ready
    } else if now > deadline {
        Warmup::GiveUp
    } else {
        Warmup::Wait
    }
}

/// How often a seeder looks for a request to stop between two announces, at one
/// look every half second.
pub fn looks_per_announce() -> (n: u64)
    ensures
        n == (ANNOUNCE_INTERVAL * 1000 + 499) / 500,
        n > 0,
{
    (ANNOUNCE_INTERVAL * 1000 + 499) / 500
}

/// The number of pieces that digests are of.
pub fn piece_count(digests: &[u8]) -> (n: usize)
    ensures
        n == digests@.len() / 20,
{
    digests.len() / 20
}

// ── Laws ────────────────────────────────────────────────────────────────────

/// Each flag sets its own value and leaves the others as they were.
pub proof fn law_each_flag_sets_its_value(
    args: SeedArgsView,
    payload_flag: Seq<char>,
    value: Seq<char>,
)
    requires
        payload_flag != "--tracker-port"@,
        payload_flag != "--tracker-bind"@,
        payload_flag != "--announce-host"@,
        payload_flag != "--torrent-out"@,
        payload_flag != "--url-out"@,
    ensures
        with_flag(args, payload_flag, payload_flag, value) == Ok::<SeedArgsView, ArgsFault>(
            SeedArgsView { payload: value, ..args },
        ),
        with_flag(args, payload_flag, "--tracker-bind"@, value) == Ok::<SeedArgsView, ArgsFault>(
            SeedArgsView { tracker_bind: value, ..args },
        ),
        with_flag(args, payload_flag, "--announce-host"@, value) == Ok::<SeedArgsView, ArgsFault>(
            SeedArgsView { announce_host: value, ..args },
        ),
        with_flag(args, payload_flag, "--torrent-out"@, value) == Ok::<SeedArgsView, ArgsFault>(
            SeedArgsView { torrent_out: value, ..args },
        ),
        with_flag(args, payload_flag, "--url-out"@, value) == Ok::<SeedArgsView, ArgsFault>(
            SeedArgsView { url_out: value, ..args },
        ),
{
    reveal_strlit("--tracker-port");
    reveal_strlit("--tracker-bind");
    reveal_strlit("--announce-host");
    reveal_strlit("--torrent-out");
    reveal_strlit("--url-out");
    assert("--tracker-port"@[10] != "--tracker-bind"@[10]);
    assert("--announce-host"@[2] != "--tracker-port"@[2]);
    assert("--announce-host"@[2] != "--tracker-bind"@[2]);
    assert("--torrent-out"@[3] != "--tracker-port"@[3]);
    assert("--torrent-out"@[3] != "--tracker-bind"@[3]);
    assert("--torrent-out"@[2] != "--announce-host"@[2]);
    assert("--url-out"@[2] != "--tracker-port"@[2]);
    assert("--url-out"@[2] != "--tracker-bind"@[2]);
    assert("--url-out"@[2] != "--announce-host"@[2]);
    assert("--url-out"@[2] != "--torrent-out"@[2]);
}

/// A port is a decimal number of up to sixteen bits; anything else is refused.
pub proof fn law_port_is_a_number(
    args: SeedArgsView,
    payload_flag: Seq<char>,
    value: Seq<char>,
    port: u16,
)
    requires
        payload_flag != "--tracker-port"@,
    ensures
        vstd::utf8::encode_utf8(value) == bytes::dec_bytes(port as nat) ==> with_flag(
            args,
            payload_flag,
            "--tracker-port"@,
            value,
        ) == Ok::<SeedArgsView, ArgsFault>(SeedArgsView { tracker_port: port, ..args }),
        vstd::utf8::encode_utf8(value).len() == 0 ==> with_flag(
            args,
            payload_flag,
            "--tracker-port"@,
            value,
        ) == Err::<SeedArgsView, ArgsFault>(ArgsFault::BadPort),
{
    bytes::law_decimal_reads_back(port as nat);
}

/// A command line is read in pairs of a flag and its value: what is no flag and a flag
/// without a value are refused by name, and an empty one changes nothing.
pub proof fn law_command_line_is_read_in_pairs(
    args: SeedArgsView,
    next: SeedArgsView,
    payload_flag: Seq<char>,
    flag: Seq<char>,
    value: Seq<char>,
    rest: Seq<Seq<char>>,
)
    ensures
        with_flags(args, payload_flag, Seq::empty()) == Ok::<SeedArgsView, ArgsFault>(args),
        flag != payload_flag && flag != "--tracker-port"@ && flag != "--tracker-bind"@ && flag
            != "--announce-host"@ && flag != "--torrent-out"@ && flag != "--url-out"@
            ==> with_flags(args, payload_flag, seq![flag] + rest) == Err::<SeedArgsView, ArgsFault>(
            ArgsFault::Unknown(flag),
        ),
        with_flags(args, payload_flag, seq![payload_flag]) == Err::<SeedArgsView, ArgsFault>(
            ArgsFault::MissingValue(payload_flag),
        ),
        with_flags(args, payload_flag, seq![payload_flag, value] + rest) == with_flags(
            SeedArgsView { payload: value, ..args },
            payload_flag,
            rest,
        ),
{
    assert((seq![flag] + rest)[0] == flag);
    let argv = seq![payload_flag, value] + rest;
    assert(argv[0] == payload_flag && argv[1] == value);
    assert(argv.skip(2) =~= rest);
}

/// A seeder is ready when each of its torrents is seeding or finished.
pub proof fn law_when_a_seeder_is_ready(states: Seq<TorrentState>, i: int)
    requires
        0 <= i < states.len(),
    ensures
        states[i] != TorrentState::Seeding && states[i] != TorrentState::Finished ==> !all_serve(
            states,
        ),
        (forall|j: int|
            0 <= j < states.len() ==> (#[trigger] states[j]) is Seeding || states[j] is Finished)
            ==> all_serve(states),
{
}

/// The plain values of arguments are those of their fields.
pub proof fn law_arguments_are_their_fields(a: SeedArgs, text: String)
    ensures
        a@.payload == a.payload@,
        a@.tracker_bind == a.tracker_bind@,
        a@.tracker_port == a.tracker_port,
        a@.announce_host == a.announce_host@,
        a@.torrent_out == a.torrent_out@,
        a@.url_out == a.url_out@,
        ArgsError::Unknown(text)@ == ArgsFault::Unknown(text@),
        ArgsError::MissingValue(text)@ == ArgsFault::MissingValue(text@),
        ArgsError::BadPort@ == ArgsFault::BadPort,
{
}

} // verus!
