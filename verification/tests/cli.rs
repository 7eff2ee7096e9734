use torrentfs::cli::{
    allows_other, in_fuse_group, members_of_fuse, mount_failure_message, parse_rust_log,
    resolve_log_level, settings_allow_other, should_attempt_direct_unmount, unmount_methods,
    wait_bounded_step, JoinOutcome, Level, LogLevelArg, UnmountMethod,
};
use torrentfs::read_wait::TorrentState;
use torrentfs::seeding::{
    announce_url, looks_per_announce, parse_args, piece_count, warmup_step, ArgsError, SeedArgs,
    Warmup,
};

#[test]
fn should_attempt_direct_unmount_only_for_root() {
    assert!(should_attempt_direct_unmount(0));
    assert!(!should_attempt_direct_unmount(1000));
    assert!(!should_attempt_direct_unmount(u32::MAX));
}

/// Waits as the program does, on a clock that moves by one poll per look.
fn wait_bounded(finished: bool, timeout: u64, poll: u64) -> JoinOutcome {
    let mut now = 0;
    loop {
        if let Some(outcome) = wait_bounded_step(finished, now, timeout) {
            return outcome;
        }
        now += poll;
    }
}

#[test]
fn wait_bounded_returns_finished_when_thread_exits() {
    assert_eq!(wait_bounded(true, 5_000, 1), JoinOutcome::Finished);
}

#[test]
fn wait_bounded_returns_timed_out_when_thread_never_exits() {
    assert_eq!(wait_bounded(false, 10, 1), JoinOutcome::TimedOut);
}

#[test]
fn parse_rust_log_recognizes_known_levels_case_insensitively() {
    assert_eq!(parse_rust_log("debug"), Some(Level::Debug));
    assert_eq!(parse_rust_log("DEBUG"), Some(Level::Debug));
    assert_eq!(parse_rust_log("trace"), Some(Level::Trace));
    assert_eq!(parse_rust_log("info"), Some(Level::Info));
}

#[test]
fn parse_rust_log_returns_none_for_unknown_level() {
    assert_eq!(parse_rust_log("bogus"), None);
    assert_eq!(parse_rust_log(""), None);
}

#[test]
fn log_level_arg_maps_to_tracing_level() {
    assert_eq!(LogLevelArg::Error.to_tracing(), Level::Error);
    assert_eq!(LogLevelArg::Warn.to_tracing(), Level::Warn);
    assert_eq!(LogLevelArg::Info.to_tracing(), Level::Info);
    assert_eq!(LogLevelArg::Debug.to_tracing(), Level::Debug);
    assert_eq!(LogLevelArg::Trace.to_tracing(), Level::Trace);
}

#[test]
fn the_command_line_wins_over_the_environment() {
    assert_eq!(
        resolve_log_level(Some(LogLevelArg::Warn), Some("trace")),
        Level::Warn
    );
    assert_eq!(resolve_log_level(None, Some("Trace")), Level::Trace);
    assert_eq!(resolve_log_level(None, Some("loud")), Level::Info);
    assert_eq!(resolve_log_level(None, None), Level::Info);
}

fn lines(text: &str) -> Vec<String> {
    text.lines().map(|l| l.to_string()).collect()
}

#[test]
fn the_fuse_settings_are_read_line_by_line() {
    assert!(allows_other(&lines("# x\n  user_allow_other  \n")));
    assert!(!allows_other(&lines("# user_allow_other\nuser_allow_others")));
    assert!(!allows_other(&vec![]));
    // Every kind of white space is cut off, and only that.
    assert!(allows_other(&vec!["\u{a0}\u{3000}\tuser_allow_other\u{2028}\r".to_string()]));
    assert!(!allows_other(&vec!["\u{200b}user_allow_other".to_string()]));
    assert!(settings_allow_other(&lines("user_allow_other")));
    assert!(!settings_allow_other(&lines(" user_allow_other")));
}

#[test]
fn membership_comes_from_the_group_file_or_the_process() {
    let file = lines("root:x:0:\nfuse:x:104:ann, bob\n");
    assert!(in_fuse_group(&file, Some("bob"), &vec![]));
    assert_eq!(
        members_of_fuse(&file[1]),
        Some(vec!["ann".to_string(), " bob".to_string()])
    );
    assert_eq!(members_of_fuse(&file[0]), None);
    assert!(!in_fuse_group(&file, Some("eve"), &vec![]));
    assert!(!in_fuse_group(&lines("fuse:x:bob"), Some("bob"), &vec![]));
    assert!(!in_fuse_group(&file, None, &vec![]));
    assert!(in_fuse_group(&vec![], None, &vec!["users".to_string(), "fuse".to_string()]));
}

#[test]
fn a_refused_mount_names_what_may_be_wrong() {
    assert_eq!(
        mount_failure_message(true, true),
        "Mount failed: Operation not permitted. Possible causes:\n  - running in a container or \
         restricted environment\n  - SELinux/AppArmor restrictions\n  - /dev/fuse device permissions"
    );
    let all = mount_failure_message(false, false);
    assert!(all.contains("'user_allow_other' is not set in /etc/fuse.conf"));
    assert!(all.contains("'fuse' group"));
}

#[test]
fn only_root_detaches_directly() {
    assert_eq!(
        unmount_methods(0),
        vec![
            UnmountMethod::Detach,
            UnmountMethod::Fusermount3,
            UnmountMethod::Fusermount
        ]
    );
    assert_eq!(
        unmount_methods(1000),
        vec![UnmountMethod::Fusermount3, UnmountMethod::Fusermount]
    );
}

// ── The seeder ──────────────────────────────────────────────────────────────

fn defaults() -> SeedArgs {
    SeedArgs {
        payload: "/payload".to_string(),
        tracker_bind: "0.0.0.0".to_string(),
        tracker_port: 0,
        announce_host: "127.0.0.1".to_string(),
        torrent_out: "/out.torrent".to_string(),
        url_out: "/url".to_string(),
    }
}

fn args(line: &str) -> Result<SeedArgs, ArgsError> {
    let argv: Vec<String> = line.split_whitespace().map(|s| s.to_string()).collect();
    parse_args(defaults(), "--payload", &argv)
}

#[test]
fn seeder_arguments_replace_the_defaults() {
    let a = args("--payload /p --tracker-port 6969 --announce-host tracker").unwrap();
    assert_eq!(a.payload, "/p");
    assert_eq!(a.tracker_port, 6969);
    assert_eq!(a.announce_host, "tracker");
    assert_eq!(a.tracker_bind, "0.0.0.0");
    let a = args("--torrent-out t --url-out u --tracker-bind b --url-out v").unwrap();
    assert_eq!((a.torrent_out.as_str(), a.url_out.as_str()), ("t", "v"));
    assert_eq!(a.tracker_bind, "b");
}

#[test]
fn seeder_arguments_can_be_wrong() {
    assert!(matches!(args("--what 1"), Err(ArgsError::Unknown(f)) if f == "--what"));
    assert!(matches!(args("--payload"), Err(ArgsError::MissingValue(f)) if f == "--payload"));
    assert!(matches!(args("--tracker-port 65536"), Err(ArgsError::BadPort)));
    assert!(matches!(args("--tracker-port x"), Err(ArgsError::BadPort)));
}

#[test]
fn a_seeder_is_ready_when_every_torrent_serves() {
    let seeding = TorrentState::Seeding;
    let checking = TorrentState::CheckingFiles;
    assert_eq!(warmup_step(false, &vec![seeding, seeding], 0, 10), Warmup::Ready);
    assert_eq!(warmup_step(false, &vec![seeding, checking], 10, 10), Warmup::Wait);
    assert_eq!(warmup_step(false, &vec![checking], 11, 10), Warmup::GiveUp);
    assert_eq!(warmup_step(true, &vec![seeding], 0, 10), Warmup::Stop);
}

#[test]
fn a_seeder_announces_every_five_seconds() {
    assert_eq!(looks_per_announce(), 10);
    assert_eq!(announce_url("h", 80), "http://h:80/announce");
    assert_eq!(piece_count(&[0; 60]), 3);
}
