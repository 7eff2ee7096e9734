//! What the command decides before the filesystem is mounted and while it is taken
//! down.
use vstd::prelude::*;

use crate::text;

verus! {

// ── Logging ─────────────────────────────────────────────────────────────────

/// How much is logged.
#[derive(Debug, Clone, Copy, PartialEq, Eq, Structural)]
pub enum Level {
    Error,
    Warn,
    Info,
    Debug,
    Trace,
}

/// How much is to be logged, as the command line says it.
#[derive(Debug, Clone, Copy, PartialEq, Eq, Structural)]
pub enum LogLevelArg {
    Error,
    Warn,
    Info,
    Debug,
    Trace,
}

impl LogLevelArg {
    /// The level of the same name.
    pub open spec fn level(self) -> Level {
        match self {
            LogLevelArg::Error => Level::Error,
            LogLevelArg::Warn => Level::Warn,
            LogLevelArg::Info => Level::Info,
            LogLevelArg::Debug => Level::Debug,
            LogLevelArg::Trace => Level::Trace,
        }
    }

    /// The level of the same name.
    pub fn to_tracing(self) -> (level: Level)
        ensures
            level == self.level(),
    {
        match self {
            LogLevelArg::Error => Level::Error,
            LogLevelArg::Warn => Level::Warn,
            LogLevelArg::Info => Level::Info,
            LogLevelArg::Debug => Level::Debug,
            LogLevelArg::Trace => Level::Trace,
        }
    }
}

impl Level {
    /// The word for a level.
    pub open spec fn word(self) -> Seq<char> {
        match self {
            Level::Error => "error"@,
            Level::Warn => "warn"@,
            Level::Info => "info"@,
            Level::Debug => "debug"@,
            Level::Trace => "trace"@,
        }
    }
}

/// The level that a word in small letters stands for.
pub open spec fn level_of(word: Seq<char>) -> Option<Level> {
    if word == Level::Trace.word() {
        Some(Level::Trace)
    } else if word == Level::Debug.word() {
        Some(Level::Debug)
    } else if word == Level::Info.word() {
        Some(Level::Info)
    } else if word == Level::Warn.word() {
        Some(Level::Warn)
    } else if word == Level::Error.word() {
        Some(Level::Error)
    } else {
        None
    }
}

/// The level that a word in small letters stands for.
pub fn level_named(word: &str) -> (level: Option<Level>)
    ensures
        level == level_of(word@),
{
    if text::same(word, "trace") {
        Some(Level::Trace)
    } else if text::same(word, "debug") {
        Some(Level::Debug)
    } else if text::same(word, "info") {
        Some(Level::Info)
    } else if text::same(word, "warn") {
        Some(Level::Warn)
    } else if text::same(word, "error") {
        Some(Level::Error)
    } else {
        None
    }
}

/// The level that the environment asks for, in any case.
pub fn parse_rust_log(value: &str) -> (level: Option<Level>)
    ensures
        level == level_of(text::lowercase_text(value@)),
{
    level_named(text::to_lowercase(value).as_str())
}

/// How much is logged: as the command line says, else as the environment says,
/// else a middling amount.
pub fn resolve_log_level(cli_level: Option<LogLevelArg>, environment: Option<&str>) -> (level:
    Level)
    ensures
        level == (match cli_level {
            Some(arg) => arg.level(),
            None => match environment {
                Some(value) => match level_of(text::lowercase_text(value@)) {
                    Some(level) => level,
                    None => Level::Info,
                },
                None => Level::Info,
            },
        }),
{
    match cli_level {
        Some(arg) => arg.to_tracing(),
        None => match environment {
            Some(value) => match parse_rust_log(value) {
                Some(level) => level,
                None => Level::Info,
            },
            None => Level::Info,
        },
    }
}

// ── Mounting ────────────────────────────────────────────────────────────────

/// Whether the FUSE settings, read line by line without the white space around
/// them, let others see a mount.
pub fn settings_allow_other(settings: &Vec<String>) -> (yes: bool)
    ensures
        yes == text::texts(settings@).contains("user_allow_other"@),
{
    text::among(settings, "user_allow_other")
}

/// Whether the lines of the FUSE settings let others see a mount.
pub fn allows_other(lines: &Vec<String>) -> (yes: bool)
    ensures
        yes == text::trimmed_texts(lines@).contains("user_allow_other"@),
{
    settings_allow_other(&text::trim_all(lines))
}

/// The members that a line of the group file gives the group `fuse`, if it is
/// about that group.
pub open spec fn fuse_members(line: Seq<char>) -> Option<Seq<Seq<char>>> {
    let parts = text::fields(line, ':');
    if parts.len() >= 4 && parts[0] == "fuse"@ {
        Some(text::fields(parts[3], ','))
    } else {
        None
    }
}

/// The members that a line of the group file gives the group `fuse`, if it is
/// about that group.
pub fn members_of_fuse(line: &str) -> (members: Option<Vec<String>>)
    ensures
        (match members {
            Some(m) => Some(text::texts(m@)),
            None => None,
        }) == fuse_members(line@),
{
    let parts = text::split(line, ':');
    let ghost seen = text::texts(parts@);
    if parts.len() < 4 || !text::same(parts[0].as_str(), "fuse") {
        return None;
    }
    assert(seen[3] == parts@[3]@);
    Some(text::split(parts[3].as_str(), ','))
}

/// Whether a line of the group file puts a user into the group `fuse`; white space
/// around a member does not count.
pub open spec fn lists_user(line: Seq<char>, user: Seq<char>) -> bool {
    match fuse_members(line) {
        Some(members) => exists|i: int|
            0 <= i < members.len() && text::trimmed_text(#[trigger] members[i]) == user,
        None => false,
    }
}

fn line_lists_user(line: &str, user: &str) -> (yes: bool)
    ensures
        yes == lists_user(line@, user@),
{
    match members_of_fuse(line) {
        Some(members) => {
            let ghost all = text::texts(members@);
            let ghost trimmed = text::trimmed_texts(members@);
            let yes = text::among(&text::trim_all(&members), user);
            proof {
                assert forall|i: int| 0 <= i < all.len() implies trimmed[i] == text::trimmed_text(
                    #[trigger] all[i],
                ) by {}
                if yes {
                    let i = choose|i: int| 0 <= i < trimmed.len() && trimmed[i] == user@;
                    assert(text::trimmed_text(all[i]) == user@);
                } else {
                    assert forall|i: int| 0 <= i < all.len() implies text::trimmed_text(
                        #[trigger] all[i],
                    ) != user@ by {
                        assert(trimmed.contains(trimmed[i]));
                    }
                }
            }
            yes
        },
        None => false,
    }
}

/// Whether the user is in the group `fuse`: by the lines of the group file, or by
/// the names of the groups that the process is in.
pub fn in_fuse_group(lines: &Vec<String>, user: Option<&str>, groups: &Vec<String>) -> (yes: bool)
    ensures
        yes == ((user matches Some(u) && exists|i: int|
            0 <= i < lines@.len() && lists_user((#[trigger] lines@[i])@, u@)) || text::texts(
            groups@,
        ).contains("fuse"@)),
{
    match user {
        Some(name) => {
            let mut i: usize = 0;
            while i < lines.len()
                invariant
                    i <= lines@.len(),
                    user == Some(name),
                    forall|j: int| 0 <= j < i ==> !lists_user((#[trigger] lines@[j])@, name@),
                decreases lines@.len() - i,
            {
                if line_lists_user(lines[i].as_str(), name) {
                    assert(lists_user(lines@[i as int]@, name@));
                    return true;
                }
                i = i + 1;
            }
        },
        None => {},
    }
    text::among(groups, "fuse")
}

/// What may have kept a mount from being permitted.
pub open spec fn mount_hints(allow_other: bool, in_group: bool) -> Seq<char> {
    let head = "Mount failed: Operation not permitted. Possible causes:\n  - "@;
    let conf = if allow_other {
        head
    } else {
        head + "'user_allow_other' is not set in /etc/fuse.conf"@ + "\n  - "@
    };
    let group = if in_group {
        conf
    } else {
        conf + "user may not be in the 'fuse' group (some systems require this)"@ + "\n  - "@
    };
    group + "running in a container or restricted environment"@ + "\n  - "@
        + "SELinux/AppArmor restrictions"@ + "\n  - "@ + "/dev/fuse device permissions"@
}

/// What may have kept a mount from being permitted.
pub fn mount_failure_message(allow_other: bool, in_group: bool) -> (s: String)
    ensures
        s@ == mount_hints(allow_other, in_group),
{
    let mut s: String = "Mount failed: Operation not permitted. Possible causes:\n  - ".to_owned();
    if !allow_other {
        text::push_text(&mut s, "'user_allow_other' is not set in /etc/fuse.conf");
        text::push_text(&mut s, "\n  - ");
    }
    if !in_group {
        text::push_text(
            &mut s,
            "user may not be in the 'fuse' group (some systems require this)",
        );
        text::push_text(&mut s, "\n  - ");
    }
    text::push_text(&mut s, "running in a container or restricted environment");
    text::push_text(&mut s, "\n  - ");
    text::push_text(&mut s, "SELinux/AppArmor restrictions");
    text::push_text(&mut s, "\n  - ");
    text::push_text(&mut s, "/dev/fuse device permissions");
    s
}

// ── Unmounting ──────────────────────────────────────────────────────────────

/// A way to unmount.
#[derive(Debug, Clone, Copy, PartialEq, Eq, Structural)]
pub enum UnmountMethod {
    /// Detach the mount directly.
    Detach,
    /// Run `fusermount3`.
    Fusermount3,
    /// Run `fusermount`.
    Fusermount,
}

/// Whether a direct detach is worth a try: only root may.
pub fn should_attempt_direct_unmount(euid: u32) -> (yes: bool)
    ensures
        yes == (euid == 0),
{
    euid == 0
}

/// The ways to unmount that a user tries, in order, until one works.
pub fn unmount_methods(euid: u32) -> (methods: Vec<UnmountMethod>)
    ensures
        methods@ == (if euid == 0 {
            seq![UnmountMethod::Detach, UnmountMethod::Fusermount3, UnmountMethod::Fusermount]
        } else {
            seq![UnmountMethod::Fusermount3, UnmountMethod::Fusermount]
        }),
{
    let mut methods: Vec<UnmountMethod> = Vec::new();
    if should_attempt_direct_unmount(euid) {
        methods.push(UnmountMethod::Detach);
    }
    methods.push(UnmountMethod::Fusermount3);
    methods.push(UnmountMethod::Fusermount);
    assert(methods@ =~= (if euid == 0 {
        seq![UnmountMethod::Detach, UnmountMethod::Fusermount3, UnmountMethod::Fusermount]
    } else {
        seq![UnmountMethod::Fusermount3, UnmountMethod::Fusermount]
    }));
    methods
}

/// How a wait for the session's end came out.
#[derive(Debug, Clone, Copy, PartialEq, Eq, Structural)]
pub enum JoinOutcome {
    /// The session has ended.
    Finished,
    /// It is still blocked, and is left behind.
    TimedOut,
}

/// Whether a wait is over, and how it came out. A session that has ended counts as
/// ended, even at the last moment.
pub fn wait_bounded_step(finished: bool, now: u64, deadline: u64) -> (outcome: Option<JoinOutcome>)
    ensures
        outcome == (if finished {
            Some(JoinOutcome::Finished)
        } else if now >= deadline {
            Some(JoinOutcome::TimedOut)
        } else {
            None
        }),
{
    if finished {
        Some(JoinOutcome::Finished)
    } else if now >= deadline {
        Some(JoinOutcome::TimedOut)
    } else {
        None
    }
}

// ── Laws ────────────────────────────────────────────────────────────────────

/// Every word for a level reads back as that level.
pub proof fn law_level_words_read_back(level: Level)
    ensures
        level_of(level.word()) == Some(level),
{
    reveal_strlit("error");
    reveal_strlit("warn");
    reveal_strlit("info");
    reveal_strlit("debug");
    reveal_strlit("trace");
    assert("error"@[0] == 'e' && "debug"@[0] == 'd' && "trace"@[0] == 't');
    assert("warn"@[0] == 'w' && "info"@[0] == 'i');
}

/// The words for the levels, and what is behind each word.
pub proof fn law_words_of_the_levels()
    ensures
        Level::Error.word() == "error"@,
        Level::Warn.word() == "warn"@,
        Level::Info.word() == "info"@,
        Level::Debug.word() == "debug"@,
        Level::Trace.word() == "trace"@,
        LogLevelArg::Error.level() == Level::Error,
        LogLevelArg::Warn.level() == Level::Warn,
        LogLevelArg::Info.level() == Level::Info,
        LogLevelArg::Debug.level() == Level::Debug,
        LogLevelArg::Trace.level() == Level::Trace,
{
}

/// A mount that is not permitted hints at the FUSE settings exactly when they do not
/// let others see a mount, at the group exactly when the user is not in it, and at the
/// rest in any case.
pub proof fn law_hints_name_what_is_missing(allow_other: bool, in_group: bool)
    ensures
        ({
            let head = "Mount failed: Operation not permitted. Possible causes:\n  - "@;
            let conf = "'user_allow_other' is not set in /etc/fuse.conf"@ + "\n  - "@;
            let group = "user may not be in the 'fuse' group (some systems require this)"@
                + "\n  - "@;
            let rest = "running in a container or restricted environment"@ + "\n  - "@
                + "SELinux/AppArmor restrictions"@ + "\n  - "@ + "/dev/fuse device permissions"@;
            mount_hints(allow_other, in_group) == head + (if allow_other {
                Seq::empty()
            } else {
                conf
            }) + (if in_group {
                Seq::empty()
            } else {
                group
            }) + rest
        }),
{
    let head = "Mount failed: Operation not permitted. Possible causes:\n  - "@;
    let conf = "'user_allow_other' is not set in /etc/fuse.conf"@ + "\n  - "@;
    let group = "user may not be in the 'fuse' group (some systems require this)"@ + "\n  - "@;
    let rest = "running in a container or restricted environment"@ + "\n  - "@
        + "SELinux/AppArmor restrictions"@ + "\n  - "@ + "/dev/fuse device permissions"@;
    let a: Seq<char> = if allow_other {
        Seq::empty()
    } else {
        conf
    };
    let b: Seq<char> = if in_group {
        Seq::empty()
    } else {
        group
    };
    assert(mount_hints(allow_other, in_group) =~= head + a + b + rest);
}

/// A line of the group file puts its members into the group `fuse`: the names between
/// commas in its fourth field, when its first is `fuse`.
pub proof fn law_members_of_the_group(line: Seq<char>, user: Seq<char>)
    ensures
        ({
            let parts = text::fields(line, ':');
            lists_user(line, user) <==> parts.len() >= 4 && parts[0] == "fuse"@ && exists|i: int|
                0 <= i < text::fields(parts[3], ',').len() && text::trimmed_text(
                    #[trigger] text::fields(parts[3], ',')[i],
                ) == user
        }),
{
}

} // verus!
