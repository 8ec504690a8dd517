use tracesum::sets::{CountableSetSpecifier, NetworkPort, SetSpecifier};
use tracesum::summarize::{
    is_fd_pseudo_path, summarize, NetworkActivity, NetworkActivityKind, ProgramAction,
    SummarizeError,
};
use tracesum::systemd::{SocketFamily, SocketProtocol};
use tracesum::trace::{
    BufferExpression, BufferType, Expression, IntegerExpression, IntegerExpressionValue,
    ParseError, Syscall,
};

fn named(name: &str) -> Expression {
    Expression::Integer(IntegerExpression {
        value: IntegerExpressionValue::NamedConst(name.to_owned()),
        metadata: None,
    })
}

fn named_with_meta(name: &str, meta: &[u8]) -> Expression {
    Expression::Integer(IntegerExpression {
        value: IntegerExpressionValue::NamedConst(name.to_owned()),
        metadata: Some(meta.to_vec()),
    })
}

fn literal(v: i128) -> Expression {
    Expression::Integer(IntegerExpression {
        value: IntegerExpressionValue::Literal(v),
        metadata: None,
    })
}

fn literal_with_meta(v: i128, meta: &[u8]) -> Expression {
    Expression::Integer(IntegerExpression {
        value: IntegerExpressionValue::Literal(v),
        metadata: Some(meta.to_vec()),
    })
}

fn buffer(bytes: &[u8]) -> Expression {
    Expression::Buffer(BufferExpression { value: bytes.to_vec(), type_: BufferType::Unknown })
}

fn flags(names: &[&str]) -> Expression {
    Expression::Integer(IntegerExpression {
        value: IntegerExpressionValue::BinaryOr(
            names
                .iter()
                .map(|n| IntegerExpressionValue::NamedConst((*n).to_owned()))
                .collect(),
        ),
        metadata: None,
    })
}

fn call(pid: u32, name: &str, args: Vec<Expression>, ret_val: i128) -> Syscall {
    Syscall { pid, rel_ts_us: 0, name: name.to_owned(), args, ret_val }
}

#[test]
fn test_is_socket_or_pipe_pseudo_path() {
    assert!(!is_fd_pseudo_path(&"plop".as_bytes().to_vec()));
    assert!(is_fd_pseudo_path(&"pipe:[12334]".as_bytes().to_vec()));
    assert!(is_fd_pseudo_path(&"socket:[1234]/".as_bytes().to_vec()));
}

#[test]
fn test_relative_rename() {
    let temp_dir_src = tempfile::tempdir().unwrap();
    let temp_dir_dst = tempfile::tempdir().unwrap();
    let src_dir = temp_dir_src.path().to_str().unwrap().to_owned();
    let dst_dir = temp_dir_dst.path().to_str().unwrap().to_owned();
    let syscalls = vec![Ok(Syscall {
        pid: 1068781,
        rel_ts_us: 83,
        name: "renameat".to_owned(),
        args: vec![
            named_with_meta("AT_FDCWD", src_dir.as_bytes()),
            buffer(b"a"),
            named_with_meta("AT_FDCWD", dst_dir.as_bytes()),
            buffer(b"b"),
            named("RENAME_NOREPLACE"),
        ],
        ret_val: 0,
    })];
    let src_a = format!("{src_dir}/a").into_bytes();
    let dst_b = format!("{dst_dir}/b").into_bytes();
    assert_eq!(
        summarize(syscalls).unwrap(),
        vec![
            ProgramAction::Read(src_a.clone()),
            ProgramAction::Write(src_a),
            ProgramAction::Create(dst_b.clone()),
            ProgramAction::Write(dst_b),
            ProgramAction::Syscalls(vec!["renameat".to_owned()]),
        ]
    );
}

#[test]
fn test_connect_uds() {
    let syscalls = vec![Ok(Syscall {
        pid: 598056,
        rel_ts_us: 36,
        name: "connect".to_owned(),
        args: vec![
            literal_with_meta(4, b"/run/user/1000/systemd/private"),
            Expression::Struct(vec![
                ("sa_family".to_owned(), named("AF_UNIX")),
                ("sun_path".to_owned(), buffer(b"/run/user/1000/systemd/private")),
            ]),
            literal(33),
        ],
        ret_val: 0,
    })];
    assert_eq!(
        summarize(syscalls).unwrap(),
        vec![
            ProgramAction::Read(b"/run/user/1000/systemd/private".to_vec()),
            ProgramAction::Syscalls(vec!["connect".to_owned()]),
        ]
    );
}

#[test]
fn socket_then_bind() {
    let syscalls = vec![
        Ok(call(
            7,
            "socket",
            vec![named("AF_INET"), flags(&["SOCK_STREAM", "SOCK_CLOEXEC"]), literal(0)],
            5,
        )),
        Ok(call(
            7,
            "bind",
            vec![
                literal(5),
                Expression::Struct(vec![
                    ("sa_family".to_owned(), named("AF_INET")),
                    (
                        "sin_port".to_owned(),
                        Expression::Macro {
                            name: "htons".to_owned(),
                            args: vec![literal(8080)],
                        },
                    ),
                ]),
                literal(16),
            ],
            0,
        )),
    ];
    assert_eq!(
        summarize(syscalls).unwrap(),
        vec![
            ProgramAction::NetworkActivity(NetworkActivity {
                af: SetSpecifier::One(SocketFamily::Inet),
                proto: SetSpecifier::One(SocketProtocol::Tcp),
                kind: SetSpecifier::One(NetworkActivityKind::SocketCreation),
                local_port: CountableSetSpecifier::All,
            }),
            ProgramAction::NetworkActivity(NetworkActivity {
                af: SetSpecifier::One(SocketFamily::Inet),
                proto: SetSpecifier::One(SocketProtocol::Tcp),
                kind: SetSpecifier::One(NetworkActivityKind::Bind),
                local_port: CountableSetSpecifier::One(NetworkPort::new(8080).unwrap()),
            }),
            ProgramAction::Syscalls(vec!["socket".to_owned(), "bind".to_owned()]),
        ]
    );
}

#[test]
fn write_exec_mapping() {
    let syscalls = vec![
        Ok(call(
            1,
            "mmap",
            vec![
                literal(0),
                literal(4096),
                flags(&["PROT_READ", "PROT_WRITE", "PROT_EXEC"]),
                flags(&["MAP_PRIVATE", "MAP_ANON"]),
                literal(-1),
                literal(0),
            ],
            140000,
        )),
        Ok(call(
            1,
            "mprotect",
            vec![literal(140000), literal(4096), flags(&["PROT_READ"])],
            0,
        )),
    ];
    assert_eq!(
        summarize(syscalls).unwrap(),
        vec![
            ProgramAction::WriteExecuteMemoryMapping,
            ProgramAction::Syscalls(vec!["mmap".to_owned(), "mprotect".to_owned()]),
        ]
    );
}

#[test]
fn pseudo_fd_paths_are_elided() {
    // a relative openat anchored on a socket pseudo-path yields no path action
    let syscalls = vec![Ok(call(
        2,
        "openat",
        vec![literal_with_meta(9, b"socket:[4242]"), buffer(b"x"), flags(&["O_RDONLY"])],
        3,
    ))];
    assert_eq!(
        summarize(syscalls).unwrap(),
        vec![ProgramAction::Syscalls(vec!["openat".to_owned()])]
    );
}

#[test]
fn open_flags_decide_the_actions() {
    let syscalls = vec![Ok(call(
        3,
        "open",
        vec![buffer(b"/etc/passwd"), flags(&["O_RDWR", "O_CREAT"])],
        3,
    ))];
    assert_eq!(
        summarize(syscalls).unwrap(),
        vec![
            ProgramAction::Create(b"/etc/passwd".to_vec()),
            ProgramAction::Write(b"/etc/passwd".to_vec()),
            ProgramAction::Read(b"/etc/passwd".to_vec()),
            ProgramAction::Syscalls(vec!["open".to_owned()]),
        ]
    );
}

#[test]
fn adjacent_duplicates_collapse() {
    let stat = || call(4, "stat", vec![buffer(b"/etc/hosts"), literal(0)], 0);
    let syscalls = vec![Ok(stat()), Ok(stat()), Ok(stat())];
    assert_eq!(
        summarize(syscalls).unwrap(),
        vec![
            ProgramAction::Read(b"/etc/hosts".to_vec()),
            ProgramAction::Syscalls(vec!["stat".to_owned()]),
        ]
    );
}

#[test]
fn epoll_wakeup_and_privileged_timer() {
    let syscalls = vec![
        Ok(call(
            5,
            "epoll_ctl",
            vec![
                literal(4),
                named("EPOLL_CTL_ADD"),
                literal(7),
                Expression::Struct(vec![(
                    "events".to_owned(),
                    flags(&["EPOLLIN", "EPOLLWAKEUP"]),
                )]),
            ],
            0,
        )),
        Ok(call(5, "timer_create", vec![named("CLOCK_BOOTTIME_ALARM"), literal(0)], 0)),
    ];
    assert_eq!(
        summarize(syscalls).unwrap(),
        vec![
            ProgramAction::Wakeup,
            ProgramAction::SetAlarm,
            ProgramAction::Syscalls(vec!["epoll_ctl".to_owned(), "timer_create".to_owned()]),
        ]
    );
}

#[test]
fn mknod_and_realtime_scheduler() {
    let syscalls = vec![
        Ok(call(6, "mknod", vec![buffer(b"/dev/foo"), flags(&["S_IFBLK"]), literal(0)], 0)),
        Ok(call(6, "sched_setscheduler", vec![literal(0), named("SCHED_FIFO")], 0)),
    ];
    assert_eq!(
        summarize(syscalls).unwrap(),
        vec![
            ProgramAction::MknodSpecial,
            ProgramAction::SetRealtimeScheduler,
            ProgramAction::Syscalls(vec![
                "mknod".to_owned(),
                "sched_setscheduler".to_owned(),
            ]),
        ]
    );
}

#[test]
fn exchanging_rename_reads_both_paths() {
    let syscalls = vec![Ok(call(
        2,
        "renameat2",
        vec![
            named_with_meta("AT_FDCWD", b"/srv"),
            buffer(b"a"),
            named_with_meta("AT_FDCWD", b"/srv"),
            buffer(b"b"),
            flags(&["RENAME_EXCHANGE"]),
        ],
        0,
    ))];
    assert_eq!(
        summarize(syscalls).unwrap(),
        vec![
            ProgramAction::Read(b"/srv/a".to_vec()),
            ProgramAction::Write(b"/srv/a".to_vec()),
            ProgramAction::Read(b"/srv/b".to_vec()),
            ProgramAction::Write(b"/srv/b".to_vec()),
            ProgramAction::Syscalls(vec!["renameat2".to_owned()]),
        ]
    );
}

#[test]
fn stat_by_descriptor_reads_the_descriptor_path() {
    let syscalls = vec![Ok(call(
        3,
        "fstat",
        vec![literal_with_meta(7, b"/var/lib/app/state"), literal(0)],
        0,
    ))];
    assert_eq!(
        summarize(syscalls).unwrap(),
        vec![
            ProgramAction::Read(b"/var/lib/app/state".to_vec()),
            ProgramAction::Syscalls(vec!["fstat".to_owned()]),
        ]
    );
}

#[test]
fn malformed_arguments_fail_the_pass() {
    // the path argument of open must be a plain buffer
    let syscalls = vec![Ok(call(8, "open", vec![literal(1), flags(&["O_RDONLY"])], 3))];
    assert_eq!(
        summarize(syscalls),
        Err(SummarizeError::MalformedSyscall { name: "open".to_owned() })
    );
}

#[test]
fn unknown_socket_family_fails_the_pass() {
    let syscalls = vec![Ok(call(
        9,
        "socket",
        vec![named("AF_BLUETOOTH"), flags(&["SOCK_STREAM"]), literal(0)],
        3,
    ))];
    assert_eq!(
        summarize(syscalls),
        Err(SummarizeError::UnknownSocketFamily { family: "AF_BLUETOOTH".to_owned() })
    );
}

#[test]
fn parse_errors_abort_the_pass() {
    let syscalls = vec![
        Ok(call(1, "stat", vec![buffer(b"/etc/hosts"), literal(0)], 0)),
        Err(ParseError { line: "gibberish".to_owned(), offset: 3 }),
    ];
    assert_eq!(
        summarize(syscalls),
        Err(SummarizeError::Parse(ParseError { line: "gibberish".to_owned(), offset: 3 }))
    );
}

#[test]
fn unknown_syscalls_only_reach_the_aggregate() {
    let syscalls = vec![
        Ok(call(1, "getpid", vec![], 42)),
        Ok(call(1, "brk", vec![literal(0)], 0)),
    ];
    assert_eq!(
        summarize(syscalls).unwrap(),
        vec![ProgramAction::Syscalls(vec!["getpid".to_owned(), "brk".to_owned()])]
    );
}

#[test]
fn bind_without_a_known_socket_is_silent() {
    let syscalls = vec![Ok(call(
        7,
        "bind",
        vec![
            literal(5),
            Expression::Struct(vec![("sa_family".to_owned(), named("AF_INET"))]),
            literal(16),
        ],
        0,
    ))];
    assert_eq!(
        summarize(syscalls).unwrap(),
        vec![ProgramAction::Syscalls(vec!["bind".to_owned()])]
    );
}
