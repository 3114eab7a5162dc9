//! Signals, and what is kept of a crash.

use rskynet::signal::crash::{
    abstract_socket_name, after_attempt, after_wait, helper_arg, helper_args, parse_pid,
    socket_file_name, truncate_utf8, walk_heading, write_report_preamble, Attempt, Bases, Ending,
    Location, PanicMetadata, ReportHandler, Stopping, Walk, BACKTRACE_LIMIT, PANIC_MESSAGE,
    PAYLOAD_LIMIT,
};
use rskynet::signal::signals::{
    dispatch, has_default_shutdown, registration, AutoSignal, Reaction, Signal, SignalNumbers,
};

#[test]
fn supported_signal_values_are_distinct() {
    let values = [
        Signal::Interrupt,
        Signal::Terminate,
        Signal::Hangup,
        Signal::Quit,
        Signal::User1,
        Signal::User2,
    ];
    for (index, value) in values.iter().enumerate() {
        assert!(!values[..index].contains(value));
    }
}

#[test]
fn interrupt_and_terminate_default_to_shutdown() {
    let none = Vec::new();
    assert!(has_default_shutdown(&none, Signal::Interrupt));
    assert!(has_default_shutdown(&none, Signal::Terminate));
    assert!(!has_default_shutdown(&none, Signal::Hangup));
    assert!(!has_default_shutdown(&none, Signal::Quit));
}

#[test]
fn a_callback_takes_the_place_of_the_shutdown() {
    let registered = vec![
        AutoSignal::new(Signal::Hangup, "a", 3),
        AutoSignal::new(Signal::Terminate, "b", 4),
        AutoSignal::new(Signal::Terminate, "c", 5),
    ];
    assert_eq!(registration(&registered, Signal::Terminate), Some(1));
    assert_eq!(registration(&registered, Signal::Quit), None);
    assert!(!has_default_shutdown(&registered, Signal::Terminate));
    assert!(has_default_shutdown(&registered, Signal::Interrupt));
    match dispatch(&registered, Signal::Terminate) {
        Reaction::Call(callback) => assert_eq!(callback, 4),
        other => panic!("{other:?}"),
    }
    match dispatch(&registered, Signal::Interrupt) {
        Reaction::Abort(text) => assert_eq!(text, "收到进程信号 Interrupt，执行默认 abort"),
        other => panic!("{other:?}"),
    }
    assert!(matches!(dispatch(&registered, Signal::User1), Reaction::Nothing));
}

fn numbers() -> SignalNumbers {
    SignalNumbers {
        interrupt: 2,
        terminate: 15,
        hangup: 1,
        quit: 3,
        user1: 10,
        user2: 12,
    }
}

#[test]
fn signals_are_known_by_their_numbers() {
    for signal in [
        Signal::Interrupt,
        Signal::Terminate,
        Signal::Hangup,
        Signal::Quit,
        Signal::User1,
        Signal::User2,
    ] {
        assert_eq!(numbers().signal(numbers().number(signal)), Some(signal));
    }
    assert_eq!(numbers().signal(9), None);
    assert_eq!(Signal::User2.name(), "User2");
}

#[test]
fn each_number_is_watched_once() {
    let registered = vec![
        AutoSignal::new(Signal::Hangup, "a", 0),
        AutoSignal::new(Signal::Interrupt, "b", 1),
        AutoSignal::new(Signal::Hangup, "c", 2),
        AutoSignal::new(Signal::User2, "d", 3),
    ];
    assert_eq!(numbers().watched(&registered), vec![2, 15, 1, 12]);
    assert_eq!(numbers().watched(&Vec::new()), vec![2, 15]);
}

#[test]
fn panic_metadata_truncation_keeps_utf8_valid() {
    let mut text = "崩".repeat(20_000);
    truncate_utf8(&mut text, 1024);
    assert!(text.is_char_boundary(text.len()));
    assert!(text.ends_with("<truncated>"));
    assert!(text.len() < 1100);
}

#[test]
fn a_cut_text_keeps_its_beginning() {
    let mut text = "a崩b".to_string();
    truncate_utf8(&mut text, 3);
    assert_eq!(text, "a\n<truncated>");
    let mut text = "a崩b".to_string();
    truncate_utf8(&mut text, 4);
    assert_eq!(text, "a崩\n<truncated>");
    let mut text = "a崩b".to_string();
    truncate_utf8(&mut text, 5);
    assert_eq!(text, "a崩b");
    let mut text = "崩".to_string();
    truncate_utf8(&mut text, 0);
    assert_eq!(text, "\n<truncated>");
}

#[test]
fn panic_report_distinguishes_backtrace_from_later_snapshot() {
    let metadata = PanicMetadata {
        payload: "probe".into(),
        location: Some("src/main.rs:7:9".into()),
        thread: Some("main".into()),
        backtrace: "trigger_panic\ncaller".into(),
    };
    let mut report = Vec::new();
    write_report_preamble(&mut report, "probe.dmp", Some(&metadata));
    let report = String::from_utf8(report).unwrap();
    assert!(report.contains("kind: rust panic"));
    assert!(report.contains("Rust panic backtrace (captured by the panic hook):"));
    assert!(report.contains("trigger_panic\ncaller"));
    assert!(!report.contains("kind: native crash"));
}

#[test]
fn native_report_has_no_panic_metadata() {
    let mut report = Vec::new();
    write_report_preamble(&mut report, "probe.dmp", None);
    let report = String::from_utf8(report).unwrap();
    assert!(report.contains("kind: native crash"));
    assert!(!report.contains("Rust panic backtrace"));
}

#[test]
fn a_report_says_all_that_is_known() {
    let metadata = PanicMetadata::new(
        None,
        Some(Location {
            file: "a.rs".into(),
            line: 7,
            column: 9,
        }),
        None,
        "x".repeat(BACKTRACE_LIMIT + 1),
    );
    assert_eq!(metadata.payload, "<非字符串 panic payload>");
    assert_eq!(metadata.location.as_deref(), Some("a.rs:7:9"));
    assert!(metadata.backtrace.ends_with("\n<truncated>"));
    assert_eq!(metadata.backtrace.len(), BACKTRACE_LIMIT + 12);
    let long = PanicMetadata::new(Some("y".repeat(PAYLOAD_LIMIT)), None, None, String::new());
    assert_eq!(long.payload.len(), PAYLOAD_LIMIT);

    let mut report = b"before\n".to_vec();
    write_report_preamble(
        &mut report,
        "d.dmp",
        Some(&PanicMetadata {
            payload: "p".into(),
            location: None,
            thread: Some("t".into()),
            backtrace: "b".into(),
        }),
    );
    assert_eq!(
        String::from_utf8(report).unwrap(),
        "before\nrskynet crash report\nminidump: d.dmp\nkind: rust panic\npayload: p\nthread: t\n\
         \nRust panic backtrace (captured by the panic hook):\nb\n"
    );
}

#[test]
fn the_stacks_have_a_heading() {
    assert_eq!(
        walk_heading(true, &Walk::Read),
        "\nPost-panic minidump snapshot (captured after the panic hook; not the panic origin):\n"
    );
    assert_eq!(
        walk_heading(false, &Walk::Read),
        "\nNative crash minidump stackwalk (crashing thread first):\n"
    );
    assert_eq!(
        walk_heading(true, &Walk::Failed("e".into())),
        "\nMinidump stackwalk failed: e\n"
    );
    assert_eq!(
        walk_heading(false, &Walk::Unreadable("e".into())),
        "\nMinidump parse failed: e\n"
    );
}

#[test]
fn dump_name_contains_pid_and_millisecond_timestamp() {
    let handler = ReportHandler::new(1234);
    let name = handler.dump_name(1_786_000_000_123);
    assert!(name.starts_with("1234-"));
    assert!(name.ends_with(".dmp"));
    let stamp = name.trim_start_matches("1234-").trim_end_matches(".dmp");
    assert_eq!(stamp.len(), 13);
    assert!(stamp.parse::<u64>().is_ok());
}

#[test]
fn a_panic_is_reported_once() {
    let mut handler = ReportHandler::new(1);
    let metadata = |payload: &str| PanicMetadata {
        payload: payload.into(),
        location: None,
        thread: None,
        backtrace: String::new(),
    };
    handler.on_message(PANIC_MESSAGE + 1, Some(metadata("no")));
    assert!(handler.take_metadata().is_none());
    handler.on_message(PANIC_MESSAGE, Some(metadata("yes")));
    handler.on_message(PANIC_MESSAGE, None);
    assert_eq!(handler.take_metadata().unwrap().payload, "yes");
    assert!(handler.take_metadata().is_none());
    assert!(handler.is_over(0));
    assert!(!handler.is_over(1));
}

fn args(list: &[&str]) -> Vec<Option<String>> {
    list.iter().map(|arg| Some(arg.to_string())).collect()
}

#[test]
fn helper_arguments_are_read() {
    assert!(helper_args(&args(&[])).unwrap().is_none());
    assert!(helper_args(&args(&["p", "config.toml"])).unwrap().is_none());
    assert!(helper_args(&vec![None, None]).unwrap().is_none());
    let found = helper_args(&args(&["p", helper_arg(), "s", "d", "17"]))
        .unwrap()
        .unwrap();
    assert_eq!((found.socket, found.directory, found.pid), (2, 3, 17));
    let message = |list: &[&str]| helper_args(&args(list)).unwrap_err().message();
    assert!(message(&["p", helper_arg()]).contains("崩溃 helper 缺少 socket 参数"));
    assert!(message(&["p", helper_arg(), "s"]).contains("崩溃 helper 缺少目录参数"));
    assert!(message(&["p", helper_arg(), "s", "d"]).contains("崩溃 helper 的 pid 参数非法"));
    assert!(message(&["p", helper_arg(), "s", "d", "x"]).contains("崩溃 helper 的 pid 参数非法"));
}

#[test]
fn numbers_are_read_like_the_standard_library_does() {
    for text in [
        "0", "17", "+5", "4294967295", "4294967296", "", "+", "-1", "1a", " 1", "00012", "99999999999",
    ] {
        assert_eq!(parse_pid(text), text.parse::<u32>().ok(), "{text}");
    }
}

#[test]
fn sockets_have_names() {
    assert_eq!(abstract_socket_name(12, 345), "rskynet-crash-12-345");
    assert_eq!(socket_file_name(12, 255), "rsc-12-ff.sock");
}

#[test]
fn the_helper_gets_some_time() {
    assert!(matches!(after_attempt(true, Some("x"), true), Attempt::Connected));
    assert!(matches!(after_attempt(false, None, false), Attempt::Again));
    match after_attempt(false, Some("exit 1"), true) {
        Attempt::GivenUp(error) => assert!(error
            .message()
            .contains("崩溃 helper 在 IPC 握手前退出：exit 1")),
        other => panic!("{other:?}"),
    }
    match after_attempt(false, None, true) {
        Attempt::GivenUp(error) => {
            assert!(error.message().contains("等待崩溃 helper IPC 握手超时"))
        }
        other => panic!("{other:?}"),
    }
    assert!(matches!(after_wait(Ending::Ended, true), Stopping::Done));
    assert!(matches!(after_wait(Ending::Running, false), Stopping::Again));
    assert!(matches!(after_wait(Ending::Running, true), Stopping::Kill));
    assert!(matches!(after_wait(Ending::Unknown, false), Stopping::Kill));
}

#[test]
fn addresses_are_moved_from_the_dump_to_the_reader() {
    let bases = Bases {
        dump_base: Some(0x1000),
        local_base: Some(0x9000),
    };
    assert_eq!(bases.local_address(0x1000, 0x1234), Some(0x9234));
    assert_eq!(bases.local_address(0x2000, 0x2234), None);
    assert_eq!(bases.local_address(0x1000, 0x0fff), None);
    let nowhere = Bases {
        dump_base: None,
        local_base: Some(1),
    };
    assert_eq!(nowhere.local_address(0, 0), None);
    assert_eq!(bases.function_base(Some(0x9200), 0x1000, 0x9000, 0x1234), 0x1200);
    assert_eq!(bases.function_base(Some(0x8fff), 0x1000, 0x9000, 0x1234), 0x1234);
    assert_eq!(bases.function_base(None, 0x1000, 0x9000, 0x1234), 0x1234);
}
