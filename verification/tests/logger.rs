//! The log: what is left out, what a line looks like, and when a new file is begun.

use rskynet::logger::name::{log_name, Day, Moment, NameSearch, PathParts};
use rskynet::logger::rotation::{should_rotate, LogFile, RotationConfig, DEFAULT_MAX_FILE_SIZE};
use rskynet::logger::service::{
    dropped_text, illegal_text, log_line, reopen_failed, rotate_failed, Backpressure, LogDecision,
    Logger, LoggerConfig, Reopen, DEFAULT_MAX_QUEUE,
};

fn date(year: i32, month: u32, day: u32) -> Day {
    Day { year, month, day }
}

fn moment(year: i32, month: u32, day: u32, hour: u32, minute: u32, second: u32) -> Moment {
    Moment {
        date: date(year, month, day),
        hour,
        minute,
        second,
    }
}

fn parts() -> PathParts {
    PathParts {
        file_name: "rskynet.log".into(),
        stem: Some("rskynet".into()),
        extension: Some("log".into()),
    }
}

#[test]
fn overload_drops_old_logs_and_reports_once_after_recovery() {
    let mut state = Backpressure {
        max_queue: 3,
        dropped: 0,
    };

    assert_eq!(state.decide(5), LogDecision::Drop);
    assert_eq!(state.decide(4), LogDecision::Drop);
    assert_eq!(state.decide(3), LogDecision::Drop);
    assert_eq!(state.decide(2), LogDecision::Write { dropped: 3 });
    assert_eq!(state.decide(1), LogDecision::Write { dropped: 0 });

    assert_eq!(state.decide(3), LogDecision::Drop);
    assert_eq!(state.decide(2), LogDecision::Write { dropped: 1 });
}

#[test]
fn zero_limit_disables_dropping() {
    let mut state = Backpressure {
        max_queue: 0,
        dropped: 0,
    };

    assert_eq!(state.decide(usize::MAX), LogDecision::Write { dropped: 0 });
}

#[test]
fn dropped_counter_saturates() {
    let mut state = Backpressure {
        max_queue: 1,
        dropped: usize::MAX,
    };

    assert_eq!(state.decide(1), LogDecision::Drop);
    assert_eq!(state.dropped, usize::MAX);
}

#[test]
fn config_uses_the_default_limit() {
    let config = LoggerConfig::default();
    assert_eq!(config.max_queue, DEFAULT_MAX_QUEUE);
    assert!(config.rotate_daily);
    assert_eq!(config.max_file_size, DEFAULT_MAX_FILE_SIZE);
    assert_eq!(DEFAULT_MAX_QUEUE, 10_000);
    assert_eq!(DEFAULT_MAX_FILE_SIZE, 100 * 1024 * 1024);
}

#[test]
fn rotation_decision_handles_date_size_and_disabled_triggers() {
    let mut file = LogFile {
        path: "rskynet.log".into(),
        date: date(2026, 8, 22),
        len: 0,
    };

    let size_only = RotationConfig {
        rotate_daily: false,
        max_file_size: 10,
    };
    file.len = 9;
    assert!(!should_rotate(&file, date(2026, 8, 22), 1, size_only));
    assert!(should_rotate(&file, date(2026, 8, 22), 2, size_only));
    file.len = 0;
    assert!(!should_rotate(&file, date(2026, 8, 22), 11, size_only));

    let daily_only = RotationConfig {
        rotate_daily: true,
        max_file_size: 0,
    };
    assert!(!should_rotate(&file, date(2026, 8, 22), 1, daily_only));
    assert!(should_rotate(&file, date(2026, 8, 23), 1, daily_only));

    let disabled = RotationConfig {
        rotate_daily: false,
        max_file_size: 0,
    };
    assert!(!should_rotate(&file, date(2026, 8, 23), u64::MAX, disabled));
}

#[test]
fn log_names_include_timestamp_and_never_overwrite() {
    let timestamp = moment(2026, 8, 22, 15, 30, 45);
    let mut search = NameSearch::new(parts(), timestamp);
    let first = search.candidate();
    assert_eq!(first, "rskynet.20260822.153045.001.log");
    assert!(search.taken());
    let second = search.candidate();
    assert_eq!(second, "rskynet.20260822.153045.002.log");
}

#[test]
fn names_hold_what_the_path_has() {
    let at = moment(2026, 1, 2, 3, 4, 5);
    let bare = PathParts {
        file_name: "log".into(),
        stem: Some("log".into()),
        extension: None,
    };
    assert_eq!(log_name(&bare, &at, 12), "log.20260102.030405.012");
    let odd = PathParts {
        file_name: "x".into(),
        stem: Some(String::new()),
        extension: Some(String::new()),
    };
    assert_eq!(log_name(&odd, &at, 1234), "x.20260102.030405.1234");
    let mut last = NameSearch::new(parts(), at);
    last.sequence = u64::MAX;
    assert!(!last.taken());
    assert_eq!(last.sequence, u64::MAX);
}

#[test]
fn years_outside_of_four_digits_have_a_sign() {
    let name = |year| log_name(&parts(), &moment(year, 1, 1, 0, 0, 0), 1);
    assert_eq!(name(12345), "rskynet.+123450101.000000.001.log");
    assert_eq!(name(-5), "rskynet.-00050101.000000.001.log");
    assert_eq!(name(0), "rskynet.00000101.000000.001.log");
    assert_eq!(name(987), "rskynet.09870101.000000.001.log");
}

#[test]
fn only_days_of_the_calendar_are_valid() {
    assert!(moment(2024, 2, 29, 23, 59, 59).is_valid());
    assert!(!moment(2023, 2, 29, 0, 0, 0).is_valid());
    assert!(!moment(1900, 2, 29, 0, 0, 0).is_valid());
    assert!(moment(2000, 2, 29, 0, 0, 0).is_valid());
    assert!(!moment(2024, 4, 31, 0, 0, 0).is_valid());
    assert!(!moment(2024, 13, 1, 0, 0, 0).is_valid());
    assert!(!moment(2024, 1, 1, 24, 0, 0).is_valid());
    assert!(!moment(262143, 1, 1, 0, 0, 0).is_valid());
    assert!(moment(-4, 2, 29, 0, 0, 0).is_valid());
}

#[test]
fn lines_have_one_form() {
    assert_eq!(log_line(1234, 0x0a, "hi"), "[     1.234] [:0000000a] hi");
    assert_eq!(
        log_line(1_234_567_890, 0x0100_000a, ""),
        "[1234567.890] [:0100000a] "
    );
    assert_eq!(dropped_text(3), "日志队列积压，已丢弃 3 条较旧日志");
    assert_eq!(rotate_failed("x"), "日志文件滚动失败：x");
    assert_eq!(reopen_failed("x"), "重开日志文件失败：x");
    assert_eq!(illegal_text(), "<非法日志>");
}

#[test]
fn the_logger_keeps_count_of_its_file() {
    let mut logger = Logger::default();
    let config = LoggerConfig {
        path: "  run/x.log \n".into(),
        rotate_daily: true,
        max_file_size: 10,
        max_queue: 1,
    };
    assert_eq!(logger.configure(&config).as_deref(), Some("run/x.log"));
    assert!(matches!(logger.reopening(), Reopen::Nothing));
    logger.adopt("run/x.log".into());
    assert!(matches!(logger.reopening(), Reopen::New));
    logger.opened(LogFile {
        path: "run/x.001.log".into(),
        date: date(2026, 8, 22),
        len: 0,
    });
    match logger.reopening() {
        Reopen::Active(path) => assert_eq!(path, "run/x.001.log"),
        other => panic!("{other:?}"),
    }
    assert!(!logger.rotation_needed(date(2026, 8, 22), "0123456789abc"));
    logger.wrote("日志");
    assert_eq!(logger.file.as_ref().unwrap().len, 7);
    assert!(!logger.rotation_needed(date(2026, 8, 22), "ab"));
    assert!(logger.rotation_needed(date(2026, 8, 22), "abc"));
    assert!(logger.rotation_needed(date(2026, 8, 23), ""));

    assert!(logger.received(1).is_none());
    assert_eq!(
        logger.received(0),
        Some(Some("日志队列积压，已丢弃 1 条较旧日志".to_string()))
    );
    assert_eq!(logger.received(0), Some(None));
    assert_eq!(Logger::default().configure(&LoggerConfig::default()), None);
}

#[test]
fn every_line_left_out_is_reported_once() {
    let mut state = Backpressure {
        max_queue: 2,
        dropped: 0,
    };
    let mut left_out = 0;
    let mut reported = 0;
    for queued in [5, 4, 1, 3, 0, 2, 2, 2, 1] {
        match state.decide(queued) {
            LogDecision::Drop => left_out += 1,
            LogDecision::Write { dropped } => reported += dropped,
        }
    }
    assert_eq!(left_out, reported + state.dropped);
    assert_eq!(reported, 6);
}
