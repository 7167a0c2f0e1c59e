use bifrost::codec::{decimal_string, id_string, push_decimal, push_hex, read_hex};
use bifrost::logging::{
    default_log_filters, init_logging, syslog_format, syslog_priority, LogFormat, LogLevel,
};
use bifrost::supervisor::{
    build_tasks, Completion, Phase, Report, Supervisor, TaskKind,
};
use bifrost::text::{bytes_eq, str_eq};

#[test]
fn failed_task_is_reported_and_the_others_run_on() {
    let mut sup = Supervisor::new(build_tasks(0));
    assert_eq!(sup.phase(), Phase::Running);
    assert_eq!(sup.pending(), 3);
    let report = sup.on_completion(1, Completion::TaskError);
    assert_eq!(
        report,
        Some(Report {
            level: LogLevel::Error,
            task: 1,
            kind: TaskKind::HttpsListener,
            completion: Completion::TaskError,
        })
    );
    assert_eq!(sup.phase(), Phase::Running);
    assert_eq!(sup.pending(), 2);
    let first = sup.on_completion(0, Completion::Success).unwrap();
    assert_eq!(first.level, LogLevel::Info);
    assert_eq!(first.kind, TaskKind::HttpListener);
    assert_eq!(sup.phase(), Phase::Running);
    let last = sup.on_completion(2, Completion::Success).unwrap();
    assert_eq!(last.level, LogLevel::Info);
    assert_eq!(last.kind, TaskKind::StateWriter);
    assert_eq!(sup.phase(), Phase::Stopped);
    assert_eq!(sup.pending(), 0);
}

#[test]
fn spawn_failure_is_an_error_and_stops_nothing_else() {
    let mut sup = Supervisor::new(build_tasks(2));
    assert_eq!(sup.pending(), 5);
    let report = sup.on_completion(4, Completion::SpawnFailure).unwrap();
    assert_eq!(report.level, LogLevel::Error);
    assert_eq!(report.kind, TaskKind::BrokerClient(1));
    assert_eq!(sup.pending(), 4);
    assert_eq!(sup.phase(), Phase::Running);
}

#[test]
fn completion_counts_once_and_unknown_tasks_are_ignored() {
    let mut sup = Supervisor::new(build_tasks(0));
    assert!(sup.on_completion(0, Completion::Success).is_some());
    assert_eq!(sup.on_completion(0, Completion::TaskError), None);
    assert_eq!(sup.on_completion(3, Completion::Success), None);
    assert_eq!(sup.pending(), 2);
}

#[test]
fn draining_lasts_until_every_task_has_completed() {
    let mut sup = Supervisor::new(vec![TaskKind::HttpListener, TaskKind::StateWriter]);
    sup.request_stop();
    assert_eq!(sup.phase(), Phase::Draining);
    sup.on_completion(0, Completion::Success);
    assert_eq!(sup.phase(), Phase::Draining);
    sup.on_completion(1, Completion::TaskError);
    assert_eq!(sup.phase(), Phase::Stopped);
}

#[test]
fn supervisor_without_tasks_is_stopped() {
    let sup = Supervisor::new(Vec::new());
    assert_eq!(sup.phase(), Phase::Stopped);
}

#[test]
fn task_plan_lists_listeners_writer_and_one_client_per_broker() {
    assert_eq!(
        build_tasks(2),
        vec![
            TaskKind::HttpListener,
            TaskKind::HttpsListener,
            TaskKind::StateWriter,
            TaskKind::BrokerClient(0),
            TaskKind::BrokerClient(1),
        ]
    );
    assert_eq!(build_tasks(0).len(), 3);
}

#[test]
fn syslog_priorities() {
    assert_eq!(syslog_priority(LogLevel::Error), 3);
    assert_eq!(syslog_priority(LogLevel::Warn), 4);
    assert_eq!(syslog_priority(LogLevel::Info), 6);
    assert_eq!(syslog_priority(LogLevel::Debug), 7);
    assert_eq!(syslog_priority(LogLevel::Trace), 7);
}

#[test]
fn syslog_line_has_priority_target_and_message() {
    assert_eq!(syslog_format(LogLevel::Error, "bifrost", "it broke"), "<3>bifrost: it broke\n");
    assert_eq!(syslog_format(LogLevel::Info, "a::b", ""), "<6>a::b: \n");
    assert_eq!(syslog_format(LogLevel::Trace, "", "\u{e9}"), "<7>: \u{e9}\n");
}

#[test]
fn default_filters_are_joined_with_commas() {
    assert_eq!(
        default_log_filters(),
        "debug,mdns_sd=off,tower_http::trace::on_request=info,axum::rejection=trace"
    );
}

#[test]
fn logging_setup_follows_the_environment() {
    let plain = init_logging(None, None, 4711);
    assert_eq!(plain.format, LogFormat::Human);
    assert_eq!(plain.filters, default_log_filters());
    let service = init_logging(Some("warn".to_string()), Some("4711"), 4711);
    assert_eq!(service.format, LogFormat::Syslog);
    assert_eq!(service.filters, "warn");
    assert_eq!(init_logging(None, Some("4712"), 4711).format, LogFormat::Human);
    assert_eq!(init_logging(None, Some("04711"), 4711).format, LogFormat::Human);
    assert_eq!(init_logging(None, Some(""), 0).format, LogFormat::Human);
    assert_eq!(init_logging(None, Some("0"), 0).format, LogFormat::Syslog);
    assert_eq!(init_logging(None, Some("4294967295"), u32::MAX).format, LogFormat::Syslog);
}

#[test]
fn numbers_in_digits() {
    assert_eq!(decimal_string(0), "0");
    assert_eq!(decimal_string(10), "10");
    assert_eq!(decimal_string(u64::MAX), "18446744073709551615");
    assert_eq!(id_string(0), "00000000000000000000000000000000");
    assert_eq!(id_string(0x0123456789abcdef0123456789abcdef), "0123456789abcdef0123456789abcdef");
    let mut buf = Vec::new();
    push_hex(&mut buf, 0x1f, 4);
    push_decimal(&mut buf, 907);
    assert_eq!(buf, b"001f907".to_vec());
    let mut cut = Vec::new();
    push_hex(&mut cut, 0x123, 2);
    assert_eq!(cut, b"23".to_vec());
}

#[test]
fn hex_is_read_strictly() {
    assert_eq!(read_hex(b"xx00ffyy", 2, 4), Some(0xff));
    assert_eq!(read_hex(b"ffffffffffffffffffffffffffffffff", 0, 32), Some(u128::MAX));
    assert_eq!(read_hex(b"00FF", 0, 4), None);
    assert_eq!(read_hex(b"00f", 0, 4), None);
    assert_eq!(read_hex(b"00f ", 0, 4), None);
    assert_eq!(read_hex(b"", 0, 0), Some(0));
    assert_eq!(read_hex(b"12", usize::MAX, 2), None);
}

#[test]
fn texts_are_compared_by_their_characters() {
    assert!(str_eq("", ""));
    assert!(str_eq("\u{e9}a", "\u{e9}a"));
    assert!(!str_eq("a", "A"));
    assert!(!str_eq("a", "ab"));
    assert!(bytes_eq(b"ab", b"ab"));
    assert!(!bytes_eq(b"ab", b"ac"));
}
