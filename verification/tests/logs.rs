use wireport::logs::{
    append_log, append_log_at, classify_stderr_line, fail_start, log_process_output,
    log_unexpected_exit, parse_worker_log, strip_wireproxy_prefix, workers_message_text, LogBook,
    WorkerStartupCount, WorkerType,
};
use wireport::text::text_lines_of;
use wireport::settings::{apply_log_setting, AppSettings};

fn id(s: &str) -> String {
    s.to_string()
}

fn messages(book: &LogBook, profile: &str) -> Vec<String> {
    book.profile_logs(&id(profile))
        .into_iter()
        .map(|e| e.message)
        .collect()
}

#[test]
fn classifies_log_levels_correctly() {
    assert_eq!(classify_stderr_line("something failed"), "ERROR");
    assert_eq!(classify_stderr_line("ERROR: bad thing"), "ERROR");
    assert_eq!(classify_stderr_line("warning: deprecated"), "WARN");
    assert_eq!(classify_stderr_line("just info"), "DEBUG");
}

#[test]
fn classifies_other_error_words_and_case() {
    assert_eq!(classify_stderr_line("FATAL: cannot bind"), "ERROR");
    assert_eq!(classify_stderr_line("goroutine Panic"), "ERROR");
    assert_eq!(classify_stderr_line("Unable to resolve host"), "ERROR");
    assert_eq!(classify_stderr_line("WARN: slow handshake"), "WARN");
    assert_eq!(classify_stderr_line(""), "DEBUG");
}

#[test]
fn strips_the_wireproxy_prefix() {
    assert_eq!(
        strip_wireproxy_prefix("DEBUG: 2024/01/15 10:30:00 peer(abc) - Sending handshake"),
        "peer(abc) - Sending handshake"
    );
    assert_eq!(
        strip_wireproxy_prefix("error: 2024/01/15 10:30:00 something broke"),
        "something broke"
    );
}

#[test]
fn keeps_lines_without_a_full_prefix() {
    assert_eq!(strip_wireproxy_prefix("just a message"), "just a message");
    assert_eq!(
        strip_wireproxy_prefix("NOTICE: 2024/01/15 10:30:00 x"),
        "NOTICE: 2024/01/15 10:30:00 x"
    );
    assert_eq!(
        strip_wireproxy_prefix("INFO: 2024-01-15 10:30:00 x"),
        "INFO: 2024-01-15 10:30:00 x"
    );
    assert_eq!(
        strip_wireproxy_prefix("INFO: 2024/01/15 10.30.00 x"),
        "INFO: 2024/01/15 10.30.00 x"
    );
    assert_eq!(strip_wireproxy_prefix("INFO: 2024/01/15 10:30:00"), "INFO: 2024/01/15 10:30:00");
}

#[test]
fn recognises_worker_start_messages() {
    assert_eq!(
        parse_worker_log("Routine: encryption worker 3 - started"),
        Some(WorkerType::Encryption)
    );
    assert_eq!(
        parse_worker_log("Routine: decryption worker 1 - started"),
        Some(WorkerType::Decryption)
    );
    assert_eq!(
        parse_worker_log("Routine: handshake worker 2 - started"),
        Some(WorkerType::Handshake)
    );
    assert_eq!(parse_worker_log("Routine: encryption worker 3 - stopped"), None);
    assert_eq!(parse_worker_log("Routine: receive incoming v4 - started"), None);
    assert_eq!(parse_worker_log("encryption worker 3 - started"), None);
}

#[test]
fn worker_summary_text() {
    let c = WorkerStartupCount { encryption: 8, decryption: 8, handshake: 2 };
    assert_eq!(
        workers_message_text(c),
        "WireGuard workers initialized: 8 encryption, 8 decryption, 2 handshake"
    );
    assert_eq!(WorkerStartupCount::default(), WorkerStartupCount { encryption: 0, decryption: 0, handshake: 0 });
}

#[test]
fn appended_lines_lose_the_prefix_and_keep_their_level() {
    let mut book = LogBook::new();
    append_log_at(&mut book, false, &id("p"), "INFO", "DEBUG: 2024/01/15 10:30:00 hello", "2024-01-15 10:30:00".to_string());
    let logs = book.profile_logs(&id("p"));
    assert_eq!(logs.len(), 1);
    assert_eq!(logs[0].message, "hello");
    assert_eq!(logs[0].level, "INFO");
    assert_eq!(logs[0].timestamp, "2024-01-15 10:30:00");
    assert!(book.profile_logs(&id("other")).is_empty());
}

#[test]
fn worker_messages_collapse_into_one_summary() {
    let mut book = LogBook::new();
    let p = id("p");
    append_log_at(&mut book, false, &p, "INFO", "Starting WireProxy", "t0".to_string());
    append_log_at(&mut book, false, &p, "DEBUG", "DEBUG: 2024/01/15 10:30:00 Routine: encryption worker 1 - started", "t1".to_string());
    append_log_at(&mut book, false, &p, "DEBUG", "Routine: encryption worker 2 - started", "t2".to_string());
    append_log_at(&mut book, false, &p, "DEBUG", "Routine: handshake worker 1 - started", "t3".to_string());
    let logs = book.profile_logs(&p);
    assert_eq!(logs.len(), 2);
    assert_eq!(logs[1].message, "WireGuard workers initialized: 2 encryption, 0 decryption, 1 handshake");
    assert_eq!(logs[1].level, "DEBUG");
    assert_eq!(logs[1].timestamp, "t3");
    assert_eq!(book.worker_counts(&p), WorkerStartupCount { encryption: 2, decryption: 0, handshake: 1 });
}

#[test]
fn summary_further_back_than_ten_lines_is_not_reused() {
    let mut book = LogBook::new();
    let p = id("p");
    append_log_at(&mut book, false, &p, "DEBUG", "Routine: decryption worker 1 - started", "t".to_string());
    for i in 0..10 {
        append_log_at(&mut book, false, &p, "INFO", &format!("line {}", i), "t".to_string());
    }
    append_log_at(&mut book, false, &p, "DEBUG", "Routine: decryption worker 2 - started", "t".to_string());
    let msgs = messages(&book, "p");
    assert_eq!(msgs.len(), 12);
    assert_eq!(msgs[0], "WireGuard workers initialized: 0 encryption, 1 decryption, 0 handshake");
    assert_eq!(msgs[11], "WireGuard workers initialized: 0 encryption, 2 decryption, 0 handshake");
}

#[test]
fn a_log_keeps_its_last_thousand_lines() {
    let mut book = LogBook::new();
    let p = id("p");
    for i in 0..1005 {
        append_log_at(&mut book, false, &p, "INFO", &format!("line {}", i), "t".to_string());
    }
    let msgs = messages(&book, "p");
    assert_eq!(msgs.len(), 1000);
    assert_eq!(msgs[0], "line 5");
    assert_eq!(msgs[999], "line 1004");
}

#[test]
fn disabled_logging_records_nothing() {
    let mut book = LogBook::new();
    append_log(&mut book, true, &id("p"), "INFO", "hello");
    append_log(&mut book, true, &id("p"), "DEBUG", "Routine: encryption worker 1 - started");
    assert!(book.profile_logs(&id("p")).is_empty());
    assert_eq!(book.worker_counts(&id("p")), WorkerStartupCount::default());
}

#[test]
fn append_log_stamps_local_time() {
    let mut book = LogBook::new();
    append_log(&mut book, false, &id("p"), "INFO", "hello");
    let logs = book.profile_logs(&id("p"));
    assert_eq!(logs.len(), 1);
    assert_eq!(logs[0].timestamp.len(), 19);
    assert_eq!(logs[0].timestamp.chars().nth(10), Some(' '));
}

#[test]
fn clearing_one_profile_leaves_the_others() {
    let mut book = LogBook::new();
    append_log_at(&mut book, false, &id("a"), "INFO", "one", "t".to_string());
    append_log_at(&mut book, false, &id("b"), "INFO", "two", "t".to_string());
    book.clear_profile_logs(&id("a"));
    assert!(book.profile_logs(&id("a")).is_empty());
    assert_eq!(messages(&book, "b"), vec!["two".to_string()]);
    book.clear_all_logs();
    assert!(book.profile_logs(&id("b")).is_empty());
}

#[test]
fn resetting_worker_counts() {
    let mut book = LogBook::new();
    let p = id("p");
    append_log_at(&mut book, false, &p, "DEBUG", "Routine: encryption worker 1 - started", "t".to_string());
    book.set_worker_counts(&p, WorkerStartupCount::default());
    assert_eq!(book.worker_counts(&p), WorkerStartupCount::default());
    assert_eq!(messages(&book, "p").len(), 1);
}

#[test]
fn failed_start_logs_three_errors_and_returns_the_reason() {
    let mut book = LogBook::new();
    let p = id("p");
    let r = fail_start(&mut book, false, &p, "Port must be between 1024 and 65535".to_string());
    assert_eq!(r, "Port must be between 1024 and 65535");
    let logs = book.profile_logs(&p);
    let msgs: Vec<&str> = logs.iter().map(|e| e.message.as_str()).collect();
    assert_eq!(
        msgs,
        vec![
            "Port must be between 1024 and 65535",
            "Process exited unexpectedly",
            "WireProxy exited unexpectedly (exit code: unknown)",
        ]
    );
    assert!(logs.iter().all(|e| e.level == "ERROR"));
}

#[test]
fn unexpected_exit_logs_its_code() {
    let mut book = LogBook::new();
    let p = id("p");
    log_unexpected_exit(&mut book, false, &p, Some(-2));
    assert_eq!(
        messages(&book, "p"),
        vec![
            "Process exited unexpectedly".to_string(),
            "WireProxy exited unexpectedly (exit code: -2)".to_string(),
        ]
    );
}

#[test]
fn saving_settings_with_logging_off_clears_logs() {
    let mut book = LogBook::new();
    append_log_at(&mut book, false, &id("a"), "INFO", "one", "t".to_string());
    let keep = AppSettings::new(String::new(), None, None);
    assert!(!apply_log_setting(&mut book, &keep));
    assert_eq!(messages(&book, "a").len(), 1);
    let off = AppSettings::new(String::new(), Some(false), Some(true));
    assert!(apply_log_setting(&mut book, &off));
    assert!(book.profile_logs(&id("a")).is_empty());
}

#[test]
fn lines_split_like_str_lines() {
    assert_eq!(text_lines_of("foo\nbar\n\r\nbaz\r"), vec!["foo", "bar", "", "baz\r"]);
    assert_eq!(text_lines_of(""), Vec::<String>::new());
    assert_eq!(text_lines_of("\n"), vec![""]);
    assert_eq!(text_lines_of("a\r\nb\n"), vec!["a", "b"]);
}

#[test]
fn process_output_is_logged_line_by_line() {
    let mut book = LogBook::new();
    let p = id("p");
    log_process_output(
        &mut book,
        false,
        &p,
        "hello\nRoutine: encryption worker 1 - started\n",
        "WARN: 2024/01/15 10:30:00 slow\nfatal: no route\n",
    );
    let logs = book.profile_logs(&p);
    let got: Vec<(&str, &str)> = logs.iter().map(|e| (e.level.as_str(), e.message.as_str())).collect();
    assert_eq!(
        got,
        vec![
            ("INFO", "hello"),
            ("DEBUG", "WireGuard workers initialized: 1 encryption, 0 decryption, 0 handshake"),
            ("WARN", "slow"),
            ("ERROR", "fatal: no route"),
        ]
    );
    let mut quiet = LogBook::new();
    log_process_output(&mut quiet, true, &p, "hello\n", "err\n");
    assert!(quiet.profile_logs(&p).is_empty());
}

#[test]
fn a_full_worker_count_refuses_only_its_own_kind() {
    let mut book = LogBook::new();
    let p = id("p");
    book.set_worker_counts(&p, WorkerStartupCount { encryption: usize::MAX, decryption: 3, handshake: 0 });
    assert!(!book.can_log_message(&p, "Routine: encryption worker 9 - started"));
    assert!(book.can_log_message(&p, "Routine: decryption worker 4 - started"));
    assert!(book.can_log_message(&p, "plain message"));
    assert!(book.can_log_message(&id("other"), "Routine: encryption worker 1 - started"));
}
