use foc_devnet::commands::logs::log_entry_from;
use foc_devnet::commands::logs::{
    all_finished, follow_logs_args,
    current_run_containers, current_run_prefix, format_log_entry, is_current_run_container_name,
    logs, parse_container_logs, parse_log_line, plan_logs, prefixed_line, sort_log_entries,
    sorted_log_lines, stream_read_failure_line, ContainerOutput, LogsError, LogsMode, DEFAULT_FOLLOW_TAIL_LINES,
};
use foc_devnet::docker::logs::ContainerInfo;

fn container(name: &str) -> ContainerInfo {
    ContainerInfo { name: name.to_string(), image: "foc-lotus:latest".to_string(), status: "Up 2 minutes".to_string() }
}

#[test]
fn test_sort_log_entries_orders_by_timestamp_across_containers() {
    let mut entries = vec![
        parse_log_line("foc-run-curio-1", 1, 0, "2026-06-05T12:00:03Z curio"),
        parse_log_line("foc-run-lotus", 0, 0, "2026-06-05T12:00:01Z lotus"),
        parse_log_line("foc-run-builder", 2, 0, "2026-06-05T12:00:02Z builder"),
    ];

    sort_log_entries(&mut entries);

    let messages: Vec<&str> = entries.iter().map(|entry| entry.message.as_str()).collect();
    assert_eq!(messages, vec!["lotus", "builder", "curio"]);
}

#[test]
fn test_parse_log_line_supports_nanosecond_timestamps() {
    let entry = parse_log_line(
        "foc-run-lotus",
        0,
        0,
        "2026-06-05T12:00:01.123456789Z ready",
    );

    assert!(entry.timestamp.is_some());
    assert_eq!(entry.timestamp_text, "2026-06-05T12:00:01.123456789Z");
    assert_eq!(entry.message, "ready");
}

#[test]
fn test_malformed_lines_are_printable_with_deterministic_order() {
    let mut entries = vec![
        parse_log_line("foc-run-curio-1", 1, 0, "curio without timestamp"),
        parse_log_line("foc-run-lotus", 0, 0, "lotus without timestamp"),
        parse_log_line(
            "foc-run-lotus",
            0,
            1,
            "2026-06-05T12:00:01Z lotus timestamped",
        ),
    ];

    sort_log_entries(&mut entries);

    let printable: Vec<String> = entries
        .iter()
        .map(|entry| {
            format!(
                "{} {} | {}",
                entry.timestamp_text, entry.container_name, entry.message
            )
        })
        .collect();

    assert_eq!(
        printable,
        vec![
            "2026-06-05T12:00:01Z foc-run-lotus | lotus timestamped",
            "NO_TIMESTAMP foc-run-lotus | lotus without timestamp",
            "NO_TIMESTAMP foc-run-curio-1 | curio without timestamp",
        ]
    );
}

#[test]
fn test_current_run_container_filter_prefix() {
    let run_id = "20260605T1234_TestRun";
    let current_run_prefix = format!("foc-{}-", run_id);
    let containers = [
        "foc-20260605T1234_OldRun-lotus",
        "foc-20260605T1234_TestRun-lotus",
        "foc-20260605T1234_TestRun-curio-1",
        "foc-20260605T1234_TestRun-portainer",
        "foc-observer-postgres-calibnet-1",
    ];

    let filtered: Vec<&str> = containers
        .iter()
        .copied()
        .filter(|name| is_current_run_container_name(name, &current_run_prefix))
        .collect();

    assert_eq!(
        filtered,
        vec![
            "foc-20260605T1234_TestRun-lotus",
            "foc-20260605T1234_TestRun-curio-1",
            "foc-20260605T1234_TestRun-portainer",
        ]
    );
}

#[test]
fn test_tail_requires_follow() {
    let err = logs(false, Some(50)).unwrap_err().to_string();
    assert_eq!(err, "--tail can only be used with --follow");
}

#[test]
fn logs_modes() {
    assert_eq!(logs(false, None).unwrap(), LogsMode::Print);
    assert_eq!(logs(true, None).unwrap(), LogsMode::Follow { tail: DEFAULT_FOLLOW_TAIL_LINES });
    assert_eq!(logs(true, None).unwrap(), LogsMode::Follow { tail: 100 });
    assert_eq!(logs(true, Some(50)).unwrap(), LogsMode::Follow { tail: 50 });
}

#[test]
fn parse_log_line_keeps_line_without_valid_timestamp() {
    let entry = parse_log_line("foc-x", 3, 7, "notatime hello world");
    assert!(entry.timestamp.is_none());
    assert_eq!(entry.timestamp_text, "NO_TIMESTAMP");
    assert_eq!(entry.message, "notatime hello world");
    assert_eq!(entry.container_index, 3);
    assert_eq!(entry.line_index, 7);

    let bare = parse_log_line("foc-x", 0, 0, "2026-06-05T12:00:01Z");
    assert!(bare.timestamp.is_none());
    assert_eq!(bare.message, "2026-06-05T12:00:01Z");

    let empty_message = parse_log_line("foc-x", 0, 0, "2026-06-05T12:00:01Z ");
    assert!(empty_message.timestamp.is_some());
    assert_eq!(empty_message.message, "");

    let offset = parse_log_line("foc-x", 0, 0, "2026-06-05T14:00:01+02:00 later text");
    assert_eq!(offset.timestamp, parse_log_line("foc-x", 0, 0, "2026-06-05T12:00:01Z x").timestamp);
    assert_eq!(offset.message, "later text");
}

#[test]
fn timestamps_are_read_as_instants() {
    let entry = parse_log_line("foc-x", 0, 0, "1970-01-01T00:00:01.5Z m");
    assert_eq!(entry.timestamp, Some((1, 500_000_000)));
}

#[test]
fn equal_instants_order_by_container_name_then_line() {
    let mut entries = vec![
        parse_log_line("foc-b", 0, 1, "2026-06-05T12:00:01Z b1"),
        parse_log_line("foc-b", 0, 0, "2026-06-05T12:00:01Z b0"),
        parse_log_line("foc-a", 1, 5, "2026-06-05T12:00:01Z a5"),
        parse_log_line("foc-z", 2, 0, "no time z"),
        parse_log_line("foc-y", 1, 0, "no time y"),
        parse_log_line("foc-a", 0, 9, "2026-06-05T12:00:00.999999999Z early"),
    ];
    sort_log_entries(&mut entries);
    let messages: Vec<&str> = entries.iter().map(|e| e.message.as_str()).collect();
    assert_eq!(messages, vec!["early", "a5", "b0", "b1", "no time y", "no time z"]);
}

#[test]
fn sorting_keeps_equal_entries_in_order() {
    let mut entries = vec![
        parse_log_line("foc-a", 0, 0, "first"),
        parse_log_line("foc-a", 0, 0, "second"),
    ];
    sort_log_entries(&mut entries);
    assert_eq!(entries[0].message, "first");
    assert_eq!(entries[1].message, "second");
    let mut once = entries.clone();
    sort_log_entries(&mut once);
    assert_eq!(once[0].message, "first");
}

#[test]
fn container_logs_are_numbered() {
    let lines = vec!["2026-06-05T12:00:01Z a".to_string(), "b".to_string()];
    let entries = parse_container_logs("foc-c", 4, &lines);
    assert_eq!(entries.len(), 2);
    assert_eq!(entries[0].line_index, 0);
    assert_eq!(entries[1].line_index, 1);
    assert_eq!(entries[1].container_index, 4);
    assert_eq!(entries[1].message, "b");
}

#[test]
fn combined_log_is_sorted_and_formatted() {
    let outputs = vec![
        ContainerOutput {
            name: "foc-r-curio".to_string(),
            stdout: "2026-06-05T12:00:03Z c1\r\n2026-06-05T12:00:01Z c0\n".to_string(),
            stderr: "oops\n".to_string(),
        },
        ContainerOutput {
            name: "foc-r-lotus".to_string(),
            stdout: "2026-06-05T12:00:02Z l0".to_string(),
            stderr: String::new(),
        },
    ];
    let lines = sorted_log_lines(&outputs);
    assert_eq!(
        lines,
        vec![
            "2026-06-05T12:00:01Z foc-r-curio | c0",
            "2026-06-05T12:00:02Z foc-r-lotus | l0",
            "2026-06-05T12:00:03Z foc-r-curio | c1",
            "NO_TIMESTAMP foc-r-curio | oops",
        ]
    );
}

#[test]
fn followed_lines_are_prefixed() {
    assert_eq!(
        prefixed_line("foc-r-lotus", "2026-06-05T12:00:01Z ready"),
        "2026-06-05T12:00:01Z foc-r-lotus | ready"
    );
    assert_eq!(prefixed_line("foc-r-lotus", "plain"), "NO_TIMESTAMP foc-r-lotus | plain");
    let entry = parse_log_line("n", 0, 0, "x y");
    assert_eq!(format_log_entry(&entry), "NO_TIMESTAMP n | x y");
}

#[test]
fn current_run_containers_are_selected_and_sorted_by_name() {
    assert_eq!(current_run_prefix("R1"), "foc-R1-");
    let all = vec![
        container("foc-R1-portainer"),
        container("foc-R2-lotus"),
        container("foc-R1-curio-1"),
        container("foc-R1-"),
        container("foc-R1"),
        container("postgres"),
    ];
    let selected = current_run_containers("R1", all);
    let names: Vec<&str> = selected.iter().map(|c| c.name.as_str()).collect();
    assert_eq!(names, vec!["foc-R1-", "foc-R1-curio-1", "foc-R1-portainer"]);
}

#[test]
fn plan_logs_needs_containers() {
    let err = plan_logs(LogsMode::Print, "R9", vec![container("foc-R1-lotus")]).err().unwrap();
    assert_eq!(err.to_string(), "No foc-devnet containers found for current run ID 'R9'");
    assert!(matches!(err, LogsError::NoContainers { .. }));

    let plan = plan_logs(
        LogsMode::Follow { tail: 5 },
        "R1",
        vec![container("foc-R1-lotus"), container("foc-R1-curio")],
    )
    .ok()
    .unwrap();
    assert_eq!(plan.mode, LogsMode::Follow { tail: 5 });
    let names: Vec<&str> = plan.containers.iter().map(|c| c.name.as_str()).collect();
    assert_eq!(names, vec!["foc-R1-curio", "foc-R1-lotus"]);
}

#[test]
fn container_logs_error_message() {
    let err = LogsError::ContainerLogs {
        container_name: "foc-R1-lotus".to_string(),
        error: "boom".to_string(),
    };
    assert_eq!(err.to_string(), "Failed to get logs for container 'foc-R1-lotus': boom");
}

#[test]
fn follow_container_error_message() {
    let err = LogsError::FollowContainer {
        container_name: "foc-R1-curio".to_string(),
        error: "No such file or directory (os error 2)".to_string(),
    };
    assert_eq!(
        err.to_string(),
        "Failed to follow logs for container 'foc-R1-curio': No such file or directory (os error 2)"
    );
}

#[test]
fn stream_read_failure_is_reported_as_an_untimed_line() {
    assert_eq!(
        stream_read_failure_line("foc-R1-lotus", "stream did not contain valid UTF-8"),
        "NO_TIMESTAMP foc-R1-lotus | failed to read log stream: stream did not contain valid UTF-8"
    );
    assert_eq!(stream_read_failure_line("", ""), "NO_TIMESTAMP  | failed to read log stream: ");
}

#[test]
fn entries_are_built_from_the_timestamp_reading() {
    let timed = log_entry_from("foc-a", 1, 2, "T0 hello there", Some((5, 6)));
    assert_eq!(timed.timestamp, Some((5, 6)));
    assert_eq!(timed.timestamp_text, "T0");
    assert_eq!(timed.message, "hello there");
    let untimed = log_entry_from("foc-a", 1, 2, "T0 hello there", None);
    assert_eq!(untimed.timestamp, None);
    assert_eq!(untimed.timestamp_text, "NO_TIMESTAMP");
    assert_eq!(untimed.message, "T0 hello there");
    let no_space = log_entry_from("foc-a", 1, 2, "T0", Some((5, 6)));
    assert_eq!(no_space.timestamp, None);
    assert_eq!(no_space.message, "T0");
}

#[test]
fn follow_command_and_stop_rule() {
    assert_eq!(
        follow_logs_args("foc-r-lotus", 100),
        vec!["logs", "--timestamps", "--follow", "--tail", "100", "foc-r-lotus"]
    );
    assert_eq!(follow_logs_args("c", 0)[4], "0");
    assert!(all_finished(&vec![]));
    assert!(all_finished(&vec![false, false]));
    assert!(!all_finished(&vec![false, true]));
}

#[test]
fn rearranged_entries_sort_alike() {
    let a = parse_log_line("foc-a", 0, 0, "2026-06-05T12:00:02Z a");
    let b = parse_log_line("foc-b", 1, 0, "2026-06-05T12:00:01Z b");
    let c = parse_log_line("foc-c", 2, 0, "no time");
    let mut xs = vec![a.clone(), b.clone(), c.clone()];
    let mut ys = vec![c, a, b];
    sort_log_entries(&mut xs);
    sort_log_entries(&mut ys);
    assert_eq!(xs, ys);
}
