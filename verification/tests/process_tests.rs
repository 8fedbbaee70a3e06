use mixtape::tools::process::{
    default_force, default_response_timeout, default_timeout, default_wait, parse_interact_output,
    parse_process_output, parse_start_output, ForceTerminateInput, ForceTerminateTool,
    InteractWithProcessTool, KillProcessInput, KillProcessTool, ListProcessesTool,
    ListSessionsTool, ReadProcessOutputTool, StartProcessTool,
};
use mixtape::tools::session::{prompt_pattern, ProcessState};

// ==================== start_process ====================

#[test]
fn test_parse_start_output_complete() {
    let output = "Started process: echo hello\nPID: 12345\nStatus: Running\nInitial output:\nHello World\nLine 2";
    let (command, pid, status, lines) = parse_start_output(output);

    assert_eq!(command, Some("echo hello"));
    assert_eq!(pid, Some("12345"));
    assert_eq!(status, Some("Running"));
    assert_eq!(lines, vec!["Hello World", "Line 2"]);
}

#[test]
fn test_parse_start_output_no_output() {
    let output = "Started process: sleep 10\nPID: 12345\nStatus: Running";
    let (command, pid, status, lines) = parse_start_output(output);

    assert_eq!(command, Some("sleep 10"));
    assert_eq!(pid, Some("12345"));
    assert_eq!(status, Some("Running"));
    assert!(lines.is_empty());
}

#[test]
fn test_parse_start_output_empty() {
    let output = "";
    let (command, pid, status, lines) = parse_start_output(output);

    assert_eq!(command, None);
    assert_eq!(pid, None);
    assert_eq!(status, None);
    assert!(lines.is_empty());
}

#[test]
fn test_parse_start_output_partial() {
    let output = "PID: 99999";
    let (command, pid, status, lines) = parse_start_output(output);

    assert_eq!(command, None);
    assert_eq!(pid, Some("99999"));
    assert_eq!(status, None);
    assert!(lines.is_empty());
}

#[test]
fn test_parse_start_output_with_more_lines_indicator() {
    let output = "Started process: cmd\nPID: 1\nStatus: Running\nInitial output:\nline1\n... and 5 more lines";
    let (_, _, _, lines) = parse_start_output(output);

    // The "... and X more lines" should be filtered out
    assert_eq!(lines, vec!["line1"]);
}

#[test]
fn start_process_test_tool_name() {
    let tool = StartProcessTool;
    assert_eq!(tool.name(), "start_process");
}

#[test]
fn start_process_test_tool_description() {
    let tool = StartProcessTool;
    assert!(!tool.description().is_empty());
    assert!(tool.description().contains("process"));
}

// ==================== read_process_output ====================

#[test]
fn test_parse_process_output_complete() {
    let output = "Process 12345\nStatus: Running\n\nOutput (3 lines):\nline1\nline2\nline3";
    let (pid, status, lines) = parse_process_output(output);

    assert_eq!(pid, Some("12345"));
    assert_eq!(status, Some("Running"));
    assert_eq!(lines, vec!["line1", "line2", "line3"]);
}

#[test]
fn test_parse_process_output_no_output() {
    let output = "Process 12345\nStatus: Running\nNo new output";
    let (pid, status, lines) = parse_process_output(output);

    assert_eq!(pid, Some("12345"));
    assert_eq!(status, Some("Running"));
    assert!(lines.is_empty());
}

#[test]
fn test_parse_process_output_empty() {
    let output = "";
    let (pid, status, lines) = parse_process_output(output);

    assert_eq!(pid, None);
    assert_eq!(status, None);
    assert!(lines.is_empty());
}

#[test]
fn test_parse_process_output_completed_status() {
    let output =
        "Process 999\nStatus: Completed { exit_code: Some(0) }\n\nOutput (1 lines):\ndone";
    let (pid, status, lines) = parse_process_output(output);

    assert_eq!(pid, Some("999"));
    assert_eq!(status, Some("Completed { exit_code: Some(0) }"));
    assert_eq!(lines, vec!["done"]);
}

#[test]
fn test_parse_process_output_multiline() {
    let output = "Process 1\nStatus: Running\n\nOutput (5 lines):\na\nb\nc\nd\ne";
    let (_, _, lines) = parse_process_output(output);

    assert_eq!(lines.len(), 5);
}

#[test]
fn read_process_output_test_default_timeout() {
    assert_eq!(default_timeout(), 5000);
}

#[test]
fn read_process_output_test_tool_name() {
    let tool = ReadProcessOutputTool;
    assert_eq!(tool.name(), "read_process_output");
}

#[test]
fn read_process_output_test_tool_description() {
    let tool = ReadProcessOutputTool;
    assert!(!tool.description().is_empty());
    assert!(tool.description().contains("output"));
}

// ==================== interact_with_process ====================

#[test]
fn test_parse_interact_output_complete() {
    let output = "Sent to process 12345: hello\nStatus: Running (prompt_detected)\n\nResponse (2 lines):\nworld\nmore";
    let (pid, input_sent, status, lines) = parse_interact_output(output);

    assert_eq!(pid, Some("12345"));
    assert_eq!(input_sent, Some("hello"));
    assert_eq!(status, Some("Running (prompt_detected)"));
    assert_eq!(lines, vec!["world", "more"]);
}

#[test]
fn test_parse_interact_output_short_form() {
    let output = "Sent input to process 12345: test command";
    let (pid, input_sent, status, lines) = parse_interact_output(output);

    assert_eq!(pid, Some("12345"));
    assert_eq!(input_sent, Some("test command"));
    assert_eq!(status, None);
    assert!(lines.is_empty());
}

#[test]
fn test_parse_interact_output_empty() {
    let output = "";
    let (pid, input_sent, status, lines) = parse_interact_output(output);

    assert_eq!(pid, None);
    assert_eq!(input_sent, None);
    assert_eq!(status, None);
    assert!(lines.is_empty());
}

#[test]
fn test_parse_interact_output_with_multiline_response() {
    let output = "Sent to process 1: cmd\nStatus: Completed\n\nResponse (3 lines):\na\nb\nc";
    let (_, _, _, lines) = parse_interact_output(output);

    assert_eq!(lines.len(), 3);
    assert_eq!(lines, vec!["a", "b", "c"]);
}

#[test]
fn test_default_wait() {
    assert!(default_wait());
}

#[test]
fn test_default_response_timeout() {
    assert_eq!(default_response_timeout(), 5000);
}

#[test]
fn interact_with_process_test_tool_name() {
    let tool = InteractWithProcessTool;
    assert_eq!(tool.name(), "interact_with_process");
}

#[test]
fn interact_with_process_test_tool_description() {
    let tool = InteractWithProcessTool;
    assert!(!tool.description().is_empty());
    assert!(tool.description().contains("input"));
}

// ==================== force_terminate ====================

#[test]
fn test_default_force() {
    assert!(default_force());
}

#[test]
fn force_terminate_test_tool_name() {
    let tool = ForceTerminateTool;
    assert_eq!(tool.name(), "force_terminate");
}

#[test]
fn force_terminate_test_tool_description() {
    let tool = ForceTerminateTool;
    assert!(!tool.description().is_empty());
    assert!(
        tool.description().contains("terminate") || tool.description().contains("Terminate")
    );
}

#[test]
fn test_force_terminate_input_debug() {
    let input = ForceTerminateInput {
        pid: 12345,
        force: true,
    };
    let debug_str = format!("{:?}", input);
    assert!(debug_str.contains("12345"));
    assert!(debug_str.contains("true"));
}

// ==================== kill_process ====================

#[test]
fn kill_process_test_tool_name() {
    let tool = KillProcessTool;
    assert_eq!(tool.name(), "kill_process");
}

#[test]
fn kill_process_test_tool_description() {
    let tool = KillProcessTool;
    assert!(!tool.description().is_empty());
    assert!(tool.description().contains("Terminate") || tool.description().contains("kill"));
}

#[test]
fn test_kill_process_input_debug() {
    let input = KillProcessInput { pid: 12345 };
    let debug_str = format!("{:?}", input);
    assert!(debug_str.contains("12345"));
}

// ==================== list_processes / list_sessions ====================

#[test]
fn list_processes_test_tool_name() {
    let tool = ListProcessesTool;
    assert_eq!(tool.name(), "list_processes");
}

#[test]
fn list_processes_test_tool_description() {
    let tool = ListProcessesTool;
    assert!(!tool.description().is_empty());
    assert!(tool.description().contains("process"));
}

#[test]
fn list_sessions_test_tool_name() {
    let tool = ListSessionsTool;
    assert_eq!(tool.name(), "list_sessions");
}

#[test]
fn list_sessions_test_tool_description() {
    let tool = ListSessionsTool;
    assert!(!tool.description().is_empty());
    assert!(tool.description().contains("session"));
}

// ==================== prompt patterns ====================

#[test]
fn test_prompt_patterns_python_repl() {
    let p = prompt_pattern().unwrap();
    assert!(p.is_match(">>> "));
    assert!(p.is_match(">>>"));
}

#[test]
fn test_prompt_patterns_generic_prompt() {
    let p = prompt_pattern().unwrap();
    assert!(p.is_match("> "));
    assert!(p.is_match(">"));
}

#[test]
fn test_prompt_patterns_shell_prompts() {
    let p = prompt_pattern().unwrap();
    assert!(p.is_match("$ "));
    assert!(p.is_match("# ")); // root
    assert!(p.is_match("% ")); // zsh
}

#[test]
fn test_prompt_patterns_input_prompts() {
    let p = prompt_pattern().unwrap();
    assert!(p.is_match("Enter name: "));
    assert!(p.is_match("? "));
    assert!(p.is_match("password: "));
    assert!(p.is_match("Password: "));
}

#[test]
fn test_prompt_patterns_confirmation() {
    let p = prompt_pattern().unwrap();
    assert!(p.is_match("Continue? (yes/no) "));
    assert!(p.is_match("[Y/n] "));
    assert!(p.is_match("[y/N] "));
}

#[test]
fn test_prompt_patterns_language_repls() {
    let p = prompt_pattern().unwrap();
    assert!(p.is_match("irb(main):001:0> "));
    assert!(p.is_match("pry(main)> "));
    assert!(p.is_match("iex(1)> "));
    assert!(p.is_match("scala> "));
    assert!(p.is_match("ghci> "));
}

#[test]
fn test_prompt_patterns_database_prompts() {
    let p = prompt_pattern().unwrap();
    assert!(p.is_match("sqlite> "));
    assert!(p.is_match("mysql> "));
    assert!(p.is_match("postgres=# "));
    assert!(p.is_match("postgres=> "));
    assert!(p.is_match("redis-cli> "));
}

#[test]
fn test_prompt_patterns_non_prompts() {
    let p = prompt_pattern().unwrap();
    // Regular output should NOT match
    assert!(!p.is_match("Hello World"));
    assert!(!p.is_match("Processing..."));
    assert!(!p.is_match("Error: something went wrong"));
    assert!(!p.is_match("123456"));
    assert!(!p.is_match("file.txt"));
}

#[test]
fn test_prompt_patterns_partial_matches() {
    let p = prompt_pattern().unwrap();
    // Should match at end of line
    assert!(p.is_match("user@host:~$ "));
    // Middle of line should not match (due to $ anchor)
    assert!(!p.is_match("$ echo hello"));
}

// ==================== ProcessState ====================

#[test]
fn test_process_state_equality() {
    assert_eq!(ProcessState::Running, ProcessState::Running);
    assert_eq!(ProcessState::WaitingForInput, ProcessState::WaitingForInput);
    assert_eq!(ProcessState::TimedOut, ProcessState::TimedOut);
    assert_eq!(
        ProcessState::Completed { exit_code: Some(0) },
        ProcessState::Completed { exit_code: Some(0) }
    );
    assert_ne!(
        ProcessState::Completed { exit_code: Some(0) },
        ProcessState::Completed { exit_code: Some(1) }
    );
}

#[test]
fn test_process_state_debug() {
    let running = ProcessState::Running;
    let completed = ProcessState::Completed { exit_code: Some(0) };
    assert!(format!("{:?}", running).contains("Running"));
    assert!(format!("{:?}", completed).contains("Completed"));
}

#[test]
fn test_process_state_clone() {
    let state = ProcessState::Completed {
        exit_code: Some(42),
    };
    let cloned = state.clone();
    assert_eq!(state, cloned);
}

use mixtape::tools::process::{
    input_sent_report, interact_report, kill_outcome, output_report, process_not_found,
    start_report, terminate_report,
};
use mixtape::tools::session::{
    exit_reason, is_timed_out, max_polls, next_state, strip_ansi_codes, waiting_for_input,
};

#[test]
fn test_strip_ansi_codes_empty_string() {
    assert_eq!(strip_ansi_codes(""), "");
}

#[test]
fn test_strip_ansi_codes_no_codes() {
    assert_eq!(strip_ansi_codes("Hello World"), "Hello World");
}

#[test]
fn test_strip_ansi_codes_single_color() {
    assert_eq!(strip_ansi_codes("\x1b[32mGreen\x1b[0m"), "Green");
}

#[test]
fn test_strip_ansi_codes_multiple_colors() {
    assert_eq!(strip_ansi_codes("\x1b[31mRed\x1b[0m and \x1b[34mBlue\x1b[0m"), "Red and Blue");
}

#[test]
fn test_strip_ansi_codes_complex_sequences() {
    assert_eq!(strip_ansi_codes("\x1b[1;4;31mBold underline red\x1b[0m"), "Bold underline red");
}

#[test]
fn test_strip_ansi_codes_256_colors() {
    assert_eq!(strip_ansi_codes("\x1b[38;5;208mOrange\x1b[0m"), "Orange");
}

#[test]
fn test_strip_ansi_codes_cursor_movement() {
    assert_eq!(strip_ansi_codes("\x1b[2Aup\x1b[3Bdown"), "updown");
}

#[test]
fn test_strip_ansi_codes_preserves_other_escapes() {
    assert_eq!(strip_ansi_codes("Line1\nLine2\tTabbed"), "Line1\nLine2\tTabbed");
}

#[test]
fn strip_ansi_codes_agrees_with_the_expression() {
    let re = regex::Regex::new(r"\x1b\[[0-9;]*[a-zA-Z]").unwrap();
    for s in [
        "\x1b[", "\x1b[1", "\x1b[1;", "\x1b[x", "a\x1b[\x1b[31mb", "\x1b\x1b[0m", "\x1b[12;34;56H.",
        "\x1b[;;;m", "plain", "\x1b[9é", "\x1b[9Zé\x1b[", "[31m",
    ] {
        assert_eq!(strip_ansi_codes(s), re.replace_all(s, "").to_string(), "{:?}", s);
    }
}

#[test]
fn prompt_waiting_on_last_line_only() {
    let p = prompt_pattern().unwrap();
    let buffer = vec!["Welcome".to_string(), "\x1b[32m>>> \x1b[0m".to_string()];
    assert!(waiting_for_input(&buffer, &p));
    let buffer = vec![">>> ".to_string(), "computing".to_string()];
    assert!(!waiting_for_input(&buffer, &p));
    assert!(!waiting_for_input(&vec![], &p));
}

#[test]
fn session_state_decisions() {
    assert!(!is_timed_out(1_000_000, None));
    assert!(is_timed_out(101, Some(100)));
    assert!(!is_timed_out(100, Some(100)));
    assert_eq!(next_state(Some(Some(3)), true, true), ProcessState::Completed { exit_code: Some(3) });
    assert_eq!(next_state(None, true, true), ProcessState::TimedOut);
    assert_eq!(next_state(None, false, true), ProcessState::WaitingForInput);
    assert_eq!(next_state(None, false, false), ProcessState::Running);
    assert_eq!(max_polls(5000), 100);
    assert_eq!(max_polls(60_000), 200);
    assert_eq!(exit_reason(&ProcessState::Running), None);
    assert_eq!(exit_reason(&ProcessState::WaitingForInput), Some("prompt_detected"));
    assert_eq!(exit_reason(&ProcessState::Completed { exit_code: None }), Some("process_exited"));
    assert_eq!(exit_reason(&ProcessState::TimedOut), Some("process_timeout"));
}

#[test]
fn state_text_matches_debug() {
    for s in [
        ProcessState::Running,
        ProcessState::WaitingForInput,
        ProcessState::TimedOut,
        ProcessState::Completed { exit_code: None },
        ProcessState::Completed { exit_code: Some(0) },
        ProcessState::Completed { exit_code: Some(-15) },
        ProcessState::Completed { exit_code: Some(i32::MIN) },
    ] {
        assert_eq!(s.text(), format!("{:?}", s));
    }
}

#[test]
fn start_report_reads_back() {
    let output: Vec<String> = (1..=23).map(|i| format!("line {}", i)).collect();
    let report = start_report("  echo hi ", 10001, &ProcessState::Running, &output);
    assert!(report.starts_with("Started process:   echo hi \nPID: 10001\nStatus: Running\n\nInitial output:\nline 1\n"));
    assert!(report.ends_with("line 20\n... and 3 more lines\n"));
    let (command, pid, status, lines) = parse_start_output(&report);
    assert_eq!(command, Some("echo hi"));
    assert_eq!(pid, Some("10001"));
    assert_eq!(status, Some("Running"));
    assert_eq!(lines.len(), 20);
    assert_eq!(lines[19], "line 20");
}

#[test]
fn process_reports() {
    assert_eq!(process_not_found(42), "Process 42 not found");
    assert_eq!(terminate_report(7, true), "Successfully force killed process 7");
    assert_eq!(terminate_report(7, false), "Successfully terminated process 7");
    assert_eq!(kill_outcome(9, None, false), Err("Process with PID 9 not found".to_string()));
    assert_eq!(
        kill_outcome(9, Some("sleep"), true),
        Ok("Successfully sent termination signal to process sleep (PID: 9)".to_string())
    );
    assert_eq!(
        kill_outcome(9, Some("sleep"), false),
        Err("Failed to terminate process sleep (PID: 9). Permission denied or process already terminated.".to_string())
    );
    let state = ProcessState::Completed { exit_code: Some(0) };
    assert_eq!(output_report(5, &state, &vec![]), "Process 5\nStatus: Completed { exit_code: Some(0) }\nNo new output");
    let out = output_report(5, &ProcessState::Running, &vec!["a".to_string(), "b".to_string()]);
    assert_eq!(out, "Process 5\nStatus: Running\n\nOutput (2 lines):\na\nb\n");
    let (pid, status, lines) = parse_process_output(&out);
    assert_eq!((pid, status, lines), (Some("5"), Some("Running"), vec!["a", "b"]));
    assert_eq!(input_sent_report(3, "ls"), "Sent input to process 3: ls");
    let r = interact_report(3, "ls", &ProcessState::WaitingForInput, "prompt_detected", &vec!["x".to_string(), "$ ".to_string()]);
    assert_eq!(r, "Sent to process 3: ls\nStatus: WaitingForInput (prompt_detected)\n\nResponse (2 lines):\nx\n$ ");
}

// ==================== reports read back ====================

#[test]
fn test_output_report_read_back() {
    let lines = vec!["first line".to_string(), "second line".to_string()];
    let report = output_report(4242, &ProcessState::Running, &lines);
    assert_eq!(report, "Process 4242\nStatus: Running\n\nOutput (2 lines):\nfirst line\nsecond line\n");
    let (pid, status, out) = parse_process_output(&report);
    assert_eq!(pid, Some("4242"));
    assert_eq!(status, Some("Running"));
    assert_eq!(out, vec!["first line", "second line"]);
}

#[test]
fn test_output_report_read_back_no_output() {
    let report = output_report(7, &ProcessState::Completed { exit_code: Some(0) }, &Vec::new());
    assert_eq!(report, "Process 7\nStatus: Completed { exit_code: Some(0) }\nNo new output");
    let (pid, status, out) = parse_process_output(&report);
    assert_eq!(pid, Some("7"));
    assert_eq!(status, Some("Completed { exit_code: Some(0) }"));
    assert!(out.is_empty());
}

#[test]
fn test_interact_report_read_back() {
    let lines = vec![">>> 2".to_string(), ">>>".to_string()];
    let report = interact_report(99, "1 + 1", &ProcessState::WaitingForInput, "prompt detected", &lines);
    assert_eq!(
        report,
        "Sent to process 99: 1 + 1\nStatus: WaitingForInput (prompt detected)\n\nResponse (2 lines):\n>>> 2\n>>>"
    );
    let (pid, input, status, out) = parse_interact_output(&report);
    assert_eq!(pid, Some("99"));
    assert_eq!(input, Some("1 + 1"));
    assert_eq!(status, Some("WaitingForInput (prompt detected)"));
    assert_eq!(out, vec![">>> 2", ">>>"]);
}

#[test]
fn carriage_returns_inside_lines_read_back() {
    let output = "Process 7\nStatus: Half\rway\n\nOutput (2 lines):\na\rb\n\rc\n";
    let (pid, status, lines) = parse_process_output(output);
    assert_eq!(pid, Some("7"));
    assert_eq!(status, Some("Half\rway"));
    assert_eq!(lines, vec!["a\rb", "\rc"]);
}
