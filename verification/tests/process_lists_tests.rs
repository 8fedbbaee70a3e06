use mixtape::tools::process::{ListProcessesTool, ListSessionsTool};
use mixtape::tools::process_lists::{
    process_rows_of, process_table, render_sessions, session_rows, session_table, sort_by_pid, ProcessEntry,
    SessionEntry, SessionStyle,
};
use mixtape::tools::session::ProcessState;

const TABLE: &str = "PID     | NAME                          | CPU%  | MEMORY\n--------|-------------------------------|-------|----------\n1       | init                          |   0.0 |   10.0 MB";

fn entry(pid: u32, name: &str, cpu: &str, memory: u64) -> ProcessEntry {
    ProcessEntry { pid, name: name.to_string(), cpu: cpu.to_string(), memory }
}

#[test]
fn test_format_output_plain() {
    let tool = ListProcessesTool;
    let formatted = tool.format_output_plain(TABLE);
    assert!(formatted.contains("PID"));
    assert!(formatted.contains("init"));
}

#[test]
fn test_format_output_markdown_basic() {
    let tool = ListProcessesTool;
    let formatted = tool.format_output_markdown(TABLE);
    assert!(formatted.contains("| PID |"));
    assert!(formatted.contains("|-----|"));
    assert!(formatted.contains("`init`"));
}

#[test]
fn test_format_output_markdown_with_overflow() {
    let tool = ListProcessesTool;
    let result = "PID     | NAME                          | CPU%  | MEMORY\n--------|-------------------------------|-------|----------\n1       | proc                          |   5.0 |   10.0 MB\n... and 50 more processes";
    let formatted = tool.format_output_markdown(result);
    assert!(formatted.contains("*... and 50 more processes*"));
}

#[test]
fn test_format_output_markdown_short_input() {
    let tool = ListProcessesTool;
    let formatted = tool.format_output_markdown("short");
    assert!(formatted.contains("```"));
}

#[test]
fn process_markdown_exact() {
    let tool = ListProcessesTool;
    assert_eq!(
        tool.format_output_markdown(TABLE),
        "| PID | Name | CPU% | Memory |\n|-----|------|------|--------|\n| 1 | `init` | 0.0 | 10.0 MB |\n"
    );
    assert_eq!(tool.format_output_markdown("a\nb"), "```\na\nb\n```");
    assert_eq!(tool.format_output_plain(TABLE), TABLE);
}

#[test]
fn process_table_rows_and_overflow() {
    let table = process_table(&vec![entry(1, "init", "0.0", 10 * 1024 * 1024), entry(42, "bash", "12.5", 2048)]);
    assert_eq!(
        table,
        "PID     | NAME                          | CPU%  | MEMORY\n\
         --------|-------------------------------|-------|----------\n\
         1       | init                          |   0.0 |  10.0 MB\n\
         42      | bash                          |  12.5 |   2.0 KB\n"
    );
    let many: Vec<ProcessEntry> = (0..60).map(|i| entry(i, "p", "0.0", 1024)).collect();
    let table = process_table(&many);
    assert!(table.ends_with("\n... and 10 more processes\n"));
    assert_eq!(table.lines().count(), 2 + 50 + 2);
    let rows = process_rows_of(&table);
    assert_eq!(rows.len(), 50);
    assert_eq!(rows[49], ("49", "p", "0.0", "1.0 KB"));
}

#[test]
fn long_process_names_are_cut() {
    let name = "a_very_long_process_name_that_goes_on";
    let table = process_table(&vec![entry(7, name, "1.0", 1 << 30)]);
    assert!(table.contains("| a_very_long_process_name_t... |"));
    assert!(table.contains("1.0 GB"));
}

#[test]
fn memory_labels_agree_with_float_formatting() {
    for memory in [0u64, 1, 1023, 1024, 1536, 1_048_575, 1_048_576, 7_654_321, 1 << 30, 3 << 31, u64::MAX] {
        let table = process_table(&vec![entry(1, "x", "0.0", memory)]);
        let expected = if memory < 1024 * 1024 {
            format!("{:.1} KB", memory as f64 / 1024.0)
        } else if memory < 1024 * 1024 * 1024 {
            format!("{:.1} MB", memory as f64 / (1024.0 * 1024.0))
        } else {
            format!("{:.1} GB", memory as f64 / (1024.0 * 1024.0 * 1024.0))
        };
        assert!(table.contains(&format!("{:>8}\n", expected)), "memory {}", memory);
    }
}

#[test]
fn processes_sort_by_pid_keeping_ties_in_order() {
    let sorted = sort_by_pid(vec![
        entry(30, "c", "0.0", 1),
        entry(10, "a", "0.0", 1),
        entry(20, "b1", "0.0", 1),
        entry(20, "b2", "0.0", 1),
        entry(5, "z", "0.0", 1),
    ]);
    let order: Vec<(u32, &str)> = sorted.iter().map(|p| (p.pid, p.name.as_str())).collect();
    assert_eq!(order, vec![(5, "z"), (10, "a"), (20, "b1"), (20, "b2"), (30, "c")]);
    assert!(sort_by_pid(vec![]).is_empty());
}

const SESSIONS: &str = "Active Sessions:\n\nPID    | STATUS              | RUNTIME | COMMAND\n-------|---------------------|---------|------------------\n12345  | Running             | 500ms   | echo hello";

#[test]
fn session_table_exact() {
    assert_eq!(session_table(&vec![]), "No active sessions");
    let table = session_table(&vec![
        SessionEntry { pid: 12345, command: "echo hello".to_string(), state: ProcessState::Running, runtime: "500ms".to_string() },
        SessionEntry {
            pid: 7,
            command: "x".repeat(40),
            state: ProcessState::Completed { exit_code: Some(0) },
            runtime: "1.5s".to_string(),
        },
    ]);
    assert_eq!(
        table,
        format!(
            "Active Sessions:\n\nPID    | STATUS              | RUNTIME | COMMAND\n-------|---------------------|---------|------------------\n12345  | Running             | 500ms   | echo hello\n7      | Completed {{ exit_code: Some(0) }} | 1.5s    | {}...\n",
            "x".repeat(27)
        )
    );
    let rows = session_rows(&table);
    assert_eq!(rows.len(), 2);
    assert_eq!(rows[0], ("12345", "Running", "500ms", "echo hello"));
}

#[test]
fn session_renderings() {
    let runtimes = vec!["500ms".to_string()];
    assert_eq!(session_rows(SESSIONS).len(), 1);
    let plain = render_sessions(SessionStyle::Plain, SESSIONS, &runtimes);
    assert_eq!(plain, format!("Sessions\n{}\n● [12345] echo hello - Running (500ms)\n", "─".repeat(60)));
    let ansi = render_sessions(SessionStyle::Ansi, SESSIONS, &runtimes);
    assert!(ansi.contains("\x1b[1m"));
    assert!(ansi.contains("\x1b[32m"));
    let markdown = render_sessions(SessionStyle::Markdown, SESSIONS, &runtimes);
    assert!(markdown.contains("### Sessions"));
    assert!(markdown.contains("| Status |"));
    assert!(markdown.contains("🟢 Running"));
    assert_eq!(render_sessions(SessionStyle::Plain, "No active sessions", &vec![]), "No active sessions");
    assert_eq!(render_sessions(SessionStyle::Markdown, "No active sessions", &vec![]), "*No active sessions*");
    let dim = render_sessions(SessionStyle::Ansi, "No active sessions", &vec![]);
    assert!(dim.contains("\x1b[2m"));
    assert!(dim.contains("No active sessions"));
}

#[test]
fn session_status_styles() {
    let with = |status: &str| {
        format!(
            "Active Sessions:\n\nPID    | STATUS              | RUNTIME | COMMAND\n-------|---------------------|---------|------------------\n1      | {:<19} | 1ms     | cmd",
            status
        )
    };
    let one = vec!["1ms".to_string()];
    assert!(render_sessions(SessionStyle::Ansi, &with("Running"), &one).contains("\x1b[32m"));
    assert!(render_sessions(SessionStyle::Ansi, &with("Completed"), &one).contains("\x1b[34m"));
    assert!(render_sessions(SessionStyle::Markdown, &with("Completed"), &one).contains("🔵"));
    assert!(render_sessions(SessionStyle::Markdown, &with("Failed"), &one).contains("🔴"));
    assert!(render_sessions(SessionStyle::Markdown, &with("TimedOut"), &one).contains("🟡"));
    assert!(render_sessions(SessionStyle::Plain, &with("Completed"), &one).contains("✓"));
    assert!(render_sessions(SessionStyle::Plain, &with("TimedOut"), &one).contains("○"));
    let _ = ListSessionsTool;
}

// Session tables as the session tool writes them; each runtime is in
// milliseconds, which the runtime formatting leaves as it is.
fn ms_runtimes(n: usize, text: &str) -> Vec<String> {
    vec![text.to_string(); n]
}

const ONE_SESSION: &str = "Active Sessions:\n\nPID    | STATUS              | RUNTIME | COMMAND\n-------|---------------------|---------|------------------\n12345  | Running             | 500ms   | echo hello";

fn status_table(status: &str) -> String {
    format!(
        "Active Sessions:\n\nPID    | STATUS              | RUNTIME | COMMAND\n-------|---------------------|---------|------------------\n1      | {:<19} | 1ms     | cmd",
        status
    )
}

#[test]
fn test_format_output_plain_no_sessions() {
    let formatted = render_sessions(SessionStyle::Plain, "No active sessions", &vec![]);
    assert_eq!(formatted, "No active sessions");
}

#[test]
fn test_format_output_plain_with_sessions() {
    let formatted = render_sessions(SessionStyle::Plain, ONE_SESSION, &ms_runtimes(1, "500ms"));
    assert!(formatted.contains("Sessions"));
    assert!(formatted.contains("12345"));
    assert!(formatted.contains("●") || formatted.contains("✓") || formatted.contains("○"));
}

#[test]
fn test_format_output_ansi_no_sessions() {
    let formatted = render_sessions(SessionStyle::Ansi, "No active sessions", &vec![]);
    assert!(formatted.contains("\x1b[2m"));
    assert!(formatted.contains("No active sessions"));
}

#[test]
fn test_format_output_ansi_with_sessions() {
    let table = "Active Sessions:\n\nPID    | STATUS              | RUNTIME | COMMAND\n-------|---------------------|---------|------------------\n12345  | Running             | 500ms   | sleep 10";
    let formatted = render_sessions(SessionStyle::Ansi, table, &ms_runtimes(1, "500ms"));
    assert!(formatted.contains("\x1b["));
    assert!(formatted.contains("\x1b[1m"));
    assert!(formatted.contains("\x1b[32m"));
}

#[test]
fn list_sessions_test_format_output_ansi_status_colors() {
    let running = render_sessions(SessionStyle::Ansi, &status_table("Running"), &ms_runtimes(1, "1ms"));
    assert!(running.contains("\x1b[32m"));
    let completed = render_sessions(SessionStyle::Ansi, &status_table("Completed"), &ms_runtimes(1, "1ms"));
    assert!(completed.contains("\x1b[34m"));
}

#[test]
fn test_format_output_markdown_no_sessions() {
    let formatted = render_sessions(SessionStyle::Markdown, "No active sessions", &vec![]);
    assert_eq!(formatted, "*No active sessions*");
}

#[test]
fn test_format_output_markdown_with_sessions() {
    let formatted = render_sessions(SessionStyle::Markdown, ONE_SESSION, &ms_runtimes(1, "500ms"));
    assert!(formatted.contains("### Sessions"));
    assert!(formatted.contains("| Status |"));
    assert!(formatted.contains("🟢 Running"));
}

#[test]
fn list_sessions_test_format_output_markdown_status_emojis() {
    let one = ms_runtimes(1, "1ms");
    assert!(render_sessions(SessionStyle::Markdown, &status_table("Running"), &one).contains("🟢"));
    assert!(render_sessions(SessionStyle::Markdown, &status_table("Completed"), &one).contains("🔵"));
    assert!(render_sessions(SessionStyle::Markdown, &status_table("Failed"), &one).contains("🔴"));
}
