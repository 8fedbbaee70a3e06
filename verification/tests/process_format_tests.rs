use mixtape::tools::process::{InteractWithProcessTool, ReadProcessOutputTool, StartProcessTool};

#[test]
fn start_process_test_format_output_plain_basic() {
    let tool = StartProcessTool;
    let result = "Started process: echo test\nPID: 12345\nStatus: Running";
    let formatted = tool.format_output_plain(result);
    assert!(formatted.contains("PROCESS STARTED"));
    assert!(formatted.contains("Command:"));
    assert!(formatted.contains("PID:"));
    assert!(formatted.contains("Status:"));
}

#[test]
fn start_process_test_format_output_plain_with_output() {
    let tool = StartProcessTool;
    let result =
        "Started process: echo test\nPID: 12345\nStatus: Completed { exit_code: Some(0) }\nInitial output:\nHello";
    let formatted = tool.format_output_plain(result);
    assert!(formatted.contains("Hello"));
}

#[test]
fn start_process_test_format_output_ansi_colors() {
    let tool = StartProcessTool;
    let result = "Started process: echo test\nPID: 12345\nStatus: Running";
    let formatted = tool.format_output_ansi(result);
    assert!(formatted.contains("\x1b["));
    assert!(formatted.contains("Process Started"));
}

#[test]
fn start_process_test_format_output_ansi_status_colors() {
    let tool = StartProcessTool;
    let running = "Started process: test\nPID: 1\nStatus: Running";
    let formatted = tool.format_output_ansi(running);
    assert!(formatted.contains("\x1b[32m"));
    let completed = "Started process: test\nPID: 1\nStatus: Completed";
    let formatted = tool.format_output_ansi(completed);
    assert!(formatted.contains("\x1b[34m"));
}

#[test]
fn test_format_output_markdown() {
    let tool = StartProcessTool;
    let result = "Started process: echo test\nPID: 12345\nStatus: Running\nInitial output:\nHello";
    let formatted = tool.format_output_markdown(result);
    assert!(formatted.contains("### 🚀 Process Started"));
    assert!(formatted.contains("**Command**: `echo test`"));
    assert!(formatted.contains("**PID**: `12345`"));
    assert!(formatted.contains("**Initial Output:**"));
    assert!(formatted.contains("```"));
}

#[test]
fn start_process_test_format_output_markdown_no_output() {
    let tool = StartProcessTool;
    let result = "Started process: sleep 10\nPID: 12345\nStatus: Running";
    let formatted = tool.format_output_markdown(result);
    assert!(!formatted.contains("**Initial Output:**"));
}

#[test]
fn start_report_renderings_exact() {
    let tool = StartProcessTool;
    let report = "Started process: echo hi\nPID: 7\nStatus: Running\n\nInitial output:\nhi\nthere";
    let rule = "─".repeat(50);
    assert_eq!(
        tool.format_output_plain(report),
        format!("{r}\n  PROCESS STARTED\n{r}\n  Command: echo hi\n  PID:     7\n  Status:  Running\n{r}\n  hi\n  there\n", r = rule)
    );
    assert_eq!(
        tool.format_output_markdown(report),
        "### 🚀 Process Started\n\n- **Command**: `echo hi`\n- **PID**: `7`\n- **Status**: Running\n\n**Initial Output:**\n```\nhi\nthere\n```\n"
    );
    assert_eq!(
        tool.format_output_ansi("PID: 3\nStatus: Exited"),
        format!(
            "\x1b[2m{r}\x1b[0m\n  \x1b[32m●\x1b[0m \x1b[1mProcess Started\x1b[0m\n\x1b[2m{r}\x1b[0m\n  \x1b[2mPID\x1b[0m      \x1b[33m3\x1b[0m\n  \x1b[2mStatus\x1b[0m   \x1b[33mExited\x1b[0m\n",
            r = rule
        )
    );
}

#[test]
fn read_process_output_test_format_output_plain_with_output() {
    let tool = ReadProcessOutputTool;
    let result = "Process 12345\nStatus: Running\n\nOutput (2 lines):\nHello\nWorld";
    let formatted = tool.format_output_plain(result);
    assert!(formatted.contains("Process 12345"));
    assert!(formatted.contains("Running"));
    assert!(formatted.contains("Hello"));
    assert!(formatted.contains("World"));
    assert!(formatted.contains("│"));
}

#[test]
fn test_format_output_plain_no_output() {
    let tool = ReadProcessOutputTool;
    let result = "Process 12345\nStatus: Running\nNo new output";
    let formatted = tool.format_output_plain(result);
    assert!(formatted.contains("(no output)"));
}

#[test]
fn read_process_output_test_format_output_ansi_running() {
    let tool = ReadProcessOutputTool;
    let result = "Process 12345\nStatus: Running\n\nOutput (1 lines):\ntest";
    let formatted = tool.format_output_ansi(result);
    assert!(formatted.contains("\x1b["));
    assert!(formatted.contains("\x1b[32m"));
}

#[test]
fn read_process_output_test_format_output_ansi_completed() {
    let tool = ReadProcessOutputTool;
    let result = "Process 12345\nStatus: Completed\n\nOutput (1 lines):\ndone";
    let formatted = tool.format_output_ansi(result);
    assert!(formatted.contains("\x1b[34m"));
}

#[test]
fn test_format_output_ansi_waiting() {
    let tool = ReadProcessOutputTool;
    let result = "Process 12345\nStatus: WaitingForInput\n\nOutput (1 lines):\n>>> ";
    let formatted = tool.format_output_ansi(result);
    assert!(formatted.contains("\x1b[33m"));
}

#[test]
fn test_format_output_markdown_with_output() {
    let tool = ReadProcessOutputTool;
    let result = "Process 12345\nStatus: Running\n\nOutput (2 lines):\nline1\nline2";
    let formatted = tool.format_output_markdown(result);
    assert!(formatted.contains("### 🟢 Process 12345"));
    assert!(formatted.contains("```"));
    assert!(formatted.contains("line1"));
}

#[test]
fn read_process_output_test_format_output_markdown_no_output() {
    let tool = ReadProcessOutputTool;
    let result = "Process 12345\nStatus: Running\nNo new output";
    let formatted = tool.format_output_markdown(result);
    assert!(formatted.contains("*No output*"));
}

#[test]
fn read_process_output_test_format_output_markdown_status_emojis() {
    let tool = ReadProcessOutputTool;
    let running = "Process 1\nStatus: Running\nNo new output";
    assert!(tool.format_output_markdown(running).contains("🟢"));
    let completed = "Process 1\nStatus: Completed\nNo new output";
    assert!(tool.format_output_markdown(completed).contains("🔵"));
    let waiting = "Process 1\nStatus: WaitingForInput\nNo new output";
    assert!(tool.format_output_markdown(waiting).contains("🟡"));
}

#[test]
fn output_report_renderings_exact() {
    let tool = ReadProcessOutputTool;
    let rule = "─".repeat(50);
    let report = "Process 9\nStatus: Running\n\nOutput (2 lines):\nab\ncd";
    assert_eq!(
        tool.format_output_plain(report),
        format!("{r}\n  Process 9 [Running]\n{r}\n    1 │ ab\n    2 │ cd\n", r = rule)
    );
    assert_eq!(
        tool.format_output_ansi(report),
        format!(
            "\x1b[2m{r}\x1b[0m\n  \x1b[32m●\x1b[0m \x1b[1mProcess 9\x1b[0m \x1b[32mRunning\x1b[0m\n\x1b[2m{r}\x1b[0m\n  \x1b[36m  1\x1b[0m \x1b[2m│\x1b[0m ab\n  \x1b[36m  2\x1b[0m \x1b[2m│\x1b[0m cd\n",
            r = rule
        )
    );
    assert_eq!(tool.format_output_markdown(report), "### 🟢 Process 9 - Running\n\n```\nab\ncd\n```\n");
    assert_eq!(tool.format_output_markdown("nothing here"), "\n\n*No output*\n");
}

#[test]
fn output_report_numbers_widen_past_three_digits() {
    let tool = ReadProcessOutputTool;
    let mut report = String::from("Process 1\nStatus: Running\n\nOutput (1000 lines):\n");
    for i in 0..1000 {
        report.push_str(&format!("l{}\n", i));
    }
    let formatted = tool.format_output_plain(&report);
    assert!(formatted.contains("\n     1 │ l0\n"));
    assert!(formatted.contains("\n  1000 │ l999\n"));
}

#[test]
fn interact_with_process_test_format_output_plain_basic() {
    let tool = InteractWithProcessTool;
    let result = "Sent to process 12345: hello\nStatus: Running\n\nResponse (1 lines):\nworld";
    let formatted = tool.format_output_plain(result);
    assert!(formatted.contains("Process 12345"));
    assert!(formatted.contains(">>> hello"));
    assert!(formatted.contains("world"));
}

#[test]
fn test_format_output_plain_no_response() {
    let tool = InteractWithProcessTool;
    let result = "Sent input to process 12345: test";
    let formatted = tool.format_output_plain(result);
    assert!(formatted.contains("Process 12345"));
    assert!(formatted.contains(">>> test"));
}

#[test]
fn interact_with_process_test_format_output_ansi_running() {
    let tool = InteractWithProcessTool;
    let result = "Sent to process 12345: hello\nStatus: Running\n\nResponse (1 lines):\nworld";
    let formatted = tool.format_output_ansi(result);
    assert!(formatted.contains("\x1b["));
    assert!(formatted.contains("\x1b[32m"));
    assert!(formatted.contains("\x1b[33m"));
    assert!(formatted.contains("\x1b[36m"));
}

#[test]
fn interact_with_process_test_format_output_ansi_completed() {
    let tool = InteractWithProcessTool;
    let result = "Sent to process 12345: hello\nStatus: Completed\n\nResponse (1 lines):\ndone";
    let formatted = tool.format_output_ansi(result);
    assert!(formatted.contains("\x1b[34m"));
}

#[test]
fn test_format_output_markdown_with_response() {
    let tool = InteractWithProcessTool;
    let result = "Sent to process 12345: hello\nStatus: Running\n\nResponse (2 lines):\nline1\nline2";
    let formatted = tool.format_output_markdown(result);
    assert!(formatted.contains("### 🟢 Process 12345"));
    assert!(formatted.contains("**Input:** `hello`"));
    assert!(formatted.contains("**Response:**"));
    assert!(formatted.contains("```"));
}

#[test]
fn interact_with_process_test_format_output_markdown_status_emojis() {
    let tool = InteractWithProcessTool;
    let running = "Sent to process 1: x\nStatus: Running\n\nResponse (0 lines):";
    assert!(tool.format_output_markdown(running).contains("🟢"));
    let completed = "Sent to process 1: x\nStatus: Completed\n\nResponse (0 lines):";
    assert!(tool.format_output_markdown(completed).contains("🔵"));
    let waiting = "Sent to process 1: x\nStatus: WaitingForInput\n\nResponse (0 lines):";
    assert!(tool.format_output_markdown(waiting).contains("🟡"));
}

#[test]
fn interact_report_renderings_exact() {
    let tool = InteractWithProcessTool;
    let rule = "─".repeat(50);
    let report = "Sent to process 4: ls\nStatus: Completed\n\nResponse (1 lines):\na.txt";
    assert_eq!(
        tool.format_output_plain(report),
        format!("{r}\n  Process 4 [Completed]\n{r}\n  >>> ls\n{r}\n  a.txt\n", r = rule)
    );
    assert_eq!(
        tool.format_output_markdown(report),
        "### 🔵 Process 4 - Completed\n\n**Input:** `ls`\n\n**Response:**\n```\na.txt\n```\n"
    );
    assert_eq!(
        tool.format_output_ansi("Sent input to process 5: y"),
        format!(
            "\x1b[2m{r}\x1b[0m\n  \x1b[2m●\x1b[0m \x1b[1mProcess 5\x1b[0m \n\x1b[2m{r}\x1b[0m\n  \x1b[33m>>>\x1b[0m \x1b[36my\x1b[0m\n",
            r = rule
        )
    );
}
