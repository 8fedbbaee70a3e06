//! The process tools: their inputs, the texts they report, and the
//! parsing of those texts for display.

use vstd::prelude::*;
use vstd::string::*;
use crate::text::{
    contains_str, decimal, find_char, has_prefix, index_of_char, index_of_sub, lemma_index_of_char,
    lines, push_decimal, split_lines, split_words, starts_with, trim, trim_spec, trim_start_matches,
    trim_start_matches_spec, views, words,
};
use crate::tools::header::{kept_line, lemma_kept_lines_cons, lemma_lines_cons, lemma_single_line_kept, single_line, str_equal};
use crate::text::{
    digit_char, is_ws, join_spec, lemma_index_of_char_at, lemma_index_of_char_none, trim_end_spec, trim_start_spec,
    word_len,
};
use crate::tools::session::{state_text, ProcessState};

verus! {

/// Input for starting a process.
#[derive(Debug)]
pub struct StartProcessInput {
    /// Command to execute.
    pub command: String,
    /// Optional timeout in milliseconds.
    pub timeout_ms: Option<u64>,
    /// Optional shell to use.
    pub shell: Option<String>,
}

/// Input for reading process output.
#[derive(Debug)]
pub struct ReadProcessOutputInput {
    /// Process ID to read from.
    pub pid: u32,
    /// Clear the output buffer after reading.
    pub clear_buffer: bool,
    /// Maximum time to wait for new output in milliseconds.
    pub timeout_ms: u64,
}

/// Input for interacting with a process.
#[derive(Debug)]
pub struct InteractWithProcessInput {
    /// Process ID to interact with.
    pub pid: u32,
    /// Input to send to the process (followed by a newline).
    pub input: String,
    /// Wait for a response after sending the input.
    pub wait_for_response: bool,
    /// Maximum time to wait for a response in milliseconds.
    pub response_timeout_ms: u64,
}

/// Input for forcefully terminating a process.
#[derive(Debug)]
pub struct ForceTerminateInput {
    /// Process ID to terminate.
    pub pid: u32,
    /// Use force kill instead of graceful termination.
    pub force: bool,
}

/// Input for killing a process.
#[derive(Debug)]
pub struct KillProcessInput {
    /// Process ID (PID) to terminate.
    pub pid: u32,
}

/// Input for listing processes (no parameters).
#[derive(Debug)]
pub struct ListProcessesInput {}

/// Input for listing sessions (no parameters).
#[derive(Debug)]
pub struct ListSessionsInput {}

/// A terminate request forces the kill unless told otherwise.
pub fn default_force() -> (b: bool)
    ensures
        b,
{
    true
}

/// Interaction waits for a response unless told otherwise.
pub fn default_wait() -> (b: bool)
    ensures
        b,
{
    true
}

/// The time to wait for a response when none is given: 5000 ms.
pub fn default_response_timeout() -> (t: u64)
    ensures
        t == 5000,
{
    5000
}

/// The time to wait for new output when none is given: 5000 ms.
pub fn default_timeout() -> (t: u64)
    ensures
        t == 5000,
{
    5000
}

/// Tool for starting a new process session.
pub struct StartProcessTool;

/// Tool for reading output from a running process.
pub struct ReadProcessOutputTool;

/// Tool for sending input to a running process.
pub struct InteractWithProcessTool;

/// Tool for forcefully terminating a process session.
pub struct ForceTerminateTool;

/// Tool for terminating processes.
pub struct KillProcessTool;

/// Tool for listing running processes.
pub struct ListProcessesTool;

/// Tool for listing process sessions.
pub struct ListSessionsTool;

impl StartProcessTool {
    /// The tool's name.
    pub fn name(&self) -> (r: &'static str)
        ensures
            r@ == "start_process"@,
    {
        "start_process"
    }

    /// The tool's description.
    pub fn description(&self) -> (r: &'static str)
        ensures
            r@ == "Start a new process session. Returns a PID that can be used to interact with the process, read its output, or terminate it."@,
    {
        "Start a new process session. Returns a PID that can be used to interact with the process, read its output, or terminate it."
    }
}

impl ReadProcessOutputTool {
    /// The tool's name.
    pub fn name(&self) -> (r: &'static str)
        ensures
            r@ == "read_process_output"@,
    {
        "read_process_output"
    }

    /// The tool's description.
    pub fn description(&self) -> (r: &'static str)
        ensures
            r@ == "Read accumulated output from a running process. Can optionally clear the buffer after reading."@,
    {
        "Read accumulated output from a running process. Can optionally clear the buffer after reading."
    }
}

impl InteractWithProcessTool {
    /// The tool's name.
    pub fn name(&self) -> (r: &'static str)
        ensures
            r@ == "interact_with_process"@,
    {
        "interact_with_process"
    }

    /// The tool's description.
    pub fn description(&self) -> (r: &'static str)
        ensures
            r@ == "Send input to a running process and optionally wait for its response. Useful for interactive programs."@,
    {
        "Send input to a running process and optionally wait for its response. Useful for interactive programs."
    }
}

impl ForceTerminateTool {
    /// The tool's name.
    pub fn name(&self) -> (r: &'static str)
        ensures
            r@ == "force_terminate"@,
    {
        "force_terminate"
    }

    /// The tool's description.
    pub fn description(&self) -> (r: &'static str)
        ensures
            r@ == "Forcefully terminate a process session. Can use either graceful SIGTERM or force SIGKILL."@,
    {
        "Forcefully terminate a process session. Can use either graceful SIGTERM or force SIGKILL."
    }
}

impl KillProcessTool {
    /// The tool's name.
    pub fn name(&self) -> (r: &'static str)
        ensures
            r@ == "kill_process"@,
    {
        "kill_process"
    }

    /// The tool's description.
    pub fn description(&self) -> (r: &'static str)
        ensures
            r@ == "Terminate a running process by its PID. Use with caution as this forcefully kills the process."@,
    {
        "Terminate a running process by its PID. Use with caution as this forcefully kills the process."
    }
}

impl ListProcessesTool {
    /// The tool's name.
    pub fn name(&self) -> (r: &'static str)
        ensures
            r@ == "list_processes"@,
    {
        "list_processes"
    }

    /// The tool's description.
    pub fn description(&self) -> (r: &'static str)
        ensures
            r@ == "List all running processes on the system with their PID, name, CPU and memory usage."@,
    {
        "List all running processes on the system with their PID, name, CPU and memory usage."
    }
}

impl ListSessionsTool {
    /// The tool's name.
    pub fn name(&self) -> (r: &'static str)
        ensures
            r@ == "list_sessions"@,
    {
        "list_sessions"
    }

    /// The tool's description.
    pub fn description(&self) -> (r: &'static str)
        ensures
            r@ == "List all active process sessions with their PIDs, commands, status, and runtime."@,
    {
        "List all active process sessions with their PIDs, commands, status, and runtime."
    }
}

/// The error of a request for a session that does not exist.
pub fn process_not_found(pid: u32) -> (r: String)
    ensures
        r@ == "Process "@ + decimal(pid as nat) + " not found"@,
{
    let mut r = "Process ".to_string();
    push_decimal(&mut r, pid as u64);
    r.append(" not found");
    r
}

/// The report of a terminated session.
pub fn terminate_report(pid: u32, force: bool) -> (r: String)
    ensures
        r@ == "Successfully "@ + (if force {
            "force killed"@
        } else {
            "terminated"@
        }) + " process "@ + decimal(pid as nat),
{
    let mut r = "Successfully ".to_string();
    if force {
        r.append("force killed");
    } else {
        r.append("terminated");
    }
    r.append(" process ");
    push_decimal(&mut r, pid as u64);
    r
}

/// The outcome of a kill request, given the name of the process found
/// with that PID (if any) and whether the signal was delivered.
pub open spec fn spec_kill_outcome(pid: u32, found: Option<Seq<char>>, sent: bool) -> Result<Seq<char>, Seq<char>> {
    match found {
        None => Err("Process with PID "@ + decimal(pid as nat) + " not found"@),
        Some(name) => if sent {
            Ok("Successfully sent termination signal to process "@ + name + " (PID: "@ + decimal(pid as nat) + ")"@)
        } else {
            Err("Failed to terminate process "@ + name + " (PID: "@ + decimal(pid as nat)
                + "). Permission denied or process already terminated."@)
        },
    }
}

/// A kill succeeds exactly when a process with that PID was found and the
/// signal reached it; a missing process and a refused signal are told
/// apart, and every answer names the PID.
pub proof fn law_kill_outcome(pid: u32, found: Option<Seq<char>>, sent: bool)
    ensures
        spec_kill_outcome(pid, found, sent) is Ok <==> (found is Some && sent),
        found is None ==> spec_kill_outcome(pid, found, sent) == Err::<Seq<char>, Seq<char>>(
            "Process with PID "@ + decimal(pid as nat) + " not found"@,
        ),
        found matches Some(name) ==> (!sent ==> (spec_kill_outcome(pid, found, sent) matches Err(e) && has_prefix(
            e,
            "Failed to terminate process "@ + name,
        ))),
        found matches Some(name) ==> (sent ==> (spec_kill_outcome(pid, found, sent) matches Ok(m) && has_prefix(
            m,
            "Successfully sent termination signal to process "@ + name,
        ))),
{
    match found {
        Some(name) => {
            let p1 = "Failed to terminate process "@ + name;
            let e = p1 + " (PID: "@ + decimal(pid as nat) + "). Permission denied or process already terminated."@;
            assert(e.take(p1.len() as int) =~= p1);
            let p2 = "Successfully sent termination signal to process "@ + name;
            let m = p2 + " (PID: "@ + decimal(pid as nat) + ")"@;
            assert(m.take(p2.len() as int) =~= p2);
        },
        None => {},
    }
}

/// The outcome of a kill request.
pub fn kill_outcome(pid: u32, found: Option<&str>, sent: bool) -> (r: Result<String, String>)
    ensures
        match spec_kill_outcome(pid, match found {
            Some(n) => Some(n@),
            None => None,
        }, sent) {
            Ok(m) => r matches Ok(x) && x@ == m,
            Err(m) => r matches Err(x) && x@ == m,
        },
{
    match found {
        None => {
            let mut e = "Process with PID ".to_string();
            push_decimal(&mut e, pid as u64);
            e.append(" not found");
            Err(e)
        },
        Some(name) => {
            if sent {
                let mut m = "Successfully sent termination signal to process ".to_string();
                m.append(name);
                m.append(" (PID: ");
                push_decimal(&mut m, pid as u64);
                m.append(")");
                Ok(m)
            } else {
                let mut e = "Failed to terminate process ".to_string();
                e.append(name);
                e.append(" (PID: ");
                push_decimal(&mut e, pid as u64);
                e.append("). Permission denied or process already terminated.");
                Err(e)
            }
        },
    }
}

/// Lines, each followed by a newline.
pub open spec fn lines_text(ls: Seq<Seq<char>>) -> Seq<char>
    decreases ls.len(),
{
    if ls.len() == 0 {
        seq![]
    } else {
        lines_text(ls.drop_last()) + ls.last() + "\n"@
    }
}

fn push_lines(r: &mut String, ls: &Vec<String>, n: usize)
    requires
        n <= ls@.len(),
    ensures
        final(r)@ == old(r)@ + lines_text(crate::text::string_views(ls@).take(n as int)),
{
    let ghost lv = crate::text::string_views(ls@);
    let mut i: usize = 0;
    assert(lv.take(0) =~= Seq::<Seq<char>>::empty());
    while i < n
        invariant
            lv == crate::text::string_views(ls@),
            n <= ls@.len(),
            i <= n,
            r@ == old(r)@ + lines_text(lv.take(i as int)),
        decreases n - i,
    {
        r.append(ls[i].as_str());
        r.append("\n");
        proof {
            assert(lv.take(i + 1).drop_last() =~= lv.take(i as int));
            assert(lv[i as int] == ls@[i as int]@);
            assert(r@ =~= old(r)@ + lines_text(lv.take(i + 1)));
        }
        i = i + 1;
    }
}

/// The report of a started process: its command, PID and state, then up to
/// twenty lines of its first output and a count of the lines left out.
pub open spec fn start_report_text(command: Seq<char>, pid: u32, state: ProcessState, output: Seq<Seq<char>>) -> Seq<char> {
    "Started process: "@ + command + "\nPID: "@ + decimal(pid as nat) + "\nStatus: "@ + state_text(state) + "\n"@
        + if output.len() == 0 {
        seq![]
    } else {
        "\nInitial output:\n"@ + lines_text(output.take(if output.len() < 20 {
            output.len() as int
        } else {
            20
        })) + if output.len() > 20 {
            "... and "@ + decimal((output.len() - 20) as nat) + " more lines\n"@
        } else {
            seq![]
        }
    }
}

/// The report of a started process.
pub fn start_report(command: &str, pid: u32, state: &ProcessState, output: &Vec<String>) -> (r: String)
    ensures
        r@ == start_report_text(command@, pid, *state, crate::text::string_views(output@)),
{
    let mut r = "Started process: ".to_string();
    r.append(command);
    r.append("\nPID: ");
    push_decimal(&mut r, pid as u64);
    r.append("\nStatus: ");
    let st = state.text();
    r.append(st.as_str());
    r.append("\n");
    let ghost head = r@;
    let n = output.len();
    if n > 0 {
        r.append("\nInitial output:\n");
        let shown = if n < 20 {
            n
        } else {
            20
        };
        push_lines(&mut r, output, shown);
        if n > 20 {
            r.append("... and ");
            push_decimal(&mut r, (n - 20) as u64);
            r.append(" more lines\n");
        }
    }
    proof {
        reveal_strlit("");
    }
    assert(r@ =~= start_report_text(command@, pid, *state, crate::text::string_views(output@)));
    r
}

/// The report of reading a session's output, given the state's text.
pub open spec fn output_report_with(pid: u32, status: Seq<char>, output: Seq<Seq<char>>) -> Seq<char> {
    if output.len() == 0 {
        "Process "@ + decimal(pid as nat) + "\nStatus: "@ + status + "\nNo new output"@
    } else {
        "Process "@ + decimal(pid as nat) + "\nStatus: "@ + status + "\n\nOutput ("@ + decimal(output.len())
            + " lines):\n"@ + lines_text(output)
    }
}

/// The report of reading a session's output.
pub open spec fn output_report_text(pid: u32, state: ProcessState, output: Seq<Seq<char>>) -> Seq<char> {
    output_report_with(pid, state_text(state), output)
}

/// The report of reading a session's output.
pub fn output_report(pid: u32, state: &ProcessState, output: &Vec<String>) -> (r: String)
    ensures
        r@ == output_report_text(pid, *state, crate::text::string_views(output@)),
{
    let mut r = "Process ".to_string();
    push_decimal(&mut r, pid as u64);
    r.append("\nStatus: ");
    let st = state.text();
    r.append(st.as_str());
    if output.len() == 0 {
        r.append("\nNo new output");
    } else {
        r.append("\n\nOutput (");
        push_decimal(&mut r, output.len() as u64);
        r.append(" lines):\n");
        push_lines(&mut r, output, output.len());
        assert(crate::text::string_views(output@).take(output@.len() as int) =~= crate::text::string_views(output@));
    }
    assert(r@ =~= output_report_text(pid, *state, crate::text::string_views(output@)));
    r
}

/// The report of input sent without waiting for a response.
pub fn input_sent_report(pid: u32, input: &str) -> (r: String)
    ensures
        r@ == "Sent input to process "@ + decimal(pid as nat) + ": "@ + input@,
{
    let mut r = "Sent input to process ".to_string();
    push_decimal(&mut r, pid as u64);
    r.append(": ");
    r.append(input);
    r
}

/// The report of an interaction: the input, the state and why waiting
/// ended, and the response lines joined by newlines.
pub open spec fn interact_report_text(pid: u32, input: Seq<char>, state: ProcessState, reason: Seq<char>, output: Seq<Seq<char>>) -> Seq<char> {
    "Sent to process "@ + decimal(pid as nat) + ": "@ + input + "\nStatus: "@ + state_text(state) + " ("@ + reason
        + ")\n\nResponse ("@ + decimal(output.len()) + " lines):\n"@ + crate::text::join_spec(output, "\n"@)
}

/// The report of an interaction.
pub fn interact_report(pid: u32, input: &str, state: &ProcessState, reason: &str, output: &Vec<String>) -> (r: String)
    ensures
        r@ == interact_report_text(pid, input@, *state, reason@, crate::text::string_views(output@)),
{
    let mut r = "Sent to process ".to_string();
    push_decimal(&mut r, pid as u64);
    r.append(": ");
    r.append(input);
    r.append("\nStatus: ");
    let st = state.text();
    r.append(st.as_str());
    r.append(" (");
    r.append(reason);
    r.append(")\n\nResponse (");
    push_decimal(&mut r, output.len() as u64);
    r.append(" lines):\n");
    crate::text::push_joined(&mut r, output, "\n");
    assert(r@ =~= interact_report_text(pid, input@, *state, reason@, crate::text::string_views(output@)));
    r
}

/// The view of an optional string slice.
pub open spec fn opt_str_view(o: Option<&str>) -> Option<Seq<char>> {
    match o {
        Some(s) => Some(s@),
        None => None,
    }
}

/// The text after a label: the line without the label, trimmed.
pub open spec fn after_label(line: Seq<char>, label: Seq<char>) -> Seq<char> {
    trim_spec(trim_start_matches_spec(line, label))
}

fn value_after<'a>(line: &'a str, label: &str) -> (r: &'a str)
    ensures
        r@ == after_label(line@, label@),
{
    trim(trim_start_matches(line, label))
}

/// What has been read of a start report: command, PID, state, output
/// lines, and whether the output section has begun.
pub type StartParse = (Option<Seq<char>>, Option<Seq<char>>, Option<Seq<char>>, Seq<Seq<char>>, bool);

/// Reading one line of a start report.
pub open spec fn start_step(st: StartParse, line: Seq<char>) -> StartParse {
    if has_prefix(line, "Started process:"@) {
        (Some(after_label(line, "Started process:"@)), st.1, st.2, st.3, st.4)
    } else if has_prefix(line, "PID:"@) {
        (st.0, Some(after_label(line, "PID:"@)), st.2, st.3, st.4)
    } else if has_prefix(line, "Status:"@) {
        (st.0, st.1, Some(after_label(line, "Status:"@)), st.3, st.4)
    } else if has_prefix(line, "Initial output:"@) {
        (st.0, st.1, st.2, st.3, true)
    } else if st.4 && !has_prefix(line, "..."@) {
        (st.0, st.1, st.2, st.3.push(line), st.4)
    } else {
        st
    }
}

/// Reading the lines of a start report in order.
pub open spec fn start_fold(ls: Seq<Seq<char>>) -> StartParse
    decreases ls.len(),
{
    if ls.len() == 0 {
        (None, None, None, seq![], false)
    } else {
        start_step(start_fold(ls.drop_last()), ls.last())
    }
}

/// Parse a start report into its command, PID, state and output lines.
pub fn parse_start_output<'a>(output: &'a str) -> (r: (Option<&'a str>, Option<&'a str>, Option<&'a str>, Vec<&'a str>))
    ensures
        opt_str_view(r.0) == start_fold(lines(output@)).0,
        opt_str_view(r.1) == start_fold(lines(output@)).1,
        opt_str_view(r.2) == start_fold(lines(output@)).2,
        views(r.3@) == start_fold(lines(output@)).3,
{
    let ls = split_lines(output);
    let ghost lv = views(ls@);
    let mut command: Option<&'a str> = None;
    let mut pid: Option<&'a str> = None;
    let mut status: Option<&'a str> = None;
    let mut out_lines: Vec<&'a str> = Vec::new();
    let mut in_output = false;
    let mut i: usize = 0;
    while i < ls.len()
        invariant
            lv == views(ls@),
            lv == lines(output@),
            i <= ls@.len(),
            start_fold(lv.take(i as int)) == (
                opt_str_view(command),
                opt_str_view(pid),
                opt_str_view(status),
                views(out_lines@),
                in_output,
            ),
        decreases ls@.len() - i,
    {
        let line = ls[i];
        proof {
            assert(lv.take(i + 1).drop_last() =~= lv.take(i as int));
            assert(lv.take(i + 1).last() == line@);
        }
        if starts_with(line, "Started process:") {
            command = Some(value_after(line, "Started process:"));
        } else if starts_with(line, "PID:") {
            pid = Some(value_after(line, "PID:"));
        } else if starts_with(line, "Status:") {
            status = Some(value_after(line, "Status:"));
        } else if starts_with(line, "Initial output:") {
            in_output = true;
        } else if in_output && !starts_with(line, "...") {
            out_lines.push(line);
            assert(views(out_lines@) =~= views(out_lines@.drop_last()).push(line@));
        }
        i = i + 1;
    }
    assert(lv.take(ls@.len() as int) =~= lv);
    (command, pid, status, out_lines)
}

/// What has been read of an output report: PID, state, output lines, and
/// whether the output section has begun.
pub type OutputParse = (Option<Seq<char>>, Option<Seq<char>>, Seq<Seq<char>>, bool);

/// The second word of a line, if it has one.
pub open spec fn second_word(line: Seq<char>) -> Option<Seq<char>> {
    if words(line).len() > 1 {
        Some(words(line)[1])
    } else {
        None
    }
}

/// Reading one line of an output report.
pub open spec fn output_step(st: OutputParse, line: Seq<char>) -> OutputParse {
    if has_prefix(line, "Process "@) && index_of_sub(line, "Output"@) is None {
        (second_word(line), st.1, st.2, st.3)
    } else if has_prefix(line, "Status:"@) {
        (st.0, Some(after_label(line, "Status:"@)), st.2, st.3)
    } else if index_of_sub(line, "Output ("@) is Some || line == "No new output"@ {
        (st.0, st.1, st.2, true)
    } else if st.3 {
        (st.0, st.1, st.2.push(line), st.3)
    } else {
        st
    }
}

/// Reading the lines of an output report in order.
pub open spec fn output_fold(ls: Seq<Seq<char>>) -> OutputParse
    decreases ls.len(),
{
    if ls.len() == 0 {
        (None, None, seq![], false)
    } else {
        output_step(output_fold(ls.drop_last()), ls.last())
    }
}

/// Parse an output report into its PID, state and output lines.
pub fn parse_process_output<'a>(output: &'a str) -> (r: (Option<&'a str>, Option<&'a str>, Vec<&'a str>))
    ensures
        opt_str_view(r.0) == output_fold(lines(output@)).0,
        opt_str_view(r.1) == output_fold(lines(output@)).1,
        views(r.2@) == output_fold(lines(output@)).2,
{
    let ls = split_lines(output);
    let ghost lv = views(ls@);
    let mut pid: Option<&'a str> = None;
    let mut status: Option<&'a str> = None;
    let mut out_lines: Vec<&'a str> = Vec::new();
    let mut in_output = false;
    let mut i: usize = 0;
    while i < ls.len()
        invariant
            lv == views(ls@),
            lv == lines(output@),
            i <= ls@.len(),
            output_fold(lv.take(i as int)) == (
                opt_str_view(pid),
                opt_str_view(status),
                views(out_lines@),
                in_output,
            ),
        decreases ls@.len() - i,
    {
        let line = ls[i];
        proof {
            assert(lv.take(i + 1).drop_last() =~= lv.take(i as int));
            assert(lv.take(i + 1).last() == line@);
        }
        if starts_with(line, "Process ") && !contains_str(line, "Output") {
            let ws = split_words(line);
            pid = if ws.len() > 1 {
                Some(ws[1])
            } else {
                None
            };
            proof {
                if ws@.len() > 1 {
                    assert(views(ws@)[1] == ws@[1]@);
                }
            }
        } else if starts_with(line, "Status:") {
            status = Some(value_after(line, "Status:"));
        } else if contains_str(line, "Output (") || str_equal(line, "No new output") {
            in_output = true;
        } else if in_output {
            out_lines.push(line);
            assert(views(out_lines@) =~= views(out_lines@.drop_last()).push(line@));
        }
        i = i + 1;
    }
    assert(lv.take(ls@.len() as int) =~= lv);
    (pid, status, out_lines)
}

/// What has been read of an interaction report: PID, input, state,
/// response lines, and whether the response has begun.
pub type InteractParse = (Option<Seq<char>>, Option<Seq<char>>, Option<Seq<char>>, Seq<Seq<char>>, bool);

/// The PID and input named by `rest`, the part of a line after its
/// label: the text before the first colon, and the trimmed text after it.
pub open spec fn sent_fields(st: InteractParse, rest: Seq<char>) -> InteractParse {
    match index_of_char(rest, ':') {
        Some(c) => (Some(rest.take(c)), Some(trim_spec(rest.skip(c + 1))), st.2, st.3, st.4),
        None => st,
    }
}

/// Reading one line of an interaction report.
pub open spec fn interact_step(st: InteractParse, line: Seq<char>) -> InteractParse {
    if has_prefix(line, "Sent to process "@) {
        sent_fields(st, trim_start_matches_spec(line, "Sent to process "@))
    } else if has_prefix(line, "Sent input to process "@) {
        sent_fields(st, trim_start_matches_spec(line, "Sent input to process "@))
    } else if has_prefix(line, "Status:"@) {
        (st.0, st.1, Some(after_label(line, "Status:"@)), st.3, st.4)
    } else if has_prefix(line, "Response ("@) {
        (st.0, st.1, st.2, st.3, true)
    } else if st.4 {
        (st.0, st.1, st.2, st.3.push(line), st.4)
    } else {
        st
    }
}

/// Reading the lines of an interaction report in order.
pub open spec fn interact_fold(ls: Seq<Seq<char>>) -> InteractParse
    decreases ls.len(),
{
    if ls.len() == 0 {
        (None, None, None, seq![], false)
    } else {
        interact_step(interact_fold(ls.drop_last()), ls.last())
    }
}

fn split_sent<'a>(rest: &'a str) -> (r: Option<(&'a str, &'a str)>)
    ensures
        match index_of_char(rest@, ':') {
            Some(c) => r matches Some(p) && p.0@ == rest@.take(c) && p.1@ == trim_spec(rest@.skip(c + 1)),
            None => r is None,
        },
{
    proof {
        lemma_index_of_char(rest@, ':');
    }
    match find_char(rest, ':') {
        Some(c) => {
            let n = rest.unicode_len();
            let pid = rest.substring_char(0, c);
            let after = rest.substring_char(c + 1, n);
            assert(pid@ =~= rest@.take(c as int));
            assert(after@ =~= rest@.skip(c + 1));
            Some((pid, trim(after)))
        },
        None => None,
    }
}

/// Parse an interaction report into its PID, input, state and response
/// lines.
pub fn parse_interact_output<'a>(output: &'a str) -> (r: (Option<&'a str>, Option<&'a str>, Option<&'a str>, Vec<&'a str>))
    ensures
        opt_str_view(r.0) == interact_fold(lines(output@)).0,
        opt_str_view(r.1) == interact_fold(lines(output@)).1,
        opt_str_view(r.2) == interact_fold(lines(output@)).2,
        views(r.3@) == interact_fold(lines(output@)).3,
{
    let ls = split_lines(output);
    let ghost lv = views(ls@);
    let mut pid: Option<&'a str> = None;
    let mut input_sent: Option<&'a str> = None;
    let mut status: Option<&'a str> = None;
    let mut response: Vec<&'a str> = Vec::new();
    let mut in_response = false;
    let mut i: usize = 0;
    while i < ls.len()
        invariant
            lv == views(ls@),
            lv == lines(output@),
            i <= ls@.len(),
            interact_fold(lv.take(i as int)) == (
                opt_str_view(pid),
                opt_str_view(input_sent),
                opt_str_view(status),
                views(response@),
                in_response,
            ),
        decreases ls@.len() - i,
    {
        let line = ls[i];
        proof {
            assert(lv.take(i + 1).drop_last() =~= lv.take(i as int));
            assert(lv.take(i + 1).last() == line@);
        }
        if starts_with(line, "Sent to process ") {
            match split_sent(trim_start_matches(line, "Sent to process ")) {
                Some((p, inp)) => {
                    pid = Some(p);
                    input_sent = Some(inp);
                },
                None => {},
            }
        } else if starts_with(line, "Sent input to process ") {
            match split_sent(trim_start_matches(line, "Sent input to process ")) {
                Some((p, inp)) => {
                    pid = Some(p);
                    input_sent = Some(inp);
                },
                None => {},
            }
        } else if starts_with(line, "Status:") {
            status = Some(value_after(line, "Status:"));
        } else if starts_with(line, "Response (") {
            in_response = true;
        } else if in_response {
            response.push(line);
            assert(views(response@) =~= views(response@.drop_last()).push(line@));
        }
        i = i + 1;
    }
    assert(lv.take(ls@.len() as int) =~= lv);
    (pid, input_sent, status, response)
}

/// An output line that a start report carries through unchanged: it
/// breaks no line and begins with none of the report's labels.
pub open spec fn plain_output_line(l: Seq<char>) -> bool {
    &&& single_line(l)
    &&& !has_prefix(l, "Started process:"@)
    &&& !has_prefix(l, "PID:"@)
    &&& !has_prefix(l, "Status:"@)
    &&& !has_prefix(l, "Initial output:"@)
    &&& !has_prefix(l, "..."@)
}

pub(crate) proof fn lemma_lines_text(ls: Seq<Seq<char>>, rest: Seq<char>)
    requires
        forall|i: int| 0 <= i < ls.len() ==> single_line(#[trigger] ls[i]),
    ensures
        lines(lines_text(ls) + rest) == ls + lines(rest),
{
    assert forall|i: int| 0 <= i < ls.len() implies kept_line(#[trigger] ls[i]) by {
        lemma_single_line_kept(ls[i]);
    }
    lemma_kept_lines_text(ls, rest);
}

/// Lines each kept as they stand, each ended by a line feed, split back
/// into those lines.
pub(crate) proof fn lemma_kept_lines_text(ls: Seq<Seq<char>>, rest: Seq<char>)
    requires
        forall|i: int| 0 <= i < ls.len() ==> kept_line(#[trigger] ls[i]),
    ensures
        lines(lines_text(ls) + rest) == ls + lines(rest),
    decreases ls.len(),
{
    if ls.len() == 0 {
        assert(lines_text(ls) + rest =~= rest);
        assert(ls + lines(rest) =~= lines(rest));
    } else {
        let init = ls.drop_last();
        assert forall|i: int| 0 <= i < init.len() implies kept_line(#[trigger] init[i]) by {
            assert(init[i] == ls[i]);
        }
        assert(kept_line(ls.last()));
        let r2 = ls.last() + "\n"@ + rest;
        assert(lines_text(ls) + rest =~= lines_text(init) + r2);
        lemma_kept_lines_text(init, r2);
        lemma_kept_lines_cons(ls.last(), rest);
        assert(init + (seq![ls.last()] + lines(rest)) =~= ls + lines(rest));
    }
}

proof fn lemma_fold_push(ls: Seq<Seq<char>>, x: Seq<char>)
    ensures
        start_fold(ls.push(x)) == start_step(start_fold(ls), x),
{
    assert(ls.push(x).drop_last() =~= ls);
}

proof fn lemma_fold_output(a: Seq<Seq<char>>, out: Seq<Seq<char>>)
    requires
        start_fold(a).3 == Seq::<Seq<char>>::empty(),
        start_fold(a).4,
        forall|i: int| 0 <= i < out.len() ==> plain_output_line(#[trigger] out[i]),
    ensures
        start_fold(a + out) == (start_fold(a).0, start_fold(a).1, start_fold(a).2, out, true),
    decreases out.len(),
{
    if out.len() == 0 {
        assert(a + out =~= a);
        assert(out =~= Seq::<Seq<char>>::empty());
    } else {
        let init = out.drop_last();
        assert forall|i: int| 0 <= i < init.len() implies plain_output_line(#[trigger] init[i]) by {
            assert(init[i] == out[i]);
        }
        lemma_fold_output(a, init);
        assert(plain_output_line(out.last()));
        assert(a + out =~= (a + init).push(out.last()));
        lemma_fold_push(a + init, out.last());
        assert(init.push(out.last()) =~= out);
    }
}

/// A text that begins with no white space and ends with none is its own
/// trimming, and so is a space before it.
proof fn lemma_trim_spaced(v: Seq<char>)
    requires
        v.len() > 0,
        !is_ws(v[0]),
        !is_ws(v.last()),
    ensures
        trim_spec(" "@ + v) == v,
{
    reveal_strlit(" ");
    let sv = " "@ + v;
    assert(sv[0] == ' ');
    assert(sv.drop_first() =~= v);
    assert(trim_start_spec(sv) == trim_start_spec(v));
    assert(trim_start_spec(v) == v);
    assert(trim_end_spec(v) == v);
}

/// The label of a line, then a space and a value: reading the value gives
/// it trimmed.
proof fn lemma_after_label(label: Seq<char>, v: Seq<char>)
    requires
        label.len() > 0,
        label[0] != ' ',
    ensures
        after_label(label + " "@ + v, label) == trim_spec(" "@ + v),
{
    reveal_strlit(" ");
    let l = label + " "@ + v;
    assert(l.take(label.len() as int) =~= label);
    assert(l.skip(label.len() as int) =~= " "@ + v);
    assert(!has_prefix(" "@ + v, label)) by {
        if has_prefix(" "@ + v, label) {
            assert((" "@ + v).take(label.len() as int)[0] == label[0]);
        }
    }
    assert(trim_start_matches_spec(l, label) == trim_start_matches_spec(" "@ + v, label));
}

proof fn lemma_decimal_shape(n: nat)
    ensures
        decimal(n).len() > 0,
        forall|i: int| 0 <= i < decimal(n).len() ==> '0' <= #[trigger] decimal(n)[i] <= '9',
    decreases n,
{
    if n >= 10 {
        lemma_decimal_shape(n / 10);
        let d = decimal(n / 10);
        assert forall|i: int| 0 <= i < decimal(n).len() implies '0' <= #[trigger] decimal(n)[i] <= '9' by {
            if i < d.len() {
                assert(decimal(n)[i] == d[i]);
            }
        }
    }
}

proof fn lemma_state_text_shape(s: ProcessState)
    ensures
        state_text(s).len() > 0,
        !is_ws(state_text(s)[0]),
        !is_ws(state_text(s).last()),
        single_line(state_text(s)),
{
    reveal_strlit("Running");
    reveal_strlit("WaitingForInput");
    reveal_strlit("TimedOut");
    reveal_strlit("Completed { exit_code: ");
    reveal_strlit(" }");
    reveal_strlit("Some(");
    reveal_strlit(")");
    reveal_strlit("None");
    reveal_strlit("-");
    let t = state_text(s);
    match s {
        ProcessState::Completed { exit_code } => {
            let mid = match exit_code {
                Some(c) => "Some("@ + crate::tools::session::int_text(c as int) + ")"@,
                None => "None"@,
            };
            match exit_code {
                Some(c) => {
                    let v = c as int;
                    if v < 0 {
                        lemma_decimal_shape((-v) as nat);
                    } else {
                        lemma_decimal_shape(v as nat);
                    }
                    let it = crate::tools::session::int_text(v);
                    assert forall|i: int| 0 <= i < it.len() implies it[i] != '\n' && it[i] != '\r' by {
                        if v < 0 {
                            if i > 0 {
                                assert(it[i] == decimal((-v) as nat)[i - 1]);
                            }
                        } else {
                            assert(it[i] == decimal(v as nat)[i]);
                        }
                    }
                    assert forall|i: int| 0 <= i < mid.len() implies mid[i] != '\n' && mid[i] != '\r' by {
                        if 5 <= i < 5 + it.len() {
                            assert(mid[i] == it[i - 5]);
                        }
                    }
                },
                None => {},
            }
            assert(t =~= "Completed { exit_code: "@ + mid + " }"@);
            assert forall|i: int| 0 <= i < t.len() implies t[i] != '\n' && t[i] != '\r' by {
                if 23 <= i < 23 + mid.len() {
                    assert(t[i] == mid[i - 23]);
                }
            }
            assert(t[0] == 'C');
            assert(t.last() == '}');
        },
        _ => {},
    }
}

/// The first three lines of a start report.
pub open spec fn start_head(command: Seq<char>, pid: u32, state: ProcessState) -> Seq<Seq<char>> {
    seq!["Started process: "@ + command, "PID: "@ + decimal(pid as nat), "Status: "@ + state_text(state)]
}

/// The output lines a start report shows.
pub open spec fn shown_output(output: Seq<Seq<char>>) -> Seq<Seq<char>> {
    output.take(if output.len() < 20 {
        output.len() as int
    } else {
        20
    })
}

/// The note on output lines left out of a start report.
pub open spec fn more_note(output: Seq<Seq<char>>) -> Seq<Seq<char>> {
    if output.len() > 20 {
        seq!["... and "@ + decimal((output.len() - 20) as nat) + " more lines"@]
    } else {
        seq![]
    }
}

/// The lines of a start report after its first three.
pub open spec fn start_tail(output: Seq<Seq<char>>) -> Seq<Seq<char>> {
    if output.len() == 0 {
        seq![]
    } else {
        seq![seq![], "Initial output:"@] + shown_output(output) + more_note(output)
    }
}

pub(crate) proof fn lemma_single_line_concat(a: Seq<char>, b: Seq<char>)
    requires
        single_line(a),
        single_line(b),
    ensures
        single_line(a + b),
{
    assert forall|i: int| 0 <= i < (a + b).len() implies (a + b)[i] != '\n' && (a + b)[i] != '\r' by {
        if i >= a.len() {
            assert((a + b)[i] == b[i - a.len()]);
        } else {
            assert((a + b)[i] == a[i]);
        }
    }
}

proof fn lemma_decimal_single(n: nat)
    ensures
        single_line(decimal(n)),
        decimal(n).len() > 0,
        !is_ws(decimal(n)[0]),
        !is_ws(decimal(n).last()),
{
    lemma_decimal_shape(n);
    let d = decimal(n);
    assert forall|i: int| 0 <= i < d.len() implies d[i] != '\n' && d[i] != '\r' by {
        assert('0' <= d[i] <= '9');
    }
    assert('0' <= d[0] <= '9');
    assert('0' <= d[d.len() - 1] <= '9');
}

/// The text of a start report after its first three lines.
pub open spec fn start_tail_text(output: Seq<Seq<char>>) -> Seq<char> {
    if output.len() == 0 {
        seq![]
    } else {
        "\nInitial output:\n"@ + lines_text(shown_output(output)) + if output.len() > 20 {
            "... and "@ + decimal((output.len() - 20) as nat) + " more lines\n"@
        } else {
            seq![]
        }
    }
}

#[verifier::rlimit(30)]
proof fn lemma_tail_lines(output: Seq<Seq<char>>)
    requires
        forall|i: int| 0 <= i < output.len() ==> plain_output_line(#[trigger] output[i]),
    ensures
        lines(start_tail_text(output)) == start_tail(output),
{
    reveal_strlit("\n");
    reveal_strlit("\nInitial output:\n");
    reveal_strlit("Initial output:");
    reveal_strlit("... and ");
    reveal_strlit(" more lines\n");
    reveal_strlit(" more lines");
    let output_n = output.len() as int;
    let shown = shown_output(output);
    let tail = start_tail_text(output);
    if output_n == 0 {
        assert(lines(tail) =~= Seq::<Seq<char>>::empty());
    } else {
        let more: Seq<char> = if output_n > 20 {
            "... and "@ + decimal((output_n - 20) as nat) + " more lines\n"@
        } else {
            seq![]
        };
        assert forall|i: int| 0 <= i < shown.len() implies single_line(#[trigger] shown[i]) by {
            assert(shown[i] == output[i]);
            assert(plain_output_line(output[i]));
        }
        let blank: Seq<char> = seq![];
        let io = "Initial output:"@;
        assert(single_line(blank));
        assert(single_line(io));
        assert(tail =~= blank + "\n"@ + (io + "\n"@ + (lines_text(shown) + more)));
        lemma_lines_cons(blank, io + "\n"@ + (lines_text(shown) + more));
        lemma_lines_cons(io, lines_text(shown) + more);
        lemma_lines_text(shown, more);
        if output_n > 20 {
            let dd = decimal((output_n - 20) as nat);
            let ml = "... and "@ + dd + " more lines"@;
            lemma_decimal_single((output_n - 20) as nat);
            assert(single_line("... and "@));
            assert(single_line(" more lines"@));
            lemma_single_line_concat("... and "@, dd);
            lemma_single_line_concat("... and "@ + dd, " more lines"@);
            assert(more =~= ml + "\n"@ + Seq::<char>::empty());
            lemma_lines_cons(ml, Seq::<char>::empty());
            assert(lines(Seq::<char>::empty()) =~= Seq::<Seq<char>>::empty());
            assert(lines(more) =~= more_note(output));
        } else {
            assert(lines(more) =~= more_note(output));
        }
        assert(lines(tail) =~= start_tail(output));
    }
}

#[verifier::rlimit(30)]
proof fn lemma_report_lines(command: Seq<char>, pid: u32, state: ProcessState, output: Seq<Seq<char>>)
    requires
        single_line(command),
        forall|i: int| 0 <= i < output.len() ==> plain_output_line(#[trigger] output[i]),
    ensures
        lines(start_report_text(command, pid, state, output)) == start_head(command, pid, state) + start_tail(output),
{
    reveal_strlit("Started process: ");
    reveal_strlit("\nPID: ");
    reveal_strlit("PID: ");
    reveal_strlit("\nStatus: ");
    reveal_strlit("Status: ");
    reveal_strlit("\n");
    let d = decimal(pid as nat);
    let st = state_text(state);
    lemma_decimal_single(pid as nat);
    lemma_state_text_shape(state);
    let l1 = "Started process: "@ + command;
    let l2 = "PID: "@ + d;
    let l3 = "Status: "@ + st;
    assert(single_line("Started process: "@));
    assert(single_line("PID: "@));
    assert(single_line("Status: "@));
    lemma_single_line_concat("Started process: "@, command);
    lemma_single_line_concat("PID: "@, d);
    lemma_single_line_concat("Status: "@, st);
    let tail = start_tail_text(output);
    let report = start_report_text(command, pid, state, output);
    assert(report =~= l1 + "\n"@ + (l2 + "\n"@ + (l3 + "\n"@ + tail)));
    lemma_lines_cons(l1, l2 + "\n"@ + (l3 + "\n"@ + tail));
    lemma_lines_cons(l2, l3 + "\n"@ + tail);
    lemma_lines_cons(l3, tail);
    lemma_tail_lines(output);
    assert(lines(report) =~= start_head(command, pid, state) + start_tail(output));
}

proof fn lemma_head_fold(command: Seq<char>, pid: u32, state: ProcessState)
    ensures
        start_fold(start_head(command, pid, state)) == (
            Some(trim_spec(command)),
            Some(decimal(pid as nat)),
            Some(state_text(state)),
            Seq::<Seq<char>>::empty(),
            false,
        ),
{
    reveal_strlit("Started process: ");
    reveal_strlit("Started process:");
    reveal_strlit("PID: ");
    reveal_strlit("PID:");
    reveal_strlit("Status: ");
    reveal_strlit("Status:");
    reveal_strlit(" ");
    let d = decimal(pid as nat);
    let st = state_text(state);
    lemma_decimal_single(pid as nat);
    lemma_state_text_shape(state);
    let l1 = "Started process: "@ + command;
    let l2 = "PID: "@ + d;
    let l3 = "Status: "@ + st;
    let e: Seq<Seq<char>> = seq![];
    assert(start_fold(e) == (None::<Seq<char>>, None::<Seq<char>>, None::<Seq<char>>, e, false));
    assert(has_prefix(l1, "Started process:"@)) by {
        assert(l1.take(16) =~= "Started process:"@);
    }
    assert(l1 =~= "Started process:"@ + " "@ + command);
    lemma_after_label("Started process:"@, command);
    assert(trim_start_spec(" "@ + command) == trim_start_spec(command)) by {
        assert((" "@ + command)[0] == ' ');
        assert((" "@ + command).drop_first() =~= command);
    }
    lemma_fold_push(e, l1);
    assert(seq![l1] =~= e.push(l1));
    assert(!has_prefix(l2, "Started process:"@)) by {
        if has_prefix(l2, "Started process:"@) {
            assert(l2.take(16)[0] == 'S');
        }
    }
    assert(has_prefix(l2, "PID:"@)) by {
        assert(l2.take(4) =~= "PID:"@);
    }
    assert(l2 =~= "PID:"@ + " "@ + d);
    lemma_after_label("PID:"@, d);
    lemma_trim_spaced(d);
    lemma_fold_push(seq![l1], l2);
    assert(seq![l1, l2] =~= seq![l1].push(l2));
    assert(!has_prefix(l3, "Started process:"@)) by {
        if has_prefix(l3, "Started process:"@) {
            assert(l3.take(16)[3] == 'r');
        }
    }
    assert(!has_prefix(l3, "PID:"@)) by {
        if has_prefix(l3, "PID:"@) {
            assert(l3.take(4)[0] == 'P');
        }
    }
    assert(has_prefix(l3, "Status:"@)) by {
        assert(l3.take(7) =~= "Status:"@);
    }
    assert(l3 =~= "Status:"@ + " "@ + st);
    lemma_after_label("Status:"@, st);
    lemma_trim_spaced(st);
    lemma_fold_push(seq![l1, l2], l3);
    assert(start_head(command, pid, state) =~= seq![l1, l2].push(l3));
}

proof fn lemma_tail_fold(head: Seq<Seq<char>>, output: Seq<Seq<char>>)
    requires
        start_fold(head).3 == Seq::<Seq<char>>::empty(),
        !start_fold(head).4,
        output.len() > 0,
        forall|i: int| 0 <= i < output.len() ==> plain_output_line(#[trigger] output[i]),
    ensures
        start_fold(head + start_tail(output)) == (
            start_fold(head).0,
            start_fold(head).1,
            start_fold(head).2,
            shown_output(output),
            true,
        ),
{
    reveal_strlit("Started process:");
    reveal_strlit("PID:");
    reveal_strlit("Status:");
    reveal_strlit("Initial output:");
    reveal_strlit("...");
    reveal_strlit("... and ");
    reveal_strlit(" more lines");
    let shown = shown_output(output);
    let blank: Seq<char> = seq![];
    let io = "Initial output:"@;
    assert(!has_prefix(blank, "Started process:"@));
    assert(!has_prefix(blank, "PID:"@));
    assert(!has_prefix(blank, "Status:"@));
    assert(!has_prefix(blank, "Initial output:"@));
    lemma_fold_push(head, blank);
    assert(!has_prefix(io, "Started process:"@)) by {
        if has_prefix(io, "Started process:"@) {
            assert(io.take(16)[0] == 'S');
        }
    }
    assert(!has_prefix(io, "PID:"@)) by {
        if has_prefix(io, "PID:"@) {
            assert(io.take(4)[0] == 'P');
        }
    }
    assert(!has_prefix(io, "Status:"@)) by {
        if has_prefix(io, "Status:"@) {
            assert(io.take(7)[0] == 'S');
        }
    }
    assert(has_prefix(io, "Initial output:"@)) by {
        assert(io.take(15) =~= io);
    }
    lemma_fold_push(head.push(blank), io);
    let before_out = head + seq![blank, io];
    assert(before_out =~= head.push(blank).push(io));
    assert forall|i: int| 0 <= i < shown.len() implies plain_output_line(#[trigger] shown[i]) by {
        assert(shown[i] == output[i]);
    }
    lemma_fold_output(before_out, shown);
    if output.len() > 20 {
        let ml = "... and "@ + decimal((output.len() - 20) as nat) + " more lines"@;
        assert(!has_prefix(ml, "Started process:"@)) by {
            if has_prefix(ml, "Started process:"@) {
                assert(ml.take(16)[0] == 'S');
            }
        }
        assert(!has_prefix(ml, "PID:"@)) by {
            if has_prefix(ml, "PID:"@) {
                assert(ml.take(4)[0] == 'P');
            }
        }
        assert(!has_prefix(ml, "Status:"@)) by {
            if has_prefix(ml, "Status:"@) {
                assert(ml.take(7)[0] == 'S');
            }
        }
        assert(!has_prefix(ml, "Initial output:"@)) by {
            if has_prefix(ml, "Initial output:"@) {
                assert(ml.take(15)[0] == 'I');
            }
        }
        assert(has_prefix(ml, "..."@)) by {
            assert(ml.take(3) =~= "..."@);
        }
        lemma_fold_push(before_out + shown, ml);
        assert(head + start_tail(output) =~= (before_out + shown).push(ml));
    } else {
        assert(head + start_tail(output) =~= before_out + shown);
    }
}

/// The start report reads back as written: the command (trimmed), the
/// PID, the state, and the output lines it shows, when the command and the
/// output lines break no line and no output line begins with a label.
pub proof fn law_start_report_read_back(command: Seq<char>, pid: u32, state: ProcessState, output: Seq<Seq<char>>)
    requires
        single_line(command),
        forall|i: int| 0 <= i < output.len() ==> plain_output_line(#[trigger] output[i]),
    ensures
        start_fold(lines(start_report_text(command, pid, state, output))) == (
            Some(trim_spec(command)),
            Some(decimal(pid as nat)),
            Some(state_text(state)),
            shown_output(output),
            output.len() > 0,
        ),
{
    lemma_report_lines(command, pid, state, output);
    lemma_head_fold(command, pid, state);
    let head = start_head(command, pid, state);
    if output.len() == 0 {
        assert(head + start_tail(output) =~= head);
        assert(shown_output(output) =~= Seq::<Seq<char>>::empty());
    } else {
        lemma_tail_fold(head, output);
    }
}

/// No occurrence of `p` in a text that lacks its first character.
proof fn lemma_no_sub(s: Seq<char>, p: Seq<char>)
    requires
        p.len() > 0,
        forall|i: int| 0 <= i < s.len() ==> s[i] != p[0],
    ensures
        index_of_sub(s, p) is None,
    decreases s.len(),
{
    if p.len() <= s.len() {
        assert(!has_prefix(s, p)) by {
            if has_prefix(s, p) {
                assert(s.take(p.len() as int)[0] == s[0]);
            }
        }
        let t = s.drop_first();
        assert forall|i: int| 0 <= i < t.len() implies t[i] != p[0] by {
            assert(t[i] == s[i + 1]);
        }
        lemma_no_sub(t, p);
    }
}

/// A word followed by white space or nothing is as long as itself.
proof fn lemma_word_len_of(w: Seq<char>, rest: Seq<char>)
    requires
        forall|i: int| 0 <= i < w.len() ==> !is_ws(#[trigger] w[i]),
        rest.len() == 0 || is_ws(rest[0]),
    ensures
        word_len(w + rest) == w.len(),
    decreases w.len(),
{
    if w.len() == 0 {
        assert(w + rest =~= rest);
    } else {
        let s = w + rest;
        let t = w.drop_first();
        assert(s[0] == w[0]);
        assert(s.drop_first() =~= t + rest);
        assert forall|i: int| 0 <= i < t.len() implies !is_ws(#[trigger] t[i]) by {
            assert(t[i] == w[i + 1]);
        }
        lemma_word_len_of(t, rest);
    }
}

/// Two words with a space between them split into those two words.
proof fn lemma_words_pair(w: Seq<char>, d: Seq<char>)
    requires
        w.len() > 0,
        d.len() > 0,
        forall|i: int| 0 <= i < w.len() ==> !is_ws(#[trigger] w[i]),
        forall|i: int| 0 <= i < d.len() ==> !is_ws(#[trigger] d[i]),
    ensures
        words(w + " "@ + d) == seq![w, d],
{
    reveal_strlit(" ");
    let e = Seq::<char>::empty();
    let rest = " "@ + d;
    let s = w + rest;
    assert(w + " "@ + d =~= s);
    assert(rest[0] == ' ');
    lemma_word_len_of(w, rest);
    assert(s[0] == w[0]);
    assert(s.take(w.len() as int) =~= w);
    assert(s.skip(w.len() as int) =~= rest);
    assert(words(s) == seq![w] + words(rest));
    assert(rest.drop_first() =~= d);
    assert(words(rest) == words(d));
    assert(d + e =~= d);
    lemma_word_len_of(d, e);
    assert(d.take(d.len() as int) =~= d);
    assert(d.skip(d.len() as int) =~= e);
    assert(words(e) =~= Seq::<Seq<char>>::empty());
    assert(words(d) =~= seq![d]);
    assert(seq![w] + seq![d] =~= seq![w, d]);
}

/// An output line that an output report carries through unchanged: it
/// holds no line feed, does not end in a carriage return, and is read as
/// none of the report's labels.
pub open spec fn plain_read_line(l: Seq<char>) -> bool {
    &&& kept_line(l)
    &&& !has_prefix(l, "Process "@)
    &&& !has_prefix(l, "Status:"@)
    &&& index_of_sub(l, "Output ("@) is None
    &&& l != "No new output"@
}

proof fn lemma_output_fold_push(ls: Seq<Seq<char>>, x: Seq<char>)
    ensures
        output_fold(ls.push(x)) == output_step(output_fold(ls), x),
{
    assert(ls.push(x).drop_last() =~= ls);
}

proof fn lemma_output_fold_lines(a: Seq<Seq<char>>, out: Seq<Seq<char>>)
    requires
        output_fold(a).2 == Seq::<Seq<char>>::empty(),
        output_fold(a).3,
        forall|i: int| 0 <= i < out.len() ==> plain_read_line(#[trigger] out[i]),
    ensures
        output_fold(a + out) == (output_fold(a).0, output_fold(a).1, out, true),
    decreases out.len(),
{
    if out.len() == 0 {
        assert(a + out =~= a);
        assert(out =~= Seq::<Seq<char>>::empty());
    } else {
        let init = out.drop_last();
        assert forall|i: int| 0 <= i < init.len() implies plain_read_line(#[trigger] init[i]) by {
            assert(init[i] == out[i]);
        }
        lemma_output_fold_lines(a, init);
        assert(plain_read_line(out.last()));
        assert(a + out =~= (a + init).push(out.last()));
        lemma_output_fold_push(a + init, out.last());
        assert(init.push(out.last()) =~= out);
    }
}

/// The first two lines of an output report, read: the PID and the state.
#[verifier::rlimit(30)]
proof fn lemma_output_head(pid: u32, st: Seq<char>)
    requires
        status_shaped(st),
    ensures
        output_fold(seq!["Process "@ + decimal(pid as nat), "Status: "@ + st]) == (
            Some(decimal(pid as nat)),
            Some(st),
            Seq::<Seq<char>>::empty(),
            false,
        ),
{
    reveal_strlit("Process ");
    reveal_strlit("Process");
    reveal_strlit(" ");
    reveal_strlit("Output");
    reveal_strlit("Status: ");
    reveal_strlit("Status:");
    let d = decimal(pid as nat);
    lemma_decimal_shape(pid as nat);
    let l1 = "Process "@ + d;
    let l2 = "Status: "@ + st;
    let e: Seq<Seq<char>> = seq![];
    assert(output_fold(e) == (None::<Seq<char>>, None::<Seq<char>>, e, false));
    assert(has_prefix(l1, "Process "@)) by {
        assert(l1.take(8) =~= "Process "@);
    }
    assert forall|i: int| 0 <= i < l1.len() implies l1[i] != "Output"@[0] by {
        if i >= 8 {
            assert(l1[i] == d[i - 8]);
            assert('0' <= d[i - 8] <= '9');
        }
    }
    lemma_no_sub(l1, "Output"@);
    assert(l1 =~= "Process"@ + " "@ + d);
    assert forall|i: int| 0 <= i < d.len() implies !is_ws(#[trigger] d[i]) by {
        assert('0' <= d[i] <= '9');
    }
    lemma_words_pair("Process"@, d);
    lemma_output_fold_push(e, l1);
    assert(seq![l1] =~= e.push(l1));
    assert(!has_prefix(l2, "Process "@)) by {
        if has_prefix(l2, "Process "@) {
            assert(l2.take(8)[0] == 'S');
        }
    }
    assert(has_prefix(l2, "Status:"@)) by {
        assert(l2.take(7) =~= "Status:"@);
    }
    assert(l2 =~= "Status:"@ + " "@ + st);
    lemma_after_label("Status:"@, st);
    lemma_trim_spaced(st);
    lemma_output_fold_push(seq![l1], l2);
    assert(seq![l1, l2] =~= seq![l1].push(l2));
}

/// A state's text as an output report can carry it: not empty, with no
/// line feed, and without white space (a carriage return among it) at
/// either end.
pub open spec fn status_shaped(st: Seq<char>) -> bool {
    &&& st.len() > 0
    &&& !is_ws(st[0])
    &&& !is_ws(st.last())
    &&& forall|i: int| 0 <= i < st.len() ==> st[i] != '\n'
}

/// The output report reads back as written: the PID, the state's text,
/// and the output lines, for any state text without a line feed or white
/// space at its ends, when no output line holds a line feed, ends in a
/// carriage return or is read as a label.
#[verifier::spinoff_prover]
#[verifier::rlimit(100)]
pub proof fn law_output_report_read_back(pid: u32, st: Seq<char>, output: Seq<Seq<char>>)
    requires
        status_shaped(st),
        forall|i: int| 0 <= i < output.len() ==> plain_read_line(#[trigger] output[i]),
    ensures
        output_fold(lines(output_report_with(pid, st, output))) == (
            Some(decimal(pid as nat)),
            Some(st),
            output,
            true,
        ),
{
    reveal_strlit("Process ");
    reveal_strlit("Process");
    reveal_strlit("\nStatus: ");
    reveal_strlit("Status: ");
    reveal_strlit("Status:");
    reveal_strlit("\n");
    reveal_strlit("\nNo new output");
    reveal_strlit("No new output");
    reveal_strlit("\n\nOutput (");
    reveal_strlit("Output (");
    reveal_strlit(" lines):\n");
    reveal_strlit(" lines):");
    let d = decimal(pid as nat);
    lemma_decimal_single(pid as nat);
    let l1 = "Process "@ + d;
    let l2 = "Status: "@ + st;
    assert(single_line("Process "@));
    assert(single_line("Status: "@));
    lemma_single_line_concat("Process "@, d);
    assert(kept_line(l2)) by {
        assert forall|i: int| 0 <= i < l2.len() implies l2[i] != '\n' by {
            if i >= 8 {
                assert(l2[i] == st[i - 8]);
            }
        }
        assert(l2.last() == st.last());
    }
    lemma_single_line_kept(l1);
    lemma_output_head(pid, st);
    let head: Seq<Seq<char>> = seq![l1, l2];
    let report = output_report_with(pid, st, output);
    if output.len() == 0 {
        let nno = "No new output"@;
        assert(single_line(nno));
        lemma_index_of_char_none(nno, '\n');
        assert(lines(nno) =~= seq![nno]);
        assert(report =~= l1 + "\n"@ + (l2 + "\n"@ + nno));
        lemma_kept_lines_cons(l1, l2 + "\n"@ + nno);
        lemma_kept_lines_cons(l2, nno);
        assert(lines(report) =~= head.push(nno));
        assert(!has_prefix(nno, "Process "@)) by {
            if has_prefix(nno, "Process "@) {
                assert(nno.take(8)[0] == 'N');
            }
        }
        assert(!has_prefix(nno, "Status:"@)) by {
            if has_prefix(nno, "Status:"@) {
                assert(nno.take(7)[0] == 'N');
            }
        }
        lemma_output_fold_push(head, nno);
        assert(output =~= Seq::<Seq<char>>::empty());
    } else {
        let k = decimal(output.len());
        lemma_decimal_single(output.len());
        let blank: Seq<char> = seq![];
        let l4 = "Output ("@ + k + " lines):"@;
        assert(single_line("Output ("@));
        assert(single_line(" lines):"@));
        lemma_single_line_concat("Output ("@, k);
        lemma_single_line_concat("Output ("@ + k, " lines):"@);
        assert(single_line(blank));
        assert forall|i: int| 0 <= i < output.len() implies kept_line(#[trigger] output[i]) by {
            assert(plain_read_line(output[i]));
        }
        let tail = lines_text(output);
        assert(report =~= l1 + "\n"@ + (l2 + "\n"@ + (blank + "\n"@ + (l4 + "\n"@ + tail))));
        lemma_kept_lines_cons(l1, l2 + "\n"@ + (blank + "\n"@ + (l4 + "\n"@ + tail)));
        lemma_kept_lines_cons(l2, blank + "\n"@ + (l4 + "\n"@ + tail));
        lemma_lines_cons(blank, l4 + "\n"@ + tail);
        lemma_lines_cons(l4, tail);
        assert(tail + Seq::<char>::empty() =~= tail);
        lemma_kept_lines_text(output, Seq::<char>::empty());
        assert(lines(Seq::<char>::empty()) =~= Seq::<Seq<char>>::empty());
        assert(lines(tail) =~= output);
        assert(lines(report) =~= head.push(blank).push(l4) + output);
        assert(index_of_sub(blank, "Output ("@) is None);
        lemma_output_fold_push(head, blank);
        assert(!has_prefix(l4, "Process "@)) by {
            if has_prefix(l4, "Process "@) {
                assert(l4.take(8)[0] == 'O');
            }
        }
        assert(!has_prefix(l4, "Status:"@)) by {
            if has_prefix(l4, "Status:"@) {
                assert(l4.take(7)[0] == 'O');
            }
        }
        assert(has_prefix(l4, "Output ("@)) by {
            assert(l4.take(8) =~= "Output ("@);
        }
        assert(index_of_sub(l4, "Output ("@) == Some(0int));
        lemma_output_fold_push(head.push(blank), l4);
        lemma_output_fold_lines(head.push(blank).push(l4), output);
    }
}

/// Joining with line feeds puts the first part, a line feed, then the
/// rest joined.
proof fn lemma_join_front(ps: Seq<Seq<char>>)
    requires
        ps.len() >= 2,
    ensures
        join_spec(ps, "\n"@) == ps[0] + "\n"@ + join_spec(ps.drop_first(), "\n"@),
    decreases ps.len(),
{
    let nl = "\n"@;
    let df = ps.drop_first();
    if ps.len() == 2 {
        assert(ps.drop_last() =~= seq![ps[0]]);
        assert(df =~= seq![ps[1]]);
        assert(join_spec(df, nl) == df[0]);
        assert(join_spec(ps.drop_last(), nl) == ps.drop_last()[0]);
        assert(join_spec(ps, nl) == join_spec(ps.drop_last(), nl) + nl + ps.last());
        assert(join_spec(ps, nl) =~= ps[0] + nl + join_spec(df, nl));
    } else {
        let dl = ps.drop_last();
        lemma_join_front(dl);
        assert(dl.drop_first() =~= df.drop_last());
        assert(df.last() == ps.last());
        assert(join_spec(ps, nl) == join_spec(dl, nl) + nl + ps.last());
        assert(join_spec(df, nl) == join_spec(df.drop_last(), nl) + nl + df.last());
        assert(join_spec(ps, nl) =~= ps[0] + nl + join_spec(df, nl));
    }
}

/// Lines joined by line feeds split back into those lines, when none
/// breaks a line and the last is not empty.
pub(crate) proof fn lemma_lines_join(ps: Seq<Seq<char>>)
    requires
        forall|i: int| 0 <= i < ps.len() ==> single_line(#[trigger] ps[i]),
        ps.len() == 0 || ps.last().len() > 0,
    ensures
        lines(join_spec(ps, "\n"@)) == ps,
    decreases ps.len(),
{
    if ps.len() == 0 {
        assert(lines(join_spec(ps, "\n"@)) =~= ps);
    } else if ps.len() == 1 {
        let p = ps[0];
        assert(single_line(p));
        lemma_index_of_char_none(p, '\n');
        assert(lines(p) =~= seq![p]);
        assert(ps =~= seq![p]);
    } else {
        let df = ps.drop_first();
        lemma_join_front(ps);
        assert forall|i: int| 0 <= i < df.len() implies single_line(#[trigger] df[i]) by {
            assert(df[i] == ps[i + 1]);
        }
        assert(df.last() == ps.last());
        lemma_lines_join(df);
        assert(single_line(ps[0]));
        lemma_lines_cons(ps[0], join_spec(df, "\n"@));
        assert(seq![ps[0]] + df =~= ps);
    }
}

/// A response line that an interaction report carries through unchanged:
/// it breaks no line and begins with none of the report's labels.
pub open spec fn plain_response_line(l: Seq<char>) -> bool {
    &&& single_line(l)
    &&& !has_prefix(l, "Sent to process "@)
    &&& !has_prefix(l, "Sent input to process "@)
    &&& !has_prefix(l, "Status:"@)
    &&& !has_prefix(l, "Response ("@)
}

proof fn lemma_interact_fold_push(ls: Seq<Seq<char>>, x: Seq<char>)
    ensures
        interact_fold(ls.push(x)) == interact_step(interact_fold(ls), x),
{
    assert(ls.push(x).drop_last() =~= ls);
}

proof fn lemma_interact_fold_lines(a: Seq<Seq<char>>, out: Seq<Seq<char>>)
    requires
        interact_fold(a).3 == Seq::<Seq<char>>::empty(),
        interact_fold(a).4,
        forall|i: int| 0 <= i < out.len() ==> plain_response_line(#[trigger] out[i]),
    ensures
        interact_fold(a + out) == (interact_fold(a).0, interact_fold(a).1, interact_fold(a).2, out, true),
    decreases out.len(),
{
    if out.len() == 0 {
        assert(a + out =~= a);
        assert(out =~= Seq::<Seq<char>>::empty());
    } else {
        let init = out.drop_last();
        assert forall|i: int| 0 <= i < init.len() implies plain_response_line(#[trigger] init[i]) by {
            assert(init[i] == out[i]);
        }
        lemma_interact_fold_lines(a, init);
        assert(plain_response_line(out.last()));
        assert(a + out =~= (a + init).push(out.last()));
        lemma_interact_fold_push(a + init, out.last());
        assert(init.push(out.last()) =~= out);
    }
}

/// The first line of an interaction report, read: the PID and the input.
#[verifier::rlimit(30)]
proof fn lemma_sent_line(pid: u32, input: Seq<char>)
    ensures
        interact_step(
            (None, None, None, Seq::<Seq<char>>::empty(), false),
            "Sent to process "@ + decimal(pid as nat) + ": "@ + input,
        ) == (
            Some(decimal(pid as nat)),
            Some(trim_spec(input)),
            None::<Seq<char>>,
            Seq::<Seq<char>>::empty(),
            false,
        ),
{
    reveal_strlit("Sent to process ");
    reveal_strlit(": ");
    reveal_strlit(" ");
    let d = decimal(pid as nat);
    lemma_decimal_shape(pid as nat);
    let label = "Sent to process "@;
    let rest = d + ": "@ + input;
    let l1 = label + rest;
    assert("Sent to process "@ + d + ": "@ + input =~= l1);
    assert(has_prefix(l1, label)) by {
        assert(l1.take(16) =~= label);
    }
    assert(l1.skip(16) =~= rest);
    assert(!has_prefix(rest, label)) by {
        if has_prefix(rest, label) {
            assert(rest.take(16)[0] == rest[0]);
            assert(rest[0] == d[0]);
            assert('0' <= d[0] <= '9');
        }
    }
    assert(trim_start_matches_spec(rest, label) == rest);
    assert(trim_start_matches_spec(l1, label) == rest);
    assert(rest[d.len() as int] == ':');
    assert forall|j: int| 0 <= j < d.len() implies rest[j] != ':' by {
        assert(rest[j] == d[j]);
        assert('0' <= d[j] <= '9');
    }
    lemma_index_of_char_at(rest, ':', d.len() as int);
    assert(rest.take(d.len() as int) =~= d);
    let after = rest.skip(d.len() as int + 1);
    assert(after =~= " "@ + input);
    assert(after[0] == ' ');
    assert(after.drop_first() =~= input);
    assert(trim_start_spec(after) == trim_start_spec(input));
}

/// The interaction report reads back as written: the PID, the input
/// (trimmed), the state with the reason waiting ended, and the response
/// lines, when neither the input, the reason nor a response line breaks a
/// line, no response line begins with a label, and the last is not empty.
#[verifier::rlimit(60)]
pub proof fn law_interact_report_read_back(
    pid: u32,
    input: Seq<char>,
    state: ProcessState,
    reason: Seq<char>,
    output: Seq<Seq<char>>,
)
    requires
        single_line(input),
        single_line(reason),
        forall|i: int| 0 <= i < output.len() ==> plain_response_line(#[trigger] output[i]),
        output.len() == 0 || output.last().len() > 0,
    ensures
        interact_fold(lines(interact_report_text(pid, input, state, reason, output))) == (
            Some(decimal(pid as nat)),
            Some(trim_spec(input)),
            Some(state_text(state) + " ("@ + reason + ")"@),
            output,
            true,
        ),
{
    reveal_strlit("Sent to process ");
    reveal_strlit("Sent input to process ");
    reveal_strlit(": ");
    reveal_strlit("\nStatus: ");
    reveal_strlit("Status: ");
    reveal_strlit("Status:");
    reveal_strlit(" (");
    reveal_strlit(")\n\nResponse (");
    reveal_strlit(" ");
    reveal_strlit("Response (");
    reveal_strlit(" lines):\n");
    reveal_strlit(" lines):");
    reveal_strlit(")");
    reveal_strlit("\n");
    let d = decimal(pid as nat);
    let st = state_text(state);
    let k = decimal(output.len());
    lemma_decimal_single(pid as nat);
    lemma_decimal_single(output.len());
    lemma_state_text_shape(state);
    let l1 = "Sent to process "@ + d + ": "@ + input;
    let v = st + " ("@ + reason + ")"@;
    let l2 = "Status: "@ + v;
    let blank: Seq<char> = seq![];
    let l4 = "Response ("@ + k + " lines):"@;
    assert(single_line("Sent to process "@));
    assert(single_line(": "@));
    assert(single_line("Status: "@));
    assert(single_line(" ("@));
    assert(single_line(")"@));
    assert(single_line("Response ("@));
    assert(single_line(" lines):"@));
    lemma_single_line_concat("Sent to process "@, d);
    lemma_single_line_concat("Sent to process "@ + d, ": "@);
    lemma_single_line_concat("Sent to process "@ + d + ": "@, input);
    lemma_single_line_concat(st, " ("@);
    lemma_single_line_concat(st + " ("@, reason);
    lemma_single_line_concat(st + " ("@ + reason, ")"@);
    lemma_single_line_concat("Status: "@, v);
    lemma_single_line_concat("Response ("@, k);
    lemma_single_line_concat("Response ("@ + k, " lines):"@);
    assert(single_line(blank));
    let body = join_spec(output, "\n"@);
    let report = interact_report_text(pid, input, state, reason, output);
    assert(report =~= l1 + "\n"@ + (l2 + "\n"@ + (blank + "\n"@ + (l4 + "\n"@ + body))));
    lemma_lines_cons(l1, l2 + "\n"@ + (blank + "\n"@ + (l4 + "\n"@ + body)));
    lemma_lines_cons(l2, blank + "\n"@ + (l4 + "\n"@ + body));
    lemma_lines_cons(blank, l4 + "\n"@ + body);
    lemma_lines_cons(l4, body);
    assert forall|i: int| 0 <= i < output.len() implies single_line(#[trigger] output[i]) by {
        assert(plain_response_line(output[i]));
    }
    lemma_lines_join(output);
    let e: Seq<Seq<char>> = seq![];
    let head = seq![l1, l2, blank, l4];
    assert(lines(report) =~= head + output);
    assert(interact_fold(e) == (None::<Seq<char>>, None::<Seq<char>>, None::<Seq<char>>, e, false));
    lemma_sent_line(pid, input);
    lemma_interact_fold_push(e, l1);
    assert(seq![l1] =~= e.push(l1));
    assert(!has_prefix(l2, "Sent to process "@)) by {
        if has_prefix(l2, "Sent to process "@) {
            assert(l2.take(16)[1] == 't');
        }
    }
    assert(!has_prefix(l2, "Sent input to process "@)) by {
        if has_prefix(l2, "Sent input to process "@) {
            assert(l2.take(22)[1] == 't');
        }
    }
    assert(has_prefix(l2, "Status:"@)) by {
        assert(l2.take(7) =~= "Status:"@);
    }
    assert(l2 =~= "Status:"@ + " "@ + v);
    lemma_after_label("Status:"@, v);
    assert(v[0] == st[0]);
    assert(v.last() == ')');
    lemma_trim_spaced(v);
    lemma_interact_fold_push(seq![l1], l2);
    assert(seq![l1, l2] =~= seq![l1].push(l2));
    lemma_interact_fold_push(seq![l1, l2], blank);
    assert(seq![l1, l2, blank] =~= seq![l1, l2].push(blank));
    assert(!has_prefix(l4, "Sent to process "@)) by {
        if has_prefix(l4, "Sent to process "@) {
            assert(l4.take(16)[0] == 'R');
        }
    }
    assert(!has_prefix(l4, "Sent input to process "@)) by {
        if has_prefix(l4, "Sent input to process "@) {
            assert(l4.take(22)[0] == 'R');
        }
    }
    assert(!has_prefix(l4, "Status:"@)) by {
        if has_prefix(l4, "Status:"@) {
            assert(l4.take(7)[0] == 'R');
        }
    }
    assert(has_prefix(l4, "Response ("@)) by {
        assert(l4.take(10) =~= "Response ("@);
    }
    lemma_interact_fold_push(seq![l1, l2, blank], l4);
    assert(head =~= seq![l1, l2, blank].push(l4));
    lemma_interact_fold_lines(head, output);
}

} // verus!
