//! Process sessions: their states, the decisions taken while watching
//! them, and the detection of a prompt waiting for input.

use vstd::prelude::*;
use vstd::string::*;
use crate::text::{decimal, push_char, push_decimal};
use crate::tools::pattern::{regex_compiles, regex_finds, LinePattern};

verus! {

/// State of a process session.
#[derive(Debug, Clone, PartialEq, Eq, Structural)]
pub enum ProcessState {
    /// Process is running and producing output.
    Running,
    /// Process appears to be waiting for input (prompt detected).
    WaitingForInput,
    /// Process has exited.
    Completed { exit_code: Option<i32> },
    /// Process exceeded its timeout.
    TimedOut,
}

/// The decimal text of an integer, with a leading `-` when negative.
pub open spec fn int_text(v: int) -> Seq<char> {
    if v < 0 {
        "-"@ + decimal((-v) as nat)
    } else {
        decimal(v as nat)
    }
}

/// The text of a state as `{:?}` writes it.
pub open spec fn state_text(s: ProcessState) -> Seq<char> {
    match s {
        ProcessState::Running => "Running"@,
        ProcessState::WaitingForInput => "WaitingForInput"@,
        ProcessState::Completed { exit_code } => "Completed { exit_code: "@ + match exit_code {
            Some(c) => "Some("@ + int_text(c as int) + ")"@,
            None => "None"@,
        } + " }"@,
        ProcessState::TimedOut => "TimedOut"@,
    }
}

/// Append the decimal text of `v`.
pub fn push_int(s: &mut String, v: i32)
    ensures
        final(s)@ == old(s)@ + int_text(v as int),
{
    if v < 0 {
        push_char(s, '-');
        let m: i64 = v as i64;
        push_decimal(s, (-m) as u64);
        proof {
            reveal_strlit("-");
        }
        assert(s@ =~= old(s)@ + int_text(v as int));
    } else {
        push_decimal(s, v as u64);
    }
}

impl ProcessState {
    /// The state's text, as `{:?}` writes it.
    pub fn text(&self) -> (r: String)
        ensures
            r@ == state_text(*self),
    {
        let mut r = String::new();
        match self {
            ProcessState::Running => r.append("Running"),
            ProcessState::WaitingForInput => r.append("WaitingForInput"),
            ProcessState::Completed { exit_code } => {
                r.append("Completed { exit_code: ");
                match exit_code {
                    Some(c) => {
                        r.append("Some(");
                        push_int(&mut r, *c);
                        r.append(")");
                    },
                    None => r.append("None"),
                }
                r.append(" }");
            },
            ProcessState::TimedOut => r.append("TimedOut"),
        }
        proof {
            reveal_strlit("");
        }
        assert(r@ =~= state_text(*self));
        r
    }
}

/// Whether a session has run past its timeout.
pub open spec fn spec_timed_out(elapsed_ms: u64, timeout_ms: Option<u64>) -> bool {
    match timeout_ms {
        Some(t) => elapsed_ms > t,
        None => false,
    }
}

/// Whether a session that has run `elapsed_ms` has run past its timeout.
pub fn is_timed_out(elapsed_ms: u64, timeout_ms: Option<u64>) -> (b: bool)
    ensures
        b == spec_timed_out(elapsed_ms, timeout_ms),
{
    match timeout_ms {
        Some(t) => elapsed_ms > t,
        None => false,
    }
}

/// The state of a session after a check: exited if the process exited
/// (with its exit code), else timed out, else waiting if a prompt shows,
/// else running.
pub open spec fn spec_next_state(exited: Option<Option<i32>>, timed_out: bool, waiting: bool) -> ProcessState {
    match exited {
        Some(code) => ProcessState::Completed { exit_code: code },
        None => if timed_out {
            ProcessState::TimedOut
        } else if waiting {
            ProcessState::WaitingForInput
        } else {
            ProcessState::Running
        },
    }
}

/// The state of a session after a check.
pub fn next_state(exited: Option<Option<i32>>, timed_out: bool, waiting: bool) -> (s: ProcessState)
    ensures
        s == spec_next_state(exited, timed_out, waiting),
{
    match exited {
        Some(code) => ProcessState::Completed { exit_code: code },
        None => if timed_out {
            ProcessState::TimedOut
        } else if waiting {
            ProcessState::WaitingForInput
        } else {
            ProcessState::Running
        },
    }
}

/// Whether `c` is an ASCII letter.
pub open spec fn is_ascii_letter(c: char) -> bool {
    ('a' <= c && c <= 'z') || ('A' <= c && c <= 'Z')
}

/// Whether `c` may stand between `ESC [` and the final letter of an ANSI
/// escape sequence.
pub open spec fn is_csi_param(c: char) -> bool {
    ('0' <= c && c <= '9') || c == ';'
}

/// The number of parameter characters that `s` begins with.
pub open spec fn param_len(s: Seq<char>) -> nat
    decreases s.len(),
{
    if s.len() == 0 || !is_csi_param(s[0]) {
        0
    } else {
        1 + param_len(s.drop_first())
    }
}

/// The length of the ANSI escape sequence `ESC [ [0-9;]* [a-zA-Z]` that
/// `s` begins with, if it begins with one.
pub open spec fn csi_len(s: Seq<char>) -> Option<nat> {
    if s.len() >= 2 && s[0] == '\x1b' && s[1] == '[' {
        let k = 2 + param_len(s.skip(2));
        if k < s.len() && is_ascii_letter(s[k as int]) {
            Some((k + 1) as nat)
        } else {
            None
        }
    } else {
        None
    }
}

/// A parameter run is no longer than the text it starts.
pub proof fn lemma_param_len_bound(s: Seq<char>)
    ensures
        param_len(s) <= s.len(),
    decreases s.len(),
{
    if s.len() > 0 {
        lemma_param_len_bound(s.drop_first());
    }
}

/// `s` with every ANSI escape sequence `ESC [ [0-9;]* [a-zA-Z]` removed,
/// scanning from the left.
pub open spec fn strip_ansi(s: Seq<char>) -> Seq<char>
    decreases s.len(),
{
    if s.len() == 0 {
        seq![]
    } else {
        match csi_len(s) {
            Some(k) => {
                proof {
                    lemma_param_len_bound(s.skip(2));
                }
                strip_ansi(s.skip(k as int))
            },
            None => seq![s[0]] + strip_ansi(s.drop_first()),
        }
    }
}

proof fn lemma_param_len_at(s: Seq<char>, k: int)
    requires
        0 <= k <= s.len(),
        forall|j: int| 0 <= j < k ==> is_csi_param(s[j]),
        k == s.len() || !is_csi_param(s[k]),
    ensures
        param_len(s) == k,
    decreases k,
{
    if k > 0 {
        lemma_param_len_at(s.drop_first(), k - 1);
    }
}

/// The length of the escape sequence starting at `i` of `cs`, if one does.
fn csi_at(cs: &Vec<char>, i: usize) -> (r: Option<usize>)
    requires
        i < cs@.len(),
    ensures
        match csi_len(cs@.skip(i as int)) {
            Some(k) => r == Some(k as usize),
            None => r is None,
        },
{
    let n = cs.len();
    if !(i + 1 < n && cs[i] == '\x1b' && cs[i + 1] == '[') {
        return None;
    }
    let mut j = i + 2;
    while j < n && (('0' <= cs[j] && cs[j] <= '9') || cs[j] == ';')
        invariant
            n == cs@.len(),
            i + 2 <= j <= n,
            forall|m: int| i + 2 <= m < j ==> is_csi_param(cs@[m]),
        decreases n - j,
    {
        j = j + 1;
    }
    proof {
        let t = cs@.skip(i as int);
        assert(t.skip(2) =~= cs@.skip(i + 2));
        lemma_param_len_at(t.skip(2), (j - i - 2) as int);
    }
    if j < n && (('a' <= cs[j] && cs[j] <= 'z') || ('A' <= cs[j] && cs[j] <= 'Z')) {
        Some(j + 1 - i)
    } else {
        None
    }
}

/// Strip ANSI escape codes from a string for cleaner pattern matching.
pub fn strip_ansi_codes(s: &str) -> (r: String)
    ensures
        r@ == strip_ansi(s@),
{
    let cs = crate::text::chars_of(s);
    let n = cs.len();
    let mut r = String::new();
    let mut i: usize = 0;
    assert(cs@.skip(0) =~= cs@);
    proof {
        reveal_strlit("");
    }
    while i < n
        invariant
            cs@ == s@,
            n == cs@.len(),
            i <= n,
            strip_ansi(s@) == r@ + strip_ansi(cs@.skip(i as int)),
        decreases n - i,
    {
        let ghost t = cs@.skip(i as int);
        match csi_at(&cs, i) {
            Some(k) => {
                proof {
                    lemma_param_len_bound(t.skip(2));
                    assert(t.skip(k as int) =~= cs@.skip(i + k));
                }
                i = i + k;
            },
            None => {
                proof {
                    assert(t[0] == cs@[i as int]);
                    assert(t.drop_first() =~= cs@.skip(i + 1));
                }
                let ghost before = r@;
                push_char(&mut r, cs[i]);
                assert(r@ + strip_ansi(cs@.skip(i + 1)) =~= before + (seq![t[0]] + strip_ansi(t.drop_first())));
                i = i + 1;
            },
        }
    }
    assert(cs@.skip(n as int) =~= Seq::<char>::empty());
    assert(r@ + strip_ansi(cs@.skip(n as int)) =~= r@);
    r
}

/// The expression that recognises a prompt waiting for input: shell,
/// REPL and database prompts, and questions, at the end of a line.
pub const PROMPT_PATTERN: &'static str = "(?:>>>\\s*$|>\\s*$|\\$\\s*$|#\\s*$|%\\s*$|:\\s*$|\\?\\s*$|password:\\s*$|Password:\\s*$|\\(yes/no\\)\\s*$|\\[Y/n\\]\\s*$|\\[y/N\\]\\s*$|irb.*>\\s*$|pry.*>\\s*$|iex.*>\\s*$|scala>\\s*$|ghci>\\s*$|sqlite>\\s*$|mysql>\\s*$|postgres.*>\\s*$|redis.*>\\s*$)";

/// The compiled prompt expression.
pub fn prompt_pattern() -> (r: Result<LinePattern, String>)
    ensures
        r is Ok <==> regex_compiles(PROMPT_PATTERN@),
        r matches Ok(p) ==> p.source() == PROMPT_PATTERN@,
{
    LinePattern::new(PROMPT_PATTERN)
}

/// Whether the last line of a session's output, its escape codes
/// removed, looks like a prompt waiting for input.
pub fn waiting_for_input(buffer: &Vec<String>, prompt: &LinePattern) -> (b: bool)
    ensures
        b == (buffer@.len() > 0 && regex_finds(prompt.source(), strip_ansi(buffer@.last()@))),
{
    if buffer.len() == 0 {
        return false;
    }
    let last = &buffer[buffer.len() - 1];
    let clean = strip_ansi_codes(last.as_str());
    prompt.is_match(clean.as_str())
}

/// The number of 50 ms polls made while waiting for a response, the wait
/// being capped at ten seconds.
pub fn max_polls(response_timeout_ms: u64) -> (n: u64)
    ensures
        n == (if response_timeout_ms < 10000 {
            response_timeout_ms
        } else {
            10000
        }) / 50,
{
    let t = if response_timeout_ms < 10000 {
        response_timeout_ms
    } else {
        10000
    };
    t / 50
}

/// Why waiting for a response ends at a state, if it does: a prompt, an
/// exit, or a timeout of the process.
pub open spec fn spec_exit_reason(s: ProcessState) -> Option<Seq<char>> {
    match s {
        ProcessState::WaitingForInput => Some("prompt_detected"@),
        ProcessState::Completed { .. } => Some("process_exited"@),
        ProcessState::TimedOut => Some("process_timeout"@),
        ProcessState::Running => None,
    }
}

/// Why waiting for a response ends at a state, if it does.
pub fn exit_reason(s: &ProcessState) -> (r: Option<&'static str>)
    ensures
        match spec_exit_reason(*s) {
            Some(m) => r matches Some(x) && x@ == m,
            None => r is None,
        },
{
    match s {
        ProcessState::WaitingForInput => Some("prompt_detected"),
        ProcessState::Completed { .. } => Some("process_exited"),
        ProcessState::TimedOut => Some("process_timeout"),
        ProcessState::Running => None,
    }
}

/// A session's state after a check: an exited process is completed with
/// its exit code whatever else holds; otherwise a session past its
/// timeout is timed out; otherwise it waits for input exactly when a
/// prompt shows, and runs when none does. A session without a timeout
/// never times out, and one with a timeout times out exactly once its
/// elapsed time exceeds it, and stays so as time goes on.
pub proof fn law_session_state(
    exited: Option<Option<i32>>,
    timed_out: bool,
    waiting: bool,
    elapsed_ms: u64,
    later_ms: u64,
    timeout_ms: Option<u64>,
)
    ensures
        exited matches Some(code) ==> spec_next_state(exited, timed_out, waiting) == (ProcessState::Completed {
            exit_code: code,
        }),
        exited is None && timed_out ==> spec_next_state(exited, timed_out, waiting) == ProcessState::TimedOut,
        exited is None && !timed_out ==> (spec_next_state(exited, timed_out, waiting) == ProcessState::WaitingForInput
            <==> waiting),
        exited is None && !timed_out && !waiting ==> spec_next_state(exited, timed_out, waiting)
            == ProcessState::Running,
        timeout_ms is None ==> !spec_timed_out(elapsed_ms, timeout_ms),
        timeout_ms matches Some(t) ==> (spec_timed_out(elapsed_ms, timeout_ms) <==> elapsed_ms > t),
        spec_timed_out(elapsed_ms, timeout_ms) && elapsed_ms <= later_ms ==> spec_timed_out(later_ms, timeout_ms),
{
}

/// Removing escape sequences only takes characters away, and leaves a
/// text that holds no escape character as it is.
pub proof fn law_strip_ansi(s: Seq<char>)
    ensures
        strip_ansi(s).len() <= s.len(),
        (forall|i: int| 0 <= i < s.len() ==> s[i] != '\x1b') ==> strip_ansi(s) == s,
    decreases s.len(),
{
    if s.len() > 0 {
        lemma_param_len_bound(s.skip(2));
        match csi_len(s) {
            Some(k) => {
                law_strip_ansi(s.skip(k as int));
                if forall|i: int| 0 <= i < s.len() ==> s[i] != '\x1b' {
                    assert(s[0] != '\x1b');
                }
            },
            None => {
                law_strip_ansi(s.drop_first());
                if forall|i: int| 0 <= i < s.len() ==> s[i] != '\x1b' {
                    assert forall|i: int| 0 <= i < s.drop_first().len() implies s.drop_first()[i] != '\x1b' by {
                        assert(s.drop_first()[i] == s[i + 1]);
                    }
                    assert(seq![s[0]] + s.drop_first() =~= s);
                }
            },
        }
    }
}

} // verus!
