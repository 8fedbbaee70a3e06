//! The renderings of the process tools' reports: plain text, ANSI colors
//! and Markdown, each a function of what the report's parser reads.

use vstd::prelude::*;
use crate::text::{contains_str, index_of_sub, lines, push_repeat, repeat_spec};
use crate::tools::process::{
    interact_fold, output_fold, parse_interact_output, parse_process_output, parse_start_output, start_fold,
    InteractParse, InteractWithProcessTool, OutputParse, ReadProcessOutputTool, StartParse, StartProcessTool,
};
use crate::tools::render::{
    number_width, number_width_of, numbered, opt_text, push_numbered, push_opt, push_wrapped, wrapped,
};

verus! {

/// The rule drawn above and below a process heading.
pub open spec fn rule() -> Seq<char> {
    repeat_spec("─"@, 50)
}

/// Whether `s` contains `p`.
pub open spec fn has_text(s: Seq<char>, p: Seq<char>) -> bool {
    index_of_sub(s, p) is Some
}

/// The color of a state on the start report: green while running, blue
/// once completed, yellow otherwise.
pub open spec fn start_status_color(s: Seq<char>) -> Seq<char> {
    if has_text(s, "Running"@) {
        "\x1b[32m"@
    } else if has_text(s, "Completed"@) {
        "\x1b[34m"@
    } else {
        "\x1b[33m"@
    }
}

/// The icon and color of a state: green running, blue completed, yellow
/// waiting, dim otherwise or when no state was read.
pub open spec fn status_style(status: Option<Seq<char>>) -> (Seq<char>, Seq<char>) {
    match status {
        Some(s) => if has_text(s, "Running"@) {
            ("\x1b[32m●\x1b[0m"@, "\x1b[32m"@)
        } else if has_text(s, "Completed"@) {
            ("\x1b[34m●\x1b[0m"@, "\x1b[34m"@)
        } else if has_text(s, "Waiting"@) {
            ("\x1b[33m●\x1b[0m"@, "\x1b[33m"@)
        } else {
            ("\x1b[2m●\x1b[0m"@, "\x1b[2m"@)
        },
        None => ("\x1b[2m●\x1b[0m"@, "\x1b[2m"@),
    }
}

/// The emoji of a state, in the same order as its colors.
pub open spec fn status_emoji(status: Option<Seq<char>>) -> Seq<char> {
    match status {
        Some(s) => if has_text(s, "Running"@) {
            "🟢"@
        } else if has_text(s, "Completed"@) {
            "🔵"@
        } else if has_text(s, "Waiting"@) {
            "🟡"@
        } else {
            "⚪"@
        },
        None => "⚪"@,
    }
}

fn start_status_color_of(s: &str) -> (r: &'static str)
    ensures
        r@ == start_status_color(s@),
{
    if contains_str(s, "Running") {
        "\x1b[32m"
    } else if contains_str(s, "Completed") {
        "\x1b[34m"
    } else {
        "\x1b[33m"
    }
}

fn status_style_of(status: Option<&str>) -> (r: (&'static str, &'static str))
    ensures
        (r.0@, r.1@) == status_style(crate::tools::render::opt_view(status)),
{
    match status {
        Some(s) => if contains_str(s, "Running") {
            ("\x1b[32m●\x1b[0m", "\x1b[32m")
        } else if contains_str(s, "Completed") {
            ("\x1b[34m●\x1b[0m", "\x1b[34m")
        } else if contains_str(s, "Waiting") {
            ("\x1b[33m●\x1b[0m", "\x1b[33m")
        } else {
            ("\x1b[2m●\x1b[0m", "\x1b[2m")
        },
        None => ("\x1b[2m●\x1b[0m", "\x1b[2m"),
    }
}

fn status_emoji_of(status: Option<&str>) -> (r: &'static str)
    ensures
        r@ == status_emoji(crate::tools::render::opt_view(status)),
{
    match status {
        Some(s) => if contains_str(s, "Running") {
            "🟢"
        } else if contains_str(s, "Completed") {
            "🔵"
        } else if contains_str(s, "Waiting") {
            "🟡"
        } else {
            "⚪"
        },
        None => "⚪",
    }
}

/// The plain rendering of a start report.
pub open spec fn start_plain(p: StartParse) -> Seq<char> {
    rule() + "\n  PROCESS STARTED\n"@ + rule() + "\n"@ + opt_text(p.0, "  Command: "@, "\n"@) + opt_text(
        p.1,
        "  PID:     "@,
        "\n"@,
    ) + opt_text(p.2, "  Status:  "@, "\n"@) + if p.3.len() == 0 {
        seq![]
    } else {
        rule() + "\n"@ + wrapped(p.3, "  "@, "\n"@)
    }
}

/// The ANSI rendering of a start report.
pub open spec fn start_ansi(p: StartParse) -> Seq<char> {
    "\x1b[2m"@ + rule() + "\x1b[0m\n  \x1b[32m●\x1b[0m \x1b[1mProcess Started\x1b[0m\n\x1b[2m"@ + rule()
        + "\x1b[0m\n"@ + opt_text(p.0, "  \x1b[2mCommand\x1b[0m  \x1b[36m"@, "\x1b[0m\n"@) + opt_text(
        p.1,
        "  \x1b[2mPID\x1b[0m      \x1b[33m"@,
        "\x1b[0m\n"@,
    ) + match p.2 {
        Some(s) => "  \x1b[2mStatus\x1b[0m   "@ + start_status_color(s) + s + "\x1b[0m\n"@,
        None => seq![],
    } + if p.3.len() == 0 {
        seq![]
    } else {
        "\x1b[2m"@ + rule() + "\x1b[0m\n"@ + wrapped(p.3, "  \x1b[2m│\x1b[0m "@, "\n"@)
    }
}

/// The Markdown rendering of a start report.
pub open spec fn start_markdown(p: StartParse) -> Seq<char> {
    "### 🚀 Process Started\n\n"@ + opt_text(p.0, "- **Command**: `"@, "`\n"@) + opt_text(
        p.1,
        "- **PID**: `"@,
        "`\n"@,
    ) + opt_text(p.2, "- **Status**: "@, "\n"@) + if p.3.len() == 0 {
        seq![]
    } else {
        "\n**Initial Output:**\n```\n"@ + wrapped(p.3, seq![], "\n"@) + "```\n"@
    }
}

/// The plain rendering of an output report: a heading, then the lines
/// numbered from 1.
pub open spec fn output_plain(p: OutputParse) -> Seq<char> {
    rule() + "\n"@ + opt_text(p.0, "  Process "@, seq![]) + opt_text(p.1, " ["@, "]"@) + "\n"@ + rule() + "\n"@
        + if p.2.len() == 0 {
        "  (no output)\n"@
    } else {
        numbered(p.2, number_width(p.2.len()), "  "@, " │ "@, "\n"@)
    }
}

/// The ANSI rendering of an output report.
pub open spec fn output_ansi(p: OutputParse) -> Seq<char> {
    let style = status_style(p.1);
    "\x1b[2m"@ + rule() + "\x1b[0m\n"@ + "  "@ + style.0 + " "@ + opt_text(p.0, "\x1b[1mProcess "@, "\x1b[0m"@)
        + match p.1 {
        Some(s) => " "@ + style.1 + s + "\x1b[0m"@,
        None => seq![],
    } + "\n\x1b[2m"@ + rule() + "\x1b[0m\n"@ + if p.2.len() == 0 {
        "  \x1b[2m(no output)\x1b[0m\n"@
    } else {
        numbered(p.2, number_width(p.2.len()), "  \x1b[36m"@, "\x1b[0m \x1b[2m│\x1b[0m "@, "\n"@)
    }
}

/// The Markdown rendering of an output report.
pub open spec fn output_markdown(p: OutputParse) -> Seq<char> {
    opt_text(p.0, "### "@ + status_emoji(p.1) + " Process "@, seq![]) + opt_text(p.1, " - "@, seq![]) + "\n\n"@
        + if p.2.len() == 0 {
        "*No output*\n"@
    } else {
        "```\n"@ + wrapped(p.2, seq![], "\n"@) + "```\n"@
    }
}

/// The plain rendering of an interaction report.
pub open spec fn interact_plain(p: InteractParse) -> Seq<char> {
    rule() + "\n"@ + opt_text(p.0, "  Process "@, " "@) + opt_text(p.2, "["@, "]"@) + "\n"@ + rule() + "\n"@
        + opt_text(p.1, "  >>> "@, "\n"@) + if p.3.len() == 0 {
        seq![]
    } else {
        rule() + "\n"@ + wrapped(p.3, "  "@, "\n"@)
    }
}

/// The ANSI rendering of an interaction report.
pub open spec fn interact_ansi(p: InteractParse) -> Seq<char> {
    let style = status_style(p.2);
    "\x1b[2m"@ + rule() + "\x1b[0m\n"@ + "  "@ + style.0 + " "@ + opt_text(p.0, "\x1b[1mProcess "@, "\x1b[0m "@)
        + match p.2 {
        Some(s) => style.1 + s + "\x1b[0m"@,
        None => seq![],
    } + "\n\x1b[2m"@ + rule() + "\x1b[0m\n"@ + opt_text(p.1, "  \x1b[33m>>>\x1b[0m \x1b[36m"@, "\x1b[0m\n"@)
        + if p.3.len() == 0 {
        seq![]
    } else {
        "\x1b[2m"@ + rule() + "\x1b[0m\n"@ + wrapped(p.3, "  \x1b[2m│\x1b[0m "@, "\n"@)
    }
}

/// The Markdown rendering of an interaction report.
pub open spec fn interact_markdown(p: InteractParse) -> Seq<char> {
    opt_text(p.0, "### "@ + status_emoji(p.2) + " Process "@, seq![]) + opt_text(p.2, " - "@, seq![]) + "\n\n"@
        + opt_text(p.1, "**Input:** `"@, "`\n\n"@) + if p.3.len() == 0 {
        seq![]
    } else {
        "**Response:**\n```\n"@ + wrapped(p.3, seq![], "\n"@) + "```\n"@
    }
}

impl StartProcessTool {
    /// A start report as plain text.
    pub fn format_output_plain(&self, output: &str) -> (r: String)
        ensures
            r@ == start_plain(start_fold(lines(output@))),
    {
        let (command, pid, status, out_lines) = parse_start_output(output);
        let mut out = String::new();
        push_repeat(&mut out, "─", 50);
        out.append("\n  PROCESS STARTED\n");
        push_repeat(&mut out, "─", 50);
        out.append("\n");
        push_opt(&mut out, command, "  Command: ", "\n");
        push_opt(&mut out, pid, "  PID:     ", "\n");
        push_opt(&mut out, status, "  Status:  ", "\n");
        if out_lines.len() > 0 {
            push_repeat(&mut out, "─", 50);
            out.append("\n");
            push_wrapped(&mut out, &out_lines, "  ", "\n");
        }
        proof {
            reveal_strlit("");
            assert(""@ =~= Seq::<char>::empty());
        }
        assert(out@ =~= start_plain(start_fold(lines(output@))));
        out
    }

    /// A start report with ANSI colors.
    pub fn format_output_ansi(&self, output: &str) -> (r: String)
        ensures
            r@ == start_ansi(start_fold(lines(output@))),
    {
        let (command, pid, status, out_lines) = parse_start_output(output);
        let mut out = String::new();
        out.append("\x1b[2m");
        push_repeat(&mut out, "─", 50);
        out.append("\x1b[0m\n  \x1b[32m●\x1b[0m \x1b[1mProcess Started\x1b[0m\n\x1b[2m");
        push_repeat(&mut out, "─", 50);
        out.append("\x1b[0m\n");
        push_opt(&mut out, command, "  \x1b[2mCommand\x1b[0m  \x1b[36m", "\x1b[0m\n");
        push_opt(&mut out, pid, "  \x1b[2mPID\x1b[0m      \x1b[33m", "\x1b[0m\n");
        match status {
            Some(s) => {
                out.append("  \x1b[2mStatus\x1b[0m   ");
                out.append(start_status_color_of(s));
                out.append(s);
                out.append("\x1b[0m\n");
            },
            None => {},
        }
        if out_lines.len() > 0 {
            out.append("\x1b[2m");
            push_repeat(&mut out, "─", 50);
            out.append("\x1b[0m\n");
            push_wrapped(&mut out, &out_lines, "  \x1b[2m│\x1b[0m ", "\n");
        }
        proof {
            reveal_strlit("");
            assert(""@ =~= Seq::<char>::empty());
        }
        assert(out@ =~= start_ansi(start_fold(lines(output@))));
        out
    }

    /// A start report as Markdown.
    pub fn format_output_markdown(&self, output: &str) -> (r: String)
        ensures
            r@ == start_markdown(start_fold(lines(output@))),
    {
        let (command, pid, status, out_lines) = parse_start_output(output);
        let mut out = "### 🚀 Process Started\n\n".to_string();
        push_opt(&mut out, command, "- **Command**: `", "`\n");
        push_opt(&mut out, pid, "- **PID**: `", "`\n");
        push_opt(&mut out, status, "- **Status**: ", "\n");
        if out_lines.len() > 0 {
            out.append("\n**Initial Output:**\n```\n");
            push_wrapped(&mut out, &out_lines, "", "\n");
            out.append("```\n");
        }
        proof {
            reveal_strlit("");
            assert(""@ =~= Seq::<char>::empty());
        }
        assert(out@ =~= start_markdown(start_fold(lines(output@))));
        out
    }
}

impl ReadProcessOutputTool {
    /// An output report as plain text, its lines numbered.
    pub fn format_output_plain(&self, output: &str) -> (r: String)
        ensures
            r@ == output_plain(output_fold(lines(output@))),
    {
        let (pid, status, out_lines) = parse_process_output(output);
        let mut out = String::new();
        push_repeat(&mut out, "─", 50);
        out.append("\n");
        push_opt(&mut out, pid, "  Process ", "");
        push_opt(&mut out, status, " [", "]");
        out.append("\n");
        push_repeat(&mut out, "─", 50);
        out.append("\n");
        if out_lines.len() == 0 {
            out.append("  (no output)\n");
        } else {
            let width = number_width_of(out_lines.len());
            push_numbered(&mut out, &out_lines, width, "  ", " │ ", "\n");
        }
        proof {
            reveal_strlit("");
            assert(""@ =~= Seq::<char>::empty());
        }
        assert(out@ =~= output_plain(output_fold(lines(output@))));
        out
    }

    /// An output report with ANSI colors.
    pub fn format_output_ansi(&self, output: &str) -> (r: String)
        ensures
            r@ == output_ansi(output_fold(lines(output@))),
    {
        let (pid, status, out_lines) = parse_process_output(output);
        let (icon, color) = status_style_of(status);
        let mut out = String::new();
        out.append("\x1b[2m");
        push_repeat(&mut out, "─", 50);
        out.append("\x1b[0m\n");
        out.append("  ");
        out.append(icon);
        out.append(" ");
        push_opt(&mut out, pid, "\x1b[1mProcess ", "\x1b[0m");
        match status {
            Some(s) => {
                out.append(" ");
                out.append(color);
                out.append(s);
                out.append("\x1b[0m");
            },
            None => {},
        }
        out.append("\n\x1b[2m");
        push_repeat(&mut out, "─", 50);
        out.append("\x1b[0m\n");
        if out_lines.len() == 0 {
            out.append("  \x1b[2m(no output)\x1b[0m\n");
        } else {
            let width = number_width_of(out_lines.len());
            push_numbered(&mut out, &out_lines, width, "  \x1b[36m", "\x1b[0m \x1b[2m│\x1b[0m ", "\n");
        }
        proof {
            reveal_strlit("");
            assert(""@ =~= Seq::<char>::empty());
        }
        assert(out@ =~= output_ansi(output_fold(lines(output@))));
        out
    }

    /// An output report as Markdown.
    pub fn format_output_markdown(&self, output: &str) -> (r: String)
        ensures
            r@ == output_markdown(output_fold(lines(output@))),
    {
        let (pid, status, out_lines) = parse_process_output(output);
        let emoji = status_emoji_of(status);
        let mut out = String::new();
        match pid {
            Some(p) => {
                out.append("### ");
                out.append(emoji);
                out.append(" Process ");
                out.append(p);
            },
            None => {},
        }
        push_opt(&mut out, status, " - ", "");
        out.append("\n\n");
        if out_lines.len() == 0 {
            out.append("*No output*\n");
        } else {
            out.append("```\n");
            push_wrapped(&mut out, &out_lines, "", "\n");
            out.append("```\n");
        }
        proof {
            reveal_strlit("");
            assert(""@ =~= Seq::<char>::empty());
        }
        assert(out@ =~= output_markdown(output_fold(lines(output@))));
        out
    }
}

impl InteractWithProcessTool {
    /// An interaction report as plain text.
    pub fn format_output_plain(&self, output: &str) -> (r: String)
        ensures
            r@ == interact_plain(interact_fold(lines(output@))),
    {
        let (pid, input_sent, status, response) = parse_interact_output(output);
        let mut out = String::new();
        push_repeat(&mut out, "─", 50);
        out.append("\n");
        push_opt(&mut out, pid, "  Process ", " ");
        push_opt(&mut out, status, "[", "]");
        out.append("\n");
        push_repeat(&mut out, "─", 50);
        out.append("\n");
        push_opt(&mut out, input_sent, "  >>> ", "\n");
        if response.len() > 0 {
            push_repeat(&mut out, "─", 50);
            out.append("\n");
            push_wrapped(&mut out, &response, "  ", "\n");
        }
        proof {
            reveal_strlit("");
            assert(""@ =~= Seq::<char>::empty());
        }
        assert(out@ =~= interact_plain(interact_fold(lines(output@))));
        out
    }

    /// An interaction report with ANSI colors.
    pub fn format_output_ansi(&self, output: &str) -> (r: String)
        ensures
            r@ == interact_ansi(interact_fold(lines(output@))),
    {
        let (pid, input_sent, status, response) = parse_interact_output(output);
        let (icon, color) = status_style_of(status);
        let mut out = String::new();
        out.append("\x1b[2m");
        push_repeat(&mut out, "─", 50);
        out.append("\x1b[0m\n");
        out.append("  ");
        out.append(icon);
        out.append(" ");
        push_opt(&mut out, pid, "\x1b[1mProcess ", "\x1b[0m ");
        match status {
            Some(s) => {
                out.append(color);
                out.append(s);
                out.append("\x1b[0m");
            },
            None => {},
        }
        out.append("\n\x1b[2m");
        push_repeat(&mut out, "─", 50);
        out.append("\x1b[0m\n");
        push_opt(&mut out, input_sent, "  \x1b[33m>>>\x1b[0m \x1b[36m", "\x1b[0m\n");
        if response.len() > 0 {
            out.append("\x1b[2m");
            push_repeat(&mut out, "─", 50);
            out.append("\x1b[0m\n");
            push_wrapped(&mut out, &response, "  \x1b[2m│\x1b[0m ", "\n");
        }
        proof {
            reveal_strlit("");
            assert(""@ =~= Seq::<char>::empty());
        }
        assert(out@ =~= interact_ansi(interact_fold(lines(output@))));
        out
    }

    /// An interaction report as Markdown.
    pub fn format_output_markdown(&self, output: &str) -> (r: String)
        ensures
            r@ == interact_markdown(interact_fold(lines(output@))),
    {
        let (pid, input_sent, status, response) = parse_interact_output(output);
        let emoji = status_emoji_of(status);
        let mut out = String::new();
        match pid {
            Some(p) => {
                out.append("### ");
                out.append(emoji);
                out.append(" Process ");
                out.append(p);
            },
            None => {},
        }
        push_opt(&mut out, status, " - ", "");
        out.append("\n\n");
        push_opt(&mut out, input_sent, "**Input:** `", "`\n\n");
        if response.len() > 0 {
            out.append("**Response:**\n```\n");
            push_wrapped(&mut out, &response, "", "\n");
            out.append("```\n");
        }
        proof {
            reveal_strlit("");
            assert(""@ =~= Seq::<char>::empty());
        }
        assert(out@ =~= interact_markdown(interact_fold(lines(output@))));
        out
    }
}

} // verus!
