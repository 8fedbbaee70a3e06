//! Reading several files at once: the outcome of each read, the report
//! of all of them, and its renderings.

use vstd::prelude::*;
use vstd::string::*;
use vstd::utf8::*;
use crate::text::{
    decimal, find_char, find_str, has_prefix, index_of_char, index_of_sub, join_spec, lemma_index_of_char,
    lemma_index_of_sub, lines, parse_i32, parse_i32_spec, push_decimal, push_repeat, repeat_spec, split_lines,
    split_words, starts_with, trim_start_matches, trim_start_matches_spec, views, words,
};
use crate::text::{all_digits, is_digit, is_ws, lemma_decimal_value, lemma_index_of_char_at, lemma_index_of_sub_at, lemma_words_cons, lemma_words_ws};
use crate::tools::filesystem::{FileReadResult, ReadMultipleFilesTool};
use crate::tools::header::{lemma_lines_cons, single_line};
use crate::tools::process::lemma_single_line_concat;
use crate::tools::render::push_joined_strs;

verus! {

/// The most files read at once.
pub const MAX_CONCURRENCY: usize = 50;

/// The number of files read at once: what was asked, at most 50.
pub fn capped_concurrency(requested: usize) -> (n: usize)
    ensures
        n == (if requested < MAX_CONCURRENCY { requested } else { MAX_CONCURRENCY }),
{
    if requested < MAX_CONCURRENCY {
        requested
    } else {
        MAX_CONCURRENCY
    }
}

/// What came of trying to read one file.
#[derive(Debug)]
pub enum ReadOutcome {
    /// The file was read; its text.
    Read(String),
    /// The path was accepted but reading failed; the reason.
    Failed(String),
    /// The path was refused; the reason.
    Rejected(String),
}

/// The result recorded for a file: its text, or the reason it was not
/// read; a failed read is reported as `Failed to read file: ...`.
pub fn file_read_result(path: String, outcome: ReadOutcome) -> (r: FileReadResult)
    ensures
        r.path == path,
        match outcome {
            ReadOutcome::Read(c) => r.content == Some(c) && r.error is None,
            ReadOutcome::Failed(m) => r.content is None && (r.error matches Some(e) && e@ == "Failed to read file: "@
                + m@),
            ReadOutcome::Rejected(m) => r.content is None && r.error == Some(m),
        },
{
    match outcome {
        ReadOutcome::Read(c) => FileReadResult { path, content: Some(c), error: None },
        ReadOutcome::Failed(m) => {
            let mut e = "Failed to read file: ".to_string();
            e.append(m.as_str());
            FileReadResult { path, content: None, error: Some(e) }
        },
        ReadOutcome::Rejected(m) => FileReadResult { path, content: None, error: Some(m) },
    }
}

/// A result holds either a text or an error, not both.
pub open spec fn result_ok(r: FileReadResult) -> bool {
    (r.content is Some) != (r.error is Some)
}

/// The text shown of a file: all of it up to 200 characters, else its
/// first 200 characters and its length in bytes.
pub open spec fn preview_text(c: Seq<char>) -> Seq<char> {
    if c.len() > 200 {
        c.take(200) + "... ("@ + decimal(encode_utf8(c).len()) + " bytes total)"@
    } else {
        c
    }
}

/// The results that can be reported: each holds a text or an error.
pub open spec fn results_ok(rs: Seq<FileReadResult>) -> bool {
    forall|i: int| 0 <= i < rs.len() ==> #[trigger] result_ok(rs[i])
}

/// The entry of one result in the report.
pub open spec fn result_entry(r: FileReadResult) -> Seq<char> {
    match r.content {
        Some(c) => "✓ "@ + r.path@ + "\n"@ + preview_text(c@) + "\n\n"@,
        None => "✗ "@ + r.path@ + "\nError: "@ + match r.error {
            Some(e) => e@,
            None => seq![],
        } + "\n\n"@,
    }
}

/// The number of results that hold a text.
pub open spec fn successes(rs: Seq<FileReadResult>) -> nat
    decreases rs.len(),
{
    if rs.len() == 0 {
        0
    } else {
        successes(rs.drop_last()) + if rs.last().content is Some {
            1nat
        } else {
            0nat
        }
    }
}

/// A file's text is shown whole up to 200 characters; a longer one is
/// shown by its first 200 characters, then its size in bytes.
pub proof fn law_preview(c: Seq<char>)
    ensures
        c.len() <= 200 ==> preview_text(c) == c,
        c.len() > 200 ==> {
            &&& preview_text(c).take(200) == c.take(200)
            &&& preview_text(c).skip(200) == "... ("@ + decimal(encode_utf8(c).len()) + " bytes total)"@
        },
{
    if c.len() > 200 {
        let t = "... ("@ + decimal(encode_utf8(c).len()) + " bytes total)"@;
        assert((c.take(200) + t).take(200) =~= c.take(200));
        assert((c.take(200) + t).skip(200) =~= t);
    }
}

/// The count of successes is the number of results that hold a text,
/// never more than the number of results.
pub proof fn law_successes_counted(rs: Seq<FileReadResult>)
    ensures
        successes(rs) == rs.filter(|r: FileReadResult| r.content is Some).len(),
        successes(rs) <= rs.len(),
    decreases rs.len(),
{
    reveal(Seq::filter);
    if rs.len() > 0 {
        law_successes_counted(rs.drop_last());
    }
}

/// The entries of the results, in order.
pub open spec fn result_entries(rs: Seq<FileReadResult>) -> Seq<char>
    decreases rs.len(),
{
    if rs.len() == 0 {
        seq![]
    } else {
        result_entries(rs.drop_last()) + result_entry(rs.last())
    }
}

/// The report of reading several files: the counts, then one entry per
/// file.
pub open spec fn read_report_text(rs: Seq<FileReadResult>) -> Seq<char> {
    "Read "@ + decimal(rs.len()) + " files ("@ + decimal(successes(rs)) + " successful, "@ + decimal(
        (rs.len() - successes(rs)) as nat,
    ) + " failed):\n\n"@ + result_entries(rs)
}

proof fn lemma_successes_bound(rs: Seq<FileReadResult>)
    ensures
        successes(rs) <= rs.len(),
    decreases rs.len(),
{
    if rs.len() > 0 {
        lemma_successes_bound(rs.drop_last());
    }
}

fn push_preview(out: &mut String, c: &str)
    ensures
        final(out)@ == old(out)@ + preview_text(c@),
{
    let chars = c.unicode_len();
    if chars > 200 {
        let head = c.substring_char(0, 200);
        let n = c.as_bytes().len();
        assert(head@ =~= c@.take(200));
        out.append(head);
        out.append("... (");
        push_decimal(out, n as u64);
        out.append(" bytes total)");
        assert(out@ =~= old(out)@ + preview_text(c@));
    } else {
        out.append(c);
    }
}

/// The report of reading several files.
pub fn read_results_report(results: &Vec<FileReadResult>) -> (r: String)
    requires
        results_ok(results@),
    ensures
        r@ == read_report_text(results@),
{
    let ghost rs = results@;
    let mut ok: usize = 0;
    let mut i: usize = 0;
    while i < results.len()
        invariant
            rs == results@,
            i <= rs.len(),
            ok == successes(rs.take(i as int)),
            ok <= i,
        decreases rs.len() - i,
    {
        proof {
            assert(rs.take(i + 1).drop_last() =~= rs.take(i as int));
        }
        if results[i].content.is_some() {
            ok = ok + 1;
        }
        i = i + 1;
    }
    assert(rs.take(rs.len() as int) =~= rs);
    let total = results.len();
    let mut out = "Read ".to_string();
    push_decimal(&mut out, total as u64);
    out.append(" files (");
    push_decimal(&mut out, ok as u64);
    out.append(" successful, ");
    push_decimal(&mut out, (total - ok) as u64);
    out.append(" failed):\n\n");
    let ghost head = out@;
    let mut j: usize = 0;
    assert(rs.take(0) =~= Seq::<FileReadResult>::empty());
    assert(out@ =~= head + result_entries(rs.take(0)));
    while j < results.len()
        invariant
            rs == results@,
            results_ok(rs),
            j <= rs.len(),
            out@ == head + result_entries(rs.take(j as int)),
        decreases rs.len() - j,
    {
        let ghost prev = out@;
        let r = &results[j];
        proof {
            assert(result_ok(rs[j as int]));
            assert(rs.take(j + 1).drop_last() =~= rs.take(j as int));
            assert(rs.take(j + 1).last() == *r);
        }
        match &r.content {
            Some(c) => {
                out.append("✓ ");
                out.append(r.path.as_str());
                out.append("\n");
                push_preview(&mut out, c.as_str());
                out.append("\n\n");
            },
            None => {
                out.append("✗ ");
                out.append(r.path.as_str());
                out.append("\nError: ");
                match &r.error {
                    Some(e) => out.append(e.as_str()),
                    None => {},
                }
                out.append("\n\n");
            },
        }
        proof {
            reveal_strlit("");
        }
        assert(out@ =~= prev + result_entry(*r));
        j = j + 1;
    }
    assert(rs.take(rs.len() as int) =~= rs);
    out
}

/// A number in a report, read as `i32::from_str` reads it; 0 when it is
/// not one.
pub open spec fn number_or_zero(s: Seq<char>) -> int {
    match parse_i32_spec(s) {
        Some(v) => v as int,
        None => 0,
    }
}

/// The counts of successful and failed reads in a report's first line:
/// the first word from its `(` on, and the last word before `failed`.
pub open spec fn read_counts(header: Seq<char>) -> (int, int) {
    match index_of_char(header, '(') {
        Some(p) => {
            let stats = header.skip(p);
            let success = if words(stats).len() > 0 {
                number_or_zero(trim_start_matches_spec(words(stats)[0], "("@))
            } else {
                0
            };
            let failed = match index_of_sub(stats, "failed"@) {
                Some(f) => if words(stats.take(f)).len() > 0 {
                    number_or_zero(words(stats.take(f)).last())
                } else {
                    0
                },
                None => 0,
            };
            (success, failed)
        },
        None => (0, 0),
    }
}

fn number_or_zero_of(s: &str) -> (v: i32)
    ensures
        v as int == number_or_zero(s@),
{
    match parse_i32(s) {
        Some(v) => v,
        None => 0,
    }
}

fn read_counts_of(header: &str) -> (r: (i32, i32))
    ensures
        (r.0 as int, r.1 as int) == read_counts(header@),
{
    proof {
        lemma_index_of_char(header@, '(');
    }
    match find_char(header, '(') {
        Some(p) => {
            let n = header.unicode_len();
            let stats = header.substring_char(p, n);
            assert(stats@ =~= header@.skip(p as int));
            let ws = split_words(stats);
            let success = if ws.len() > 0 {
                proof {
                    assert(views(ws@)[0] == ws@[0]@);
                }
                number_or_zero_of(trim_start_matches(ws[0], "("))
            } else {
                0
            };
            proof {
                lemma_index_of_sub(stats@, "failed"@);
            }
            let failed = match find_str(stats, "failed") {
                Some(f) => {
                    let before = stats.substring_char(0, f);
                    assert(before@ =~= stats@.take(f as int));
                    let bw = split_words(before);
                    if bw.len() > 0 {
                        proof {
                            assert(views(bw@).last() == bw@[bw@.len() - 1]@);
                        }
                        number_or_zero_of(bw[bw.len() - 1])
                    } else {
                        0
                    }
                },
                None => 0,
            };
            (success, failed)
        },
        None => (0, 0),
    }
}

/// The rule above and below the heading of a report.
pub open spec fn read_rule() -> Seq<char> {
    repeat_spec("─"@, 50)
}

/// The rendering of one line of a report after its first: a file, an
/// error, a line of content, or nothing for a blank line; the state says
/// whether a file has been shown yet.
pub open spec fn files_step(ansi: bool, st: (Seq<char>, bool), line: Seq<char>) -> (Seq<char>, bool) {
    let sep = if st.1 {
        "\n"@
    } else {
        seq![]
    };
    if has_prefix(line, "✓ "@) {
        (st.0 + sep + if ansi {
            "\x1b[32m●\x1b[0m \x1b[36m"@ + line.skip(2) + "\x1b[0m\n"@
        } else {
            "[OK] "@ + line.skip(2) + "\n"@
        }, true)
    } else if has_prefix(line, "✗ "@) {
        (st.0 + sep + if ansi {
            "\x1b[31m●\x1b[0m \x1b[36m"@ + line.skip(2) + "\x1b[0m\n"@
        } else {
            "[ERR] "@ + line.skip(2) + "\n"@
        }, true)
    } else if has_prefix(line, "Error:"@) {
        (st.0 + if ansi {
            "  \x1b[31m"@ + line + "\x1b[0m\n"@
        } else {
            "      "@ + line + "\n"@
        }, st.1)
    } else if line.len() > 0 {
        (st.0 + if ansi {
            "  \x1b[2m│\x1b[0m "@ + line + "\n"@
        } else {
            "      │ "@ + line + "\n"@
        }, st.1)
    } else {
        st
    }
}

/// The rendering of the lines of a report after its first, in order.
pub open spec fn files_fold(ansi: bool, ls: Seq<Seq<char>>) -> (Seq<char>, bool)
    decreases ls.len(),
{
    if ls.len() == 0 {
        (seq![], false)
    } else {
        files_step(ansi, files_fold(ansi, ls.drop_last()), ls.last())
    }
}

/// The plain heading of a report: its first line between rules, when it
/// is the count line.
pub open spec fn files_plain_heading(header: Seq<char>) -> Seq<char> {
    if has_prefix(header, "Read "@) {
        read_rule() + "\n  "@ + header + "\n"@ + read_rule() + "\n"@
    } else {
        seq![]
    }
}

/// The ANSI heading of a report: the counts of successes and failures
/// that are above zero.
pub open spec fn files_ansi_heading(header: Seq<char>) -> Seq<char> {
    if has_prefix(header, "Read "@) {
        let (s, f) = read_counts(header);
        "\x1b[2m"@ + read_rule() + "\x1b[0m\n  \x1b[1mFiles Read\x1b[0m  "@ + (if s > 0 {
            "\x1b[32m● "@ + decimal(s as nat) + " ok\x1b[0m  "@
        } else {
            seq![]
        }) + (if f > 0 {
            "\x1b[31m● "@ + decimal(f as nat) + " failed\x1b[0m"@
        } else {
            seq![]
        }) + "\n\x1b[2m"@ + read_rule() + "\x1b[0m\n"@
    } else {
        seq![]
    }
}

/// The plain or ANSI rendering of a report; an empty report is returned
/// as it is.
pub open spec fn files_rendering(ansi: bool, output: Seq<char>) -> Seq<char> {
    let ls = lines(output);
    if ls.len() == 0 {
        output
    } else {
        (if ansi {
            files_ansi_heading(ls[0])
        } else {
            files_plain_heading(ls[0])
        }) + files_fold(ansi, ls.skip(1)).0
    }
}

/// A Markdown code block of lines.
pub open spec fn code_block(ls: Seq<Seq<char>>) -> Seq<char> {
    "```\n"@ + join_spec(ls, "\n"@) + "\n```\n"@
}

/// The Markdown rendering of one line of a report after its first; the
/// state holds the text so far, whether a file has been shown, and the
/// content lines not yet shown.
pub open spec fn md_step(st: (Seq<char>, bool, Seq<Seq<char>>), line: Seq<char>) -> (Seq<char>, bool, Seq<Seq<char>>) {
    if has_prefix(line, "✓ "@) || has_prefix(line, "✗ "@) {
        let mark = if has_prefix(line, "✓ "@) {
            "✅"@
        } else {
            "❌"@
        };
        let (flushed, rest) = if st.1 {
            if st.2.len() > 0 {
                (code_block(st.2) + "\n"@, Seq::<Seq<char>>::empty())
            } else {
                ("\n"@, st.2)
            }
        } else {
            (Seq::<char>::empty(), st.2)
        };
        (st.0 + flushed + mark + " `"@ + line.skip(2) + "`\n"@, true, rest)
    } else if has_prefix(line, "Error:"@) {
        (st.0 + "> ⚠️ "@ + line + "\n"@, st.1, st.2)
    } else if line.len() > 0 {
        (st.0, st.1, st.2.push(line))
    } else {
        st
    }
}

/// The Markdown rendering of the lines of a report after its first.
pub open spec fn md_fold(ls: Seq<Seq<char>>) -> (Seq<char>, bool, Seq<Seq<char>>)
    decreases ls.len(),
{
    if ls.len() == 0 {
        (seq![], false, seq![])
    } else {
        md_step(md_fold(ls.drop_last()), ls.last())
    }
}

/// The Markdown rendering of a report: its count line as a heading, a
/// line per file, errors as quotes, and the content of each file as a
/// code block.
pub open spec fn files_markdown(output: Seq<char>) -> Seq<char> {
    let ls = lines(output);
    if ls.len() == 0 {
        output
    } else {
        let st = md_fold(ls.skip(1));
        (if has_prefix(ls[0], "Read "@) {
            "### "@ + ls[0] + "\n\n"@
        } else {
            seq![]
        }) + st.0 + if st.1 && st.2.len() > 0 {
            code_block(st.2)
        } else {
            seq![]
        }
    }
}

fn push_files_line(out: &mut String, ansi: bool, in_file: bool, line: &str) -> (r: bool)
    ensures
        (final(out)@, r) == files_step(ansi, (old(out)@, in_file), line@),
{
    let ghost start = out@;
    if starts_with(line, "✓ ") || starts_with(line, "✗ ") {
        let ok = starts_with(line, "✓ ");
        if in_file {
            out.append("\n");
        }
        let n = line.unicode_len();
        proof {
            reveal_strlit("✓ ");
            reveal_strlit("✗ ");
        }
        let path = line.substring_char(2, n);
        assert(path@ =~= line@.skip(2));
        if ansi {
            if ok {
                out.append("\x1b[32m●\x1b[0m \x1b[36m");
            } else {
                out.append("\x1b[31m●\x1b[0m \x1b[36m");
            }
            out.append(path);
            out.append("\x1b[0m\n");
        } else {
            if ok {
                out.append("[OK] ");
            } else {
                out.append("[ERR] ");
            }
            out.append(path);
            out.append("\n");
        }
        proof {
            reveal_strlit("✓ ");
            reveal_strlit("✗ ");
            if !ok {
                assert(!has_prefix(line@, "✓ "@));
            }
        }
        assert(out@ =~= files_step(ansi, (start, in_file), line@).0);
        true
    } else if starts_with(line, "Error:") {
        if ansi {
            out.append("  \x1b[31m");
            out.append(line);
            out.append("\x1b[0m\n");
        } else {
            out.append("      ");
            out.append(line);
            out.append("\n");
        }
        assert(out@ =~= files_step(ansi, (start, in_file), line@).0);
        in_file
    } else if line.unicode_len() > 0 {
        if ansi {
            out.append("  \x1b[2m│\x1b[0m ");
        } else {
            out.append("      │ ");
        }
        out.append(line);
        out.append("\n");
        assert(out@ =~= files_step(ansi, (start, in_file), line@).0);
        in_file
    } else {
        in_file
    }
}

fn render_files(output: &str, ansi: bool) -> (r: String)
    ensures
        r@ == files_rendering(ansi, output@),
{
    let ls = split_lines(output);
    let ghost lv = views(ls@);
    if ls.len() == 0 {
        return output.to_string();
    }
    let header = ls[0];
    let mut out = String::new();
    if starts_with(header, "Read ") {
        if ansi {
            let (success, failed) = read_counts_of(header);
            out.append("\x1b[2m");
            push_repeat(&mut out, "─", 50);
            out.append("\x1b[0m\n  \x1b[1mFiles Read\x1b[0m  ");
            if success > 0 {
                out.append("\x1b[32m● ");
                push_decimal(&mut out, success as u64);
                out.append(" ok\x1b[0m  ");
            }
            if failed > 0 {
                out.append("\x1b[31m● ");
                push_decimal(&mut out, failed as u64);
                out.append(" failed\x1b[0m");
            }
            out.append("\n\x1b[2m");
            push_repeat(&mut out, "─", 50);
            out.append("\x1b[0m\n");
        } else {
            push_repeat(&mut out, "─", 50);
            out.append("\n  ");
            out.append(header);
            out.append("\n");
            push_repeat(&mut out, "─", 50);
            out.append("\n");
        }
    }
    proof {
        reveal_strlit("");
    }
    let ghost head = out@;
    assert(head =~= if ansi {
        files_ansi_heading(lv[0])
    } else {
        files_plain_heading(lv[0])
    });
    let ghost body = lv.skip(1);
    let mut in_file = false;
    let mut i: usize = 1;
    assert(body.take(0) =~= Seq::<Seq<char>>::empty());
    assert(out@ =~= head + files_fold(ansi, body.take(0)).0);
    while i < ls.len()
        invariant
            lv == views(ls@),
            body == lv.skip(1),
            1 <= i <= ls@.len(),
            (out@, in_file) == (head + files_fold(ansi, body.take(i - 1)).0, files_fold(ansi, body.take(i - 1)).1),
        decreases ls@.len() - i,
    {
        let ghost prev = files_fold(ansi, body.take(i - 1));
        let line = ls[i];
        proof {
            assert(body.take(i as int).drop_last() =~= body.take(i - 1));
            assert(body.take(i as int).last() == line@);
        }
        let mut piece = String::new();
        in_file = push_files_line(&mut piece, ansi, in_file, line);
        out.append(piece.as_str());
        proof {
            let stepped = files_step(ansi, (seq![], prev.1), line@);
            let full = files_step(ansi, prev, line@);
            assert(piece@ == stepped.0);
            assert(full.0 =~= prev.0 + stepped.0);
            assert(full.1 == stepped.1);
            assert(out@ =~= head + full.0);
        }
        i = i + 1;
    }
    assert(body.take(ls@.len() - 1) =~= body);
    out
}

fn push_code_block(out: &mut String, ls: &Vec<&str>)
    ensures
        final(out)@ == old(out)@ + code_block(views(ls@)),
{
    out.append("```\n");
    push_joined_strs(out, ls, "\n");
    out.append("\n```\n");
    assert(out@ =~= old(out)@ + code_block(views(ls@)));
}

fn push_md_line<'a>(out: &mut String, has_file: bool, content: Vec<&'a str>, line: &'a str) -> (r: (bool, Vec<&'a str>))
    ensures
        (final(out)@, r.0, views(r.1@)) == md_step((old(out)@, has_file, views(content@)), line@),
{
    let ghost start = out@;
    let ghost c0 = views(content@);
    let mut content = content;
    if starts_with(line, "✓ ") || starts_with(line, "✗ ") {
        let ok = starts_with(line, "✓ ");
        if has_file {
            if content.len() > 0 {
                push_code_block(out, &content);
                out.append("\n");
                content = Vec::new();
                assert(views(content@) =~= Seq::<Seq<char>>::empty());
            } else {
                out.append("\n");
            }
        }
        if ok {
            out.append("✅");
        } else {
            out.append("❌");
        }
        out.append(" `");
        let n = line.unicode_len();
        proof {
            reveal_strlit("✓ ");
            reveal_strlit("✗ ");
        }
        let path = line.substring_char(2, n);
        assert(path@ =~= line@.skip(2));
        out.append(path);
        out.append("`\n");
        proof {
            if !ok {
                assert(!has_prefix(line@, "✓ "@));
            }
        }
        assert(out@ =~= md_step((start, has_file, c0), line@).0) by {
            reveal_strlit("");
        }
        (true, content)
    } else if starts_with(line, "Error:") {
        out.append("> ⚠️ ");
        out.append(line);
        out.append("\n");
        assert(out@ =~= md_step((start, has_file, views(content@)), line@).0);
        (has_file, content)
    } else if line.unicode_len() > 0 {
        let ghost before = views(content@);
        content.push(line);
        assert(views(content@) =~= before.push(line@));
        (has_file, content)
    } else {
        (has_file, content)
    }
}

fn render_files_markdown(output: &str) -> (r: String)
    ensures
        r@ == files_markdown(output@),
{
    let ls = split_lines(output);
    let ghost lv = views(ls@);
    if ls.len() == 0 {
        return output.to_string();
    }
    let header = ls[0];
    let mut out = String::new();
    if starts_with(header, "Read ") {
        out.append("### ");
        out.append(header);
        out.append("\n\n");
    }
    proof {
        reveal_strlit("");
    }
    let ghost head = out@;
    let ghost body = lv.skip(1);
    let mut has_file = false;
    let mut content: Vec<&str> = Vec::new();
    let mut i: usize = 1;
    assert(body.take(0) =~= Seq::<Seq<char>>::empty());
    assert(out@ =~= head + md_fold(body.take(0)).0);
    assert(views(content@) =~= md_fold(body.take(0)).2);
    while i < ls.len()
        invariant
            lv == views(ls@),
            body == lv.skip(1),
            1 <= i <= ls@.len(),
            out@ == head + md_fold(body.take(i - 1)).0,
            has_file == md_fold(body.take(i - 1)).1,
            views(content@) == md_fold(body.take(i - 1)).2,
        decreases ls@.len() - i,
    {
        let ghost prev = md_fold(body.take(i - 1));
        let line = ls[i];
        proof {
            assert(body.take(i as int).drop_last() =~= body.take(i - 1));
            assert(body.take(i as int).last() == line@);
        }
        let mut piece = String::new();
        let (h, c) = push_md_line(&mut piece, has_file, content, line);
        has_file = h;
        content = c;
        out.append(piece.as_str());
        proof {
            let stepped = md_step((seq![], prev.1, prev.2), line@);
            let full = md_step(prev, line@);
            assert(full.0 =~= prev.0 + stepped.0);
            assert(out@ =~= head + full.0);
        }
        i = i + 1;
    }
    assert(body.take(ls@.len() - 1) =~= body);
    if has_file && content.len() > 0 {
        push_code_block(&mut out, &content);
    }
    assert(out@ =~= files_markdown(output@));
    out
}

impl ReadMultipleFilesTool {
    /// A report of several reads as plain text.
    pub fn format_output_plain(&self, output: &str) -> (r: String)
        ensures
            r@ == files_rendering(false, output@),
    {
        render_files(output, false)
    }

    /// A report of several reads with ANSI colors and the counts.
    pub fn format_output_ansi(&self, output: &str) -> (r: String)
        ensures
            r@ == files_rendering(true, output@),
    {
        render_files(output, true)
    }

    /// A report of several reads as Markdown.
    pub fn format_output_markdown(&self, output: &str) -> (r: String)
        ensures
            r@ == files_markdown(output@),
    {
        render_files_markdown(output)
    }
}


/// The first line of a report of `n` reads, `s` of them successful and
/// `f` failed.
pub open spec fn read_header_line(n: nat, s: nat, f: nat) -> Seq<char> {
    "Read "@ + decimal(n) + " files ("@ + decimal(s) + " successful, "@ + decimal(f) + " failed):"@
}

proof fn lemma_digits_single(d: Seq<char>)
    requires
        all_digits(d),
    ensures
        single_line(d),
{
    assert forall|i: int| 0 <= i < d.len() implies d[i] != '\n' && d[i] != '\r' by {
        assert(is_digit(d[i]));
    }
}

/// The part of a header line from its `(` on, read: the counts it holds.
#[verifier::rlimit(60)]
proof fn lemma_counts_of_stats(s: nat, f: nat)
    requires
        s <= i32::MAX,
        f <= i32::MAX,
    ensures
        ({
            let stats = "("@ + decimal(s) + " successful, "@ + decimal(f) + " failed):"@;
            &&& words(stats).len() > 0
            &&& number_or_zero(trim_start_matches_spec(words(stats)[0], "("@)) == s
            &&& index_of_sub(stats, "failed"@) == Some(decimal(s).len() + decimal(f).len() + 15int)
            &&& words(stats.take(decimal(s).len() + decimal(f).len() + 15int)).len() > 0
            &&& number_or_zero(words(stats.take(decimal(s).len() + decimal(f).len() + 15int)).last()) == f
        }),
{
    reveal_strlit("(");
    reveal_strlit(" successful, ");
    reveal_strlit(" failed):");
    reveal_strlit("failed");
    reveal_strlit("successful,");
    reveal_strlit(" ");
    let sd = decimal(s);
    let fd = decimal(f);
    lemma_decimal_value(s);
    lemma_decimal_value(f);
    let stats = "("@ + sd + " successful, "@ + fd + " failed):"@;
    let w1 = "("@ + sd;
    let r1 = " successful, "@ + fd + " failed):"@;
    assert(stats =~= w1 + r1);
    assert forall|i: int| 0 <= i < w1.len() implies !is_ws(#[trigger] w1[i]) by {
        if i > 0 {
            assert(w1[i] == sd[i - 1]);
            assert(is_digit(sd[i - 1]));
        }
    }
    assert(r1[0] == ' ');
    lemma_words_cons(w1, r1);
    assert(words(stats)[0] == w1);
    assert(has_prefix(w1, "("@)) by {
        assert(w1.take(1) =~= "("@);
    }
    assert(w1.skip(1) =~= sd);
    assert(!has_prefix(sd, "("@)) by {
        if has_prefix(sd, "("@) {
            assert(sd.take(1)[0] == sd[0]);
            assert(is_digit(sd[0]));
        }
    }
    assert(trim_start_matches_spec(sd, "("@) == sd);
    assert(trim_start_matches_spec(w1, "("@) == sd);
    let q: int = sd.len() + fd.len() + 15int;
    let base: int = 1 + sd.len() + 13int;
    assert(stats.skip(q).take(6) =~= "failed"@);
    assert forall|j: int| 0 <= j < q implies !has_prefix(#[trigger] stats.skip(j), "failed"@) by {
        if has_prefix(stats.skip(j), "failed"@) {
            assert(stats.skip(j).take(6)[0] == stats[j]);
            assert(stats.skip(j).take(6)[1] == stats[j + 1]);
            assert(stats[j] == 'f');
            assert(stats[j + 1] == 'a');
            if 1 <= j < 1 + sd.len() {
                assert(stats[j] == sd[j - 1]);
                assert(is_digit(sd[j - 1]));
            } else if base <= j < base + fd.len() {
                assert(stats[j] == fd[j - base]);
                assert(is_digit(fd[j - base]));
            } else if 1 + sd.len() <= j < base {
                assert(stats[j] == " successful, "@[j - 1 - sd.len()]);
                assert(stats[j + 1] == " successful, "@[j - sd.len()]);
            }
        }
    }
    lemma_index_of_sub_at(stats, "failed"@, q);
    let before = stats.take(q);
    let mid = "successful,"@;
    assert(before =~= w1 + (seq![' '] + (mid + (seq![' '] + (fd + (seq![' '] + Seq::<char>::empty()))))));
    lemma_words_cons(w1, seq![' '] + (mid + (seq![' '] + (fd + (seq![' '] + Seq::<char>::empty())))));
    lemma_words_ws(' ', mid + (seq![' '] + (fd + (seq![' '] + Seq::<char>::empty()))));
    assert forall|i: int| 0 <= i < mid.len() implies !is_ws(#[trigger] mid[i]) by {}
    lemma_words_cons(mid, seq![' '] + (fd + (seq![' '] + Seq::<char>::empty())));
    lemma_words_ws(' ', fd + (seq![' '] + Seq::<char>::empty()));
    assert forall|i: int| 0 <= i < fd.len() implies !is_ws(#[trigger] fd[i]) by {
        assert(is_digit(fd[i]));
    }
    lemma_words_cons(fd, seq![' '] + Seq::<char>::empty());
    lemma_words_ws(' ', Seq::<char>::empty());
    assert(words(Seq::<char>::empty()) =~= Seq::<Seq<char>>::empty());
    assert(words(before) =~= seq![w1, mid, fd]);
}

/// The counts in the first line of a report of several reads are read back
/// as written: the number of successful reads and of failed ones.
#[verifier::rlimit(60)]
pub proof fn law_read_counts_read_back(rs: Seq<FileReadResult>)
    requires
        rs.len() <= i32::MAX,
    ensures
        lines(read_report_text(rs)).len() > 0,
        lines(read_report_text(rs))[0] == read_header_line(rs.len(), successes(rs), (rs.len() - successes(rs)) as nat),
        read_counts(lines(read_report_text(rs))[0]) == (successes(rs) as int, rs.len() - successes(rs)),
{
    reveal_strlit("Read ");
    reveal_strlit(" files (");
    reveal_strlit(" files ");
    reveal_strlit("(");
    reveal_strlit(" successful, ");
    reveal_strlit(" failed):");
    reveal_strlit(" failed):\n\n");
    reveal_strlit("\n");
    lemma_successes_bound(rs);
    let n = rs.len();
    let s = successes(rs);
    let f = (n - s) as nat;
    let nd = decimal(n);
    let sd = decimal(s);
    let fd = decimal(f);
    lemma_decimal_value(n);
    lemma_decimal_value(s);
    lemma_decimal_value(f);
    let h = read_header_line(n, s, f);
    let report = read_report_text(rs);
    assert(report =~= h + "\n"@ + ("\n"@ + result_entries(rs)));
    lemma_digits_single(nd);
    lemma_digits_single(sd);
    lemma_digits_single(fd);
    assert(single_line("Read "@));
    assert(single_line(" files ("@));
    assert(single_line(" successful, "@));
    assert(single_line(" failed):"@));
    lemma_single_line_concat("Read "@, nd);
    lemma_single_line_concat("Read "@ + nd, " files ("@);
    lemma_single_line_concat("Read "@ + nd + " files ("@, sd);
    lemma_single_line_concat("Read "@ + nd + " files ("@ + sd, " successful, "@);
    lemma_single_line_concat("Read "@ + nd + " files ("@ + sd + " successful, "@, fd);
    lemma_single_line_concat("Read "@ + nd + " files ("@ + sd + " successful, "@ + fd, " failed):"@);
    lemma_lines_cons(h, "\n"@ + result_entries(rs));
    let p0: int = nd.len() + 12int;
    let stats = "("@ + sd + " successful, "@ + fd + " failed):"@;
    assert(h =~= "Read "@ + nd + " files "@ + stats);
    assert(h[p0] == '(');
    assert forall|j: int| 0 <= j < p0 implies h[j] != '(' by {
        if 5 <= j < 5 + nd.len() {
            assert(h[j] == nd[j - 5]);
            assert(is_digit(nd[j - 5]));
        } else if j < 5 {
            assert(h[j] == "Read "@[j]);
        } else {
            assert(h[j] == " files "@[j - 5 - nd.len()]);
        }
    }
    lemma_index_of_char_at(h, '(', p0);
    assert(h.skip(p0) =~= stats);
    lemma_counts_of_stats(s, f);
}

} // verus!
