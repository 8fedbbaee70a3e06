//! The search tool: assembling the result text of a content or filename
//! search, and rendering it as plain text, with ANSI colors, or as Markdown.

use std::path::PathBuf;
use vstd::prelude::*;
use vstd::string::*;
use crate::text::{
    contains_char, contains_str, decimal, find_char, has_prefix, index_of_char, index_of_sub,
    join_spec, lemma_index_of_char, lines, push_decimal, push_joined, split_lines, starts_with,
    string_views, views,
};
use crate::text::{is_digit, lemma_decimal_value, lemma_index_of_sub};
use crate::tools::header::{lemma_lines_cons, single_line, str_equal};
use crate::tools::process::{lemma_lines_text, lines_text};
use crate::tools::paths::{path_of, working_dir};
use crate::tools::pattern::{
    escape, glob_compiles, glob_error_message, regex_compiles, regex_error_message, regex_escaped,
    regex_finds, LinePattern, NamePattern,
};

verus! {

/// How a tool result is rendered for display.
#[derive(Clone, Copy, Debug)]
pub enum OutputStyle {
    Plain,
    Ansi,
    Markdown,
}

/// The view of an optional string slice.
pub open spec fn opt_view(o: Option<&str>) -> Option<Seq<char>> {
    match o {
        Some(s) => Some(s@),
        None => None,
    }
}

/// The index of the first character of `s` that is not an ASCII digit.
pub open spec fn index_of_non_digit(s: Seq<char>) -> Option<int>
    decreases s.len(),
{
    if s.len() == 0 {
        None
    } else if !is_digit(s[0]) {
        Some(0)
    } else {
        match index_of_non_digit(s.drop_first()) {
            Some(i) => Some(i + 1),
            None => None,
        }
    }
}

proof fn lemma_index_of_non_digit(s: Seq<char>)
    ensures
        index_of_non_digit(s) matches Some(i) ==> 0 <= i < s.len() && !is_digit(s[i]) && forall|j: int|
            0 <= j < i ==> is_digit(s[j]),
        index_of_non_digit(s) is None ==> forall|j: int| 0 <= j < s.len() ==> is_digit(s[j]),
    decreases s.len(),
{
    if s.len() > 0 {
        lemma_index_of_non_digit(s.drop_first());
        if is_digit(s[0]) {
            assert forall|j: int| 1 <= j < s.len() implies s[j] == s.drop_first()[j - 1] by {}
        }
    }
}

/// The index of the first character of `s` that is not an ASCII digit.
fn find_non_digit(s: &str) -> (r: Option<usize>)
    ensures
        r == (match index_of_non_digit(s@) {
            Some(i) => Some(i as usize),
            None => None::<usize>,
        }),
{
    let n = s.unicode_len();
    let mut i: usize = 0;
    while i < n
        invariant
            n == s@.len(),
            i <= n,
            forall|j: int| 0 <= j < i ==> is_digit(s@[j]),
        decreases n - i,
    {
        let c = s.get_char(i);
        if !('0' <= c && c <= '9') {
            proof {
                lemma_index_of_non_digit(s@);
                assert(index_of_non_digit(s@) == Some(i as int)) by {
                    lemma_non_digit_at(s@, i as int);
                }
            }
            return Some(i);
        }
        i = i + 1;
    }
    proof {
        lemma_index_of_non_digit(s@);
        if index_of_non_digit(s@) is Some {
            let k = index_of_non_digit(s@)->0;
            assert(is_digit(s@[k]));
        }
    }
    None
}

proof fn lemma_non_digit_at(s: Seq<char>, i: int)
    requires
        0 <= i < s.len(),
        !is_digit(s[i]),
        forall|j: int| 0 <= j < i ==> is_digit(s[j]),
    ensures
        index_of_non_digit(s) == Some(i),
    decreases i,
{
    if i > 0 {
        lemma_non_digit_at(s.drop_first(), i - 1);
    }
}

/// Whether a line whose first `:` is at `c` names a file: it is not
/// indented and the part before the colon holds a `/` or a `.`.
pub open spec fn is_file_ref(line: Seq<char>, c: int) -> bool {
    !has_prefix(line, "  "@) && (index_of_char(line.take(c), '/') is Some || index_of_char(
        line.take(c),
        '.',
    ) is Some)
}

/// The heading printed when the file of the matches changes.
pub open spec fn file_heading(style: OutputStyle, cur: Option<Seq<char>>, file: Seq<char>) -> Seq<char> {
    if cur == Some(file) {
        seq![]
    } else {
        match style {
            OutputStyle::Plain => (if cur is Some {
                "\n"@
            } else {
                seq![]
            }) + file + "\n"@,
            OutputStyle::Ansi => (if cur is Some {
                "\n"@
            } else {
                seq![]
            }) + "\x1b[35m"@ + file + "\x1b[0m\n"@,
            OutputStyle::Markdown => (if cur is Some {
                "```\n\n"@
            } else {
                seq![]
            }) + "### `"@ + file + "`\n```\n"@,
        }
    }
}

/// What follows the file name on a match line: the line number and the
/// matched text.
pub open spec fn location_piece(style: OutputStyle, rest: Seq<char>) -> Seq<char> {
    match style {
        OutputStyle::Markdown => rest + "\n"@,
        OutputStyle::Plain => match index_of_non_digit(rest) {
            Some(k) => "  "@ + rest.take(k) + ":"@ + rest.skip(k) + "\n"@,
            None => "  "@ + rest + "\n"@,
        },
        OutputStyle::Ansi => match index_of_non_digit(rest) {
            Some(k) => "\x1b[32m"@ + rest.take(k) + "\x1b[0m:"@ + rest.skip(k) + "\n"@,
            None => "  "@ + rest + "\n"@,
        },
    }
}

/// A line without a colon: a matched line (`  >`), a context line (`  |`),
/// or other text.
pub open spec fn marker_piece(style: OutputStyle, line: Seq<char>) -> Seq<char> {
    if has_prefix(line, "  >"@) {
        match style {
            OutputStyle::Plain => "  → "@ + line.skip(4) + "\n"@,
            OutputStyle::Ansi => "\x1b[33m→\x1b[0m "@ + line.skip(4) + "\n"@,
            OutputStyle::Markdown => line.skip(2) + "\n"@,
        }
    } else if has_prefix(line, "  |"@) {
        match style {
            OutputStyle::Plain => "    "@ + line.skip(4) + "\n"@,
            OutputStyle::Ansi => "\x1b[2m  "@ + line.skip(4) + "\x1b[0m\n"@,
            OutputStyle::Markdown => line.skip(2) + "\n"@,
        }
    } else if line.len() > 0 {
        line + "\n"@
    } else {
        seq![]
    }
}

/// The rendering of one line of a content search result, and the file
/// whose matches are being shown after it.
pub open spec fn search_step(style: OutputStyle, line: Seq<char>, cur: Option<Seq<char>>) -> (Seq<char>, Option<Seq<char>>) {
    if has_prefix(line, "Found "@) {
        (
            match style {
                OutputStyle::Plain => line + "\n\n"@,
                OutputStyle::Ansi => "\x1b[1m"@ + line + "\x1b[0m\n\n"@,
                OutputStyle::Markdown => "**"@ + line + "**\n\n"@,
            },
            cur,
        )
    } else {
        match index_of_char(line, ':') {
            Some(c) => if is_file_ref(line, c) {
                (
                    file_heading(style, cur, line.take(c)) + location_piece(style, line.skip(c + 1)),
                    Some(line.take(c)),
                )
            } else {
                (line + "\n"@, cur)
            },
            None => (marker_piece(style, line), cur),
        }
    }
}

/// The rendering of the lines of a content search result, and the file
/// being shown at the end.
pub open spec fn search_fold(style: OutputStyle, ls: Seq<Seq<char>>) -> (Seq<char>, Option<Seq<char>>)
    decreases ls.len(),
{
    if ls.len() == 0 {
        (seq![], None)
    } else {
        let prev = search_fold(style, ls.drop_last());
        let step = search_step(style, ls.last(), prev.1);
        (prev.0 + step.0, step.1)
    }
}

/// One line of a filename search result.
pub open spec fn file_list_row(style: OutputStyle, line: Seq<char>) -> Seq<char> {
    if has_prefix(line, "Found"@) {
        match style {
            OutputStyle::Ansi => "\x1b[1m"@ + line + "\x1b[0m\n"@,
            _ => "**"@ + line + "**\n\n"@,
        }
    } else {
        match style {
            OutputStyle::Ansi => "\x1b[35m"@ + line + "\x1b[0m\n"@,
            _ => "- `"@ + line + "`\n"@,
        }
    }
}

/// The rendering of the lines of a filename search result.
pub open spec fn file_list_text(style: OutputStyle, ls: Seq<Seq<char>>) -> Seq<char>
    decreases ls.len(),
{
    if ls.len() == 0 {
        seq![]
    } else {
        file_list_text(style, ls.drop_last()) + file_list_row(style, ls.last())
    }
}

/// Whether a result reports that nothing was found.
pub open spec fn is_empty_report(s: Seq<char>) -> bool {
    has_prefix(s, "No matches"@) || has_prefix(s, "No files"@)
}

/// Whether a result lists the files of a filename search.
pub open spec fn is_file_list(s: Seq<char>) -> bool {
    has_prefix(s, "Found"@) && index_of_sub(s, "file(s)"@) is Some
}

fn marker_line_fits(line: &str) -> (b: bool)
    ensures
        b == marker_line_ok(line@),
{
    proof {
        reveal_strlit("Found ");
        reveal_strlit("  >");
        reveal_strlit("  |");
    }
    if !starts_with(line, "Found ") && !contains_char(line, ':') && (starts_with(line, "  >") || starts_with(
        line,
        "  |",
    )) {
        let n = line.unicode_len();
        n >= 4 && (line.get_char(3) as u32) < 0x80
    } else {
        true
    }
}

/// Whether a search result can be rendered in a style.
pub fn search_renders(style: &OutputStyle, output: &str) -> (b: bool)
    ensures
        b == search_render_ok(*style, output@),
{
    let ls = split_lines(output);
    let ghost lv = views(ls@);
    if matches!(style, OutputStyle::Markdown) || ls.len() == 0 {
        return true;
    }
    if starts_with(output, "No matches") || starts_with(output, "No files") {
        return true;
    }
    if starts_with(output, "Found") && contains_str(output, "file(s)") {
        return true;
    }
    let mut i: usize = 0;
    while i < ls.len()
        invariant
            lv == views(ls@),
            lv == lines(output@),
            i <= ls@.len(),
            !(*style is Markdown),
            !is_empty_report(output@),
            !is_file_list(output@),
            lv.len() > 0,
            forall|k: int| 0 <= k < i ==> marker_line_ok(#[trigger] lv[k]),
        decreases ls@.len() - i,
    {
        assert(lv[i as int] == ls@[i as int]@);
        if !marker_line_fits(ls[i]) {
            assert(!marker_line_ok(lines(output@)[i as int]));
            return false;
        }
        i = i + 1;
    }
    true
}

/// The rendering of a search result in a style.
pub open spec fn spec_render_search(style: OutputStyle, s: Seq<char>) -> Seq<char> {
    let ls = lines(s);
    if ls.len() == 0 {
        s
    } else if is_empty_report(s) {
        match style {
            OutputStyle::Plain => s,
            OutputStyle::Ansi => "\x1b[2m"@ + s + "\x1b[0m"@,
            OutputStyle::Markdown => "*"@ + s + "*"@,
        }
    } else if is_file_list(s) {
        match style {
            OutputStyle::Plain => s,
            _ => file_list_text(style, ls),
        }
    } else {
        let f = search_fold(style, ls);
        if style is Markdown && f.1 is Some {
            f.0 + "```\n"@
        } else {
            f.0
        }
    }
}

/// A matched or context line without a colon is cut after its fourth byte
/// in plain and ANSI rendering: it must have four characters, the fourth
/// of them ASCII.
pub open spec fn marker_line_ok(line: Seq<char>) -> bool {
    (!has_prefix(line, "Found "@) && index_of_char(line, ':') is None && (has_prefix(line, "  >"@)
        || has_prefix(line, "  |"@))) ==> (line.len() >= 4 && (line[3] as u32) < 0x80)
}

/// The results that a style can render.
pub open spec fn search_render_ok(style: OutputStyle, s: Seq<char>) -> bool {
    ||| style is Markdown
    ||| lines(s).len() == 0
    ||| is_empty_report(s)
    ||| is_file_list(s)
    ||| forall|i: int| 0 <= i < lines(s).len() ==> marker_line_ok(#[trigger] lines(s)[i])
}

fn push_styled(out: &mut String, style: OutputStyle, plain: &str, ansi: &str, markdown: &str)
    ensures
        final(out)@ == old(out)@ + match style {
            OutputStyle::Plain => plain@,
            OutputStyle::Ansi => ansi@,
            OutputStyle::Markdown => markdown@,
        },
{
    match style {
        OutputStyle::Plain => out.append(plain),
        OutputStyle::Ansi => out.append(ansi),
        OutputStyle::Markdown => out.append(markdown),
    }
}

fn push_heading(style: OutputStyle, cur: Option<&str>, file: &str, out: &mut String)
    ensures
        final(out)@ == old(out)@ + file_heading(style, opt_view(cur), file@),
{
    proof {
        reveal_strlit("");
    }
    let same = match cur {
        Some(f) => str_equal(f, file),
        None => false,
    };
    if !same {
        if cur.is_some() {
            push_styled(out, style, "\n", "\n", "```\n\n");
        }
        push_styled(out, style, "", "\x1b[35m", "### `");
        out.append(file);
        push_styled(out, style, "\n", "\x1b[0m\n", "`\n```\n");
    }
    assert(out@ =~= old(out)@ + file_heading(style, opt_view(cur), file@));
}

fn push_location(style: OutputStyle, rest: &str, out: &mut String)
    ensures
        final(out)@ == old(out)@ + location_piece(style, rest@),
{
    proof {
        reveal_strlit("");
    }
    match style {
        OutputStyle::Markdown => {
            out.append(rest);
            out.append("\n");
        },
        _ => {
            proof {
                lemma_index_of_non_digit(rest@);
            }
            match find_non_digit(rest) {
                Some(k) => {
                    let digits = rest.substring_char(0, k);
                    let tail = rest.substring_char(k, rest.unicode_len());
                    assert(digits@ =~= rest@.take(k as int));
                    assert(tail@ =~= rest@.skip(k as int));
                    push_styled(out, style, "  ", "\x1b[32m", "");
                    out.append(digits);
                    push_styled(out, style, ":", "\x1b[0m:", "");
                    out.append(tail);
                    out.append("\n");
                },
                None => {
                    out.append("  ");
                    out.append(rest);
                    out.append("\n");
                },
            }
        },
    }
    assert(out@ =~= old(out)@ + location_piece(style, rest@));
}

fn push_marker(style: OutputStyle, line: &str, out: &mut String)
    requires
        style is Markdown || (index_of_char(line@, ':') is None && !has_prefix(line@, "Found "@)
            ==> marker_line_ok(line@)),
        index_of_char(line@, ':') is None,
        !has_prefix(line@, "Found "@),
    ensures
        final(out)@ == old(out)@ + marker_piece(style, line@),
{
    proof {
        reveal_strlit("");
        reveal_strlit("  >");
        reveal_strlit("  |");
    }
    let n = line.unicode_len();
    if starts_with(line, "  >") {
        match style {
            OutputStyle::Markdown => out.append(line.substring_char(2, n)),
            _ => {
                push_styled(out, style, "  → ", "\x1b[33m→\x1b[0m ", "");
                out.append(line.substring_char(4, n));
            },
        }
        out.append("\n");
    } else if starts_with(line, "  |") {
        match style {
            OutputStyle::Markdown => {
                out.append(line.substring_char(2, n));
                out.append("\n");
            },
            _ => {
                push_styled(out, style, "    ", "\x1b[2m  ", "");
                out.append(line.substring_char(4, n));
                push_styled(out, style, "\n", "\x1b[0m\n", "");
            },
        }
    } else if n > 0 {
        out.append(line);
        out.append("\n");
    }
    assert(out@ =~= old(out)@ + marker_piece(style, line@));
}

/// Render one line of a content search result.
fn search_piece<'a>(style: OutputStyle, line: &'a str, cur: Option<&'a str>, out: &mut String) -> (next: Option<&'a str>)
    requires
        style is Markdown || marker_line_ok(line@),
    ensures
        final(out)@ == old(out)@ + search_step(style, line@, opt_view(cur)).0,
        opt_view(next) == search_step(style, line@, opt_view(cur)).1,
{
    proof {
        reveal_strlit("");
    }
    let n = line.unicode_len();
    if starts_with(line, "Found ") {
        push_styled(out, style, "", "\x1b[1m", "**");
        out.append(line);
        push_styled(out, style, "\n\n", "\x1b[0m\n\n", "**\n\n");
        assert(out@ =~= old(out)@ + search_step(style, line@, opt_view(cur)).0);
        return cur;
    }
    proof {
        lemma_index_of_char(line@, ':');
    }
    match find_char(line, ':') {
        Some(c) => {
            let file = line.substring_char(0, c);
            assert(file@ =~= line@.take(c as int));
            if !starts_with(line, "  ") && (contains_char(file, '/') || contains_char(file, '.')) {
                push_heading(style, cur, file, out);
                let rest = line.substring_char(c + 1, n);
                assert(rest@ =~= line@.skip(c + 1));
                push_location(style, rest, out);
                assert(out@ =~= old(out)@ + search_step(style, line@, opt_view(cur)).0);
                Some(file)
            } else {
                out.append(line);
                out.append("\n");
                cur
            }
        },
        None => {
            push_marker(style, line, out);
            cur
        },
    }
}

/// Render a search result in a style.
pub fn render_search(style: OutputStyle, output: &str) -> (r: String)
    requires
        search_render_ok(style, output@),
    ensures
        r@ == spec_render_search(style, output@),
{
    proof {
        reveal_strlit("");
    }
    let ls = split_lines(output);
    let ghost lv = views(ls@);
    if ls.len() == 0 {
        return output.to_string();
    }
    if starts_with(output, "No matches") || starts_with(output, "No files") {
        let mut out = String::new();
        push_styled(&mut out, style, "", "\x1b[2m", "*");
        out.append(output);
        push_styled(&mut out, style, "", "\x1b[0m", "*");
        assert(out@ =~= spec_render_search(style, output@));
        return out;
    }
    if starts_with(output, "Found") && contains_str(output, "file(s)") {
        if let OutputStyle::Plain = style {
            return output.to_string();
        }
        let mut out = String::new();
        let mut i: usize = 0;
        while i < ls.len()
            invariant
                lv == views(ls@),
                !(style is Plain),
                i <= ls@.len(),
                out@ == file_list_text(style, lv.take(i as int)),
            decreases ls@.len() - i,
        {
            let line = ls[i];
            proof {
                assert(lv.take(i + 1).drop_last() =~= lv.take(i as int));
                assert(lv[i as int] == line@);
            }
            if starts_with(line, "Found") {
                push_styled(&mut out, style, "", "\x1b[1m", "**");
                out.append(line);
                push_styled(&mut out, style, "", "\x1b[0m\n", "**\n\n");
            } else {
                push_styled(&mut out, style, "", "\x1b[35m", "- `");
                out.append(line);
                push_styled(&mut out, style, "", "\x1b[0m\n", "`\n");
            }
            i = i + 1;
        }
        assert(lv.take(ls@.len() as int) =~= lv);
        return out;
    }
    let mut out = String::new();
    let mut cur: Option<&str> = None;
    let mut i: usize = 0;
    while i < ls.len()
        invariant
            lv == views(ls@),
            lv == lines(output@),
            style is Markdown || forall|j: int| 0 <= j < lv.len() ==> marker_line_ok(#[trigger] lv[j]),
            i <= ls@.len(),
            out@ == search_fold(style, lv.take(i as int)).0,
            opt_view(cur) == search_fold(style, lv.take(i as int)).1,
        decreases ls@.len() - i,
    {
        let line = ls[i];
        proof {
            assert(lv.take(i + 1).drop_last() =~= lv.take(i as int));
            assert(lv[i as int] == line@);
        }
        cur = search_piece(style, line, cur, &mut out);
        i = i + 1;
    }
    assert(lv.take(ls@.len() as int) =~= lv);
    if let OutputStyle::Markdown = style {
        if cur.is_some() {
            out.append("```\n");
        }
    }
    out
}

/// One match of a content search.
#[derive(Debug)]
pub struct SearchMatch {
    pub file_path: String,
    pub line_number: usize,
    pub line_content: String,
    pub context_before: Vec<String>,
    pub context_after: Vec<String>,
}

/// Input for content search.
#[derive(Debug)]
pub struct SearchInput {
    /// Root directory or file to search in.
    pub root_path: PathBuf,
    /// Search pattern (regex or literal string).
    pub pattern: String,
    /// Search type: "files" for filename search, "content" for text search.
    pub search_type: String,
    /// Optional glob pattern to filter files (e.g., "*.rs").
    pub file_pattern: Option<String>,
    /// Case-insensitive search.
    pub ignore_case: bool,
    /// Maximum number of results to return.
    pub max_results: usize,
    /// Include hidden files and directories.
    pub include_hidden: bool,
    /// Lines of context to show around matches.
    pub context_lines: usize,
    /// Force literal string matching instead of regex.
    pub literal_search: bool,
}

/// The search type when none is given: a content search.
pub fn default_search_type() -> (s: String)
    ensures
        s@ == "content"@,
{
    "content".to_string()
}

/// Searches ignore case unless told otherwise.
pub fn default_ignore_case() -> (b: bool)
    ensures
        b,
{
    true
}

/// The number of results returned when no limit is given.
pub fn default_max_results() -> (n: usize)
    ensures
        n == 100,
{
    100
}

/// Tool for searching file contents and file names.
pub struct SearchTool {
    base_path: PathBuf,
}

impl SearchTool {
    /// The directory that searches are confined to.
    pub closed spec fn base(&self) -> PathBuf {
        self.base_path
    }

    /// A search tool rooted at the working directory.
    pub fn new() -> (t: Self)
        ensures
            t.base() == working_dir(),
    {
        SearchTool { base_path: path_of(".") }
    }

    /// A search tool rooted at `base_path`.
    pub fn with_base_path(base_path: PathBuf) -> (t: Self)
        ensures
            t.base() == base_path,
    {
        SearchTool { base_path }
    }

    /// The directory that paths are resolved against.
    pub fn base_path(&self) -> (r: &PathBuf)
        ensures
            *r == self.base(),
    {
        &self.base_path
    }

    /// The tool's name.
    pub fn name(&self) -> (r: &'static str)
        ensures
            r@ == "search"@,
    {
        "search"
    }

    /// The tool's description.
    pub fn description(&self) -> (r: &'static str)
        ensures
            r@ == "Search for text patterns in files (content search) or search filenames. Uses regex patterns and respects .gitignore. Can show context lines around matches."@,
    {
        "Search for text patterns in files (content search) or search filenames. Uses regex patterns and respects .gitignore. Can show context lines around matches."
    }

    /// A search result as plain text.
    pub fn format_output_plain(&self, output: &str) -> (r: String)
        requires
            search_render_ok(OutputStyle::Plain, output@),
        ensures
            r@ == spec_render_search(OutputStyle::Plain, output@),
    {
        render_search(OutputStyle::Plain, output)
    }

    /// A search result with ANSI colors.
    pub fn format_output_ansi(&self, output: &str) -> (r: String)
        requires
            search_render_ok(OutputStyle::Ansi, output@),
        ensures
            r@ == spec_render_search(OutputStyle::Ansi, output@),
    {
        render_search(OutputStyle::Ansi, output)
    }

    /// A search result as Markdown.
    pub fn format_output_markdown(&self, output: &str) -> (r: String)
        ensures
            r@ == spec_render_search(OutputStyle::Markdown, output@),
    {
        render_search(OutputStyle::Markdown, output)
    }
}

impl Default for SearchTool {
    fn default() -> (t: Self)
        ensures
            t.base() == working_dir(),
    {
        SearchTool::new()
    }
}

/// What a search looks for.
#[derive(Debug)]
pub enum SearchKind {
    Files,
    Content,
}

/// The regular expression a search compiles: the pattern, escaped when the
/// search is literal, made case-insensitive with `(?i)` when asked.
pub open spec fn spec_regex_source(pattern: Seq<char>, literal: bool, ignore_case: bool) -> Seq<char> {
    let p = if literal {
        regex_escaped(pattern)
    } else {
        pattern
    };
    if ignore_case {
        "(?i)"@ + p
    } else {
        p
    }
}

/// The regular expression a search compiles.
pub fn regex_source(pattern: &str, literal: bool, ignore_case: bool) -> (r: String)
    ensures
        r@ == spec_regex_source(pattern@, literal, ignore_case),
        literal && !ignore_case && regex_compiles(r@) ==> forall|s: Seq<char>| #[trigger] regex_finds(r@, s) <==> index_of_sub(
            s,
            pattern@,
        ) is Some,
{
    let p = if literal {
        escape(pattern)
    } else {
        pattern.to_string()
    };
    if ignore_case {
        let mut r = "(?i)".to_string();
        r.append(p.as_str());
        r
    } else {
        p
    }
}

/// A checked search: the compiled patterns and what to search.
pub struct SearchPlan {
    pub pattern: LinePattern,
    pub file_glob: Option<NamePattern>,
    pub kind: SearchKind,
}

/// The error a search input is refused with, checked in order: the
/// expression, the file pattern, then the search type.
pub open spec fn plan_error(input: SearchInput) -> Option<Seq<char>> {
    let src = spec_regex_source(input.pattern@, input.literal_search, input.ignore_case);
    if !regex_compiles(src) {
        Some("Invalid regex pattern: "@ + regex_error_message(src))
    } else if input.file_pattern matches Some(g) && !glob_compiles(g@) {
        Some("Invalid file pattern: "@ + glob_error_message(input.file_pattern->0@))
    } else if input.search_type@ != "files"@ && input.search_type@ != "content"@ {
        Some("Invalid search_type: '"@ + input.search_type@ + "'. Must be 'files' or 'content'"@)
    } else {
        None
    }
}

/// Check a search input and compile its patterns.
pub fn plan_search(input: &SearchInput) -> (r: Result<SearchPlan, String>)
    ensures
        r is Err <==> plan_error(*input) is Some,
        r matches Err(e) ==> plan_error(*input) == Some(e@),
        r matches Ok(p) ==> {
            &&& p.pattern.source() == spec_regex_source(input.pattern@, input.literal_search, input.ignore_case)
            &&& (match input.file_pattern {
                Some(g) => p.file_glob matches Some(fg) && fg.source() == g@,
                None => p.file_glob is None,
            })
            &&& (p.kind is Files <==> input.search_type@ == "files"@)
        },
{
    let src = regex_source(input.pattern.as_str(), input.literal_search, input.ignore_case);
    let pattern = match LinePattern::new(src.as_str()) {
        Ok(p) => p,
        Err(m) => {
            let mut e = "Invalid regex pattern: ".to_string();
            e.append(m.as_str());
            return Err(e);
        },
    };
    let file_glob = match &input.file_pattern {
        Some(g) => match NamePattern::new(g.as_str()) {
            Ok(p) => Some(p),
            Err(m) => {
                let mut e = "Invalid file pattern: ".to_string();
                e.append(m.as_str());
                return Err(e);
            },
        },
        None => None,
    };
    let kind = if str_equal(input.search_type.as_str(), "files") {
        SearchKind::Files
    } else if str_equal(input.search_type.as_str(), "content") {
        SearchKind::Content
    } else {
        let mut e = "Invalid search_type: '".to_string();
        e.append(input.search_type.as_str());
        e.append("'. Must be 'files' or 'content'");
        return Err(e);
    };
    Ok(SearchPlan { pattern, file_glob, kind })
}

/// The indices of the lines that the expression `source` matches, in order.
pub open spec fn matching_lines(ls: Seq<Seq<char>>, source: Seq<char>) -> Seq<int>
    decreases ls.len(),
{
    if ls.len() == 0 {
        seq![]
    } else {
        let prev = matching_lines(ls.drop_last(), source);
        if regex_finds(source, ls.last()) {
            prev.push(ls.len() - 1)
        } else {
            prev
        }
    }
}

/// The first line of the context before line `i`.
pub open spec fn context_start(i: int, ctx: int) -> int {
    if i >= ctx {
        i - ctx
    } else {
        0
    }
}

/// The end of the context after line `i` in a text of `n` lines.
pub open spec fn context_end(i: int, ctx: int, n: int) -> int {
    if i + 1 + ctx <= n {
        i + 1 + ctx
    } else {
        n
    }
}

/// A match as plain values: file, line number, line, context before and
/// after.
pub open spec fn match_view(m: SearchMatch) -> (Seq<char>, int, Seq<char>, Seq<Seq<char>>, Seq<Seq<char>>) {
    (
        m.file_path@,
        m.line_number as int,
        m.line_content@,
        string_views(m.context_before@),
        string_views(m.context_after@),
    )
}

/// The match reported for line `i` of a file: its 1-based number, the
/// line, and up to `ctx` lines on either side.
pub open spec fn match_at(path: Seq<char>, ls: Seq<Seq<char>>, i: int, ctx: int) -> (Seq<char>, int, Seq<char>, Seq<Seq<char>>, Seq<Seq<char>>) {
    (
        path,
        i + 1,
        ls[i],
        ls.subrange(context_start(i, ctx), i),
        ls.subrange(i + 1, context_end(i, ctx, ls.len() as int)),
    )
}

/// A match reports its line by 1-based number and text, and around it
/// the lines of the file nearest to it: before it the `min(ctx, i)` lines
/// that precede it, after it the `min(ctx, n - 1 - i)` lines that follow
/// it, in file order, for every line `i` of `n` lines and every context
/// size `ctx`.
pub proof fn law_match_context(path: Seq<char>, ls: Seq<Seq<char>>, i: int, ctx: int)
    requires
        0 <= i < ls.len(),
        ctx >= 0,
    ensures
        ({
            let m = match_at(path, ls, i, ctx);
            let before = if ctx <= i { ctx } else { i };
            let after = if ctx <= ls.len() - 1 - i { ctx } else { ls.len() - 1 - i };
            &&& m.0 == path
            &&& m.1 == i + 1
            &&& m.2 == ls[i]
            &&& m.3.len() == before
            &&& forall|j: int| 0 <= j < before ==> #[trigger] m.3[j] == ls[i - before + j]
            &&& m.4.len() == after
            &&& forall|j: int| 0 <= j < after ==> #[trigger] m.4[j] == ls[i + 1 + j]
        }),
{
}

/// The matches of a file are its lines that the expression finds, each
/// once, in file order: every index is a line the expression matches, the
/// indices rise, and every matching line is among them.
pub proof fn law_matching_lines(ls: Seq<Seq<char>>, source: Seq<char>)
    ensures
        forall|k: int|
            0 <= k < matching_lines(ls, source).len() ==> {
                let i = #[trigger] matching_lines(ls, source)[k];
                &&& 0 <= i < ls.len()
                &&& regex_finds(source, ls[i])
            },
        forall|k: int, l: int|
            0 <= k < l < matching_lines(ls, source).len() ==> #[trigger] matching_lines(ls, source)[k]
                < #[trigger] matching_lines(ls, source)[l],
        forall|i: int|
            0 <= i < ls.len() && #[trigger] regex_finds(source, ls[i]) ==> matching_lines(ls, source).contains(i),
    decreases ls.len(),
{
    if ls.len() > 0 {
        let init = ls.drop_last();
        law_matching_lines(init, source);
        let prev = matching_lines(init, source);
        let cur = matching_lines(ls, source);
        assert forall|k: int| 0 <= k < prev.len() implies #[trigger] init[prev[k]] == ls[prev[k]] by {
            let i = prev[k];
            assert(0 <= i < init.len());
        }
        assert forall|k: int|
            0 <= k < cur.len() implies {
                let i = #[trigger] cur[k];
                &&& 0 <= i < ls.len()
                &&& regex_finds(source, ls[i])
            } by {
            if k < prev.len() {
                assert(cur[k] == prev[k]);
                assert(init[prev[k]] == ls[prev[k]]);
            } else {
                assert(cur[k] == ls.len() - 1);
            }
        }
        assert forall|k: int, l: int| 0 <= k < l < cur.len() implies #[trigger] cur[k] < #[trigger] cur[l] by {
            if l < prev.len() {
                assert(cur[k] == prev[k] && cur[l] == prev[l]);
            } else {
                assert(cur[k] == prev[k]);
                assert(0 <= prev[k] < init.len());
            }
        }
        assert forall|i: int| 0 <= i < ls.len() && #[trigger] regex_finds(source, ls[i]) implies cur.contains(i) by {
            if i < init.len() {
                assert(init[i] == ls[i]);
                assert(prev.contains(i));
                let k = choose|k: int| 0 <= k < prev.len() && prev[k] == i;
                assert(cur[k] == i);
            } else {
                assert(cur[cur.len() - 1] == i);
            }
        }
    }
}

/// Owned copies of the lines `a..b`.
fn copy_lines(ls: &Vec<&str>, a: usize, b: usize) -> (r: Vec<String>)
    requires
        a <= b <= ls@.len(),
    ensures
        string_views(r@) == views(ls@).subrange(a as int, b as int),
{
    let mut r: Vec<String> = Vec::new();
    let mut k: usize = a;
    while k < b
        invariant
            a <= k <= b <= ls@.len(),
            string_views(r@) == views(ls@).subrange(a as int, k as int),
        decreases b - k,
    {
        r.push(ls[k].to_string());
        proof {
            assert(views(ls@).subrange(a as int, k + 1) =~= views(ls@).subrange(a as int, k as int).push(ls@[k as int]@));
            assert(string_views(r@) =~= views(ls@).subrange(a as int, k as int).push(ls@[k as int]@));
        }
        k = k + 1;
    }
    r
}

/// The matches of `pattern` among the lines of a file's text, each with
/// `context_lines` lines of context on either side.
pub fn matches_in_file(file_path: &str, content: &str, pattern: &LinePattern, context_lines: usize) -> (r: Vec<SearchMatch>)
    ensures
        r@.len() == matching_lines(lines(content@), pattern.source()).len(),
        forall|k: int|
            0 <= k < r@.len() ==> match_view(#[trigger] r@[k]) == match_at(
                file_path@,
                lines(content@),
                matching_lines(lines(content@), pattern.source())[k],
                context_lines as int,
            ),
{
    let ls = split_lines(content);
    let ghost lv = views(ls@);
    let ghost src = pattern.source();
    let n = ls.len();
    let mut r: Vec<SearchMatch> = Vec::new();
    let mut i: usize = 0;
    while i < n
        invariant
            n == ls@.len(),
            lv == views(ls@),
            lv == lines(content@),
            src == pattern.source(),
            i <= n,
            r@.len() == matching_lines(lv.take(i as int), src).len(),
            forall|k: int|
                0 <= k < r@.len() ==> match_view(#[trigger] r@[k]) == match_at(
                    file_path@,
                    lv,
                    matching_lines(lv.take(i as int), src)[k],
                    context_lines as int,
                ),
            forall|k: int|
                0 <= k < matching_lines(lv.take(i as int), src).len() ==> 0 <= #[trigger] matching_lines(
                    lv.take(i as int),
                    src,
                )[k] < i,
        decreases n - i,
    {
        let line = ls[i];
        proof {
            assert(lv.take(i + 1).drop_last() =~= lv.take(i as int));
            assert(lv.take(i + 1).last() == line@);
        }
        if pattern.is_match(line) {
            let start = if i >= context_lines {
                i - context_lines
            } else {
                0
            };
            let end = if context_lines <= n - (i + 1) {
                i + 1 + context_lines
            } else {
                n
            };
            let before = copy_lines(&ls, start, i);
            let after = copy_lines(&ls, i + 1, end);
            let m = SearchMatch {
                file_path: file_path.to_string(),
                line_number: i + 1,
                line_content: line.to_string(),
                context_before: before,
                context_after: after,
            };
            proof {
                assert(match_view(m) == match_at(file_path@, lv, i as int, context_lines as int));
            }
            r.push(m);
        }
        i = i + 1;
    }
    assert(lv.take(n as int) =~= lv);
    r
}

/// Matches added to those collected so far until there are `max` of them.
pub open spec fn limited(all: Seq<SearchMatch>, found: Seq<SearchMatch>, max: int) -> Seq<SearchMatch> {
    if all.len() >= max {
        all
    } else if found.len() <= max - all.len() {
        all + found
    } else {
        all + found.take(max - all.len())
    }
}

/// Add the matches of one file to those collected, stopping at
/// `max_results`.
pub fn take_until_limit(all: &mut Vec<SearchMatch>, found: Vec<SearchMatch>, max_results: usize)
    ensures
        final(all)@ == limited(old(all)@, found@, max_results as int),
{
    let mut found = found;
    let ghost f = found@;
    let mut k: usize = 0;
    while found.len() > 0
        invariant
            found@ == f.skip(k as int),
            k <= f.len(),
            old(all)@.len() < max_results ==> all@ == old(all)@ + f.take(k as int),
            old(all)@.len() < max_results ==> all@.len() <= max_results,
            old(all)@.len() >= max_results ==> all@ == old(all)@,
        ensures
            found@.len() == 0 || all@.len() >= max_results,
            found@ == f.skip(k as int),
            k <= f.len(),
            old(all)@.len() < max_results ==> all@ == old(all)@ + f.take(k as int),
            old(all)@.len() < max_results ==> all@.len() <= max_results,
            old(all)@.len() >= max_results ==> all@ == old(all)@,
        decreases found@.len(),
    {
        if all.len() >= max_results {
            break;
        }
        let m = found.remove(0);
        proof {
            assert(m == f[k as int]);
            assert(f.take(k + 1) =~= f.take(k as int).push(m));
            assert(found@ =~= f.skip(k + 1));
        }
        all.push(m);
        k = k + 1;
    }
    proof {
        if old(all)@.len() < max_results {
            if k == f.len() {
                assert(f.take(k as int) =~= f);
            }
        }
    }
}

/// Collecting matches never goes past the limit, keeps the matches
/// already collected in front, and adds the new ones in their order.
pub proof fn law_limit_respected(all: Seq<SearchMatch>, found: Seq<SearchMatch>, max: int)
    requires
        all.len() <= max,
    ensures
        limited(all, found, max).len() <= max,
        limited(all, found, max) == all + found.take(limited(all, found, max).len() - all.len()),
        found.len() <= max - all.len() ==> limited(all, found, max) == all + found,
        found.len() > max - all.len() ==> limited(all, found, max).len() == max,
{
    if all.len() < max && found.len() <= max - all.len() {
        assert(found.take(found.len() as int) =~= found);
    }
    if all.len() >= max {
        assert(found.take(0) =~= Seq::<SearchMatch>::empty());
        assert(all + found.take(0) =~= all);
    }
}

/// The expression a search compiles: a case-insensitive search puts the
/// flag `(?i)` in front and nothing else; a literal search compiles the
/// escaped pattern; a plain search compiles the pattern as given.
pub proof fn law_regex_source(pattern: Seq<char>, literal: bool, ignore_case: bool)
    ensures
        ignore_case ==> spec_regex_source(pattern, literal, ignore_case) == "(?i)"@ + spec_regex_source(
            pattern,
            literal,
            false,
        ),
        literal ==> spec_regex_source(pattern, literal, false) == regex_escaped(pattern),
        !literal ==> spec_regex_source(pattern, literal, false) == pattern,
{
}

/// A search is refused for the first fault in its input, in order: an
/// expression that does not compile, a file pattern that does not
/// compile, then a search type other than `files` and `content`; an input
/// without any of these faults is planned.
pub proof fn law_search_refusals(input: SearchInput)
    ensures
        ({
            let src = spec_regex_source(input.pattern@, input.literal_search, input.ignore_case);
            let glob_bad = input.file_pattern matches Some(g) && !glob_compiles(g@);
            let type_bad = input.search_type@ != "files"@ && input.search_type@ != "content"@;
            &&& plan_error(input) is None <==> (regex_compiles(src) && !glob_bad && !type_bad)
            &&& !regex_compiles(src) ==> (plan_error(input) matches Some(e) && has_prefix(
                e,
                "Invalid regex pattern: "@,
            ))
            &&& regex_compiles(src) && glob_bad ==> (plan_error(input) matches Some(e) && has_prefix(
                e,
                "Invalid file pattern: "@,
            ))
            &&& regex_compiles(src) && !glob_bad && type_bad ==> (plan_error(input) matches Some(e) && has_prefix(
                e,
                "Invalid search_type: '"@,
            ))
        }),
{
    reveal_strlit("Invalid regex pattern: ");
    reveal_strlit("Invalid file pattern: ");
    reveal_strlit("Invalid search_type: '");
    let src = spec_regex_source(input.pattern@, input.literal_search, input.ignore_case);
    if !regex_compiles(src) {
        let e = plan_error(input)->0;
        assert(e.take(23) =~= "Invalid regex pattern: "@);
    } else if input.file_pattern matches Some(g) && !glob_compiles(g@) {
        let e = plan_error(input)->0;
        assert(e.take(22) =~= "Invalid file pattern: "@);
    } else if input.search_type@ != "files"@ && input.search_type@ != "content"@ {
        let e = plan_error(input)->0;
        assert(e.take(22) =~= "Invalid search_type: '"@);
    }
}

/// The result of a filename search.
pub open spec fn file_search_text(pattern: Seq<char>, root: Seq<char>, files: Seq<Seq<char>>) -> Seq<char> {
    if files.len() == 0 {
        "No files matching '"@ + pattern + "' found in "@ + root
    } else {
        "Found "@ + decimal(files.len()) + " file(s) matching '"@ + pattern + "':\n"@ + join_spec(files, "\n"@)
    }
}

/// The result of a filename search for `pattern` under `root`.
pub fn file_search_result(pattern: &str, root: &str, files: &Vec<String>) -> (r: String)
    ensures
        r@ == file_search_text(pattern@, root@, string_views(files@)),
{
    let mut r = String::new();
    if files.len() == 0 {
        r.append("No files matching '");
        r.append(pattern);
        r.append("' found in ");
        r.append(root);
    } else {
        r.append("Found ");
        push_decimal(&mut r, files.len() as u64);
        r.append(" file(s) matching '");
        r.append(pattern);
        r.append("':\n");
        push_joined(&mut r, files, "\n");
    }
    assert(r@ =~= file_search_text(pattern@, root@, string_views(files@)));
    r
}

/// Context lines, each as `  | line`.
pub open spec fn context_text(cs: Seq<Seq<char>>) -> Seq<char>
    decreases cs.len(),
{
    if cs.len() == 0 {
        seq![]
    } else {
        context_text(cs.drop_last()) + "  | "@ + cs.last() + "\n"@
    }
}

/// One match in a content search result: its location, the context
/// before, the matched line, the context after, and a blank line.
pub open spec fn match_text(m: SearchMatch) -> Seq<char> {
    m.file_path@ + ":"@ + decimal(m.line_number as nat) + "\n"@ + context_text(string_views(m.context_before@))
        + "  > "@ + m.line_content@ + "\n"@ + context_text(string_views(m.context_after@)) + "\n"@
}

/// The matches of a content search result.
pub open spec fn matches_text(ms: Seq<SearchMatch>) -> Seq<char>
    decreases ms.len(),
{
    if ms.len() == 0 {
        seq![]
    } else {
        matches_text(ms.drop_last()) + match_text(ms.last())
    }
}

/// The result of a content search.
pub open spec fn content_search_text(pattern: Seq<char>, root: Seq<char>, ms: Seq<SearchMatch>) -> Seq<char> {
    if ms.len() == 0 {
        "No matches for '"@ + pattern + "' found in "@ + root
    } else {
        "Found "@ + decimal(ms.len()) + " match(es) for '"@ + pattern + "':\n\n"@ + matches_text(ms)
    }
}

fn push_context(r: &mut String, cs: &Vec<String>)
    ensures
        final(r)@ == old(r)@ + context_text(string_views(cs@)),
{
    let ghost cv = string_views(cs@);
    let mut i: usize = 0;
    assert(cv.take(0) =~= Seq::<Seq<char>>::empty());
    while i < cs.len()
        invariant
            cv == string_views(cs@),
            i <= cs@.len(),
            r@ == old(r)@ + context_text(cv.take(i as int)),
        decreases cs@.len() - i,
    {
        r.append("  | ");
        r.append(cs[i].as_str());
        r.append("\n");
        proof {
            assert(cv.take(i + 1).drop_last() =~= cv.take(i as int));
            assert(cv[i as int] == cs@[i as int]@);
            assert(r@ =~= old(r)@ + context_text(cv.take(i + 1)));
        }
        i = i + 1;
    }
    assert(cv.take(cs@.len() as int) =~= cv);
}

fn push_match_text(r: &mut String, m: &SearchMatch)
    ensures
        final(r)@ == old(r)@ + match_text(*m),
{
    r.append(m.file_path.as_str());
    r.append(":");
    push_decimal(r, m.line_number as u64);
    r.append("\n");
    push_context(r, &m.context_before);
    r.append("  > ");
    r.append(m.line_content.as_str());
    r.append("\n");
    push_context(r, &m.context_after);
    r.append("\n");
    assert(r@ =~= old(r)@ + match_text(*m));
}

/// The result of a content search for `pattern` under `root`.
pub fn content_search_result(pattern: &str, root: &str, ms: &Vec<SearchMatch>) -> (r: String)
    ensures
        r@ == content_search_text(pattern@, root@, ms@),
{
    let mut r = String::new();
    if ms.len() == 0 {
        r.append("No matches for '");
        r.append(pattern);
        r.append("' found in ");
        r.append(root);
        assert(r@ =~= content_search_text(pattern@, root@, ms@));
        return r;
    }
    r.append("Found ");
    push_decimal(&mut r, ms.len() as u64);
    r.append(" match(es) for '");
    r.append(pattern);
    r.append("':\n\n");
    let ghost head = r@;
    let mut i: usize = 0;
    assert(ms@.take(0) =~= Seq::<SearchMatch>::empty());
    while i < ms.len()
        invariant
            i <= ms@.len(),
            r@ == head + matches_text(ms@.take(i as int)),
        decreases ms@.len() - i,
    {
        push_match_text(&mut r, &ms[i]);
        proof {
            assert(ms@.take(i + 1).drop_last() =~= ms@.take(i as int));
        }
        i = i + 1;
    }
    assert(ms@.take(ms@.len() as int) =~= ms@);
    assert(r@ =~= content_search_text(pattern@, root@, ms@));
    r
}


/// The lines of the context around a match, each marked `  | `.
pub open spec fn context_lines(cs: Seq<Seq<char>>) -> Seq<Seq<char>> {
    cs.map_values(|c: Seq<char>| "  | "@ + c)
}

/// The lines that one match takes in a content search result.
pub open spec fn match_lines(m: SearchMatch) -> Seq<Seq<char>> {
    seq![m.file_path@ + ":"@ + decimal(m.line_number as nat)] + context_lines(string_views(m.context_before@))
        + seq!["  > "@ + m.line_content@] + context_lines(string_views(m.context_after@)) + seq![seq![]]
}

/// The lines that the matches take, in order.
pub open spec fn all_match_lines(ms: Seq<SearchMatch>) -> Seq<Seq<char>>
    decreases ms.len(),
{
    if ms.len() == 0 {
        seq![]
    } else {
        all_match_lines(ms.drop_last()) + match_lines(ms.last())
    }
}

/// A match whose path, line and context lines break no line.
pub open spec fn single_line_match(m: SearchMatch) -> bool {
    &&& single_line(m.file_path@)
    &&& single_line(m.line_content@)
    &&& forall|i: int| 0 <= i < m.context_before@.len() ==> single_line(#[trigger] m.context_before@[i]@)
    &&& forall|i: int| 0 <= i < m.context_after@.len() ==> single_line(#[trigger] m.context_after@[i]@)
}

proof fn lemma_lines_text_append(a: Seq<Seq<char>>, b: Seq<Seq<char>>)
    ensures
        lines_text(a + b) == lines_text(a) + lines_text(b),
    decreases b.len(),
{
    if b.len() == 0 {
        assert(a + b =~= a);
        assert(lines_text(a) + lines_text(b) =~= lines_text(a));
    } else {
        assert((a + b).drop_last() =~= a + b.drop_last());
        assert((a + b).last() == b.last());
        lemma_lines_text_append(a, b.drop_last());
        assert(lines_text(a + b) =~= lines_text(a) + lines_text(b));
    }
}

proof fn lemma_lines_text_one(x: Seq<char>)
    ensures
        lines_text(seq![x]) == x + "\n"@,
{
    assert(seq![x].drop_last() =~= Seq::<Seq<char>>::empty());
    assert(lines_text(Seq::<Seq<char>>::empty()) =~= Seq::<char>::empty());
    assert(Seq::<char>::empty() + x + "\n"@ =~= x + "\n"@);
}

proof fn lemma_context_text(cs: Seq<Seq<char>>)
    ensures
        context_text(cs) == lines_text(context_lines(cs)),
    decreases cs.len(),
{
    if cs.len() == 0 {
        assert(context_lines(cs) =~= Seq::<Seq<char>>::empty());
    } else {
        lemma_context_text(cs.drop_last());
        assert(context_lines(cs).drop_last() =~= context_lines(cs.drop_last()));
        assert(context_lines(cs).last() == "  | "@ + cs.last());
        assert(lines_text(context_lines(cs)) =~= context_text(cs));
    }
}

proof fn lemma_match_text(m: SearchMatch)
    ensures
        match_text(m) == lines_text(match_lines(m)),
{
    let l1 = m.file_path@ + ":"@ + decimal(m.line_number as nat);
    let before = context_lines(string_views(m.context_before@));
    let lm = "  > "@ + m.line_content@;
    let after = context_lines(string_views(m.context_after@));
    let blank: Seq<char> = seq![];
    lemma_context_text(string_views(m.context_before@));
    lemma_context_text(string_views(m.context_after@));
    lemma_lines_text_one(l1);
    lemma_lines_text_one(lm);
    lemma_lines_text_one(blank);
    lemma_lines_text_append(seq![l1], before);
    lemma_lines_text_append(seq![l1] + before, seq![lm]);
    lemma_lines_text_append(seq![l1] + before + seq![lm], after);
    lemma_lines_text_append(seq![l1] + before + seq![lm] + after, seq![blank]);
    assert(match_text(m) =~= lines_text(match_lines(m)));
}

proof fn lemma_matches_text(ms: Seq<SearchMatch>)
    ensures
        matches_text(ms) == lines_text(all_match_lines(ms)),
    decreases ms.len(),
{
    if ms.len() == 0 {
        assert(all_match_lines(ms) =~= Seq::<Seq<char>>::empty());
    } else {
        lemma_matches_text(ms.drop_last());
        lemma_match_text(ms.last());
        lemma_lines_text_append(all_match_lines(ms.drop_last()), match_lines(ms.last()));
    }
}

/// A marked line whose mark is followed by a space can be rendered.
proof fn lemma_marked_line(mark: Seq<char>, text: Seq<char>)
    requires
        mark.len() == 4,
        mark[3] == ' ',
        single_line(mark),
        single_line(text),
    ensures
        single_line(mark + text),
        marker_line_ok(mark + text),
{
    let l = mark + text;
    assert(l[3] == ' ');
    assert forall|j: int| 0 <= j < l.len() implies l[j] != '\n' && l[j] != '\r' by {
        if j < 4 {
            assert(l[j] == mark[j]);
        } else {
            assert(l[j] == text[j - 4]);
        }
    }
}

proof fn lemma_match_lines_ok(m: SearchMatch)
    requires
        single_line_match(m),
    ensures
        forall|j: int| 0 <= j < match_lines(m).len() ==> single_line(#[trigger] match_lines(m)[j]) && marker_line_ok(
            match_lines(m)[j],
        ),
{
    reveal_strlit(":");
    reveal_strlit("  | ");
    reveal_strlit("  > ");
    reveal_strlit("  |");
    reveal_strlit("  >");
    let d = decimal(m.line_number as nat);
    lemma_decimal_value(m.line_number as nat);
    let l1 = m.file_path@ + ":"@ + d;
    let cut = m.file_path@.len() as int;
    assert(l1[cut] == ':');
    lemma_index_of_char(l1, ':');
    assert(index_of_char(l1, ':') is Some);
    assert forall|j: int| 0 <= j < l1.len() implies l1[j] != '\n' && l1[j] != '\r' by {
        if j < cut {
            assert(l1[j] == m.file_path@[j]);
        } else if j > cut {
            assert(l1[j] == d[j - cut - 1]);
            assert(is_digit(d[j - cut - 1]));
        }
    }
    let bv = string_views(m.context_before@);
    let av = string_views(m.context_after@);
    let before = context_lines(bv);
    let after = context_lines(av);
    let lm = "  > "@ + m.line_content@;
    lemma_marked_line("  > "@, m.line_content@);
    assert forall|j: int| 0 <= j < before.len() implies single_line(#[trigger] before[j]) && marker_line_ok(before[j]) by {
        assert(bv[j] == m.context_before@[j]@);
        lemma_marked_line("  | "@, bv[j]);
    }
    assert forall|j: int| 0 <= j < after.len() implies single_line(#[trigger] after[j]) && marker_line_ok(after[j]) by {
        assert(av[j] == m.context_after@[j]@);
        lemma_marked_line("  | "@, av[j]);
    }
    let blank: Seq<char> = seq![];
    assert(single_line(blank));
    assert(!has_prefix(blank, "  >"@) && !has_prefix(blank, "  |"@));
    let ls = match_lines(m);
    assert(ls =~= seq![l1] + before + seq![lm] + after + seq![blank]);
    assert forall|j: int| 0 <= j < ls.len() implies single_line(#[trigger] ls[j]) && marker_line_ok(ls[j]) by {
        if j == 0 {
            assert(ls[j] == l1);
        } else if j < 1 + before.len() {
            assert(ls[j] == before[j - 1]);
        } else if j == 1 + before.len() {
            assert(ls[j] == lm);
        } else if j < 2 + before.len() + after.len() {
            assert(ls[j] == after[j - 2 - before.len()]);
        } else {
            assert(ls[j] == blank);
        }
    }
}

proof fn lemma_all_match_lines_ok(ms: Seq<SearchMatch>)
    requires
        forall|k: int| 0 <= k < ms.len() ==> single_line_match(#[trigger] ms[k]),
    ensures
        forall|j: int| 0 <= j < all_match_lines(ms).len() ==> single_line(#[trigger] all_match_lines(ms)[j])
            && marker_line_ok(all_match_lines(ms)[j]),
    decreases ms.len(),
{
    if ms.len() > 0 {
        let init = ms.drop_last();
        assert forall|k: int| 0 <= k < init.len() implies single_line_match(#[trigger] init[k]) by {
            assert(init[k] == ms[k]);
        }
        lemma_all_match_lines_ok(init);
        assert(single_line_match(ms.last()));
        lemma_match_lines_ok(ms.last());
        let a = all_match_lines(init);
        let b = match_lines(ms.last());
        assert(all_match_lines(ms) == a + b);
        assert forall|j: int| 0 <= j < (a + b).len() implies single_line(#[trigger] (a + b)[j]) && marker_line_ok((a + b)[j]) by {
            if j < a.len() {
                assert((a + b)[j] == a[j]);
            } else {
                assert((a + b)[j] == b[j - a.len()]);
            }
        }
    }
}

/// The first line of a content search result with `count` matches.
pub open spec fn content_header(count: nat, pattern: Seq<char>) -> Seq<char> {
    "Found "@ + decimal(count) + " match(es) for '"@ + pattern + "':"@
}

proof fn lemma_content_header(count: nat, pattern: Seq<char>)
    requires
        single_line(pattern),
    ensures
        single_line(content_header(count, pattern)),
        has_prefix(content_header(count, pattern), "Found "@),
{
    reveal_strlit("Found ");
    reveal_strlit(" match(es) for '");
    reveal_strlit("':");
    let n = decimal(count);
    lemma_decimal_value(count);
    let header = content_header(count, pattern);
    assert(header.take(6) =~= "Found "@);
    let a = "Found "@ + n;
    let b = a + " match(es) for '"@;
    let c = b + pattern;
    assert forall|j: int| 0 <= j < header.len() implies header[j] != '\n' && header[j] != '\r' by {
        if j < 6 {
            assert(header[j] == "Found "@[j]);
        } else if j < a.len() {
            assert(header[j] == n[j - 6]);
            assert(is_digit(n[j - 6]));
        } else if j < b.len() {
            assert(header[j] == " match(es) for '"@[j - a.len()]);
        } else if j < c.len() {
            assert(header[j] == pattern[j - b.len()]);
        } else {
            assert(header[j] == "':"@[j - c.len()]);
        }
    }
}

proof fn lemma_content_lines(pattern: Seq<char>, root: Seq<char>, ms: Seq<SearchMatch>)
    requires
        ms.len() > 0,
        single_line(pattern),
        forall|k: int| 0 <= k < ms.len() ==> single_line_match(#[trigger] ms[k]),
    ensures
        lines(content_search_text(pattern, root, ms)) == seq![content_header(ms.len(), pattern), Seq::<char>::empty()]
            + all_match_lines(ms),
{
    reveal_strlit("':\n\n");
    reveal_strlit("':");
    reveal_strlit("\n");
    let header = content_header(ms.len(), pattern);
    lemma_content_header(ms.len(), pattern);
    let blank: Seq<char> = seq![];
    let body = lines_text(all_match_lines(ms));
    lemma_matches_text(ms);
    assert(content_search_text(pattern, root, ms) =~= header + "\n"@ + (blank + "\n"@ + body));
    lemma_lines_cons(header, blank + "\n"@ + body);
    lemma_lines_cons(blank, body);
    lemma_all_match_lines_ok(ms);
    assert(body + Seq::<char>::empty() =~= body);
    lemma_lines_text(all_match_lines(ms), Seq::<char>::empty());
    assert(lines(Seq::<char>::empty()) =~= Seq::<Seq<char>>::empty());
}

/// Every result that a content search writes can be rendered in every
/// style, when the pattern and the matches' paths, lines and context lines
/// break no line.
pub proof fn law_content_report_renders(style: OutputStyle, pattern: Seq<char>, root: Seq<char>, ms: Seq<SearchMatch>)
    requires
        single_line(pattern),
        forall|k: int| 0 <= k < ms.len() ==> single_line_match(#[trigger] ms[k]),
    ensures
        search_render_ok(style, content_search_text(pattern, root, ms)),
{
    reveal_strlit("No matches for '");
    reveal_strlit("No matches");
    reveal_strlit("  |");
    reveal_strlit("  >");
    if ms.len() == 0 {
        assert(content_search_text(pattern, root, ms).take(10) =~= "No matches"@);
    } else {
        let header = content_header(ms.len(), pattern);
        let blank: Seq<char> = seq![];
        let all = all_match_lines(ms);
        lemma_content_header(ms.len(), pattern);
        lemma_content_lines(pattern, root, ms);
        lemma_all_match_lines_ok(ms);
        let ls = lines(content_search_text(pattern, root, ms));
        assert(!has_prefix(blank, "  >"@) && !has_prefix(blank, "  |"@));
        assert(marker_line_ok(header));
        assert(marker_line_ok(blank));
        assert forall|i: int| 0 <= i < ls.len() implies marker_line_ok(#[trigger] ls[i]) by {
            if i >= 2 {
                assert(ls[i] == all[i - 2]);
            } else if i == 0 {
                assert(ls[i] == header);
            } else {
                assert(ls[i] == blank);
            }
        }
    }
}

/// Every result that a filename search writes can be rendered in every
/// style.
pub proof fn law_file_report_renders(style: OutputStyle, pattern: Seq<char>, root: Seq<char>, files: Seq<Seq<char>>)
    ensures
        search_render_ok(style, file_search_text(pattern, root, files)),
{
    reveal_strlit("No files matching '");
    reveal_strlit("No files");
    reveal_strlit("Found ");
    reveal_strlit("Found");
    reveal_strlit(" file(s) matching '");
    reveal_strlit("file(s)");
    let report = file_search_text(pattern, root, files);
    if files.len() == 0 {
        assert(report.take(8) =~= "No files"@);
    } else {
        assert(report.take(5) =~= "Found"@);
        let at: int = 6int + decimal(files.len()).len() + 1;
        assert(report.skip(at).take(7) =~= "file(s)"@);
        lemma_index_of_sub(report, "file(s)"@);
    }
}

} // verus!
