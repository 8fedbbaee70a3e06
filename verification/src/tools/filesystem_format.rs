//! The renderings of the file tools' reports: file information and file
//! contents, as plain text, with ANSI colors and as Markdown.

use vstd::prelude::*;
use vstd::string::*;
use vstd::utf8::*;
use crate::text::{lines, pad_right_spec, push_pad_right, push_repeat, repeat_spec, split_lines, views};
use crate::tools::filesystem::{parse_file_info, text_fields, FileInfoTool, ReadFileTool};
use crate::tools::header::{concat_rows, lemma_concat_rows_step, pair_views, str_equal};
use crate::tools::render::{number_width, number_width_of, numbered, push_numbered};

verus! {

/// The rule under a file's name: as many `─` as the name has bytes, at
/// most 40.
pub open spec fn title_rule(value: Seq<char>) -> Seq<char> {
    let n = encode_utf8(value).len();
    repeat_spec("─"@, if n < 40 { n } else { 40 })
}

fn push_title_rule(out: &mut String, value: &str)
    ensures
        final(out)@ == old(out)@ + title_rule(value@),
{
    let n = value.as_bytes().len();
    let w = if n < 40 {
        n
    } else {
        40
    };
    push_repeat(out, "─", w);
}

/// The plain icon of a file information field.
pub open spec fn info_plain_icon(key: Seq<char>, value: Seq<char>) -> Seq<char> {
    if key == "Type"@ {
        if value == "Directory"@ {
            "[D]"@
        } else if value == "Symbolic Link"@ {
            "[L]"@
        } else {
            "[F]"@
        }
    } else if key == "Target"@ {
        "[→]"@
    } else if key == "Size"@ {
        "[#]"@
    } else if key == "MIME Type"@ {
        "[M]"@
    } else if key == "Modified"@ {
        "[T]"@
    } else if key == "Read-only"@ {
        "[R]"@
    } else {
        "   "@
    }
}

fn info_plain_icon_of(key: &str, value: &str) -> (r: &'static str)
    ensures
        r@ == info_plain_icon(key@, value@),
{
    if str_equal(key, "Type") {
        if str_equal(value, "Directory") {
            "[D]"
        } else if str_equal(value, "Symbolic Link") {
            "[L]"
        } else {
            "[F]"
        }
    } else if str_equal(key, "Target") {
        "[→]"
    } else if str_equal(key, "Size") {
        "[#]"
    } else if str_equal(key, "MIME Type") {
        "[M]"
    } else if str_equal(key, "Modified") {
        "[T]"
    } else if str_equal(key, "Read-only") {
        "[R]"
    } else {
        "   "
    }
}

/// The ANSI icon and value color of a file information field.
pub open spec fn info_ansi_style(key: Seq<char>, value: Seq<char>) -> (Seq<char>, Seq<char>) {
    if key == "Type"@ {
        if value == "Directory"@ {
            ("\x1b[34m󰉋\x1b[0m"@, "\x1b[34m"@)
        } else if value == "Symbolic Link"@ {
            ("\x1b[36m󰌷\x1b[0m"@, "\x1b[36m"@)
        } else {
            ("\x1b[32m󰈔\x1b[0m"@, "\x1b[0m"@)
        }
    } else if key == "Target"@ {
        ("\x1b[36m󰌹\x1b[0m"@, "\x1b[36m"@)
    } else if key == "Size"@ {
        ("\x1b[33m󰋊\x1b[0m"@, "\x1b[33m"@)
    } else if key == "MIME Type"@ {
        ("\x1b[35m󰈙\x1b[0m"@, "\x1b[35m"@)
    } else if key == "Modified"@ {
        ("\x1b[36m󰃰\x1b[0m"@, "\x1b[2m"@)
    } else if key == "Read-only"@ {
        if value == "true"@ {
            ("\x1b[31m󰌾\x1b[0m"@, "\x1b[31m"@)
        } else {
            ("\x1b[32m󰌿\x1b[0m"@, "\x1b[32m"@)
        }
    } else {
        ("  "@, "\x1b[0m"@)
    }
}

fn info_ansi_style_of(key: &str, value: &str) -> (r: (&'static str, &'static str))
    ensures
        (r.0@, r.1@) == info_ansi_style(key@, value@),
{
    if str_equal(key, "Type") {
        if str_equal(value, "Directory") {
            ("\x1b[34m󰉋\x1b[0m", "\x1b[34m")
        } else if str_equal(value, "Symbolic Link") {
            ("\x1b[36m󰌷\x1b[0m", "\x1b[36m")
        } else {
            ("\x1b[32m󰈔\x1b[0m", "\x1b[0m")
        }
    } else if str_equal(key, "Target") {
        ("\x1b[36m󰌹\x1b[0m", "\x1b[36m")
    } else if str_equal(key, "Size") {
        ("\x1b[33m󰋊\x1b[0m", "\x1b[33m")
    } else if str_equal(key, "MIME Type") {
        ("\x1b[35m󰈙\x1b[0m", "\x1b[35m")
    } else if str_equal(key, "Modified") {
        ("\x1b[36m󰃰\x1b[0m", "\x1b[2m")
    } else if str_equal(key, "Read-only") {
        if str_equal(value, "true") {
            ("\x1b[31m󰌾\x1b[0m", "\x1b[31m")
        } else {
            ("\x1b[32m󰌿\x1b[0m", "\x1b[32m")
        }
    } else {
        ("  ", "\x1b[0m")
    }
}

/// A plain row of file information: the name with its rule, or an icon,
/// the key padded to 12 and the value.
pub open spec fn info_plain_row(key: Seq<char>, value: Seq<char>) -> Seq<char> {
    if key == "File Information"@ {
        value + "\n"@ + title_rule(value) + "\n"@
    } else {
        info_plain_icon(key, value) + " "@ + pad_right_spec(key, 12) + " "@ + value + "\n"@
    }
}

/// An ANSI row of file information.
pub open spec fn info_ansi_row(key: Seq<char>, value: Seq<char>) -> Seq<char> {
    if key == "File Information"@ {
        "\x1b[1;36m"@ + value + "\x1b[0m\n"@ + "\x1b[2m"@ + title_rule(value) + "\x1b[0m\n"@
    } else {
        info_ansi_style(key, value).0 + " \x1b[2m"@ + pad_right_spec(key, 12) + "\x1b[0m "@ + info_ansi_style(
            key,
            value,
        ).1 + value + "\x1b[0m\n"@
    }
}

/// A Markdown row of file information: the name heads a table.
pub open spec fn info_markdown_row(key: Seq<char>, value: Seq<char>) -> Seq<char> {
    if key == "File Information"@ {
        "### `"@ + value + "`\n\n"@ + "| Property | Value |\n"@ + "|----------|-------|\n"@
    } else {
        "| "@ + key + " | `"@ + value + "` |\n"@
    }
}

/// A rendering of file information: the text itself when it holds no
/// field, else one row per field.
pub open spec fn info_rendering(output: Seq<char>, row: spec_fn(Seq<char>, Seq<char>) -> Seq<char>) -> Seq<char> {
    let fields = text_fields(lines(output));
    if fields.len() == 0 {
        output
    } else {
        concat_rows(fields, row)
    }
}

/// Which rendering of file information.
pub enum InfoStyle {
    Plain,
    Ansi,
    Markdown,
}

/// The row function of a rendering.
pub open spec fn info_row(style: InfoStyle) -> spec_fn(Seq<char>, Seq<char>) -> Seq<char> {
    match style {
        InfoStyle::Plain => |k: Seq<char>, v: Seq<char>| info_plain_row(k, v),
        InfoStyle::Ansi => |k: Seq<char>, v: Seq<char>| info_ansi_row(k, v),
        InfoStyle::Markdown => |k: Seq<char>, v: Seq<char>| info_markdown_row(k, v),
    }
}

fn push_info_row(out: &mut String, style: &InfoStyle, key: &str, value: &str)
    ensures
        final(out)@ == old(out)@ + (info_row(*style))(key@, value@),
{
    let is_title = str_equal(key, "File Information");
    match style {
        InfoStyle::Plain => {
            if is_title {
                out.append(value);
                out.append("\n");
                push_title_rule(out, value);
                out.append("\n");
            } else {
                out.append(info_plain_icon_of(key, value));
                out.append(" ");
                push_pad_right(out, key, 12);
                out.append(" ");
                out.append(value);
                out.append("\n");
            }
        },
        InfoStyle::Ansi => {
            if is_title {
                out.append("\x1b[1;36m");
                out.append(value);
                out.append("\x1b[0m\n");
                out.append("\x1b[2m");
                push_title_rule(out, value);
                out.append("\x1b[0m\n");
            } else {
                let (icon, color) = info_ansi_style_of(key, value);
                out.append(icon);
                out.append(" \x1b[2m");
                push_pad_right(out, key, 12);
                out.append("\x1b[0m ");
                out.append(color);
                out.append(value);
                out.append("\x1b[0m\n");
            }
        },
        InfoStyle::Markdown => {
            if is_title {
                out.append("### `");
                out.append(value);
                out.append("`\n\n");
                out.append("| Property | Value |\n");
                out.append("|----------|-------|\n");
            } else {
                out.append("| ");
                out.append(key);
                out.append(" | `");
                out.append(value);
                out.append("` |\n");
            }
        },
    }
    assert(out@ =~= old(out)@ + (info_row(*style))(key@, value@));
}

fn render_info(output: &str, style: InfoStyle) -> (r: String)
    ensures
        r@ == info_rendering(output@, info_row(style)),
{
    let fields = parse_file_info(output);
    if fields.len() == 0 {
        return output.to_string();
    }
    let ghost fs = pair_views(fields@);
    let ghost row = info_row(style);
    let mut out = String::new();
    let mut i: usize = 0;
    assert(fs.take(0) =~= Seq::<(Seq<char>, Seq<char>)>::empty());
    assert(out@ =~= concat_rows(fs.take(0), row));
    while i < fields.len()
        invariant
            fs == pair_views(fields@),
            row == info_row(style),
            i <= fields@.len(),
            out@ == concat_rows(fs.take(i as int), row),
        decreases fields@.len() - i,
    {
        let (key, value) = fields[i];
        push_info_row(&mut out, &style, key, value);
        proof {
            lemma_concat_rows_step(fs, i as int, row);
            assert(fs[i as int] == (key@, value@));
        }
        i = i + 1;
    }
    assert(fs.take(fields@.len() as int) =~= fs);
    out
}

impl FileInfoTool {
    /// File information as plain text.
    pub fn format_output_plain(&self, output: &str) -> (r: String)
        ensures
            r@ == info_rendering(output@, |k: Seq<char>, v: Seq<char>| info_plain_row(k, v)),
    {
        render_info(output, InfoStyle::Plain)
    }

    /// File information with ANSI colors.
    pub fn format_output_ansi(&self, output: &str) -> (r: String)
        ensures
            r@ == info_rendering(output@, |k: Seq<char>, v: Seq<char>| info_ansi_row(k, v)),
    {
        render_info(output, InfoStyle::Ansi)
    }

    /// File information as a Markdown table.
    pub fn format_output_markdown(&self, output: &str) -> (r: String)
        ensures
            r@ == info_rendering(output@, |k: Seq<char>, v: Seq<char>| info_markdown_row(k, v)),
    {
        render_info(output, InfoStyle::Markdown)
    }
}

/// File contents as plain text: numbered lines, or a note for an empty
/// file.
pub open spec fn contents_plain(content: Seq<char>) -> Seq<char> {
    if content.len() == 0 {
        "(empty file)"@
    } else {
        numbered(lines(content), number_width(lines(content).len()), seq![], " │ "@, "\n"@)
    }
}

/// File contents with ANSI colors.
pub open spec fn contents_ansi(content: Seq<char>) -> Seq<char> {
    if content.len() == 0 {
        "\x1b[2m(empty file)\x1b[0m"@
    } else {
        numbered(lines(content), number_width(lines(content).len()), "\x1b[36m"@, "\x1b[0m \x1b[2m│\x1b[0m "@, "\n"@)
    }
}

/// File contents as a Markdown code block.
pub open spec fn contents_markdown(content: Seq<char>) -> Seq<char> {
    if content.len() == 0 {
        "*Empty file*"@
    } else {
        "```\n"@ + content + "\n```"@
    }
}

impl ReadFileTool {
    /// File contents as plain text, the lines numbered.
    pub fn format_output_plain(&self, content: &str) -> (r: String)
        ensures
            r@ == contents_plain(content@),
    {
        if content.unicode_len() == 0 {
            return "(empty file)".to_string();
        }
        let ls = split_lines(content);
        let width = number_width_of(ls.len());
        let mut out = String::new();
        push_numbered(&mut out, &ls, width, "", " │ ", "\n");
        proof {
            reveal_strlit("");
            assert(""@ =~= Seq::<char>::empty());
        }
        assert(out@ =~= contents_plain(content@));
        out
    }

    /// File contents with ANSI colors.
    pub fn format_output_ansi(&self, content: &str) -> (r: String)
        ensures
            r@ == contents_ansi(content@),
    {
        if content.unicode_len() == 0 {
            return "\x1b[2m(empty file)\x1b[0m".to_string();
        }
        let ls = split_lines(content);
        let width = number_width_of(ls.len());
        let mut out = String::new();
        push_numbered(&mut out, &ls, width, "\x1b[36m", "\x1b[0m \x1b[2m│\x1b[0m ", "\n");
        proof {
            reveal_strlit("");
        }
        assert(out@ =~= contents_ansi(content@));
        out
    }

    /// File contents as Markdown.
    pub fn format_output_markdown(&self, content: &str) -> (r: String)
        ensures
            r@ == contents_markdown(content@),
    {
        if content.unicode_len() == 0 {
            return "*Empty file*".to_string();
        }
        let mut out = "```\n".to_string();
        out.append(content);
        out.append("\n```");
        out
    }
}

} // verus!
