//! The filesystem tools: their inputs, the texts they report, the sizes
//! they print, and the selection of lines from a file.

use std::path::PathBuf;
use vstd::prelude::*;
use vstd::string::*;
use vstd::arithmetic::div_mod::lemma_fundamental_div_mod;
use vstd::arithmetic::mul::lemma_mul_is_distributive_add_other_way;
use crate::text::{
    decimal, join_spec, lines, push_decimal, push_joined, split_lines, string_views, views,
};
use crate::tools::header::{
    field_line, field_lines, field_of, lemma_line_field_of, lemma_lines_cons, line_field, pair_views, single_line,
    writable_field,
};
use crate::text::{lemma_index_of_char_none, lemma_join_append};
use crate::tools::paths::{path_of, working_dir};

verus! {

/// Input for creating a directory.
#[derive(Debug)]
pub struct CreateDirectoryInput {
    /// Path to the directory to create (relative to base path).
    pub path: PathBuf,
}

/// Input for getting file information.
#[derive(Debug)]
pub struct FileInfoInput {
    /// Path to the file to get information about.
    pub path: PathBuf,
}

/// Input for listing a directory.
#[derive(Debug)]
pub struct ListDirectoryInput {
    /// Path to the directory to list (relative to base path).
    pub path: PathBuf,
    /// Maximum recursion depth.
    pub depth: usize,
    /// Maximum lines in output.
    pub max_lines: Option<usize>,
}

/// Input for moving a file.
#[derive(Debug)]
pub struct MoveFileInput {
    /// Source path (file or directory to move).
    pub source: PathBuf,
    /// Destination path.
    pub destination: PathBuf,
}

/// Input for reading a file.
#[derive(Debug)]
pub struct ReadFileInput {
    /// Path to the file to read.
    pub path: PathBuf,
    /// Starting line number (0-indexed).
    pub offset: Option<usize>,
    /// Maximum number of lines to read.
    pub length: Option<usize>,
}

/// Input for reading several files.
#[derive(Debug)]
pub struct ReadMultipleFilesInput {
    /// List of file paths to read (relative to base path).
    pub paths: Vec<PathBuf>,
    /// Maximum number of files to read concurrently.
    pub concurrency: usize,
}

/// The outcome of reading one of several files.
#[derive(Debug)]
pub struct FileReadResult {
    /// Path that was attempted.
    pub path: String,
    /// Content of the file if successful.
    pub content: Option<String>,
    /// Error message if failed.
    pub error: Option<String>,
}

/// How a file is written.
#[derive(Debug, Clone, Copy, PartialEq, Eq, Structural)]
pub enum WriteMode {
    /// Overwrite the file if it exists, create it if it does not.
    Rewrite,
    /// Append to the end of the file if it exists, create it if it does not.
    Append,
}

impl Default for WriteMode {
    fn default() -> (m: Self)
        ensures
            m == WriteMode::Rewrite,
    {
        WriteMode::Rewrite
    }
}

/// Input for writing a file.
#[derive(Debug)]
pub struct WriteFileInput {
    /// Path to the file to write.
    pub path: PathBuf,
    /// Content to write to the file.
    pub content: String,
    /// Write mode: rewrite (default) or append.
    pub mode: WriteMode,
}

/// Files read at once when no number is given: 10.
pub fn default_concurrency() -> (n: usize)
    ensures
        n == 10,
{
    10
}

/// The recursion depth of a listing when none is given: 2.
pub fn default_depth() -> (n: usize)
    ensures
        n == 2,
{
    2
}

/// The scale of the floating-point value nearest to `n` (a `u64` as
/// `f64`): the power of two that its 53-bit significand counts in.
pub open spec fn f64_unit(n: nat) -> nat {
    if n < 0x20_0000_0000_0000 {
        1
    } else if n < 0x40_0000_0000_0000 {
        2
    } else if n < 0x80_0000_0000_0000 {
        4
    } else if n < 0x100_0000_0000_0000 {
        8
    } else if n < 0x200_0000_0000_0000 {
        16
    } else if n < 0x400_0000_0000_0000 {
        32
    } else if n < 0x800_0000_0000_0000 {
        64
    } else if n < 0x1000_0000_0000_0000 {
        128
    } else if n < 0x2000_0000_0000_0000 {
        256
    } else if n < 0x4000_0000_0000_0000 {
        512
    } else if n < 0x8000_0000_0000_0000 {
        1024
    } else {
        2048
    }
}

/// `n` divided by `d`, rounded to the nearest integer, ties to even.
pub open spec fn div_round_even(n: nat, d: nat) -> nat {
    let q = n / d;
    let r = n % d;
    if 2 * r > d || (2 * r == d && q % 2 == 1) {
        q + 1
    } else {
        q
    }
}

/// The value of `n as f64`: `n` rounded to a multiple of its unit.
pub open spec fn f64_of(n: nat) -> nat {
    div_round_even(n, f64_unit(n)) * f64_unit(n)
}

/// Two decimal digits.
pub open spec fn two_digits(n: nat) -> Seq<char> {
    decimal(n / 10) + decimal(n % 10)
}

/// `v / d` with two decimals (`{:.2}`), rounded half to even.
pub open spec fn fixed2(v: nat, d: nat) -> Seq<char> {
    let c = div_round_even(v * 100, d);
    decimal(c / 100) + "."@ + two_digits(c % 100)
}

/// `v / d` with one decimal (`{:.1}`), rounded half to even.
pub open spec fn fixed1(v: nat, d: nat) -> Seq<char> {
    let c = div_round_even(v * 10, d);
    decimal(c / 10) + "."@ + decimal(c % 10)
}

/// A file size in human-readable form: bytes below 1 KiB, else KB, MB or
/// GB with two decimals and the exact byte count.
pub open spec fn spec_format_size(size: nat) -> Seq<char> {
    if size < 1024 {
        decimal(size) + " bytes"@
    } else if size < 1024 * 1024 {
        fixed2(f64_of(size), 1024) + " KB ("@ + decimal(size) + " bytes)"@
    } else if size < 1024 * 1024 * 1024 {
        fixed2(f64_of(size), 1024 * 1024) + " MB ("@ + decimal(size) + " bytes)"@
    } else {
        fixed2(f64_of(size), 1024 * 1024 * 1024) + " GB ("@ + decimal(size) + " bytes)"@
    }
}

fn f64_unit_of(n: u64) -> (p: u128)
    ensures
        p == f64_unit(n as nat),
        1 <= p <= 2048,
{
    if n < 0x20_0000_0000_0000 {
        1
    } else if n < 0x40_0000_0000_0000 {
        2
    } else if n < 0x80_0000_0000_0000 {
        4
    } else if n < 0x100_0000_0000_0000 {
        8
    } else if n < 0x200_0000_0000_0000 {
        16
    } else if n < 0x400_0000_0000_0000 {
        32
    } else if n < 0x800_0000_0000_0000 {
        64
    } else if n < 0x1000_0000_0000_0000 {
        128
    } else if n < 0x2000_0000_0000_0000 {
        256
    } else if n < 0x4000_0000_0000_0000 {
        512
    } else if n < 0x8000_0000_0000_0000 {
        1024
    } else {
        2048
    }
}

fn round_even(n: u128, d: u128) -> (q: u128)
    requires
        d > 0,
        n <= 0x1_0000_0000_0000_0000_0000_0000,
    ensures
        q == div_round_even(n as nat, d as nat),
        q * d <= n + d,
{
    let q = n / d;
    let r = n % d;
    proof {
        lemma_fundamental_div_mod(n as int, d as int);
    }
    assert(q * d <= n) by (nonlinear_arith)
        requires
            n == d * q + r,
            r >= 0,
    ;
    if 2 * r > d || (2 * r == d && q % 2 == 1) {
        proof {
            lemma_mul_is_distributive_add_other_way(d as int, q as int, 1);
        }
        q + 1
    } else {
        q
    }
}

fn push_fixed2(s: &mut String, v: u128, d: u128)
    requires
        d >= 1024,
        v <= 0x1_0000_0000_0000_0800,
    ensures
        final(s)@ == old(s)@ + fixed2(v as nat, d as nat),
{
    let c = round_even(v * 100, d);
    assert(c <= 0xffff_ffff_ffff_ffff) by (nonlinear_arith)
        requires
            c * d <= v * 100 + d,
            d >= 1024,
            v <= 0x1_0000_0000_0000_0800,
    ;
    let whole = (c / 100) as u64;
    let frac = (c % 100) as u64;
    push_decimal(s, whole);
    s.append(".");
    push_decimal(s, frac / 10);
    push_decimal(s, frac % 10);
    assert(s@ =~= old(s)@ + fixed2(v as nat, d as nat));
}

pub(crate) fn push_fixed1(s: &mut String, v: u128, d: u128)
    requires
        d >= 1024,
        v <= 0x1_0000_0000_0000_0800,
    ensures
        final(s)@ == old(s)@ + fixed1(v as nat, d as nat),
{
    let c = round_even(v * 10, d);
    assert(c <= 0xffff_ffff_ffff_ffff) by (nonlinear_arith)
        requires
            c * d <= v * 10 + d,
            d >= 1024,
            v <= 0x1_0000_0000_0000_0800,
    ;
    let whole = (c / 10) as u64;
    let frac = (c % 10) as u64;
    push_decimal(s, whole);
    s.append(".");
    push_decimal(s, frac);
    assert(s@ =~= old(s)@ + fixed1(v as nat, d as nat));
}

/// The value of `n as f64`, as an integer.
pub(crate) fn f64_value(n: u64) -> (v: u128)
    ensures
        v == f64_of(n as nat),
        v <= 0x1_0000_0000_0000_0800,
{
    let unit = f64_unit_of(n);
    let q = round_even(n as u128, unit);
    assert(q * unit <= 0x1_0000_0000_0000_0800) by (nonlinear_arith)
        requires
            q * unit <= n + unit,
            unit <= 2048,
            n <= 0xffff_ffff_ffff_ffff,
    ;
    q * unit
}

/// Format a file size in human-readable form.
pub fn format_size(size: u64) -> (r: String)
    ensures
        r@ == spec_format_size(size as nat),
{
    let mut r = String::new();
    if size < 1024 {
        push_decimal(&mut r, size);
        r.append(" bytes");
        assert(r@ =~= spec_format_size(size as nat));
        return r;
    }
    let unit = f64_unit_of(size);
    let q = round_even(size as u128, unit);
    let v = q * unit;
    let d: u128 = if size < 1024 * 1024 {
        1024
    } else if size < 1024 * 1024 * 1024 {
        1024 * 1024
    } else {
        1024 * 1024 * 1024
    };
    push_fixed2(&mut r, v, d);
    if size < 1024 * 1024 {
        r.append(" KB (");
    } else if size < 1024 * 1024 * 1024 {
        r.append(" MB (");
    } else {
        r.append(" GB (");
    }
    push_decimal(&mut r, size);
    r.append(" bytes)");
    assert(r@ =~= spec_format_size(size as nat));
    r
}

/// The `Key: value` fields of the lines of a text, in order.
pub open spec fn text_fields(ls: Seq<Seq<char>>) -> Seq<(Seq<char>, Seq<char>)>
    decreases ls.len(),
{
    if ls.len() == 0 {
        seq![]
    } else {
        text_fields(ls.drop_last()) + line_field(ls.last())
    }
}

/// Parse file info output into its fields: each line split at its first
/// `": "`; lines without one are left out.
pub fn parse_file_info<'a>(output: &'a str) -> (r: Vec<(&'a str, &'a str)>)
    ensures
        pair_views(r@) == text_fields(lines(output@)),
{
    let ls = split_lines(output);
    let ghost lv = views(ls@);
    let mut r: Vec<(&'a str, &'a str)> = Vec::new();
    let mut i: usize = 0;
    assert(lv.take(0) =~= Seq::<Seq<char>>::empty());
    assert(pair_views(r@) =~= Seq::<(Seq<char>, Seq<char>)>::empty());
    while i < ls.len()
        invariant
            lv == views(ls@),
            lv == lines(output@),
            i <= ls@.len(),
            pair_views(r@) == text_fields(lv.take(i as int)),
        decreases ls@.len() - i,
    {
        let line = ls[i];
        proof {
            assert(lv.take(i + 1).drop_last() =~= lv.take(i as int));
            assert(lv.take(i + 1).last() == line@);
        }
        match field_of(line) {
            Some(p) => {
                r.push(p);
                assert(pair_views(r@) =~= pair_views(r@.drop_last()) + seq![(p.0@, p.1@)]);
            },
            None => {
                assert(pair_views(r@) =~= pair_views(r@) + line_field(line@));
            },
        }
        i = i + 1;
    }
    assert(lv.take(ls@.len() as int) =~= lv);
    r
}

/// The report of a file's information; the link target is shown for a
/// symbolic link.
pub open spec fn file_info_text(path: Seq<char>, kind: Seq<char>, target: Option<Seq<char>>, size: Seq<char>, mime: Seq<char>, modified: Seq<char>, readonly: bool) -> Seq<char> {
    "File Information: "@ + path + "\nType: "@ + kind + "\n"@ + match target {
        Some(t) => "Target: "@ + t + "\n"@,
        None => seq![],
    } + "Size: "@ + size + "\nMIME Type: "@ + mime + "\nModified: "@ + modified + "\nRead-only: "@ + (if readonly {
        "true"@
    } else {
        "false"@
    })
}

/// The pattern in which modification times are written.
pub open spec fn timestamp_pattern() -> Seq<char> {
    "%Y-%m-%d %H:%M:%S UTC"@
}

/// What chrono writes for the time `secs` seconds after the epoch in UTC
/// (the earliest time it can hold when `secs` is out of its range), with
/// `pattern`.
pub uninterp spec fn utc_format(secs: int, pattern: Seq<char>) -> Seq<char>;

/// `chrono::DateTime::from_timestamp(secs, 0)`, `DateTime::MIN_UTC` when
/// that is `None`, formatted with `pattern`; the result is named, as the
/// calendar arithmetic is chrono's.
#[verifier::external_body]
fn format_utc(secs: i64, pattern: &str) -> (r: String)
    requires
        pattern@ == timestamp_pattern(),
    ensures
        r@ == utc_format(secs as int, pattern@),
{
    chrono::DateTime::from_timestamp(secs, 0)
        .unwrap_or(chrono::DateTime::<chrono::Utc>::MIN_UTC)
        .format(pattern)
        .to_string()
}

/// A file's modification time as reported: its time in UTC, or
/// `Unknown` when the time could not be read.
pub open spec fn modified_label(secs: Option<u64>) -> Seq<char> {
    match secs {
        Some(s) => utc_format((s as i64) as int, timestamp_pattern()),
        None => "Unknown"@,
    }
}

/// A file's modification time as reported, from its seconds since the
/// epoch.
pub fn modified_text(secs: Option<u64>) -> (r: String)
    ensures
        r@ == modified_label(secs),
{
    match secs {
        Some(s) => {
            let pattern = "%Y-%m-%d %H:%M:%S UTC";
            proof {
                reveal_strlit("%Y-%m-%d %H:%M:%S UTC");
            }
            format_utc(s as i64, pattern)
        },
        None => "Unknown".to_string(),
    }
}

/// The first MIME type that `mime_guess` associates with a path's
/// extension.
pub uninterp spec fn mime_guess_first(path: Seq<char>) -> Option<Seq<char>>;

/// `mime_guess::from_path(path).first()`, written out.
#[verifier::external_body]
fn guess_mime(path: &str) -> (r: Option<String>)
    ensures
        r matches Some(m) ==> mime_guess_first(path@) == Some(m@),
        r is None ==> mime_guess_first(path@) is None,
{
    mime_guess::from_path(path).first().map(|m| m.to_string())
}

/// A file's MIME type as reported: `N/A` for links and directories; for a
/// file, the type its content shows, else the one its extension suggests,
/// else `application/octet-stream`.
pub open spec fn mime_label(is_symlink: bool, is_file: bool, sniffed: Option<Seq<char>>, path: Seq<char>) -> Seq<char> {
    if is_symlink || !is_file {
        "N/A"@
    } else {
        match sniffed {
            Some(m) => m,
            None => match mime_guess_first(path) {
                Some(g) => g,
                None => "application/octet-stream"@,
            },
        }
    }
}

/// A file's MIME type as reported; `sniffed` is the type that the file's
/// first bytes show, if any.
pub fn mime_text(is_symlink: bool, is_file: bool, sniffed: Option<String>, path: &str) -> (r: String)
    ensures
        r@ == mime_label(
            is_symlink,
            is_file,
            match sniffed {
                Some(m) => Some(m@),
                None => None,
            },
            path@,
        ),
{
    if is_symlink || !is_file {
        return "N/A".to_string();
    }
    match sniffed {
        Some(m) => m,
        None => match guess_mime(path) {
            Some(g) => g,
            None => "application/octet-stream".to_string(),
        },
    }
}

/// The kind of a file as reported: a link before a directory.
pub open spec fn file_kind(is_symlink: bool, is_dir: bool) -> Seq<char> {
    if is_symlink {
        "Symbolic Link"@
    } else if is_dir {
        "Directory"@
    } else {
        "File"@
    }
}

/// The report of a file's information.
pub fn file_info_report(
    path: &str,
    is_symlink: bool,
    is_dir: bool,
    target: Option<&str>,
    size: u64,
    mime: &str,
    modified: &str,
    readonly: bool,
) -> (r: String)
    ensures
        r@ == file_info_text(path@, file_kind(is_symlink, is_dir), match target {
            Some(t) => Some(t@),
            None => None,
        }, spec_format_size(size as nat), mime@, modified@, readonly),
{
    let mut r = "File Information: ".to_string();
    r.append(path);
    r.append("\nType: ");
    if is_symlink {
        r.append("Symbolic Link");
    } else if is_dir {
        r.append("Directory");
    } else {
        r.append("File");
    }
    r.append("\n");
    match target {
        Some(t) => {
            r.append("Target: ");
            r.append(t);
            r.append("\n");
        },
        None => {},
    }
    r.append("Size: ");
    let sz = format_size(size);
    r.append(sz.as_str());
    r.append("\nMIME Type: ");
    r.append(mime);
    r.append("\nModified: ");
    r.append(modified);
    r.append("\nRead-only: ");
    if readonly {
        r.append("true");
    } else {
        r.append("false");
    }
    proof {
        reveal_strlit("");
    }
    assert(r@ =~= file_info_text(path@, file_kind(is_symlink, is_dir), match target {
        Some(t) => Some(t@),
        None => None,
    }, spec_format_size(size as nat), mime@, modified@, readonly));
    r
}

/// The lines a read returns: from `offset` on, at most `length` of them;
/// the whole text when neither is given.
pub open spec fn spec_read_selection(content: Seq<char>, offset: Option<usize>, length: Option<usize>) -> Seq<char> {
    if offset is None && length is None {
        content
    } else {
        let ls = lines(content);
        let o: int = match offset {
            Some(o) => o as int,
            None => 0,
        };
        let rest = if o < ls.len() {
            ls.skip(o)
        } else {
            seq![]
        };
        let n: int = match length {
            Some(l) => l as int,
            None => rest.len() as int,
        };
        join_spec(if n < rest.len() {
            rest.take(n)
        } else {
            rest
        }, "\n"@)
    }
}

/// The part of a file's text that a read returns.
pub fn select_lines(content: &str, offset: Option<usize>, length: Option<usize>) -> (r: String)
    ensures
        r@ == spec_read_selection(content@, offset, length),
{
    if offset.is_none() && length.is_none() {
        return content.to_string();
    }
    let ls = split_lines(content);
    let ghost lv = views(ls@);
    let o = match offset {
        Some(o) => o,
        None => 0,
    };
    let start = if o < ls.len() {
        o
    } else {
        ls.len()
    };
    let total = ls.len();
    let avail = total - start;
    let n = match length {
        Some(l) => if l < avail {
            l
        } else {
            avail
        },
        None => avail,
    };
    let mut picked: Vec<String> = Vec::new();
    let mut k: usize = 0;
    while k < n
        invariant
            lv == views(ls@),
            total == ls@.len(),
            start + n <= total,
            k <= n,
            string_views(picked@) == lv.subrange(start as int, start + k),
        decreases n - k,
    {
        picked.push(ls[start + k].to_string());
        proof {
            assert(lv.subrange(start as int, start + k + 1) =~= lv.subrange(start as int, start + k).push(lv[start + k]));
            assert(string_views(picked@) =~= string_views(picked@.drop_last()).push(picked@.last()@));
        }
        k = k + 1;
    }
    let mut r = String::new();
    push_joined(&mut r, &picked, "\n");
    proof {
        let rest = if (o as int) < lv.len() {
            lv.skip(o as int)
        } else {
            Seq::<Seq<char>>::empty()
        };
        assert(lv.subrange(start as int, start + n) =~= if (n as int) < rest.len() {
            rest.take(n as int)
        } else {
            rest
        });
        reveal_strlit("");
    }
    r
}

/// The report of a created directory.
pub fn created_report(path: &str) -> (r: String)
    ensures
        r@ == "Successfully created directory: "@ + path@,
{
    let mut r = "Successfully created directory: ".to_string();
    r.append(path);
    r
}

/// The report of a move.
pub fn moved_report(source: &str, destination: &str) -> (r: String)
    ensures
        r@ == "Successfully moved "@ + source@ + " to "@ + destination@,
{
    let mut r = "Successfully moved ".to_string();
    r.append(source);
    r.append(" to ");
    r.append(destination);
    r
}

/// The report of a write: the bytes and lines of the content written.
pub fn written_report(content: &str, path: &str) -> (r: String)
    ensures
        r@ == "Successfully wrote "@ + decimal(content.spec_bytes().len()) + " bytes ("@ + decimal(
            lines(content@).len(),
        ) + " lines) to "@ + path@,
{
    let n_lines = split_lines(content).len();
    let mut r = "Successfully wrote ".to_string();
    push_decimal(&mut r, content.as_bytes().len() as u64);
    r.append(" bytes (");
    push_decimal(&mut r, n_lines as u64);
    r.append(" lines) to ");
    r.append(path);
    r
}

/// Tool for creating directories.
pub struct CreateDirectoryTool {
    base_path: PathBuf,
}

impl CreateDirectoryTool {
    /// The directory that the tool's paths are confined to.
    pub closed spec fn base(&self) -> PathBuf {
        self.base_path
    }

    /// A tool rooted at the working directory.
    pub fn new() -> (t: Self)
        ensures
            t.base() == working_dir(),
    {
        CreateDirectoryTool { base_path: path_of(".") }
    }

    /// A tool rooted at `base_path`.
    pub fn with_base_path(base_path: PathBuf) -> (t: Self)
        ensures
            t.base() == base_path,
    {
        CreateDirectoryTool { base_path }
    }

    /// The directory that paths are resolved against.
    pub fn base_path(&self) -> (r: &PathBuf)
        ensures
            *r == self.base(),
    {
        &self.base_path
    }

    /// The tool's name.
    pub fn name(&self) -> (r: &'static str)
        ensures
            r@ == "create_directory"@,
    {
        "create_directory"
    }

    /// The tool's description.
    pub fn description(&self) -> (r: &'static str)
        ensures
            r@ == "Create a new directory. Parent directories will be created automatically if they don't exist."@,
    {
        "Create a new directory. Parent directories will be created automatically if they don't exist."
    }
}

impl Default for CreateDirectoryTool {
    fn default() -> (t: Self)
        ensures
            t.base() == working_dir(),
    {
        CreateDirectoryTool::new()
    }
}

/// Tool for retrieving file metadata.
pub struct FileInfoTool {
    base_path: PathBuf,
}

impl FileInfoTool {
    /// The directory that the tool's paths are confined to.
    pub closed spec fn base(&self) -> PathBuf {
        self.base_path
    }

    /// A tool rooted at the working directory.
    pub fn new() -> (t: Self)
        ensures
            t.base() == working_dir(),
    {
        FileInfoTool { base_path: path_of(".") }
    }

    /// A tool rooted at `base_path`.
    pub fn with_base_path(base_path: PathBuf) -> (t: Self)
        ensures
            t.base() == base_path,
    {
        FileInfoTool { base_path }
    }

    /// The directory that paths are resolved against.
    pub fn base_path(&self) -> (r: &PathBuf)
        ensures
            *r == self.base(),
    {
        &self.base_path
    }

    /// The tool's name.
    pub fn name(&self) -> (r: &'static str)
        ensures
            r@ == "file_info"@,
    {
        "file_info"
    }

    /// The tool's description.
    pub fn description(&self) -> (r: &'static str)
        ensures
            r@ == "Get detailed information about a file including size, type, and modification time."@,
    {
        "Get detailed information about a file including size, type, and modification time."
    }
}

impl Default for FileInfoTool {
    fn default() -> (t: Self)
        ensures
            t.base() == working_dir(),
    {
        FileInfoTool::new()
    }
}

/// Tool for listing directory contents.
pub struct ListDirectoryTool {
    base_path: PathBuf,
}

impl ListDirectoryTool {
    /// The directory that the tool's paths are confined to.
    pub closed spec fn base(&self) -> PathBuf {
        self.base_path
    }

    /// A tool rooted at the working directory.
    pub fn new() -> (t: Self)
        ensures
            t.base() == working_dir(),
    {
        ListDirectoryTool { base_path: path_of(".") }
    }

    /// A tool rooted at `base_path`.
    pub fn with_base_path(base_path: PathBuf) -> (t: Self)
        ensures
            t.base() == base_path,
    {
        ListDirectoryTool { base_path }
    }

    /// The directory that paths are resolved against.
    pub fn base_path(&self) -> (r: &PathBuf)
        ensures
            *r == self.base(),
    {
        &self.base_path
    }

    /// The tool's name.
    pub fn name(&self) -> (r: &'static str)
        ensures
            r@ == "list_directory"@,
    {
        "list_directory"
    }

    /// The tool's description.
    pub fn description(&self) -> (r: &'static str)
        ensures
            r@ == "List the contents of a directory recursively up to a specified depth. Shows files and subdirectories with sizes."@,
    {
        "List the contents of a directory recursively up to a specified depth. Shows files and subdirectories with sizes."
    }
}

impl Default for ListDirectoryTool {
    fn default() -> (t: Self)
        ensures
            t.base() == working_dir(),
    {
        ListDirectoryTool::new()
    }
}

/// Tool for moving or renaming files and directories.
pub struct MoveFileTool {
    base_path: PathBuf,
}

impl MoveFileTool {
    /// The directory that the tool's paths are confined to.
    pub closed spec fn base(&self) -> PathBuf {
        self.base_path
    }

    /// A tool rooted at the working directory.
    pub fn new() -> (t: Self)
        ensures
            t.base() == working_dir(),
    {
        MoveFileTool { base_path: path_of(".") }
    }

    /// A tool rooted at `base_path`.
    pub fn with_base_path(base_path: PathBuf) -> (t: Self)
        ensures
            t.base() == base_path,
    {
        MoveFileTool { base_path }
    }

    /// The directory that paths are resolved against.
    pub fn base_path(&self) -> (r: &PathBuf)
        ensures
            *r == self.base(),
    {
        &self.base_path
    }

    /// The tool's name.
    pub fn name(&self) -> (r: &'static str)
        ensures
            r@ == "move_file"@,
    {
        "move_file"
    }

    /// The tool's description.
    pub fn description(&self) -> (r: &'static str)
        ensures
            r@ == "Move or rename a file or directory to a new location."@,
    {
        "Move or rename a file or directory to a new location."
    }
}

impl Default for MoveFileTool {
    fn default() -> (t: Self)
        ensures
            t.base() == working_dir(),
    {
        MoveFileTool::new()
    }
}

/// Tool for reading file contents.
pub struct ReadFileTool {
    base_path: PathBuf,
}

impl ReadFileTool {
    /// The directory that the tool's paths are confined to.
    pub closed spec fn base(&self) -> PathBuf {
        self.base_path
    }

    /// A tool rooted at the working directory.
    pub fn new() -> (t: Self)
        ensures
            t.base() == working_dir(),
    {
        ReadFileTool { base_path: path_of(".") }
    }

    /// A tool rooted at `base_path`.
    pub fn with_base_path(base_path: PathBuf) -> (t: Self)
        ensures
            t.base() == base_path,
    {
        ReadFileTool { base_path }
    }

    /// The directory that paths are resolved against.
    pub fn base_path(&self) -> (r: &PathBuf)
        ensures
            *r == self.base(),
    {
        &self.base_path
    }

    /// The tool's name.
    pub fn name(&self) -> (r: &'static str)
        ensures
            r@ == "read_file"@,
    {
        "read_file"
    }

    /// The tool's description.
    pub fn description(&self) -> (r: &'static str)
        ensures
            r@ == "Read the contents of a file from the filesystem. Supports reading entire files or specific line ranges."@,
    {
        "Read the contents of a file from the filesystem. Supports reading entire files or specific line ranges."
    }
}

impl Default for ReadFileTool {
    fn default() -> (t: Self)
        ensures
            t.base() == working_dir(),
    {
        ReadFileTool::new()
    }
}

/// Tool for reading multiple files concurrently.
pub struct ReadMultipleFilesTool {
    base_path: PathBuf,
}

impl ReadMultipleFilesTool {
    /// The directory that the tool's paths are confined to.
    pub closed spec fn base(&self) -> PathBuf {
        self.base_path
    }

    /// A tool rooted at the working directory.
    pub fn new() -> (t: Self)
        ensures
            t.base() == working_dir(),
    {
        ReadMultipleFilesTool { base_path: path_of(".") }
    }

    /// A tool rooted at `base_path`.
    pub fn with_base_path(base_path: PathBuf) -> (t: Self)
        ensures
            t.base() == base_path,
    {
        ReadMultipleFilesTool { base_path }
    }

    /// The directory that paths are resolved against.
    pub fn base_path(&self) -> (r: &PathBuf)
        ensures
            *r == self.base(),
    {
        &self.base_path
    }

    /// The tool's name.
    pub fn name(&self) -> (r: &'static str)
        ensures
            r@ == "read_multiple_files"@,
    {
        "read_multiple_files"
    }

    /// The tool's description.
    pub fn description(&self) -> (r: &'static str)
        ensures
            r@ == "Read multiple files concurrently. Returns results for all files, including errors for files that couldn't be read."@,
    {
        "Read multiple files concurrently. Returns results for all files, including errors for files that couldn't be read."
    }
}

impl Default for ReadMultipleFilesTool {
    fn default() -> (t: Self)
        ensures
            t.base() == working_dir(),
    {
        ReadMultipleFilesTool::new()
    }
}

/// Tool for writing content to files.
pub struct WriteFileTool {
    base_path: PathBuf,
}

impl WriteFileTool {
    /// The directory that the tool's paths are confined to.
    pub closed spec fn base(&self) -> PathBuf {
        self.base_path
    }

    /// A tool rooted at the working directory.
    pub fn new() -> (t: Self)
        ensures
            t.base() == working_dir(),
    {
        WriteFileTool { base_path: path_of(".") }
    }

    /// A tool rooted at `base_path`.
    pub fn with_base_path(base_path: PathBuf) -> (t: Self)
        ensures
            t.base() == base_path,
    {
        WriteFileTool { base_path }
    }

    /// The directory that paths are resolved against.
    pub fn base_path(&self) -> (r: &PathBuf)
        ensures
            *r == self.base(),
    {
        &self.base_path
    }

    /// The tool's name.
    pub fn name(&self) -> (r: &'static str)
        ensures
            r@ == "write_file"@,
    {
        "write_file"
    }

    /// The tool's description.
    pub fn description(&self) -> (r: &'static str)
        ensures
            r@ == "Write content to a file. Can either overwrite the file or append to it."@,
    {
        "Write content to a file. Can either overwrite the file or append to it."
    }
}

impl Default for WriteFileTool {
    fn default() -> (t: Self)
        ensures
            t.base() == working_dir(),
    {
        WriteFileTool::new()
    }
}


/// The fields of a file information report, in the order written.
pub open spec fn info_fields(
    path: Seq<char>,
    kind: Seq<char>,
    target: Option<Seq<char>>,
    size: Seq<char>,
    mime: Seq<char>,
    modified: Seq<char>,
    readonly: bool,
) -> Seq<(Seq<char>, Seq<char>)> {
    seq![("File Information"@, path), ("Type"@, kind)] + match target {
        Some(t) => seq![("Target"@, t)],
        None => seq![],
    } + seq![
        ("Size"@, size),
        ("MIME Type"@, mime),
        ("Modified"@, modified),
        ("Read-only"@, if readonly {
            "true"@
        } else {
            "false"@
        }),
    ]
}

proof fn lemma_text_fields_of(fs: Seq<(Seq<char>, Seq<char>)>)
    requires
        forall|i: int| 0 <= i < fs.len() ==> writable_field(#[trigger] fs[i]),
    ensures
        text_fields(field_lines(fs)) == fs,
    decreases fs.len(),
{
    if fs.len() == 0 {
        assert(field_lines(fs) =~= Seq::<Seq<char>>::empty());
        assert(fs =~= Seq::<(Seq<char>, Seq<char>)>::empty());
    } else {
        let init = fs.drop_last();
        assert forall|i: int| 0 <= i < init.len() implies writable_field(#[trigger] init[i]) by {
            assert(init[i] == fs[i]);
        }
        lemma_text_fields_of(init);
        assert(field_lines(fs).drop_last() =~= field_lines(init));
        assert(field_lines(fs).last() == field_line(fs.last()));
        lemma_line_field_of(fs.last());
        assert(init + seq![fs.last()] =~= fs);
    }
}

proof fn lemma_field_line_single(f: (Seq<char>, Seq<char>))
    requires
        writable_field(f),
    ensures
        single_line(field_line(f)),
        field_line(f).len() > 0,
{
    reveal_strlit(": ");
    let l = field_line(f);
    assert forall|j: int| 0 <= j < l.len() implies l[j] != '\n' && l[j] != '\r' by {
        if j < f.0.len() {
            assert(l[j] == f.0[j]);
        } else if j >= f.0.len() + 2 {
            assert(l[j] == f.1[j - f.0.len() - 2]);
        }
    }
}

proof fn lemma_info_tail(size: Seq<char>, mime: Seq<char>, modified: Seq<char>, ro: Seq<char>)
    requires
        single_line(size),
        single_line(mime),
        single_line(modified),
        single_line(ro),
    ensures
        lines(field_line(("Size"@, size)) + "\n"@ + (field_line(("MIME Type"@, mime)) + "\n"@ + (field_line(
            ("Modified"@, modified),
        ) + "\n"@ + field_line(("Read-only"@, ro))))) == seq![
            field_line(("Size"@, size)),
            field_line(("MIME Type"@, mime)),
            field_line(("Modified"@, modified)),
            field_line(("Read-only"@, ro)),
        ],
{
    reveal_strlit("\n");
    reveal_strlit("Size");
    reveal_strlit("MIME Type");
    reveal_strlit("Modified");
    reveal_strlit("Read-only");
    let fs = seq![("Size"@, size), ("MIME Type"@, mime), ("Modified"@, modified), ("Read-only"@, ro)];
    assert forall|i: int| 0 <= i < fs.len() implies writable_field(#[trigger] fs[i]) by {
        assert(single_line(fs[i].0));
        assert forall|j: int| 0 <= j < fs[i].0.len() implies fs[i].0[j] != ':' by {}
    }
    assert(writable_field(fs[0]) && writable_field(fs[1]) && writable_field(fs[2]) && writable_field(fs[3]));
    let l3 = field_line(("Size"@, size));
    let l4 = field_line(("MIME Type"@, mime));
    let l5 = field_line(("Modified"@, modified));
    let l6 = field_line(("Read-only"@, ro));
    lemma_field_line_single(("Read-only"@, ro));
    lemma_index_of_char_none(l6, '\n');
    assert(lines(l6) =~= seq![l6]);
    lemma_field_line_single(("Size"@, size));
    lemma_field_line_single(("MIME Type"@, mime));
    lemma_field_line_single(("Modified"@, modified));
    lemma_lines_cons(l5, l6);
    lemma_lines_cons(l4, l5 + "\n"@ + l6);
    lemma_lines_cons(l3, l4 + "\n"@ + (l5 + "\n"@ + l6));
    assert(lines(l3 + "\n"@ + (l4 + "\n"@ + (l5 + "\n"@ + l6))) =~= seq![l3, l4, l5, l6]);
}

#[verifier::spinoff_prover]
#[verifier::rlimit(100)]
proof fn lemma_info_lines(
    path: Seq<char>,
    kind: Seq<char>,
    target: Option<Seq<char>>,
    size: Seq<char>,
    mime: Seq<char>,
    modified: Seq<char>,
    readonly: bool,
)
    requires
        single_line(path),
        single_line(kind),
        target matches Some(t) ==> single_line(t),
        single_line(size),
        single_line(mime),
        single_line(modified),
    ensures
        lines(file_info_text(path, kind, target, size, mime, modified, readonly)) == field_lines(
            info_fields(path, kind, target, size, mime, modified, readonly),
        ),
{
    reveal_strlit("File Information: ");
    reveal_strlit("File Information");
    reveal_strlit("\nType: ");
    reveal_strlit("Type");
    reveal_strlit("\n");
    reveal_strlit("Target: ");
    reveal_strlit("Target");
    reveal_strlit("Size: ");
    reveal_strlit("Size");
    reveal_strlit("\nMIME Type: ");
    reveal_strlit("MIME Type");
    reveal_strlit("\nModified: ");
    reveal_strlit("Modified");
    reveal_strlit("\nRead-only: ");
    reveal_strlit("Read-only");
    reveal_strlit("true");
    reveal_strlit("false");
    reveal_strlit(": ");
    let fs = info_fields(path, kind, target, size, mime, modified, readonly);
    let ro = if readonly {
        "true"@
    } else {
        "false"@
    };
    assert(single_line(ro));
    assert forall|i: int| 0 <= i < fs.len() implies writable_field(#[trigger] fs[i]) by {
        assert(single_line(fs[i].0));
        assert forall|j: int| 0 <= j < fs[i].0.len() implies fs[i].0[j] != ':' by {}
    }
    assert(writable_field(fs[0]) && writable_field(fs[1]));
    let l1 = field_line(("File Information"@, path));
    let l2 = field_line(("Type"@, kind));
    let l3 = field_line(("Size"@, size));
    let l4 = field_line(("MIME Type"@, mime));
    let l5 = field_line(("Modified"@, modified));
    let l6 = field_line(("Read-only"@, ro));
    let report = file_info_text(path, kind, target, size, mime, modified, readonly);
    let last_part = l3 + "\n"@ + (l4 + "\n"@ + (l5 + "\n"@ + l6));
    lemma_info_tail(size, mime, modified, ro);
    lemma_field_line_single(("File Information"@, path));
    lemma_field_line_single(("Type"@, kind));
    match target {
        Some(t) => {
            let lt = field_line(("Target"@, t));
            assert(writable_field(fs[2]));
            lemma_field_line_single(("Target"@, t));
            assert(report =~= l1 + "\n"@ + (l2 + "\n"@ + (lt + "\n"@ + last_part)));
            lemma_lines_cons(lt, last_part);
            lemma_lines_cons(l2, lt + "\n"@ + last_part);
            lemma_lines_cons(l1, l2 + "\n"@ + (lt + "\n"@ + last_part));
            assert(lines(report) =~= field_lines(fs));
        },
        None => {
            assert(report =~= l1 + "\n"@ + (l2 + "\n"@ + last_part));
            lemma_lines_cons(l2, last_part);
            lemma_lines_cons(l1, l2 + "\n"@ + last_part);
            assert(lines(report) =~= field_lines(fs));
        },
    }
}

/// A file information report reads back as written: its fields, in order,
/// are the path, the kind, the link target when there is one, the size,
/// the MIME type, the modification time and whether it is read-only, when
/// none of these texts breaks a line.
#[verifier::spinoff_prover]
#[verifier::rlimit(100)]
pub proof fn law_file_info_read_back(
    path: Seq<char>,
    kind: Seq<char>,
    target: Option<Seq<char>>,
    size: Seq<char>,
    mime: Seq<char>,
    modified: Seq<char>,
    readonly: bool,
)
    requires
        single_line(path),
        single_line(kind),
        target matches Some(t) ==> single_line(t),
        single_line(size),
        single_line(mime),
        single_line(modified),
    ensures
        text_fields(lines(file_info_text(path, kind, target, size, mime, modified, readonly))) == info_fields(
            path,
            kind,
            target,
            size,
            mime,
            modified,
            readonly,
        ),
{
    reveal_strlit("File Information: ");
    reveal_strlit("File Information");
    reveal_strlit("\nType: ");
    reveal_strlit("Type");
    reveal_strlit("\n");
    reveal_strlit("Target: ");
    reveal_strlit("Target");
    reveal_strlit("Size: ");
    reveal_strlit("Size");
    reveal_strlit("\nMIME Type: ");
    reveal_strlit("MIME Type");
    reveal_strlit("\nModified: ");
    reveal_strlit("Modified");
    reveal_strlit("\nRead-only: ");
    reveal_strlit("Read-only");
    reveal_strlit("true");
    reveal_strlit("false");
    reveal_strlit(": ");
    let fs = info_fields(path, kind, target, size, mime, modified, readonly);
    let ro = if readonly {
        "true"@
    } else {
        "false"@
    };
    assert(single_line(ro));
    assert forall|i: int| 0 <= i < fs.len() implies writable_field(#[trigger] fs[i]) by {
        assert(single_line(fs[i].0));
        assert forall|j: int| 0 <= j < fs[i].0.len() implies fs[i].0[j] != ':' by {}
    }
    assert forall|i: int| 0 <= i < fs.len() implies single_line(#[trigger] field_line(fs[i])) by {
        lemma_field_line_single(fs[i]);
    }
    lemma_info_lines(path, kind, target, size, mime, modified, readonly);
    lemma_text_fields_of(fs);
}


/// Reading a file in two consecutive parts gives what one read from the
/// first part's start gives: the lines of the first part, a line feed,
/// then the lines of the second, when both parts hold lines.
pub proof fn law_read_parts_concatenate(content: Seq<char>, offset: usize, length: usize)
    requires
        length > 0,
        offset + length <= usize::MAX,
        offset + length < lines(content).len(),
    ensures
        spec_read_selection(content, Some(offset), Some(length)) + "\n"@ + spec_read_selection(
            content,
            Some((offset + length) as usize),
            None,
        ) == spec_read_selection(content, Some(offset), None),
{
    let ls = lines(content);
    let rest = ls.skip(offset as int);
    let first = rest.take(length as int);
    let second = ls.skip(offset + length);
    let next = (offset + length) as usize;
    assert(rest =~= first + second);
    assert(spec_read_selection(content, Some(offset), Some(length)) == join_spec(first, "\n"@));
    assert(spec_read_selection(content, Some(next), None) == join_spec(second, "\n"@));
    assert(spec_read_selection(content, Some(offset), None) == join_spec(rest, "\n"@));
    lemma_join_append(first, second, "\n"@);
}

/// A read from line `o`, of at most `l` lines, gives the lines
/// `o .. min(o + l, n)` of the text's `n` lines joined by line feeds
/// (none when `o` is past the end); without a length it gives every line
/// from `o` on; without either it gives the text as it is.
pub proof fn law_read_window(content: Seq<char>, o: usize, l: usize)
    ensures
        ({
            let ls = lines(content);
            let n = ls.len() as int;
            let a = if (o as int) < n { o as int } else { n };
            let b = if (o as int) + (l as int) < n { (o as int) + (l as int) } else { n };
            &&& spec_read_selection(content, Some(o), Some(l)) == join_spec(ls.subrange(a, b), "\n"@)
            &&& spec_read_selection(content, Some(o), None) == join_spec(ls.subrange(a, n), "\n"@)
        }),
        spec_read_selection(content, None, None) == content,
{
    let ls = lines(content);
    let n = ls.len() as int;
    if (o as int) < n {
        let rest = ls.skip(o as int);
        if (l as int) < rest.len() {
            assert(rest.take(l as int) =~= ls.subrange(o as int, o + l));
        } else {
            assert(rest =~= ls.subrange(o as int, n));
        }
        assert(rest =~= ls.subrange(o as int, n));
    } else {
        assert(ls.subrange(n, n) =~= Seq::<Seq<char>>::empty());
    }
}

/// Sizes read as people read them: below 1024 bytes as the plain count,
/// then in KB below 1 MiB, in MB below 1 GiB, and in GB above, each
/// followed by the exact count of bytes.
pub proof fn law_size_units(size: nat)
    ensures
        size < 1024 ==> spec_format_size(size) == decimal(size) + " bytes"@,
        1024 <= size < 1024 * 1024 ==> exists|p: Seq<char>| spec_format_size(size) == p + " KB ("@ + decimal(size)
            + " bytes)"@,
        1024 * 1024 <= size < 1024 * 1024 * 1024 ==> exists|p: Seq<char>| spec_format_size(size) == p + " MB ("@
            + decimal(size) + " bytes)"@,
        1024 * 1024 * 1024 <= size ==> exists|p: Seq<char>| spec_format_size(size) == p + " GB ("@ + decimal(size)
            + " bytes)"@,
{
    if 1024 <= size < 1024 * 1024 {
        let p = fixed2(f64_of(size), 1024);
        assert(spec_format_size(size) == p + " KB ("@ + decimal(size) + " bytes)"@);
    } else if 1024 * 1024 <= size < 1024 * 1024 * 1024 {
        let p = fixed2(f64_of(size), 1024 * 1024);
        assert(spec_format_size(size) == p + " MB ("@ + decimal(size) + " bytes)"@);
    } else if 1024 * 1024 * 1024 <= size {
        let p = fixed2(f64_of(size), 1024 * 1024 * 1024);
        assert(spec_format_size(size) == p + " GB ("@ + decimal(size) + " bytes)"@);
    }
}

/// What a file's information calls it: a link is a link even when it
/// points at a directory; links and directories have no MIME type; a
/// file's type is the one its content shows before the one its name
/// suggests, and `application/octet-stream` when neither shows one.
pub proof fn law_file_kind_and_type(is_symlink: bool, is_dir: bool, is_file: bool, sniffed: Option<Seq<char>>, path: Seq<char>)
    ensures
        is_symlink ==> file_kind(is_symlink, is_dir) == "Symbolic Link"@,
        !is_symlink && is_dir ==> file_kind(is_symlink, is_dir) == "Directory"@,
        !is_symlink && !is_dir ==> file_kind(is_symlink, is_dir) == "File"@,
        (is_symlink || !is_file) ==> mime_label(is_symlink, is_file, sniffed, path) == "N/A"@,
        !is_symlink && is_file ==> (sniffed matches Some(m) ==> mime_label(is_symlink, is_file, sniffed, path) == m),
        !is_symlink && is_file && sniffed is None && mime_guess_first(path) is None ==> mime_label(
            is_symlink,
            is_file,
            sniffed,
            path,
        ) == "application/octet-stream"@,
{
}

} // verus!
