//! Directory listings: the lines of a scanned tree under a line budget
//! shared fairly among entries, the listing report, and its renderings
//! as a tree.

use vstd::prelude::*;
use vstd::string::*;
use vstd::utf8::*;
use crate::text::{
    chars_of, decimal, ends_with, has_prefix, has_suffix, is_ws, join_spec, last_index_of_sub,
    lemma_last_index_of_sub, lines, push_char, push_decimal, push_joined, rfind_str, split_lines,
    starts_with, string_views, trim, trim_spec, trim_start, trim_start_matches, trim_start_matches_spec,
    trim_start_spec, views,
};
use crate::tools::filesystem::{div_round_even, f64_of, f64_value, fixed1, push_fixed1, ListDirectoryTool};
use crate::tools::header::{lemma_lines_cons, single_line, str_equal};
use crate::tools::process::{lemma_lines_join, lemma_single_line_concat};
use crate::text::{all_digits, is_digit, lemma_decimal_value, lemma_index_of_char_none, trim_end_spec};

verus! {

/// The most lines a listing may hold.
pub const HARD_MAX_LINES: usize = 10000;

/// An entry found while scanning a directory: its name, whether it is a
/// directory, a file's size, the children scanned below a directory,
/// and how many entries lie below it.
#[derive(Debug)]
pub struct EntryInfo {
    pub name: String,
    pub is_dir: bool,
    pub size: Option<u64>,
    pub children: Vec<EntryInfo>,
    pub child_count: usize,
}

/// A file's size in a listing: bytes below 1 KiB, else KB below 1 MiB,
/// else MB, with one decimal.
pub open spec fn size_label(size: Option<u64>) -> Seq<char> {
    let s: nat = match size {
        Some(v) => v as nat,
        None => 0,
    };
    if s < 1024 {
        decimal(s) + " B"@
    } else if s < 1024 * 1024 {
        fixed1(f64_of(s), 1024) + " KB"@
    } else {
        fixed1(f64_of(s), 1024 * 1024) + " MB"@
    }
}

fn push_size_label(out: &mut String, size: Option<u64>)
    ensures
        final(out)@ == old(out)@ + size_label(size),
{
    let s = match size {
        Some(v) => v,
        None => 0,
    };
    if s < 1024 {
        push_decimal(out, s);
        out.append(" B");
    } else if s < 1024 * 1024 {
        push_fixed1(out, f64_value(s), 1024);
        out.append(" KB");
    } else {
        push_fixed1(out, f64_value(s), 1024 * 1024);
        out.append(" MB");
    }
    assert(out@ =~= old(out)@ + size_label(size));
}

/// Each entry's fair share of a budget: the budget divided among the
/// entries, at least one line.
pub open spec fn share(budget: nat, n: nat) -> nat {
    if n > 0 && budget / n > 1 {
        budget / n
    } else {
        1
    }
}

/// The budget of the entry at `i` when `used` lines are spent: what is
/// left for the last entry; for another, its share of what is left with
/// one line kept back for the note of the entries that may not fit.
pub open spec fn entry_budget(i: nat, n: nat, budget: nat, used: nat, per: nat) -> nat {
    let left: nat = if used < budget {
        (budget - used) as nat
    } else {
        0
    };
    let spare: nat = if left > 0 {
        (left - 1) as nat
    } else {
        0
    };
    if i + 1 == n {
        left
    } else if per < spare {
        per
    } else {
        spare
    }
}

/// A line of a listing, tagged with whether it shows an entry (a
/// directory or a file) rather than a note of what was left out.
pub type Tagged = (bool, Seq<char>);

/// The text of tagged lines.
pub open spec fn texts(ts: Seq<Tagged>) -> Seq<Seq<char>> {
    ts.map_values(|t: Tagged| t.1)
}

/// The number of tagged lines that show an entry.
pub open spec fn entry_count(ts: Seq<Tagged>) -> nat
    decreases ts.len(),
{
    if ts.len() == 0 {
        0
    } else {
        entry_count(ts.drop_last()) + if ts.last().0 {
            1nat
        } else {
            0nat
        }
    }
}

/// The lines of a directory's entries within a budget.
pub open spec fn listing_lines(entries: Seq<EntryInfo>, prefix: Seq<char>, budget: nat) -> Seq<Seq<char>> {
    texts(listing_tagged(entries, prefix, budget))
}

/// The tagged lines of a directory's entries within a budget.
pub open spec fn listing_tagged(entries: Seq<EntryInfo>, prefix: Seq<char>, budget: nat) -> Seq<Tagged>
    decreases entries, entries.len() + 1,
{
    if budget == 0 || entries.len() == 0 {
        seq![]
    } else {
        listing_from(entries, 0, prefix, budget, share(budget, entries.len()), seq![])
    }
}

/// The tagged lines of the entries from `i` on, after the lines `out`:
/// when only one line is left and more than one entry, a note of how many
/// entries are left, so that the note too is within the budget; a
/// directory with its children when its budget has room for them, else a
/// note of how many it holds when that fits its budget; a file with its
/// size.
pub open spec fn listing_from(
    entries: Seq<EntryInfo>,
    i: nat,
    prefix: Seq<char>,
    budget: nat,
    per: nat,
    out: Seq<Tagged>,
) -> Seq<Tagged>
    decreases entries, entries.len() - i,
{
    if i >= entries.len() {
        out
    } else if out.len() + 1 >= budget && i + 1 < entries.len() {
        out.push((false, prefix + "[MORE] ... "@ + decimal((entries.len() - i) as nat) + " more entries"@))
    } else if out.len() >= budget {
        out
    } else {
        let e = entries[i as int];
        let eb = entry_budget(i, entries.len(), budget, out.len(), per);
        let next = if e.is_dir {
            let o1 = out.push((true, prefix + "[DIR]  "@ + e.name@ + "/"@));
            if eb > 1 && e.children@.len() > 0 {
                proof {
                    assert(decreases_to!(entries => entries[i as int]));
                    assert(decreases_to!(entries[i as int] => entries[i as int].children));
                    assert(decreases_to!(entries[i as int].children => entries[i as int].children@));
                }
                o1 + listing_tagged(e.children@, prefix + "  "@, (eb - 1) as nat)
            } else if e.children@.len() > 0 || e.child_count > 0 {
                let count: nat = if e.children@.len() == 0 {
                    e.child_count as nat
                } else {
                    e.children@.len()
                };
                if count > 0 && o1.len() < out.len() + eb {
                    o1.push((false, prefix + "  [MORE] ... "@ + decimal(count) + " items"@))
                } else {
                    o1
                }
            } else {
                o1
            }
        } else {
            out.push((true, prefix + "[FILE] "@ + e.name@ + " ("@ + size_label(e.size) + ")"@))
        };
        listing_from(entries, i + 1, prefix, budget, per, next)
    }
}

/// A listed file's size reads in bytes below 1 KiB, in KB below 1 MiB,
/// and in MB above; a size that is not known reads as 0 bytes.
pub proof fn law_size_label(size: u64)
    ensures
        size < 1024 ==> size_label(Some(size)) == decimal(size as nat) + " B"@,
        1024 <= size < 1024 * 1024 ==> exists|v: Seq<char>| size_label(Some(size)) == v + " KB"@,
        1024 * 1024 <= size ==> exists|v: Seq<char>| size_label(Some(size)) == v + " MB"@,
        size_label(None) == "0 B"@,
{
    reveal_strlit("0");
    reveal_strlit(" B");
    reveal_strlit("0 B");
    assert(decimal(0) == "0"@);
    assert("0"@ + " B"@ =~= "0 B"@);
    let s = size as nat;
    if 1024 <= size < 1024 * 1024 {
        assert(size_label(Some(size)) == fixed1(f64_of(s), 1024) + " KB"@);
    } else if 1024 * 1024 <= size {
        assert(size_label(Some(size)) == fixed1(f64_of(s), 1024 * 1024) + " MB"@);
    }
}

/// The tagged line of a file in a listing.
pub open spec fn file_tagged(prefix: Seq<char>, e: EntryInfo) -> Tagged {
    (true, prefix + "[FILE] "@ + e.name@ + " ("@ + size_label(e.size) + ")"@)
}

/// The tagged lines of files, in order.
pub open spec fn files_tagged(prefix: Seq<char>, es: Seq<EntryInfo>) -> Seq<Tagged> {
    es.map_values(|e: EntryInfo| file_tagged(prefix, e))
}

/// Listing a directory of files: when the budget has room for every
/// file, each file is listed once, in order, with its size and nothing
/// else; when it has not, the first `budget - 1` files are listed and the
/// last line says how many entries were left out, so that the listing
/// fills the budget exactly.
pub proof fn law_flat_listing(entries: Seq<EntryInfo>, prefix: Seq<char>, budget: nat)
    requires
        forall|k: int| 0 <= k < entries.len() ==> !(#[trigger] entries[k]).is_dir,
    ensures
        entries.len() <= budget ==> listing_tagged(entries, prefix, budget) == files_tagged(prefix, entries),
        budget >= 1 && entries.len() > budget ==> listing_tagged(entries, prefix, budget) == files_tagged(
            prefix,
            entries.take(budget - 1),
        ).push((false, prefix + "[MORE] ... "@ + decimal((entries.len() - (budget - 1)) as nat) + " more entries"@)),
{
    if budget > 0 && entries.len() > 0 {
        assert(files_tagged(prefix, entries.take(0)) =~= Seq::<Tagged>::empty());
        lemma_flat_from(entries, 0, prefix, budget, share(budget, entries.len()));
    } else if entries.len() == 0 {
        assert(files_tagged(prefix, entries) =~= Seq::<Tagged>::empty());
    }
}

proof fn lemma_flat_from(entries: Seq<EntryInfo>, i: nat, prefix: Seq<char>, budget: nat, per: nat)
    requires
        forall|k: int| 0 <= k < entries.len() ==> !(#[trigger] entries[k]).is_dir,
        i <= entries.len(),
        budget >= 1,
        entries.len() > budget ==> i <= budget - 1,
    ensures
        entries.len() <= budget ==> listing_from(
            entries,
            i,
            prefix,
            budget,
            per,
            files_tagged(prefix, entries.take(i as int)),
        ) == files_tagged(prefix, entries),
        entries.len() > budget ==> listing_from(entries, i, prefix, budget, per, files_tagged(prefix, entries.take(i as int)))
            == files_tagged(prefix, entries.take(budget - 1)).push(
            (false, prefix + "[MORE] ... "@ + decimal((entries.len() - (budget - 1)) as nat) + " more entries"@),
        ),
    decreases entries.len() - i,
{
    let out = files_tagged(prefix, entries.take(i as int));
    assert(out.len() == i);
    if i >= entries.len() {
        assert(entries.take(i as int) =~= entries);
    } else if out.len() + 1 >= budget && i + 1 < entries.len() {
        assert(i == budget - 1);
    } else {
        let e = entries[i as int];
        assert(!e.is_dir);
        let next = out.push(file_tagged(prefix, e));
        assert(next =~= files_tagged(prefix, entries.take(i as int + 1)));
        lemma_flat_from(entries, i + 1, prefix, budget, per);
    }
}

fn line_of(prefix: &str, a: &str, b: &str, c: &str) -> (s: String)
    ensures
        s@ == prefix@ + a@ + b@ + c@,
{
    let mut s = prefix.to_string();
    s.append(a);
    s.append(b);
    s.append(c);
    s
}

/// The lines of a directory's entries within a budget of lines, shared
/// fairly among them, and how many there are.
pub fn format_entries(entries: &Vec<EntryInfo>, prefix: &str, budget: usize) -> (r: (Vec<String>, usize))
    ensures
        string_views(r.0@) == listing_lines(entries@, prefix@, budget as nat),
        r.1 == r.0@.len(),
        r.0@.len() <= budget,
    decreases entries@,
{
    proof {
        law_listing_within_budget(entries@, prefix@, budget as nat);
    }
    let n = entries.len();
    if budget == 0 || n == 0 {
        let empty: Vec<String> = Vec::new();
        assert(string_views(empty@) =~= texts(Seq::<Tagged>::empty()));
        return (empty, 0);
    }
    let per = if budget / n > 1 {
        budget / n
    } else {
        1
    };
    let ghost target = listing_tagged(entries@, prefix@, budget as nat);
    let ghost mut tagged: Seq<Tagged> = seq![];
    let mut output: Vec<String> = Vec::new();
    let mut i: usize = 0;
    let mut done = false;
    assert(string_views(output@) =~= texts(tagged));
    while i < n && !done
        invariant
            n == entries@.len(),
            n > 0,
            budget > 0,
            per == share(budget as nat, n as nat),
            i <= n,
            target == listing_tagged(entries@, prefix@, budget as nat),
            string_views(output@) == texts(tagged),
            output@.len() == tagged.len(),
            done ==> tagged == target,
            !done ==> listing_from(entries@, i as nat, prefix@, budget as nat, per as nat, tagged) == target,
        decreases n - i + if done {
            0int
        } else {
            1int
        },
    {
        let ghost before = tagged;
        let ghost ov = string_views(output@);
        if output.len() >= budget - 1 && i + 1 < n {
            let mut line = prefix.to_string();
            line.append("[MORE] ... ");
            push_decimal(&mut line, (n - i) as u64);
            line.append(" more entries");
            output.push(line);
            proof {
                tagged = before.push((false, line@));
                assert(string_views(output@) =~= ov.push(line@));
                assert(texts(tagged) =~= texts(before).push(line@));
            }
            done = true;
        } else if output.len() >= budget {
            done = true;
        } else {
            let e = &entries[i];
            let used = output.len();
            let left = budget - used;
            let eb = if i + 1 == n {
                left
            } else if per < left - 1 {
                per
            } else {
                left - 1
            };
            assert(eb == entry_budget(i as nat, n as nat, budget as nat, before.len(), per as nat));
            if e.is_dir {
                let dir_line = line_of(prefix, "[DIR]  ", e.name.as_str(), "/");
                output.push(dir_line);
                proof {
                    tagged = before.push((true, dir_line@));
                    assert(string_views(output@) =~= ov.push(dir_line@));
                    assert(texts(tagged) =~= texts(before).push(dir_line@));
                }
                let ghost o1 = tagged;
                let ghost ov1 = string_views(output@);
                if eb > 1 && e.children.len() > 0 {
                    let mut child_prefix = prefix.to_string();
                    child_prefix.append("  ");
                    let (mut child_output, _) = format_entries(&e.children, child_prefix.as_str(), eb - 1);
                    let ghost ct = listing_tagged(e.children@, child_prefix@, (eb - 1) as nat);
                    let ghost cv = string_views(child_output@);
                    output.append(&mut child_output);
                    proof {
                        tagged = o1 + ct;
                        assert(texts(tagged) =~= texts(o1) + texts(ct));
                    }
                    assert(string_views(output@) =~= ov1 + cv);
                } else if e.children.len() > 0 || e.child_count > 0 {
                    let count = if e.children.len() == 0 {
                        e.child_count
                    } else {
                        e.children.len()
                    };
                    if count > 0 && output.len() < used + eb {
                        let mut more = prefix.to_string();
                        more.append("  [MORE] ... ");
                        push_decimal(&mut more, count as u64);
                        more.append(" items");
                        output.push(more);
                        proof {
                            tagged = o1.push((false, more@));
                            assert(string_views(output@) =~= ov1.push(more@));
                            assert(texts(tagged) =~= texts(o1).push(more@));
                        }
                    }
                }
            } else {
                let mut file_line = line_of(prefix, "[FILE] ", e.name.as_str(), " (");
                push_size_label(&mut file_line, e.size);
                file_line.append(")");
                output.push(file_line);
                proof {
                    tagged = before.push((true, file_line@));
                    assert(string_views(output@) =~= ov.push(file_line@));
                    assert(texts(tagged) =~= texts(before).push(file_line@));
                }
            }
            i = i + 1;
        }
    }
    let count = output.len();
    (output, count)
}

proof fn lemma_entry_count_push(ts: Seq<Tagged>, t: Tagged)
    ensures
        entry_count(ts.push(t)) == entry_count(ts) + if t.0 {
            1nat
        } else {
            0nat
        },
{
    assert(ts.push(t).drop_last() =~= ts);
}

proof fn lemma_entry_count_concat(a: Seq<Tagged>, b: Seq<Tagged>)
    ensures
        entry_count(a + b) == entry_count(a) + entry_count(b),
    decreases b.len(),
{
    if b.len() == 0 {
        assert(a + b =~= a);
    } else {
        assert((a + b).drop_last() =~= a + b.drop_last());
        lemma_entry_count_concat(a, b.drop_last());
    }
}

proof fn lemma_entry_count_le_len(ts: Seq<Tagged>)
    ensures
        entry_count(ts) <= ts.len(),
    decreases ts.len(),
{
    if ts.len() > 0 {
        lemma_entry_count_le_len(ts.drop_last());
    }
}

/// A listing holds at most `budget` lines, however deep the tree: the
/// notes of what was left out are counted within the budget.
pub proof fn law_listing_within_budget(entries: Seq<EntryInfo>, prefix: Seq<char>, budget: nat)
    ensures
        listing_lines(entries, prefix, budget).len() <= budget,
        entry_count(listing_tagged(entries, prefix, budget)) <= budget,
    decreases entries, entries.len() + 1,
{
    if budget > 0 && entries.len() > 0 {
        lemma_listing_from_within(entries, 0, prefix, budget, share(budget, entries.len()), seq![]);
    }
    lemma_entry_count_le_len(listing_tagged(entries, prefix, budget));
}

proof fn lemma_listing_from_within(
    entries: Seq<EntryInfo>,
    i: nat,
    prefix: Seq<char>,
    budget: nat,
    per: nat,
    out: Seq<Tagged>,
)
    requires
        per >= 1,
        out.len() <= budget,
        i < entries.len() ==> out.len() < budget,
    ensures
        listing_from(entries, i, prefix, budget, per, out).len() <= budget,
    decreases entries, entries.len() - i,
{
    if i >= entries.len() {
    } else if out.len() + 1 >= budget && i + 1 < entries.len() {
    } else if out.len() >= budget {
    } else {
        let e = entries[i as int];
        let eb = entry_budget(i, entries.len(), budget, out.len(), per);
        assert(eb >= 1);
        assert(out.len() + eb <= budget);
        assert(i + 1 < entries.len() ==> out.len() + eb < budget);
        let next = if e.is_dir {
            let o1 = out.push((true, prefix + "[DIR]  "@ + e.name@ + "/"@));
            if eb > 1 && e.children@.len() > 0 {
                assert(decreases_to!(entries => entries[i as int]));
                assert(decreases_to!(entries[i as int] => entries[i as int].children));
                assert(decreases_to!(entries[i as int].children => entries[i as int].children@));
                let ct = listing_tagged(e.children@, prefix + "  "@, (eb - 1) as nat);
                law_listing_within_budget(e.children@, prefix + "  "@, (eb - 1) as nat);
                assert(ct.len() <= eb - 1);
                o1 + ct
            } else if e.children@.len() > 0 || e.child_count > 0 {
                let count: nat = if e.children@.len() == 0 {
                    e.child_count as nat
                } else {
                    e.children@.len()
                };
                if count > 0 && o1.len() < out.len() + eb {
                    o1.push((false, prefix + "  [MORE] ... "@ + decimal(count) + " items"@))
                } else {
                    o1
                }
            } else {
                o1
            }
        } else {
            out.push((true, prefix + "[FILE] "@ + e.name@ + " ("@ + size_label(e.size) + ")"@))
        };
        assert(next.len() <= out.len() + eb);
        assert(listing_from(entries, i, prefix, budget, per, out) == listing_from(entries, i + 1, prefix, budget, per, next));
        lemma_listing_from_within(entries, i + 1, prefix, budget, per, next);
    }
}

/// The largest line budget a caller may ask for.
pub fn check_max_lines(max_lines: Option<usize>) -> (r: Result<usize, String>)
    ensures
        match max_lines {
            Some(m) => if m > HARD_MAX_LINES {
                r matches Err(e) && e@ == "max_lines ("@ + decimal(m as nat) + ") exceeds maximum allowed value (10000)"@
            } else {
                r == Ok::<usize, String>(m)
            },
            None => r == Ok::<usize, String>(HARD_MAX_LINES),
        },
{
    match max_lines {
        Some(m) => if m > HARD_MAX_LINES {
            let mut e = "max_lines (".to_string();
            push_decimal(&mut e, m as u64);
            e.append(") exceeds maximum allowed value (10000)");
            Err(e)
        } else {
            Ok(m)
        },
        None => Ok(HARD_MAX_LINES),
    }
}

/// The line budget of a listing of `path`, checked in order: the path
/// must be a directory, then the budget within the limit.
pub fn listing_budget(path_shown: &str, is_dir: bool, max_lines: Option<usize>) -> (r: Result<usize, String>)
    ensures
        !is_dir ==> (r matches Err(e) && e@ == path_shown@ + " is not a directory"@),
        is_dir ==> match max_lines {
            Some(m) => if m > HARD_MAX_LINES {
                r matches Err(e) && e@ == "max_lines ("@ + decimal(m as nat) + ") exceeds maximum allowed value (10000)"@
            } else {
                r == Ok::<usize, String>(m)
            },
            None => r == Ok::<usize, String>(HARD_MAX_LINES),
        },
{
    if !is_dir {
        let mut e = path_shown.to_string();
        e.append(" is not a directory");
        return Err(e);
    }
    check_max_lines(max_lines)
}

/// The report of a listing: a note for an empty directory, else a
/// heading with the depth, then the lines.
pub open spec fn listing_text(path: Seq<char>, depth: nat, ls: Seq<Seq<char>>) -> Seq<char> {
    if ls.len() == 0 {
        "Directory "@ + path + " is empty"@
    } else {
        "Contents of "@ + path + " (depth="@ + decimal(depth) + "):\n"@ + join_spec(ls, "\n"@)
    }
}

/// The report of a listing.
pub fn listing_report(path: &str, depth: usize, ls: &Vec<String>) -> (r: String)
    ensures
        r@ == listing_text(path@, depth as nat, string_views(ls@)),
{
    if ls.len() == 0 {
        let mut r = "Directory ".to_string();
        r.append(path);
        r.append(" is empty");
        return r;
    }
    let mut r = "Contents of ".to_string();
    r.append(path);
    r.append(" (depth=");
    push_decimal(&mut r, depth as u64);
    r.append("):\n");
    push_joined(&mut r, ls, "\n");
    r
}

/// The color of a file name by its lowered extension: source code green,
/// configuration yellow, documents cyan, archives red, images magenta,
/// scripts and executables bold green.
pub open spec fn extension_color(e: Seq<char>) -> Option<Seq<char>> {
    if e == "rs"@ || e == "py"@ || e == "js"@ || e == "ts"@ || e == "go"@ || e == "c"@ || e == "cpp"@ || e == "h"@ || e == "java"@ || e == "rb"@ || e == "php"@ {
        Some("\x1b[32m"@)
    } else if e == "json"@ || e == "yaml"@ || e == "yml"@ || e == "toml"@ || e == "xml"@ || e == "ini"@ || e == "cfg"@ || e == "conf"@ {
        Some("\x1b[33m"@)
    } else if e == "md"@ || e == "txt"@ || e == "rst"@ || e == "doc"@ || e == "pdf"@ {
        Some("\x1b[36m"@)
    } else if e == "zip"@ || e == "tar"@ || e == "gz"@ || e == "bz2"@ || e == "xz"@ || e == "rar"@ || e == "7z"@ {
        Some("\x1b[31m"@)
    } else if e == "png"@ || e == "jpg"@ || e == "jpeg"@ || e == "gif"@ || e == "svg"@ || e == "ico"@ || e == "webp"@ {
        Some("\x1b[35m"@)
    } else if e == "sh"@ || e == "bash"@ || e == "zsh"@ || e == "exe"@ || e == "bin"@ {
        Some("\x1b[1;32m"@)
    } else {
        None
    }
}

fn extension_color_of(e: &str) -> (r: Option<&'static str>)
    ensures
        match r {
            Some(c) => extension_color(e@) == Some(c@),
            None => extension_color(e@) is None,
        },
{
    if str_equal(e, "rs") || str_equal(e, "py") || str_equal(e, "js") || str_equal(e, "ts") || str_equal(e, "go") || str_equal(e, "c") || str_equal(e, "cpp") || str_equal(e, "h") || str_equal(e, "java") || str_equal(e, "rb") || str_equal(e, "php") {
        Some("\x1b[32m")
    } else if str_equal(e, "json") || str_equal(e, "yaml") || str_equal(e, "yml") || str_equal(e, "toml") || str_equal(e, "xml") || str_equal(e, "ini") || str_equal(e, "cfg") || str_equal(e, "conf") {
        Some("\x1b[33m")
    } else if str_equal(e, "md") || str_equal(e, "txt") || str_equal(e, "rst") || str_equal(e, "doc") || str_equal(e, "pdf") {
        Some("\x1b[36m")
    } else if str_equal(e, "zip") || str_equal(e, "tar") || str_equal(e, "gz") || str_equal(e, "bz2") || str_equal(e, "xz") || str_equal(e, "rar") || str_equal(e, "7z") {
        Some("\x1b[31m")
    } else if str_equal(e, "png") || str_equal(e, "jpg") || str_equal(e, "jpeg") || str_equal(e, "gif") || str_equal(e, "svg") || str_equal(e, "ico") || str_equal(e, "webp") {
        Some("\x1b[35m")
    } else if str_equal(e, "sh") || str_equal(e, "bash") || str_equal(e, "zsh") || str_equal(e, "exe") || str_equal(e, "bin") {
        Some("\x1b[1;32m")
    } else {
        None
    }
}

/// `s` with ASCII capitals lowered and every other character kept.
pub open spec fn ascii_lower(s: Seq<char>) -> Seq<char> {
    s.map_values(|c: char| if 'A' <= c && c <= 'Z' { ((c as u32) + 32) as char } else { c })
}

fn ascii_lower_of(s: &str) -> (r: String)
    ensures
        r@ == ascii_lower(s@),
{
    let cs = chars_of(s);
    let mut r = String::new();
    let mut i: usize = 0;
    while i < cs.len()
        invariant
            cs@ == s@,
            i <= cs@.len(),
            r@ == ascii_lower(s@).take(i as int),
        decreases cs@.len() - i,
    {
        let c = cs[i];
        let l = if 'A' <= c && c <= 'Z' {
            char_from_u32_ascii((c as u32) + 32)
        } else {
            c
        };
        push_char(&mut r, l);
        assert(r@ =~= ascii_lower(s@).take(i + 1));
        i = i + 1;
    }
    assert(ascii_lower(s@).take(cs@.len() as int) =~= ascii_lower(s@));
    r
}

/// The character with an ASCII code.
fn char_from_u32_ascii(u: u32) -> (c: char)
    requires
        0x41 + 32 <= u <= 0x5a + 32,
    ensures
        c == u as char,
{
    if u == 0x61 { 'a' } else if u == 0x62 { 'b' } else if u == 0x63 { 'c' } else if u == 0x64 { 'd' }
    else if u == 0x65 { 'e' } else if u == 0x66 { 'f' } else if u == 0x67 { 'g' } else if u == 0x68 { 'h' }
    else if u == 0x69 { 'i' } else if u == 0x6a { 'j' } else if u == 0x6b { 'k' } else if u == 0x6c { 'l' }
    else if u == 0x6d { 'm' } else if u == 0x6e { 'n' } else if u == 0x6f { 'o' } else if u == 0x70 { 'p' }
    else if u == 0x71 { 'q' } else if u == 0x72 { 'r' } else if u == 0x73 { 's' } else if u == 0x74 { 't' }
    else if u == 0x75 { 'u' } else if u == 0x76 { 'v' } else if u == 0x77 { 'w' } else if u == 0x78 { 'x' }
    else if u == 0x79 { 'y' } else { 'z' }
}

/// The extension of a file name: what follows its last dot, or the whole
/// name when it has none.
pub open spec fn extension(name: Seq<char>) -> Seq<char> {
    match last_index_of_sub(name, "."@) {
        Some(i) => name.skip(i + 1),
        None => name,
    }
}

/// A file name colored by its extension; lock files are dimmed. Lowering
/// only ASCII capitals decides the same as full lowering: no other letter
/// lowers to a listed extension.
pub open spec fn colorize(name: Seq<char>) -> Seq<char> {
    match extension_color(ascii_lower(extension(name))) {
        Some(c) => c + name + "\x1b[0m"@,
        None => if has_suffix(name, ".lock"@) || has_suffix(name, "-lock.json"@) {
            "\x1b[2m"@ + name + "\x1b[0m"@
        } else {
            name
        },
    }
}

/// Append a file name colored by its extension.
pub fn push_colorized(out: &mut String, name: &str)
    ensures
        final(out)@ == old(out)@ + colorize(name@),
{
    proof {
        reveal_strlit(".");
        lemma_last_index_of_sub(name@, "."@);
    }
    let ext = match rfind_str(name, ".") {
        Some(i) => {
            let n = name.unicode_len();
            let e = name.substring_char(i + 1, n);
            assert(e@ =~= name@.skip(i + 1));
            e
        },
        None => name,
    };
    let lowered = ascii_lower_of(ext);
    match extension_color_of(lowered.as_str()) {
        Some(c) => {
            out.append(c);
            out.append(name);
            out.append("\x1b[0m");
        },
        None => if ends_with(name, ".lock") || ends_with(name, "-lock.json") {
            out.append("\x1b[2m");
            out.append(name);
            out.append("\x1b[0m");
        } else {
            out.append(name);
        },
    }
    assert(out@ =~= old(out)@ + colorize(name@));
}

/// How deep a line of a listing sits: half the bytes of its leading white
/// space.
pub open spec fn indent_depth(line: Seq<char>) -> nat {
    ((encode_utf8(line).len() - encode_utf8(trim_start_spec(line)).len()) / 2) as nat
}

proof fn lemma_trim_start_bytes(s: Seq<char>)
    ensures
        encode_utf8(trim_start_spec(s)).len() <= encode_utf8(s).len(),
    decreases s.len(),
{
    if s.len() > 0 && is_ws(s[0]) {
        lemma_trim_start_bytes(s.drop_first());
    }
}

fn indent_depth_of(line: &str) -> (d: usize)
    ensures
        d == indent_depth(line@),
{
    let all = line.as_bytes().len();
    let rest = trim_start(line).as_bytes().len();
    proof {
        lemma_trim_start_bytes(line@);
    }
    (all - rest) / 2
}

/// The entries of a listing's lines: each line's depth and trimmed text.
pub open spec fn tree_entries(ls: Seq<Seq<char>>) -> Seq<(nat, Seq<char>)> {
    ls.map_values(|l: Seq<char>| (indent_depth(l), trim_spec(l)))
}

/// The first entry from `j` on at depth `d` or above.
pub open spec fn first_at_most(es: Seq<(nat, Seq<char>)>, j: int, d: nat) -> Option<int>
    decreases es.len() - j,
{
    if j < 0 || j >= es.len() {
        None
    } else if es[j].0 <= d {
        Some(j)
    } else {
        first_at_most(es, j + 1, d)
    }
}

proof fn lemma_first_at_most(es: Seq<(nat, Seq<char>)>, j: int, d: nat)
    ensures
        first_at_most(es, j, d) matches Some(x) ==> j <= x < es.len() && es[x].0 <= d,
    decreases es.len() - j,
{
    if 0 <= j < es.len() && es[j].0 > d {
        lemma_first_at_most(es, j + 1, d);
    }
}

/// Whether the entry at `i` is the last of its siblings: the next entry
/// at its depth or above is above it, or there is none.
pub open spec fn last_at_depth(es: Seq<(nat, Seq<char>)>, i: int) -> bool {
    match first_at_most(es, i + 1, es[i].0) {
        Some(j) => es[j].0 < es[i].0,
        None => true,
    }
}

/// Whether an entry from `j` on sits at depth `d`.
pub open spec fn depth_follows(es: Seq<(nat, Seq<char>)>, j: int, d: nat) -> bool
    decreases es.len() - j,
{
    if j < 0 || j >= es.len() {
        false
    } else {
        es[j].0 == d || depth_follows(es, j + 1, d)
    }
}

/// The guide of the entry at `i` for its first `n` depths: a bar where a
/// later entry sits at that depth, spaces otherwise.
pub open spec fn tree_guide(es: Seq<(nat, Seq<char>)>, i: int, n: nat, bar: Seq<char>) -> Seq<char>
    decreases n,
{
    if n == 0 {
        seq![]
    } else {
        tree_guide(es, i, (n - 1) as nat, bar) + if depth_follows(es, i + 1, (n - 1) as nat) {
            bar
        } else {
            "    "@
        }
    }
}

/// The rest of a file entry after its tag, trimmed.
pub open spec fn file_rest(content: Seq<char>) -> Seq<char> {
    trim_spec(trim_start_matches_spec(content, "[FILE]"@))
}

/// A file entry's name and size, when its text holds ` (`: what comes
/// before the last ` (`, and what lies between it and the final
/// character.
pub open spec fn file_parts(rest: Seq<char>) -> Option<(Seq<char>, Seq<char>)> {
    match last_index_of_sub(rest, " ("@) {
        Some(p) => Some((rest.take(p), rest.subrange(p + 2, rest.len() - 1))),
        None => None,
    }
}

/// A file entry's text can be cut around its size: the last ` (` leaves
/// at least one character after it, and the final character is ASCII.
pub open spec fn file_entry_ok(content: Seq<char>) -> bool {
    has_prefix(content, "[FILE]"@) ==> match last_index_of_sub(file_rest(content), " ("@) {
        Some(p) => p + 3 <= file_rest(content).len() && (file_rest(content).last() as u32) < 0x80,
        None => true,
    }
}

/// Every entry of a listing can be rendered.
pub open spec fn tree_ok(output: Seq<char>) -> bool {
    forall|j: int| 1 <= j < lines(output).len() ==> #[trigger] file_entry_ok(trim_spec(lines(output)[j]))
}

/// The text of an entry after its connector: a directory's name, a file's
/// name and size, or the text as it is; with ANSI colors, directories in
/// bold blue, files by extension, notes dimmed.
pub open spec fn entry_text(ansi: bool, content: Seq<char>) -> Seq<char> {
    if has_prefix(content, "[DIR]"@) {
        let name = trim_spec(trim_start_matches_spec(content, "[DIR]"@));
        if ansi {
            "\x1b[1;34m"@ + name + "\x1b[0m"@
        } else {
            " "@ + name
        }
    } else if has_prefix(content, "[FILE]"@) {
        let rest = file_rest(content);
        match file_parts(rest) {
            Some((name, size)) => if ansi {
                colorize(name) + " \x1b[2m"@ + size + "\x1b[0m"@
            } else {
                " "@ + name + " ("@ + size + ")"@
            },
            None => if ansi {
                colorize(rest)
            } else {
                " "@ + rest
            },
        }
    } else if ansi && has_prefix(content, "..."@) {
        "\x1b[2m"@ + content + "\x1b[0m"@
    } else if ansi {
        content
    } else {
        " "@ + content
    }
}

/// The row of the entry at `i`: its guide, its connector, its text.
pub open spec fn tree_row(ansi: bool, es: Seq<(nat, Seq<char>)>, i: int) -> Seq<char> {
    let bar = if ansi {
        "\x1b[2m│\x1b[0m   "@
    } else {
        "│   "@
    };
    let connector = if last_at_depth(es, i) {
        if ansi {
            "\x1b[2m└──\x1b[0m "@
        } else {
            "└── "@
        }
    } else if ansi {
        "\x1b[2m├──\x1b[0m "@
    } else {
        "├── "@
    };
    tree_guide(es, i, es[i].0, bar) + connector + entry_text(ansi, es[i].1) + "\n"@
}

/// The rows of the first `k` entries.
pub open spec fn tree_rows(ansi: bool, es: Seq<(nat, Seq<char>)>, k: nat) -> Seq<char>
    decreases k,
{
    if k == 0 {
        seq![]
    } else {
        tree_rows(ansi, es, (k - 1) as nat) + tree_row(ansi, es, k - 1)
    }
}

/// A listing drawn as a tree under its first line; an empty text is
/// returned as it is.
pub open spec fn tree_rendering(ansi: bool, output: Seq<char>) -> Seq<char> {
    let ls = lines(output);
    if ls.len() == 0 {
        output
    } else {
        let es = tree_entries(ls.skip(1));
        (if ansi {
            "\x1b[1m"@ + ls[0] + "\x1b[0m\n"@
        } else {
            ls[0] + "\n"@
        }) + tree_rows(ansi, es, es.len())
    }
}

fn first_at_most_of(depths: &Vec<usize>, Ghost(es): Ghost<Seq<(nat, Seq<char>)>>, j: usize, d: usize) -> (r: Option<usize>)
    requires
        j <= depths@.len(),
        es.len() == depths@.len(),
        forall|k: int| 0 <= k < es.len() ==> #[trigger] es[k].0 == depths@[k],
    ensures
        match first_at_most(es, j as int, d as nat) {
            Some(x) => r == Some(x as usize),
            None => r is None,
        },
        r matches Some(x) ==> j <= x < depths@.len(),
    decreases depths@.len() - j,
{
    if j >= depths.len() {
        None
    } else if depths[j] <= d {
        Some(j)
    } else {
        first_at_most_of(depths, Ghost(es), j + 1, d)
    }
}

fn depth_follows_of(depths: &Vec<usize>, Ghost(es): Ghost<Seq<(nat, Seq<char>)>>, j: usize, d: usize) -> (r: bool)
    requires
        j <= depths@.len(),
        es.len() == depths@.len(),
        forall|k: int| 0 <= k < es.len() ==> #[trigger] es[k].0 == depths@[k],
    ensures
        r == depth_follows(es, j as int, d as nat),
    decreases depths@.len() - j,
{
    if j >= depths.len() {
        false
    } else if depths[j] == d {
        true
    } else {
        depth_follows_of(depths, Ghost(es), j + 1, d)
    }
}

fn push_entry_text(out: &mut String, ansi: bool, content: &str)
    requires
        file_entry_ok(content@),
    ensures
        final(out)@ == old(out)@ + entry_text(ansi, content@),
{
    if starts_with(content, "[DIR]") {
        let name = trim(trim_start_matches(content, "[DIR]"));
        if ansi {
            out.append("\x1b[1;34m");
            out.append(name);
            out.append("\x1b[0m");
        } else {
            out.append(" ");
            out.append(name);
        }
    } else if starts_with(content, "[FILE]") {
        let rest = trim(trim_start_matches(content, "[FILE]"));
        proof {
            reveal_strlit(" (");
            lemma_last_index_of_sub(rest@, " ("@);
        }
        match rfind_str(rest, " (") {
            Some(p) => {
                let n = rest.unicode_len();
                let name = rest.substring_char(0, p);
                let size = rest.substring_char(p + 2, n - 1);
                assert(name@ =~= rest@.take(p as int));
                assert(size@ =~= rest@.subrange(p + 2, n - 1));
                if ansi {
                    push_colorized(out, name);
                    out.append(" \x1b[2m");
                    out.append(size);
                    out.append("\x1b[0m");
                } else {
                    out.append(" ");
                    out.append(name);
                    out.append(" (");
                    out.append(size);
                    out.append(")");
                }
            },
            None => {
                if ansi {
                    push_colorized(out, rest);
                } else {
                    out.append(" ");
                    out.append(rest);
                }
            },
        }
    } else if ansi && starts_with(content, "...") {
        out.append("\x1b[2m");
        out.append(content);
        out.append("\x1b[0m");
    } else if ansi {
        out.append(content);
    } else {
        out.append(" ");
        out.append(content);
    }
    assert(out@ =~= old(out)@ + entry_text(ansi, content@));
}

fn render_tree(output: &str, ansi: bool) -> (r: String)
    requires
        tree_ok(output@),
    ensures
        r@ == tree_rendering(ansi, output@),
{
    let ls = split_lines(output);
    let ghost lv = views(ls@);
    if ls.len() == 0 {
        return output.to_string();
    }
    let mut out = String::new();
    if ansi {
        out.append("\x1b[1m");
        out.append(ls[0]);
        out.append("\x1b[0m\n");
    } else {
        out.append(ls[0]);
        out.append("\n");
    }
    let ghost head = out@;
    let ghost es = tree_entries(lv.skip(1));
    let mut depths: Vec<usize> = Vec::new();
    let mut contents: Vec<&str> = Vec::new();
    let mut j: usize = 1;
    while j < ls.len()
        invariant
            lv == views(ls@),
            lv == lines(output@),
            es == tree_entries(lv.skip(1)),
            1 <= j <= ls@.len(),
            depths@.len() == j - 1,
            contents@.len() == j - 1,
            forall|k: int| 0 <= k < j - 1 ==> #[trigger] es[k].0 == depths@[k] && es[k].1 == contents@[k]@,
        decreases ls@.len() - j,
    {
        let line = ls[j];
        depths.push(indent_depth_of(line));
        contents.push(trim(line));
        proof {
            assert(es[j - 1] == (indent_depth(lv[j as int]), trim_spec(lv[j as int])));
        }
        j = j + 1;
    }
    let m = depths.len();
    let mut i: usize = 0;
    assert(out@ =~= head + tree_rows(ansi, es, 0));
    while i < m
        invariant
            lv == lines(output@),
            tree_ok(output@),
            es == tree_entries(lv.skip(1)),
            m == es.len(),
            m + 1 == lv.len(),
            depths@.len() == m,
            contents@.len() == m,
            forall|k: int| 0 <= k < m ==> #[trigger] es[k].0 == depths@[k] && es[k].1 == contents@[k]@,
            i <= m,
            out@ == head + tree_rows(ansi, es, i as nat),
        decreases m - i,
    {
        proof {
            assert(es[i as int].0 == depths@[i as int]);
            assert(es[i as int].1 == contents@[i as int]@);
            assert(lv.skip(1)[i as int] == lv[i + 1]);
            assert(file_entry_ok(trim_spec(lv[i + 1])));
        }
        push_tree_row(&mut out, ansi, &depths, Ghost(es), i, contents[i]);
        assert(out@ =~= head + tree_rows(ansi, es, (i + 1) as nat));
        i = i + 1;
    }
    out
}

fn push_tree_row(
    out: &mut String,
    ansi: bool,
    depths: &Vec<usize>,
    Ghost(es): Ghost<Seq<(nat, Seq<char>)>>,
    i: usize,
    content: &str,
)
    requires
        i < depths@.len(),
        es.len() == depths@.len(),
        forall|k: int| 0 <= k < es.len() ==> #[trigger] es[k].0 == depths@[k],
        es[i as int].1 == content@,
        file_entry_ok(content@),
    ensures
        final(out)@ == old(out)@ + tree_row(ansi, es, i as int),
{
    let n = depths.len();
    let d = depths[i];
    assert(es[i as int].0 == d);
    let mut g: usize = 0;
    let bar = if ansi {
        "\x1b[2m│\x1b[0m   "
    } else {
        "│   "
    };
    assert(old(out)@ =~= old(out)@ + tree_guide(es, i as int, 0, bar@));
    while g < d
        invariant
            es.len() == depths@.len(),
            forall|k: int| 0 <= k < es.len() ==> #[trigger] es[k].0 == depths@[k],
            i < depths@.len(),
            n == depths@.len(),
            g <= d,
            out@ == old(out)@ + tree_guide(es, i as int, g as nat, bar@),
        decreases d - g,
    {
        if depth_follows_of(depths, Ghost(es), i + 1, g) {
            out.append(bar);
        } else {
            out.append("    ");
        }
        assert(out@ =~= old(out)@ + tree_guide(es, i as int, (g + 1) as nat, bar@));
        g = g + 1;
    }
    let found = first_at_most_of(depths, Ghost(es), i + 1, d);
    let last = match found {
        Some(k) => {
            assert(es[k as int].0 == depths@[k as int]);
            depths[k] < d
        },
        None => true,
    };
    proof {
        let fa = first_at_most(es, (i + 1) as int, d as nat);
        lemma_first_at_most(es, (i + 1) as int, d as nat);
        assert(first_at_most(es, i + 1, es[i as int].0) == fa);
        match fa {
            Some(x) => {
                assert(found == Some(x as usize));
                assert(es[x].0 == depths@[x]);
                assert(last == (es[x].0 < es[i as int].0));
            },
            None => {
                assert(found is None);
            },
        }
    }
    assert(last == last_at_depth(es, i as int));
    if last {
        if ansi {
            out.append("\x1b[2m└──\x1b[0m ");
        } else {
            out.append("└── ");
        }
    } else if ansi {
        out.append("\x1b[2m├──\x1b[0m ");
    } else {
        out.append("├── ");
    }
    push_entry_text(out, ansi, content);
    out.append("\n");
    assert(out@ =~= old(out)@ + tree_row(ansi, es, i as int));
}

fn file_entry_fits(content: &str) -> (b: bool)
    ensures
        b == file_entry_ok(content@),
{
    if !starts_with(content, "[FILE]") {
        return true;
    }
    let rest = trim(trim_start_matches(content, "[FILE]"));
    proof {
        reveal_strlit(" (");
        lemma_last_index_of_sub(rest@, " ("@);
    }
    match rfind_str(rest, " (") {
        Some(p) => {
            let n = rest.unicode_len();
            if p < n && n - p >= 3 {
                (rest.get_char(n - 1) as u32) < 0x80
            } else {
                false
            }
        },
        None => true,
    }
}

/// Whether a listing can be drawn as a tree.
pub fn tree_renders(output: &str) -> (b: bool)
    ensures
        b == tree_ok(output@),
{
    let ls = split_lines(output);
    let ghost lv = views(ls@);
    let mut j: usize = 1;
    while j < ls.len()
        invariant
            lv == views(ls@),
            lv == lines(output@),
            1 <= j,
            j <= ls@.len() || ls@.len() == 0,
            forall|k: int| 1 <= k < j && k < lv.len() ==> #[trigger] file_entry_ok(trim_spec(lv[k])),
        decreases ls@.len() - j,
    {
        assert(lv[j as int] == ls@[j as int]@);
        if !file_entry_fits(trim(ls[j])) {
            assert(!file_entry_ok(trim_spec(lines(output@)[j as int])));
            return false;
        }
        j = j + 1;
    }
    true
}

impl ListDirectoryTool {
    /// A listing drawn as a tree.
    pub fn format_output_plain(&self, output: &str) -> (r: String)
        requires
            tree_ok(output@),
        ensures
            r@ == tree_rendering(false, output@),
    {
        render_tree(output, false)
    }

    /// A listing drawn as a tree with ANSI colors.
    pub fn format_output_ansi(&self, output: &str) -> (r: String)
        requires
            tree_ok(output@),
        ensures
            r@ == tree_rendering(true, output@),
    {
        render_tree(output, true)
    }

    /// A listing drawn as a tree in a Markdown code block.
    pub fn format_output_markdown(&self, output: &str) -> (r: String)
        requires
            tree_ok(output@),
        ensures
            r@ == "```\n"@ + tree_rendering(false, output@) + "\n```"@,
    {
        let mut r = "```\n".to_string();
        let tree = render_tree(output, false);
        r.append(tree.as_str());
        r.append("\n```");
        r
    }
}


/// Whether every character of `p` is a space.
pub open spec fn all_spaces(p: Seq<char>) -> bool {
    forall|i: int| 0 <= i < p.len() ==> p[i] == ' '
}

/// Every name in the tree, from the entry at `i` on and all below them,
/// breaks no line.
pub open spec fn names_single_line(entries: Seq<EntryInfo>, i: nat) -> bool
    decreases entries, entries.len() - i,
{
    if i >= entries.len() {
        true
    } else {
        proof {
            assert(decreases_to!(entries => entries[i as int]));
            assert(decreases_to!(entries[i as int] => entries[i as int].children));
            assert(decreases_to!(entries[i as int].children => entries[i as int].children@));
        }
        single_line(entries[i as int].name@) && names_single_line(entries[i as int].children@, 0)
            && names_single_line(entries, i + 1)
    }
}

/// A listing line that the tree renderings can take: it breaks no line,
/// is not empty, and a file entry can be cut around its size.
pub open spec fn renderable_line(l: Seq<char>) -> bool {
    &&& single_line(l)
    &&& l.len() > 0
    &&& file_entry_ok(trim_spec(l))
}

proof fn lemma_trim_end_prefix(x: Seq<char>)
    ensures
        trim_end_spec(x).len() <= x.len(),
        forall|i: int| 0 <= i < trim_end_spec(x).len() ==> trim_end_spec(x)[i] == x[i],
    decreases x.len(),
{
    if x.len() > 0 && is_ws(x.last()) {
        lemma_trim_end_prefix(x.drop_last());
        assert forall|i: int| 0 <= i < trim_end_spec(x).len() implies trim_end_spec(x)[i] == x[i] by {
            assert(x.drop_last()[i] == x[i]);
        }
    }
}

proof fn lemma_trim_start_spaces(p: Seq<char>, x: Seq<char>)
    requires
        all_spaces(p),
        x.len() > 0,
        !is_ws(x[0]),
    ensures
        trim_start_spec(p + x) == x,
    decreases p.len(),
{
    if p.len() == 0 {
        assert(p + x =~= x);
    } else {
        assert((p + x)[0] == ' ');
        assert((p + x).drop_first() =~= p.drop_first() + x);
        lemma_trim_start_spaces(p.drop_first(), x);
    }
}

proof fn lemma_trim_start_keeps_last(x: Seq<char>)
    requires
        x.len() > 0,
        !is_ws(x.last()),
    ensures
        trim_start_spec(x).len() > 0,
        trim_start_spec(x).last() == x.last(),
        trim_end_spec(trim_start_spec(x)) == trim_start_spec(x),
    decreases x.len(),
{
    if is_ws(x[0]) {
        assert(x.len() > 1);
        assert(x.drop_first().last() == x.last());
        lemma_trim_start_keeps_last(x.drop_first());
    }
}

proof fn lemma_spaces_single(p: Seq<char>)
    requires
        all_spaces(p),
    ensures
        single_line(p),
{
    assert forall|i: int| 0 <= i < p.len() implies p[i] != '\n' && p[i] != '\r' by {
        assert(p[i] == ' ');
    }
}

proof fn lemma_digits_single(d: Seq<char>)
    requires
        all_digits(d),
    ensures
        single_line(d),
{
    assert forall|i: int| 0 <= i < d.len() implies d[i] != '\n' && d[i] != '\r' by {
        assert(is_digit(d[i]));
    }
}

proof fn lemma_size_label_single(size: Option<u64>)
    ensures
        single_line(size_label(size)),
{
    reveal_strlit(" B");
    reveal_strlit(" KB");
    reveal_strlit(" MB");
    reveal_strlit(".");
    let s: nat = match size {
        Some(v) => v as nat,
        None => 0,
    };
    assert(single_line(" B"@));
    assert(single_line(" KB"@));
    assert(single_line(" MB"@));
    assert(single_line("."@));
    if s < 1024 {
        lemma_decimal_value(s);
        lemma_digits_single(decimal(s));
        lemma_single_line_concat(decimal(s), " B"@);
    } else {
        let d: nat = if s < 1024 * 1024 {
            1024
        } else {
            1024 * 1024
        };
        let c = div_round_even(f64_of(s) * 10, d);
        lemma_decimal_value(c / 10);
        lemma_decimal_value(c % 10);
        lemma_digits_single(decimal(c / 10));
        lemma_digits_single(decimal(c % 10));
        lemma_single_line_concat(decimal(c / 10), "."@);
        lemma_single_line_concat(decimal(c / 10) + "."@, decimal(c % 10));
        assert(fixed1(f64_of(s), d) == decimal(c / 10) + "."@ + decimal(c % 10));
        if s < 1024 * 1024 {
            lemma_single_line_concat(fixed1(f64_of(s), d), " KB"@);
        } else {
            lemma_single_line_concat(fixed1(f64_of(s), d), " MB"@);
        }
    }
}

/// A line that is not a file entry: after the indent, a `[` and a
/// character other than `F`.
proof fn lemma_other_line(p: Seq<char>, x: Seq<char>)
    requires
        all_spaces(p),
        single_line(x),
        x.len() >= 2,
        x[0] == '[',
        x[1] != 'F',
    ensures
        renderable_line(p + x),
{
    reveal_strlit("[FILE]");
    lemma_spaces_single(p);
    lemma_single_line_concat(p, x);
    lemma_trim_start_spaces(p, x);
    let t = trim_end_spec(x);
    lemma_trim_end_prefix(x);
    assert(trim_spec(p + x) == t);
    assert(!has_prefix(t, "[FILE]"@)) by {
        if has_prefix(t, "[FILE]"@) {
            assert(t.take(6)[1] == t[1]);
            assert(t[1] == x[1]);
        }
    }
}

/// A file entry after its indent can be rendered when its name and size
/// break no line.
proof fn lemma_file_line(p: Seq<char>, name: Seq<char>, size: Seq<char>)
    requires
        all_spaces(p),
        single_line(name),
        single_line(size),
    ensures
        renderable_line(p + ("[FILE] "@ + name + " ("@ + size + ")"@)),
{
    reveal_strlit("[FILE] ");
    reveal_strlit("[FILE]");
    reveal_strlit(" (");
    reveal_strlit(")");
    reveal_strlit(" ");
    let x = "[FILE] "@ + name + " ("@ + size + ")"@;
    assert(single_line("[FILE] "@));
    assert(single_line(" ("@));
    assert(single_line(")"@));
    lemma_single_line_concat("[FILE] "@, name);
    lemma_single_line_concat("[FILE] "@ + name, " ("@);
    lemma_single_line_concat("[FILE] "@ + name + " ("@, size);
    lemma_single_line_concat("[FILE] "@ + name + " ("@ + size, ")"@);
    lemma_spaces_single(p);
    lemma_single_line_concat(p, x);
    assert(x[0] == '[');
    lemma_trim_start_spaces(p, x);
    assert(x.last() == ')');
    assert(trim_end_spec(x) == x);
    assert(trim_spec(p + x) == x);
    assert(has_prefix(x, "[FILE]"@)) by {
        assert(x.take(6) =~= "[FILE]"@);
    }
    let r = " "@ + name + " ("@ + size + ")"@;
    assert(x =~= "[FILE]"@ + r);
    assert(x.skip(6) =~= r);
    assert(!has_prefix(r, "[FILE]"@)) by {
        if has_prefix(r, "[FILE]"@) {
            assert(r.take(6)[0] == r[0]);
        }
    }
    assert(trim_start_matches_spec(r, "[FILE]"@) == r);
    assert(trim_start_matches_spec(x, "[FILE]"@) == r);
    assert(r.last() == ')');
    lemma_trim_start_keeps_last(r);
    assert(trim_end_spec(r) == r);
    let rest = trim_spec(r);
    assert(rest == trim_start_spec(r));
    assert(rest.last() == ')');
    lemma_last_index_of_sub(rest, " ("@);
    match last_index_of_sub(rest, " ("@) {
        Some(q) => {
            if q + 3 > rest.len() {
                assert(rest.subrange(q, q + 2)[1] == rest[q + 1]);
                assert(rest[q + 1] == '(');
                assert(q + 1 == rest.len() - 1);
            }
        },
        None => {},
    }
}

proof fn lemma_listing_from_ok(
    entries: Seq<EntryInfo>,
    i: nat,
    prefix: Seq<char>,
    budget: nat,
    per: nat,
    out: Seq<Tagged>,
)
    requires
        all_spaces(prefix),
        names_single_line(entries, i),
        forall|j: int| 0 <= j < out.len() ==> renderable_line(#[trigger] out[j].1),
    ensures
        ({
            let r = listing_from(entries, i, prefix, budget, per, out);
            forall|j: int| 0 <= j < r.len() ==> renderable_line(#[trigger] r[j].1)
        }),
    decreases entries, entries.len() - i,
{
    reveal_strlit("[MORE] ... ");
    reveal_strlit(" more entries");
    reveal_strlit("[DIR]  ");
    reveal_strlit("/");
    reveal_strlit("  ");
    reveal_strlit("  [MORE] ... ");
    reveal_strlit(" items");
    if i >= entries.len() {
    } else if out.len() + 1 >= budget && i + 1 < entries.len() {
        let d = decimal((entries.len() - i) as nat);
        lemma_decimal_value((entries.len() - i) as nat);
        lemma_digits_single(d);
        let x = "[MORE] ... "@ + d + " more entries"@;
        assert(single_line("[MORE] ... "@));
        assert(single_line(" more entries"@));
        lemma_single_line_concat("[MORE] ... "@, d);
        lemma_single_line_concat("[MORE] ... "@ + d, " more entries"@);
        lemma_other_line(prefix, x);
        assert(prefix + "[MORE] ... "@ + d + " more entries"@ =~= prefix + x);
        let r = out.push((false, prefix + x));
        assert forall|j: int| 0 <= j < r.len() implies renderable_line(#[trigger] r[j].1) by {
            if j < out.len() {
                assert(r[j] == out[j]);
            }
        }
    } else if out.len() >= budget {
    } else {
        let e = entries[i as int];
        let eb = entry_budget(i, entries.len(), budget, out.len(), per);
        assert(single_line(e.name@) && names_single_line(e.children@, 0) && names_single_line(entries, i + 1));
        let next = if e.is_dir {
            let x = "[DIR]  "@ + e.name@ + "/"@;
            assert(single_line("[DIR]  "@));
            assert(single_line("/"@));
            lemma_single_line_concat("[DIR]  "@, e.name@);
            lemma_single_line_concat("[DIR]  "@ + e.name@, "/"@);
            lemma_other_line(prefix, x);
            assert(prefix + "[DIR]  "@ + e.name@ + "/"@ =~= prefix + x);
            let o1 = out.push((true, prefix + x));
            assert forall|j: int| 0 <= j < o1.len() implies renderable_line(#[trigger] o1[j].1) by {
                if j < out.len() {
                    assert(o1[j] == out[j]);
                }
            }
            if eb > 1 && e.children@.len() > 0 {
                assert(decreases_to!(entries => entries[i as int]));
                assert(decreases_to!(entries[i as int] => entries[i as int].children));
                assert(decreases_to!(entries[i as int].children => entries[i as int].children@));
                let cp = prefix + "  "@;
                assert(all_spaces(cp)) by {
                    assert forall|k: int| 0 <= k < cp.len() implies cp[k] == ' ' by {
                        if k >= prefix.len() {
                            assert(cp[k] == "  "@[k - prefix.len()]);
                        } else {
                            assert(cp[k] == prefix[k]);
                        }
                    }
                }
                let ct = listing_tagged(e.children@, cp, (eb - 1) as nat);
                assert(ct == listing_from(
                    e.children@,
                    0,
                    cp,
                    (eb - 1) as nat,
                    share((eb - 1) as nat, e.children@.len()),
                    seq![],
                ));
                if (eb - 1) as nat > 0 && e.children@.len() > 0 {
                    lemma_listing_from_ok(
                        e.children@,
                        0,
                        cp,
                        (eb - 1) as nat,
                        share((eb - 1) as nat, e.children@.len()),
                        seq![],
                    );
                }
                assert forall|j: int| 0 <= j < ct.len() implies renderable_line(#[trigger] ct[j].1) by {}
                let c = o1 + ct;
                assert forall|j: int| 0 <= j < c.len() implies renderable_line(#[trigger] c[j].1) by {
                    if j < o1.len() {
                        assert(c[j] == o1[j]);
                    } else {
                        assert(c[j] == ct[j - o1.len()]);
                    }
                }
                c
            } else if e.children@.len() > 0 || e.child_count > 0 {
                let count: nat = if e.children@.len() == 0 {
                    e.child_count as nat
                } else {
                    e.children@.len()
                };
                if count > 0 && o1.len() < out.len() + eb {
                    let d = decimal(count);
                    lemma_decimal_value(count);
                    lemma_digits_single(d);
                    let y = "[MORE] ... "@ + d + " items"@;
                    assert(single_line("[MORE] ... "@));
                    assert(single_line(" items"@));
                    lemma_single_line_concat("[MORE] ... "@, d);
                    lemma_single_line_concat("[MORE] ... "@ + d, " items"@);
                    let cp = prefix + "  "@;
                    assert(all_spaces(cp)) by {
                        assert forall|k: int| 0 <= k < cp.len() implies cp[k] == ' ' by {
                            if k >= prefix.len() {
                                assert(cp[k] == "  "@[k - prefix.len()]);
                            } else {
                                assert(cp[k] == prefix[k]);
                            }
                        }
                    }
                    lemma_other_line(cp, y);
                    assert(prefix + "  [MORE] ... "@ + d + " items"@ =~= cp + y);
                    let o2 = o1.push((false, cp + y));
                    assert forall|j: int| 0 <= j < o2.len() implies renderable_line(#[trigger] o2[j].1) by {
                        if j < o1.len() {
                            assert(o2[j] == o1[j]);
                        }
                    }
                    o2
                } else {
                    o1
                }
            } else {
                o1
            }
        } else {
            lemma_size_label_single(e.size);
            lemma_file_line(prefix, e.name@, size_label(e.size));
            let line = prefix + "[FILE] "@ + e.name@ + " ("@ + size_label(e.size) + ")"@;
            assert(line =~= prefix + ("[FILE] "@ + e.name@ + " ("@ + size_label(e.size) + ")"@));
            let o = out.push((true, line));
            assert forall|j: int| 0 <= j < o.len() implies renderable_line(#[trigger] o[j].1) by {
                if j < out.len() {
                    assert(o[j] == out[j]);
                }
            }
            o
        };
        assert(listing_from(entries, i, prefix, budget, per, out) == listing_from(entries, i + 1, prefix, budget, per, next));
        lemma_listing_from_ok(entries, i + 1, prefix, budget, per, next);
    }
}


/// Every listing report can be drawn as a tree, when its path and every
/// name in the tree break no line.
pub proof fn law_listing_renders(
    path: Seq<char>,
    depth: nat,
    entries: Seq<EntryInfo>,
    prefix: Seq<char>,
    budget: nat,
)
    requires
        single_line(path),
        all_spaces(prefix),
        names_single_line(entries, 0),
    ensures
        tree_ok(listing_text(path, depth, listing_lines(entries, prefix, budget))),
{
    reveal_strlit("Directory ");
    reveal_strlit(" is empty");
    reveal_strlit("Contents of ");
    reveal_strlit(" (depth=");
    reveal_strlit("):\n");
    reveal_strlit("):");
    reveal_strlit("\n");
    let tagged = listing_tagged(entries, prefix, budget);
    let ls = listing_lines(entries, prefix, budget);
    if budget > 0 && entries.len() > 0 {
        let r = listing_from(entries, 0, prefix, budget, share(budget, entries.len()), seq![]);
        lemma_listing_from_ok(entries, 0, prefix, budget, share(budget, entries.len()), seq![]);
        assert(tagged == r);
        assert forall|j: int| 0 <= j < ls.len() implies renderable_line(#[trigger] ls[j]) by {
            assert(ls[j] == r[j].1);
        }
    } else {
        assert(tagged =~= Seq::<Tagged>::empty());
        assert(ls.len() == 0);
    }
    let text = listing_text(path, depth, ls);
    if ls.len() == 0 {
        assert(single_line("Directory "@));
        assert(single_line(" is empty"@));
        lemma_single_line_concat("Directory "@, path);
        lemma_single_line_concat("Directory "@ + path, " is empty"@);
        lemma_index_of_char_none(text, '\n');
        assert(lines(text) =~= seq![text]);
    } else {
        let d = decimal(depth);
        lemma_decimal_value(depth);
        lemma_digits_single(d);
        let header = "Contents of "@ + path + " (depth="@ + d + "):"@;
        assert(single_line("Contents of "@));
        assert(single_line(" (depth="@));
        assert(single_line("):"@));
        lemma_single_line_concat("Contents of "@, path);
        lemma_single_line_concat("Contents of "@ + path, " (depth="@);
        lemma_single_line_concat("Contents of "@ + path + " (depth="@, d);
        lemma_single_line_concat("Contents of "@ + path + " (depth="@ + d, "):"@);
        let body = join_spec(ls, "\n"@);
        assert(text =~= header + "\n"@ + body);
        lemma_lines_cons(header, body);
        assert forall|j: int| 0 <= j < ls.len() implies single_line(#[trigger] ls[j]) by {
            assert(renderable_line(ls[j]));
        }
        assert(renderable_line(ls.last()));
        lemma_lines_join(ls);
        assert forall|j: int| 1 <= j < lines(text).len() implies #[trigger] file_entry_ok(trim_spec(lines(text)[j])) by {
            assert(lines(text)[j] == ls[j - 1]);
            assert(renderable_line(ls[j - 1]));
        }
    }
}

} // verus!
