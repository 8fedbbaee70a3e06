//! The tables of running processes and of sessions: building them, reading
//! their rows back, and rendering them.

use vstd::prelude::*;
use vstd::string::*;
use vstd::utf8::*;
use crate::text::{
    contains_str, decimal, index_of_sub, lines, pad_left_spec, pad_right_spec, push_decimal, push_pad_left,
    push_pad_right, push_repeat, repeat_spec, split_char, split_lines, split_spec, starts_with, has_prefix,
    trim, trim_spec, views,
};
use crate::tools::filesystem::{f64_of, f64_value, fixed1, push_fixed1};
use crate::tools::header::str_equal;
use crate::tools::process::{ListProcessesTool, ListSessionsTool};
use crate::tools::session::{state_text, ProcessState};

verus! {

/// The most processes a table shows.
pub const MAX_PROCESSES: usize = 50;

/// A process's memory in a table: KB below 1 MiB, MB below 1 GiB, else
/// GB, with one decimal.
pub open spec fn memory_label(memory: nat) -> Seq<char> {
    if memory < 1024 * 1024 {
        fixed1(f64_of(memory), 1024) + " KB"@
    } else if memory < 1024 * 1024 * 1024 {
        fixed1(f64_of(memory), 1024 * 1024) + " MB"@
    } else {
        fixed1(f64_of(memory), 1024 * 1024 * 1024) + " GB"@
    }
}

fn memory_label_of(memory: u64) -> (r: String)
    ensures
        r@ == memory_label(memory as nat),
{
    let mut r = String::new();
    let v = f64_value(memory);
    if memory < 1024 * 1024 {
        push_fixed1(&mut r, v, 1024);
        r.append(" KB");
    } else if memory < 1024 * 1024 * 1024 {
        push_fixed1(&mut r, v, 1024 * 1024);
        r.append(" MB");
    } else {
        push_fixed1(&mut r, v, 1024 * 1024 * 1024);
        r.append(" GB");
    }
    assert(r@ =~= memory_label(memory as nat));
    r
}

/// A text shortened to its first `keep` bytes and `...` when it holds
/// more than `limit` bytes.
pub open spec fn shortened(s: Seq<char>, limit: nat, keep: nat) -> Seq<char> {
    if encode_utf8(s).len() > limit {
        decode_utf8(encode_utf8(s).take(keep as int)) + "..."@
    } else {
        s
    }
}

/// The first `keep` bytes of a text longer than `limit` bytes end on a
/// character boundary.
pub open spec fn shortened_ok(s: Seq<char>, limit: nat, keep: nat) -> bool {
    encode_utf8(s).len() > limit ==> keep <= encode_utf8(s).len() && is_char_boundary(encode_utf8(s), keep as int)
}

fn push_shortened(out: &mut String, s: &str, limit: usize, keep: usize)
    requires
        shortened_ok(s@, limit as nat, keep as nat),
    ensures
        final(out)@ == old(out)@ + shortened(s@, limit as nat, keep as nat),
{
    let n = s.as_bytes().len();
    if n > limit {
        let (head, _) = s.split_at(keep);
        proof {
            encode_utf8_decode_utf8(head@);
            assert(head.spec_bytes() =~= s.spec_bytes().take(keep as int));
        }
        out.append(head);
        out.append("...");
        assert(out@ =~= old(out)@ + shortened(s@, limit as nat, keep as nat));
    } else {
        out.append(s);
    }
}

/// A process as the table lists it: its PID, name, CPU use already
/// written with one decimal, and memory in bytes.
#[derive(Debug)]
pub struct ProcessEntry {
    pub pid: u32,
    pub name: String,
    pub cpu: String,
    pub memory: u64,
}

/// The row of a process: PID, name (cut to 26 bytes past 29), CPU and
/// memory in aligned columns.
pub open spec fn process_row(p: ProcessEntry) -> Seq<char> {
    pad_right_spec(decimal(p.pid as nat), 7) + " | "@ + pad_right_spec(shortened(p.name@, 29, 26), 29) + " | "@
        + pad_left_spec(p.cpu@, 5) + " | "@ + pad_left_spec(memory_label(p.memory as nat), 8) + "\n"@
}

/// The rows of the processes, in order.
pub open spec fn process_rows(ps: Seq<ProcessEntry>) -> Seq<char>
    decreases ps.len(),
{
    if ps.len() == 0 {
        seq![]
    } else {
        process_rows(ps.drop_last()) + process_row(ps.last())
    }
}

/// The table of processes: a heading, the first 50 rows, and a note of
/// how many more there are.
pub open spec fn process_table_text(ps: Seq<ProcessEntry>) -> Seq<char> {
    let shown = if ps.len() > 50 {
        ps.take(50)
    } else {
        ps
    };
    "PID     | NAME                          | CPU%  | MEMORY\n"@
        + "--------|-------------------------------|-------|----------\n"@ + process_rows(shown) + if ps.len() > 50 {
        "\n... and "@ + decimal((ps.len() - 50) as nat) + " more processes\n"@
    } else {
        seq![]
    }
}

/// The process table lists at most 50 processes, the first ones, and
/// says how many more there are; memory reads in KB below 1 MiB, in MB
/// below 1 GiB, and in GB above; a name is kept whole up to 29 bytes.
pub proof fn law_process_table(ps: Seq<ProcessEntry>, memory: nat, name: Seq<char>)
    ensures
        ({
            let head = "PID     | NAME                          | CPU%  | MEMORY\n"@
                + "--------|-------------------------------|-------|----------\n"@;
            &&& ps.len() <= 50 ==> process_table_text(ps) == head + process_rows(ps)
            &&& ps.len() > 50 ==> process_table_text(ps) == head + process_rows(ps.take(50)) + "\n... and "@
                + decimal((ps.len() - 50) as nat) + " more processes\n"@
        }),
        memory < 1024 * 1024 ==> exists|v: Seq<char>| memory_label(memory) == v + " KB"@,
        1024 * 1024 <= memory < 1024 * 1024 * 1024 ==> exists|v: Seq<char>| memory_label(memory) == v + " MB"@,
        1024 * 1024 * 1024 <= memory ==> exists|v: Seq<char>| memory_label(memory) == v + " GB"@,
        encode_utf8(name).len() <= 29 ==> shortened(name, 29, 26) == name,
{
    reveal_strlit("");
    if ps.len() <= 50 {
        assert(process_table_text(ps) =~= "PID     | NAME                          | CPU%  | MEMORY\n"@
            + "--------|-------------------------------|-------|----------\n"@ + process_rows(ps));
    }
    if memory < 1024 * 1024 {
        assert(memory_label(memory) == fixed1(f64_of(memory), 1024) + " KB"@);
    } else if memory < 1024 * 1024 * 1024 {
        assert(memory_label(memory) == fixed1(f64_of(memory), 1024 * 1024) + " MB"@);
    } else {
        assert(memory_label(memory) == fixed1(f64_of(memory), 1024 * 1024 * 1024) + " GB"@);
    }
}

/// Every process name can be shortened.
pub open spec fn process_names_ok(ps: Seq<ProcessEntry>) -> bool {
    forall|i: int| 0 <= i < ps.len() ==> #[trigger] shortened_ok(ps[i].name@, 29, 26)
}

fn push_process_row(r: &mut String, p: &ProcessEntry)
    requires
        shortened_ok(p.name@, 29, 26),
    ensures
        final(r)@ == old(r)@ + process_row(*p),
{
    push_pad_right(r, decimal_text(p.pid as u64).as_str(), 7);
    r.append(" | ");
    let mut name = String::new();
    push_shortened(&mut name, p.name.as_str(), 29, 26);
    assert(name@ =~= shortened(p.name@, 29, 26));
    push_pad_right(r, name.as_str(), 29);
    r.append(" | ");
    push_pad_left(r, p.cpu.as_str(), 5);
    r.append(" | ");
    push_pad_left(r, memory_label_of(p.memory).as_str(), 8);
    r.append("\n");
    assert(r@ =~= old(r)@ + process_row(*p));
}

/// `x` placed after the entries of `s` whose PID is not above its own.
pub open spec fn insert_by_pid(s: Seq<ProcessEntry>, x: ProcessEntry) -> Seq<ProcessEntry>
    decreases s.len(),
{
    if s.len() == 0 {
        seq![x]
    } else if x.pid < s.last().pid {
        insert_by_pid(s.drop_last(), x).push(s.last())
    } else {
        s.push(x)
    }
}

/// The entries of `rest` placed one by one, in order, into `s`.
pub open spec fn insert_all_by_pid(s: Seq<ProcessEntry>, rest: Seq<ProcessEntry>) -> Seq<ProcessEntry>
    decreases rest.len(),
{
    if rest.len() == 0 {
        s
    } else {
        insert_all_by_pid(insert_by_pid(s, rest[0]), rest.drop_first())
    }
}

/// The processes ordered by PID, those with equal PIDs in their first
/// order (`sort_by_key` on the PID).
pub open spec fn sorted_by_pid(ps: Seq<ProcessEntry>) -> Seq<ProcessEntry> {
    insert_all_by_pid(seq![], ps)
}

/// Whether the processes are in order of PID.
pub open spec fn pid_ordered(s: Seq<ProcessEntry>) -> bool {
    forall|i: int, j: int| 0 <= i < j < s.len() ==> s[i].pid <= s[j].pid
}

fn insert_sorted(out: &mut Vec<ProcessEntry>, x: ProcessEntry)
    ensures
        final(out)@ == insert_by_pid(old(out)@, x),
{
    let ghost s = out@;
    let mut k = out.len();
    assert(s.take(k as int) =~= s);
    assert(s.skip(k as int) =~= Seq::<ProcessEntry>::empty());
    while k > 0 && x.pid < out[k - 1].pid
        invariant
            out@ == s,
            k <= s.len(),
            insert_by_pid(s, x) == insert_by_pid(s.take(k as int), x) + s.skip(k as int),
            forall|j: int| k <= j < s.len() ==> x.pid < #[trigger] s[j].pid,
        decreases k,
    {
        proof {
            assert(s.take(k as int).drop_last() =~= s.take(k - 1));
            assert(s.take(k as int).last() == s[k - 1]);
            assert(s.skip(k - 1) =~= seq![s[k - 1]] + s.skip(k as int));
            assert(insert_by_pid(s.take(k - 1), x).push(s[k - 1]) + s.skip(k as int) =~= insert_by_pid(
                s.take(k - 1),
                x,
            ) + s.skip(k - 1));
        }
        k = k - 1;
    }
    proof {
        if k == 0 {
            assert(s.take(0) =~= Seq::<ProcessEntry>::empty());
        }
        assert(insert_by_pid(s.take(k as int), x) =~= s.take(k as int).push(x));
    }
    out.insert(k, x);
    assert(out@ =~= s.take(k as int).push(x) + s.skip(k as int));
}

/// The processes ordered by PID.
pub fn sort_by_pid(ps: Vec<ProcessEntry>) -> (r: Vec<ProcessEntry>)
    ensures
        r@ == sorted_by_pid(ps@),
{
    let ghost all = ps@;
    let mut rest = ps;
    let mut out: Vec<ProcessEntry> = Vec::new();
    while rest.len() > 0
        invariant
            insert_all_by_pid(out@, rest@) == sorted_by_pid(all),
        decreases rest@.len(),
    {
        let ghost before = rest@;
        let x = rest.remove(0);
        assert(rest@ =~= before.drop_first());
        insert_sorted(&mut out, x);
    }
    out
}

proof fn lemma_insert_keeps_order(s: Seq<ProcessEntry>, x: ProcessEntry)
    requires
        pid_ordered(s),
    ensures
        pid_ordered(insert_by_pid(s, x)),
        insert_by_pid(s, x).to_multiset() == s.to_multiset().insert(x),
        insert_by_pid(s, x).len() == s.len() + 1,
        forall|i: int| 0 <= i < insert_by_pid(s, x).len() ==> #[trigger] insert_by_pid(s, x)[i] == x || s.contains(
            insert_by_pid(s, x)[i],
        ),
    decreases s.len(),
{
    broadcast use vstd::seq_lib::group_to_multiset_ensures;
    if s.len() == 0 {
        assert(seq![x] =~= Seq::<ProcessEntry>::empty().push(x));
    } else if x.pid < s.last().pid {
        let t = s.drop_last();
        assert(pid_ordered(t));
        lemma_insert_keeps_order(t, x);
        let u = insert_by_pid(t, x);
        assert(s =~= t.push(s.last()));
        assert forall|i: int| 0 <= i < u.len() implies u[i].pid <= s.last().pid by {
            if u[i] != x {
                assert(t.contains(u[i]));
                let j = choose|j: int| 0 <= j < t.len() && t[j] == u[i];
                assert(s[j] == t[j]);
            }
        }
        assert forall|i: int| 0 <= i < u.push(s.last()).len() implies #[trigger] u.push(s.last())[i] == x
            || s.contains(u.push(s.last())[i]) by {
            if i < u.len() {
                if u[i] != x {
                    let j = choose|j: int| 0 <= j < t.len() && t[j] == u[i];
                    assert(s[j] == t[j]);
                }
            } else {
                assert(s[s.len() - 1] == s.last());
            }
        }
    } else {
        assert forall|i: int| 0 <= i < s.len() implies s[i].pid <= x.pid by {
            assert(s[i].pid <= s[s.len() - 1].pid);
        }
        assert forall|i: int| 0 <= i < s.push(x).len() implies #[trigger] s.push(x)[i] == x || s.contains(
            s.push(x)[i],
        ) by {
            if i < s.len() {
                assert(s.push(x)[i] == s[i]);
            }
        }
    }
}

proof fn lemma_insert_all(s: Seq<ProcessEntry>, rest: Seq<ProcessEntry>)
    requires
        pid_ordered(s),
    ensures
        pid_ordered(insert_all_by_pid(s, rest)),
        insert_all_by_pid(s, rest).to_multiset() == s.to_multiset().add(rest.to_multiset()),
    decreases rest.len(),
{
    broadcast use vstd::seq_lib::group_to_multiset_ensures;
    if rest.len() == 0 {
        assert(rest.to_multiset() =~= vstd::multiset::Multiset::empty());
        assert(s.to_multiset().add(rest.to_multiset()) =~= s.to_multiset());
    } else {
        lemma_insert_keeps_order(s, rest[0]);
        lemma_insert_all(insert_by_pid(s, rest[0]), rest.drop_first());
        assert(rest =~= seq![rest[0]] + rest.drop_first());
        vstd::seq_lib::lemma_multiset_commutative(seq![rest[0]], rest.drop_first());
        assert(seq![rest[0]].to_multiset() =~= vstd::multiset::Multiset::singleton(rest[0])) by {
            assert(seq![rest[0]] =~= Seq::<ProcessEntry>::empty().push(rest[0]));
        }
        assert(s.to_multiset().insert(rest[0]).add(rest.drop_first().to_multiset()) =~= s.to_multiset().add(
            rest.to_multiset(),
        ));
    }
}

/// Ordering by PID gives the same processes, in order of PID.
pub proof fn law_sorted_by_pid(ps: Seq<ProcessEntry>)
    ensures
        pid_ordered(sorted_by_pid(ps)),
        sorted_by_pid(ps).to_multiset() == ps.to_multiset(),
{
    broadcast use vstd::seq_lib::group_to_multiset_ensures;
    lemma_insert_all(seq![], ps);
    assert(Seq::<ProcessEntry>::empty().to_multiset() =~= vstd::multiset::Multiset::empty());
    assert(vstd::multiset::Multiset::<ProcessEntry>::empty().add(ps.to_multiset()) =~= ps.to_multiset());
}

/// The table of processes.
pub fn process_table(ps: &Vec<ProcessEntry>) -> (r: String)
    requires
        process_names_ok(ps@),
    ensures
        r@ == process_table_text(ps@),
{
    let n = ps.len();
    let shown = if n > MAX_PROCESSES {
        MAX_PROCESSES
    } else {
        n
    };
    let ghost sv = if ps@.len() > 50 {
        ps@.take(50)
    } else {
        ps@
    };
    let mut r = "PID     | NAME                          | CPU%  | MEMORY\n".to_string();
    r.append("--------|-------------------------------|-------|----------\n");
    let ghost head = r@;
    let mut i: usize = 0;
    assert(sv.take(0) =~= Seq::<ProcessEntry>::empty());
    while i < shown
        invariant
            n == ps@.len(),
            shown == sv.len(),
            sv == (if ps@.len() > 50 { ps@.take(50) } else { ps@ }),
            process_names_ok(ps@),
            i <= shown,
            r@ == head + process_rows(sv.take(i as int)),
        decreases shown - i,
    {
        let p = &ps[i];
        assert(shortened_ok(ps@[i as int].name@, 29, 26));
        push_process_row(&mut r, p);
        proof {
            assert(sv[i as int] == *p);
            assert(sv.take(i + 1).drop_last() =~= sv.take(i as int));
        }
        assert(r@ =~= head + process_rows(sv.take(i + 1)));
        i = i + 1;
    }
    assert(sv.take(shown as int) =~= sv);
    if n > MAX_PROCESSES {
        r.append("\n... and ");
        push_decimal(&mut r, (n - MAX_PROCESSES) as u64);
        r.append(" more processes\n");
    }
    proof {
        reveal_strlit("");
    }
    assert(r@ =~= process_table_text(ps@));
    r
}

fn decimal_text(n: u64) -> (s: String)
    ensures
        s@ == decimal(n as nat),
{
    crate::text::decimal_string(n)
}

/// The cells of a table line split at `|`, when it has at least four,
/// each trimmed.
pub open spec fn table_row(line: Seq<char>) -> Seq<(Seq<char>, Seq<char>, Seq<char>, Seq<char>)> {
    let ps = split_spec(line, '|');
    if ps.len() >= 4 {
        seq![(trim_spec(ps[0]), trim_spec(ps[1]), trim_spec(ps[2]), trim_spec(ps[3]))]
    } else {
        seq![]
    }
}

/// The rows of table lines, in order; lines with fewer than four cells
/// are left out.
pub open spec fn table_rows(ls: Seq<Seq<char>>) -> Seq<(Seq<char>, Seq<char>, Seq<char>, Seq<char>)>
    decreases ls.len(),
{
    if ls.len() == 0 {
        seq![]
    } else {
        table_rows(ls.drop_last()) + table_row(ls.last())
    }
}

/// The lines of a text after its first `n`.
pub open spec fn lines_after(output: Seq<char>, n: nat) -> Seq<Seq<char>> {
    if lines(output).len() <= n {
        seq![]
    } else {
        lines(output).skip(n as int)
    }
}

/// The views of rows of four cells.
pub open spec fn row_views(rs: Seq<(&str, &str, &str, &str)>) -> Seq<(Seq<char>, Seq<char>, Seq<char>, Seq<char>)> {
    rs.map_values(|r: (&str, &str, &str, &str)| (r.0@, r.1@, r.2@, r.3@))
}

fn table_rows_of<'a>(output: &'a str, skip: usize) -> (r: Vec<(&'a str, &'a str, &'a str, &'a str)>)
    ensures
        row_views(r@) == table_rows(lines_after(output@, skip as nat)),
{
    let ls = split_lines(output);
    let ghost lv = views(ls@);
    let mut r: Vec<(&'a str, &'a str, &'a str, &'a str)> = Vec::new();
    if ls.len() <= skip {
        assert(row_views(r@) =~= table_rows(Seq::<Seq<char>>::empty()));
        return r;
    }
    let ghost body = lv.skip(skip as int);
    let mut i: usize = skip;
    assert(body.take(0) =~= Seq::<Seq<char>>::empty());
    assert(row_views(r@) =~= table_rows(body.take(0)));
    while i < ls.len()
        invariant
            lv == views(ls@),
            lv == lines(output@),
            lv.len() > skip,
            body == lv.skip(skip as int),
            skip <= i <= ls@.len(),
            row_views(r@) == table_rows(body.take(i - skip)),
        decreases ls@.len() - i,
    {
        let line = ls[i];
        proof {
            assert(body.take(i - skip + 1).drop_last() =~= body.take(i - skip));
            assert(body.take(i - skip + 1).last() == line@);
        }
        let parts = split_char(line, '|');
        if parts.len() >= 4 {
            proof {
                assert(views(parts@)[0] == parts@[0]@);
                assert(views(parts@)[1] == parts@[1]@);
                assert(views(parts@)[2] == parts@[2]@);
                assert(views(parts@)[3] == parts@[3]@);
            }
            let row = (trim(parts[0]), trim(parts[1]), trim(parts[2]), trim(parts[3]));
            let ghost before = row_views(r@);
            r.push(row);
            assert(row_views(r@) =~= before + table_row(line@));
        } else {
            assert(row_views(r@) =~= row_views(r@) + table_row(line@));
        }
        i = i + 1;
    }
    assert(body.take(ls@.len() - skip) =~= body);
    r
}

/// The rows of a process table after its two heading lines.
pub fn process_rows_of<'a>(output: &'a str) -> (r: Vec<(&'a str, &'a str, &'a str, &'a str)>)
    ensures
        row_views(r@) == table_rows(lines_after(output@, 2)),
{
    table_rows_of(output, 2)
}

/// The rendering of one line of a process table after its heading: a note
/// in italics, a row of four cells as a Markdown row, other lines left
/// out.
pub open spec fn process_markdown_line(line: Seq<char>) -> Seq<char> {
    if has_prefix(line, "..."@) {
        "\n*"@ + line + "*\n"@
    } else {
        let ps = split_spec(line, '|');
        if ps.len() >= 4 {
            "| "@ + trim_spec(ps[0]) + " | `"@ + trim_spec(ps[1]) + "` | "@ + trim_spec(ps[2]) + " | "@ + trim_spec(
                ps[3],
            ) + " |\n"@
        } else {
            seq![]
        }
    }
}

/// The renderings of lines, in order.
pub open spec fn process_markdown_lines(ls: Seq<Seq<char>>) -> Seq<char>
    decreases ls.len(),
{
    if ls.len() == 0 {
        seq![]
    } else {
        process_markdown_lines(ls.drop_last()) + process_markdown_line(ls.last())
    }
}

/// A process table as Markdown: a short text in a code block, else a
/// table of its rows.
pub open spec fn processes_markdown(output: Seq<char>) -> Seq<char> {
    if lines(output).len() < 3 {
        "```\n"@ + output + "\n```"@
    } else {
        "| PID | Name | CPU% | Memory |\n|-----|------|------|--------|\n"@ + process_markdown_lines(
            lines(output).skip(2),
        )
    }
}

fn push_process_markdown_line(out: &mut String, line: &str)
    ensures
        final(out)@ == old(out)@ + process_markdown_line(line@),
{
    if starts_with(line, "...") {
        out.append("\n*");
        out.append(line);
        out.append("*\n");
    } else {
        let parts = split_char(line, '|');
        if parts.len() >= 4 {
            proof {
                assert(views(parts@)[0] == parts@[0]@);
                assert(views(parts@)[1] == parts@[1]@);
                assert(views(parts@)[2] == parts@[2]@);
                assert(views(parts@)[3] == parts@[3]@);
            }
            out.append("| ");
            out.append(trim(parts[0]));
            out.append(" | `");
            out.append(trim(parts[1]));
            out.append("` | ");
            out.append(trim(parts[2]));
            out.append(" | ");
            out.append(trim(parts[3]));
            out.append(" |\n");
        }
    }
    proof {
        reveal_strlit("");
    }
    assert(out@ =~= old(out)@ + process_markdown_line(line@));
}

impl ListProcessesTool {
    /// A process table as plain text: the table itself.
    pub fn format_output_plain(&self, output: &str) -> (r: String)
        ensures
            r@ == output@,
    {
        output.to_string()
    }

    /// A process table as Markdown.
    pub fn format_output_markdown(&self, output: &str) -> (r: String)
        ensures
            r@ == processes_markdown(output@),
    {
        let ls = split_lines(output);
        let ghost lv = views(ls@);
        if ls.len() < 3 {
            let mut r = "```\n".to_string();
            r.append(output);
            r.append("\n```");
            return r;
        }
        let mut r = "| PID | Name | CPU% | Memory |\n|-----|------|------|--------|\n".to_string();
        let ghost head = r@;
        let ghost body = lv.skip(2);
        let mut i: usize = 2;
        assert(body.take(0) =~= Seq::<Seq<char>>::empty());
        assert(r@ =~= head + process_markdown_lines(body.take(0)));
        while i < ls.len()
            invariant
                lv == views(ls@),
                lv == lines(output@),
                body == lv.skip(2),
                2 <= i <= ls@.len(),
                r@ == head + process_markdown_lines(body.take(i - 2)),
            decreases ls@.len() - i,
        {
            let line = ls[i];
            proof {
                assert(body.take(i - 1).drop_last() =~= body.take(i - 2));
                assert(body.take(i - 1).last() == line@);
            }
            push_process_markdown_line(&mut r, line);
            assert(r@ =~= head + process_markdown_lines(body.take(i - 1)));
            i = i + 1;
        }
        assert(body.take(ls@.len() - 2) =~= body);
        r
    }
}

/// A session as the table lists it: its PID, command, state, and running
/// time already written out.
#[derive(Debug)]
pub struct SessionEntry {
    pub pid: u32,
    pub command: String,
    pub state: ProcessState,
    pub runtime: String,
}

/// The row of a session: PID, state, running time, and the command cut to
/// 27 bytes past 30.
pub open spec fn session_row_text(s: SessionEntry) -> Seq<char> {
    pad_right_spec(decimal(s.pid as nat), 6) + " | "@ + pad_right_spec(state_text(s.state), 19) + " | "@
        + pad_right_spec(s.runtime@, 7) + " | "@ + shortened(s.command@, 30, 27) + "\n"@
}

/// The rows of the sessions, in order.
pub open spec fn session_rows_text(ss: Seq<SessionEntry>) -> Seq<char>
    decreases ss.len(),
{
    if ss.len() == 0 {
        seq![]
    } else {
        session_rows_text(ss.drop_last()) + session_row_text(ss.last())
    }
}

/// The table of sessions, or a note that there are none.
pub open spec fn session_table_text(ss: Seq<SessionEntry>) -> Seq<char> {
    if ss.len() == 0 {
        "No active sessions"@
    } else {
        "Active Sessions:\n\n"@ + "PID    | STATUS              | RUNTIME | COMMAND\n"@
            + "-------|---------------------|---------|------------------\n"@ + session_rows_text(ss)
    }
}

/// Every command can be shortened.
pub open spec fn session_commands_ok(ss: Seq<SessionEntry>) -> bool {
    forall|i: int| 0 <= i < ss.len() ==> #[trigger] shortened_ok(ss[i].command@, 30, 27)
}

fn push_session_row(r: &mut String, s: &SessionEntry)
    requires
        shortened_ok(s.command@, 30, 27),
    ensures
        final(r)@ == old(r)@ + session_row_text(*s),
{
    push_pad_right(r, decimal_text(s.pid as u64).as_str(), 6);
    r.append(" | ");
    push_pad_right(r, s.state.text().as_str(), 19);
    r.append(" | ");
    push_pad_right(r, s.runtime.as_str(), 7);
    r.append(" | ");
    push_shortened(r, s.command.as_str(), 30, 27);
    r.append("\n");
    assert(r@ =~= old(r)@ + session_row_text(*s));
}

/// The table of sessions.
pub fn session_table(ss: &Vec<SessionEntry>) -> (r: String)
    requires
        session_commands_ok(ss@),
    ensures
        r@ == session_table_text(ss@),
{
    if ss.len() == 0 {
        return "No active sessions".to_string();
    }
    let mut r = "Active Sessions:\n\n".to_string();
    r.append("PID    | STATUS              | RUNTIME | COMMAND\n");
    r.append("-------|---------------------|---------|------------------\n");
    let ghost head = r@;
    let mut i: usize = 0;
    assert(ss@.take(0) =~= Seq::<SessionEntry>::empty());
    while i < ss.len()
        invariant
            session_commands_ok(ss@),
            i <= ss@.len(),
            r@ == head + session_rows_text(ss@.take(i as int)),
        decreases ss@.len() - i,
    {
        let s = &ss[i];
        assert(shortened_ok(ss@[i as int].command@, 30, 27));
        push_session_row(&mut r, s);
        proof {
            assert(ss@.take(i + 1).drop_last() =~= ss@.take(i as int));
            assert(ss@.take(i + 1).last() == *s);
        }
        assert(r@ =~= head + session_rows_text(ss@.take(i + 1)));
        i = i + 1;
    }
    assert(ss@.take(ss@.len() as int) =~= ss@);
    assert(r@ =~= session_table_text(ss@));
    r
}

/// The rows of a session table after its four heading lines: PID, state,
/// running time and command.
pub fn session_rows<'a>(output: &'a str) -> (r: Vec<(&'a str, &'a str, &'a str, &'a str)>)
    ensures
        row_views(r@) == table_rows(lines_after(output@, 4)),
{
    table_rows_of(output, 4)
}

/// Whether `s` contains `p`.
pub open spec fn holds(s: Seq<char>, p: Seq<char>) -> bool {
    index_of_sub(s, p) is Some
}

/// The plain icon of a session's state.
pub open spec fn session_icon(status: Seq<char>) -> Seq<char> {
    if holds(status, "Running"@) {
        "●"@
    } else if holds(status, "Completed"@) {
        "✓"@
    } else {
        "○"@
    }
}

/// The ANSI icon and color of a session's state.
pub open spec fn session_style(status: Seq<char>) -> (Seq<char>, Seq<char>) {
    if holds(status, "Running"@) {
        ("\x1b[32m●\x1b[0m"@, "\x1b[32m"@)
    } else if holds(status, "Completed"@) {
        ("\x1b[34m✓\x1b[0m"@, "\x1b[34m"@)
    } else if holds(status, "Failed"@) || holds(status, "Error"@) {
        ("\x1b[31m✗\x1b[0m"@, "\x1b[31m"@)
    } else {
        ("\x1b[33m○\x1b[0m"@, "\x1b[33m"@)
    }
}

/// The emoji of a session's state.
pub open spec fn session_emoji(status: Seq<char>) -> Seq<char> {
    if holds(status, "Running"@) {
        "🟢"@
    } else if holds(status, "Completed"@) {
        "🔵"@
    } else if holds(status, "Failed"@) || holds(status, "Error"@) {
        "🔴"@
    } else {
        "🟡"@
    }
}

/// Which rendering of a session table.
pub enum SessionStyle {
    Plain,
    Ansi,
    Markdown,
}

/// One session rendered: the row's PID, state and command, and its running
/// time as shown.
pub open spec fn session_line(
    style: SessionStyle,
    row: (Seq<char>, Seq<char>, Seq<char>, Seq<char>),
    runtime: Seq<char>,
) -> Seq<char> {
    let (pid, status, command) = (row.0, row.1, row.3);
    match style {
        SessionStyle::Plain => session_icon(status) + " ["@ + pid + "] "@ + command + " - "@ + status + " ("@
            + runtime + ")\n"@,
        SessionStyle::Ansi => session_style(status).0 + " \x1b[36m["@ + pid + "]\x1b[0m "@ + command + " "@
            + session_style(status).1 + status + "\x1b[0m \x1b[2m("@ + runtime + ")\x1b[0m\n"@,
        SessionStyle::Markdown => "| "@ + session_emoji(status) + " "@ + status + " | "@ + pid + " | `"@ + command
            + "` | "@ + runtime + " |\n"@,
    }
}

/// The sessions rendered, in order, each with its running time as shown.
pub open spec fn session_lines(
    style: SessionStyle,
    rows: Seq<(Seq<char>, Seq<char>, Seq<char>, Seq<char>)>,
    runtimes: Seq<Seq<char>>,
) -> Seq<char>
    decreases rows.len(),
{
    if rows.len() == 0 {
        seq![]
    } else {
        session_lines(style, rows.drop_last(), runtimes) + session_line(
            style,
            rows.last(),
            runtimes[rows.len() - 1],
        )
    }
}

/// A session table rendered, the running time of its `k`-th row shown as
/// `runtimes[k]`; the note that there are no sessions is kept, dimmed or
/// in italics.
pub open spec fn sessions_rendering(style: SessionStyle, output: Seq<char>, runtimes: Seq<Seq<char>>) -> Seq<char> {
    if output == "No active sessions"@ {
        match style {
            SessionStyle::Plain => output,
            SessionStyle::Ansi => "\x1b[2m"@ + output + "\x1b[0m"@,
            SessionStyle::Markdown => "*"@ + output + "*"@,
        }
    } else {
        let head = match style {
            SessionStyle::Plain => "Sessions\n"@ + repeat_spec("─"@, 60) + "\n"@,
            SessionStyle::Ansi => "\x1b[1mSessions\x1b[0m\n"@ + "\x1b[2m"@ + repeat_spec("─"@, 60) + "\x1b[0m\n"@,
            SessionStyle::Markdown => "### Sessions\n\n| Status | PID | Command | Runtime |\n|--------|-----|---------|--------|\n"@,
        };
        head + session_lines(style, table_rows(lines_after(output, 4)), runtimes)
    }
}

fn session_icon_of(status: &str) -> (r: &'static str)
    ensures
        r@ == session_icon(status@),
{
    if contains_str(status, "Running") {
        "●"
    } else if contains_str(status, "Completed") {
        "✓"
    } else {
        "○"
    }
}

fn session_style_of(status: &str) -> (r: (&'static str, &'static str))
    ensures
        (r.0@, r.1@) == session_style(status@),
{
    if contains_str(status, "Running") {
        ("\x1b[32m●\x1b[0m", "\x1b[32m")
    } else if contains_str(status, "Completed") {
        ("\x1b[34m✓\x1b[0m", "\x1b[34m")
    } else if contains_str(status, "Failed") || contains_str(status, "Error") {
        ("\x1b[31m✗\x1b[0m", "\x1b[31m")
    } else {
        ("\x1b[33m○\x1b[0m", "\x1b[33m")
    }
}

fn session_emoji_of(status: &str) -> (r: &'static str)
    ensures
        r@ == session_emoji(status@),
{
    if contains_str(status, "Running") {
        "🟢"
    } else if contains_str(status, "Completed") {
        "🔵"
    } else if contains_str(status, "Failed") || contains_str(status, "Error") {
        "🔴"
    } else {
        "🟡"
    }
}

fn push_session_line(out: &mut String, style: &SessionStyle, row: (&str, &str, &str, &str), runtime: &str)
    ensures
        final(out)@ == old(out)@ + session_line(*style, (row.0@, row.1@, row.2@, row.3@), runtime@),
{
    let (pid, status, _, command) = row;
    match style {
        SessionStyle::Plain => {
            out.append(session_icon_of(status));
            out.append(" [");
            out.append(pid);
            out.append("] ");
            out.append(command);
            out.append(" - ");
            out.append(status);
            out.append(" (");
            out.append(runtime);
            out.append(")\n");
            assert(out@ =~= old(out)@ + session_line(*style, (row.0@, row.1@, row.2@, row.3@), runtime@));
        },
        SessionStyle::Ansi => {
            let (icon, color) = session_style_of(status);
            out.append(icon);
            out.append(" \x1b[36m[");
            out.append(pid);
            out.append("]\x1b[0m ");
            out.append(command);
            out.append(" ");
            out.append(color);
            out.append(status);
            out.append("\x1b[0m \x1b[2m(");
            out.append(runtime);
            out.append(")\x1b[0m\n");
            assert(out@ =~= old(out)@ + session_line(*style, (row.0@, row.1@, row.2@, row.3@), runtime@));
        },
        SessionStyle::Markdown => {
            out.append("| ");
            out.append(session_emoji_of(status));
            out.append(" ");
            out.append(status);
            out.append(" | ");
            out.append(pid);
            out.append(" | `");
            out.append(command);
            out.append("` | ");
            out.append(runtime);
            out.append(" |\n");
            assert(out@ =~= old(out)@ + session_line(*style, (row.0@, row.1@, row.2@, row.3@), runtime@));
        },
    }
}

/// A session table rendered; `runtimes` holds the running time of each row
/// as it is to be shown, one per row of `session_rows(output)`.
pub fn render_sessions(style: SessionStyle, output: &str, runtimes: &Vec<String>) -> (r: String)
    requires
        runtimes@.len() == table_rows(lines_after(output@, 4)).len(),
    ensures
        r@ == sessions_rendering(style, output@, crate::text::string_views(runtimes@)),
{
    let ghost rt = crate::text::string_views(runtimes@);
    if str_equal(output, "No active sessions") {
        let r = match style {
            SessionStyle::Plain => output.to_string(),
            SessionStyle::Ansi => {
                let mut r = "\x1b[2m".to_string();
                r.append(output);
                r.append("\x1b[0m");
                r
            },
            SessionStyle::Markdown => {
                let mut r = "*".to_string();
                r.append(output);
                r.append("*");
                r
            },
        };
        return r;
    }
    let mut r = String::new();
    match style {
        SessionStyle::Plain => {
            r.append("Sessions\n");
            push_repeat(&mut r, "─", 60);
            r.append("\n");
        },
        SessionStyle::Ansi => {
            r.append("\x1b[1mSessions\x1b[0m\n");
            r.append("\x1b[2m");
            push_repeat(&mut r, "─", 60);
            r.append("\x1b[0m\n");
        },
        SessionStyle::Markdown => {
            r.append("### Sessions\n\n| Status | PID | Command | Runtime |\n|--------|-----|---------|--------|\n");
        },
    }
    let ghost head = r@;
    let rows = session_rows(output);
    let ghost rv = row_views(rows@);
    let mut i: usize = 0;
    assert(rv.take(0) =~= Seq::<(Seq<char>, Seq<char>, Seq<char>, Seq<char>)>::empty());
    assert(r@ =~= head + session_lines(style, rv.take(0), rt));
    while i < rows.len()
        invariant
            rv == row_views(rows@),
            rt == crate::text::string_views(runtimes@),
            rows@.len() == runtimes@.len(),
            i <= rows@.len(),
            r@ == head + session_lines(style, rv.take(i as int), rt),
        decreases rows@.len() - i,
    {
        push_session_line(&mut r, &style, rows[i], runtimes[i].as_str());
        proof {
            assert(rv.take(i + 1).drop_last() =~= rv.take(i as int));
            assert(rv.take(i + 1).last() == rv[i as int]);
            assert(rt[i as int] == runtimes@[i as int]@);
        }
        assert(r@ =~= head + session_lines(style, rv.take(i + 1), rt));
        i = i + 1;
    }
    assert(rv.take(rows@.len() as int) =~= rv);
    r
}

} // verus!
