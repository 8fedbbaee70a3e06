//! The edit tool: exact replacement of a block of text, the preservation
//! of a file's line endings, and the report of an edit.

use std::path::PathBuf;
use vstd::prelude::*;
use vstd::string::*;
use crate::text::{chars_of, decimal, has_prefix, lines, matches_at, push_char, push_decimal, split_lines};
use crate::tools::paths::{path_of, working_dir};
use crate::tools::render::{push_wrapped, wrapped};
use crate::tools::header::str_equal;

verus! {

/// Replacements expected when no number is given: 1.
pub fn default_replacements() -> (n: usize)
    ensures
        n == 1,
{
    1
}

/// Fuzzy matching is tried unless turned off.
pub fn default_fuzzy() -> (b: bool)
    ensures
        b,
{
    true
}

/// Every occurrence of a non-empty `p` in `s` replaced by `r`, scanning
/// from the left without overlaps.
pub open spec fn replace_nonempty(s: Seq<char>, p: Seq<char>, r: Seq<char>) -> Seq<char>
    recommends
        p.len() > 0,
    decreases s.len(),
{
    if s.len() == 0 || p.len() == 0 {
        s
    } else if has_prefix(s, p) {
        r + replace_nonempty(s.skip(p.len() as int), p, r)
    } else {
        seq![s[0]] + replace_nonempty(s.drop_first(), p, r)
    }
}

/// `r` put before every character of `s` and at its end: the empty pattern
/// matches at every character boundary.
pub open spec fn replace_empty(s: Seq<char>, r: Seq<char>) -> Seq<char>
    decreases s.len(),
{
    if s.len() == 0 {
        r
    } else {
        r + seq![s[0]] + replace_empty(s.drop_first(), r)
    }
}

/// `s` with every occurrence of `p` replaced by `r` (`str::replace`).
pub open spec fn replace_spec(s: Seq<char>, p: Seq<char>, r: Seq<char>) -> Seq<char> {
    if p.len() == 0 {
        replace_empty(s, r)
    } else {
        replace_nonempty(s, p, r)
    }
}

/// The number of occurrences of a non-empty `p` in `s`, scanning from the
/// left without overlaps.
pub open spec fn count_nonempty(s: Seq<char>, p: Seq<char>) -> nat
    decreases s.len(),
{
    if s.len() == 0 || p.len() == 0 {
        0
    } else if has_prefix(s, p) {
        1 + count_nonempty(s.skip(p.len() as int), p)
    } else {
        count_nonempty(s.drop_first(), p)
    }
}

/// The number of matches of `p` in `s` (`str::matches(..).count()`); the
/// empty pattern matches at every character boundary.
pub open spec fn count_spec(s: Seq<char>, p: Seq<char>) -> nat {
    if p.len() == 0 {
        s.len() + 1
    } else {
        count_nonempty(s, p)
    }
}

/// `s` with every occurrence of `p` replaced by `r`, and the number of
/// occurrences.
pub fn replace_counting(s: &str, p: &str, r: &str) -> (res: (String, usize))
    requires
        p@.len() == 0 ==> s@.len() < usize::MAX,
    ensures
        res.0@ == replace_spec(s@, p@, r@),
        res.1 as nat == count_spec(s@, p@),
{
    let cs = chars_of(s);
    let ps = chars_of(p);
    let n = cs.len();
    let m = ps.len();
    let mut out = String::new();
    let mut count: usize = 0;
    let mut i: usize = 0;
    assert(s@.skip(0) =~= s@);
    proof {
        reveal_strlit("");
    }
    if m == 0 {
        while i < n
            invariant
                cs@ == s@,
                n == s@.len(),
                i <= n,
                replace_empty(s@, r@) == out@ + replace_empty(s@.skip(i as int), r@),
            decreases n - i,
        {
            let ghost before = out@;
            out.append(r);
            push_char(&mut out, cs[i]);
            proof {
                let t = s@.skip(i as int);
                assert(t[0] == cs@[i as int]);
                assert(t.drop_first() =~= s@.skip(i + 1));
                assert(out@ + replace_empty(s@.skip(i + 1), r@) =~= before + (r@ + seq![t[0]] + replace_empty(t.drop_first(), r@)));
            }
            i = i + 1;
        }
        out.append(r);
        assert(s@.skip(n as int) =~= Seq::<char>::empty());
        return (out, n + 1);
    }
    while i < n
        invariant
            cs@ == s@,
            ps@ == p@,
            n == s@.len(),
            m == p@.len(),
            m > 0,
            i <= n,
            count <= i,
            replace_nonempty(s@, p@, r@) == out@ + replace_nonempty(s@.skip(i as int), p@, r@),
            count_nonempty(s@, p@) == count + count_nonempty(s@.skip(i as int), p@),
        decreases n - i,
    {
        let ghost t = s@.skip(i as int);
        let ghost before = out@;
        if matches_at(&cs, i, &ps) {
            out.append(r);
            proof {
                assert(t.skip(m as int) =~= s@.skip(i + m));
            }
            i = i + m;
            count = count + 1;
        } else {
            push_char(&mut out, cs[i]);
            proof {
                assert(t[0] == cs@[i as int]);
                assert(t.drop_first() =~= s@.skip(i + 1));
                assert(out@ + replace_nonempty(s@.skip(i + 1), p@, r@) =~= before + (seq![t[0]] + replace_nonempty(t.drop_first(), p@, r@)));
            }
            i = i + 1;
        }
    }
    assert(s@.skip(n as int) =~= Seq::<char>::empty());
    assert(out@ + replace_nonempty(s@.skip(n as int), p@, r@) =~= out@);
    (out, count)
}

/// Whether a file's text uses CRLF line endings: it holds a `\r\n`.
pub open spec fn uses_crlf(content: Seq<char>) -> bool {
    count_nonempty(content, "\r\n"@) > 0
}

/// The line ending of a file's text: `\r\n` if it holds one, else `\n`.
pub fn detect_line_ending(content: &str) -> (r: &'static str)
    ensures
        r@ == (if uses_crlf(content@) {
            "\r\n"@
        } else {
            "\n"@
        }),
{
    proof {
        reveal_strlit("\r\n");
    }
    let (_, n) = replace_counting(content, "\r\n", "");
    if n > 0 {
        "\r\n"
    } else {
        "\n"
    }
}

/// The text written back: with CRLF endings, every line ending made
/// `\r\n` (existing `\r\n` first made `\n`, so none is doubled);
/// otherwise the text as edited.
pub open spec fn spec_with_line_ending(text: Seq<char>, crlf: bool) -> Seq<char> {
    if crlf {
        replace_nonempty(replace_nonempty(text, "\r\n"@, "\n"@), "\n"@, "\r\n"@)
    } else {
        text
    }
}

/// Give an edited text the line endings of the file.
pub fn with_line_ending(text: String, crlf: bool) -> (r: String)
    ensures
        r@ == spec_with_line_ending(text@, crlf),
{
    if crlf {
        proof {
            reveal_strlit("\r\n");
            reveal_strlit("\n");
        }
        let (lf, _) = replace_counting(text.as_str(), "\r\n", "\n");
        let (out, _) = replace_counting(lf.as_str(), "\n", "\r\n");
        out
    } else {
        text
    }
}

/// The result of an exact edit: the new text and the number of
/// replacements, when the old text occurs at all.
pub open spec fn spec_exact_edit(content: Seq<char>, old: Seq<char>, new: Seq<char>) -> Option<(Seq<char>, nat)> {
    if count_spec(content, old) > 0 {
        Some((replace_spec(content, old, new), count_spec(content, old)))
    } else {
        None
    }
}

/// Replace every occurrence of `old` by `new`, if there is one.
pub fn exact_edit(content: &str, old: &str, new: &str) -> (r: Option<(String, usize)>)
    requires
        old@.len() == 0 ==> content@.len() < usize::MAX,
    ensures
        match spec_exact_edit(content@, old@, new@) {
            Some((t, n)) => r matches Some(x) && x.0@ == t && x.1 as nat == n,
            None => r is None,
        },
{
    let (t, n) = replace_counting(content, old, new);
    if n > 0 {
        Some((t, n))
    } else {
        None
    }
}

/// The error when the number of replacements is not the one expected.
pub fn check_replacements(actual: usize, expected: usize) -> (r: Result<(), String>)
    ensures
        actual == expected ==> r is Ok,
        actual != expected ==> (r matches Err(e) && e@ == "Expected "@ + decimal(expected as nat)
            + " replacement(s) but found "@ + decimal(actual as nat)),
{
    if actual == expected {
        Ok(())
    } else {
        let mut e = "Expected ".to_string();
        push_decimal(&mut e, expected as u64);
        e.append(" replacement(s) but found ");
        push_decimal(&mut e, actual as u64);
        Err(e)
    }
}

/// What the fuzzy search found in a text with no exact match, its
/// figures shown as the tool prints them.
pub enum FuzzyFind {
    /// No window came up to the threshold, shown as a percentage.
    Missed { threshold_shown: String },
    /// The most similar window, from character `start` to character
    /// `end`, and its similarity shown as a percentage.
    Window { start: usize, end: usize, similarity_shown: String },
}

/// Whether an edit asks for the fuzzy search: fuzzy matching is on and the
/// old text does not occur.
pub open spec fn spec_needs_fuzzy(content: Seq<char>, old: Seq<char>, enabled: bool) -> bool {
    enabled && count_spec(content, old) == 0
}

/// Whether an edit asks for the fuzzy search.
pub fn needs_fuzzy(content: &str, old: &str, enabled: bool) -> (b: bool)
    requires
        old@.len() == 0 ==> content@.len() < usize::MAX,
    ensures
        b == spec_needs_fuzzy(content@, old@, enabled),
{
    if !enabled {
        return false;
    }
    let (_, n) = replace_counting(content, old, "");
    n == 0
}

/// A fuzzy find that fits the text: a window lies within it.
pub open spec fn fits_text(content: Seq<char>, find: Option<FuzzyFind>) -> bool {
    match find {
        Some(FuzzyFind::Window { start, end, .. }) => start <= end <= content.len(),
        _ => true,
    }
}

/// The text, method and count of an edit before the count is checked:
/// the exact replacement when the old text occurs, else the refusal when
/// fuzzy matching is off, else the fuzzy window replaced or the refusal
/// naming the threshold.
pub open spec fn spec_edit_match(content: Seq<char>, old: Seq<char>, new: Seq<char>, enabled: bool, find: Option<FuzzyFind>) -> Result<(Seq<char>, Seq<char>, nat), Seq<char>> {
    match spec_exact_edit(content, old, new) {
        Some((t, n)) => Ok((t, "exact"@, n)),
        None => if !enabled {
            Err("No exact match found and fuzzy matching is disabled"@)
        } else {
            match find {
                Some(FuzzyFind::Window { start, end, similarity_shown }) => Ok((
                    content.take(start as int) + new + content.skip(end as int),
                    "fuzzy (similarity: "@ + similarity_shown@ + "%)\nMatched text:\n"@ + content.subrange(start as int, end as int),
                    1,
                )),
                Some(FuzzyFind::Missed { threshold_shown }) => Err(
                    "No match found for the specified text (tried exact and fuzzy matching with threshold "@ + threshold_shown@ + "%)"@,
                ),
                None => Err(seq![]),
            }
        },
    }
}

/// The outcome of an edit: the text to write back, with the file's line
/// endings, the method and the count; or the refusal, the count checked
/// last.
pub open spec fn spec_edit_outcome(content: Seq<char>, old: Seq<char>, new: Seq<char>, expected: nat, enabled: bool, find: Option<FuzzyFind>) -> Result<(Seq<char>, Seq<char>, nat), Seq<char>> {
    match spec_edit_match(content, old, new, enabled, find) {
        Ok((t, m, n)) => if n == expected {
            Ok((spec_with_line_ending(t, uses_crlf(content)), m, n))
        } else {
            Err("Expected "@ + decimal(expected) + " replacement(s) but found "@ + decimal(n))
        },
        Err(e) => Err(e),
    }
}

/// Decide an edit, given what the fuzzy search found where it was asked
/// for (see `needs_fuzzy`).
pub fn edit_outcome(content: &str, old: &str, new: &str, expected: usize, enabled: bool, find: Option<FuzzyFind>) -> (r: Result<(String, String, usize), String>)
    requires
        old@.len() == 0 ==> content@.len() < usize::MAX,
        spec_needs_fuzzy(content@, old@, enabled) ==> find is Some,
        fits_text(content@, find),
    ensures
        match spec_edit_outcome(content@, old@, new@, expected as nat, enabled, find) {
            Ok((t, m, n)) => r matches Ok(x) && x.0@ == t && x.1@ == m && x.2 as nat == n,
            Err(e) => r matches Err(x) && x@ == e,
        },
{
    let (text, method, count): (String, String, usize) = match exact_edit(content, old, new) {
        Some((t, n)) => (t, "exact".to_string(), n),
        None => {
            if !enabled {
                return Err("No exact match found and fuzzy matching is disabled".to_string());
            }
            proof {
                assert(spec_exact_edit(content@, old@, new@) is None);
            }
            match find {
                Some(FuzzyFind::Window { start, end, similarity_shown }) => {
                    let mut t = content.substring_char(0, start).to_string();
                    t.append(new);
                    t.append(content.substring_char(end, content.unicode_len()));
                    let mut m = "fuzzy (similarity: ".to_string();
                    m.append(similarity_shown.as_str());
                    m.append("%)\nMatched text:\n");
                    m.append(content.substring_char(start, end));
                    proof {
                        assert(content@.subrange(0, start as int) =~= content@.take(start as int));
                        assert(content@.subrange(end as int, content@.len() as int) =~= content@.skip(end as int));
                    }
                    (t, m, 1)
                },
                Some(FuzzyFind::Missed { threshold_shown }) => {
                    let mut e = "No match found for the specified text (tried exact and fuzzy matching with threshold ".to_string();
                    e.append(threshold_shown.as_str());
                    e.append("%)");
                    return Err(e);
                },
                None => {
                    return Err(String::new());
                },
            }
        },
    };
    match check_replacements(count, expected) {
        Ok(()) => {},
        Err(e) => {
            return Err(e);
        },
    }
    let crlf = str_equal(detect_line_ending(content), "\r\n");
    proof {
        reveal_strlit("\r\n");
        reveal_strlit("\n");
    }
    Ok((with_line_ending(text, crlf), method, count))
}

/// How the number of lines changed, colored when it did.
pub open spec fn line_change_text(old_lines: nat, new_lines: nat) -> Seq<char> {
    if new_lines > old_lines {
        "(\x1b[32m+"@ + decimal((new_lines - old_lines) as nat) + " lines\x1b[0m)"@
    } else if new_lines < old_lines {
        "(\x1b[31m-"@ + decimal((old_lines - new_lines) as nat) + " lines\x1b[0m)"@
    } else {
        "(no change in line count)"@
    }
}

/// The report of an edit of `path`.
pub open spec fn edit_report_text(path: Seq<char>, method: Seq<char>, count: nat, old: Seq<char>, new: Seq<char>) -> Seq<char> {
    "Successfully edited "@ + path + " using "@ + method + " matching\n"@ + decimal(count) + " replacement(s) "@
        + line_change_text(lines(old).len(), lines(new).len())
}

/// The report of an edit of `path`.
pub fn edit_report(path: &str, method: &str, count: usize, old: &str, new: &str) -> (r: String)
    ensures
        r@ == edit_report_text(path@, method@, count as nat, old@, new@),
{
    let old_lines = split_lines(old).len();
    let new_lines = split_lines(new).len();
    let mut r = "Successfully edited ".to_string();
    r.append(path);
    r.append(" using ");
    r.append(method);
    r.append(" matching\n");
    push_decimal(&mut r, count as u64);
    r.append(" replacement(s) ");
    if new_lines > old_lines {
        r.append("(\x1b[32m+");
        push_decimal(&mut r, (new_lines - old_lines) as u64);
        r.append(" lines\x1b[0m)");
    } else if new_lines < old_lines {
        r.append("(\x1b[31m-");
        push_decimal(&mut r, (old_lines - new_lines) as u64);
        r.append(" lines\x1b[0m)");
    } else {
        r.append("(no change in line count)");
    }
    r
}

/// Every line feed in `s` is preceded by a carriage return.
pub open spec fn only_crlf(s: Seq<char>) -> bool {
    forall|i: int| 0 <= i < s.len() && #[trigger] s[i] == '\n' ==> i > 0 && s[i - 1] == '\r'
}

proof fn lemma_lf_to_crlf(a: Seq<char>)
    ensures
        only_crlf(replace_nonempty(a, "\n"@, "\r\n"@)),
    decreases a.len(),
{
    reveal_strlit("\n");
    reveal_strlit("\r\n");
    if a.len() > 0 {
        if has_prefix(a, "\n"@) {
            lemma_lf_to_crlf(a.skip(1));
            let rest = replace_nonempty(a.skip(1), "\n"@, "\r\n"@);
            let out = "\r\n"@ + rest;
            assert(out == replace_nonempty(a, "\n"@, "\r\n"@));
            assert forall|i: int| 0 <= i < out.len() && #[trigger] out[i] == '\n' implies i > 0 && out[i - 1] == '\r' by {
                if i >= 2 {
                    assert(out[i] == rest[i - 2]);
                    if i - 2 > 0 {
                        assert(out[i - 1] == rest[i - 3]);
                    }
                }
            }
        } else {
            lemma_lf_to_crlf(a.drop_first());
            assert(a[0] != '\n') by {
                if a[0] == '\n' {
                    assert(a.take(1) =~= "\n"@);
                }
            }
            let rest = replace_nonempty(a.drop_first(), "\n"@, "\r\n"@);
            let out = seq![a[0]] + rest;
            assert forall|i: int| 0 <= i < out.len() && #[trigger] out[i] == '\n' implies i > 0 && out[i - 1] == '\r' by {
                if i >= 1 {
                    assert(out[i] == rest[i - 1]);
                    if i - 1 > 0 {
                        assert(out[i - 1] == rest[i - 2]);
                    }
                }
            }
        }
    }
}

/// A file that uses CRLF line endings is written back with every line
/// feed preceded by a carriage return; a file that does not is written
/// back as edited.
pub proof fn law_line_endings_preserved(text: Seq<char>, crlf: bool)
    ensures
        crlf ==> only_crlf(spec_with_line_ending(text, crlf)),
        !crlf ==> spec_with_line_ending(text, crlf) == text,
{
    if crlf {
        lemma_lf_to_crlf(replace_nonempty(text, "\r\n"@, "\n"@));
    }
}

/// How an edit is decided: where the old text occurs, the exact
/// replacement decides it and the fuzzy search plays no part; where it
/// does not and fuzzy matching is off, the edit is refused as such; a
/// fuzzy window replaces just that window, once; an edit goes through
/// only with the expected number of replacements, and is refused naming
/// both numbers otherwise; a file without CRLF endings is written back as
/// edited.
pub proof fn law_edit_decisions(
    content: Seq<char>,
    old: Seq<char>,
    new: Seq<char>,
    expected: nat,
    enabled: bool,
    find: Option<FuzzyFind>,
    other: Option<FuzzyFind>,
)
    ensures
        count_spec(content, old) > 0 ==> spec_edit_outcome(content, old, new, expected, enabled, find)
            == spec_edit_outcome(content, old, new, expected, enabled, other),
        count_spec(content, old) > 0 ==> (spec_edit_outcome(content, old, new, expected, enabled, find) is Ok
            <==> count_spec(content, old) == expected),
        count_spec(content, old) == 0 && !enabled ==> spec_edit_outcome(content, old, new, expected, enabled, find)
            == Err::<(Seq<char>, Seq<char>, nat), Seq<char>>("No exact match found and fuzzy matching is disabled"@),
        spec_edit_outcome(content, old, new, expected, enabled, find) matches Ok((_, _, n)) ==> n == expected,
        count_spec(content, old) == 0 && enabled && expected == 1 ==> (find matches Some(
            FuzzyFind::Window { start, end, .. },
        ) ==> spec_edit_match(content, old, new, enabled, find) matches Ok((t, _, n)) && n == 1 && t
            == content.take(start as int) + new + content.skip(end as int)),
        spec_edit_match(content, old, new, enabled, find) matches Ok((_, _, n)) ==> (n != expected
            ==> spec_edit_outcome(content, old, new, expected, enabled, find) == Err::<(Seq<char>, Seq<char>, nat), Seq<char>>(
            "Expected "@ + decimal(expected) + " replacement(s) but found "@ + decimal(n),
        )),
        !uses_crlf(content) ==> (spec_edit_outcome(content, old, new, expected, enabled, find) matches Ok((t, _, _))
            ==> spec_edit_match(content, old, new, enabled, find) matches Ok((u, _, _)) && t == u),
{
}

/// Replacing every occurrence of a text: replacing a text by itself
/// changes nothing; a text that does not occur leaves the content as it
/// is; and each of the `n` occurrences changes the length by the
/// difference of the two texts' lengths.
pub proof fn law_replacement(s: Seq<char>, p: Seq<char>, r: Seq<char>)
    ensures
        replace_spec(s, p, p) == s,
        p.len() > 0 && count_spec(s, p) == 0 ==> replace_spec(s, p, r) == s,
        p.len() > 0 ==> replace_spec(s, p, r).len() == s.len() + count_spec(s, p) * (r.len() - p.len()),
        p.len() == 0 ==> replace_spec(s, p, r).len() == s.len() + count_spec(s, p) * r.len(),
{
    if p.len() > 0 {
        lemma_replace_nonempty_facts(s, p, r);
    } else {
        lemma_replace_empty_facts(s, r);
        lemma_replace_empty_facts(s, p);
    }
}

proof fn lemma_replace_nonempty_facts(s: Seq<char>, p: Seq<char>, r: Seq<char>)
    requires
        p.len() > 0,
    ensures
        replace_nonempty(s, p, p) == s,
        count_nonempty(s, p) == 0 ==> replace_nonempty(s, p, r) == s,
        replace_nonempty(s, p, r).len() == s.len() + count_nonempty(s, p) * (r.len() - p.len()),
    decreases s.len(),
{
    if s.len() > 0 {
        if has_prefix(s, p) {
            let t = s.skip(p.len() as int);
            lemma_replace_nonempty_facts(t, p, r);
            assert(p + t =~= s);
            let c: int = count_nonempty(t, p) as int;
            let d: int = r.len() - p.len();
            assert(count_nonempty(s, p) == 1 + count_nonempty(t, p));
            assert(replace_nonempty(s, p, r) == r + replace_nonempty(t, p, r));
            assert(replace_nonempty(t, p, r).len() == t.len() + c * d);
            assert(t.len() == s.len() - p.len());
            assert((1 + c) * d == d + c * d) by (nonlinear_arith);
            assert(count_nonempty(s, p) * (r.len() - p.len()) == (1 + c) * d);
        } else {
            lemma_replace_nonempty_facts(s.drop_first(), p, r);
            assert(seq![s[0]] + s.drop_first() =~= s);
            assert(count_nonempty(s, p) == count_nonempty(s.drop_first(), p));
            assert(replace_nonempty(s, p, r) == seq![s[0]] + replace_nonempty(s.drop_first(), p, r));
        }
    } else {
        assert(count_nonempty(s, p) == 0);
        assert(replace_nonempty(s, p, r) == s);
        assert(count_nonempty(s, p) * (r.len() - p.len()) == 0);
    }
}

proof fn lemma_replace_empty_facts(s: Seq<char>, r: Seq<char>)
    ensures
        r.len() == 0 ==> replace_empty(s, r) == s,
        replace_empty(s, r).len() == s.len() + (s.len() + 1) * r.len(),
    decreases s.len(),
{
    if s.len() > 0 {
        lemma_replace_empty_facts(s.drop_first(), r);
        if r.len() == 0 {
            assert(r + seq![s[0]] + s.drop_first() =~= s);
        }
        let n: int = s.len() - 1;
        let k: int = r.len() as int;
        assert(replace_empty(s, r) == r + seq![s[0]] + replace_empty(s.drop_first(), r));
        assert(replace_empty(s.drop_first(), r).len() == n + (n + 1) * k);
        assert((n + 2) * k == k + (n + 1) * k) by (nonlinear_arith);
        assert((s.len() + 1) * r.len() == (n + 2) * k);
    } else {
        assert(replace_empty(s, r) == r);
        assert(s.len() == 0);
        assert((s.len() + 1) * r.len() == 1 * r.len());
        assert(1 * r.len() == r.len()) by (nonlinear_arith);
        assert(r.len() == 0 ==> r =~= s);
    }
}

/// Tool for surgical code editing with exact and fuzzy string replacement.
pub struct EditBlockTool {
    base_path: PathBuf,
}

impl EditBlockTool {
    /// The directory that edits are confined to.
    pub closed spec fn base(&self) -> PathBuf {
        self.base_path
    }

    /// An edit tool rooted at the working directory.
    pub fn new() -> (t: Self)
        ensures
            t.base() == working_dir(),
    {
        EditBlockTool { base_path: path_of(".") }
    }

    /// An edit tool rooted at `base_path`.
    pub fn with_base_path(base_path: PathBuf) -> (t: Self)
        ensures
            t.base() == base_path,
    {
        EditBlockTool { base_path }
    }

    /// The directory that paths are resolved against.
    pub fn base_path(&self) -> (r: &PathBuf)
        ensures
            *r == self.base(),
    {
        &self.base_path
    }

    /// The tool's name.
    pub fn name(&self) -> (r: &'static str)
        ensures
            r@ == "edit_block"@,
    {
        "edit_block"
    }

    /// The tool's description.
    pub fn description(&self) -> (r: &'static str)
        ensures
            r@ == "Edit a file by replacing text. Supports exact matching with fallback to fuzzy matching. Preserves file line endings."@,
    {
        "Edit a file by replacing text. Supports exact matching with fallback to fuzzy matching. Preserves file line endings."
    }
}

/// The fields of an edit's parameters that its renderings show; a field
/// missing or not a string is `None`.
#[derive(Debug)]
pub struct EditParams {
    pub file_path: Option<String>,
    pub old_string: Option<String>,
    pub new_string: Option<String>,
}

/// The text of an optional field, or a default.
pub open spec fn field_or(f: Option<String>, default: Seq<char>) -> Seq<char> {
    match f {
        Some(s) => s@,
        None => default,
    }
}

/// Which rendering of an edit's parameters.
pub enum EditStyle {
    Plain,
    Ansi,
    Markdown,
}

/// An edit's parameters as a diff: the file, then the old lines marked
/// `-` and the new lines marked `+`.
pub open spec fn edit_input_text(style: EditStyle, p: EditParams) -> Seq<char> {
    let path = field_or(p.file_path, "?"@);
    let old = lines(field_or(p.old_string, seq![]));
    let new = lines(field_or(p.new_string, seq![]));
    match style {
        EditStyle::Plain => "edit_block: "@ + path + "\n"@ + "--- old\n"@ + wrapped(old, "- "@, "\n"@) + "+++ new\n"@
            + wrapped(new, "+ "@, "\n"@),
        EditStyle::Ansi => "\x1b[1medit_block:\x1b[0m "@ + path + "\n"@ + "\x1b[31m--- old\x1b[0m\n"@ + wrapped(
            old,
            "\x1b[31m- "@,
            "\x1b[0m\n"@,
        ) + "\x1b[32m+++ new\x1b[0m\n"@ + wrapped(new, "\x1b[32m+ "@, "\x1b[0m\n"@),
        EditStyle::Markdown => "**edit_block:** `"@ + path + "`\n\n```diff\n"@ + wrapped(old, "- "@, "\n"@) + wrapped(
            new,
            "+ "@,
            "\n"@,
        ) + "```\n"@,
    }
}

fn field_text<'a>(f: &'a Option<String>, default: &'static str) -> (r: &'a str)
    ensures
        r@ == field_or(*f, default@),
{
    match f {
        Some(s) => s.as_str(),
        None => default,
    }
}

fn render_edit_input(style: EditStyle, p: &EditParams) -> (r: String)
    ensures
        r@ == edit_input_text(style, *p),
{
    let path = field_text(&p.file_path, "?");
    let old = split_lines(field_text(&p.old_string, ""));
    let new = split_lines(field_text(&p.new_string, ""));
    proof {
        reveal_strlit("");
        assert(""@ =~= Seq::<char>::empty());
    }
    let mut out = String::new();
    match style {
        EditStyle::Plain => {
            out.append("edit_block: ");
            out.append(path);
            out.append("\n");
            out.append("--- old\n");
            push_wrapped(&mut out, &old, "- ", "\n");
            out.append("+++ new\n");
            push_wrapped(&mut out, &new, "+ ", "\n");
        },
        EditStyle::Ansi => {
            out.append("\x1b[1medit_block:\x1b[0m ");
            out.append(path);
            out.append("\n");
            out.append("\x1b[31m--- old\x1b[0m\n");
            push_wrapped(&mut out, &old, "\x1b[31m- ", "\x1b[0m\n");
            out.append("\x1b[32m+++ new\x1b[0m\n");
            push_wrapped(&mut out, &new, "\x1b[32m+ ", "\x1b[0m\n");
        },
        EditStyle::Markdown => {
            out.append("**edit_block:** `");
            out.append(path);
            out.append("`\n\n```diff\n");
            push_wrapped(&mut out, &old, "- ", "\n");
            push_wrapped(&mut out, &new, "+ ", "\n");
            out.append("```\n");
        },
    }
    assert(out@ =~= edit_input_text(style, *p));
    out
}

impl EditBlockTool {
    /// An edit's parameters as a plain diff.
    pub fn format_input_plain(&self, params: &EditParams) -> (r: String)
        ensures
            r@ == edit_input_text(EditStyle::Plain, *params),
    {
        render_edit_input(EditStyle::Plain, params)
    }

    /// An edit's parameters as a diff with ANSI colors.
    pub fn format_input_ansi(&self, params: &EditParams) -> (r: String)
        ensures
            r@ == edit_input_text(EditStyle::Ansi, *params),
    {
        render_edit_input(EditStyle::Ansi, params)
    }

    /// An edit's parameters as a Markdown diff block.
    pub fn format_input_markdown(&self, params: &EditParams) -> (r: String)
        ensures
            r@ == edit_input_text(EditStyle::Markdown, *params),
    {
        render_edit_input(EditStyle::Markdown, params)
    }
}

impl Default for EditBlockTool {
    fn default() -> (t: Self)
        ensures
            t.base() == working_dir(),
    {
        EditBlockTool::new()
    }
}

} // verus!
