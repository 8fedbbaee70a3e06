//! Text primitives over character sequences: lines, prefixes, searching,
//! trimming, and building strings, each with its specification.

use vstd::prelude::*;
use vstd::string::*;

verus! {

/// The characters of `s`, in order.
pub fn chars_of(s: &str) -> (v: Vec<char>)
    ensures
        v@ == s@,
{
    let mut v: Vec<char> = Vec::new();
    for c in it: s.chars()
        invariant
            v@ == it.seq().take(it.index() as int),
    {
        v.push(c);
    }
    v
}

/// A `String` holding exactly the given characters (`FromIterator<&char>`).
#[verifier::external_body]
pub fn string_from_chars(v: &[char]) -> (s: String)
    ensures
        s@ == v@,
{
    v.iter().collect()
}

/// Append one character (`String::push`).
#[verifier::external_body]
pub fn push_char(s: &mut String, c: char)
    ensures
        final(s)@ == old(s)@.push(c),
{
    s.push(c)
}

/// A new `String` holding `a` followed by `b`.
pub fn concat_str(a: &str, b: &str) -> (s: String)
    ensures
        s@ == a@ + b@,
{
    let mut s = a.to_string();
    s.append(b);
    s
}

/// The views of a sequence of string slices.
pub open spec fn views(v: Seq<&str>) -> Seq<Seq<char>> {
    v.map_values(|x: &str| x@)
}

/// The views of a sequence of strings.
pub open spec fn string_views(v: Seq<String>) -> Seq<Seq<char>> {
    v.map_values(|x: String| x@)
}

/// The first index at which `c` occurs in `s`.
pub open spec fn index_of_char(s: Seq<char>, c: char) -> Option<int>
    decreases s.len(),
{
    if s.len() == 0 {
        None
    } else if s[0] == c {
        Some(0)
    } else {
        match index_of_char(s.drop_first(), c) {
            Some(i) => Some(i + 1),
            None => None,
        }
    }
}

/// `index_of_char` is the first occurrence.
pub proof fn lemma_index_of_char(s: Seq<char>, c: char)
    ensures
        index_of_char(s, c) matches Some(i) ==> 0 <= i < s.len() && s[i] == c && forall|j: int|
            0 <= j < i ==> s[j] != c,
        index_of_char(s, c) is None ==> forall|j: int| 0 <= j < s.len() ==> s[j] != c,
    decreases s.len(),
{
    if s.len() > 0 {
        lemma_index_of_char(s.drop_first(), c);
        if s[0] != c {
            assert forall|j: int| 1 <= j < s.len() implies s[j] == s.drop_first()[j - 1] by {}
        }
    }
}

/// The first occurrence of `c` is at `i` when `s[i]` is `c` and no earlier
/// character is.
pub proof fn lemma_index_of_char_at(s: Seq<char>, c: char, i: int)
    requires
        0 <= i < s.len(),
        s[i] == c,
        forall|j: int| 0 <= j < i ==> s[j] != c,
    ensures
        index_of_char(s, c) == Some(i),
{
    lemma_index_of_char(s, c);
}

/// No occurrence of `c` means `None`.
pub proof fn lemma_index_of_char_none(s: Seq<char>, c: char)
    requires
        forall|j: int| 0 <= j < s.len() ==> s[j] != c,
    ensures
        index_of_char(s, c) is None,
{
    lemma_index_of_char(s, c);
}

/// A line with one trailing carriage return removed.
pub open spec fn strip_cr(l: Seq<char>) -> Seq<char> {
    if l.len() > 0 && l.last() == '\r' {
        l.drop_last()
    } else {
        l
    }
}

/// The lines of a text as `str::lines` yields them: split at `\n`, a `\r`
/// before a `\n` dropped, and no empty last line after a final `\n`.
pub open spec fn lines(s: Seq<char>) -> Seq<Seq<char>>
    decreases s.len(),
{
    if s.len() == 0 {
        seq![]
    } else {
        match index_of_char(s, '\n') {
            Some(i) => {
                if 0 <= i < s.len() {
                    seq![strip_cr(s.take(i))] + lines(s.skip(i + 1))
                } else {
                    seq![]
                }
            },
            None => seq![s],
        }
    }
}

/// The lines of `s`, as slices of it.
pub fn split_lines(s: &str) -> (r: Vec<&str>)
    ensures
        views(r@) == lines(s@),
{
    let cs = chars_of(s);
    let n = cs.len();
    let mut r: Vec<&str> = Vec::new();
    let mut start: usize = 0;
    let mut k: usize = 0;
    assert(s@.skip(0) =~= s@);
    assert(views(r@) + lines(s@) =~= lines(s@));
    while k < n
        invariant
            cs@ == s@,
            n == cs@.len(),
            0 <= start <= k <= n,
            forall|j: int| start <= j < k ==> cs@[j] != '\n',
            lines(s@) == views(r@) + lines(s@.skip(start as int)),
        decreases n - k,
    {
        if cs[k] == '\n' {
            let end = if k > start && cs[k - 1] == '\r' {
                k - 1
            } else {
                k
            };
            let line = s.substring_char(start, end);
            proof {
                let t = s@.skip(start as int);
                let i = (k - start) as int;
                assert forall|j: int| 0 <= j < i implies t[j] != '\n' by {
                    assert(t[j] == cs@[start + j]);
                }
                lemma_index_of_char_at(t, '\n', i);
                assert(t.take(i) =~= s@.subrange(start as int, k as int));
                assert(t.skip(i + 1) =~= s@.skip(k + 1));
                assert(strip_cr(t.take(i)) =~= line@);
                assert(views(r@.push(line)) =~= views(r@).push(line@));
            }
            r.push(line);
            start = k + 1;
        }
        k = k + 1;
    }
    if start < n {
        let line = s.substring_char(start, n);
        proof {
            let t = s@.skip(start as int);
            assert forall|j: int| 0 <= j < t.len() implies t[j] != '\n' by {
                assert(t[j] == cs@[start + j]);
            }
            lemma_index_of_char_none(t, '\n');
            assert(t =~= line@);
            assert(views(r@.push(line)) =~= views(r@).push(line@));
        }
        r.push(line);
    } else {
        assert(s@.skip(start as int) =~= Seq::<char>::empty());
        assert(views(r@) + lines(s@.skip(start as int)) =~= views(r@));
    }
    r
}

/// Whether `s` begins with `p`.
pub open spec fn has_prefix(s: Seq<char>, p: Seq<char>) -> bool {
    p.len() <= s.len() && s.take(p.len() as int) == p
}

/// Whether `s` ends with `p`.
pub open spec fn has_suffix(s: Seq<char>, p: Seq<char>) -> bool {
    p.len() <= s.len() && s.skip(s.len() - p.len()) == p
}

/// Whether the characters `cs[at..at + p.len()]` are `p`.
pub(crate) fn matches_at(cs: &Vec<char>, at: usize, p: &Vec<char>) -> (b: bool)
    requires
        at <= cs@.len(),
    ensures
        b == has_prefix(cs@.skip(at as int), p@),
{
    if p.len() > cs.len() - at {
        return false;
    }
    let mut j: usize = 0;
    while j < p.len()
        invariant
            at + p@.len() <= cs@.len(),
            cs@.len() <= usize::MAX,
            0 <= j <= p@.len(),
            forall|m: int| 0 <= m < j ==> cs@[at + m] == p@[m],
        decreases p@.len() - j,
    {
        if cs[at + j] != p[j] {
            assert(cs@.skip(at as int).take(p@.len() as int)[j as int] != p@[j as int]);
            return false;
        }
        j = j + 1;
    }
    assert(cs@.skip(at as int).take(p@.len() as int) =~= p@);
    true
}

/// Whether `s` begins with `p` (`str::starts_with`).
pub fn starts_with(s: &str, p: &str) -> (b: bool)
    ensures
        b == has_prefix(s@, p@),
{
    let cs = chars_of(s);
    let ps = chars_of(p);
    assert(cs@.skip(0) =~= cs@);
    matches_at(&cs, 0, &ps)
}

/// Whether `s` ends with `p` (`str::ends_with`).
pub fn ends_with(s: &str, p: &str) -> (b: bool)
    ensures
        b == has_suffix(s@, p@),
{
    let cs = chars_of(s);
    let ps = chars_of(p);
    if ps.len() > cs.len() {
        return false;
    }
    let at = cs.len() - ps.len();
    let b = matches_at(&cs, at, &ps);
    assert(cs@.skip(at as int).take(ps@.len() as int) =~= cs@.skip(at as int));
    b
}

/// The first index at which `p` occurs in `s`.
pub open spec fn index_of_sub(s: Seq<char>, p: Seq<char>) -> Option<int>
    decreases s.len(),
{
    if p.len() > s.len() {
        None
    } else if has_prefix(s, p) {
        Some(0)
    } else if s.len() == 0 {
        None
    } else {
        match index_of_sub(s.drop_first(), p) {
            Some(i) => Some(i + 1),
            None => None,
        }
    }
}

/// The last index at which `p` occurs in `s`.
pub open spec fn last_index_of_sub(s: Seq<char>, p: Seq<char>) -> Option<int>
    decreases s.len(),
{
    if p.len() > s.len() {
        None
    } else if has_suffix(s, p) {
        Some(s.len() - p.len())
    } else if s.len() == 0 {
        None
    } else {
        last_index_of_sub(s.drop_last(), p)
    }
}

/// `last_index_of_sub` is an occurrence within `s`.
pub proof fn lemma_last_index_of_sub(s: Seq<char>, p: Seq<char>)
    ensures
        last_index_of_sub(s, p) matches Some(i) ==> 0 <= i && i + p.len() <= s.len() && s.subrange(
            i,
            i + p.len(),
        ) == p,
    decreases s.len(),
{
    if p.len() <= s.len() && !has_suffix(s, p) && s.len() > 0 {
        lemma_last_index_of_sub(s.drop_last(), p);
        match last_index_of_sub(s.drop_last(), p) {
            Some(i) => {
                assert(s.subrange(i, i + p.len()) =~= s.drop_last().subrange(i, i + p.len()));
            },
            None => {},
        }
    } else if p.len() <= s.len() && has_suffix(s, p) {
        assert(s.subrange(s.len() - p.len(), s.len() as int) =~= s.skip(s.len() - p.len()));
    }
}

/// The character index of the last occurrence of `p` in `s` (`str::rfind`
/// counted in characters).
pub fn rfind_str(s: &str, p: &str) -> (r: Option<usize>)
    ensures
        r == (match last_index_of_sub(s@, p@) {
            Some(i) => Some(i as usize),
            None => None::<usize>,
        }),
{
    let cs = chars_of(s);
    let ps = chars_of(p);
    let m = ps.len();
    let mut end = cs.len();
    assert(s@.take(end as int) =~= s@);
    while end >= m
        invariant
            end <= cs@.len(),
            cs@ == s@,
            ps@ == p@,
            m == p@.len(),
            last_index_of_sub(s@, p@) == last_index_of_sub(s@.take(end as int), p@),
        decreases end,
    {
        let at = end - m;
        let hit = matches_at(&cs, at, &ps);
        proof {
            assert(s@.take(end as int).skip(at as int) =~= cs@.skip(at as int).take(m as int));
        }
        if hit {
            return Some(at);
        }
        if end == 0 {
            assert(p@ =~= s@.take(0).skip(0));
            return None;
        }
        proof {
            assert(s@.take(end as int).drop_last() =~= s@.take(end - 1));
        }
        end = end - 1;
    }
    None
}

/// `index_of_sub` is the first occurrence.
pub proof fn lemma_index_of_sub(s: Seq<char>, p: Seq<char>)
    ensures
        index_of_sub(s, p) matches Some(i) ==> 0 <= i && i + p.len() <= s.len() && has_prefix(
            s.skip(i),
            p,
        ) && forall|j: int| 0 <= j < i ==> !has_prefix(#[trigger] s.skip(j), p),
        index_of_sub(s, p) is None ==> forall|j: int|
            0 <= j <= s.len() ==> !has_prefix(#[trigger] s.skip(j), p),
    decreases s.len(),
{
    assert(s.skip(0) =~= s);
    if p.len() > s.len() {
    } else if has_prefix(s, p) {
    } else if s.len() == 0 {
    } else {
        lemma_index_of_sub(s.drop_first(), p);
        assert forall|j: int| 1 <= j <= s.len() implies s.skip(j) =~= #[trigger] s.drop_first().skip(j - 1) by {}
        assert forall|j: int| 0 <= j <= s.len() && (index_of_sub(s, p) is None || j < index_of_sub(s, p)->0)
            implies !has_prefix(#[trigger] s.skip(j), p) by {
            if j >= 1 {
                assert(s.skip(j) =~= s.drop_first().skip(j - 1));
            }
        }
        if let Some(i) = index_of_sub(s, p) {
            assert(s.skip(i) =~= s.drop_first().skip(i - 1));
        }
    }
}

/// The first occurrence of `p` is at `i` when it occurs there and at no
/// earlier index.
pub proof fn lemma_index_of_sub_at(s: Seq<char>, p: Seq<char>, i: int)
    requires
        0 <= i <= s.len(),
        has_prefix(s.skip(i), p),
        forall|j: int| 0 <= j < i ==> !has_prefix(#[trigger] s.skip(j), p),
    ensures
        index_of_sub(s, p) == Some(i),
{
    lemma_index_of_sub(s, p);
    if let Some(k) = index_of_sub(s, p) {
        if k > i {
        } else if k < i {
        }
    }
}

/// Where `p` first occurs in the characters `cs`, searching from `from`.
fn find_chars_from(cs: &Vec<char>, from: usize, p: &Vec<char>) -> (r: Option<usize>)
    requires
        from <= cs@.len(),
        forall|j: int| 0 <= j < from ==> !has_prefix(#[trigger] cs@.skip(j), p@),
    ensures
        r == (match index_of_sub(cs@, p@) {
            Some(i) => Some(i as usize),
            None => None::<usize>,
        }),
{
    let mut at = from;
    while at < cs.len()
        invariant
            from <= at <= cs@.len(),
            forall|j: int| 0 <= j < at ==> !has_prefix(#[trigger] cs@.skip(j), p@),
        decreases cs@.len() - at,
    {
        if matches_at(cs, at, p) {
            proof {
                lemma_index_of_sub_at(cs@, p@, at as int);
            }
            return Some(at);
        }
        at = at + 1;
    }
    if matches_at(cs, at, p) {
        proof {
            lemma_index_of_sub_at(cs@, p@, at as int);
        }
        return Some(at);
    }
    proof {
        lemma_index_of_sub(cs@, p@);
        if let Some(i) = index_of_sub(cs@, p@) {
            assert(!has_prefix(cs@.skip(i), p@));
        }
    }
    None
}

/// The character index of the first occurrence of `p` in `s` (`str::find`
/// counted in characters).
pub fn find_str(s: &str, p: &str) -> (r: Option<usize>)
    ensures
        r == (match index_of_sub(s@, p@) {
            Some(i) => Some(i as usize),
            None => None::<usize>,
        }),
{
    let cs = chars_of(s);
    let ps = chars_of(p);
    find_chars_from(&cs, 0, &ps)
}

/// Whether `p` occurs in `s` (`str::contains`).
pub fn contains_str(s: &str, p: &str) -> (b: bool)
    ensures
        b == (index_of_sub(s@, p@) is Some),
{
    find_str(s, p).is_some()
}

/// The first index of `c` in the characters `cs`, searching from `from`.
fn find_char_from(cs: &Vec<char>, from: usize, c: char) -> (r: Option<usize>)
    requires
        from <= cs@.len(),
        forall|j: int| 0 <= j < from ==> cs@[j] != c,
    ensures
        r == (match index_of_char(cs@, c) {
            Some(i) => Some(i as usize),
            None => None::<usize>,
        }),
{
    let mut k = from;
    while k < cs.len()
        invariant
            from <= k <= cs@.len(),
            forall|j: int| 0 <= j < k ==> cs@[j] != c,
        decreases cs@.len() - k,
    {
        if cs[k] == c {
            proof {
                lemma_index_of_char_at(cs@, c, k as int);
            }
            return Some(k);
        }
        k = k + 1;
    }
    proof {
        lemma_index_of_char_none(cs@, c);
    }
    None
}

/// The character index of the first `c` in `s` (`str::find` with a `char`).
pub fn find_char(s: &str, c: char) -> (r: Option<usize>)
    ensures
        r == (match index_of_char(s@, c) {
            Some(i) => Some(i as usize),
            None => None::<usize>,
        }),
{
    let cs = chars_of(s);
    find_char_from(&cs, 0, c)
}

/// Whether `c` occurs in `s`.
pub fn contains_char(s: &str, c: char) -> (b: bool)
    ensures
        b == (index_of_char(s@, c) is Some),
{
    find_char(s, c).is_some()
}

/// Whether `c` has the Unicode `White_Space` property (`char::is_whitespace`).
pub open spec fn is_ws(c: char) -> bool {
    ||| ('\u{9}' <= c && c <= '\u{d}')
    ||| c == ' '
    ||| c == '\u{85}'
    ||| c == '\u{a0}'
    ||| c == '\u{1680}'
    ||| ('\u{2000}' <= c && c <= '\u{200a}')
    ||| c == '\u{2028}'
    ||| c == '\u{2029}'
    ||| c == '\u{202f}'
    ||| c == '\u{205f}'
    ||| c == '\u{3000}'
}

/// Whether `c` is white space.
pub fn is_whitespace(c: char) -> (b: bool)
    ensures
        b == is_ws(c),
{
    ('\u{9}' <= c && c <= '\u{d}') || c == ' ' || c == '\u{85}' || c == '\u{a0}' || c == '\u{1680}'
        || ('\u{2000}' <= c && c <= '\u{200a}') || c == '\u{2028}' || c == '\u{2029}' || c
        == '\u{202f}' || c == '\u{205f}' || c == '\u{3000}'
}

/// Leading white space removed.
pub open spec fn trim_start_spec(s: Seq<char>) -> Seq<char>
    decreases s.len(),
{
    if s.len() > 0 && is_ws(s[0]) {
        trim_start_spec(s.drop_first())
    } else {
        s
    }
}

/// Trailing white space removed.
pub open spec fn trim_end_spec(s: Seq<char>) -> Seq<char>
    decreases s.len(),
{
    if s.len() > 0 && is_ws(s.last()) {
        trim_end_spec(s.drop_last())
    } else {
        s
    }
}

/// Leading and trailing white space removed.
pub open spec fn trim_spec(s: Seq<char>) -> Seq<char> {
    trim_end_spec(trim_start_spec(s))
}

/// Where the text starts after leading white space.
fn trim_start_index(cs: &Vec<char>) -> (k: usize)
    ensures
        k <= cs@.len(),
        trim_start_spec(cs@) == cs@.skip(k as int),
{
    let mut k: usize = 0;
    assert(cs@.skip(0) =~= cs@);
    while k < cs.len() && is_whitespace(cs[k])
        invariant
            k <= cs@.len(),
            trim_start_spec(cs@) == trim_start_spec(cs@.skip(k as int)),
        decreases cs@.len() - k,
    {
        assert(cs@.skip(k as int).drop_first() =~= cs@.skip(k + 1));
        k = k + 1;
    }
    k
}

/// Where the text ends before trailing white space, within `cs[..hi]`.
fn trim_end_index(cs: &Vec<char>, lo: usize) -> (e: usize)
    requires
        lo <= cs@.len(),
    ensures
        lo <= e <= cs@.len(),
        trim_end_spec(cs@.subrange(lo as int, cs@.len() as int)) == cs@.subrange(lo as int, e as int),
{
    let mut e = cs.len();
    while e > lo && is_whitespace(cs[e - 1])
        invariant
            lo <= e <= cs@.len(),
            trim_end_spec(cs@.subrange(lo as int, cs@.len() as int)) == trim_end_spec(
                cs@.subrange(lo as int, e as int),
            ),
        decreases e,
    {
        assert(cs@.subrange(lo as int, e as int).drop_last() =~= cs@.subrange(lo as int, e - 1));
        e = e - 1;
    }
    e
}

/// `s` without leading white space (`str::trim_start`).
pub fn trim_start(s: &str) -> (r: &str)
    ensures
        r@ == trim_start_spec(s@),
{
    let cs = chars_of(s);
    let k = trim_start_index(&cs);
    let r = s.substring_char(k, cs.len());
    assert(r@ =~= s@.skip(k as int));
    r
}

/// `s` without trailing white space (`str::trim_end`).
pub fn trim_end(s: &str) -> (r: &str)
    ensures
        r@ == trim_end_spec(s@),
{
    let cs = chars_of(s);
    let e = trim_end_index(&cs, 0);
    assert(cs@.subrange(0, cs@.len() as int) =~= cs@);
    s.substring_char(0, e)
}

/// `s` without leading and trailing white space (`str::trim`).
pub fn trim(s: &str) -> (r: &str)
    ensures
        r@ == trim_spec(s@),
{
    let cs = chars_of(s);
    let k = trim_start_index(&cs);
    let e = trim_end_index(&cs, k);
    assert(cs@.subrange(k as int, cs@.len() as int) =~= cs@.skip(k as int));
    s.substring_char(k, e)
}

/// `s` with every leading repetition of a non-empty `p` removed
/// (`str::trim_start_matches`).
pub open spec fn trim_start_matches_spec(s: Seq<char>, p: Seq<char>) -> Seq<char>
    decreases s.len(),
{
    if p.len() > 0 && has_prefix(s, p) {
        trim_start_matches_spec(s.skip(p.len() as int), p)
    } else {
        s
    }
}

/// `s` with every leading repetition of `p` removed.
pub fn trim_start_matches<'a>(s: &'a str, p: &str) -> (r: &'a str)
    ensures
        r@ == trim_start_matches_spec(s@, p@),
{
    let cs = chars_of(s);
    let ps = chars_of(p);
    let mut k: usize = 0;
    assert(cs@.skip(0) =~= cs@);
    if ps.len() == 0 {
        return s;
    }
    while k < cs.len() && matches_at(&cs, k, &ps)
        invariant
            k <= cs@.len(),
            ps@.len() > 0,
            trim_start_matches_spec(s@, p@) == trim_start_matches_spec(cs@.skip(k as int), ps@),
        decreases cs@.len() - k,
    {
        assert(cs@.skip(k as int).skip(ps@.len() as int) =~= cs@.skip(k + ps@.len()));
        k = k + ps.len();
    }
    if k >= cs.len() {
        assert(cs@.skip(k as int) =~= Seq::<char>::empty());
    }
    let r = s.substring_char(k, cs.len());
    assert(r@ =~= cs@.skip(k as int));
    r
}

/// The pieces of `s` between occurrences of `c` (`str::split` with a
/// `char`).
pub open spec fn split_spec(s: Seq<char>, c: char) -> Seq<Seq<char>>
    decreases s.len(),
{
    match index_of_char(s, c) {
        Some(i) => {
            if 0 <= i < s.len() {
                seq![s.take(i)] + split_spec(s.skip(i + 1), c)
            } else {
                seq![]
            }
        },
        None => seq![s],
    }
}

/// The pieces of `s` between occurrences of `c`.
pub fn split_char(s: &str, c: char) -> (r: Vec<&str>)
    ensures
        views(r@) == split_spec(s@, c),
{
    let cs = chars_of(s);
    let n = cs.len();
    let mut r: Vec<&str> = Vec::new();
    let mut start: usize = 0;
    let mut k: usize = 0;
    assert(s@.skip(0) =~= s@);
    assert(views(r@) + split_spec(s@, c) =~= split_spec(s@, c));
    while k < n
        invariant
            cs@ == s@,
            n == cs@.len(),
            0 <= start <= k <= n,
            forall|j: int| start <= j < k ==> cs@[j] != c,
            split_spec(s@, c) == views(r@) + split_spec(s@.skip(start as int), c),
        decreases n - k,
    {
        if cs[k] == c {
            let piece = s.substring_char(start, k);
            proof {
                let t = s@.skip(start as int);
                let i = (k - start) as int;
                assert forall|j: int| 0 <= j < i implies t[j] != c by {
                    assert(t[j] == cs@[start + j]);
                }
                lemma_index_of_char_at(t, c, i);
                assert(t.take(i) =~= piece@);
                assert(t.skip(i + 1) =~= s@.skip(k + 1));
                assert(views(r@.push(piece)) =~= views(r@).push(piece@));
            }
            r.push(piece);
            start = k + 1;
        }
        k = k + 1;
    }
    let piece = s.substring_char(start, n);
    proof {
        let t = s@.skip(start as int);
        assert forall|j: int| 0 <= j < t.len() implies t[j] != c by {
            assert(t[j] == cs@[start + j]);
        }
        lemma_index_of_char_none(t, c);
        assert(t =~= piece@);
        assert(views(r@.push(piece)) =~= views(r@).push(piece@));
    }
    r.push(piece);
    r
}

/// The decimal digit character for `d < 10`.
pub open spec fn digit_char(d: nat) -> char {
    if d == 0 { '0' }
    else if d == 1 { '1' }
    else if d == 2 { '2' }
    else if d == 3 { '3' }
    else if d == 4 { '4' }
    else if d == 5 { '5' }
    else if d == 6 { '6' }
    else if d == 7 { '7' }
    else if d == 8 { '8' }
    else { '9' }
}

/// The decimal representation of `n`.
pub open spec fn decimal(n: nat) -> Seq<char>
    decreases n,
{
    if n < 10 {
        seq![digit_char(n)]
    } else {
        decimal(n / 10).push(digit_char(n % 10))
    }
}

fn digit(d: u64) -> (c: char)
    requires
        d < 10,
    ensures
        c == digit_char(d as nat),
{
    if d == 0 { '0' }
    else if d == 1 { '1' }
    else if d == 2 { '2' }
    else if d == 3 { '3' }
    else if d == 4 { '4' }
    else if d == 5 { '5' }
    else if d == 6 { '6' }
    else if d == 7 { '7' }
    else if d == 8 { '8' }
    else { '9' }
}

/// Append the decimal representation of `n`.
pub fn push_decimal(s: &mut String, n: u64)
    ensures
        final(s)@ == old(s)@ + decimal(n as nat),
    decreases n,
{
    if n >= 10 {
        push_decimal(s, n / 10);
    }
    push_char(s, digit(n % 10));
    proof {
        if n >= 10 {
            assert(old(s)@ + decimal(n as nat) =~= old(s)@ + decimal((n / 10) as nat) + seq![digit_char((n % 10) as nat)]);
        } else {
            assert(n % 10 == n);
        }
    }
}

/// The decimal representation of `n` (`u64::to_string`).
pub fn decimal_string(n: u64) -> (s: String)
    ensures
        s@ == decimal(n as nat),
{
    let mut s = String::new();
    push_decimal(&mut s, n);
    assert(s@ =~= decimal(n as nat));
    s
}

/// Whether `c` is an ASCII digit.
pub open spec fn is_digit(c: char) -> bool {
    '0' <= c && c <= '9'
}

/// Whether every character of `s` is an ASCII digit.
pub open spec fn all_digits(s: Seq<char>) -> bool {
    forall|i: int| 0 <= i < s.len() ==> is_digit(#[trigger] s[i])
}

/// The number that a run of digits writes in decimal.
pub open spec fn digits_value(s: Seq<char>) -> int
    decreases s.len(),
{
    if s.len() == 0 {
        0
    } else {
        digits_value(s.drop_last()) * 10 + (s.last() as int - '0' as int)
    }
}

/// The integer that `s` writes: an optional sign, then at least one
/// digit.
pub open spec fn parse_int(s: Seq<char>) -> Option<int> {
    if s.len() > 0 && (s[0] == '+' || s[0] == '-') {
        let d = s.drop_first();
        if d.len() > 0 && all_digits(d) {
            Some(if s[0] == '-' { -digits_value(d) } else { digits_value(d) })
        } else {
            None
        }
    } else if s.len() > 0 && all_digits(s) {
        Some(digits_value(s))
    } else {
        None
    }
}

/// What `i32::from_str` makes of `s`: its integer, if it fits.
pub open spec fn parse_i32_spec(s: Seq<char>) -> Option<i32> {
    match parse_int(s) {
        Some(v) => if i32::MIN <= v <= i32::MAX {
            Some(v as i32)
        } else {
            None
        },
        None => None,
    }
}

/// `s.parse::<i32>().ok()`.
pub fn parse_i32(s: &str) -> (r: Option<i32>)
    ensures
        r == parse_i32_spec(s@),
{
    let cs = chars_of(s);
    let n = cs.len();
    if n == 0 {
        return None;
    }
    let signed = cs[0] == '+' || cs[0] == '-';
    let negative = cs[0] == '-';
    let start: usize = if signed {
        1
    } else {
        0
    };
    if start >= n {
        return None;
    }
    let ghost d = cs@.skip(start as int);
    let limit: i64 = 0x8000_0001;
    let mut acc: i64 = 0;
    let mut i: usize = start;
    assert(d.take(0) =~= Seq::<char>::empty());
    while i < n
        invariant
            d == cs@.skip(start as int),
            cs@ == s@,
            n > 0,
            signed == (cs@[0] == '+' || cs@[0] == '-'),
            start == (if signed { 1usize } else { 0usize }),
            start <= i <= n,
            n == cs@.len(),
            0 <= acc <= limit,
            limit == 0x8000_0001,
            all_digits(d.take(i - start)),
            acc == (if digits_value(d.take(i - start)) < limit { digits_value(d.take(i - start)) } else { limit as int }),
        decreases n - i,
    {
        let c = cs[i];
        if !('0' <= c && c <= '9') {
            proof {
                assert(d[i - start] == c);
                assert(!is_digit(d[i - start]));
                assert(!all_digits(d));
                if signed {
                    assert(d =~= s@.drop_first());
                } else {
                    assert(d =~= s@);
                }
            }
            return None;
        }
        let digit = (c as u32 - '0' as u32) as i64;
        proof {
            let t = d.take(i - start);
            let t1 = d.take(i - start + 1);
            assert(t1.drop_last() =~= t);
            assert(t1.last() == c);
            assert(digits_value(t1) == digits_value(t) * 10 + digit);
            assert(digits_value(t) >= 0) by {
                lemma_digits_value_nonneg(t);
            }
            assert forall|j: int| 0 <= j < t1.len() implies is_digit(#[trigger] t1[j]) by {
                if j < t.len() {
                    assert(t1[j] == t[j]);
                }
            }
        }
        let next = acc * 10 + digit;
        acc = if next < limit {
            next
        } else {
            limit
        };
        proof {
            let t = d.take(i - start);
            let v = digits_value(t);
            if v >= limit {
                assert(v * 10 + digit >= limit) by (nonlinear_arith)
                    requires
                        v >= limit,
                        limit > 0,
                        digit >= 0,
                ;
            }
        }
        i = i + 1;
    }
    assert(d.take(n - start) =~= d);
    proof {
        if !signed {
            assert(d =~= s@);
        } else {
            assert(d =~= s@.drop_first());
        }
    }
    if negative {
        if acc <= 0x8000_0000 {
            Some((-acc) as i32)
        } else {
            None
        }
    } else if acc <= 0x7fff_ffff {
        Some(acc as i32)
    } else {
        None
    }
}

/// A run of digits writes a number that is not negative.
pub proof fn lemma_digits_value_nonneg(s: Seq<char>)
    requires
        all_digits(s),
    ensures
        digits_value(s) >= 0,
    decreases s.len(),
{
    if s.len() > 0 {
        assert(all_digits(s.drop_last())) by {
            assert forall|i: int| 0 <= i < s.drop_last().len() implies is_digit(#[trigger] s.drop_last()[i]) by {
                assert(s.drop_last()[i] == s[i]);
            }
        }
        lemma_digits_value_nonneg(s.drop_last());
        assert(is_digit(s[s.len() - 1]));
    }
}

/// `p` repeated `n` times.
pub open spec fn repeat_spec(p: Seq<char>, n: nat) -> Seq<char>
    decreases n,
{
    if n == 0 {
        seq![]
    } else {
        repeat_spec(p, (n - 1) as nat) + p
    }
}

/// Append `p` repeated `n` times.
pub fn push_repeat(s: &mut String, p: &str, n: usize)
    ensures
        final(s)@ == old(s)@ + repeat_spec(p@, n as nat),
{
    let mut i: usize = 0;
    assert(old(s)@ + repeat_spec(p@, 0) =~= old(s)@);
    while i < n
        invariant
            i <= n,
            s@ == old(s)@ + repeat_spec(p@, i as nat),
        decreases n - i,
    {
        s.append(p);
        i = i + 1;
        assert(s@ =~= old(s)@ + repeat_spec(p@, i as nat));
    }
}

/// `n` spaces.
pub open spec fn spaces(n: nat) -> Seq<char> {
    Seq::new(n, |i: int| ' ')
}

/// `s` padded with spaces on the right to at least `w` characters
/// (`{:<w}`).
pub open spec fn pad_right_spec(s: Seq<char>, w: nat) -> Seq<char> {
    if s.len() < w {
        s + spaces((w - s.len()) as nat)
    } else {
        s
    }
}

/// `s` padded with spaces on the left to at least `w` characters
/// (`{:>w}`).
pub open spec fn pad_left_spec(s: Seq<char>, w: nat) -> Seq<char> {
    if s.len() < w {
        spaces((w - s.len()) as nat) + s
    } else {
        s
    }
}

/// Append `n` spaces.
pub fn push_spaces(s: &mut String, n: usize)
    ensures
        final(s)@ == old(s)@ + spaces(n as nat),
{
    let mut i: usize = 0;
    while i < n
        invariant
            i <= n,
            s@ == old(s)@ + spaces(i as nat),
        decreases n - i,
    {
        push_char(s, ' ');
        i = i + 1;
        assert(s@ =~= old(s)@ + spaces(i as nat));
    }
}

/// Append `v` padded on the right to `w` characters.
pub fn push_pad_right(s: &mut String, v: &str, w: usize)
    ensures
        final(s)@ == old(s)@ + pad_right_spec(v@, w as nat),
{
    let n = v.unicode_len();
    s.append(v);
    if n < w {
        push_spaces(s, w - n);
        assert(s@ =~= old(s)@ + pad_right_spec(v@, w as nat));
    }
}

/// Append `v` padded on the left to `w` characters.
pub fn push_pad_left(s: &mut String, v: &str, w: usize)
    ensures
        final(s)@ == old(s)@ + pad_left_spec(v@, w as nat),
{
    let n = v.unicode_len();
    if n < w {
        push_spaces(s, w - n);
    }
    s.append(v);
    assert(s@ =~= old(s)@ + pad_left_spec(v@, w as nat));
}

/// The parts joined with `sep` between each two (`[String]::join`).
pub open spec fn join_spec(parts: Seq<Seq<char>>, sep: Seq<char>) -> Seq<char>
    decreases parts.len(),
{
    if parts.len() == 0 {
        seq![]
    } else if parts.len() == 1 {
        parts[0]
    } else {
        join_spec(parts.drop_last(), sep) + sep + parts.last()
    }
}

/// Joining two nonempty runs of parts: the first joined, the separator,
/// then the second joined.
pub proof fn lemma_join_append(a: Seq<Seq<char>>, b: Seq<Seq<char>>, sep: Seq<char>)
    requires
        a.len() > 0,
        b.len() > 0,
    ensures
        join_spec(a + b, sep) == join_spec(a, sep) + sep + join_spec(b, sep),
    decreases b.len(),
{
    let ab = a + b;
    assert(ab.drop_last() =~= a + b.drop_last());
    assert(ab.last() == b.last());
    if b.len() == 1 {
        assert(a + b.drop_last() =~= a);
        assert(join_spec(b, sep) == b[0]);
    } else {
        lemma_join_append(a, b.drop_last(), sep);
    }
}

/// Append the parts joined with `sep`.
pub fn push_joined(s: &mut String, parts: &Vec<String>, sep: &str)
    ensures
        final(s)@ == old(s)@ + join_spec(string_views(parts@), sep@),
{
    let ghost pv = string_views(parts@);
    let mut i: usize = 0;
    assert(pv.take(0) =~= Seq::<Seq<char>>::empty());
    assert(old(s)@ + join_spec(pv.take(0), sep@) =~= old(s)@);
    while i < parts.len()
        invariant
            pv == string_views(parts@),
            i <= parts@.len(),
            s@ == old(s)@ + join_spec(pv.take(i as int), sep@),
        decreases parts@.len() - i,
    {
        let ghost prev = s@;
        if i > 0 {
            s.append(sep);
        }
        s.append(parts[i].as_str());
        proof {
            assert(pv.take(i + 1).drop_last() =~= pv.take(i as int));
            assert(pv[i as int] == parts@[i as int]@);
            if i == 0 {
                assert(pv.take(1) =~= seq![pv[0]]);
            }
            assert(s@ =~= old(s)@ + join_spec(pv.take(i + 1), sep@));
        }
        i = i + 1;
    }
    assert(pv.take(parts@.len() as int) =~= pv);
}

/// The length of the run of non-white-space characters that `s` begins with.
pub open spec fn word_len(s: Seq<char>) -> nat
    decreases s.len(),
{
    if s.len() == 0 || is_ws(s[0]) {
        0
    } else {
        1 + word_len(s.drop_first())
    }
}

/// The white-space separated words of `s` (`str::split_whitespace`).
pub open spec fn words(s: Seq<char>) -> Seq<Seq<char>>
    decreases s.len(),
{
    if s.len() == 0 {
        seq![]
    } else if is_ws(s[0]) {
        words(s.drop_first())
    } else {
        proof {
            lemma_word_len_bounds(s);
        }
        seq![s.take(word_len(s) as int)] + words(s.skip(word_len(s) as int))
    }
}

/// The decimal text of a number is a run of digits that writes it, and
/// reads back as it.
pub proof fn lemma_decimal_value(n: nat)
    ensures
        decimal(n).len() > 0,
        all_digits(decimal(n)),
        digits_value(decimal(n)) == n,
        parse_int(decimal(n)) == Some(n as int),
    decreases n,
{
    let d = decimal(n);
    if n < 10 {
        assert(d.drop_last() =~= Seq::<char>::empty());
        assert(digits_value(d) == digits_value(d.drop_last()) * 10 + (d.last() as int - '0' as int));
    } else {
        lemma_decimal_value(n / 10);
        let h = decimal(n / 10);
        assert(d.drop_last() =~= h);
        assert forall|i: int| 0 <= i < d.len() implies is_digit(#[trigger] d[i]) by {
            if i < h.len() {
                assert(d[i] == h[i]);
            }
        }
        assert(digits_value(d) == digits_value(h) * 10 + (d.last() as int - '0' as int));
        assert(d.last() as int - '0' as int == n % 10);
    }
    assert(is_digit(d[0]));
}

/// A word, then white space or nothing: that word, then the words of the
/// rest.
pub proof fn lemma_words_cons(w: Seq<char>, rest: Seq<char>)
    requires
        w.len() > 0,
        forall|i: int| 0 <= i < w.len() ==> !is_ws(#[trigger] w[i]),
        rest.len() == 0 || is_ws(rest[0]),
    ensures
        words(w + rest) == seq![w] + words(rest),
{
    let s = w + rest;
    assert forall|j: int| 0 <= j < w.len() implies !is_ws(s[j]) by {
        assert(s[j] == w[j]);
    }
    if rest.len() > 0 {
        assert(s[w.len() as int] == rest[0]);
    }
    lemma_word_len(s, w.len() as int);
    assert(s[0] == w[0]);
    assert(s.take(w.len() as int) =~= w);
    assert(s.skip(w.len() as int) =~= rest);
}

/// A white space character before a text does not change its words.
pub proof fn lemma_words_ws(c: char, x: Seq<char>)
    requires
        is_ws(c),
    ensures
        words(seq![c] + x) == words(x),
{
    assert((seq![c] + x)[0] == c);
    assert((seq![c] + x).drop_first() =~= x);
}

/// A word is at least one character long and no longer than the text.
pub proof fn lemma_word_len_bounds(s: Seq<char>)
    ensures
        word_len(s) <= s.len(),
        s.len() > 0 && !is_ws(s[0]) ==> word_len(s) >= 1,
    decreases s.len(),
{
    if s.len() > 0 {
        lemma_word_len_bounds(s.drop_first());
    }
}

proof fn lemma_word_len(s: Seq<char>, k: int)
    requires
        0 <= k <= s.len(),
        forall|j: int| 0 <= j < k ==> !is_ws(s[j]),
        k == s.len() || is_ws(s[k]),
    ensures
        word_len(s) == k,
    decreases k,
{
    if k > 0 {
        lemma_word_len(s.drop_first(), k - 1);
    }
}

/// The white-space separated words of `s`, as slices of it.
pub fn split_words(s: &str) -> (r: Vec<&str>)
    ensures
        views(r@) == words(s@),
{
    let cs = chars_of(s);
    let n = cs.len();
    let mut r: Vec<&str> = Vec::new();
    let mut i: usize = 0;
    assert(s@.skip(0) =~= s@);
    assert(views(r@) + words(s@) =~= words(s@));
    while i < n
        invariant
            cs@ == s@,
            n == s@.len(),
            i <= n,
            words(s@) == views(r@) + words(s@.skip(i as int)),
        decreases n - i,
    {
        if is_whitespace(cs[i]) {
            proof {
                assert(s@.skip(i as int).drop_first() =~= s@.skip(i + 1));
            }
            i = i + 1;
        } else {
            let mut j = i + 1;
            while j < n && !is_whitespace(cs[j])
                invariant
                    cs@ == s@,
                    n == s@.len(),
                    i < j <= n,
                    forall|m: int| i <= m < j ==> !is_ws(s@[m]),
                decreases n - j,
            {
                j = j + 1;
            }
            let w = s.substring_char(i, j);
            proof {
                let t = s@.skip(i as int);
                lemma_word_len(t, (j - i) as int);
                assert(w@ =~= t.take((j - i) as int));
                assert(t.skip((j - i) as int) =~= s@.skip(j as int));
                assert(views(r@.push(w)) =~= views(r@).push(w@));
                assert(views(r@).push(w@) + words(s@.skip(j as int)) =~= views(r@) + (seq![w@] + words(s@.skip(j as int))));
            }
            r.push(w);
            i = j;
        }
    }
    assert(s@.skip(n as int) =~= Seq::<char>::empty());
    assert(views(r@) + words(s@.skip(n as int)) =~= views(r@));
    r
}

} // verus!
