//! The `Key: value` header that several tools put above a `---` line and
//! their content.

use vstd::prelude::*;
use vstd::string::*;
use vstd::utf8::*;
use crate::text::{
    find_str, index_of_char, index_of_sub, lemma_index_of_char_at, lemma_index_of_sub,
    lemma_index_of_sub_at, has_prefix, lines, split_lines, starts_with, strip_cr, trim_start_matches,
    trim_start_matches_spec, views,
};

verus! {

/// The views of a sequence of pairs of string slices.
pub open spec fn pair_views(v: Seq<(&str, &str)>) -> Seq<(Seq<char>, Seq<char>)> {
    v.map_values(|p: (&str, &str)| (p.0@, p.1@))
}

/// The field a header line holds: the text before the first `": "` and the
/// text after it, if the line has one.
pub open spec fn line_field(line: Seq<char>) -> Seq<(Seq<char>, Seq<char>)> {
    match index_of_sub(line, ": "@) {
        Some(i) => seq![(line.take(i), line.skip(i + 2))],
        None => seq![],
    }
}

/// The fields of the lines before the first `---` line.
pub open spec fn header_fields(ls: Seq<Seq<char>>) -> Seq<(Seq<char>, Seq<char>)>
    decreases ls.len(),
{
    if ls.len() == 0 || ls[0] == "---"@ {
        seq![]
    } else {
        line_field(ls[0]) + header_fields(ls.drop_first())
    }
}

/// The index of the first `---` line.
pub open spec fn separator_index(ls: Seq<Seq<char>>) -> Option<int>
    decreases ls.len(),
{
    if ls.len() == 0 {
        None
    } else if ls[0] == "---"@ {
        Some(0)
    } else {
        match separator_index(ls.drop_first()) {
            Some(i) => Some(i + 1),
            None => None,
        }
    }
}

/// The sum, over the lines up to and including `i`, of each line's UTF-8
/// length plus one.
pub open spec fn bytes_through(ls: Seq<Seq<char>>, i: int) -> nat
    decreases i + 1,
{
    if i < 0 || i >= ls.len() {
        0
    } else {
        bytes_through(ls, i - 1) + encode_utf8(ls[i]).len() + 1
    }
}

/// The byte offset at which the content is taken: just past the `---` line
/// counted with one byte per line end, when a line follows it; else 0.
pub open spec fn content_offset(ls: Seq<Seq<char>>) -> nat {
    match separator_index(ls) {
        Some(i) => if i + 1 < ls.len() {
            bytes_through(ls, i)
        } else {
            0
        },
        None => 0,
    }
}

/// Whether the content offset of `s` falls on a character boundary, where
/// the content is cut from the header (a cut inside a character panics).
pub open spec fn header_offset_ok(s: Seq<char>) -> bool {
    content_offset(lines(s)) < encode_utf8(s).len() ==> is_char_boundary(
        encode_utf8(s),
        content_offset(lines(s)) as int,
    )
}

/// The content below the header: the text from the content offset on, with
/// leading newlines removed; empty when the offset is past the end.
pub open spec fn header_content(s: Seq<char>) -> Seq<char> {
    let b = encode_utf8(s);
    let start = content_offset(lines(s));
    if start < b.len() {
        trim_start_matches_spec(decode_utf8(b.skip(start as int)), "\n"@)
    } else {
        seq![]
    }
}

/// Whether two string slices are equal.
pub fn str_equal(a: &str, b: &str) -> (r: bool)
    ensures
        r == (a@ == b@),
{
    let la = a.unicode_len();
    let lb = b.unicode_len();
    if la != lb {
        return false;
    }
    let r = starts_with(a, b);
    proof {
        assert(a@.take(b@.len() as int) =~= a@);
    }
    r
}

proof fn lemma_separator_index(ls: Seq<Seq<char>>, i: int)
    requires
        0 <= i < ls.len(),
        ls[i] == "---"@,
        forall|k: int| 0 <= k < i ==> ls[k] != "---"@,
    ensures
        separator_index(ls) == Some(i),
    decreases i,
{
    if i > 0 {
        let rest = ls.drop_first();
        assert forall|k: int| 0 <= k < i - 1 implies rest[k] != "---"@ by {
            assert(rest[k] == ls[k + 1]);
        }
        lemma_separator_index(rest, i - 1);
    }
}

proof fn lemma_no_separator(ls: Seq<Seq<char>>)
    requires
        forall|k: int| 0 <= k < ls.len() ==> ls[k] != "---"@,
    ensures
        separator_index(ls) is None,
    decreases ls.len(),
{
    if ls.len() > 0 {
        let rest = ls.drop_first();
        assert forall|k: int| 0 <= k < rest.len() implies rest[k] != "---"@ by {
            assert(rest[k] == ls[k + 1]);
        }
        lemma_no_separator(rest);
    }
}

/// The field of one line, as slices of it.
pub(crate) fn field_of<'a>(line: &'a str) -> (r: Option<(&'a str, &'a str)>)
    ensures
        r is None ==> line_field(line@) == Seq::<(Seq<char>, Seq<char>)>::empty(),
        r matches Some(p) ==> line_field(line@) == seq![(p.0@, p.1@)],
{
    match find_str(line, ": ") {
        Some(ci) => {
            proof {
                lemma_index_of_sub(line@, ": "@);
                reveal_strlit(": ");
            }
            let n = line.unicode_len();
            let key = line.substring_char(0, ci);
            let value = line.substring_char(ci + 2, n);
            assert(key@ =~= line@.take(ci as int));
            assert(value@ =~= line@.skip(ci + 2));
            Some((key, value))
        },
        None => None,
    }
}

/// The sum of the UTF-8 lengths plus one of `ls[0..=i]`, saturating.
fn sum_bytes_through(ls: &Vec<&str>, i: usize) -> (r: usize)
    requires
        i < ls@.len(),
    ensures
        r as nat == if bytes_through(views(ls@), i as int) <= usize::MAX {
            bytes_through(views(ls@), i as int)
        } else {
            usize::MAX as nat
        },
{
    let mut acc: usize = 0;
    let mut k: usize = 0;
    let _n = ls.len();
    while k <= i
        invariant
            k <= i + 1,
            i < ls@.len(),
            ls@.len() <= usize::MAX,
            acc as nat == if bytes_through(views(ls@), k - 1) <= usize::MAX {
                bytes_through(views(ls@), k - 1)
            } else {
                usize::MAX as nat
            },
        decreases i + 1 - k,
    {
        let l = ls[k].as_bytes().len();
        assert(views(ls@)[k as int] == ls@[k as int]@);
        assert(bytes_through(views(ls@), k as int) == bytes_through(views(ls@), k - 1) + l + 1);
        acc = acc.saturating_add(l).saturating_add(1);
        k = k + 1;
    }
    acc
}

/// Whether the content of a tool's output can be cut from its header: the
/// content offset falls on a character boundary.
pub fn header_renders(output: &str) -> (b: bool)
    ensures
        b == header_offset_ok(output@),
{
    let ls = split_lines(output);
    let ghost lv = views(ls@);
    let mut i: usize = 0;
    let mut found = false;
    while i < ls.len() && !found
        invariant
            lv == views(ls@),
            lv == lines(output@),
            i <= ls@.len(),
            forall|k: int| 0 <= k < i ==> lv[k] != "---"@,
            found ==> i < ls@.len() && lv[i as int] == "---"@,
        decreases ls@.len() - i + if found {
            0int
        } else {
            1int
        },
    {
        assert(lv[i as int] == ls@[i as int]@);
        if str_equal(ls[i], "---") {
            found = true;
        } else {
            i = i + 1;
        }
    }
    proof {
        reveal_strlit("---");
        encode_utf8_valid_utf8(output@);
        is_char_boundary_start_end_of_seq(output.spec_bytes());
    }
    let total = output.as_bytes().len();
    if !found {
        proof {
            lemma_no_separator(lv);
        }
        return true;
    }
    proof {
        lemma_separator_index(lv, i as int);
    }
    if i + 1 >= ls.len() {
        return true;
    }
    let start = sum_bytes_through(&ls, i);
    if start < total {
        output.is_char_boundary(start)
    } else {
        true
    }
}

/// Split a tool's output into its header fields and its content.
pub fn parse_header<'a>(output: &'a str) -> (r: (Vec<(&'a str, &'a str)>, &'a str))
    requires
        header_offset_ok(output@),
    ensures
        pair_views(r.0@) == header_fields(lines(output@)),
        r.1@ == header_content(output@),
{
    let ls = split_lines(output);
    let ghost lv = views(ls@);
    let mut fields: Vec<(&'a str, &'a str)> = Vec::new();
    let mut content_start: usize = 0;
    let mut i: usize = 0;
    let mut found = false;
    assert(lv.skip(0) =~= lv);
    assert(pair_views(fields@) + header_fields(lv) =~= header_fields(lv));
    while i < ls.len() && !found
        invariant
            lv == views(ls@),
            lv == lines(output@),
            i <= ls@.len(),
            forall|k: int| 0 <= k < i ==> lv[k] != "---"@,
            found ==> i < ls@.len() && lv[i as int] == "---"@,
            header_fields(lv) == pair_views(fields@) + header_fields(lv.skip(i as int)),
            !found ==> content_start == 0,
            found ==> content_start as nat == if i + 1 < lv.len() {
                if bytes_through(lv, i as int) <= usize::MAX {
                    bytes_through(lv, i as int)
                } else {
                    usize::MAX as nat
                }
            } else {
                0
            },
        decreases ls@.len() - i + (if found { 0int } else { 1int }),
    {
        let line = ls[i];
        assert(lv[i as int] == line@);
        if str_equal(line, "---") {
            proof {
                reveal_strlit("---");
            }
            found = true;
            if i + 1 < ls.len() {
                content_start = sum_bytes_through(&ls, i);
            }
        } else {
            proof {
                reveal_strlit("---");
                assert(lv.skip(i as int)[0] == line@);
                assert(lv.skip(i as int).drop_first() =~= lv.skip(i + 1));
            }
            match field_of(line) {
                Some(p) => {
                    proof {
                        assert(pair_views(fields@.push(p)) =~= pair_views(fields@) + seq![(p.0@, p.1@)]);
                    }
                    fields.push(p);
                },
                None => {},
            }
            i = i + 1;
        }
    }
    proof {
        if found {
            lemma_separator_index(lv, i as int);
            assert(lv.skip(i as int)[0] == "---"@);
        } else {
            lemma_no_separator(lv);
            assert(lv.skip(i as int) =~= Seq::<Seq<char>>::empty());
        }
        assert(pair_views(fields@) + header_fields(lv.skip(i as int)) =~= pair_views(fields@));
    }
    let total = output.as_bytes().len();
    let content = if content_start < total {
        let (_, rest) = output.split_at(content_start);
        proof {
            encode_utf8_decode_utf8(rest@);
            assert(rest.spec_bytes() =~= output.spec_bytes().skip(content_start as int));
        }
        trim_start_matches(rest, "\n")
    } else {
        ""
    };
    proof {
        if content_start >= total {
            assert(content@ =~= Seq::<char>::empty()) by {
                reveal_strlit("");
            }
        }
    }
    (fields, content)
}

/// The rows a formatter writes for a sequence of fields, concatenated.
pub open spec fn concat_rows(
    fs: Seq<(Seq<char>, Seq<char>)>,
    row: spec_fn(Seq<char>, Seq<char>) -> Seq<char>,
) -> Seq<char>
    decreases fs.len(),
{
    if fs.len() == 0 {
        seq![]
    } else {
        concat_rows(fs.drop_last(), row) + row(fs.last().0, fs.last().1)
    }
}

/// One step of `concat_rows`.
pub proof fn lemma_concat_rows_step(
    fs: Seq<(Seq<char>, Seq<char>)>,
    i: int,
    row: spec_fn(Seq<char>, Seq<char>) -> Seq<char>,
)
    requires
        0 <= i < fs.len(),
    ensures
        concat_rows(fs.take(i + 1), row) == concat_rows(fs.take(i), row) + row(fs[i].0, fs[i].1),
{
    assert(fs.take(i + 1).drop_last() =~= fs.take(i));
}

/// The value of the first field with the given key.
pub open spec fn first_value(fs: Seq<(Seq<char>, Seq<char>)>, key: Seq<char>) -> Option<Seq<char>>
    decreases fs.len(),
{
    if fs.len() == 0 {
        None
    } else if fs[0].0 == key {
        Some(fs[0].1)
    } else {
        first_value(fs.drop_first(), key)
    }
}

/// The value of the first field with the given key.
pub fn find_value<'a>(fields: &Vec<(&'a str, &'a str)>, key: &str) -> (r: Option<&'a str>)
    ensures
        r is None <==> first_value(pair_views(fields@), key@) is None,
        r matches Some(v) ==> first_value(pair_views(fields@), key@) == Some(v@),
{
    let ghost fv = pair_views(fields@);
    let mut i: usize = 0;
    assert(fv.skip(0) =~= fv);
    while i < fields.len()
        invariant
            fv == pair_views(fields@),
            i <= fields@.len(),
            first_value(fv, key@) == first_value(fv.skip(i as int), key@),
        decreases fields@.len() - i,
    {
        assert(fv.skip(i as int)[0] == (fields@[i as int].0@, fields@[i as int].1@));
        if str_equal(fields[i].0, key) {
            return Some(fields[i].1);
        }
        assert(fv.skip(i as int).drop_first() =~= fv.skip(i + 1));
        i = i + 1;
    }
    None
}

/// A header line: the key, `": "` and the value.
pub open spec fn field_line(f: (Seq<char>, Seq<char>)) -> Seq<char> {
    f.0 + ": "@ + f.1
}

/// The header lines of some fields.
pub open spec fn field_lines(fs: Seq<(Seq<char>, Seq<char>)>) -> Seq<Seq<char>> {
    fs.map_values(|f: (Seq<char>, Seq<char>)| field_line(f))
}

/// Header lines, each ended by a line feed.
pub open spec fn header_text(fs: Seq<(Seq<char>, Seq<char>)>) -> Seq<char>
    decreases fs.len(),
{
    if fs.len() == 0 {
        seq![]
    } else {
        field_line(fs[0]) + "\n"@ + header_text(fs.drop_first())
    }
}

/// The header text of two runs of fields is the text of the first, then
/// that of the second.
pub proof fn lemma_header_text_append(a: Seq<(Seq<char>, Seq<char>)>, b: Seq<(Seq<char>, Seq<char>)>)
    ensures
        header_text(a + b) == header_text(a) + header_text(b),
    decreases a.len(),
{
    if a.len() == 0 {
        assert(a + b =~= b);
        assert(header_text(a) + header_text(b) =~= header_text(b));
    } else {
        assert((a + b)[0] == a[0]);
        assert((a + b).drop_first() =~= a.drop_first() + b);
        lemma_header_text_append(a.drop_first(), b);
        assert(header_text(a + b) =~= header_text(a) + header_text(b));
    }
}

/// A text in the tools' result layout: the header lines, a blank line,
/// the `---` line, a blank line, then the body.
pub open spec fn framed(fs: Seq<(Seq<char>, Seq<char>)>, body: Seq<char>) -> Seq<char> {
    header_text(fs) + "\n---\n\n"@ + body
}

/// Whether `s` holds neither a line feed nor a carriage return.
pub open spec fn single_line(s: Seq<char>) -> bool {
    forall|i: int| 0 <= i < s.len() ==> s[i] != '\n' && s[i] != '\r'
}

/// A field that a header line can carry and give back: its key holds no
/// colon, and neither key nor value breaks the line.
pub open spec fn writable_field(f: (Seq<char>, Seq<char>)) -> bool {
    &&& single_line(f.0)
    &&& single_line(f.1)
    &&& forall|i: int| 0 <= i < f.0.len() ==> f.0[i] != ':'
}

/// The lines of a text, each ended by a line feed.
pub open spec fn joined(ls: Seq<Seq<char>>) -> Seq<char>
    decreases ls.len(),
{
    if ls.len() == 0 {
        seq![]
    } else {
        joined(ls.drop_last()) + ls.last() + "\n"@
    }
}

/// UTF-8 encoding distributes over concatenation.
pub proof fn lemma_encode_concat(a: Seq<char>, c: Seq<char>)
    ensures
        encode_utf8(a + c) == encode_utf8(a) + encode_utf8(c),
    decreases a.len(),
{
    if a.len() == 0 {
        assert(a + c =~= c);
        assert(encode_utf8(a) + encode_utf8(c) =~= encode_utf8(c));
    } else {
        assert((a + c)[0] == a[0]);
        assert((a + c).drop_first() =~= a.drop_first() + c);
        lemma_encode_concat(a.drop_first(), c);
        assert(encode_utf8(a + c) =~= encode_utf8(a) + encode_utf8(c));
    }
}

/// The end of an encoded prefix is a character boundary.
proof fn lemma_boundary_concat(a: Seq<char>, c: Seq<char>)
    ensures
        is_char_boundary(encode_utf8(a + c), encode_utf8(a).len() as int),
    decreases a.len(),
{
    let bytes = encode_utf8(a + c);
    encode_utf8_valid_utf8(a + c);
    if a.len() > 0 {
        lemma_encode_concat(a, c);
        encode_utf8_first_scalar(a + c);
        assert((a + c)[0] == a[0]);
        assert((a + c).drop_first() =~= a.drop_first() + c);
        assert(pop_first_scalar(bytes) =~= encode_utf8(a.drop_first() + c));
        lemma_boundary_concat(a.drop_first(), c);
        lemma_encode_concat(a.drop_first(), c);
    }
}

proof fn lemma_lf_len()
    ensures
        encode_utf8("\n"@).len() == 1,
{
    reveal_strlit("\n");
    let s = "\n"@;
    assert(s.len() == 1);
    assert(s[0] == '\n');
    assert(s.drop_first() =~= Seq::<char>::empty());
    assert(encode_utf8(s.drop_first()) =~= Seq::<u8>::empty());
    assert(('\n' as u32) <= 0x7F);
    assert(encode_scalar(s[0] as u32).len() == 1);
    assert(encode_utf8(s) == encode_scalar(s[0] as u32) + encode_utf8(s.drop_first()));
}

proof fn lemma_bytes_through_joined(ls: Seq<Seq<char>>, i: int)
    requires
        0 <= i < ls.len(),
    ensures
        bytes_through(ls, i) == encode_utf8(joined(ls.take(i + 1))).len(),
    decreases i,
{
    lemma_lf_len();
    let t = ls.take(i + 1);
    assert(t.drop_last() =~= ls.take(i));
    assert(t.last() == ls[i]);
    assert(joined(t) == joined(t.drop_last()) + t.last() + "\n"@);
    lemma_encode_concat(joined(ls.take(i)) + ls[i], "\n"@);
    lemma_encode_concat(joined(ls.take(i)), ls[i]);
    assert(bytes_through(ls, i) == bytes_through(ls, i - 1) + encode_utf8(ls[i]).len() + 1);
    if i > 0 {
        lemma_bytes_through_joined(ls, i - 1);
    } else {
        assert(ls.take(0) =~= Seq::<Seq<char>>::empty());
        assert(joined(ls.take(0)) =~= Seq::<char>::empty());
        assert(bytes_through(ls, -1) == 0);
        assert(encode_utf8(Seq::<char>::empty()) =~= Seq::<u8>::empty());
        assert(Seq::<char>::empty() + ls[0] =~= ls[0]);
    }
}

proof fn lemma_joined_append(a: Seq<Seq<char>>, b: Seq<Seq<char>>)
    ensures
        joined(a + b) == joined(a) + joined(b),
    decreases b.len(),
{
    if b.len() == 0 {
        assert(a + b =~= a);
        assert(joined(a) + joined(b) =~= joined(a));
    } else {
        assert((a + b).drop_last() =~= a + b.drop_last());
        assert((a + b).last() == b.last());
        lemma_joined_append(a, b.drop_last());
        assert(joined(a + b) =~= joined(a) + joined(b));
    }
}

proof fn lemma_joined_fields(fs: Seq<(Seq<char>, Seq<char>)>)
    ensures
        joined(field_lines(fs)) == header_text(fs),
    decreases fs.len(),
{
    if fs.len() > 0 {
        let rest = fs.drop_first();
        assert(field_lines(fs) =~= seq![field_line(fs[0])] + field_lines(rest));
        lemma_joined_append(seq![field_line(fs[0])], field_lines(rest));
        lemma_joined_fields(rest);
        let one = seq![field_line(fs[0])];
        assert(one.drop_last() =~= Seq::<Seq<char>>::empty());
        assert(joined(one.drop_last()) =~= Seq::<char>::empty());
        assert(joined(one) == joined(one.drop_last()) + one.last() + "\n"@);
        assert(joined(one) =~= field_line(fs[0]) + "\n"@);
    } else {
        assert(field_lines(fs) =~= Seq::<Seq<char>>::empty());
    }
}

/// The lines of a line, a line feed and the rest: that line, then the
/// lines of the rest.
/// A line that `str::lines` gives back as it stands: no line feed in it,
/// and no carriage return at its end.
pub open spec fn kept_line(s: Seq<char>) -> bool {
    &&& forall|i: int| 0 <= i < s.len() ==> s[i] != '\n'
    &&& (s.len() == 0 || s.last() != '\r')
}

/// A line that breaks no line is kept as it stands.
pub proof fn lemma_single_line_kept(s: Seq<char>)
    requires
        single_line(s),
    ensures
        kept_line(s),
{
    if s.len() > 0 {
        assert(s[s.len() - 1] != '\r');
    }
}

pub proof fn lemma_lines_cons(a: Seq<char>, b: Seq<char>)
    requires
        single_line(a),
    ensures
        lines(a + "\n"@ + b) == seq![a] + lines(b),
{
    lemma_single_line_kept(a);
    lemma_kept_lines_cons(a, b);
}

/// A line kept as it stands, then a line feed, splits off as that line.
pub proof fn lemma_kept_lines_cons(a: Seq<char>, b: Seq<char>)
    requires
        kept_line(a),
    ensures
        lines(a + "\n"@ + b) == seq![a] + lines(b),
{
    reveal_strlit("\n");
    let s = a + "\n"@ + b;
    assert(s[a.len() as int] == '\n');
    assert forall|j: int| 0 <= j < a.len() implies s[j] != '\n' by {
        assert(s[j] == a[j]);
    }
    lemma_index_of_char_at(s, '\n', a.len() as int);
    assert(s.take(a.len() as int) =~= a);
    assert(s.skip(a.len() as int + 1) =~= b);
    if a.len() > 0 {
        assert(a.last() != '\r');
    }
    assert(strip_cr(a) == a);
}

pub(crate) proof fn lemma_lines_header(fs: Seq<(Seq<char>, Seq<char>)>, rest: Seq<char>)
    requires
        forall|i: int| 0 <= i < fs.len() ==> writable_field(#[trigger] fs[i]),
    ensures
        lines(header_text(fs) + rest) == field_lines(fs) + lines(rest),
    decreases fs.len(),
{
    if fs.len() == 0 {
        assert(header_text(fs) + rest =~= rest);
        assert(field_lines(fs) + lines(rest) =~= lines(rest));
    } else {
        let f = fs[0];
        let tail = fs.drop_first();
        assert(writable_field(f));
        reveal_strlit(": ");
        assert(single_line(field_line(f))) by {
            assert forall|j: int| 0 <= j < field_line(f).len() implies field_line(f)[j] != '\n' && field_line(f)[j] != '\r' by {
                if j < f.0.len() {
                    assert(field_line(f)[j] == f.0[j]);
                } else if j >= f.0.len() + 2 {
                    assert(field_line(f)[j] == f.1[j - f.0.len() - 2]);
                }
            }
        }
        assert(header_text(fs) + rest =~= field_line(f) + "\n"@ + (header_text(tail) + rest));
        lemma_lines_cons(field_line(f), header_text(tail) + rest);
        assert forall|i: int| 0 <= i < tail.len() implies writable_field(#[trigger] tail[i]) by {
            assert(tail[i] == fs[i + 1]);
        }
        lemma_lines_header(tail, rest);
        assert(field_lines(fs) =~= seq![field_line(f)] + field_lines(tail));
    }
}

pub(crate) proof fn lemma_line_field_of(f: (Seq<char>, Seq<char>))
    requires
        writable_field(f),
    ensures
        line_field(field_line(f)) == seq![f],
        field_line(f) != "---"@,
{
    reveal_strlit(": ");
    reveal_strlit("---");
    let l = field_line(f);
    let k = f.0.len() as int;
    assert(l.skip(k).take(2) =~= ": "@);
    assert forall|j: int| 0 <= j < k implies !has_prefix(#[trigger] l.skip(j), ": "@) by {
        assert(l.skip(j)[0] == f.0[j]);
        assert(f.0[j] != ':');
        if has_prefix(l.skip(j), ": "@) {
            assert(l.skip(j).take(2)[0] == l.skip(j)[0]);
            assert(": "@[0] == ':');
        }
    }
    lemma_index_of_sub_at(l, ": "@, k);
    assert(l.take(k) =~= f.0);
    assert(l.skip(k + 2) =~= f.1);
    if l == "---"@ {
        assert(l[k] == ':');
    }
}

proof fn lemma_fields_of_header(fs: Seq<(Seq<char>, Seq<char>)>, x: Seq<Seq<char>>)
    requires
        forall|i: int| 0 <= i < fs.len() ==> writable_field(#[trigger] fs[i]),
    ensures
        header_fields(field_lines(fs) + seq![seq![], "---"@] + x) == fs,
        separator_index(field_lines(fs) + seq![seq![], "---"@] + x) == Some(fs.len() as int + 1),
    decreases fs.len(),
{
    reveal_strlit("---");
    reveal_strlit(": ");
    let ls = field_lines(fs) + seq![seq![], "---"@] + x;
    if fs.len() == 0 {
        assert(field_lines(fs) =~= Seq::<Seq<char>>::empty());
        assert(ls =~= seq![seq![], "---"@] + x);
        assert(ls[0] == Seq::<char>::empty());
        assert(index_of_sub(Seq::<char>::empty(), ": "@) is None);
        assert(line_field(ls[0]) =~= Seq::<(Seq<char>, Seq<char>)>::empty());
        assert(ls.drop_first()[0] == "---"@);
        assert("---"@.len() == 3);
        assert(ls[0] != "---"@);
        assert(header_fields(ls.drop_first()) =~= Seq::<(Seq<char>, Seq<char>)>::empty());
        assert(separator_index(ls.drop_first()) == Some(0int));
        assert(header_fields(ls) == line_field(ls[0]) + header_fields(ls.drop_first()));
        assert(fs =~= Seq::<(Seq<char>, Seq<char>)>::empty());
    } else {
        let tail = fs.drop_first();
        assert forall|i: int| 0 <= i < tail.len() implies writable_field(#[trigger] tail[i]) by {
            assert(tail[i] == fs[i + 1]);
        }
        lemma_fields_of_header(tail, x);
        lemma_line_field_of(fs[0]);
        assert(ls[0] == field_line(fs[0]));
        assert(ls.drop_first() =~= field_lines(tail) + seq![seq![], "---"@] + x);
        assert(header_fields(ls) == line_field(ls[0]) + header_fields(ls.drop_first()));
        assert(seq![fs[0]] + tail =~= fs);
    }
}

/// What a tool writes as a header it reads back: the fields of a framed
/// text are the fields written, its content is the body (without leading
/// line feeds), and the formatters may take it.
pub proof fn law_header_read_back(fs: Seq<(Seq<char>, Seq<char>)>, body: Seq<char>)
    requires
        forall|i: int| 0 <= i < fs.len() ==> writable_field(#[trigger] fs[i]),
    ensures
        header_fields(lines(framed(fs, body))) == fs,
        header_content(framed(fs, body)) == trim_start_matches_spec(body, "\n"@),
        header_offset_ok(framed(fs, body)),
{
    reveal_strlit("\n---\n\n");
    reveal_strlit("\n---\n");
    reveal_strlit("\n");
    reveal_strlit("---");
    let t = framed(fs, body);
    let n = fs.len() as int;
    let tail = "\n---\n\n"@ + body;
    assert(t =~= header_text(fs) + tail);
    lemma_lines_header(fs, tail);
    let e: Seq<char> = seq![];
    assert(single_line(e));
    assert(single_line("---"@));
    assert(tail =~= e + "\n"@ + ("---"@ + "\n"@ + (e + "\n"@ + body)));
    lemma_lines_cons(e, "---"@ + "\n"@ + (e + "\n"@ + body));
    lemma_lines_cons("---"@, e + "\n"@ + body);
    lemma_lines_cons(e, body);
    let x = seq![e] + lines(body);
    let ls = lines(t);
    assert(ls =~= field_lines(fs) + seq![seq![], "---"@] + x);
    lemma_fields_of_header(fs, x);
    // the content starts after the `---` line
    assert(ls.len() > n + 2);
    assert(content_offset(ls) == bytes_through(ls, n + 1));
    lemma_bytes_through_joined(ls, n + 1);
    assert(ls.take(n + 2) =~= field_lines(fs) + seq![e, "---"@]);
    lemma_joined_append(field_lines(fs), seq![e, "---"@]);
    lemma_joined_fields(fs);
    let two = seq![e, "---"@];
    assert(two.drop_last() =~= seq![e]);
    assert(seq![e].drop_last() =~= Seq::<Seq<char>>::empty());
    let prefix = header_text(fs) + "\n---\n"@;
    assert(joined(seq![e].drop_last()) =~= Seq::<char>::empty());
    assert(joined(seq![e]) == joined(seq![e].drop_last()) + e + "\n"@);
    assert(joined(two) == joined(two.drop_last()) + "---"@ + "\n"@);
    assert(joined(two) =~= "\n---\n"@);
    assert(joined(ls.take(n + 2)) == prefix);
    let rest = "\n"@ + body;
    assert(t =~= prefix + rest);
    lemma_encode_concat(prefix, rest);
    lemma_boundary_concat(prefix, rest);
    let b = encode_utf8(t);
    let start = encode_utf8(prefix).len();
    assert(b.skip(start as int) =~= encode_utf8(rest));
    encode_utf8_decode_utf8(rest);
    lemma_lf_len();
    lemma_encode_concat("\n"@, body);
    assert(start < b.len());
    assert(has_prefix(rest, "\n"@)) by {
        assert(rest.take(1) =~= "\n"@);
    }
    assert(rest.skip(1) =~= body);
}

} // verus!
