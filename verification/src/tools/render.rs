//! Building blocks shared by the tool renderings: optional labelled
//! values, wrapped lines and numbered lines.

use vstd::prelude::*;
use vstd::string::*;
use crate::text::{decimal, decimal_string, join_spec, pad_left_spec, push_pad_left, views};

verus! {

/// The view of an optional string slice.
pub open spec fn opt_view(o: Option<&str>) -> Option<Seq<char>> {
    match o {
        Some(s) => Some(s@),
        None => None,
    }
}

/// `pre + v + post` for a value `v`, nothing for none.
pub open spec fn opt_text(o: Option<Seq<char>>, pre: Seq<char>, post: Seq<char>) -> Seq<char> {
    match o {
        Some(v) => pre + v + post,
        None => seq![],
    }
}

/// Append `pre + v + post` when there is a value `v`.
pub fn push_opt(out: &mut String, o: Option<&str>, pre: &str, post: &str)
    ensures
        final(out)@ == old(out)@ + opt_text(opt_view(o), pre@, post@),
{
    match o {
        Some(v) => {
            out.append(pre);
            out.append(v);
            out.append(post);
            assert(out@ =~= old(out)@ + opt_text(opt_view(o), pre@, post@));
        },
        None => {
            assert(out@ =~= old(out)@ + opt_text(opt_view(o), pre@, post@));
        },
    }
}

/// Each line between `pre` and `post`, in order.
pub open spec fn wrapped(ls: Seq<Seq<char>>, pre: Seq<char>, post: Seq<char>) -> Seq<char>
    decreases ls.len(),
{
    if ls.len() == 0 {
        seq![]
    } else {
        wrapped(ls.drop_last(), pre, post) + pre + ls.last() + post
    }
}

/// Append each line between `pre` and `post`.
pub fn push_wrapped(out: &mut String, ls: &Vec<&str>, pre: &str, post: &str)
    ensures
        final(out)@ == old(out)@ + wrapped(views(ls@), pre@, post@),
{
    let ghost lv = views(ls@);
    let mut i: usize = 0;
    assert(lv.take(0) =~= Seq::<Seq<char>>::empty());
    assert(old(out)@ + wrapped(lv.take(0), pre@, post@) =~= old(out)@);
    while i < ls.len()
        invariant
            lv == views(ls@),
            i <= ls@.len(),
            out@ == old(out)@ + wrapped(lv.take(i as int), pre@, post@),
        decreases ls@.len() - i,
    {
        out.append(pre);
        out.append(ls[i]);
        out.append(post);
        proof {
            assert(lv.take(i + 1).drop_last() =~= lv.take(i as int));
            assert(lv.take(i + 1).last() == ls@[i as int]@);
            assert(out@ =~= old(out)@ + wrapped(lv.take(i + 1), pre@, post@));
        }
        i = i + 1;
    }
    assert(lv.take(ls@.len() as int) =~= lv);
}

/// The width of the line numbers of `n` lines: the digits of `n`, at
/// least 3.
pub open spec fn number_width(n: nat) -> nat {
    if decimal(n).len() > 3 {
        decimal(n).len()
    } else {
        3
    }
}

/// The width of the line numbers of `n` lines.
pub fn number_width_of(n: usize) -> (w: usize)
    ensures
        w == number_width(n as nat),
{
    let d = decimal_string(n as u64);
    let k = d.as_str().unicode_len();
    if k > 3 {
        k
    } else {
        3
    }
}

/// Each line numbered from 1: `pre`, the number padded on the left to
/// `width`, `mid`, the line, `post`.
pub open spec fn numbered(ls: Seq<Seq<char>>, width: nat, pre: Seq<char>, mid: Seq<char>, post: Seq<char>) -> Seq<char>
    decreases ls.len(),
{
    if ls.len() == 0 {
        seq![]
    } else {
        numbered(ls.drop_last(), width, pre, mid, post) + pre + pad_left_spec(decimal(ls.len()), width) + mid
            + ls.last() + post
    }
}

/// Append each line numbered from 1.
pub fn push_numbered(out: &mut String, ls: &Vec<&str>, width: usize, pre: &str, mid: &str, post: &str)
    ensures
        final(out)@ == old(out)@ + numbered(views(ls@), width as nat, pre@, mid@, post@),
{
    let ghost lv = views(ls@);
    let mut i: usize = 0;
    assert(lv.take(0) =~= Seq::<Seq<char>>::empty());
    assert(old(out)@ + numbered(lv.take(0), width as nat, pre@, mid@, post@) =~= old(out)@);
    while i < ls.len()
        invariant
            lv == views(ls@),
            i <= ls@.len(),
            out@ == old(out)@ + numbered(lv.take(i as int), width as nat, pre@, mid@, post@),
        decreases ls@.len() - i,
    {
        let number = decimal_string((i + 1) as u64);
        out.append(pre);
        push_pad_left(out, number.as_str(), width);
        out.append(mid);
        out.append(ls[i]);
        out.append(post);
        proof {
            assert(lv.take(i + 1).drop_last() =~= lv.take(i as int));
            assert(lv.take(i + 1).last() == ls@[i as int]@);
            assert(lv.take(i + 1).len() == i + 1);
            assert(out@ =~= old(out)@ + numbered(lv.take(i + 1), width as nat, pre@, mid@, post@));
        }
        i = i + 1;
    }
    assert(lv.take(ls@.len() as int) =~= lv);
}

/// Append the lines joined with `sep` between each two.
pub fn push_joined_strs(out: &mut String, parts: &Vec<&str>, sep: &str)
    ensures
        final(out)@ == old(out)@ + join_spec(views(parts@), sep@),
{
    let ghost pv = views(parts@);
    let mut i: usize = 0;
    assert(pv.take(0) =~= Seq::<Seq<char>>::empty());
    assert(old(out)@ + join_spec(pv.take(0), sep@) =~= old(out)@);
    while i < parts.len()
        invariant
            pv == views(parts@),
            i <= parts@.len(),
            out@ == old(out)@ + join_spec(pv.take(i as int), sep@),
        decreases parts@.len() - i,
    {
        if i > 0 {
            out.append(sep);
        }
        out.append(parts[i]);
        proof {
            assert(pv.take(i + 1).drop_last() =~= pv.take(i as int));
            assert(pv[i as int] == parts@[i as int]@);
            if i == 0 {
                assert(pv.take(1) =~= seq![pv[0]]);
            }
            assert(out@ =~= old(out)@ + join_spec(pv.take(i + 1), sep@));
        }
        i = i + 1;
    }
    assert(pv.take(parts@.len() as int) =~= pv);
}

} // verus!
