//! What a directory scan keeps of a directory's members: their order, the
//! members left out, which directories are scanned further, and the
//! entries built of them.

use vstd::prelude::*;
use crate::text::chars_of;
use crate::tools::header::str_equal;
use crate::tools::listing::EntryInfo;

verus! {

/// Whether name `a` comes before name `b`: compared character by
/// character by code point (the order of their UTF-8 bytes), a proper
/// prefix first.
pub open spec fn name_less(a: Seq<char>, b: Seq<char>) -> bool
    decreases a.len(),
{
    if a.len() == 0 {
        b.len() > 0
    } else if b.len() == 0 {
        false
    } else if a[0] != b[0] {
        (a[0] as u32) < (b[0] as u32)
    } else {
        name_less(a.drop_first(), b.drop_first())
    }
}

/// Whether name `a` comes before name `b`.
pub fn name_lt(a: &str, b: &str) -> (r: bool)
    ensures
        r == name_less(a@, b@),
{
    let x = chars_of(a);
    let y = chars_of(b);
    let mut i: usize = 0;
    assert(a@.skip(0) =~= a@);
    assert(b@.skip(0) =~= b@);
    while i < x.len() && i < y.len() && x[i] == y[i]
        invariant
            x@ == a@,
            y@ == b@,
            i <= x@.len(),
            i <= y@.len(),
            name_less(a@, b@) == name_less(a@.skip(i as int), b@.skip(i as int)),
        decreases x@.len() - i,
    {
        proof {
            let s = a@.skip(i as int);
            let t = b@.skip(i as int);
            assert(s[0] == x@[i as int]);
            assert(t[0] == y@[i as int]);
            assert(s.drop_first() =~= a@.skip(i + 1));
            assert(t.drop_first() =~= b@.skip(i + 1));
        }
        i = i + 1;
    }
    proof {
        let s = a@.skip(i as int);
        let t = b@.skip(i as int);
        if i < x.len() {
            assert(s[0] == x@[i as int]);
        }
        if i < y.len() {
            assert(t[0] == y@[i as int]);
        }
    }
    if i == x.len() {
        i < y.len()
    } else if i == y.len() {
        false
    } else {
        (x[i] as u32) < (y[i] as u32)
    }
}

/// `x` placed after the members of `s` whose name does not come after its
/// own.
pub open spec fn insert_by_name(s: Seq<(String, bool)>, x: (String, bool)) -> Seq<(String, bool)>
    decreases s.len(),
{
    if s.len() == 0 {
        seq![x]
    } else if name_less(x.0@, s.last().0@) {
        insert_by_name(s.drop_last(), x).push(s.last())
    } else {
        s.push(x)
    }
}

/// The members of `rest` placed one by one, in order, into `s`.
pub open spec fn insert_all_by_name(s: Seq<(String, bool)>, rest: Seq<(String, bool)>) -> Seq<(String, bool)>
    decreases rest.len(),
{
    if rest.len() == 0 {
        s
    } else {
        insert_all_by_name(insert_by_name(s, rest[0]), rest.drop_first())
    }
}

/// The members in order of name, those with equal names in their first
/// order (`sort_by_key` on the name).
pub open spec fn sorted_by_name(ms: Seq<(String, bool)>) -> Seq<(String, bool)> {
    insert_all_by_name(seq![], ms)
}

/// The members other than `.git`, in order, each with whether it is
/// scanned further: a directory above the depth limit.
pub open spec fn kept_members(ms: Seq<(String, bool)>, depth: nat, max_depth: nat) -> Seq<(String, bool, bool)>
    decreases ms.len(),
{
    if ms.len() == 0 {
        seq![]
    } else {
        let m = ms.last();
        kept_members(ms.drop_last(), depth, max_depth) + if m.0@ == ".git"@ {
            Seq::<(String, bool, bool)>::empty()
        } else {
            seq![(m.0, m.1, m.1 && depth < max_depth)]
        }
    }
}

/// The members a scan lists: sorted by name, without `.git`, each with
/// whether the scan descends into it.
pub open spec fn listed(ms: Seq<(String, bool)>, depth: nat, max_depth: nat) -> Seq<(String, bool, bool)> {
    kept_members(sorted_by_name(ms), depth, max_depth)
}

fn insert_sorted(out: &mut Vec<(String, bool)>, x: (String, bool))
    ensures
        final(out)@ == insert_by_name(old(out)@, x),
{
    let ghost s = out@;
    let mut k = out.len();
    assert(s.take(k as int) =~= s);
    assert(s.skip(k as int) =~= Seq::<(String, bool)>::empty());
    while k > 0 && name_lt(x.0.as_str(), out[k - 1].0.as_str())
        invariant
            out@ == s,
            k <= s.len(),
            insert_by_name(s, x) == insert_by_name(s.take(k as int), x) + s.skip(k as int),
        decreases k,
    {
        proof {
            assert(s.take(k as int).drop_last() =~= s.take(k - 1));
            assert(s.take(k as int).last() == s[k - 1]);
            assert(s.skip(k - 1) =~= seq![s[k - 1]] + s.skip(k as int));
            assert(insert_by_name(s.take(k - 1), x).push(s[k - 1]) + s.skip(k as int) =~= insert_by_name(
                s.take(k - 1),
                x,
            ) + s.skip(k - 1));
        }
        k = k - 1;
    }
    proof {
        if k == 0 {
            assert(s.take(0) =~= Seq::<(String, bool)>::empty());
        } else {
            assert(s.take(k as int).last() == s[k - 1]);
        }
        assert(insert_by_name(s.take(k as int), x) =~= s.take(k as int).push(x));
    }
    out.insert(k, x);
    assert(out@ =~= s.take(k as int).push(x) + s.skip(k as int));
}

/// The members of a directory that a scan lists, given each member's name
/// and whether it is a directory, and the depth of the directory: sorted
/// by name, `.git` left out, and with each whether the scan descends into
/// it (a directory below `max_depth`).
pub fn listed_members(names: Vec<(String, bool)>, depth: usize, max_depth: usize) -> (r: Vec<(String, bool, bool)>)
    ensures
        r@ == listed(names@, depth as nat, max_depth as nat),
{
    let ghost all = names@;
    let mut rest = names;
    let mut sorted: Vec<(String, bool)> = Vec::new();
    while rest.len() > 0
        invariant
            insert_all_by_name(sorted@, rest@) == sorted_by_name(all),
        decreases rest@.len(),
    {
        let ghost before = rest@;
        let x = rest.remove(0);
        assert(rest@ =~= before.drop_first());
        insert_sorted(&mut sorted, x);
    }
    assert(insert_all_by_name(sorted@, rest@) == sorted@);
    let mut r: Vec<(String, bool, bool)> = Vec::new();
    let mut i: usize = 0;
    assert(sorted@.take(0) =~= Seq::<(String, bool)>::empty());
    while i < sorted.len()
        invariant
            i <= sorted@.len(),
            sorted@ == sorted_by_name(all),
            r@ == kept_members(sorted@.take(i as int), depth as nat, max_depth as nat),
        decreases sorted@.len() - i,
    {
        proof {
            assert(sorted@.take(i + 1).drop_last() =~= sorted@.take(i as int));
            assert(sorted@.take(i + 1).last() == sorted@[i as int]);
        }
        let name = sorted[i].0.clone();
        let is_dir = sorted[i].1;
        if !str_equal(name.as_str(), ".git") {
            let descend = is_dir && depth < max_depth;
            r.push((name, is_dir, descend));
        }
        assert(r@ =~= kept_members(sorted@.take(i + 1), depth as nat, max_depth as nat));
        i = i + 1;
    }
    assert(sorted@.take(sorted@.len() as int) =~= sorted@);
    r
}

/// A listed member never is `.git`, and is scanned further exactly when it
/// is a directory above the depth limit.
pub proof fn law_kept_members(ms: Seq<(String, bool)>, depth: nat, max_depth: nat)
    ensures
        forall|i: int|
            0 <= i < kept_members(ms, depth, max_depth).len() ==> {
                let m = #[trigger] kept_members(ms, depth, max_depth)[i];
                &&& m.0@ != ".git"@
                &&& m.2 == (m.1 && depth < max_depth)
            },
    decreases ms.len(),
{
    if ms.len() > 0 {
        law_kept_members(ms.drop_last(), depth, max_depth);
        let a = kept_members(ms.drop_last(), depth, max_depth);
        let k = kept_members(ms, depth, max_depth);
        assert forall|i: int| 0 <= i < k.len() implies ({
            let m = #[trigger] k[i];
            &&& m.0@ != ".git"@
            &&& m.2 == (m.1 && depth < max_depth)
        }) by {
            if i < a.len() {
                assert(k[i] == a[i]);
            }
        }
    }
}

/// Whether members are in order of name: no member's name comes before
/// that of a member ahead of it.
pub open spec fn name_ordered(s: Seq<(String, bool)>) -> bool {
    forall|i: int, j: int| 0 <= i < j < s.len() ==> !name_less(#[trigger] s[j].0@, #[trigger] s[i].0@)
}

proof fn lemma_code_point_injective(a: char, b: char)
    ensures
        (a as u32) == (b as u32) ==> a == b,
{
    assert(((a as u32) as char) == a);
}

proof fn lemma_name_asym(a: Seq<char>, b: Seq<char>)
    ensures
        name_less(a, b) ==> !name_less(b, a),
    decreases a.len(),
{
    if a.len() > 0 && b.len() > 0 && a[0] == b[0] {
        lemma_name_asym(a.drop_first(), b.drop_first());
    }
}

proof fn lemma_name_ge_trans(a: Seq<char>, b: Seq<char>, c: Seq<char>)
    requires
        !name_less(a, b),
        !name_less(b, c),
    ensures
        !name_less(a, c),
    decreases a.len(),
{
    if c.len() > 0 {
        assert(b.len() > 0);
        assert(a.len() > 0);
        lemma_code_point_injective(a[0], b[0]);
        lemma_code_point_injective(b[0], c[0]);
        lemma_code_point_injective(a[0], c[0]);
        let x = a[0] as u32;
        let y = b[0] as u32;
        let z = c[0] as u32;
        assert(a[0] != b[0] ==> x > y);
        assert(a[0] == b[0] ==> x == y);
        assert(b[0] != c[0] ==> y > z);
        assert(b[0] == c[0] ==> y == z);
        if a[0] == b[0] && b[0] == c[0] {
            lemma_name_ge_trans(a.drop_first(), b.drop_first(), c.drop_first());
        } else {
            assert(x > z);
            assert(a[0] != c[0]);
        }
    }
}

proof fn lemma_insert_name_order(s: Seq<(String, bool)>, x: (String, bool))
    requires
        name_ordered(s),
    ensures
        name_ordered(insert_by_name(s, x)),
        insert_by_name(s, x).to_multiset() == s.to_multiset().insert(x),
        insert_by_name(s, x).len() == s.len() + 1,
        forall|i: int| 0 <= i < insert_by_name(s, x).len() ==> #[trigger] insert_by_name(s, x)[i] == x || s.contains(
            insert_by_name(s, x)[i],
        ),
    decreases s.len(),
{
    broadcast use vstd::seq_lib::group_to_multiset_ensures;
    if s.len() == 0 {
        assert(seq![x] =~= Seq::<(String, bool)>::empty().push(x));
    } else if name_less(x.0@, s.last().0@) {
        let t = s.drop_last();
        assert(name_ordered(t)) by {
            assert forall|i: int, j: int| 0 <= i < j < t.len() implies !name_less(#[trigger] t[j].0@, #[trigger] t[i].0@) by {
                assert(t[i] == s[i] && t[j] == s[j]);
            }
        }
        lemma_insert_name_order(t, x);
        let u = insert_by_name(t, x);
        assert(s =~= t.push(s.last()));
        assert forall|i: int| 0 <= i < u.len() implies !name_less(s.last().0@, #[trigger] u[i].0@) by {
            if u[i] == x {
                lemma_name_asym(x.0@, s.last().0@);
            } else {
                assert(t.contains(u[i]));
                let j = choose|j: int| 0 <= j < t.len() && t[j] == u[i];
                assert(s[j] == t[j]);
                assert(s[s.len() - 1] == s.last());
            }
        }
        let v = u.push(s.last());
        assert forall|i: int, j: int| 0 <= i < j < v.len() implies !name_less(#[trigger] v[j].0@, #[trigger] v[i].0@) by {
            if j < u.len() {
                assert(v[i] == u[i] && v[j] == u[j]);
            } else {
                assert(v[i] == u[i]);
            }
        }
        assert forall|i: int| 0 <= i < v.len() implies #[trigger] v[i] == x || s.contains(v[i]) by {
            if i < u.len() {
                if u[i] != x {
                    let j = choose|j: int| 0 <= j < t.len() && t[j] == u[i];
                    assert(s[j] == t[j]);
                }
            } else {
                assert(s[s.len() - 1] == s.last());
            }
        }
    } else {
        let v = s.push(x);
        assert forall|i: int| 0 <= i < s.len() implies !name_less(x.0@, #[trigger] s[i].0@) by {
            if i < s.len() - 1 {
                assert(!name_less(s[s.len() - 1].0@, s[i].0@));
                lemma_name_ge_trans(x.0@, s.last().0@, s[i].0@);
            }
        }
        assert forall|i: int, j: int| 0 <= i < j < v.len() implies !name_less(#[trigger] v[j].0@, #[trigger] v[i].0@) by {
            if j < s.len() {
                assert(v[i] == s[i] && v[j] == s[j]);
            } else {
                assert(v[i] == s[i]);
            }
        }
        assert forall|i: int| 0 <= i < v.len() implies #[trigger] v[i] == x || s.contains(v[i]) by {
            if i < s.len() {
                assert(v[i] == s[i]);
            }
        }
    }
}

proof fn lemma_insert_all_names(s: Seq<(String, bool)>, rest: Seq<(String, bool)>)
    requires
        name_ordered(s),
    ensures
        name_ordered(insert_all_by_name(s, rest)),
        insert_all_by_name(s, rest).to_multiset() == s.to_multiset().add(rest.to_multiset()),
    decreases rest.len(),
{
    broadcast use vstd::seq_lib::group_to_multiset_ensures;
    if rest.len() == 0 {
        assert(rest.to_multiset() =~= vstd::multiset::Multiset::empty());
        assert(s.to_multiset().add(rest.to_multiset()) =~= s.to_multiset());
    } else {
        lemma_insert_name_order(s, rest[0]);
        lemma_insert_all_names(insert_by_name(s, rest[0]), rest.drop_first());
        assert(rest =~= seq![rest[0]] + rest.drop_first());
        vstd::seq_lib::lemma_multiset_commutative(seq![rest[0]], rest.drop_first());
        assert(seq![rest[0]].to_multiset() =~= vstd::multiset::Multiset::singleton(rest[0])) by {
            assert(seq![rest[0]] =~= Seq::<(String, bool)>::empty().push(rest[0]));
        }
        assert(s.to_multiset().insert(rest[0]).add(rest.drop_first().to_multiset()) =~= s.to_multiset().add(
            rest.to_multiset(),
        ));
    }
}

/// Each kept member is a member, under its own name and kind.
proof fn lemma_kept_from(ms: Seq<(String, bool)>, depth: nat, max_depth: nat)
    ensures
        forall|k: int|
            0 <= k < kept_members(ms, depth, max_depth).len() ==> exists|j: int|
                0 <= j < ms.len() && (#[trigger] kept_members(ms, depth, max_depth)[k]).0 == ms[j].0
                    && kept_members(ms, depth, max_depth)[k].1 == ms[j].1,
        kept_members(ms, depth, max_depth).len() <= ms.len(),
    decreases ms.len(),
{
    if ms.len() > 0 {
        let init = ms.drop_last();
        lemma_kept_from(init, depth, max_depth);
        let a = kept_members(init, depth, max_depth);
        let k2 = kept_members(ms, depth, max_depth);
        assert forall|k: int| 0 <= k < k2.len() implies exists|j: int|
            0 <= j < ms.len() && (#[trigger] k2[k]).0 == ms[j].0 && k2[k].1 == ms[j].1 by {
            if k < a.len() {
                assert(k2[k] == a[k]);
                let j = choose|j: int| 0 <= j < init.len() && a[k].0 == init[j].0 && a[k].1 == init[j].1;
                assert(init[j] == ms[j]);
            } else {
                assert(k2[k].0 == ms[ms.len() - 1].0);
            }
        }
    }
}

/// Keeping members keeps their order of name.
proof fn lemma_kept_ordered(ms: Seq<(String, bool)>, depth: nat, max_depth: nat)
    requires
        name_ordered(ms),
    ensures
        forall|i: int, j: int|
            0 <= i < j < kept_members(ms, depth, max_depth).len() ==> !name_less(
                (#[trigger] kept_members(ms, depth, max_depth)[j]).0@,
                (#[trigger] kept_members(ms, depth, max_depth)[i]).0@,
            ),
    decreases ms.len(),
{
    if ms.len() > 0 {
        let init = ms.drop_last();
        assert(name_ordered(init)) by {
            assert forall|i: int, j: int| 0 <= i < j < init.len() implies !name_less(#[trigger] init[j].0@, #[trigger] init[i].0@) by {
                assert(init[i] == ms[i] && init[j] == ms[j]);
            }
        }
        lemma_kept_ordered(init, depth, max_depth);
        lemma_kept_from(init, depth, max_depth);
        let a = kept_members(init, depth, max_depth);
        let k2 = kept_members(ms, depth, max_depth);
        assert forall|i: int, j: int| 0 <= i < j < k2.len() implies !name_less(
            (#[trigger] k2[j]).0@,
            (#[trigger] k2[i]).0@,
        ) by {
            if j < a.len() {
                assert(k2[i] == a[i] && k2[j] == a[j]);
            } else {
                assert(k2[i] == a[i]);
                assert(k2[j].0 == ms[ms.len() - 1].0);
                let l = choose|l: int| 0 <= l < init.len() && a[i].0 == init[l].0 && a[i].1 == init[l].1;
                assert(init[l] == ms[l]);
            }
        }
    }
}

/// A scan lists a directory's members in order of name, each member but
/// `.git` once: sorting keeps every member and puts them in order.
pub proof fn law_listed_in_name_order(ms: Seq<(String, bool)>, depth: nat, max_depth: nat)
    ensures
        sorted_by_name(ms).to_multiset() == ms.to_multiset(),
        name_ordered(sorted_by_name(ms)),
        forall|i: int, j: int|
            0 <= i < j < listed(ms, depth, max_depth).len() ==> !name_less(
                (#[trigger] listed(ms, depth, max_depth)[j]).0@,
                (#[trigger] listed(ms, depth, max_depth)[i]).0@,
            ),
{
    broadcast use vstd::seq_lib::group_to_multiset_ensures;
    lemma_insert_all_names(seq![], ms);
    assert(Seq::<(String, bool)>::empty().to_multiset() =~= vstd::multiset::Multiset::empty());
    assert(vstd::multiset::Multiset::<(String, bool)>::empty().add(ms.to_multiset()) =~= ms.to_multiset());
    lemma_kept_ordered(sorted_by_name(ms), depth, max_depth);
}

/// The number of entries below the entries of a directory: each entry and
/// those below it.
pub open spec fn tree_count(children: Seq<EntryInfo>) -> nat
    decreases children.len(),
{
    if children.len() == 0 {
        0
    } else {
        tree_count(children.drop_last()) + 1 + children.last().child_count as nat
    }
}

/// The number of entries below scanned children, or `None` when it does
/// not fit a `usize`.
pub fn subtree_count(children: &Vec<EntryInfo>) -> (r: Option<usize>)
    ensures
        match r {
            Some(n) => n == tree_count(children@),
            None => tree_count(children@) > usize::MAX,
        },
{
    let mut total: usize = 0;
    let mut i: usize = 0;
    while i < children.len()
        invariant
            i <= children@.len(),
            total == tree_count(children@.take(i as int)),
        decreases children@.len() - i,
    {
        assert(children@.take(i + 1).drop_last() =~= children@.take(i as int));
        let c = children[i].child_count;
        if total > usize::MAX - 1 || c > usize::MAX - 1 - total {
            proof {
                lemma_tree_count_grows(children@, i as int + 1);
            }
            return None;
        }
        total = total + 1 + c;
        i = i + 1;
    }
    assert(children@.take(children@.len() as int) =~= children@);
    Some(total)
}

proof fn lemma_tree_count_grows(cs: Seq<EntryInfo>, k: int)
    requires
        0 <= k <= cs.len(),
    ensures
        tree_count(cs.take(k)) <= tree_count(cs),
    decreases cs.len(),
{
    if k < cs.len() {
        assert(cs.drop_last().take(k) =~= cs.take(k));
        lemma_tree_count_grows(cs.drop_last(), k);
    } else {
        assert(cs.take(k) =~= cs);
    }
}

/// The entry of a member: a directory with its scanned children and the
/// number of entries below it, no size; a file with its size and nothing
/// below it.
pub fn member_entry(name: String, is_dir: bool, size: u64, children: Vec<EntryInfo>, child_count: usize) -> (e: EntryInfo)
    ensures
        e.name == name,
        e.is_dir == is_dir,
        is_dir ==> e.size is None && e.children == children && e.child_count == child_count,
        !is_dir ==> e.size == Some(size) && e.children@.len() == 0 && e.child_count == 0,
{
    if is_dir {
        EntryInfo { name, is_dir: true, size: None, children, child_count }
    } else {
        EntryInfo { name, is_dir: false, size: Some(size), children: Vec::new(), child_count: 0 }
    }
}

} // verus!
