//! Filesystem paths as the tools hold them.

use vstd::prelude::*;

verus! {

#[verifier::external_type_specification]
#[verifier::external_body]
pub struct ExPathBuf(std::path::PathBuf);

/// The path that `PathBuf::from` makes of `text`.
pub uninterp spec fn path_from(text: Seq<char>) -> std::path::PathBuf;

/// `PathBuf::from` on a string slice.
#[verifier::external_body]
pub(crate) fn path_of(text: &str) -> (p: std::path::PathBuf)
    ensures
        p == path_from(text@),
{
    std::path::PathBuf::from(text)
}

/// The relative path `.`, which names the working directory.
pub open spec fn working_dir() -> std::path::PathBuf {
    path_from("."@)
}

/// The views of a path's components, each the bytes of one component.
pub open spec fn component_views(c: Seq<Vec<u8>>) -> Seq<Seq<u8>> {
    c.map_values(|v: Vec<u8>| v@)
}

/// Whether a path begins with all the components of `base`
/// (`Path::starts_with`).
pub open spec fn starts_with_components(path: Seq<Seq<u8>>, base: Seq<Seq<u8>>) -> bool {
    base.len() <= path.len() && path.take(base.len() as int) == base
}

fn same_bytes(a: &Vec<u8>, b: &Vec<u8>) -> (r: bool)
    ensures
        r == (a@ == b@),
{
    if a.len() != b.len() {
        return false;
    }
    let mut i: usize = 0;
    while i < a.len()
        invariant
            a@.len() == b@.len(),
            i <= a@.len(),
            forall|j: int| 0 <= j < i ==> a@[j] == b@[j],
        decreases a@.len() - i,
    {
        if a[i] != b[i] {
            return false;
        }
        i = i + 1;
    }
    assert(a@ =~= b@);
    true
}

/// Whether `path` begins with all the components of `base`.
pub fn path_starts_with(path: &Vec<Vec<u8>>, base: &Vec<Vec<u8>>) -> (r: bool)
    ensures
        r == starts_with_components(component_views(path@), component_views(base@)),
{
    let ghost pv = component_views(path@);
    let ghost bv = component_views(base@);
    if base.len() > path.len() {
        return false;
    }
    let mut i: usize = 0;
    while i < base.len()
        invariant
            pv == component_views(path@),
            bv == component_views(base@),
            base@.len() <= path@.len(),
            i <= base@.len(),
            forall|j: int| 0 <= j < i ==> pv[j] == bv[j],
        decreases base@.len() - i,
    {
        if !same_bytes(&path[i], &base[i]) {
            assert(pv.take(bv.len() as int)[i as int] != bv[i as int]);
            return false;
        }
        i = i + 1;
    }
    assert(pv.take(bv.len() as int) =~= bv);
    true
}

/// The refusal of a path that leaves the base directory: the path as
/// given, the base, and where it resolved to, or its nearest existing
/// ancestor when it does not exist.
pub open spec fn escape_message(target: Seq<char>, base: Seq<char>, resolved: Seq<char>, existing: bool) -> Seq<char> {
    "Path '"@ + target + "' escapes base directory '"@ + base + "' ("@ + if existing {
        "resolved to '"@ + resolved + "')"@
    } else {
        "nearest ancestor '"@ + resolved + "' is outside)"@
    }
}

/// The verdict on a resolved path: accepted exactly when the resolved
/// path (the canonical path, or the nearest existing ancestor's when the
/// path does not exist) begins with the canonical base directory.
pub fn within_base(
    target_shown: &str,
    base: &Vec<Vec<u8>>,
    base_shown: &str,
    resolved: &Vec<Vec<u8>>,
    resolved_shown: &str,
    existing: bool,
) -> (r: Result<(), String>)
    ensures
        starts_with_components(component_views(resolved@), component_views(base@)) ==> r is Ok,
        !starts_with_components(component_views(resolved@), component_views(base@)) ==> (r matches Err(e) && e@
            == escape_message(target_shown@, base_shown@, resolved_shown@, existing)),
{
    if path_starts_with(resolved, base) {
        return Ok(());
    }
    let mut e = "Path '".to_string();
    e.append(target_shown);
    e.append("' escapes base directory '");
    e.append(base_shown);
    e.append("' (");
    if existing {
        e.append("resolved to '");
        e.append(resolved_shown);
        e.append("')");
    } else {
        e.append("nearest ancestor '");
        e.append(resolved_shown);
        e.append("' is outside)");
    }
    Err(e)
}

/// What could not be made canonical while checking a path.
pub enum CanonicalTarget {
    /// The path itself.
    Path,
    /// The base directory.
    Base,
    /// The nearest existing ancestor of a path that does not exist.
    Ancestor,
}

/// The message when a path cannot be made canonical.
pub open spec fn canonicalize_message(what: CanonicalTarget, shown: Seq<char>, error: Seq<char>) -> Seq<char> {
    "Failed to canonicalize "@ + match what {
        CanonicalTarget::Path => seq![],
        CanonicalTarget::Base => "base path "@,
        CanonicalTarget::Ancestor => "ancestor "@,
    } + "'"@ + shown + "': "@ + error
}

/// The message when a path cannot be made canonical.
pub fn canonicalize_error(what: CanonicalTarget, shown: &str, error: &str) -> (r: String)
    ensures
        r@ == canonicalize_message(what, shown@, error@),
{
    let mut e = "Failed to canonicalize ".to_string();
    match what {
        CanonicalTarget::Path => {},
        CanonicalTarget::Base => e.append("base path "),
        CanonicalTarget::Ancestor => e.append("ancestor "),
    }
    e.append("'");
    e.append(shown);
    e.append("': ");
    e.append(error);
    proof {
        reveal_strlit("");
    }
    assert(e@ =~= canonicalize_message(what, shown@, error@));
    e
}

/// The message when no ancestor of a path exists.
pub fn no_ancestor_error(target_shown: &str) -> (r: String)
    ensures
        r@ == "Invalid path '"@ + target_shown@ + "': no valid parent directory exists"@,
{
    let mut e = "Invalid path '".to_string();
    e.append(target_shown);
    e.append("': no valid parent directory exists");
    e
}


/// A component `.`.
pub open spec fn is_cur_dir(p: Seq<u8>) -> bool {
    p == seq![46u8]
}

/// A component `..`.
pub open spec fn is_parent_dir(p: Seq<u8>) -> bool {
    p == seq![46u8, 46u8]
}

/// The root component `/`.
pub open spec fn is_root_dir(p: Seq<u8>) -> bool {
    p == seq![47u8]
}

/// One component more of a lexically resolved path: `.` changes nothing,
/// `..` takes back the last component (the root stays), any other is
/// appended.
pub open spec fn normalize_step(acc: Seq<Seq<u8>>, p: Seq<u8>) -> Seq<Seq<u8>> {
    if is_cur_dir(p) {
        acc
    } else if is_parent_dir(p) {
        if acc.len() > 0 && !is_root_dir(acc.last()) {
            acc.drop_last()
        } else {
            acc
        }
    } else {
        acc.push(p)
    }
}

/// The components of a path resolved lexically, `.` and `..` taken away.
pub open spec fn normalize(ps: Seq<Seq<u8>>) -> Seq<Seq<u8>>
    decreases ps.len(),
{
    if ps.len() == 0 {
        seq![]
    } else {
        normalize_step(normalize(ps.drop_last()), ps.last())
    }
}

fn copy_bytes(p: &Vec<u8>) -> (r: Vec<u8>)
    ensures
        r@ == p@,
{
    let mut r: Vec<u8> = Vec::new();
    let mut i: usize = 0;
    while i < p.len()
        invariant
            i <= p@.len(),
            r@ == p@.take(i as int),
        decreases p@.len() - i,
    {
        r.push(p[i]);
        assert(r@ =~= p@.take(i + 1));
        i = i + 1;
    }
    assert(p@.take(p@.len() as int) =~= p@);
    r
}

/// The components of a path resolved lexically.
pub fn normalized(parts: &Vec<Vec<u8>>) -> (r: Vec<Vec<u8>>)
    ensures
        component_views(r@) == normalize(component_views(parts@)),
{
    let ghost pv = component_views(parts@);
    let mut out: Vec<Vec<u8>> = Vec::new();
    let mut i: usize = 0;
    assert(pv.take(0) =~= Seq::<Seq<u8>>::empty());
    assert(component_views(out@) =~= Seq::<Seq<u8>>::empty());
    while i < parts.len()
        invariant
            pv == component_views(parts@),
            i <= parts@.len(),
            component_views(out@) == normalize(pv.take(i as int)),
        decreases parts@.len() - i,
    {
        proof {
            assert(pv.take(i + 1).drop_last() =~= pv.take(i as int));
            assert(pv.take(i + 1).last() == parts@[i as int]@);
        }
        let p = &parts[i];
        let ghost before = out@;
        let dot = p.len() == 1 && p[0] == 46u8;
        let dotdot = p.len() == 2 && p[0] == 46u8 && p[1] == 46u8;
        proof {
            if dot {
                assert(p@ =~= seq![46u8]);
            }
            if dotdot {
                assert(p@ =~= seq![46u8, 46u8]);
            }
            if p@ == seq![46u8] {
                assert(p@.len() == 1 && p@[0] == 46u8);
            }
            if p@ == seq![46u8, 46u8] {
                assert(p@.len() == 2 && p@[0] == 46u8 && p@[1] == 46u8);
            }
        }
        if dot {
        } else if dotdot {
            if out.len() > 0 {
                let last = &out[out.len() - 1];
                let root = last.len() == 1 && last[0] == 47u8;
                proof {
                    if root {
                        assert(last@ =~= seq![47u8]);
                    }
                    if last@ == seq![47u8] {
                        assert(last@.len() == 1 && last@[0] == 47u8);
                    }
                    assert(component_views(out@).last() == last@);
                }
                if !root {
                    out.pop();
                    assert(component_views(out@) =~= component_views(before).drop_last());
                }
            }
        } else {
            let c = copy_bytes(p);
            out.push(c);
            assert(component_views(out@) =~= component_views(before).push(p@));
        }
        i = i + 1;
    }
    assert(pv.take(parts@.len() as int) =~= pv);
    out
}

/// The refusal of a path whose `..` components lead out of the base
/// directory though its nearest existing ancestor lies inside.
pub open spec fn climb_message(target: Seq<char>, base: Seq<char>) -> Seq<char> {
    "Path '"@ + target + "' escapes base directory '"@ + base + "' (its '..' components lead outside)"@
}

/// The verdict on a path that does not exist yet: `ancestor` is the
/// canonical nearest existing ancestor and `rest` the components after it.
/// Accepted exactly when the path, resolved lexically from the ancestor,
/// begins with the canonical base; the resolved path is returned. A path
/// whose ancestor already lies outside is refused as such; one that
/// leaves the base through `..` is refused for that.
pub fn resolve_within_base(
    target_shown: &str,
    base: &Vec<Vec<u8>>,
    base_shown: &str,
    ancestor: &Vec<Vec<u8>>,
    ancestor_shown: &str,
    rest: &Vec<Vec<u8>>,
) -> (r: Result<Vec<Vec<u8>>, String>)
    ensures
        r is Ok <==> starts_with_components(
            normalize(component_views(ancestor@) + component_views(rest@)),
            component_views(base@),
        ),
        r matches Ok(p) ==> component_views(p@) == normalize(component_views(ancestor@) + component_views(rest@)),
        r matches Err(e) ==> e@ == if starts_with_components(component_views(ancestor@), component_views(base@)) {
            climb_message(target_shown@, base_shown@)
        } else {
            escape_message(target_shown@, base_shown@, ancestor_shown@, false)
        },
{
    let mut joined: Vec<Vec<u8>> = Vec::new();
    let mut i: usize = 0;
    while i < ancestor.len()
        invariant
            i <= ancestor@.len(),
            component_views(joined@) == component_views(ancestor@).take(i as int),
        decreases ancestor@.len() - i,
    {
        let ghost before = joined@;
        let c = copy_bytes(&ancestor[i]);
        joined.push(c);
        assert(component_views(joined@) =~= component_views(before).push(ancestor@[i as int]@));
        assert(component_views(ancestor@).take(i + 1) =~= component_views(ancestor@).take(i as int).push(
            ancestor@[i as int]@,
        ));
        i = i + 1;
    }
    let mut j: usize = 0;
    assert(component_views(ancestor@).take(ancestor@.len() as int) =~= component_views(ancestor@));
    while j < rest.len()
        invariant
            j <= rest@.len(),
            component_views(joined@) == component_views(ancestor@) + component_views(rest@).take(j as int),
        decreases rest@.len() - j,
    {
        let ghost before = joined@;
        let c = copy_bytes(&rest[j]);
        joined.push(c);
        assert(component_views(joined@) =~= component_views(before).push(rest@[j as int]@));
        assert(component_views(rest@).take(j + 1) =~= component_views(rest@).take(j as int).push(rest@[j as int]@));
        assert(component_views(joined@) =~= component_views(ancestor@) + component_views(rest@).take(j + 1));
        j = j + 1;
    }
    assert(component_views(rest@).take(rest@.len() as int) =~= component_views(rest@));
    let resolved = normalized(&joined);
    if path_starts_with(&resolved, base) {
        return Ok(resolved);
    }
    if path_starts_with(ancestor, base) {
        let mut e = "Path '".to_string();
        e.append(target_shown);
        e.append("' escapes base directory '");
        e.append(base_shown);
        e.append("' (its '..' components lead outside)");
        Err(e)
    } else {
        match within_base(target_shown, base, base_shown, ancestor, ancestor_shown, false) {
            Ok(()) => Err(String::new()),
            Err(e) => Err(e),
        }
    }
}

/// A path that is accepted lies inside the base directory: whatever `..`
/// components it holds, the resolved path begins with the base, and a
/// path whose components only go down from an ancestor inside the base is
/// accepted.
pub proof fn law_descending_paths_accepted(base: Seq<Seq<u8>>, ancestor: Seq<Seq<u8>>, rest: Seq<Seq<u8>>)
    requires
        starts_with_components(ancestor, base),
        forall|i: int| 0 <= i < ancestor.len() ==> !is_cur_dir(#[trigger] ancestor[i]) && !is_parent_dir(ancestor[i]),
        forall|i: int| 0 <= i < rest.len() ==> !is_cur_dir(#[trigger] rest[i]) && !is_parent_dir(rest[i]),
    ensures
        starts_with_components(normalize(ancestor + rest), base),
{
    lemma_normalize_plain(ancestor + rest);
    assert forall|i: int| 0 <= i < (ancestor + rest).len() implies !is_cur_dir(#[trigger] (ancestor + rest)[i])
        && !is_parent_dir((ancestor + rest)[i]) by {
        if i < ancestor.len() {
            assert((ancestor + rest)[i] == ancestor[i]);
        } else {
            assert((ancestor + rest)[i] == rest[i - ancestor.len()]);
        }
    }
    lemma_normalize_plain(ancestor + rest);
    assert((ancestor + rest).take(base.len() as int) =~= ancestor.take(base.len() as int));
}

proof fn lemma_normalize_plain(ps: Seq<Seq<u8>>)
    ensures
        (forall|i: int| 0 <= i < ps.len() ==> !is_cur_dir(#[trigger] ps[i]) && !is_parent_dir(ps[i])) ==> normalize(ps)
            == ps,
    decreases ps.len(),
{
    if ps.len() > 0 {
        lemma_normalize_plain(ps.drop_last());
        if forall|i: int| 0 <= i < ps.len() ==> !is_cur_dir(#[trigger] ps[i]) && !is_parent_dir(ps[i]) {
            assert forall|i: int| 0 <= i < ps.drop_last().len() implies !is_cur_dir(#[trigger] ps.drop_last()[i])
                && !is_parent_dir(ps.drop_last()[i]) by {
                assert(ps.drop_last()[i] == ps[i]);
            }
            assert(!is_cur_dir(ps[ps.len() - 1]) && !is_parent_dir(ps[ps.len() - 1]));
            assert(ps.drop_last().push(ps.last()) =~= ps);
        }
    }
}

/// Lexical resolution: `.` changes nothing; a step into an entry and back
/// out with `..` cancels; `..` at the root stays at the root; and an
/// absolute path resolves to an absolute path with no `.` or `..` left in
/// it.
pub proof fn law_normalize(ps: Seq<Seq<u8>>, x: Seq<u8>)
    ensures
        normalize(ps.push(seq![46u8])) == normalize(ps),
        !is_cur_dir(x) && !is_parent_dir(x) && !is_root_dir(x) ==> normalize(ps.push(x).push(seq![46u8, 46u8]))
            == normalize(ps),
        normalize(seq![seq![47u8], seq![46u8, 46u8]]) == seq![seq![47u8]],
        ps.len() > 0 && is_root_dir(ps[0]) ==> {
            let r = normalize(ps);
            &&& r.len() > 0
            &&& is_root_dir(r[0])
            &&& forall|i: int| 0 <= i < r.len() ==> !is_cur_dir(#[trigger] r[i]) && !is_parent_dir(r[i])
        },
{
    let dot: Seq<u8> = seq![46u8];
    let dots: Seq<u8> = seq![46u8, 46u8];
    let root: Seq<u8> = seq![47u8];
    assert(is_cur_dir(dot));
    assert(is_parent_dir(dots));
    assert(is_root_dir(root));
    assert(ps.push(dot).drop_last() =~= ps);
    assert(ps.push(dot).last() == dot);
    if !is_cur_dir(x) && !is_parent_dir(x) && !is_root_dir(x) {
        let q = ps.push(x).push(dots);
        assert(q.drop_last() =~= ps.push(x));
        assert(q.last() == dots);
        assert(ps.push(x).drop_last() =~= ps);
        assert(ps.push(x).last() == x);
        let a = normalize(ps);
        assert(normalize(ps.push(x)) == a.push(x));
        assert(a.push(x).last() == x);
        assert(a.push(x).drop_last() =~= a);
    }
    let two = seq![root, dots];
    assert(two.drop_last() =~= seq![root]);
    assert(two.last() == dots);
    assert(seq![root].drop_last() =~= Seq::<Seq<u8>>::empty());
    assert(seq![root].last() == root);
    lemma_root_plain(root);
    let e = Seq::<Seq<u8>>::empty();
    assert(normalize(e) == e);
    assert(normalize(seq![root]) == normalize_step(normalize(e), root));
    assert(normalize_step(e, root) == e.push(root));
    assert(e.push(root) =~= seq![root]);
    assert(normalize(two) == seq![root]);
    if ps.len() > 0 && is_root_dir(ps[0]) {
        lemma_normalize_absolute(ps);
    }
}

proof fn lemma_root_plain(p: Seq<u8>)
    requires
        is_root_dir(p),
    ensures
        !is_cur_dir(p),
        !is_parent_dir(p),
{
    if is_cur_dir(p) {
        assert(p[0] == 46u8);
    }
    if is_parent_dir(p) {
        assert(p.len() == 2);
    }
}

proof fn lemma_normalize_absolute(ps: Seq<Seq<u8>>)
    requires
        ps.len() > 0,
        is_root_dir(ps[0]),
    ensures
        normalize(ps).len() > 0,
        is_root_dir(normalize(ps)[0]),
        forall|i: int| 0 <= i < normalize(ps).len() ==> !is_cur_dir(#[trigger] normalize(ps)[i]) && !is_parent_dir(
            normalize(ps)[i],
        ),
    decreases ps.len(),
{
    if ps.len() == 1 {
        assert(ps.drop_last() =~= Seq::<Seq<u8>>::empty());
        assert(ps.last() == ps[0]);
        assert(ps[0] == seq![47u8]);
        lemma_root_plain(ps[0]);
        assert(normalize(ps) =~= seq![ps[0]]);
    } else {
        let init = ps.drop_last();
        assert(init[0] == ps[0]);
        lemma_normalize_absolute(init);
        let a = normalize(init);
        let p = ps.last();
        let r = normalize(ps);
        if is_cur_dir(p) {
        } else if is_parent_dir(p) {
            if a.len() > 0 && !is_root_dir(a.last()) {
                assert(a.len() >= 2);
                assert(r =~= a.drop_last());
                assert forall|i: int| 0 <= i < r.len() implies !is_cur_dir(#[trigger] r[i]) && !is_parent_dir(r[i]) by {
                    assert(r[i] == a[i]);
                }
            }
        } else {
            assert(r =~= a.push(p));
            assert forall|i: int| 0 <= i < r.len() implies !is_cur_dir(#[trigger] r[i]) && !is_parent_dir(r[i]) by {
                if i < a.len() {
                    assert(r[i] == a[i]);
                }
            }
        }
    }
}

} // verus!
