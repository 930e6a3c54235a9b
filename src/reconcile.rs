//! The reconciler: two branches' diffs applied together to the base.
use vstd::prelude::*;
use crate::binding::{Binding, ProducedItem, bindings_view, texts_view, texts_equal, copy_texts};
use crate::extract::{Snapshot, unique_identities};
use crate::diff::{Diff, find_identity, modification_recorded, added_spec, removed_spec};

verus! {

/// The pairs of a binding added by one branch and a binding of the same
/// identity but other content added by the other.
pub open spec fn conflict_set(a_added: Set<Binding>, b_added: Set<Binding>) -> Set<
    (Binding, Binding),
> {
    Set::new(
        |p: (Binding, Binding)|
            a_added.contains(p.0) && b_added.contains(p.1) && p.0.identity() == p.1.identity()
                && p.0 != p.1,
    )
}

/// The paths of the wildcards that either branch added.
pub open spec fn glob_paths(a_added: Set<Binding>, b_added: Set<Binding>) -> Set<
    Seq<Seq<char>>,
> {
    Set::new(
        |path: Seq<Seq<char>>|
            exists|g: Binding|
                (a_added.contains(g) || b_added.contains(g)) && g is Glob && g.source_path()
                    == path,
    )
}

/// A named binding whose path a newly added wildcard already opens.
pub open spec fn shadowed(x: Binding, globs: Set<Seq<Seq<char>>>) -> bool {
    !(x is Glob) && globs.contains(x.source_path())
}

/// Some binding of `removed` has the identity of `x`.
pub open spec fn identity_removed(x: Binding, removed: Set<Binding>) -> bool {
    exists|r: Binding| removed.contains(r) && r.identity() == x.identity()
}

/// The reconciled set: the base without what either branch removed, with
/// what either branch added, wildcard-shadowed names left out.
pub open spec fn merged(
    base: Set<Binding>,
    a_added: Set<Binding>,
    a_removed: Set<Binding>,
    b_added: Set<Binding>,
    b_removed: Set<Binding>,
) -> Set<Binding> {
    base.filter(|q: Binding| !identity_removed(q, a_removed.union(b_removed))).union(
        a_added.union(b_added).filter(|x: Binding| !shadowed(x, glob_paths(a_added, b_added))),
    )
}

/// Pairs of bindings, seen as pairs of their views.
pub open spec fn pairs_view(v: Seq<(ProducedItem, ProducedItem)>) -> Seq<(Binding, Binding)> {
    v.map_values(|p: (ProducedItem, ProducedItem)| (p.0@, p.1@))
}

/// For each binding that A added, B's binding of the same identity where its
/// content differs.
pub fn find_conflicts(a_added: &Vec<ProducedItem>, b_added: &Vec<ProducedItem>) -> (r: Vec<
    (ProducedItem, ProducedItem),
>)
    requires
        unique_identities(bindings_view(a_added@)),
        unique_identities(bindings_view(b_added@)),
    ensures
        pairs_view(r@).to_set() == conflict_set(
            bindings_view(a_added@).to_set(),
            bindings_view(b_added@).to_set(),
        ),
        pairs_view(r@).no_duplicates(),
{
    let ghost aa = bindings_view(a_added@);
    let ghost ba = bindings_view(b_added@);
    let mut r: Vec<(ProducedItem, ProducedItem)> = Vec::new();
    let mut i: usize = 0;
    while i < a_added.len()
        invariant
            aa == bindings_view(a_added@),
            ba == bindings_view(b_added@),
            unique_identities(aa),
            unique_identities(ba),
            0 <= i <= aa.len(),
            pairs_view(r@).no_duplicates(),
            forall|p: (Binding, Binding)|
                pairs_view(r@).contains(p) <==> (exists|k: int| 0 <= k < i && aa[k] == p.0)
                    && ba.contains(p.1) && p.0.identity() == p.1.identity() && p.0 != p.1,
        decreases aa.len() - i,
    {
        let ghost old_r = pairs_view(r@);
        let x = &a_added[i];
        assert(aa[i as int] == x@);
        match find_identity(b_added, x) {
            Some(j) => {
                assert(ba[j as int] == b_added@[j as int]@);
                if !b_added[j].is_same(x) {
                    r.push((x.copy(), b_added[j].copy()));
                    proof {
                        let np = (x@, ba[j as int]);
                        assert(pairs_view(r@) =~= old_r.push(np));
                        assert(!old_r.contains(np)) by {
                            if old_r.contains(np) {
                                let k = choose|k: int| 0 <= k < i && aa[k] == x@;
                                assert(aa[k].identity() == aa[i as int].identity());
                            }
                        }
                        assert forall|p: (Binding, Binding)|
                            pairs_view(r@).contains(p) <==> (exists|k: int|
                                0 <= k < i + 1 && aa[k] == p.0) && ba.contains(p.1)
                                && p.0.identity() == p.1.identity() && p.0 != p.1 by {
                            if p.0 == x@ && ba.contains(p.1) && p.0.identity() == p.1.identity() {
                                let m = choose|m: int| 0 <= m < ba.len() && ba[m] == p.1;
                                assert(ba[m].identity() == ba[j as int].identity());
                            }
                            if (exists|k: int| 0 <= k < i + 1 && aa[k] == p.0) && !(exists|k: int|
                                0 <= k < i && aa[k] == p.0) {
                                assert(p.0 == aa[i as int]);
                            }
                            if pairs_view(r@).contains(p) && p != np {
                                let m = choose|m: int| 0 <= m < pairs_view(r@).len() && pairs_view(r@)[m] == p;
                                assert(old_r[m] == p);
                                assert(old_r.contains(p));
                            }
                            if old_r.contains(p) {
                                let m = choose|m: int| 0 <= m < old_r.len() && old_r[m] == p;
                                assert(pairs_view(r@)[m] == p);
                            }
                            if p == np {
                                assert(aa[i as int] == p.0);
                                assert(ba[j as int] == p.1);
                                assert(pairs_view(r@)[old_r.len() as int] == np);
                            }
                        }
                    }
                } else {
                    proof {
                        assert forall|p: (Binding, Binding)|
                            pairs_view(r@).contains(p) <==> (exists|k: int|
                                0 <= k < i + 1 && aa[k] == p.0) && ba.contains(p.1)
                                && p.0.identity() == p.1.identity() && p.0 != p.1 by {
                            if p.0 == x@ && ba.contains(p.1) && p.0.identity() == p.1.identity() {
                                let m = choose|m: int| 0 <= m < ba.len() && ba[m] == p.1;
                                assert(ba[m].identity() == ba[j as int].identity());
                            }
                            if (exists|k: int| 0 <= k < i + 1 && aa[k] == p.0) && !(exists|k: int|
                                0 <= k < i && aa[k] == p.0) {
                                assert(p.0 == aa[i as int]);
                            }
                        }
                    }
                }
            },
            None => {
                proof {
                    assert forall|p: (Binding, Binding)|
                        pairs_view(r@).contains(p) <==> (exists|k: int|
                            0 <= k < i + 1 && aa[k] == p.0) && ba.contains(p.1) && p.0.identity()
                            == p.1.identity() && p.0 != p.1 by {
                        if p.0 == x@ && ba.contains(p.1) {
                            let m = choose|m: int| 0 <= m < ba.len() && ba[m] == p.1;
                            assert(b_added@[m]@ == ba[m]);
                        }
                        if (exists|k: int| 0 <= k < i + 1 && aa[k] == p.0) && !(exists|k: int|
                            0 <= k < i && aa[k] == p.0) {
                            assert(p.0 == aa[i as int]);
                        }
                    }
                }
            },
        }
        i = i + 1;
    }
    proof {
        assert(pairs_view(r@).to_set() =~= conflict_set(aa.to_set(), ba.to_set()));
    }
    r
}

/// The paths of a list of paths.
pub open spec fn paths_view(v: Seq<Vec<String>>) -> Seq<Seq<Seq<char>>> {
    v.map_values(|p: Vec<String>| texts_view(p@))
}

/// Appends the path of each wildcard of `added` to `globs`.
fn register_globs(globs: &mut Vec<Vec<String>>, added: &Vec<ProducedItem>)
    ensures
        forall|path: Seq<Seq<char>>|
            paths_view(final(globs)@).contains(path) <==> paths_view(old(globs)@).contains(path)
                || exists|g: Binding|
                bindings_view(added@).contains(g) && g is Glob && g.source_path() == path,
{
    let ghost av = bindings_view(added@);
    let mut i: usize = 0;
    while i < added.len()
        invariant
            av == bindings_view(added@),
            0 <= i <= added.len(),
            forall|path: Seq<Seq<char>>|
                paths_view(globs@).contains(path) <==> paths_view(old(globs)@).contains(path)
                    || exists|k: int| 0 <= k < i && av[k] is Glob && av[k].source_path() == path,
        decreases added.len() - i,
    {
        let ghost old_g = paths_view(globs@);
        assert(av[i as int] == added@[i as int]@);
        if added[i].is_glob() {
            globs.push(copy_texts(added[i].path()));
            proof {
                assert(paths_view(globs@) =~= old_g.push(av[i as int].source_path()));
            }
        }
        proof {
            assert forall|path: Seq<Seq<char>>|
                paths_view(globs@).contains(path) <==> paths_view(old(globs)@).contains(path)
                    || exists|k: int|
                    0 <= k < i + 1 && av[k] is Glob && av[k].source_path() == path by {
                if paths_view(globs@).contains(path) && !old_g.contains(path) {
                    let m = choose|m: int|
                        0 <= m < paths_view(globs@).len() && paths_view(globs@)[m] == path;
                    assert(m == old_g.len());
                    assert(av[i as int].source_path() == path);
                }
                if old_g.contains(path) {
                    let m = choose|m: int| 0 <= m < old_g.len() && old_g[m] == path;
                    assert(paths_view(globs@)[m] == path);
                }
                if exists|k: int| 0 <= k < i + 1 && av[k] is Glob && av[k].source_path() == path {
                    let k = choose|k: int|
                        0 <= k < i + 1 && av[k] is Glob && av[k].source_path() == path;
                    if k == i {
                        assert(paths_view(globs@)[old_g.len() as int] == path);
                    }
                }
            }
        }
        i = i + 1;
    }
    proof {
        assert forall|path: Seq<Seq<char>>|
            paths_view(globs@).contains(path) <==> paths_view(old(globs)@).contains(path)
                || exists|g: Binding| av.contains(g) && g is Glob && g.source_path() == path by {
            if exists|g: Binding| av.contains(g) && g is Glob && g.source_path() == path {
                let g = choose|g: Binding| av.contains(g) && g is Glob && g.source_path() == path;
                let k = choose|k: int| 0 <= k < av.len() && av[k] == g;
                assert(av[k] is Glob && av[k].source_path() == path);
            }
            if exists|k: int| 0 <= k < i && av[k] is Glob && av[k].source_path() == path {
                let k = choose|k: int| 0 <= k < i && av[k] is Glob && av[k].source_path() == path;
                assert(av.contains(av[k]));
            }
        }
    }
}

/// Whether `path` is one of `globs`.
fn path_in(globs: &Vec<Vec<String>>, path: &Vec<String>) -> (r: bool)
    ensures
        r == paths_view(globs@).contains(texts_view(path@)),
{
    let mut i: usize = 0;
    while i < globs.len()
        invariant
            0 <= i <= globs.len(),
            forall|k: int| 0 <= k < i ==> paths_view(globs@)[k] != texts_view(path@),
        decreases globs.len() - i,
    {
        if texts_equal(&globs[i], path) {
            proof {
                assert(paths_view(globs@)[i as int] == texts_view(path@));
            }
            return true;
        }
        i = i + 1;
    }
    false
}

/// The base bindings whose identity neither branch removed.
fn carry_forward(base: &Vec<ProducedItem>, a_removed: &Vec<ProducedItem>, b_removed: &Vec<
    ProducedItem,
>) -> (r: Vec<ProducedItem>)
    requires
        unique_identities(bindings_view(base@)),
    ensures
        unique_identities(bindings_view(r@)),
        forall|x: Binding|
            bindings_view(r@).contains(x) <==> bindings_view(base@).contains(x)
                && !identity_removed(
                x,
                bindings_view(a_removed@).to_set().union(bindings_view(b_removed@).to_set()),
            ),
{
    let ghost bs = bindings_view(base@);
    let ghost rem = bindings_view(a_removed@).to_set().union(bindings_view(b_removed@).to_set());
    let mut r: Vec<ProducedItem> = Vec::new();
    let mut i: usize = 0;
    while i < base.len()
        invariant
            bs == bindings_view(base@),
            rem == bindings_view(a_removed@).to_set().union(bindings_view(b_removed@).to_set()),
            unique_identities(bs),
            0 <= i <= bs.len(),
            unique_identities(bindings_view(r@)),
            forall|a: int|
                0 <= a < r@.len() ==> exists|k: int|
                    0 <= k < i && bs[k] == #[trigger] bindings_view(r@)[a],
            forall|x: Binding|
                bindings_view(r@).contains(x) <==> (exists|k: int| 0 <= k < i && bs[k] == x)
                    && !identity_removed(x, rem),
        decreases bs.len() - i,
    {
        let ghost old_r = bindings_view(r@);
        let q = &base[i];
        assert(bs[i as int] == q@);
        let in_a = find_identity(a_removed, q);
        let in_b = find_identity(b_removed, q);
        proof {
            if let Some(j) = in_a {
                assert(bindings_view(a_removed@)[j as int] == a_removed@[j as int]@);
                assert(rem.contains(bindings_view(a_removed@)[j as int]));
            }
            if let Some(j) = in_b {
                assert(bindings_view(b_removed@)[j as int] == b_removed@[j as int]@);
                assert(rem.contains(bindings_view(b_removed@)[j as int]));
            }
            if in_a is None && in_b is None && identity_removed(q@, rem) {
                let x = choose|x: Binding| rem.contains(x) && x.identity() == q@.identity();
                if bindings_view(a_removed@).contains(x) {
                    let m = choose|m: int|
                        0 <= m < a_removed@.len() && bindings_view(a_removed@)[m] == x;
                    assert(a_removed@[m]@ == x);
                } else {
                    let m = choose|m: int|
                        0 <= m < b_removed@.len() && bindings_view(b_removed@)[m] == x;
                    assert(b_removed@[m]@ == x);
                }
            }
        }
        if in_a.is_none() && in_b.is_none() {
            r.push(q.copy());
            proof {
                assert(bindings_view(r@) =~= old_r.push(q@));
                assert forall|a: int, b: int|
                    0 <= a < bindings_view(r@).len() && 0 <= b < bindings_view(r@).len() && a
                        != b implies #[trigger] bindings_view(r@)[a].identity()
                    != #[trigger] bindings_view(r@)[b].identity() by {
                    let rv = bindings_view(r@);
                    if a == rv.len() - 1 && b < a {
                        assert(rv[b] == old_r[b]);
                        let k = choose|k: int| 0 <= k < i && bs[k] == old_r[b];
                        assert(bs[k].identity() != bs[i as int].identity());
                    } else if b == rv.len() - 1 && a < b {
                        assert(rv[a] == old_r[a]);
                        let k = choose|k: int| 0 <= k < i && bs[k] == old_r[a];
                        assert(bs[k].identity() != bs[i as int].identity());
                    } else {
                        assert(rv[a] == old_r[a] && rv[b] == old_r[b]);
                    }
                }
                assert forall|a: int|
                    0 <= a < r@.len() implies exists|k: int|
                        0 <= k < i + 1 && bs[k] == #[trigger] bindings_view(r@)[a] by {
                    if a < old_r.len() {
                        assert(bindings_view(r@)[a] == old_r[a]);
                    } else {
                        assert(bs[i as int] == bindings_view(r@)[a]);
                    }
                }
            }
        }
        proof {
            assert forall|x: Binding|
                bindings_view(r@).contains(x) <==> (exists|k: int| 0 <= k < i + 1 && bs[k] == x)
                    && !identity_removed(x, rem) by {
                if bindings_view(r@).contains(x) {
                    let m = choose|m: int|
                        0 <= m < bindings_view(r@).len() && bindings_view(r@)[m] == x;
                    if m < old_r.len() {
                        assert(old_r[m] == x);
                    }
                }
                if old_r.contains(x) {
                    let m = choose|m: int| 0 <= m < old_r.len() && old_r[m] == x;
                    assert(bindings_view(r@)[m] == x);
                }
                if (exists|k: int| 0 <= k < i + 1 && bs[k] == x) && !(exists|k: int|
                    0 <= k < i && bs[k] == x) {
                    assert(bs[i as int] == x);
                    if !identity_removed(x, rem) {
                        assert(bindings_view(r@)[old_r.len() as int] == x);
                    }
                }
            }
        }
        i = i + 1;
    }
    proof {
        assert forall|x: Binding|
            bindings_view(r@).contains(x) <==> bs.contains(x) && !identity_removed(x, rem) by {
            if bs.contains(x) {
                let k = choose|k: int| 0 <= k < bs.len() && bs[k] == x;
                assert(bs[k] == x);
            }
        }
    }
    r
}

/// Inserts each binding of `added` that no wildcard of `globs` shadows,
/// unless `result` already holds its identity.
///
/// Where `result` holds that identity, it holds the binding itself.
fn add_unshadowed(
    result: &mut Vec<ProducedItem>,
    added: &Vec<ProducedItem>,
    globs: &Vec<Vec<String>>,
)
    requires
        unique_identities(bindings_view(old(result)@)),
        unique_identities(bindings_view(added@)),
        forall|x: Binding, y: Binding|
            bindings_view(added@).contains(x) && !shadowed(x, paths_view(globs@).to_set())
                && bindings_view(old(result)@).contains(y) && x.identity() == y.identity() ==> x
                == y,
    ensures
        unique_identities(bindings_view(final(result)@)),
        forall|x: Binding|
            bindings_view(final(result)@).contains(x) <==> bindings_view(old(result)@).contains(x)
                || (bindings_view(added@).contains(x) && !shadowed(
                x,
                paths_view(globs@).to_set(),
            )),
{
    let ghost av = bindings_view(added@);
    let ghost r0 = bindings_view(result@);
    let ghost g = paths_view(globs@).to_set();
    let mut i: usize = 0;
    while i < added.len()
        invariant
            av == bindings_view(added@),
            g == paths_view(globs@).to_set(),
            unique_identities(av),
            0 <= i <= av.len(),
            unique_identities(bindings_view(result@)),
            forall|x: Binding, y: Binding|
                av.contains(x) && !shadowed(x, g) && r0.contains(y) && x.identity()
                    == y.identity() ==> x == y,
            forall|x: Binding|
                bindings_view(result@).contains(x) <==> r0.contains(x) || ((exists|k: int|
                    0 <= k < i && av[k] == x) && !shadowed(x, g)),
        decreases av.len() - i,
    {
        let ghost old_r = bindings_view(result@);
        let x = &added[i];
        assert(av[i as int] == x@);
        let skip = !x.is_glob() && path_in(globs, x.path());
        assert(skip == shadowed(x@, g));
        if !skip {
            match find_identity(result, x) {
                Some(j) => {
                    proof {
                        let y = old_r[j as int];
                        assert(result@[j as int]@ == y);
                        if r0.contains(y) {
                            assert(av.contains(x@));
                            assert(x@ == y);
                        } else {
                            let k = choose|k: int| 0 <= k < i && av[k] == y;
                            assert(av[k].identity() == av[i as int].identity());
                        }
                        assert(old_r.contains(x@));
                    }
                },
                None => {
                    result.push(x.copy());
                    proof {
                        assert(bindings_view(result@) =~= old_r.push(x@));
                        assert forall|a: int, b: int|
                            0 <= a < bindings_view(result@).len() && 0 <= b < bindings_view(
                                result@,
                            ).len() && a != b implies #[trigger] bindings_view(result@)[a].identity()
                            != #[trigger] bindings_view(result@)[b].identity() by {
                            let rv = bindings_view(result@);
                            if a == rv.len() - 1 && b < a {
                                assert(rv[b] == old_r[b]);
                                assert(result@[b]@ == old_r[b]);
                            } else if b == rv.len() - 1 && a < b {
                                assert(rv[a] == old_r[a]);
                                assert(result@[a]@ == old_r[a]);
                            } else {
                                assert(rv[a] == old_r[a] && rv[b] == old_r[b]);
                            }
                        }
                    }
                },
            }
        }
        proof {
            assert forall|z: Binding|
                bindings_view(result@).contains(z) <==> r0.contains(z) || ((exists|k: int|
                    0 <= k < i + 1 && av[k] == z) && !shadowed(z, g)) by {
                let rv = bindings_view(result@);
                if rv.contains(z) && !old_r.contains(z) {
                    let m = choose|m: int| 0 <= m < rv.len() && rv[m] == z;
                    if m < old_r.len() {
                        assert(old_r[m] == z);
                    }
                    assert(z == x@);
                }
                if old_r.contains(z) {
                    let m = choose|m: int| 0 <= m < old_r.len() && old_r[m] == z;
                    assert(rv[m] == z);
                }
                if (exists|k: int| 0 <= k < i + 1 && av[k] == z) && !(exists|k: int|
                    0 <= k < i && av[k] == z) && !shadowed(z, g) {
                    assert(av[i as int] == z);
                    if rv.len() > old_r.len() {
                        assert(rv[old_r.len() as int] == z);
                    }
                }
            }
        }
        i = i + 1;
    }
    proof {
        assert forall|z: Binding|
            bindings_view(result@).contains(z) <==> r0.contains(z) || (av.contains(z) && !shadowed(
                z,
                g,
            )) by {
            if av.contains(z) {
                let k = choose|k: int| 0 <= k < av.len() && av[k] == z;
                assert(av[k] == z);
            }
        }
    }
}

/// Errors of a reconciliation.
pub enum ReconcileError {
    /// Both branches added a binding of one identity with different
    /// content: for each, A's version and B's.
    Conflicts(Vec<(ProducedItem, ProducedItem)>),
}

/// Reconciles two branches' diffs against the base.
///
/// Fails with every conflicting pair when the branches added different
/// content under one identity. Otherwise returns the base without the
/// identities that either branch removed, with the additions of A, then of
/// B, where a named binding whose path a newly added wildcard opens is
/// left out.
pub fn reconcile(base: &Snapshot, a: &Diff, b: &Diff) -> (r: Result<Vec<ProducedItem>, ReconcileError>)
    requires
        base.wf(),
        a.wf(),
        b.wf(),
        modification_recorded(base.set(), a.added_set(), a.removed_set()),
        modification_recorded(base.set(), b.added_set(), b.removed_set()),
    ensures
        r is Ok <==> conflict_set(a.added_set(), b.added_set()).is_empty(),
        r matches Err(ReconcileError::Conflicts(c)) ==> pairs_view(c@).to_set() == conflict_set(
            a.added_set(),
            b.added_set(),
        ) && pairs_view(c@).no_duplicates(),
        r matches Ok(v) ==> bindings_view(v@).to_set() == merged(
            base.set(),
            a.added_set(),
            a.removed_set(),
            b.added_set(),
            b.removed_set(),
        ) && unique_identities(bindings_view(v@)),
{
    let conflicts = find_conflicts(&a.added, &b.added);
    let mut globs: Vec<Vec<String>> = Vec::new();
    register_globs(&mut globs, &a.added);
    register_globs(&mut globs, &b.added);
    let ghost aa = a.added_set();
    let ghost ab = b.added_set();
    let ghost g = paths_view(globs@).to_set();
    proof {
        assert(g =~= glob_paths(aa, ab));
    }
    if conflicts.len() > 0 {
        proof {
            assert(pairs_view(conflicts@).to_set().contains(pairs_view(conflicts@)[0]));
        }
        return Err(ReconcileError::Conflicts(conflicts));
    }
    proof {
        assert(pairs_view(conflicts@).to_set() =~= Set::empty());
    }
    let ghost rem = a.removed_set().union(b.removed_set());
    let mut result = carry_forward(&base.items, &a.removed, &b.removed);
    let ghost kept = bindings_view(result@);
    proof {
        assert forall|x: Binding, y: Binding|
            bindings_view(a.added@).contains(x) && !shadowed(x, g) && kept.contains(y)
                && x.identity() == y.identity() implies x == y by {
            assert(aa.contains(x));
            assert(a.removed_set().contains(y));
            assert(identity_removed(y, rem));
        }
    }
    add_unshadowed(&mut result, &a.added, &globs);
    let ghost after_a = bindings_view(result@);
    proof {
        assert forall|x: Binding, y: Binding|
            bindings_view(b.added@).contains(x) && !shadowed(x, g) && after_a.contains(y)
                && x.identity() == y.identity() implies x == y by {
            assert(ab.contains(x));
            if kept.contains(y) {
                assert(b.removed_set().contains(y));
                assert(identity_removed(y, rem));
            } else {
                assert(aa.contains(y));
                assert(!conflict_set(aa, ab).contains((y, x)));
            }
        }
    }
    add_unshadowed(&mut result, &b.added, &globs);
    proof {
        let m = merged(base.set(), a.added_set(), a.removed_set(), b.added_set(), b.removed_set());
        assert forall|x: Binding| bindings_view(result@).to_set().contains(x) <==> m.contains(x) by {
            assert(kept.contains(x) <==> base.set().contains(x) && !identity_removed(x, rem));
            assert(aa.contains(x) <==> bindings_view(a.added@).contains(x));
            assert(ab.contains(x) <==> bindings_view(b.added@).contains(x));
            assert(after_a.contains(x) <==> kept.contains(x) || (aa.contains(x) && !shadowed(x, g)));
            assert(bindings_view(result@).contains(x) <==> kept.contains(x) || ((aa.contains(x)
                || ab.contains(x)) && !shadowed(x, g)));
        }
        assert(bindings_view(result@).to_set() =~= merged(
            base.set(),
            a.added_set(),
            a.removed_set(),
            b.added_set(),
            b.removed_set(),
        ));
    }
    Ok(result)
}

/// No two bindings of the set share an identity.
pub open spec fn identities_unique(s: Set<Binding>) -> bool {
    forall|x: Binding, y: Binding|
        s.contains(x) && s.contains(y) && x.identity() == y.identity() ==> x == y
}

/// A well-formed snapshot, seen as a set, holds no two bindings of one
/// identity.
pub proof fn lemma_snapshot_identities_unique(s: Snapshot)
    requires
        s.wf(),
    ensures
        identities_unique(s.set()),
{
    let b = s.bindings();
    assert forall|x: Binding, y: Binding|
        s.set().contains(x) && s.set().contains(y) && x.identity() == y.identity() implies x
        == y by {
        let i = choose|i: int| 0 <= i < b.len() && b[i] == x;
        let j = choose|j: int| 0 <= j < b.len() && b[j] == y;
        assert(b[i].identity() == b[j].identity());
    }
}

/// A snapshot in which the wildcards that `new` added to `base` shadow
/// nothing that it added.
pub open spec fn without_shadowed(base: Set<Binding>, new: Set<Binding>) -> Set<Binding> {
    new.filter(
        |x: Binding|
            base.contains(x) || !shadowed(
                x,
                glob_paths(added_spec(base, new), Set::<Binding>::empty()),
            ),
    )
}

/// When branch B left the base as it was, reconciling it with branch A
/// raises no conflict and yields A's snapshot, less the names that A added
/// under a wildcard it also added.
pub proof fn lemma_unchanged_b_yields_a(base: Set<Binding>, a: Set<Binding>)
    requires
        identities_unique(base),
        identities_unique(a),
    ensures
        conflict_set(added_spec(base, a), added_spec(base, base)).is_empty(),
        merged(
            base,
            added_spec(base, a),
            removed_spec(base, a),
            added_spec(base, base),
            removed_spec(base, base),
        ) == without_shadowed(base, a),
{
    let aa = added_spec(base, a);
    let e = Set::<Binding>::empty();
    assert(added_spec(base, base) =~= e);
    assert(removed_spec(base, base) =~= e);
    assert(conflict_set(aa, e) =~= Set::empty());
    assert(glob_paths(aa, e) =~= glob_paths(aa, added_spec(base, base)));
    let m = merged(base, aa, removed_spec(base, a), e, e);
    assert forall|x: Binding| m.contains(x) <==> without_shadowed(base, a).contains(x) by {
        let rem = removed_spec(base, a).union(e);
        if base.contains(x) && a.contains(x) && identity_removed(x, rem) {
            let r = choose|r: Binding| rem.contains(r) && r.identity() == x.identity();
            assert(r == x);
        }
        if base.contains(x) && !identity_removed(x, rem) {
            assert(!rem.contains(x));
        }
    }
    assert(m =~= without_shadowed(base, a));
}

/// When branch A left the base as it was, reconciling it with branch B
/// raises no conflict and yields B's snapshot, less the names that B added
/// under a wildcard it also added.
pub proof fn lemma_unchanged_a_yields_b(base: Set<Binding>, b: Set<Binding>)
    requires
        identities_unique(base),
        identities_unique(b),
    ensures
        conflict_set(added_spec(base, base), added_spec(base, b)).is_empty(),
        merged(
            base,
            added_spec(base, base),
            removed_spec(base, base),
            added_spec(base, b),
            removed_spec(base, b),
        ) == without_shadowed(base, b),
{
    let ab = added_spec(base, b);
    let e = Set::<Binding>::empty();
    assert(added_spec(base, base) =~= e);
    assert(removed_spec(base, base) =~= e);
    assert(conflict_set(e, ab) =~= Set::empty());
    assert(glob_paths(e, ab) =~= glob_paths(ab, e));
    let m = merged(base, e, e, ab, removed_spec(base, b));
    assert forall|x: Binding| m.contains(x) <==> without_shadowed(base, b).contains(x) by {
        let rem = e.union(removed_spec(base, b));
        if base.contains(x) && b.contains(x) && identity_removed(x, rem) {
            let r = choose|r: Binding| rem.contains(r) && r.identity() == x.identity();
            assert(r == x);
        }
        if base.contains(x) && !identity_removed(x, rem) {
            assert(!rem.contains(x));
        }
    }
    assert(m =~= without_shadowed(base, b));
}

/// Two bindings of one identity and different content, added by the two
/// branches, make the reconciliation fail, and form the one conflicting
/// pair reported for that identity.
pub proof fn lemma_conflict_detected(
    a_added: Set<Binding>,
    b_added: Set<Binding>,
    x: Binding,
    y: Binding,
)
    requires
        identities_unique(a_added),
        identities_unique(b_added),
        a_added.contains(x),
        b_added.contains(y),
        x.identity() == y.identity(),
        x != y,
    ensures
        !conflict_set(a_added, b_added).is_empty(),
        conflict_set(a_added, b_added).filter(
            |p: (Binding, Binding)| p.0.identity() == x.identity(),
        ) == set![(x, y)],
{
    assert(conflict_set(a_added, b_added).contains((x, y)));
    assert(conflict_set(a_added, b_added).filter(
        |p: (Binding, Binding)| p.0.identity() == x.identity(),
    ) =~= set![(x, y)]);
}

} // verus!
