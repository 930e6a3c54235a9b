//! The three-way differ: what a branch added to and removed from the base.
use vstd::prelude::*;
use crate::binding::{Binding, ProducedItem, bindings_view};
use crate::extract::{Snapshot, unique_identities};

verus! {

/// What one branch changed against the base. A modification stands as the
/// old binding under `removed` and the new one, of the same identity, under
/// `added`.
pub struct Diff {
    pub added: Vec<ProducedItem>,
    pub removed: Vec<ProducedItem>,
}

impl Diff {
    pub open spec fn added_set(&self) -> Set<Binding> {
        bindings_view(self.added@).to_set()
    }

    pub open spec fn removed_set(&self) -> Set<Binding> {
        bindings_view(self.removed@).to_set()
    }

    /// Neither list holds two bindings of one identity.
    pub open spec fn wf(&self) -> bool {
        unique_identities(bindings_view(self.added@)) && unique_identities(
            bindings_view(self.removed@),
        )
    }
}

/// The bindings of `new` that `base` does not hold as they are.
pub open spec fn added_spec(base: Set<Binding>, new: Set<Binding>) -> Set<Binding> {
    new.difference(base)
}

/// The bindings of `base` that `new` does not hold as they are.
pub open spec fn removed_spec(base: Set<Binding>, new: Set<Binding>) -> Set<Binding> {
    base.difference(new)
}

/// Position of the binding of `v` that shares `p`'s identity, if any.
pub fn find_identity(v: &Vec<ProducedItem>, p: &ProducedItem) -> (r: Option<usize>)
    ensures
        r matches Some(j) ==> j < v@.len() && v@[j as int]@.identity() == p@.identity(),
        r is None ==> forall|j: int| 0 <= j < v@.len() ==> v@[j]@.identity() != p@.identity(),
{
    let mut j: usize = 0;
    while j < v.len()
        invariant
            0 <= j <= v.len(),
            forall|k: int| 0 <= k < j ==> v@[k]@.identity() != p@.identity(),
        decreases v.len() - j,
    {
        if v[j].same_identity(p) {
            return Some(j);
        }
        j = j + 1;
    }
    None
}

/// Whether `v`, no two of whose bindings share an identity, holds a binding
/// equal to `p`: the one of `p`'s identity is looked up, then compared in
/// full.
pub fn contains_same(v: &Vec<ProducedItem>, p: &ProducedItem) -> (r: bool)
    requires
        unique_identities(bindings_view(v@)),
    ensures
        r == bindings_view(v@).contains(p@),
{
    let ghost vs = bindings_view(v@);
    match find_identity(v, p) {
        Some(j) => {
            let r = v[j].is_same(p);
            proof {
                assert(vs[j as int] == v@[j as int]@);
                if !r && vs.contains(p@) {
                    let k = choose|k: int| 0 <= k < vs.len() && vs[k] == p@;
                    assert(vs[k].identity() == vs[j as int].identity());
                }
            }
            r
        },
        None => {
            proof {
                if vs.contains(p@) {
                    let k = choose|k: int| 0 <= k < vs.len() && vs[k] == p@;
                    assert(v@[k]@ == vs[k]);
                }
            }
            false
        },
    }
}

/// The bindings of `src` that `other` does not hold as they are, in the
/// order of `src`.
fn keep_absent(src: &Vec<ProducedItem>, other: &Vec<ProducedItem>) -> (r: Vec<ProducedItem>)
    requires
        unique_identities(bindings_view(src@)),
        unique_identities(bindings_view(other@)),
    ensures
        unique_identities(bindings_view(r@)),
        forall|x: Binding|
            bindings_view(r@).contains(x) <==> bindings_view(src@).contains(x)
                && !bindings_view(other@).contains(x),
{
    let ghost ss = bindings_view(src@);
    let ghost os = bindings_view(other@);
    let mut r: Vec<ProducedItem> = Vec::new();
    let ghost mut idx: Seq<int> = Seq::empty();
    let mut i: usize = 0;
    while i < src.len()
        invariant
            ss == bindings_view(src@),
            os == bindings_view(other@),
            unique_identities(ss),
            unique_identities(os),
            0 <= i <= src.len(),
            idx.len() == r@.len(),
            forall|a: int| 0 <= a < idx.len() ==> 0 <= #[trigger] idx[a] < i,
            forall|a: int, b: int| 0 <= a < b < idx.len() ==> idx[a] < idx[b],
            forall|a: int|
                0 <= a < idx.len() ==> #[trigger] bindings_view(r@)[a] == ss[idx[a]]
                    && !os.contains(ss[idx[a]]),
            forall|k: int|
                0 <= k < i && !os.contains(ss[k]) ==> exists|a: int|
                    0 <= a < idx.len() && #[trigger] idx[a] == k,
        decreases src.len() - i,
    {
        let ghost old_r = bindings_view(r@);
        if !contains_same(other, &src[i]) {
            r.push(src[i].copy());
            proof {
                let ghost old_idx = idx;
                idx = idx.push(i as int);
                assert(bindings_view(r@) =~= old_r.push(ss[i as int]));
                assert forall|k: int|
                    0 <= k < i + 1 && !os.contains(ss[k]) implies exists|a: int|
                        0 <= a < idx.len() && #[trigger] idx[a] == k by {
                    if k == i {
                        assert(idx[idx.len() - 1] == k);
                    } else {
                        let a = choose|a: int| 0 <= a < old_idx.len() && #[trigger] old_idx[a] == k;
                        assert(idx[a] == k);
                    }
                }
            }
        }
        i = i + 1;
    }
    proof {
        let rs = bindings_view(r@);
        assert forall|a: int, b: int|
            0 <= a < rs.len() && 0 <= b < rs.len() && a != b implies #[trigger] rs[a].identity()
            != #[trigger] rs[b].identity() by {
            assert(rs[a] == ss[idx[a]]);
            assert(rs[b] == ss[idx[b]]);
            assert(idx[a] != idx[b]);
        }
        assert forall|x: Binding| rs.contains(x) <==> ss.contains(x) && !os.contains(x) by {
            if rs.contains(x) {
                let a = choose|a: int| 0 <= a < rs.len() && rs[a] == x;
                assert(rs[a] == ss[idx[a]]);
            }
            if ss.contains(x) && !os.contains(x) {
                let k = choose|k: int| 0 <= k < ss.len() && ss[k] == x;
                let a = choose|a: int| 0 <= a < idx.len() && #[trigger] idx[a] == k;
                assert(rs[a] == x);
            }
        }
    }
    r
}

/// Compares a branch's snapshot with the base's.
///
/// A branch binding whose identity the base holds with equal content is
/// unchanged; with other content, the base's version is removed and the
/// branch's added; with no base binding of its identity, it is added. Base
/// bindings whose identity the branch lacks are removed.
pub fn diff_use_items(base: &Snapshot, new: &Snapshot) -> (d: Diff)
    requires
        base.wf(),
        new.wf(),
    ensures
        d.wf(),
        d.added_set() == added_spec(base.set(), new.set()),
        d.removed_set() == removed_spec(base.set(), new.set()),
        modification_recorded(base.set(), d.added_set(), d.removed_set()),
{
    let added = keep_absent(&new.items, &base.items);
    let removed = keep_absent(&base.items, &new.items);
    let d = Diff { added, removed };
    proof {
        assert(d.added_set() =~= added_spec(base.set(), new.set()));
        assert(d.removed_set() =~= removed_spec(base.set(), new.set()));
        let ns = new.bindings();
        assert forall|x: Binding, q: Binding|
            d.added_set().contains(x) && base.set().contains(q) && x.identity()
                == q.identity() implies d.removed_set().contains(q) by {
            if ns.contains(q) {
                let k1 = choose|k: int| 0 <= k < ns.len() && ns[k] == x;
                let k2 = choose|k: int| 0 <= k < ns.len() && ns[k] == q;
                assert(ns[k1].identity() == ns[k2].identity());
            }
        }
    }
    d
}

/// A binding added with the identity of a base binding comes with that base
/// binding removed: what a diff against that base always records.
pub open spec fn modification_recorded(
    base: Set<Binding>,
    added: Set<Binding>,
    removed: Set<Binding>,
) -> bool {
    forall|x: Binding, q: Binding|
        added.contains(x) && base.contains(q) && x.identity() == q.identity() ==> removed.contains(
            q,
        )
}

/// Diffing a snapshot against itself records neither additions nor
/// removals.
pub proof fn lemma_diff_self_is_empty(s: Set<Binding>)
    ensures
        added_spec(s, s) == Set::<Binding>::empty(),
        removed_spec(s, s) == Set::<Binding>::empty(),
{
    assert(added_spec(s, s) =~= Set::<Binding>::empty());
    assert(removed_spec(s, s) =~= Set::<Binding>::empty());
}

} // verus!
