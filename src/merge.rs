//! The merge of the import blocks of three versions of a file.
use vstd::prelude::*;
use crate::binding::{Binding, ProducedItem, bindings_view, rendered};
use crate::extract::{
    Item, DuplicateBinding, ExtractError, base_set, file_bindings, unique_identities,
    file_self_placed, duplicate_witness, Snapshot,
};
use crate::diff::{diff_use_items, added_spec, removed_spec};
use crate::reconcile::{reconcile, merged, conflict_set, pairs_view, ReconcileError};

verus! {

/// Why the import blocks could not be merged.
pub enum MergeError {
    /// A file has a `self` leaf outside any path.
    MisplacedSelf,
    /// A file introduces two bindings of one identity.
    Duplicate(DuplicateBinding),
    /// Both branches added different content under one identity: for each
    /// such pair, A's version and B's.
    Conflicts(Vec<(ProducedItem, ProducedItem)>),
}

/// The set of bindings that a file's top-level imports introduce.
pub open spec fn file_set(items: Seq<Item>) -> Set<Binding> {
    file_bindings(items).to_set()
}

/// A file's imports give a snapshot.
pub open spec fn file_ok(items: Seq<Item>) -> bool {
    file_self_placed(items) && unique_identities(file_bindings(items))
}

/// The first of the three files, in the order base, A, B, whose imports
/// give no snapshot (B where all do).
pub open spec fn first_malformed(base: Seq<Item>, a: Seq<Item>, b: Seq<Item>) -> Seq<Item> {
    if !file_ok(base) {
        base
    } else if !file_ok(a) {
        a
    } else {
        b
    }
}

fn snapshot_of(items: &Vec<Item>) -> (r: Result<Snapshot, MergeError>)
    ensures
        r is Ok <==> file_ok(items@),
        r matches Ok(s) ==> s.bindings() == file_bindings(items@),
        r matches Err(e) ==> (e is MisplacedSelf <==> !file_self_placed(items@)),
        r matches Err(MergeError::Duplicate(d)) ==> duplicate_witness(file_bindings(items@), d.item@),
        !(r matches Err(MergeError::Conflicts(_))),
{
    match base_set(items) {
        Ok(s) => Ok(s),
        Err(ExtractError::MisplacedSelf) => Err(MergeError::MisplacedSelf),
        Err(ExtractError::Duplicate(d)) => Err(MergeError::Duplicate(d)),
    }
}

/// Reconciles the imports of the base and of two branches of a file.
///
/// The files are read in the order base, A, B; the first whose imports give
/// no snapshot stops the merge with its error.
pub fn reconcile_files(base: &Vec<Item>, a: &Vec<Item>, b: &Vec<Item>) -> (r: Result<
    Vec<ProducedItem>,
    MergeError,
>)
    ensures
        (r matches Err(MergeError::MisplacedSelf)) || (r matches Err(MergeError::Duplicate(_)))
            <==> !(file_ok(base@) && file_ok(a@) && file_ok(b@)),
        r matches Err(MergeError::MisplacedSelf) ==> !file_self_placed(
            first_malformed(base@, a@, b@),
        ),
        r matches Err(MergeError::Duplicate(d)) ==> file_self_placed(
            first_malformed(base@, a@, b@),
        ) && duplicate_witness(file_bindings(first_malformed(base@, a@, b@)), d.item@),
        r matches Err(MergeError::Conflicts(c)) ==> pairs_view(c@).to_set() == conflict_set(
            added_spec(file_set(base@), file_set(a@)),
            added_spec(file_set(base@), file_set(b@)),
        ) && !pairs_view(c@).to_set().is_empty(),
        r matches Ok(v) ==> bindings_view(v@).to_set() == merged(
            file_set(base@),
            added_spec(file_set(base@), file_set(a@)),
            removed_spec(file_set(base@), file_set(a@)),
            added_spec(file_set(base@), file_set(b@)),
            removed_spec(file_set(base@), file_set(b@)),
        ) && unique_identities(bindings_view(v@)),
        file_ok(base@) && file_ok(a@) && file_ok(b@) ==> (r is Ok <==> conflict_set(
            added_spec(file_set(base@), file_set(a@)),
            added_spec(file_set(base@), file_set(b@)),
        ).is_empty()),
{
    let base_snap = match snapshot_of(base) {
        Ok(s) => s,
        Err(e) => {
            return Err(e);
        },
    };
    let a_snap = match snapshot_of(a) {
        Ok(s) => s,
        Err(e) => {
            return Err(e);
        },
    };
    let b_snap = match snapshot_of(b) {
        Ok(s) => s,
        Err(e) => {
            return Err(e);
        },
    };
    let a_diff = diff_use_items(&base_snap, &a_snap);
    let b_diff = diff_use_items(&base_snap, &b_snap);
    match reconcile(&base_snap, &a_diff, &b_diff) {
        Ok(v) => Ok(v),
        Err(ReconcileError::Conflicts(c)) => Err(MergeError::Conflicts(c)),
    }
}

/// One declaration per line, in the order of the bindings.
pub open spec fn block_text(s: Seq<Binding>) -> Seq<char>
    decreases s.len(),
{
    if s.len() == 0 {
        Seq::empty()
    } else {
        block_text(s.drop_last()) + rendered(s.last()) + "\n"@
    }
}

/// The declaration text of the reconciled bindings, one per line.
pub fn render_block(v: &Vec<ProducedItem>) -> (r: String)
    ensures
        r@ == block_text(bindings_view(v@)),
{
    let mut s = String::new();
    let mut i: usize = 0;
    while i < v.len()
        invariant
            0 <= i <= v.len(),
            s@ == block_text(bindings_view(v@).take(i as int)),
        decreases v.len() - i,
    {
        let line = v[i].render();
        s.append(line.as_str());
        s.append("\n");
        proof {
            let bv = bindings_view(v@);
            assert(bv.take(i + 1).drop_last() =~= bv.take(i as int));
            assert(bv.take(i + 1).last() == v@[i as int]@);
        }
        i = i + 1;
    }
    proof {
        assert(bindings_view(v@).take(v.len() as int) =~= bindings_view(v@));
    }
    s
}

} // verus!
