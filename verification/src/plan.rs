//! Batch planning: each input is classified independently, and the inputs that
//! restore content (extraction, decompression) are grouped before the inputs
//! that produce new containers, so that a container packed later in the batch
//! is never mistaken for new input.

use vstd::prelude::*;

use crate::classify::{Action, PathKind, classify, classify_spec};
use crate::paths::dup;

verus! {

/// An action that restores content from an existing container.
pub open spec fn is_restore(a: Action) -> bool {
    a == Action::DecompressFile || a == Action::ExtractTree
}

/// An action that produces a new container.
pub open spec fn is_store(a: Action) -> bool {
    a == Action::CompressFile || a == Action::PackTree
}

/// The restore jobs of a batch, in input order.
pub open spec fn restores_of(items: Seq<(PathKind, Vec<char>)>) -> Seq<(Action, Seq<char>)>
    decreases items,
{
    if items.len() == 0 {
        Seq::empty()
    } else {
        let rest = restores_of(items.drop_last());
        let a = classify_spec(items.last().0, items.last().1@);
        if is_restore(a) {
            rest.push((a, items.last().1@))
        } else {
            rest
        }
    }
}

/// The store jobs of a batch, in input order.
pub open spec fn stores_of(items: Seq<(PathKind, Vec<char>)>) -> Seq<(Action, Seq<char>)>
    decreases items,
{
    if items.len() == 0 {
        Seq::empty()
    } else {
        let rest = stores_of(items.drop_last());
        let a = classify_spec(items.last().0, items.last().1@);
        if is_store(a) {
            rest.push((a, items.last().1@))
        } else {
            rest
        }
    }
}

/// The rejected inputs of a batch, in input order: paths that are neither a
/// regular file nor a directory. They fail individually; the rest of the batch
/// goes on.
pub open spec fn invalid_of(items: Seq<(PathKind, Vec<char>)>) -> Seq<Seq<char>>
    decreases items,
{
    if items.len() == 0 {
        Seq::empty()
    } else {
        let rest = invalid_of(items.drop_last());
        if classify_spec(items.last().0, items.last().1@) == Action::InvalidInput {
            rest.push(items.last().1@)
        } else {
            rest
        }
    }
}

/// The work of one batch: restore jobs first, then store jobs, then the inputs
/// that were rejected outright.
pub struct WorkPlan {
    /// Decompression and extraction jobs, in input order.
    pub restores: Vec<(Action, Vec<char>)>,
    /// Compression and packing jobs, in input order.
    pub stores: Vec<(Action, Vec<char>)>,
    /// Inputs that are neither a regular file nor a directory.
    pub invalid: Vec<Vec<char>>,
}

/// The mathematical value of a job list.
pub open spec fn job_views(s: Seq<(Action, Vec<char>)>) -> Seq<(Action, Seq<char>)> {
    s.map_values(|e: (Action, Vec<char>)| (e.0, e.1@))
}

/// The mathematical value of a path list.
pub open spec fn path_views(s: Seq<Vec<char>>) -> Seq<Seq<char>> {
    s.map_values(|e: Vec<char>| e@)
}

/// Classifies every input of a batch independently and groups the restore jobs
/// before the store jobs, each group keeping input order.
pub fn plan_inputs(items: &Vec<(PathKind, Vec<char>)>) -> (r: WorkPlan)
    ensures
        job_views(r.restores@) == restores_of(items@),
        job_views(r.stores@) == stores_of(items@),
        path_views(r.invalid@) == invalid_of(items@),
{
    let mut restores: Vec<(Action, Vec<char>)> = Vec::new();
    let mut stores: Vec<(Action, Vec<char>)> = Vec::new();
    let mut invalid: Vec<Vec<char>> = Vec::new();
    let mut i: usize = 0;
    proof {
        assert(job_views(restores@) =~= restores_of(items@.subrange(0, 0)));
        assert(job_views(stores@) =~= stores_of(items@.subrange(0, 0)));
        assert(path_views(invalid@) =~= invalid_of(items@.subrange(0, 0)));
    }
    while i < items.len()
        invariant
            i <= items@.len(),
            job_views(restores@) == restores_of(items@.subrange(0, i as int)),
            job_views(stores@) == stores_of(items@.subrange(0, i as int)),
            path_views(invalid@) == invalid_of(items@.subrange(0, i as int)),
        decreases items@.len() - i,
    {
        let item = &items[i];
        let a = classify(item.0, &item.1);
        if matches!(a, Action::DecompressFile) || matches!(a, Action::ExtractTree) {
            restores.push((a, dup(&item.1)));
        } else if matches!(a, Action::InvalidInput) {
            invalid.push(dup(&item.1));
        } else {
            stores.push((a, dup(&item.1)));
        }
        proof {
            let sub = items@.subrange(0, i + 1 as int);
            assert(sub.drop_last() =~= items@.subrange(0, i as int));
            assert(sub.last() == items@[i as int]);
            assert(job_views(restores@) =~= restores_of(sub));
            assert(job_views(stores@) =~= stores_of(sub));
            assert(path_views(invalid@) =~= invalid_of(sub));
        }
        i = i + 1;
    }
    proof {
        assert(items@.subrange(0, items@.len() as int) =~= items@);
    }
    WorkPlan { restores, stores, invalid }
}

} // verus!
