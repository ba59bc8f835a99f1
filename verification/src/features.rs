//! Selecting the files that can be clustered.
//!
//! The feature extractor reads, per listed file, the creation timestamp in
//! whole seconds since the epoch; a file whose metadata or timestamp cannot
//! be read yields no feature. [`select_clusterable`] keeps exactly the files
//! with a readable timestamp, pairing each kept path with its timestamp so
//! the two lists stay aligned for the clustering engine.

use vstd::prelude::*;
use crate::cluster::{members_of_cluster, lemma_members_subset, Classification};
use crate::TimeSec;

verus! {

/// The paths among `paths` whose entry in the parallel sequence `times` is
/// readable, in their original order.
pub open spec fn kept_paths(paths: Seq<Seq<char>>, times: Seq<Option<TimeSec>>) -> Seq<Seq<char>>
    decreases paths.len(),
{
    if paths.len() == 0 || times.len() != paths.len() {
        Seq::empty()
    } else {
        let rest = kept_paths(paths.drop_last(), times.drop_last());
        if times.last() is Some {
            rest.push(paths.last())
        } else {
            rest
        }
    }
}

/// The readable timestamps among `times`, in their original order.
pub open spec fn kept_times(paths: Seq<Seq<char>>, times: Seq<Option<TimeSec>>) -> Seq<TimeSec>
    decreases paths.len(),
{
    if paths.len() == 0 || times.len() != paths.len() {
        Seq::empty()
    } else {
        let rest = kept_times(paths.drop_last(), times.drop_last());
        match times.last() {
            Some(t) => rest.push(t),
            None => rest,
        }
    }
}

/// Keeps exactly the files with a readable creation timestamp.
///
/// `times[i]` is the creation timestamp of `paths[i]`, or `None` when it
/// could not be read. The two returned vectors are parallel: the kept paths
/// and their timestamps, both in the original order.
pub fn select_clusterable(paths: &Vec<String>, times: &Vec<Option<TimeSec>>) -> (r: (
    Vec<String>,
    Vec<TimeSec>,
))
    requires
        paths@.len() == times@.len(),
    ensures
        r.0.deep_view() == kept_paths(paths.deep_view(), times@),
        r.1@ == kept_times(paths.deep_view(), times@),
        r.0@.len() == r.1@.len(),
{
    let ghost pv = paths.deep_view();
    let n = paths.len();
    let mut out_paths: Vec<String> = Vec::new();
    let mut out_times: Vec<TimeSec> = Vec::new();
    let mut i: usize = 0;
    while i < n
        invariant
            i <= n,
            n == paths@.len(),
            times@.len() == paths@.len(),
            pv == paths.deep_view(),
            pv.len() == paths@.len(),
            out_paths.deep_view() == kept_paths(
                pv.subrange(0, i as int),
                times@.subrange(0, i as int),
            ),
            out_times@ == kept_times(pv.subrange(0, i as int), times@.subrange(0, i as int)),
            out_paths@.len() == out_times@.len(),
        decreases n - i,
    {
        let ghost pre_p = pv.subrange(0, i as int);
        let ghost pre_t = times@.subrange(0, i as int);
        let ghost post_p = pv.subrange(0, i as int + 1);
        let ghost post_t = times@.subrange(0, i as int + 1);
        proof {
            assert(post_p.drop_last() =~= pre_p);
            assert(post_t.drop_last() =~= pre_t);
            assert(post_p.last() == pv[i as int]);
            assert(post_t.last() == times@[i as int]);
        }
        if let Some(t) = times[i] {
            out_paths.push(paths[i].clone());
            out_times.push(t);
            proof {
                assert(out_paths.deep_view() =~= kept_paths(pre_p, pre_t).push(pv[i as int]));
            }
        }
        i = i + 1;
    }
    proof {
        assert(pv.subrange(0, n as int) =~= pv);
        assert(times@.subrange(0, n as int) =~= times@);
    }
    (out_paths, out_times)
}

/// A file without a readable timestamp is never among the kept paths.
pub proof fn lemma_unreadable_not_kept(
    paths: Seq<Seq<char>>,
    times: Seq<Option<TimeSec>>,
    p: Seq<char>,
)
    requires
        forall|i: int| 0 <= i < paths.len() ==> paths[i] == p ==> times[i] is None,
    ensures
        !kept_paths(paths, times).contains(p),
    decreases paths.len(),
{
    if paths.len() == 0 || times.len() != paths.len() {
    } else {
        assert(forall|i: int|
            0 <= i < paths.drop_last().len() ==> paths.drop_last()[i] == p
                ==> times.drop_last()[i] is None);
        lemma_unreadable_not_kept(paths.drop_last(), times.drop_last(), p);
        let rest = kept_paths(paths.drop_last(), times.drop_last());
        if times.last() is Some {
            assert(paths[paths.len() - 1] != p);
            if kept_paths(paths, times).contains(p) {
                let j = choose|j: int|
                    0 <= j < kept_paths(paths, times).len() && kept_paths(paths, times)[j] == p;
                if j < rest.len() {
                    assert(rest.contains(p));
                } else {
                    assert(kept_paths(paths, times)[j] == paths.last());
                }
                assert(false);
            }
        }
    }
}

/// A file whose timestamp could not be read appears in no cluster: it is
/// excluded from the clustering input, and every cluster member comes from
/// that input.
pub proof fn lemma_unreadable_excluded(
    paths: Seq<Seq<char>>,
    times: Seq<Option<TimeSec>>,
    cls: Seq<Classification>,
    id: usize,
    p: Seq<char>,
)
    requires
        forall|i: int| 0 <= i < paths.len() ==> paths[i] == p ==> times[i] is None,
    ensures
        !members_of_cluster(kept_paths(paths, times), cls, id).contains(p),
{
    lemma_unreadable_not_kept(paths, times, p);
    lemma_members_subset(kept_paths(paths, times), cls, id);
}

} // verus!
