//! Grouping classified files into clusters.
//!
//! The clustering engine assigns every file a [`Classification`]: member
//! (core or edge) of some cluster, or noise. [`build_clusters`] groups the
//! file paths by cluster id, dropping noise, and keeping the original order
//! within each cluster.

use vstd::prelude::*;

verus! {

/// The verdict of the clustering engine for one input point, in input order.
#[derive(Clone, Copy, PartialEq, Eq, Structural, Debug)]
pub enum Classification {
    /// A point with at least `min_points` neighbors within `epsilon`.
    Core(usize),
    /// A point within `epsilon` of a core point, but itself below the
    /// density threshold.
    Edge(usize),
    /// A point belonging to no cluster.
    Noise,
}

/// The cluster id a classification assigns, if any.
pub open spec fn class_id(c: Classification) -> Option<usize> {
    match c {
        Classification::Core(id) => Some(id),
        Classification::Edge(id) => Some(id),
        Classification::Noise => None,
    }
}

/// The paths among `paths` whose classification puts them in cluster `id`,
/// in their original order. `paths` and `cls` are parallel sequences.
pub open spec fn members_of_cluster(
    paths: Seq<Seq<char>>,
    cls: Seq<Classification>,
    id: usize,
) -> Seq<Seq<char>>
    decreases paths.len(),
{
    if paths.len() == 0 || cls.len() != paths.len() {
        Seq::empty()
    } else {
        let rest = members_of_cluster(paths.drop_last(), cls.drop_last(), id);
        if class_id(cls.last()) == Some(id) {
            rest.push(paths.last())
        } else {
            rest
        }
    }
}

/// Extending both parallel sequences by one entry extends one cluster's
/// member list by at most that entry.
proof fn lemma_members_snoc(
    paths: Seq<Seq<char>>,
    cls: Seq<Classification>,
    i: int,
    id: usize,
)
    requires
        0 <= i < paths.len(),
        cls.len() == paths.len(),
    ensures
        members_of_cluster(paths.subrange(0, i + 1), cls.subrange(0, i + 1), id) == (if class_id(
            cls[i],
        ) == Some(id) {
            members_of_cluster(paths.subrange(0, i), cls.subrange(0, i), id).push(paths[i])
        } else {
            members_of_cluster(paths.subrange(0, i), cls.subrange(0, i), id)
        }),
{
    let p1 = paths.subrange(0, i + 1);
    let c1 = cls.subrange(0, i + 1);
    assert(p1.drop_last() =~= paths.subrange(0, i));
    assert(c1.drop_last() =~= cls.subrange(0, i));
    assert(p1.last() == paths[i]);
    assert(c1.last() == cls[i]);
}

/// Every member of a cluster is one of the input paths.
pub proof fn lemma_members_subset(
    paths: Seq<Seq<char>>,
    cls: Seq<Classification>,
    id: usize,
)
    ensures
        forall|m: Seq<char>|
            members_of_cluster(paths, cls, id).contains(m) ==> paths.contains(m),
    decreases paths.len(),
{
    if paths.len() == 0 || cls.len() != paths.len() {
    } else {
        lemma_members_subset(paths.drop_last(), cls.drop_last(), id);
        let rest = members_of_cluster(paths.drop_last(), cls.drop_last(), id);
        assert forall|m: Seq<char>|
            members_of_cluster(paths, cls, id).contains(m) implies paths.contains(m) by {
            if rest.contains(m) {
                assert(paths.drop_last().contains(m));
                let j = choose|j: int|
                    0 <= j < paths.drop_last().len() && paths.drop_last()[j] == m;
                assert(paths[j] == m);
            } else {
                assert(m == paths.last());
            }
        }
    }
}

/// When every classification is noise, every cluster is empty.
pub proof fn lemma_all_noise_yields_empty(paths: Seq<Seq<char>>, cls: Seq<Classification>)
    requires
        forall|i: int| 0 <= i < cls.len() ==> cls[i] is Noise,
    ensures
        forall|id: usize| members_of_cluster(paths, cls, id).len() == 0,
    decreases paths.len(),
{
    if paths.len() == 0 || cls.len() != paths.len() {
    } else {
        assert(forall|i: int|
            0 <= i < cls.drop_last().len() ==> cls.drop_last()[i] is Noise);
        lemma_all_noise_yields_empty(paths.drop_last(), cls.drop_last());
        assert(cls.last() is Noise);
        assert forall|id: usize| members_of_cluster(paths, cls, id).len() == 0 by {
            assert(class_id(cls.last()) == None::<usize>);
            assert(members_of_cluster(paths, cls, id) == members_of_cluster(
                paths.drop_last(),
                cls.drop_last(),
                id,
            ));
        }
    }
}

/// When every classification is noise — as for an input of at most one file,
/// or one where no `min_points` files fall within `epsilon` of each other —
/// the aggregated cluster mapping is empty.
pub proof fn lemma_all_noise_empty_map(
    r: ClusterMap,
    paths: Seq<Seq<char>>,
    cls: Seq<Classification>,
)
    requires
        forall|i: int| 0 <= i < cls.len() ==> cls[i] is Noise,
        forall|id: usize| r.contains_id(id) <==> members_of_cluster(paths, cls, id).len() > 0,
    ensures
        r.ids@.len() == 0,
{
    lemma_all_noise_yields_empty(paths, cls);
    if r.ids@.len() > 0 {
        let id = r.ids@[0];
        assert(r.contains_id(id));
        assert(false);
    }
}

/// The cluster mapping: for each cluster id that received at least one file,
/// the member paths of that cluster in their original order. Parallel
/// vectors, each cluster id at most once.
pub struct ClusterMap {
    /// The cluster ids, each exactly once.
    pub ids: Vec<usize>,
    /// `members[j]` are the paths of cluster `ids[j]`, in input order.
    pub members: Vec<Vec<String>>,
}

impl ClusterMap {
    /// Structural invariant: parallel vectors and unique ids.
    pub open spec fn wf(self) -> bool {
        &&& self.ids@.len() == self.members@.len()
        &&& forall|j: int, k: int|
            0 <= j < k < self.ids@.len() ==> self.ids@[j] != self.ids@[k]
    }

    /// Whether cluster `id` is present in the mapping.
    pub open spec fn contains_id(self, id: usize) -> bool {
        exists|j: int| 0 <= j < self.ids@.len() && self.ids@[j] == id
    }

    /// The position of cluster `id` in the mapping.
    pub open spec fn id_index(self, id: usize) -> int {
        choose|j: int| 0 <= j < self.ids@.len() && self.ids@[j] == id
    }

    /// The member paths of cluster `id`.
    pub open spec fn members_of(self, id: usize) -> Seq<Seq<char>> {
        self.members@[self.id_index(id)].deep_view()
    }

    /// The number of clusters.
    pub fn len(&self) -> (n: usize)
        ensures
            n == self.ids@.len(),
    {
        self.ids.len()
    }
}

/// The position of `id` in `ids`, if present.
fn find_index(ids: &Vec<usize>, id: usize) -> (r: Option<usize>)
    ensures
        match r {
            Some(j) => j < ids@.len() && ids@[j as int] == id,
            None => forall|k: int| 0 <= k < ids@.len() ==> ids@[k] != id,
        },
{
    let n = ids.len();
    let mut j: usize = 0;
    while j < n
        invariant
            j <= n,
            n == ids@.len(),
            forall|k: int| 0 <= k < j ==> ids@[k] != id,
        decreases n - j,
    {
        if ids[j] == id {
            return Some(j);
        }
        j = j + 1;
    }
    None
}

/// Groups the classified paths by cluster id, dropping noise.
///
/// `paths` and `cls` are parallel: `cls[i]` is the clustering verdict for
/// `paths[i]`. The result maps every cluster id that classified at least one
/// path to exactly its members, in input order; noise paths appear nowhere.
pub fn build_clusters(paths: &Vec<String>, cls: &Vec<Classification>) -> (r: ClusterMap)
    requires
        paths@.len() == cls@.len(),
    ensures
        r.wf(),
        forall|id: usize|
            r.contains_id(id) <==> members_of_cluster(paths.deep_view(), cls@, id).len() > 0,
        forall|j: int|
            0 <= j < r.ids@.len() ==> r.members@[j].deep_view() == members_of_cluster(
                paths.deep_view(),
                cls@,
                r.ids@[j],
            ),
        forall|id: usize|
            r.contains_id(id) ==> r.members_of(id) == members_of_cluster(
                paths.deep_view(),
                cls@,
                id,
            ),
{
    let ghost pv = paths.deep_view();
    let n = paths.len();
    let mut r = ClusterMap { ids: Vec::new(), members: Vec::new() };
    let mut i: usize = 0;
    while i < n
        invariant
            i <= n,
            n == paths@.len(),
            cls@.len() == paths@.len(),
            pv == paths.deep_view(),
            pv.len() == paths@.len(),
            r.ids@.len() == r.members@.len(),
            forall|j: int, k: int| 0 <= j < k < r.ids@.len() ==> r.ids@[j] != r.ids@[k],
            forall|j: int|
                0 <= j < r.ids@.len() ==> r.members@[j].deep_view() == members_of_cluster(
                    pv.subrange(0, i as int),
                    cls@.subrange(0, i as int),
                    r.ids@[j],
                ),
            forall|j: int|
                0 <= j < r.ids@.len() ==> members_of_cluster(
                    pv.subrange(0, i as int),
                    cls@.subrange(0, i as int),
                    r.ids@[j],
                ).len() > 0,
            forall|id: usize|
                members_of_cluster(pv.subrange(0, i as int), cls@.subrange(0, i as int), id).len()
                    > 0 ==> exists|j: int| 0 <= j < r.ids@.len() && r.ids@[j] == id,
        decreases n - i,
    {
        let ghost pre_p = pv.subrange(0, i as int);
        let ghost pre_c = cls@.subrange(0, i as int);
        let ghost post_p = pv.subrange(0, i as int + 1);
        let ghost post_c = cls@.subrange(0, i as int + 1);
        proof {
            lemma_members_snoc_all(pv, cls@, i as int);
        }
        let ghost entry_ids = r.ids@;
        let c = cls[i];
        match c {
            Classification::Core(id) | Classification::Edge(id) => {
                proof {
                    assert(class_id(cls@[i as int]) == Some(id));
                }
                match find_index(&r.ids, id) {
                    Some(j) => {
                        let ghost old_members = r.members@;
                        let mut inner = r.members.remove(j);
                        inner.push(paths[i].clone());
                        r.members.insert(j, inner);
                        proof {
                            assert(r.members@ =~= old_members.update(
                                j as int,
                                r.members@[j as int],
                            ));
                            assert(r.members@[j as int].deep_view() =~= old_members[
                                j as int
                            ].deep_view().push(pv[i as int]));
                        }
                    },
                    None => {
                        r.ids.push(id);
                        let mut inner: Vec<String> = Vec::new();
                        inner.push(paths[i].clone());
                        r.members.push(inner);
                        proof {
                            assert(r.ids@.last() == id);
                            assert(r.ids@[r.ids@.len() - 1] == id);
                            assert(r.members@.last().deep_view() =~= Seq::<
                                Seq<char>,
                            >::empty().push(pv[i as int]));
                            assert(members_of_cluster(pre_p, pre_c, id) =~= Seq::<
                                Seq<char>,
                            >::empty());
                        }
                    },
                }
            },
            Classification::Noise => {
                proof {
                    assert(class_id(cls@[i as int]) == None::<usize>);
                }
            },
        }
        proof {
            assert(entry_ids.len() <= r.ids@.len());
            assert(forall|k: int| 0 <= k < entry_ids.len() ==> r.ids@[k] == entry_ids[k]);
            assert forall|id: usize| members_of_cluster(post_p, post_c, id).len() > 0 implies
                exists|j: int| 0 <= j < r.ids@.len() && r.ids@[j] == id by {
                if class_id(cls@[i as int]) == Some(id) {
                    assert(exists|j: int| 0 <= j < r.ids@.len() && r.ids@[j] == id);
                } else {
                    assert(members_of_cluster(post_p, post_c, id) == members_of_cluster(
                        pre_p,
                        pre_c,
                        id,
                    ));
                    let j = choose|j: int| 0 <= j < entry_ids.len() && entry_ids[j] == id;
                    assert(0 <= j < r.ids@.len() && r.ids@[j] == id);
                }
            }
        }
        i = i + 1;
    }
    proof {
        assert(pv.subrange(0, n as int) =~= pv);
        assert(cls@.subrange(0, n as int) =~= cls@);
        assert forall|id: usize| r.contains_id(id) implies r.members_of(id)
            == members_of_cluster(pv, cls@, id) by {
            let j = r.id_index(id);
            assert(0 <= j < r.ids@.len() && r.ids@[j] == id);
        }
    }
    r
}

/// Helper: the snoc step for every cluster id at once.
proof fn lemma_members_snoc_all(paths: Seq<Seq<char>>, cls: Seq<Classification>, i: int)
    requires
        0 <= i < paths.len(),
        cls.len() == paths.len(),
    ensures
        forall|id: usize|
            members_of_cluster(paths.subrange(0, i + 1), cls.subrange(0, i + 1), id) == (
            if class_id(cls[i]) == Some(id) {
                members_of_cluster(paths.subrange(0, i), cls.subrange(0, i), id).push(paths[i])
            } else {
                members_of_cluster(paths.subrange(0, i), cls.subrange(0, i), id)
            }),
{
    assert forall|id: usize|
        members_of_cluster(paths.subrange(0, i + 1), cls.subrange(0, i + 1), id) == (if class_id(
            cls[i],
        ) == Some(id) {
            members_of_cluster(paths.subrange(0, i), cls.subrange(0, i), id).push(paths[i])
        } else {
            members_of_cluster(paths.subrange(0, i), cls.subrange(0, i), id)
        }) by {
        lemma_members_snoc(paths, cls, i, id);
    }
}

} // verus!
