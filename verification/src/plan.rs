//! Planning the filesystem side effects of a run.
//!
//! A run materializes the cluster mapping as a tree of symlinks and,
//! optionally, as tags on the original files. Both side effects are planned
//! here as plain values with exact contracts; carrying a plan out is plain
//! directory, symlink and tag I/O and happens outside this library.

use vstd::prelude::*;
use vstd::string::*;
use crate::cluster::ClusterMap;
use crate::digits::{dec_rep, dec_string, digit_char};
use crate::paths::{basename_spec, base_name, join_path, lemma_basename_no_slash};

verus! {

/// The label of cluster `id`: the configured prefix, an underscore, and the
/// decimal cluster id. Used both as the output subdirectory name and as the
/// tag value.
pub open spec fn cluster_label(prefix: Seq<char>, id: nat) -> Seq<char> {
    prefix + seq!['_'] + dec_rep(id)
}

/// The output subdirectory for cluster `id`.
pub open spec fn dir_path_spec(target: Seq<char>, prefix: Seq<char>, id: nat) -> Seq<char> {
    target + seq!['/'] + cluster_label(prefix, id)
}

/// The symlink path for `member` of cluster `id`: the cluster subdirectory
/// joined with the member's base name.
pub open spec fn link_path_spec(
    target: Seq<char>,
    prefix: Seq<char>,
    id: nat,
    member: Seq<char>,
) -> Seq<char> {
    dir_path_spec(target, prefix, id) + seq!['/'] + basename_spec(member)
}

/// Renders the label of cluster `id`.
pub fn cluster_label_string(prefix: &str, id: usize) -> (r: String)
    ensures
        r@ == cluster_label(prefix@, id as nat),
{
    let mut s = prefix.to_owned();
    s.append("_");
    let d = dec_string(id);
    s.append(d.as_str());
    proof {
        reveal_strlit("_");
        assert(s@ =~= cluster_label(prefix@, id as nat));
    }
    s
}

/// One symlink to create: the link itself and the original file it points to.
pub struct LinkEntry {
    /// Where the symlink is created.
    pub link_path: String,
    /// The original absolute path the link points to.
    pub target_path: String,
}

/// One cluster subdirectory to create, with the symlinks inside it.
pub struct DirPlan {
    /// The subdirectory `<target>/<prefix>_<id>`.
    pub dir_path: String,
    /// The symlinks to create inside the subdirectory.
    pub links: Vec<LinkEntry>,
}

/// The full materialization plan: replace the root output directory, then
/// create every cluster subdirectory and its symlinks.
pub struct SymlinkPlan {
    /// The output directory, to be replaced wholesale.
    pub root: String,
    /// One entry per cluster, in mapping order.
    pub dirs: Vec<DirPlan>,
}

/// What it means for `p` to be the materialization plan of `c` under the
/// given target directory and prefix: one subdirectory per cluster, named
/// after the cluster's label, and inside it one symlink per member, named
/// after the member's base name and pointing at the member.
pub open spec fn plan_matches(
    p: SymlinkPlan,
    c: ClusterMap,
    target: Seq<char>,
    prefix: Seq<char>,
) -> bool {
    &&& p.root@ == target
    &&& p.dirs@.len() == c.ids@.len()
    &&& forall|j: int|
        0 <= j < c.ids@.len() ==> (#[trigger] p.dirs@[j]).dir_path@ == dir_path_spec(
            target,
            prefix,
            c.ids@[j] as nat,
        )
    &&& forall|j: int|
        0 <= j < c.ids@.len() ==> (#[trigger] p.dirs@[j]).links@.len() == c.members@[j]@.len()
    &&& forall|j: int, k: int|
        0 <= j < c.ids@.len() && 0 <= k < c.members@[j]@.len() ==> (#[trigger] p.dirs@[
            j
        ].links@[k]).target_path@ == c.members@[j]@[k]@
    &&& forall|j: int, k: int|
        0 <= j < c.ids@.len() && 0 <= k < c.members@[j]@.len() ==> (#[trigger] p.dirs@[
            j
        ].links@[k]).link_path@ == link_path_spec(
            target,
            prefix,
            c.ids@[j] as nat,
            c.members@[j]@[k]@,
        )
}

/// Plans the symlink tree for the cluster mapping: for every cluster a
/// subdirectory `<target>/<prefix>_<id>`, and for every member of the
/// cluster a symlink in it, named after the member's base name and pointing
/// at the member's absolute path.
pub fn plan_symlinks(clusters: &ClusterMap, target: &str, prefix: &str) -> (r: SymlinkPlan)
    requires
        clusters.wf(),
    ensures
        plan_matches(r, *clusters, target@, prefix@),
{
    let n = clusters.ids.len();
    let mut dirs: Vec<DirPlan> = Vec::new();
    let mut j: usize = 0;
    while j < n
        invariant
            j <= n,
            n == clusters.ids@.len(),
            clusters.members@.len() == clusters.ids@.len(),
            dirs@.len() == j,
            forall|jj: int|
                0 <= jj < j ==> (#[trigger] dirs@[jj]).dir_path@ == dir_path_spec(
                    target@,
                    prefix@,
                    clusters.ids@[jj] as nat,
                ),
            forall|jj: int|
                0 <= jj < j ==> (#[trigger] dirs@[jj]).links@.len()
                    == clusters.members@[jj]@.len(),
            forall|jj: int, k: int|
                0 <= jj < j && 0 <= k < clusters.members@[jj]@.len() ==> (#[trigger] dirs@[
                    jj
                ].links@[k]).target_path@ == clusters.members@[jj]@[k]@,
            forall|jj: int, k: int|
                0 <= jj < j && 0 <= k < clusters.members@[jj]@.len() ==> (#[trigger] dirs@[
                    jj
                ].links@[k]).link_path@ == link_path_spec(
                    target@,
                    prefix@,
                    clusters.ids@[jj] as nat,
                    clusters.members@[jj]@[k]@,
                ),
        decreases n - j,
    {
        let label = cluster_label_string(prefix, clusters.ids[j]);
        let dir_path = join_path(target, label.as_str());
        let m = clusters.members[j].len();
        let mut links: Vec<LinkEntry> = Vec::new();
        let mut k: usize = 0;
        while k < m
            invariant
                k <= m,
                j < n,
                n == clusters.ids@.len(),
                clusters.members@.len() == clusters.ids@.len(),
                m == clusters.members@[j as int]@.len(),
                dir_path@ == dir_path_spec(target@, prefix@, clusters.ids@[j as int] as nat),
                links@.len() == k,
                forall|kk: int|
                    0 <= kk < k ==> (#[trigger] links@[kk]).target_path@ == clusters.members@[
                        j as int
                    ]@[kk]@,
                forall|kk: int|
                    0 <= kk < k ==> (#[trigger] links@[kk]).link_path@ == link_path_spec(
                        target@,
                        prefix@,
                        clusters.ids@[j as int] as nat,
                        clusters.members@[j as int]@[kk]@,
                    ),
            decreases m - k,
        {
            let item = clusters.members[j][k].clone();
            let name = base_name(item.as_str());
            let link_path = join_path(dir_path.as_str(), name.as_str());
            links.push(LinkEntry { link_path, target_path: item });
            k = k + 1;
        }
        dirs.push(DirPlan { dir_path, links });
        j = j + 1;
    }
    SymlinkPlan { root: String::from_str(target), dirs }
}

/// Two planned link paths coincide only for the same cluster id and the same
/// base name.
proof fn lemma_link_path_injective(
    target: Seq<char>,
    prefix: Seq<char>,
    id1: nat,
    m1: Seq<char>,
    id2: nat,
    m2: Seq<char>,
)
    requires
        link_path_spec(target, prefix, id1, m1) == link_path_spec(target, prefix, id2, m2),
    ensures
        id1 == id2,
        basename_spec(m1) == basename_spec(m2),
{
    lemma_basename_no_slash(m1);
    lemma_basename_no_slash(m2);
    let s1 = link_path_spec(target, prefix, id1, m1);
    let s2 = link_path_spec(target, prefix, id2, m2);
    let b1 = basename_spec(m1);
    let b2 = basename_spec(m2);
    let u1 = dir_path_spec(target, prefix, id1);
    let u2 = dir_path_spec(target, prefix, id2);
    lemma_last_slash_split(s1, u1, b1);
    lemma_last_slash_split(s2, u2, b2);
    assert(b1 =~= b2);
    assert(u1 =~= u2);
    let head = target + seq!['/'] + prefix + seq!['_'];
    assert(u1 =~= head + dec_rep(id1));
    assert(u2 =~= head + dec_rep(id2));
    assert(dec_rep(id1) =~= u1.subrange(head.len() as int, u1.len() as int));
    assert(dec_rep(id2) =~= u2.subrange(head.len() as int, u2.len() as int));
    lemma_dec_rep_injective(id1, id2);
}

/// In a split `s == u + '/' + b` with `b` slash-free, `'/'`-positions in `s`
/// never exceed `u.len()`, so `u.len()` is determined by `s`.
proof fn lemma_last_slash_split(s: Seq<char>, u: Seq<char>, b: Seq<char>)
    requires
        s == u + seq!['/'] + b,
        forall|i: int| 0 <= i < b.len() ==> b[i] != '/',
    ensures
        s.len() == u.len() + 1 + b.len(),
        s[u.len() as int] == '/',
        forall|i: int| u.len() < i < s.len() ==> s[i] != '/',
        u == s.subrange(0, u.len() as int),
        b == s.subrange(u.len() as int + 1, s.len() as int),
{
    assert(s.len() == u.len() + 1 + b.len());
    assert(s[u.len() as int] == '/');
    assert forall|i: int| u.len() < i < s.len() implies s[i] != '/' by {
        assert(s[i] == b[i - u.len() - 1]);
    }
    assert(u =~= s.subrange(0, u.len() as int));
    assert(b =~= s.subrange(u.len() as int + 1, s.len() as int));
}

/// The decimal representation is never empty.
proof fn lemma_dec_rep_len(n: nat)
    ensures
        dec_rep(n).len() >= 1,
        n >= 10 ==> dec_rep(n).len() >= 2,
    decreases n,
{
    if n >= 10 {
        lemma_dec_rep_len(n / 10);
    }
}

/// Distinct numbers have distinct decimal representations.
proof fn lemma_dec_rep_injective(a: nat, b: nat)
    requires
        dec_rep(a) == dec_rep(b),
    ensures
        a == b,
    decreases a,
{
    lemma_dec_rep_len(a);
    lemma_dec_rep_len(b);
    if a < 10 && b < 10 {
        assert(dec_rep(a) == seq![digit_char(a as int)]);
        assert(dec_rep(b) == seq![digit_char(b as int)]);
        assert(dec_rep(a)[0] == digit_char(a as int));
        assert(dec_rep(b)[0] == digit_char(b as int));
        lemma_digit_char_injective(a as int, b as int);
    } else if a >= 10 && b >= 10 {
        assert(dec_rep(a).drop_last() == dec_rep(a / 10));
        assert(dec_rep(b).drop_last() == dec_rep(b / 10));
        lemma_dec_rep_injective(a / 10, b / 10);
        assert(dec_rep(a).last() == digit_char((a % 10) as int));
        assert(dec_rep(b).last() == digit_char((b % 10) as int));
        lemma_digit_char_injective((a % 10) as int, (b % 10) as int);
        assert(a == (a / 10) * 10 + a % 10) by (nonlinear_arith);
        assert(b == (b / 10) * 10 + b % 10) by (nonlinear_arith);
    } else {
        assert(dec_rep(a).len() != dec_rep(b).len());
    }
}

/// Distinct digits have distinct characters.
proof fn lemma_digit_char_injective(x: int, y: int)
    requires
        0 <= x < 10,
        0 <= y < 10,
        digit_char(x) == digit_char(y),
    ensures
        x == y,
{
}

/// Round trip: each entry of the cluster mapping is planned as exactly one
/// symlink — the one under the cluster's own subdirectory, named after the
/// member's base name and pointing back at the member — provided the base
/// names inside the member's cluster are distinct (otherwise materialization
/// could not create both links anyway).
pub proof fn lemma_symlink_round_trip(
    c: ClusterMap,
    target: Seq<char>,
    prefix: Seq<char>,
    j: int,
    k: int,
)
    requires
        c.wf(),
        0 <= j < c.ids@.len(),
        0 <= k < c.members@[j]@.len(),
        forall|k1: int, k2: int|
            0 <= k1 < k2 < c.members@[j]@.len() ==> basename_spec(c.members@[j]@[k1]@)
                != basename_spec(c.members@[j]@[k2]@),
    ensures
        forall|j2: int, k2: int|
            0 <= j2 < c.ids@.len() && 0 <= k2 < c.members@[j2]@.len() ==> ((link_path_spec(
                target,
                prefix,
                c.ids@[j2] as nat,
                c.members@[j2]@[k2]@,
            ) == link_path_spec(target, prefix, c.ids@[j] as nat, c.members@[j]@[k]@)) <==> (j2
                == j && k2 == k)),
{
    assert forall|j2: int, k2: int|
        0 <= j2 < c.ids@.len() && 0 <= k2 < c.members@[j2]@.len() implies ((link_path_spec(
        target,
        prefix,
        c.ids@[j2] as nat,
        c.members@[j2]@[k2]@,
    ) == link_path_spec(target, prefix, c.ids@[j] as nat, c.members@[j]@[k]@)) <==> (j2 == j
        && k2 == k)) by {
        if link_path_spec(target, prefix, c.ids@[j2] as nat, c.members@[j2]@[k2]@)
            == link_path_spec(target, prefix, c.ids@[j] as nat, c.members@[j]@[k]@) {
            lemma_link_path_injective(
                target,
                prefix,
                c.ids@[j2] as nat,
                c.members@[j2]@[k2]@,
                c.ids@[j] as nat,
                c.members@[j]@[k]@,
            );
            assert(c.ids@[j2] == c.ids@[j]);
            assert(j2 == j);
            assert(k2 == k);
        }
    }
}

/// Round trip, stated on a plan: in any plan of the mapping, the member
/// `(j, k)` is materialized as exactly one symlink — at
/// `<target>/<prefix>_<ids[j]>/<basename>`, pointing back at the member's
/// absolute path — again provided the base names inside cluster `j` are
/// distinct.
pub proof fn lemma_plan_round_trip(
    p: SymlinkPlan,
    c: ClusterMap,
    target: Seq<char>,
    prefix: Seq<char>,
    j: int,
    k: int,
)
    requires
        plan_matches(p, c, target, prefix),
        c.wf(),
        0 <= j < c.ids@.len(),
        0 <= k < c.members@[j]@.len(),
        forall|k1: int, k2: int|
            0 <= k1 < k2 < c.members@[j]@.len() ==> basename_spec(c.members@[j]@[k1]@)
                != basename_spec(c.members@[j]@[k2]@),
    ensures
        p.dirs@[j].links@[k].link_path@ == link_path_spec(
            target,
            prefix,
            c.ids@[j] as nat,
            c.members@[j]@[k]@,
        ),
        p.dirs@[j].links@[k].target_path@ == c.members@[j]@[k]@,
        forall|j2: int, k2: int|
            0 <= j2 < c.ids@.len() && 0 <= k2 < c.members@[j2]@.len() && !(j2 == j && k2 == k)
                ==> (#[trigger] p.dirs@[j2].links@[k2]).link_path@ != p.dirs@[j].links@[
                k
            ].link_path@,
{
    lemma_symlink_round_trip(c, target, prefix, j, k);
    assert forall|j2: int, k2: int|
        0 <= j2 < c.ids@.len() && 0 <= k2 < c.members@[j2]@.len() && !(j2 == j && k2 == k)
        implies (#[trigger] p.dirs@[j2].links@[k2]).link_path@ != p.dirs@[j].links@[
        k
    ].link_path@ by {
        assert(p.dirs@[j2].links@[k2].link_path@ == link_path_spec(
            target,
            prefix,
            c.ids@[j2] as nat,
            c.members@[j2]@[k2]@,
        ));
    }
}

/// Idempotence: the planned tree is a function of the cluster mapping, the
/// target directory and the prefix alone, so a second run plans — and, after
/// the target directory is replaced, materializes — the same contents.
pub proof fn lemma_plan_deterministic(
    p1: SymlinkPlan,
    p2: SymlinkPlan,
    c: ClusterMap,
    target: Seq<char>,
    prefix: Seq<char>,
)
    requires
        plan_matches(p1, c, target, prefix),
        plan_matches(p2, c, target, prefix),
    ensures
        p1.root@ == p2.root@,
        p1.dirs@.len() == p2.dirs@.len(),
        forall|j: int|
            0 <= j < p1.dirs@.len() ==> (#[trigger] p1.dirs@[j]).dir_path@ == (
            #[trigger] p2.dirs@[j]).dir_path@,
        forall|j: int|
            0 <= j < p1.dirs@.len() ==> (#[trigger] p1.dirs@[j]).links@.len() == (
            #[trigger] p2.dirs@[j]).links@.len(),
        forall|j: int, k: int|
            0 <= j < p1.dirs@.len() && 0 <= k < p1.dirs@[j].links@.len() ==> (#[trigger] p1.dirs@[
                j
            ].links@[k]).link_path@ == (#[trigger] p2.dirs@[j].links@[k]).link_path@
                && p1.dirs@[j].links@[k].target_path@ == p2.dirs@[j].links@[k].target_path@,
{
}

/// One cluster's tagging work: the tag value and the files to tag with it.
pub struct ClusterTags {
    /// The tag `<prefix>_<id>`.
    pub tag: String,
    /// The member paths of the cluster, in mapping order.
    pub paths: Vec<String>,
}

/// Whether tagging is enabled: the configured prefix is non-empty.
pub fn tagging_enabled(prefix: &str) -> (b: bool)
    ensures
        b == (prefix@.len() != 0),
{
    !prefix.is_empty()
}

/// Plans the tags: every file of cluster `id` is tagged `<prefix>_<id>`.
pub fn plan_tags(clusters: &ClusterMap, prefix: &str) -> (r: Vec<ClusterTags>)
    requires
        clusters.wf(),
    ensures
        r@.len() == clusters.ids@.len(),
        forall|j: int|
            0 <= j < r@.len() ==> (#[trigger] r@[j]).tag@ == cluster_label(
                prefix@,
                clusters.ids@[j] as nat,
            ),
        forall|j: int|
            0 <= j < r@.len() ==> (#[trigger] r@[j]).paths.deep_view()
                == clusters.members@[j].deep_view(),
{
    let n = clusters.ids.len();
    let mut r: Vec<ClusterTags> = Vec::new();
    let mut j: usize = 0;
    while j < n
        invariant
            j <= n,
            n == clusters.ids@.len(),
            clusters.members@.len() == clusters.ids@.len(),
            r@.len() == j,
            forall|jj: int|
                0 <= jj < j ==> (#[trigger] r@[jj]).tag@ == cluster_label(
                    prefix@,
                    clusters.ids@[jj] as nat,
                ),
            forall|jj: int|
                0 <= jj < j ==> (#[trigger] r@[jj]).paths.deep_view() == clusters.members@[
                    jj
                ].deep_view(),
        decreases n - j,
    {
        let tag = cluster_label_string(prefix, clusters.ids[j]);
        let paths = clone_paths(&clusters.members[j]);
        r.push(ClusterTags { tag, paths });
        j = j + 1;
    }
    r
}

/// Clones a list of paths, keeping its contents.
fn clone_paths(v: &Vec<String>) -> (r: Vec<String>)
    ensures
        r.deep_view() == v.deep_view(),
        r@.len() == v@.len(),
{
    let n = v.len();
    let mut r: Vec<String> = Vec::new();
    let mut i: usize = 0;
    while i < n
        invariant
            i <= n,
            n == v@.len(),
            r@.len() == i,
            forall|k: int| 0 <= k < i ==> (#[trigger] r@[k])@ == v@[k]@,
        decreases n - i,
    {
        r.push(v[i].clone());
        i = i + 1;
    }
    proof {
        assert(r.deep_view() =~= v.deep_view());
    }
    r
}

} // verus!
