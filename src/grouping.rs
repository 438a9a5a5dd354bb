//! Grouping declarations by the canonical path of their header, so that each
//! header is read once and gets one dependency marker.
use vstd::prelude::*;

verus! {

/// The declarations (by their index in input order) whose header has the
/// canonical path `path`.
#[derive(Debug, PartialEq, Eq)]
pub struct HeaderGroup {
    pub path: String,
    pub members: Vec<usize>,
}

pub struct HeaderGroupView {
    pub path: Seq<char>,
    pub members: Seq<usize>,
}

impl View for HeaderGroup {
    type V = HeaderGroupView;

    open spec fn view(&self) -> HeaderGroupView {
        HeaderGroupView { path: self.path@, members: self.members@ }
    }
}

pub open spec fn path_views(v: Seq<String>) -> Seq<Seq<char>> {
    v.map_values(|p: String| p@)
}

pub open spec fn group_views(v: Seq<HeaderGroup>) -> Seq<HeaderGroupView> {
    v.map_values(|g: HeaderGroup| g@)
}

/// Group `g` holds, in increasing order, exactly the indices of `paths` that
/// equal its path, and at least one.
pub open spec fn group_holds(paths: Seq<Seq<char>>, g: HeaderGroupView) -> bool {
    &&& g.members.len() > 0
    &&& forall|a: int, b: int|
        0 <= a < b < g.members.len() ==> #[trigger] g.members[a] < #[trigger] g.members[b]
    &&& forall|a: int|
        0 <= a < g.members.len() ==> #[trigger] g.members[a] < paths.len() && paths[g.members[a]
            as int] == g.path
    &&& forall|i: int|
        0 <= i < paths.len() && #[trigger] paths[i] == g.path ==> g.members.contains(i as usize)
}

/// Some group of `groups` has the path `p`.
pub open spec fn has_group(groups: Seq<HeaderGroupView>, p: Seq<char>) -> bool {
    exists|g: int| 0 <= g < groups.len() && #[trigger] groups[g].path == p
}

/// `groups` partitions the indices of `paths` by path: one group for each
/// distinct path, ordered by where each path first occurs.
pub open spec fn is_grouping(paths: Seq<Seq<char>>, groups: Seq<HeaderGroupView>) -> bool {
    &&& forall|g: int| 0 <= g < groups.len() ==> group_holds(paths, #[trigger] groups[g])
    &&& forall|i: int| 0 <= i < paths.len() ==> has_group(groups, #[trigger] paths[i])
    &&& forall|g1: int, g2: int|
        0 <= g1 < g2 < groups.len() ==> #[trigger] groups[g1].path != #[trigger] groups[g2].path
    &&& forall|g1: int, g2: int|
        0 <= g1 < g2 < groups.len() ==> #[trigger] groups[g1].members[0]
            < #[trigger] groups[g2].members[0]
}

/// The indices from `i` on whose path equals that of `i`, in increasing
/// order; `i` is the first index with that path.
fn members_from(paths: &Vec<String>, i: usize) -> (r: Vec<usize>)
    requires
        i < paths.len(),
        forall|j: int| 0 <= j < i ==> #[trigger] path_views(paths@)[j] != path_views(paths@)[i as int],
    ensures
        group_holds(path_views(paths@), HeaderGroupView { path: paths@[i as int]@, members: r@ }),
        r@[0] == i,
{
    let ghost pv = path_views(paths@);
    let mut r: Vec<usize> = Vec::new();
    r.push(i);
    assert(r@[0] == i);
    let mut j = i + 1;
    while j < paths.len()
        invariant
            i < j <= paths.len(),
            pv == path_views(paths@),
            r@.len() > 0,
            r@[0] == i,
            forall|j0: int| 0 <= j0 < i ==> #[trigger] pv[j0] != pv[i as int],
            forall|a: int, b: int| 0 <= a < b < r@.len() ==> #[trigger] r@[a] < #[trigger] r@[b],
            forall|a: int|
                0 <= a < r@.len() ==> #[trigger] r@[a] < j && pv[r@[a] as int] == pv[i as int],
            forall|k: int| 0 <= k < j && #[trigger] pv[k] == pv[i as int] ==> r@.contains(k as usize),
        decreases paths.len() - j,
    {
        if paths[j] == paths[i] {
            let ghost before = r@;
            r.push(j);
            assert forall|k: int| 0 <= k < j + 1 && #[trigger] pv[k] == pv[i as int] implies r@.contains(
                k as usize,
            ) by {
                if k < j {
                    let a = choose|a: int| 0 <= a < before.len() && before[a] == k as usize;
                    assert(r@[a] == k as usize);
                } else {
                    assert(r@[before.len() as int] == k as usize);
                }
            }
        }
        j += 1;
    }
    assert forall|k: int| 0 <= k < paths.len() && #[trigger] pv[k] == pv[i as int] implies r@.contains(
        k as usize,
    ) by {}
    r
}

/// Groups the indices of `paths` by path: one group for each distinct path,
/// in the order in which the paths first occur, each holding in increasing
/// order every index with its path.
pub fn group_by_path(paths: &Vec<String>) -> (r: Vec<HeaderGroup>)
    ensures
        is_grouping(path_views(paths@), group_views(r@)),
{
    let ghost pv = path_views(paths@);
    let mut groups: Vec<HeaderGroup> = Vec::new();
    let mut i: usize = 0;
    while i < paths.len()
        invariant
            i <= paths.len(),
            pv == path_views(paths@),
            forall|g: int|
                0 <= g < groups@.len() ==> group_holds(pv, #[trigger] group_views(groups@)[g]),
            forall|g: int| 0 <= g < groups@.len() ==> #[trigger] groups@[g].members@[0] < i,
            forall|j: int| 0 <= j < i ==> has_group(group_views(groups@), #[trigger] pv[j]),
            forall|g1: int, g2: int|
                0 <= g1 < g2 < groups@.len() ==> #[trigger] group_views(groups@)[g1].path
                    != #[trigger] group_views(groups@)[g2].path,
            forall|g1: int, g2: int|
                0 <= g1 < g2 < groups@.len() ==> #[trigger] group_views(groups@)[g1].members[0]
                    < #[trigger] group_views(groups@)[g2].members[0],
        decreases paths.len() - i,
    {
        let mut seen = false;
        let mut j: usize = 0;
        while j < i
            invariant
                j <= i < paths.len(),
                pv == path_views(paths@),
                seen ==> exists|j0: int| 0 <= j0 < i && #[trigger] pv[j0] == pv[i as int],
                !seen ==> forall|j0: int| 0 <= j0 < j ==> #[trigger] pv[j0] != pv[i as int],
            decreases i - j,
        {
            if paths[j] == paths[i] {
                assert(pv[j as int] == pv[i as int]);
                seen = true;
            }
            j += 1;
        }
        let ghost old_groups = group_views(groups@);
        if seen {
            assert forall|j0: int| 0 <= j0 < i + 1 implies has_group(
                group_views(groups@),
                #[trigger] pv[j0],
            ) by {
                if j0 == i {
                    let w = choose|w: int| 0 <= w < i && #[trigger] pv[w] == pv[i as int];
                    assert(pv[w] == pv[j0]);
                }
            }
        } else {
            let members = members_from(paths, i);
            let g = HeaderGroup { path: paths[i].clone(), members };
            groups.push(g);
            let ghost ng = group_views(groups@);
            assert(ng =~= old_groups.push(g@));
            assert forall|g1: int, g2: int| 0 <= g1 < g2 < ng.len() implies #[trigger] ng[g1].path
                != #[trigger] ng[g2].path by {
                if g2 == ng.len() - 1 {
                    let m = ng[g1].members[0];
                    assert(group_holds(pv, ng[g1]));
                    assert(pv[m as int] == ng[g1].path);
                    assert(m < i);
                }
            }
            assert forall|j0: int| 0 <= j0 < i + 1 implies has_group(ng, #[trigger] pv[j0]) by {
                if j0 == i {
                    assert(ng[ng.len() - 1].path == pv[j0]);
                } else {
                    assert(has_group(old_groups, pv[j0]));
                    let w = choose|w: int| 0 <= w < old_groups.len() && #[trigger] old_groups[w].path == pv[j0];
                    assert(ng[w] == old_groups[w]);
                }
            }
        }
        i += 1;
    }
    assert(pv.len() == i);
    groups
}

pub open spec fn increasing(m: Seq<usize>) -> bool {
    forall|a: int, b: int| 0 <= a < b < m.len() ==> #[trigger] m[a] < #[trigger] m[b]
}

/// Two increasing sequences that hold the same values are equal.
pub proof fn lemma_increasing_same_values(m1: Seq<usize>, m2: Seq<usize>)
    requires
        increasing(m1),
        increasing(m2),
        forall|x: usize| m1.contains(x) <==> m2.contains(x),
    ensures
        m1 == m2,
    decreases m1.len(),
{
    if m1.len() == 0 {
        if m2.len() > 0 {
            assert(m2.contains(m2[0]));
        }
        assert(m1 =~= m2);
    } else {
        assert(m1.contains(m1[0]));
        assert(m2.len() > 0);
        assert(m2.contains(m2[0]));
        let k = choose|k: int| 0 <= k < m2.len() && m2[k] == m1[0];
        let j = choose|j: int| 0 <= j < m1.len() && m1[j] == m2[0];
        if k > 0 {
            assert(m2[0] < m2[k]);
            if j > 0 {
                assert(m1[0] < m1[j]);
            }
        }
        assert(m1[0] == m2[0]);
        let t1 = m1.drop_first();
        let t2 = m2.drop_first();
        assert forall|x: usize| t1.contains(x) <==> t2.contains(x) by {
            if t1.contains(x) {
                let a = choose|a: int| 0 <= a < t1.len() && t1[a] == x;
                assert(m1[a + 1] == x && m1[0] < m1[a + 1]);
                assert(m1.contains(x));
                let b = choose|b: int| 0 <= b < m2.len() && m2[b] == x;
                assert(b != 0);
                assert(t2[b - 1] == x);
            }
            if t2.contains(x) {
                let a = choose|a: int| 0 <= a < t2.len() && t2[a] == x;
                assert(m2[a + 1] == x && m2[0] < m2[a + 1]);
                assert(m2.contains(x));
                let b = choose|b: int| 0 <= b < m1.len() && m1[b] == x;
                assert(b != 0);
                assert(t1[b - 1] == x);
            }
        }
        assert(increasing(t1)) by {
            assert forall|a: int, b: int| 0 <= a < b < t1.len() implies #[trigger] t1[a] < #[trigger] t1[b] by {
                assert(m1[a + 1] < m1[b + 1]);
            }
        }
        assert(increasing(t2)) by {
            assert forall|a: int, b: int| 0 <= a < b < t2.len() implies #[trigger] t2[a] < #[trigger] t2[b] by {
                assert(m2[a + 1] < m2[b + 1]);
            }
        }
        lemma_increasing_same_values(t1, t2);
        assert(m1 =~= seq![m1[0]] + t1);
        assert(m2 =~= seq![m2[0]] + t2);
    }
}

/// The first member of a group is the first index that holds its path.
proof fn lemma_first_member(paths: Seq<Seq<char>>, grp: HeaderGroupView, i: int)
    requires
        group_holds(paths, grp),
        0 <= i < paths.len(),
        paths[i] == grp.path,
    ensures
        grp.members[0] <= i,
{
    assert(grp.members.contains(i as usize));
    let a = choose|a: int| 0 <= a < grp.members.len() && grp.members[a] == i as usize;
    if a > 0 {
        assert(grp.members[0] < grp.members[a]);
    }
}

pub open spec fn first_members(groups: Seq<HeaderGroupView>) -> Seq<usize> {
    groups.map_values(|g: HeaderGroupView| g.members[0])
}

/// The grouping of a sequence of paths is unique: there is one way to meet
/// `is_grouping`, so grouping the same paths twice gives the same groups.
pub proof fn lemma_grouping_unique(
    paths: Seq<Seq<char>>,
    groups1: Seq<HeaderGroupView>,
    groups2: Seq<HeaderGroupView>,
)
    requires
        is_grouping(paths, groups1),
        is_grouping(paths, groups2),
    ensures
        groups1 == groups2,
{
    let f1 = first_members(groups1);
    let f2 = first_members(groups2);
    assert(increasing(f1)) by {
        assert forall|a: int, b: int| 0 <= a < b < f1.len() implies #[trigger] f1[a] < #[trigger] f1[b] by {
            assert(groups1[a].members[0] < groups1[b].members[0]);
        }
    }
    assert(increasing(f2)) by {
        assert forall|a: int, b: int| 0 <= a < b < f2.len() implies #[trigger] f2[a] < #[trigger] f2[b] by {
            assert(groups2[a].members[0] < groups2[b].members[0]);
        }
    }
    assert forall|x: usize| f1.contains(x) implies f2.contains(x) by {
        lemma_first_in_other(paths, groups1, groups2, x);
    }
    assert forall|x: usize| f2.contains(x) implies f1.contains(x) by {
        lemma_first_in_other(paths, groups2, groups1, x);
    }
    lemma_increasing_same_values(f1, f2);
    assert(groups1.len() == f1.len() && groups2.len() == f2.len());
    assert forall|g: int| 0 <= g < groups1.len() implies groups1[g] == groups2[g] by {
        let x = groups1[g].members[0];
        assert(f1[g] == x && f2[g] == x);
        assert(group_holds(paths, groups1[g]));
        assert(group_holds(paths, groups2[g]));
        assert(groups1[g].path == paths[x as int]);
        assert(groups2[g].path == paths[x as int]);
        let m1 = groups1[g].members;
        let m2 = groups2[g].members;
        assert(increasing(m1));
        assert(increasing(m2));
        assert forall|y: usize| m1.contains(y) <==> m2.contains(y) by {
            if m1.contains(y) {
                let a = choose|a: int| 0 <= a < m1.len() && m1[a] == y;
                assert(paths[m1[a] as int] == groups1[g].path);
                assert(paths[y as int] == groups2[g].path);
            }
            if m2.contains(y) {
                let a = choose|a: int| 0 <= a < m2.len() && m2[a] == y;
                assert(paths[m2[a] as int] == groups2[g].path);
                assert(paths[y as int] == groups1[g].path);
            }
        }
        lemma_increasing_same_values(m1, m2);
    }
    assert(groups1 =~= groups2);
}

/// A first member of a group of one grouping is a first member of a group of
/// any other grouping of the same paths.
proof fn lemma_first_in_other(
    paths: Seq<Seq<char>>,
    groups1: Seq<HeaderGroupView>,
    groups2: Seq<HeaderGroupView>,
    x: usize,
)
    requires
        is_grouping(paths, groups1),
        is_grouping(paths, groups2),
        first_members(groups1).contains(x),
    ensures
        first_members(groups2).contains(x),
{
    let f1 = first_members(groups1);
    let g = choose|g: int| 0 <= g < f1.len() && f1[g] == x;
    assert(group_holds(paths, groups1[g]));
    assert(x == groups1[g].members[0]);
    assert(x < paths.len() && paths[x as int] == groups1[g].path);
    assert(has_group(groups2, paths[x as int]));
    let h = choose|h: int| 0 <= h < groups2.len() && #[trigger] groups2[h].path == paths[x as int];
    assert(group_holds(paths, groups2[h]));
    lemma_first_member(paths, groups2[h], x as int);
    let y = groups2[h].members[0];
    assert(paths[y as int] == groups2[h].path);
    lemma_first_member(paths, groups1[g], y as int);
    assert(y == x);
    assert(first_members(groups2)[h] == x);
}

} // verus!
