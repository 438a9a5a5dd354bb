//! Properties that hold across the functions of this crate.
use vstd::prelude::*;
use crate::declaration::{DeclarationView, declarations_of};
use crate::error::ErrorView;
use crate::define::define_value;
use crate::expand::{Planned, constant_for, expansion, group_items, groups_items};
use crate::grouping::{HeaderGroupView, group_holds, has_group, is_grouping, lemma_grouping_unique};

verus! {

/// A block that declares nothing generates nothing: no constant and no
/// dependency marker, whatever the headers.
pub proof fn lemma_no_declarations_no_output(
    input: Seq<char>,
    groups: Seq<HeaderGroupView>,
    headers: Seq<Seq<char>>,
)
    requires
        declarations_of(input) == Ok::<Seq<DeclarationView>, int>(seq![]),
        is_grouping(seq![], groups),
    ensures
        expansion(seq![], groups, headers) == Ok::<Seq<Planned>, ErrorView>(seq![]),
{
    if groups.len() > 0 {
        assert(group_holds(seq![], groups[0]));
        assert(groups[0].members[0] < 0);
    }
}

/// Each header is read once: the path of every declaration belongs to
/// exactly one group, and that group holds the declaration. Generation takes
/// one header text for each group.
pub proof fn lemma_one_group_per_header(
    paths: Seq<Seq<char>>,
    groups: Seq<HeaderGroupView>,
    i: int,
)
    requires
        is_grouping(paths, groups),
        0 <= i < paths.len(),
    ensures
        exists|g: int|
            0 <= g < groups.len() && groups[g].path == paths[i] && groups[g].members.contains(
                i as usize,
            ),
        forall|g1: int, g2: int|
            0 <= g1 < groups.len() && 0 <= g2 < groups.len() && groups[g1].path == paths[i]
                && groups[g2].path == paths[i] ==> g1 == g2,
{
    assert(has_group(groups, paths[i]));
    let g = choose|g: int| 0 <= g < groups.len() && #[trigger] groups[g].path == paths[i];
    assert(group_holds(paths, groups[g]));
    assert forall|g1: int, g2: int|
        0 <= g1 < groups.len() && 0 <= g2 < groups.len() && groups[g1].path == paths[i]
            && groups[g2].path == paths[i] implies g1 == g2 by {
        if g1 < g2 {
            assert(groups[g1].path != groups[g2].path);
        } else if g2 < g1 {
            assert(groups[g2].path != groups[g1].path);
        }
    }
}

proof fn lemma_group_items_shape(
    decls: Seq<DeclarationView>,
    path: Seq<char>,
    header: Seq<char>,
    members: Seq<usize>,
    a: int,
    acc: Seq<Planned>,
)
    requires
        0 <= a <= members.len(),
        group_items(decls, path, header, members, a, acc) is Ok,
    ensures
        ({
            let items = group_items(decls, path, header, members, a, acc)->Ok_0;
            &&& items.len() == acc.len() + members.len() - a
            &&& items.subrange(0, acc.len() as int) == acc
            &&& forall|k: int|
                a <= k < members.len() ==> (#[trigger] items[acc.len() + k - a] matches Planned::Constant {
                    name,
                    ..
                } && name == decls[members[k] as int].name)
        }),
    decreases members.len() - a,
{
    if a < members.len() {
        let d = decls[members[a] as int];
        let c = constant_for(d, path, header)->Ok_0;
        let acc2 = acc.push(c);
        lemma_group_items_shape(decls, path, header, members, a + 1, acc2);
        let items = group_items(decls, path, header, members, a, acc)->Ok_0;
        assert(items == group_items(decls, path, header, members, a + 1, acc2)->Ok_0);
        assert(items.subrange(0, acc2.len() as int)[acc.len() as int] == c);
        assert(items.subrange(0, acc.len() as int) =~= items.subrange(0, acc2.len() as int).subrange(
            0,
            acc.len() as int,
        ));
        assert forall|k: int| a <= k < members.len() implies (#[trigger] items[acc.len() + k
            - a] matches Planned::Constant { name, .. } && name == decls[members[k] as int].name) by {
            if k > a {
                assert(items[acc2.len() + k - (a + 1)] == items[acc.len() + k - a]);
            }
        }
    } else {
        assert(acc.subrange(0, acc.len() as int) =~= acc);
    }
}

/// Generation is repeatable: grouping the same canonical paths twice gives
/// the same groups, and so the same declarations and header texts give the
/// same planned items, in the same order.
pub proof fn lemma_generation_deterministic(
    paths: Seq<Seq<char>>,
    groups1: Seq<HeaderGroupView>,
    groups2: Seq<HeaderGroupView>,
    decls: Seq<DeclarationView>,
    headers: Seq<Seq<char>>,
)
    requires
        is_grouping(paths, groups1),
        is_grouping(paths, groups2),
    ensures
        groups1 == groups2,
        expansion(decls, groups1, headers) == expansion(decls, groups2, headers),
{
    lemma_grouping_unique(paths, groups1, groups2);
}

proof fn lemma_group_items_fail(
    decls: Seq<DeclarationView>,
    path: Seq<char>,
    header: Seq<char>,
    members: Seq<usize>,
    a: int,
    b: int,
    acc: Seq<Planned>,
)
    requires
        0 <= b <= a < members.len(),
        constant_for(decls[members[a] as int], path, header) is Err,
    ensures
        group_items(decls, path, header, members, b, acc) is Err,
    decreases a - b,
{
    if b < a {
        match constant_for(decls[members[b] as int], path, header) {
            Ok(c) => lemma_group_items_fail(decls, path, header, members, a, b + 1, acc.push(c)),
            Err(_) => {},
        }
    }
}

proof fn lemma_groups_items_fail(
    decls: Seq<DeclarationView>,
    groups: Seq<HeaderGroupView>,
    headers: Seq<Seq<char>>,
    g0: int,
    g: int,
    a: int,
    acc: Seq<Planned>,
)
    requires
        0 <= g0 <= g < groups.len(),
        0 <= a < groups[g].members.len(),
        constant_for(decls[groups[g].members[a] as int], groups[g].path, headers[g]) is Err,
    ensures
        groups_items(decls, groups, headers, g0, acc) is Err,
    decreases g - g0,
{
    let acc1 = acc.push(Planned::Dependency { path: groups[g0].path });
    if g0 == g {
        lemma_group_items_fail(decls, groups[g].path, headers[g], groups[g].members, a, 0, acc1);
    } else {
        match group_items(decls, groups[g0].path, headers[g0], groups[g0].members, 0, acc1) {
            Ok(items) => lemma_groups_items_fail(decls, groups, headers, g0 + 1, g, a, items),
            Err(_) => {},
        }
    }
}

/// A declaration whose header has no `#define` for its name makes the whole
/// run fail: `expand` then returns an error and no item at all, neither for
/// that declaration nor for any other.
pub proof fn lemma_missing_define_fails_run(
    decls: Seq<DeclarationView>,
    groups: Seq<HeaderGroupView>,
    headers: Seq<Seq<char>>,
    g: int,
    a: int,
)
    requires
        0 <= g < groups.len(),
        0 <= a < groups[g].members.len(),
        define_value(headers[g], decls[groups[g].members[a] as int].name) is None,
    ensures
        expansion(decls, groups, headers) is Err,
{
    lemma_groups_items_fail(decls, groups, headers, 0, g, a, seq![]);
}

/// Where the items of group `g` begin in the expansion: after the marker and
/// the constants of every earlier group.
pub open spec fn block_start(groups: Seq<HeaderGroupView>, g: int) -> int
    decreases g,
{
    if g <= 0 || g > groups.len() {
        0
    } else {
        block_start(groups, g - 1) + 1 + groups[g - 1].members.len()
    }
}

/// Group `g`'s block sits at offset `o` of `items`: its marker, then one
/// constant for each member, in member order.
pub open spec fn block_at(
    decls: Seq<DeclarationView>,
    groups: Seq<HeaderGroupView>,
    items: Seq<Planned>,
    g: int,
    o: int,
) -> bool {
    &&& 0 <= o
    &&& o + 1 + groups[g].members.len() <= items.len()
    &&& items[o] == (Planned::Dependency { path: groups[g].path })
    &&& forall|a: int|
        0 <= a < groups[g].members.len() ==> (#[trigger] items[o + 1 + a] matches Planned::Constant {
            name,
            ..
        } && name == decls[groups[g].members[a] as int].name)
}

proof fn lemma_block_start_grows(groups: Seq<HeaderGroupView>, g: int, h: int)
    requires
        0 <= g <= h <= groups.len(),
    ensures
        block_start(groups, g) <= block_start(groups, h),
    decreases h - g,
{
    if g < h {
        lemma_block_start_grows(groups, g, h - 1);
    }
}

proof fn lemma_groups_items_shape(
    decls: Seq<DeclarationView>,
    groups: Seq<HeaderGroupView>,
    headers: Seq<Seq<char>>,
    g0: int,
    acc: Seq<Planned>,
)
    requires
        0 <= g0 <= groups.len(),
        groups_items(decls, groups, headers, g0, acc) is Ok,
    ensures
        ({
            let items = groups_items(decls, groups, headers, g0, acc)->Ok_0;
            &&& items.len() == acc.len() + block_start(groups, groups.len() as int) - block_start(
                groups,
                g0,
            )
            &&& items.subrange(0, acc.len() as int) == acc
            &&& forall|g: int|
                g0 <= g < groups.len() ==> #[trigger] block_at(
                    decls,
                    groups,
                    items,
                    g,
                    acc.len() + block_start(groups, g) - block_start(groups, g0),
                )
        }),
    decreases groups.len() - g0,
{
    let items = groups_items(decls, groups, headers, g0, acc)->Ok_0;
    if g0 < groups.len() {
        let acc1 = acc.push(Planned::Dependency { path: groups[g0].path });
        let m = groups[g0].members;
        lemma_group_items_shape(decls, groups[g0].path, headers[g0], m, 0, acc1);
        let items1 = group_items(decls, groups[g0].path, headers[g0], m, 0, acc1)->Ok_0;
        lemma_groups_items_shape(decls, groups, headers, g0 + 1, items1);
        lemma_block_start_grows(groups, g0 + 1, groups.len() as int);
        assert(items == groups_items(decls, groups, headers, g0 + 1, items1)->Ok_0);
        assert(block_start(groups, g0 + 1) == block_start(groups, g0) + 1 + m.len());
        assert(items.subrange(0, acc.len() as int) =~= items.subrange(0, items1.len() as int).subrange(0, acc.len() as int));
        assert(items1.subrange(0, acc.len() as int) =~= items1.subrange(0, acc1.len() as int).subrange(0, acc.len() as int));
        assert forall|g: int| g0 <= g < groups.len() implies #[trigger] block_at(
            decls,
            groups,
            items,
            g,
            acc.len() + block_start(groups, g) - block_start(groups, g0),
        ) by {
            if g == g0 {
                assert(items[acc.len() as int] == items.subrange(0, items1.len() as int)[acc.len() as int]);
                assert(items1[acc.len() as int] == items1.subrange(0, acc1.len() as int)[acc.len() as int]);
                assert forall|a: int| 0 <= a < m.len() implies (#[trigger] items[acc.len() + 1 + a] matches Planned::Constant {
                    name,
                    ..
                } && name == decls[m[a] as int].name) by {
                    assert(items[acc.len() + 1 + a] == items.subrange(0, items1.len() as int)[acc.len() + 1 + a]);
                    assert(items1[acc1.len() + a - 0] == items1[acc.len() + 1 + a]);
                }
            } else {
                assert(block_at(decls, groups, items, g, items1.len() + block_start(groups, g) - block_start(groups, g0 + 1)));
            }
        }
    } else {
        assert(acc.subrange(0, acc.len() as int) =~= acc);
    }
}

/// The whole expansion keeps input order within each header: group `g`'s
/// marker comes first in its block, then the constants of its declarations,
/// whose indices increase. Blocks follow one another in group order.
pub proof fn lemma_expansion_keeps_input_order(
    decls: Seq<DeclarationView>,
    paths: Seq<Seq<char>>,
    groups: Seq<HeaderGroupView>,
    headers: Seq<Seq<char>>,
)
    requires
        is_grouping(paths, groups),
        expansion(decls, groups, headers) is Ok,
    ensures
        forall|g: int|
            0 <= g < groups.len() ==> #[trigger] block_at(
                decls,
                groups,
                expansion(decls, groups, headers)->Ok_0,
                g,
                block_start(groups, g),
            ),
        forall|g: int, a: int, b: int|
            0 <= g < groups.len() && 0 <= a < b < groups[g].members.len() ==> #[trigger] groups[g].members[a]
                < #[trigger] groups[g].members[b],
{
    lemma_groups_items_shape(decls, groups, headers, 0, seq![]);
    let items = expansion(decls, groups, headers)->Ok_0;
    assert forall|g: int| 0 <= g < groups.len() implies #[trigger] block_at(
        decls,
        groups,
        items,
        g,
        block_start(groups, g),
    ) by {
        assert(block_at(decls, groups, items, g, 0 + block_start(groups, g) - block_start(groups, 0)));
    }
    assert forall|g: int, a: int, b: int|
        0 <= g < groups.len() && 0 <= a < b < groups[g].members.len() implies #[trigger] groups[g].members[a]
            < #[trigger] groups[g].members[b] by {
        assert(group_holds(paths, groups[g]));
    }
}

} // verus!
