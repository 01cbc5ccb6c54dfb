//! What holds of the rows that the tree view shows, whatever is stored.
use crate::database::loaded;
use crate::item::{ItemKind, ItemView};
use crate::table::{chain, chain_splits, is_below, is_tree, listing, Table};
use crate::tree_builder::{
    row_type, shown_children, shown_children_exist, stored_rows, subtree_rows,
    TreeRow, NO_PARENT,
};
use vstd::prelude::*;

verus! {

// ---- enough levels ------------------------------------------------------

/// The ids of the folders that have not been met yet.
pub open spec fn folders_left(items: Seq<ItemView>, visited: Set<i64>) -> Set<i64> {
    items.to_set().filter(|v: ItemView| v.kind == ItemKind::Folder && v.id is Some).map(
        |v: ItemView| v.id->0,
    ).difference(visited)
}

proof fn folder_is_left(items: Seq<ItemView>, visited: Set<i64>, i: int)
    requires
        0 <= i < items.len(),
        items[i].kind == ItemKind::Folder,
        items[i].id is Some,
        !visited.contains(items[i].id->0),
    ensures
        folders_left(items, visited).contains(items[i].id->0),
{
    let folders = items.to_set().filter(|v: ItemView| v.kind == ItemKind::Folder && v.id is Some);
    assert(folders.contains(items[i]));
}

proof fn folders_left_bounded(items: Seq<ItemView>, visited: Set<i64>)
    ensures
        folders_left(items, visited).finite(),
        folders_left(items, visited).len() <= items.len(),
{
    let all = items.to_set();
    vstd::seq_lib::seq_to_set_is_finite(items);
    items.lemma_cardinality_of_set();
    let keep = |v: ItemView| v.kind == ItemKind::Folder && v.id is Some;
    all.lemma_len_filter(keep);
    let id_of = |v: ItemView| v.id->0;
    let folders = all.filter(keep);
    folders.lemma_map_finite(id_of);
    vstd::set_lib::lemma_map_size_bound(folders, folders.map(id_of), id_of);
    vstd::set_lib::lemma_len_difference(folders.map(id_of), visited);
}

/// Meeting a folder leaves one fewer.
proof fn meeting_uses_one(items: Seq<ItemView>, visited: Set<i64>, id: i64)
    requires
        folders_left(items, visited).contains(id),
    ensures
        folders_left(items, visited.insert(id)).len() == folders_left(items, visited).len() - 1,
{
    folders_left_bounded(items, visited);
    assert(folders_left(items, visited.insert(id)) =~= folders_left(items, visited).remove(id));
}

/// Having met more folders leaves no more of them.
proof fn meeting_more_leaves_fewer(items: Seq<ItemView>, visited: Set<i64>, more: Set<i64>)
    requires
        visited.subset_of(more),
    ensures
        folders_left(items, more).len() <= folders_left(items, visited).len(),
{
    folders_left_bounded(items, visited);
    vstd::set_lib::lemma_len_subset(folders_left(items, more), folders_left(items, visited));
}

/// A folder that has been met stays met.
pub proof fn met_folders_stay_met(
    items: Seq<ItemView>,
    order: Seq<int>,
    depth: int,
    parent: i32,
    collapsed: Set<i64>,
    visited: Set<i64>,
    levels: nat,
)
    ensures
        visited.subset_of(
            subtree_rows(items, order, depth, parent, collapsed, visited, levels).1,
        ),
    decreases levels, order.len(),
{
    if levels > 0 && order.len() > 0 {
        let item = items[order[0]];
        let rest = order.drop_first();
        match item.id {
            Some(id) if item.kind == ItemKind::Folder && !visited.contains(id) => {
                let met = visited.insert(id);
                let below = if collapsed.contains(id) {
                    met
                } else {
                    met_folders_stay_met(
                        items,
                        shown_children(items, id),
                        depth + 1,
                        id as i32,
                        collapsed,
                        met,
                        (levels - 1) as nat,
                    );
                    subtree_rows(
                        items,
                        shown_children(items, id),
                        depth + 1,
                        id as i32,
                        collapsed,
                        met,
                        (levels - 1) as nat,
                    ).1
                };
                met_folders_stay_met(items, rest, depth, parent, collapsed, below, levels);
            },
            _ => {
                met_folders_stay_met(items, rest, depth, parent, collapsed, visited, levels);
            },
        }
    }
}

/// The limit on levels never cuts anything off: any two limits above the number of folders
/// give the same rows. A list with a cycle of parents is no exception.
pub proof fn levels_never_run_out(
    items: Seq<ItemView>,
    order: Seq<int>,
    depth: int,
    parent: i32,
    collapsed: Set<i64>,
    visited: Set<i64>,
    a: nat,
    b: nat,
)
    requires
        forall|k: int| 0 <= k < order.len() ==> 0 <= #[trigger] order[k] < items.len(),
        a > folders_left(items, visited).len(),
        b > folders_left(items, visited).len(),
    ensures
        subtree_rows(items, order, depth, parent, collapsed, visited, a) == subtree_rows(
            items,
            order,
            depth,
            parent,
            collapsed,
            visited,
            b,
        ),
    decreases a, order.len(),
{
    if order.len() > 0 {
        let i = order[0];
        let item = items[i];
        let rest = order.drop_first();
        assert forall|k: int| 0 <= k < rest.len() implies 0 <= #[trigger] rest[k]
            < items.len() by {
            assert(rest[k] == order[k + 1]);
        }
        match item.id {
            Some(id) if item.kind == ItemKind::Folder && !visited.contains(id) => {
                let met = visited.insert(id);
                folder_is_left(items, visited, i);
                meeting_uses_one(items, visited, id);
                let children = shown_children(items, id);
                shown_children_exist(items, id);
                assert forall|k: int| 0 <= k < children.len() implies 0 <= #[trigger] children[k]
                    < items.len() by {
                    assert(children.contains(children[k]));
                }
                let below = if collapsed.contains(id) {
                    met
                } else {
                    levels_never_run_out(
                        items,
                        children,
                        depth + 1,
                        id as i32,
                        collapsed,
                        met,
                        (a - 1) as nat,
                        (b - 1) as nat,
                    );
                    met_folders_stay_met(
                        items,
                        children,
                        depth + 1,
                        id as i32,
                        collapsed,
                        met,
                        (a - 1) as nat,
                    );
                    subtree_rows(
                        items,
                        children,
                        depth + 1,
                        id as i32,
                        collapsed,
                        met,
                        (a - 1) as nat,
                    ).1
                };
                meeting_more_leaves_fewer(items, visited, below);
                levels_never_run_out(items, rest, depth, parent, collapsed, below, a, b);
            },
            _ => {
                levels_never_run_out(items, rest, depth, parent, collapsed, visited, a, b);
            },
        }
    }
}

/// The rows of the stored items do not depend on how many levels are allowed, as long as
/// there are more than there are folders.
pub proof fn stored_rows_need_no_limit(items: Seq<ItemView>, collapsed: Set<i64>, levels: nat)
    requires
        levels > items.len(),
    ensures
        stored_rows(items, collapsed) == subtree_rows(
            items,
            shown_children(items, 0),
            0,
            NO_PARENT,
            collapsed,
            Set::empty(),
            levels,
        ).0,
{
    let roots = shown_children(items, 0);
    shown_children_exist(items, 0);
    assert forall|k: int| 0 <= k < roots.len() implies 0 <= #[trigger] roots[k] < items.len() by {
        assert(roots.contains(roots[k]));
    }
    folders_left_bounded(items, Set::empty());
    levels_never_run_out(
        items,
        roots,
        0,
        NO_PARENT,
        collapsed,
        Set::empty(),
        (items.len() + 1) as nat,
        levels,
    );
}

// ---- shape --------------------------------------------------------------

/// Row `i` stands at the given level, or below an open folder that comes before it and is
/// one level up.
pub open spec fn hangs_in_place(rows: Seq<TreeRow>, i: int, depth: int, parent: i32) -> bool {
    (rows[i].depth == depth && rows[i].parent_internal_id == parent) || exists|j: int|
        0 <= j < i && (#[trigger] rows[j]).expanded && rows[j].has_children && rows[j].internal_id
            == rows[i].parent_internal_id && rows[j].depth == rows[i].depth - 1
}

/// No row is deeper than one level below the row before it, and not even that if the row
/// before it is closed.
pub open spec fn steps_down_by_one(rows: Seq<TreeRow>) -> bool {
    forall|i: int, j: int|
        0 <= i && j == i + 1 && j < rows.len() ==> (#[trigger] rows[j]).depth <= (
        #[trigger] rows[i]).depth + if rows[i].expanded {
            1int
        } else {
            0int
        }
}

pub open spec fn well_shaped(rows: Seq<TreeRow>, depth: int, parent: i32) -> bool {
    &&& forall|i: int| 0 <= i < rows.len() ==> #[trigger] hangs_in_place(rows, i, depth, parent)
    &&& forall|i: int| 0 <= i < rows.len() ==> (#[trigger] rows[i]).depth >= depth
    &&& rows.len() > 0 ==> rows[0].depth == depth
    &&& steps_down_by_one(rows)
}

/// Rows behind one another at one level are well shaped where each part is.
proof fn parts_make_a_whole(a: Seq<TreeRow>, b: Seq<TreeRow>, depth: int, parent: i32)
    requires
        well_shaped(a, depth, parent),
        well_shaped(b, depth, parent),
    ensures
        well_shaped(a + b, depth, parent),
{
    let r = a + b;
    assert forall|i: int| 0 <= i < r.len() implies #[trigger] hangs_in_place(
        r,
        i,
        depth,
        parent,
    ) by {
        if i < a.len() {
            assert(hangs_in_place(a, i, depth, parent));
            assert(r[i] == a[i]);
            if !(a[i].depth == depth && a[i].parent_internal_id == parent) {
                let j = choose|j: int|
                    0 <= j < i && (#[trigger] a[j]).expanded && a[j].has_children
                        && a[j].internal_id == a[i].parent_internal_id && a[j].depth
                        == a[i].depth - 1;
                assert(r[j] == a[j]);
            }
        } else {
            let m = i - a.len();
            assert(hangs_in_place(b, m, depth, parent));
            assert(r[i] == b[m]);
            if !(b[m].depth == depth && b[m].parent_internal_id == parent) {
                let j = choose|j: int|
                    0 <= j < m && (#[trigger] b[j]).expanded && b[j].has_children
                        && b[j].internal_id == b[m].parent_internal_id && b[j].depth
                        == b[m].depth - 1;
                assert(r[j + a.len()] == b[j]);
            }
        }
    }
    assert forall|i: int, j: int| 0 <= i && j == i + 1 && j < r.len() implies (
    #[trigger] r[j]).depth <= (#[trigger] r[i]).depth + if r[i].expanded {
        1int
    } else {
        0int
    } by {
        if j < a.len() {
            assert(r[i] == a[i] && r[j] == a[j]);
        } else if i < a.len() {
            assert(r[i] == a[i] && r[j] == b[0]);
        } else {
            assert(r[i] == b[i - a.len()] && r[j] == b[j - a.len()]);
        }
    }
    assert forall|i: int| 0 <= i < r.len() implies (#[trigger] r[i]).depth >= depth by {
        if i < a.len() {
            assert(r[i] == a[i]);
        } else {
            assert(r[i] == b[i - a.len()]);
        }
    }
    if r.len() > 0 {
        if a.len() > 0 {
            assert(r[0] == a[0]);
        } else {
            assert(r[0] == b[0]);
        }
    }
}

/// An open folder with what is in it is well shaped.
proof fn folder_makes_a_whole(
    folder: TreeRow,
    below: Seq<TreeRow>,
    depth: int,
    parent: i32,
)
    requires
        folder.depth == depth,
        folder.parent_internal_id == parent,
        below.len() > 0 ==> folder.expanded && folder.has_children,
        well_shaped(below, depth + 1, folder.internal_id),
    ensures
        well_shaped(seq![folder] + below, depth, parent),
{
    let r = seq![folder] + below;
    assert(r[0] == folder);
    assert forall|i: int| 0 <= i < r.len() implies #[trigger] hangs_in_place(
        r,
        i,
        depth,
        parent,
    ) by {
        if i > 0 {
            let m = i - 1;
            assert(r[i] == below[m]);
            assert(hangs_in_place(below, m, depth + 1, folder.internal_id));
            if below[m].depth == depth + 1 && below[m].parent_internal_id == folder.internal_id {
                assert(r[0].expanded && r[0].has_children);
            } else {
                let j = choose|j: int|
                    0 <= j < m && (#[trigger] below[j]).expanded && below[j].has_children
                        && below[j].internal_id == below[m].parent_internal_id && below[j].depth
                        == below[m].depth - 1;
                assert(r[j + 1] == below[j]);
            }
        }
    }
    assert forall|i: int| 0 <= i < r.len() implies (#[trigger] r[i]).depth >= depth by {
        if i > 0 {
            assert(r[i] == below[i - 1]);
        }
    }
    assert forall|i: int, j: int| 0 <= i && j == i + 1 && j < r.len() implies (
    #[trigger] r[j]).depth <= (#[trigger] r[i]).depth + if r[i].expanded {
        1int
    } else {
        0int
    } by {
        assert(r[j] == below[j - 1]);
        if i > 0 {
            assert(r[i] == below[i - 1]);
        }
    }
}

/// Rows come depth first: each row stands at top level or below an open folder above it, one
/// level up, and a closed folder is followed by nothing deeper. So what is in a closed folder
/// is not shown.
pub proof fn rows_come_depth_first(
    items: Seq<ItemView>,
    order: Seq<int>,
    depth: int,
    parent: i32,
    collapsed: Set<i64>,
    visited: Set<i64>,
    levels: nat,
)
    requires
        0 <= depth,
        depth + levels <= i32::MAX,
    ensures
        well_shaped(
            subtree_rows(items, order, depth, parent, collapsed, visited, levels).0,
            depth,
            parent,
        ),
    decreases levels, order.len(),
{
    if levels > 0 && order.len() > 0 {
        let item = items[order[0]];
        let rest = order.drop_first();
        match item.id {
            None => {
                rows_come_depth_first(items, rest, depth, parent, collapsed, visited, levels);
            },
            Some(id) => if item.kind != ItemKind::Folder {
                rows_come_depth_first(items, rest, depth, parent, collapsed, visited, levels);
                let row = crate::tree_builder::snippet_row(item, id, parent, depth);
                let after = subtree_rows(items, rest, depth, parent, collapsed, visited, levels).0;
                assert(well_shaped(Seq::empty(), depth + 1, row.internal_id));
                folder_makes_a_whole(row, Seq::empty(), depth, parent);
                assert(seq![row] + Seq::<TreeRow>::empty() =~= seq![row]);
                parts_make_a_whole(seq![row], after, depth, parent);
            } else if visited.contains(id) {
                rows_come_depth_first(items, rest, depth, parent, collapsed, visited, levels);
            } else {
                let met = visited.insert(id);
                let children = shown_children(items, id);
                let closed = collapsed.contains(id);
                let row = crate::tree_builder::folder_row(
                    item,
                    id,
                    parent,
                    depth,
                    children.len() > 0,
                    !closed,
                );
                let below = if closed {
                    (Seq::<TreeRow>::empty(), met)
                } else {
                    subtree_rows(
                        items,
                        children,
                        depth + 1,
                        id as i32,
                        collapsed,
                        met,
                        (levels - 1) as nat,
                    )
                };
                if closed {
                    assert(well_shaped(below.0, depth + 1, row.internal_id));
                } else {
                    rows_come_depth_first(
                        items,
                        children,
                        depth + 1,
                        id as i32,
                        collapsed,
                        met,
                        (levels - 1) as nat,
                    );
                    if children.len() == 0 {
                        assert(below.0.len() == 0);
                    }
                }
                folder_makes_a_whole(row, below.0, depth, parent);
                rows_come_depth_first(items, rest, depth, parent, collapsed, below.1, levels);
                let after = subtree_rows(
                    items,
                    rest,
                    depth,
                    parent,
                    collapsed,
                    below.1,
                    levels,
                ).0;
                parts_make_a_whole(seq![row] + below.0, after, depth, parent);
            },
        }
    }
}

/// The rows of the stored items come depth first.
pub proof fn stored_rows_come_depth_first(items: Seq<ItemView>, collapsed: Set<i64>)
    requires
        items.len() < i32::MAX,
    ensures
        well_shaped(stored_rows(items, collapsed), 0, NO_PARENT),
{
    rows_come_depth_first(
        items,
        shown_children(items, 0),
        0,
        NO_PARENT,
        collapsed,
        Set::empty(),
        (items.len() + 1) as nat,
    );
}

// ---- every item once ----------------------------------------------------

/// The places of the items that the rows show, and the folders met.
pub open spec fn subtree_places(
    items: Seq<ItemView>,
    order: Seq<int>,
    collapsed: Set<i64>,
    visited: Set<i64>,
    levels: nat,
) -> (Seq<int>, Set<i64>)
    decreases levels, order.len(),
{
    if levels == 0 || order.len() == 0 {
        (Seq::empty(), visited)
    } else {
        let item = items[order[0]];
        let rest = order.drop_first();
        match item.id {
            None => subtree_places(items, rest, collapsed, visited, levels),
            Some(id) => if item.kind != ItemKind::Folder {
                let after = subtree_places(items, rest, collapsed, visited, levels);
                (seq![order[0]] + after.0, after.1)
            } else if visited.contains(id) {
                subtree_places(items, rest, collapsed, visited, levels)
            } else {
                let below = if collapsed.contains(id) {
                    (Seq::<int>::empty(), visited.insert(id))
                } else {
                    subtree_places(
                        items,
                        shown_children(items, id),
                        collapsed,
                        visited.insert(id),
                        (levels - 1) as nat,
                    )
                };
                let after = subtree_places(items, rest, collapsed, below.1, levels);
                (seq![order[0]] + below.0 + after.0, after.1)
            },
        }
    }
}

/// Does the row stand for the item?
pub open spec fn shows(row: TreeRow, item: ItemView) -> bool {
    &&& item.id is Some
    &&& row.internal_id == item.id->0 as i32
    &&& row.text == item.title
    &&& row.user_data == item.body_plain
    &&& row.item_type == row_type(item.kind)
}

/// Each row stands for the item at its place, and for no other.
pub open spec fn rows_show(rows: Seq<TreeRow>, items: Seq<ItemView>, places: Seq<int>) -> bool {
    &&& rows.len() == places.len()
    &&& forall|k: int|
        0 <= k < rows.len() ==> 0 <= #[trigger] places[k] < items.len() && shows(
            rows[k],
            items[places[k]],
        )
}

proof fn parts_show(
    a: Seq<TreeRow>,
    b: Seq<TreeRow>,
    items: Seq<ItemView>,
    p: Seq<int>,
    q: Seq<int>,
)
    requires
        rows_show(a, items, p),
        rows_show(b, items, q),
    ensures
        rows_show(a + b, items, p + q),
{
    assert forall|k: int| 0 <= k < (a + b).len() implies 0 <= #[trigger] (p + q)[k] < items.len()
        && shows((a + b)[k], items[(p + q)[k]]) by {
        if k < a.len() {
            assert(p[k] == (p + q)[k]);
        } else {
            assert(q[k - a.len()] == (p + q)[k]);
        }
    }
}

/// Every row stands for a stored item.
pub proof fn rows_stand_for_items(
    items: Seq<ItemView>,
    order: Seq<int>,
    depth: int,
    parent: i32,
    collapsed: Set<i64>,
    visited: Set<i64>,
    levels: nat,
)
    requires
        forall|k: int| 0 <= k < order.len() ==> 0 <= #[trigger] order[k] < items.len(),
    ensures
        ({
            let r = subtree_rows(items, order, depth, parent, collapsed, visited, levels);
            let p = subtree_places(items, order, collapsed, visited, levels);
            r.1 == p.1 && rows_show(r.0, items, p.0)
        }),
    decreases levels, order.len(),
{
    if levels > 0 && order.len() > 0 {
        let item = items[order[0]];
        let rest = order.drop_first();
        assert forall|k: int| 0 <= k < rest.len() implies 0 <= #[trigger] rest[k]
            < items.len() by {
            assert(rest[k] == order[k + 1]);
        }
        match item.id {
            None => {
                rows_stand_for_items(items, rest, depth, parent, collapsed, visited, levels);
            },
            Some(id) => if item.kind != ItemKind::Folder {
                rows_stand_for_items(items, rest, depth, parent, collapsed, visited, levels);
                let row = crate::tree_builder::snippet_row(item, id, parent, depth);
                let after = subtree_rows(items, rest, depth, parent, collapsed, visited, levels).0;
                let q = subtree_places(items, rest, collapsed, visited, levels).0;
                assert(rows_show(seq![row], items, seq![order[0]]));
                parts_show(seq![row], after, items, seq![order[0]], q);
            } else if visited.contains(id) {
                rows_stand_for_items(items, rest, depth, parent, collapsed, visited, levels);
            } else {
                let met = visited.insert(id);
                let children = shown_children(items, id);
                let closed = collapsed.contains(id);
                shown_children_exist(items, id);
                assert forall|k: int| 0 <= k < children.len() implies 0 <= #[trigger] children[k]
                    < items.len() by {
                    assert(children.contains(children[k]));
                }
                let row = crate::tree_builder::folder_row(
                    item,
                    id,
                    parent,
                    depth,
                    children.len() > 0,
                    !closed,
                );
                let below = if closed {
                    (Seq::<TreeRow>::empty(), met)
                } else {
                    subtree_rows(
                        items,
                        children,
                        depth + 1,
                        id as i32,
                        collapsed,
                        met,
                        (levels - 1) as nat,
                    )
                };
                let below_places = if closed {
                    (Seq::<int>::empty(), met)
                } else {
                    subtree_places(items, children, collapsed, met, (levels - 1) as nat)
                };
                if !closed {
                    rows_stand_for_items(
                        items,
                        children,
                        depth + 1,
                        id as i32,
                        collapsed,
                        met,
                        (levels - 1) as nat,
                    );
                }
                rows_stand_for_items(items, rest, depth, parent, collapsed, below.1, levels);
                let after = subtree_rows(
                    items,
                    rest,
                    depth,
                    parent,
                    collapsed,
                    below.1,
                    levels,
                ).0;
                let q = subtree_places(items, rest, collapsed, below.1, levels).0;
                assert(rows_show(seq![row], items, seq![order[0]]));
                parts_show(seq![row], below.0, items, seq![order[0]], below_places.0);
                parts_show(
                    seq![row] + below.0,
                    after,
                    items,
                    seq![order[0]] + below_places.0,
                    q,
                );
            },
        }
    }
}

/// Where the ids are apart, no item is shown twice. `top` is the parent that the listed items
/// have in common.
proof fn places_are_distinct(
    items: Seq<ItemView>,
    order: Seq<int>,
    top: i64,
    collapsed: Set<i64>,
    visited: Set<i64>,
    levels: nat,
)
    requires
        order.no_duplicates(),
        forall|k: int|
            0 <= k < order.len() ==> 0 <= #[trigger] order[k] < items.len()
                && items[order[k]].parent_id == top,
        visited.contains(top) || forall|i: int|
            0 <= i < items.len() ==> (#[trigger] items[i]).id != Some(top),
    ensures
        ({
            let p = subtree_places(items, order, collapsed, visited, levels);
            &&& p.0.no_duplicates()
            &&& visited.subset_of(p.1)
            &&& visited.contains(top) || !p.1.contains(top)
            &&& forall|k: int|
                0 <= k < p.0.len() ==> order.contains(#[trigger] p.0[k]) || (p.1.contains(
                    items[p.0[k]].parent_id,
                ) && !visited.contains(items[p.0[k]].parent_id))
        }),
    decreases levels, order.len(),
{
    if levels > 0 && order.len() > 0 {
        let item = items[order[0]];
        let rest = order.drop_first();
        assert forall|k: int| 0 <= k < rest.len() implies 0 <= #[trigger] rest[k] < items.len()
            && items[rest[k]].parent_id == top by {
            assert(rest[k] == order[k + 1]);
        }
        assert(rest.no_duplicates()) by {
            assert forall|i: int, j: int| 0 <= i < rest.len() && 0 <= j < rest.len() && i
                != j implies rest[i] != rest[j] by {
                assert(rest[i] == order[i + 1] && rest[j] == order[j + 1]);
            }
        }
        assert forall|x: int| #[trigger] rest.contains(x) implies order.contains(x) && x
            != order[0] by {
            let k = choose|k: int| 0 <= k < rest.len() && rest[k] == x;
            assert(order[k + 1] == x);
        }
        assert(order.contains(order[0]));
        match item.id {
            None => {
                places_are_distinct(items, rest, top, collapsed, visited, levels);
            },
            Some(id) => if item.kind != ItemKind::Folder {
                places_are_distinct(items, rest, top, collapsed, visited, levels);
                let q = subtree_places(items, rest, collapsed, visited, levels);
                let p = seq![order[0]] + q.0;
                assert forall|k: int| 0 <= k < p.len() implies order.contains(#[trigger] p[k]) || (
                q.1.contains(items[p[k]].parent_id) && !visited.contains(
                    items[p[k]].parent_id,
                )) by {
                    if k > 0 {
                        assert(p[k] == q.0[k - 1]);
                    }
                }
                assert forall|i: int, j: int| 0 <= i < j < p.len() implies p[i] != p[j] by {
                    assert(p[j] == q.0[j - 1]);
                    if i > 0 {
                        assert(p[i] == q.0[i - 1]);
                    }
                }
            } else if visited.contains(id) {
                places_are_distinct(items, rest, top, collapsed, visited, levels);
            } else {
                let met = visited.insert(id);
                let children = shown_children(items, id);
                shown_children_exist(items, id);
                let below = if collapsed.contains(id) {
                    (Seq::<int>::empty(), met)
                } else {
                    subtree_places(items, children, collapsed, met, (levels - 1) as nat)
                };
                assert(items[order[0]].id == Some(id));
                assert(id != top);
                if !collapsed.contains(id) {
                    assert forall|k: int| 0 <= k < children.len() implies 0
                        <= #[trigger] children[k] < items.len() && items[children[k]].parent_id
                        == id by {
                        assert(children.contains(children[k]));
                    }
                    assert(children.no_duplicates()) by {
                        assert forall|i: int, j: int|
                            0 <= i < children.len() && 0 <= j < children.len() && i
                                != j implies children[i] != children[j] by {
                            if i < j {
                                assert(crate::tree_builder::shown_before(
                                    items,
                                    children[i],
                                    children[j],
                                ));
                            } else {
                                assert(crate::tree_builder::shown_before(
                                    items,
                                    children[j],
                                    children[i],
                                ));
                            }
                        }
                    }
                    places_are_distinct(
                        items,
                        children,
                        id,
                        collapsed,
                        met,
                        (levels - 1) as nat,
                    );
                    if !visited.contains(top) {
                        top_is_not_met(items, children, top, collapsed, met, (levels - 1) as nat);
                    }
                }
                places_are_distinct(items, rest, top, collapsed, below.1, levels);
                let after = subtree_places(items, rest, collapsed, below.1, levels);
                let head = seq![order[0]] + below.0;
                let p = head + after.0;
                assert forall|k: int| 0 <= k < below.0.len() implies below.1.contains(
                    items[#[trigger] below.0[k]].parent_id,
                ) && !visited.contains(items[below.0[k]].parent_id)
                    && items[below.0[k]].parent_id != top by {
                    if children.contains(below.0[k]) {
                        assert(items[below.0[k]].parent_id == id);
                    }
                }
                assert forall|k: int| 0 <= k < p.len() implies order.contains(#[trigger] p[k]) || (
                after.1.contains(items[p[k]].parent_id) && !visited.contains(
                    items[p[k]].parent_id,
                )) by {
                    if k == 0 {
                        assert(p[k] == order[0]);
                    } else if k < head.len() {
                        assert(p[k] == below.0[k - 1]);
                    } else {
                        assert(p[k] == after.0[k - head.len()]);
                    }
                }
                assert forall|i: int, j: int| 0 <= i < j < p.len() implies p[i] != p[j] by {
                    if j < head.len() {
                        assert(p[j] == below.0[j - 1]);
                        if i > 0 {
                            assert(p[i] == below.0[i - 1]);
                        } else {
                            assert(p[i] == order[0]);
                        }
                    } else {
                        let m = j - head.len();
                        assert(p[j] == after.0[m]);
                        assert(rest.contains(after.0[m]) || (after.1.contains(
                            items[after.0[m]].parent_id,
                        ) && !below.1.contains(items[after.0[m]].parent_id)));
                        if rest.contains(after.0[m]) {
                            let z = choose|z: int| 0 <= z < rest.len() && rest[z] == after.0[m];
                            assert(items[rest[z]].parent_id == top);
                        }
                        if i >= head.len() {
                            assert(p[i] == after.0[i - head.len()]);
                        } else if i > 0 {
                            assert(p[i] == below.0[i - 1]);
                        } else {
                            assert(p[i] == order[0]);
                        }
                    }
                }
                assert(p =~= subtree_places(items, order, collapsed, visited, levels).0);
            },
        }
    }
}

/// A number that is no item's id is never met.
proof fn top_is_not_met(
    items: Seq<ItemView>,
    order: Seq<int>,
    top: i64,
    collapsed: Set<i64>,
    visited: Set<i64>,
    levels: nat,
)
    requires
        forall|k: int| 0 <= k < order.len() ==> 0 <= #[trigger] order[k] < items.len(),
        forall|i: int| 0 <= i < items.len() ==> (#[trigger] items[i]).id != Some(top),
        !visited.contains(top),
    ensures
        !subtree_places(items, order, collapsed, visited, levels).1.contains(top),
    decreases levels, order.len(),
{
    if levels > 0 && order.len() > 0 {
        let item = items[order[0]];
        let rest = order.drop_first();
        assert forall|k: int| 0 <= k < rest.len() implies 0 <= #[trigger] rest[k]
            < items.len() by {
            assert(rest[k] == order[k + 1]);
        }
        match item.id {
            Some(id) if item.kind == ItemKind::Folder && !visited.contains(id) => {
                let met = visited.insert(id);
                let children = shown_children(items, id);
                shown_children_exist(items, id);
                assert forall|k: int| 0 <= k < children.len() implies 0 <= #[trigger] children[k]
                    < items.len() by {
                    assert(children.contains(children[k]));
                }
                let below = if collapsed.contains(id) {
                    met
                } else {
                    top_is_not_met(items, children, top, collapsed, met, (levels - 1) as nat);
                    subtree_places(items, children, collapsed, met, (levels - 1) as nat).1
                };
                top_is_not_met(items, rest, top, collapsed, below, levels);
            },
            _ => {
                top_is_not_met(items, rest, top, collapsed, visited, levels);
            },
        }
    }
}

/// With enough levels and nothing closed, all listed items are reached, and so is everything
/// in the folders that are newly met.
proof fn places_are_complete(
    items: Seq<ItemView>,
    order: Seq<int>,
    visited: Set<i64>,
    levels: nat,
)
    requires
        forall|k: int| 0 <= k < order.len() ==> 0 <= #[trigger] order[k] < items.len(),
        levels > folders_left(items, visited).len(),
    ensures
        ({
            let p = subtree_places(items, order, Set::empty(), visited, levels);
            &&& visited.subset_of(p.1)
            &&& forall|i: int| #[trigger]
                reached(items, p, i) || !(order.contains(i) || (0 <= i < items.len()
                    && p.1.contains(items[i].parent_id) && !visited.contains(items[i].parent_id)))
        }),
    decreases levels, order.len(),
{
    let whole = subtree_places(items, order, Set::empty(), visited, levels);
    if order.len() > 0 {
        let first = order[0];
        let item = items[first];
        let rest = order.drop_first();
        assert forall|k: int| 0 <= k < rest.len() implies 0 <= #[trigger] rest[k]
            < items.len() by {
            assert(rest[k] == order[k + 1]);
        }
        assert forall|x: int| #[trigger] order.contains(x) implies rest.contains(x) || x
            == first by {
            let k = choose|k: int| 0 <= k < order.len() && order[k] == x;
            if k > 0 {
                assert(rest[k - 1] == x);
            }
        }
        match item.id {
            None => {
                places_are_complete(items, rest, visited, levels);
                let q = subtree_places(items, rest, Set::empty(), visited, levels);
                assert forall|i: int| #[trigger]
                    reached(items, whole, i) || !(order.contains(i) || (0 <= i
                        < items.len() && whole.1.contains(items[i].parent_id)
                        && !visited.contains(items[i].parent_id))) by {
                    assert(reached(items, q, i) || !(rest.contains(i) || (0 <= i
                        < items.len() && q.1.contains(items[i].parent_id) && !visited.contains(
                        items[i].parent_id,
                    ))));
                }
            },
            Some(id) => if item.kind != ItemKind::Folder || visited.contains(id) {
                places_are_complete(items, rest, visited, levels);
                let q = subtree_places(items, rest, Set::empty(), visited, levels);
                assert forall|i: int| #[trigger]
                    reached(items, whole, i) || !(order.contains(i) || (0 <= i
                        < items.len() && whole.1.contains(items[i].parent_id)
                        && !visited.contains(items[i].parent_id))) by {
                    assert(reached(items, q, i) || !(rest.contains(i) || (0 <= i
                        < items.len() && q.1.contains(items[i].parent_id) && !visited.contains(
                        items[i].parent_id,
                    ))));
                    if q.0.contains(i) {
                        let k = choose|k: int| 0 <= k < q.0.len() && q.0[k] == i;
                        if item.kind != ItemKind::Folder {
                            assert(whole.0[k + 1] == i);
                        }
                    }
                    if item.kind != ItemKind::Folder {
                        assert(whole.0[0] == first);
                    }
                }
            } else {
                let met = visited.insert(id);
                let children = shown_children(items, id);
                shown_children_exist(items, id);
                assert forall|k: int| 0 <= k < children.len() implies 0 <= #[trigger] children[k]
                    < items.len() by {
                    assert(children.contains(children[k]));
                }
                folder_is_left(items, visited, first);
                meeting_uses_one(items, visited, id);
                places_are_complete(items, children, met, (levels - 1) as nat);
                let below = subtree_places(
                    items,
                    children,
                    Set::empty(),
                    met,
                    (levels - 1) as nat,
                );
                meeting_more_leaves_fewer(items, visited, below.1);
                places_are_complete(items, rest, below.1, levels);
                let after = subtree_places(items, rest, Set::empty(), below.1, levels);
                let head = seq![first] + below.0;
                assert(whole.0 == head + after.0);
                assert(whole.0[0] == first);
                assert forall|i: int| #[trigger]
                    reached(items, whole, i) || !(order.contains(i) || (0 <= i
                        < items.len() && whole.1.contains(items[i].parent_id)
                        && !visited.contains(items[i].parent_id))) by {
                    let parent = items[i].parent_id;
                    assert(reached(items, after, i) || !(rest.contains(i) || (0 <= i
                        < items.len() && after.1.contains(parent) && !below.1.contains(parent))));
                    assert(reached(items, below, i) || !(children.contains(i) || (0 <= i
                        < items.len() && below.1.contains(parent) && !met.contains(parent))));
                    if 0 <= i < items.len() && parent == id {
                        assert(children.contains(i));
                    }
                    if after.0.contains(i) {
                        let k = choose|k: int| 0 <= k < after.0.len() && after.0[k] == i;
                        assert(whole.0[head.len() + k] == i);
                    }
                    if below.0.contains(i) {
                        let k = choose|k: int| 0 <= k < below.0.len() && below.0[k] == i;
                        assert(whole.0[k + 1] == i);
                    }
                }
            },
        }
    }
}

/// The item is among the places or has no id; a folder may also have been met before, under
/// the same id.
spec fn reached(items: Seq<ItemView>, p: (Seq<int>, Set<i64>), i: int) -> bool {
    p.0.contains(i) || items[i].id is None || (items[i].kind == ItemKind::Folder && p.1.contains(
        items[i].id->0,
    ))
}

/// Is `id` the id of a folder at one of the places?
spec fn has_folder(items: Seq<ItemView>, places: Seq<int>, id: i64) -> bool {
    exists|k: int|
        0 <= k < places.len() && items[#[trigger] places[k]].id == Some(id)
            && items[places[k]].kind == ItemKind::Folder
}

/// Every folder that is newly met is shown.
proof fn met_folders_have_places(
    items: Seq<ItemView>,
    order: Seq<int>,
    collapsed: Set<i64>,
    visited: Set<i64>,
    levels: nat,
)
    ensures
        ({
            let p = subtree_places(items, order, collapsed, visited, levels);
            forall|id: i64| #[trigger]
                p.1.contains(id) && !visited.contains(id) ==> has_folder(items, p.0, id)
        }),
    decreases levels, order.len(),
{
    let whole = subtree_places(items, order, collapsed, visited, levels);
    if levels > 0 && order.len() > 0 {
        let item = items[order[0]];
        let rest = order.drop_first();
        match item.id {
            None => {
                met_folders_have_places(items, rest, collapsed, visited, levels);
                assert(whole == subtree_places(items, rest, collapsed, visited, levels));
            },
            Some(id) => if item.kind != ItemKind::Folder {
                met_folders_have_places(items, rest, collapsed, visited, levels);
                let q = subtree_places(items, rest, collapsed, visited, levels);
                assert forall|x: i64| #[trigger]
                    whole.1.contains(x) && !visited.contains(x) implies has_folder(
                    items,
                    whole.0,
                    x,
                ) by {
                    assert(q.1.contains(x));
                    assert(has_folder(items, q.0, x));
                    let k = choose|k: int|
                        0 <= k < q.0.len() && items[#[trigger] q.0[k]].id == Some(x)
                            && items[q.0[k]].kind == ItemKind::Folder;
                    assert(whole.0[k + 1] == q.0[k]);
                }
            } else if visited.contains(id) {
                met_folders_have_places(items, rest, collapsed, visited, levels);
                assert(whole == subtree_places(items, rest, collapsed, visited, levels));
            } else {
                let met = visited.insert(id);
                let children = shown_children(items, id);
                let below = if collapsed.contains(id) {
                    (Seq::<int>::empty(), met)
                } else {
                    met_folders_have_places(items, children, collapsed, met, (levels - 1) as nat);
                    subtree_places(items, children, collapsed, met, (levels - 1) as nat)
                };
                met_folders_have_places(items, rest, collapsed, below.1, levels);
                let after = subtree_places(items, rest, collapsed, below.1, levels);
                let head = seq![order[0]] + below.0;
                assert(whole.0 == head + after.0);
                assert(whole.0[0] == order[0]);
                assert forall|x: i64| #[trigger]
                    whole.1.contains(x) && !visited.contains(x) implies has_folder(
                    items,
                    whole.0,
                    x,
                ) by {
                    if below.1.contains(x) {
                        if x == id {
                            assert(items[whole.0[0]].id == Some(x));
                        } else {
                            assert(!met.contains(x));
                            let k = choose|k: int|
                                0 <= k < below.0.len() && items[#[trigger] below.0[k]].id == Some(x)
                                    && items[below.0[k]].kind == ItemKind::Folder;
                            assert(whole.0[k + 1] == below.0[k]);
                        }
                    } else {
                        assert(after.1.contains(x));
                        let k = choose|k: int|
                            0 <= k < after.0.len() && items[#[trigger] after.0[k]].id == Some(x)
                                && items[after.0[k]].kind == ItemKind::Folder;
                        assert(whole.0[head.len() + k] == after.0[k]);
                    }
                }
            },
        }
    }
}

/// Item `i` is at top level, or in a folder that leads to the top in fewer than `n` links.
pub open spec fn rooted(items: Seq<ItemView>, i: int, n: nat) -> bool
    decreases n,
{
    items[i].parent_id == 0 || (n > 0 && exists|j: int|
        0 <= j < items.len() && (#[trigger] items[j]).kind == ItemKind::Folder && items[j].id
            == Some(items[i].parent_id) && rooted(items, j, (n - 1) as nat))
}

/// Item `i` is at top level, or in a folder that leads to it.
pub open spec fn leads_to_top(items: Seq<ItemView>, i: int) -> bool {
    exists|n: nat| #[trigger] rooted(items, i, n)
}

/// The ids are there, are apart, and none is the mark for the top level.
pub open spec fn ids_apart(items: Seq<ItemView>) -> bool {
    &&& forall|i: int| 0 <= i < items.len() ==> (#[trigger] items[i]).id is Some && items[i].id->0 != 0
    &&& forall|i: int, j: int|
        0 <= i < j < items.len() ==> (#[trigger] items[i]).id != (#[trigger] items[j]).id
}

/// Items that lead to the top are shown.
proof fn rooted_items_are_reached(items: Seq<ItemView>, i: int, n: nat)
    requires
        ids_apart(items),
        0 <= i < items.len(),
        rooted(items, i, n),
    ensures
        subtree_places(
            items,
            shown_children(items, 0),
            Set::empty(),
            Set::empty(),
            (items.len() + 1) as nat,
        ).0.contains(i),
    decreases n,
{
    let roots = shown_children(items, 0);
    let levels = (items.len() + 1) as nat;
    let none = Set::<i64>::empty();
    let p = subtree_places(items, roots, none, none, levels);
    shown_children_exist(items, 0);
    assert forall|k: int| 0 <= k < roots.len() implies 0 <= #[trigger] roots[k] < items.len() by {
        assert(roots.contains(roots[k]));
    }
    folders_left_bounded(items, none);
    places_are_complete(items, roots, none, levels);
    met_folders_have_places(items, roots, none, none, levels);
    rows_stand_for_items(items, roots, 0, NO_PARENT, none, none, levels);
    if items[i].parent_id == 0 {
        assert(roots.contains(i));
    } else {
        let j = choose|j: int|
            0 <= j < items.len() && (#[trigger] items[j]).kind == ItemKind::Folder && items[j].id
                == Some(items[i].parent_id) && rooted(items, j, (n - 1) as nat);
        rooted_items_are_reached(items, j, (n - 1) as nat);
        shown_folders_are_met(items, roots, none, none, levels);
        assert(p.1.contains(items[j].id->0));
    }
    assert(reached(items, p, i));
    if !p.0.contains(i) {
        let id = items[i].id->0;
        assert(p.1.contains(id) && !none.contains(id));
        let k = choose|k: int|
            0 <= k < p.0.len() && items[#[trigger] p.0[k]].id == Some(id) && items[p.0[k]].kind
                == ItemKind::Folder;
        assert(items[p.0[k]].id == items[i].id);
        assert(p.0[k] == i);
    }
}

/// Every folder that is shown has been met.
proof fn shown_folders_are_met(
    items: Seq<ItemView>,
    order: Seq<int>,
    collapsed: Set<i64>,
    visited: Set<i64>,
    levels: nat,
)
    ensures
        ({
            let p = subtree_places(items, order, collapsed, visited, levels);
            &&& visited.subset_of(p.1)
            &&& forall|k: int|
                0 <= k < p.0.len() && items[#[trigger] p.0[k]].kind == ItemKind::Folder
                    ==> p.1.contains(items[p.0[k]].id->0)
        }),
    decreases levels, order.len(),
{
    let whole = subtree_places(items, order, collapsed, visited, levels);
    if levels > 0 && order.len() > 0 {
        let item = items[order[0]];
        let rest = order.drop_first();
        match item.id {
            None => {
                shown_folders_are_met(items, rest, collapsed, visited, levels);
            },
            Some(id) => if item.kind != ItemKind::Folder {
                shown_folders_are_met(items, rest, collapsed, visited, levels);
                let q = subtree_places(items, rest, collapsed, visited, levels);
                assert forall|k: int|
                    0 <= k < whole.0.len() && items[#[trigger] whole.0[k]].kind
                        == ItemKind::Folder implies whole.1.contains(items[whole.0[k]].id->0) by {
                    if k > 0 {
                        assert(whole.0[k] == q.0[k - 1]);
                    }
                }
            } else if visited.contains(id) {
                shown_folders_are_met(items, rest, collapsed, visited, levels);
            } else {
                let met = visited.insert(id);
                let children = shown_children(items, id);
                let below = if collapsed.contains(id) {
                    (Seq::<int>::empty(), met)
                } else {
                    shown_folders_are_met(items, children, collapsed, met, (levels - 1) as nat);
                    subtree_places(items, children, collapsed, met, (levels - 1) as nat)
                };
                shown_folders_are_met(items, rest, collapsed, below.1, levels);
                let after = subtree_places(items, rest, collapsed, below.1, levels);
                let head = seq![order[0]] + below.0;
                assert(whole.0 == head + after.0);
                assert forall|k: int|
                    0 <= k < whole.0.len() && items[#[trigger] whole.0[k]].kind
                        == ItemKind::Folder implies whole.1.contains(items[whole.0[k]].id->0) by {
                    if k >= head.len() {
                        assert(whole.0[k] == after.0[k - head.len()]);
                    } else if k > 0 {
                        assert(whole.0[k] == below.0[k - 1]);
                    }
                }
            },
        }
    }
}

/// With nothing closed, every stored item has exactly one row, and there are no other rows,
/// provided that the ids are apart and that every item lies in folders up to the top.
pub proof fn every_item_has_one_row(items: Seq<ItemView>)
    requires
        ids_apart(items),
        forall|i: int| 0 <= i < items.len() ==> #[trigger] leads_to_top(items, i),
    ensures
        exists|places: Seq<int>|
            {
                &&& places.no_duplicates()
                &&& places.len() == items.len()
                &&& #[trigger] rows_show(stored_rows(items, Set::empty()), items, places)
            },
{
    let roots = shown_children(items, 0);
    let levels = (items.len() + 1) as nat;
    let none = Set::<i64>::empty();
    let p = subtree_places(items, roots, none, none, levels);
    shown_children_exist(items, 0);
    assert forall|k: int| 0 <= k < roots.len() implies 0 <= #[trigger] roots[k] < items.len()
        && items[roots[k]].parent_id == 0 by {
        assert(roots.contains(roots[k]));
    }
    assert(roots.no_duplicates()) by {
        assert forall|i: int, j: int| 0 <= i < roots.len() && 0 <= j < roots.len() && i
            != j implies roots[i] != roots[j] by {
            if i < j {
                assert(crate::tree_builder::shown_before(items, roots[i], roots[j]));
            } else {
                assert(crate::tree_builder::shown_before(items, roots[j], roots[i]));
            }
        }
    }
    rows_stand_for_items(items, roots, 0, NO_PARENT, none, none, levels);
    places_are_distinct(items, roots, 0, none, none, levels);
    assert forall|i: int| 0 <= i < items.len() implies #[trigger] p.0.contains(i) by {
        assert(leads_to_top(items, i));
        let n = choose|n: nat| #[trigger] rooted(items, i, n);
        rooted_items_are_reached(items, i, n);
    }
    let all = Set::<int>::new(|i: int| 0 <= i < items.len());
    assert(p.0.to_set() =~= all) by {
        assert forall|x: int| #[trigger] p.0.to_set().contains(x) implies all.contains(x) by {
            let k = choose|k: int| 0 <= k < p.0.len() && p.0[k] == x;
            assert(0 <= p.0[k] < items.len());
        }
    }
    p.0.unique_seq_to_set();
    vstd::set_lib::lemma_int_range(0, items.len() as int);
    assert(all =~= vstd::set_lib::set_int_range(0, items.len() as int));
    assert(rows_show(stored_rows(items, none), items, p.0));
}

/// The items of a complete load lead to the top where the stored rows form a tree, every row
/// that has others below it is a folder, and no row has the id that stands for the top.
pub proof fn loaded_tree_is_rooted(t: Table, items: Seq<ItemView>)
    requires
        is_tree(t),
        !t.dom().contains(0),
        crate::table::is_listing(t, listing(t)),
        items.len() == listing(t).len(),
        forall|i: int|
            0 <= i < items.len() ==> loaded(t, i) == Ok::<ItemView, crate::error::StorageFault>(
                #[trigger] items[i],
            ),
        forall|i: int, j: int|
            0 <= i < items.len() && 0 <= j < items.len() && (#[trigger] items[j]).id == Some(
                (#[trigger] items[i]).parent_id,
            ) ==> items[j].kind == ItemKind::Folder,
    ensures
        ids_apart(items),
        forall|i: int| 0 <= i < items.len() ==> #[trigger] leads_to_top(items, i),
{
    let ids = listing(t);
    assert forall|i: int| 0 <= i < items.len() implies (#[trigger] items[i]).id == Some(ids[i])
        && items[i].parent_id == t[ids[i]].parent_id && t.dom().contains(ids[i]) by {
        assert(loaded(t, i) is Ok);
        assert(ids.contains(ids[i]));
    }
    assert forall|i: int, j: int| 0 <= i < j < items.len() implies (#[trigger] items[i]).id != (
    #[trigger] items[j]).id by {
        assert(crate::table::row_before(t, ids[i], ids[j]));
    }
    assert forall|i: int| 0 <= i < items.len() implies #[trigger] leads_to_top(items, i) by {
        assert(items[i].id == Some(ids[i]));
        assert(is_below(t, ids[i], 0));
        let k = choose|k: nat| k > 0 && #[trigger] chain(t, ids[i], k) == Some(0i64);
        chain_is_rooted(t, items, i, k);
        assert(rooted(items, i, k));
    }
}

proof fn chain_is_rooted(t: Table, items: Seq<ItemView>, i: int, k: nat)
    requires
        crate::table::is_listing(t, listing(t)),
        items.len() == listing(t).len(),
        0 <= i < items.len(),
        forall|i: int|
            0 <= i < items.len() ==> (#[trigger] items[i]).id == Some(listing(t)[i])
                && items[i].parent_id == t[listing(t)[i]].parent_id && t.dom().contains(
                listing(t)[i],
            ),
        forall|i: int, j: int|
            0 <= i < items.len() && 0 <= j < items.len() && (#[trigger] items[j]).id == Some(
                (#[trigger] items[i]).parent_id,
            ) ==> items[j].kind == ItemKind::Folder,
        k > 0,
        chain(t, listing(t)[i], k) == Some(0i64),
    ensures
        rooted(items, i, k),
    decreases k,
{
    let id = listing(t)[i];
    let parent = t[id].parent_id;
    assert(items[i].parent_id == parent);
    if parent != 0 {
        reveal_with_fuel(chain, 2);
        assert(chain(t, id, 0) == Some(id));
        crate::table::chain_prefix(t, id, 1, k);
        assert(chain(t, id, 1) == Some(parent));
        chain_splits(t, id, 1, (k - 1) as nat, parent);
        assert(chain(t, parent, (k - 1) as nat) == Some(0i64));
        assert(k > 1);
        crate::table::chain_prefix(t, parent, 0, (k - 1) as nat);
        assert(t.dom().contains(parent));
        assert(listing(t).contains(parent));
        let j = choose|j: int| 0 <= j < listing(t).len() && listing(t)[j] == parent;
        assert(items[j].id == Some(items[i].parent_id));
        chain_is_rooted(t, items, j, (k - 1) as nat);
    }
}

} // verus!
