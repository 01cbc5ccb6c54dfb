//! What closing a folder does to the rows of the tree view.
use crate::clipboard_history::Captured;
use crate::item::{HistoryPosition, ItemKind, ItemView, HISTORY_FOLDER_ID};
use crate::tree_builder::{
    folder_row, history_rows, shown_before, shown_children, shown_children_exist,
    snippet_row, stored_rows, subtree_rows, tree_rows, TreeRow, NO_PARENT,
};
use crate::tree_view::subtree_end;
use crate::tree_view_laws::{
    ids_apart, rows_come_depth_first, rows_stand_for_items, stored_rows_come_depth_first,
    subtree_places,
};
use vstd::prelude::*;

verus! {

/// `closed` is `open` with the rows behind row `at` and before row `end` gone and row `at`
/// itself shown closed.
pub open spec fn hides(open: Seq<TreeRow>, closed: Seq<TreeRow>, at: int, end: int) -> bool {
    &&& 0 <= at < end <= open.len()
    &&& open[at].expanded
    &&& closed == open.take(at).push(TreeRow { expanded: false, ..open[at] }) + open.skip(end)
}

/// `closed` is `open` with the deeper rows behind row `at` gone and row `at` itself shown
/// closed.
pub open spec fn closes(open: Seq<TreeRow>, closed: Seq<TreeRow>, at: int) -> bool {
    hides(open, closed, at, subtree_end(open, at, at + 1))
}

/// Do `n` parent links or fewer lead from item `i` to the folder with the id `f`?
pub open spec fn lies_below(items: Seq<ItemView>, i: int, f: i64, n: nat) -> bool
    decreases n,
{
    n > 0 && (items[i].parent_id == f || exists|j: int|
        0 <= j < items.len() && (#[trigger] items[j]).id == Some(items[i].parent_id) && lies_below(
            items,
            j,
            f,
            (n - 1) as nat,
        ))
}

/// Is item `i` in the folder with the id `f`, or in one of the folders below it?
pub open spec fn is_descendant(items: Seq<ItemView>, i: int, f: i64) -> bool {
    exists|n: nat| #[trigger] lies_below(items, i, f, n)
}

/// Of the items at `places`, those behind place number `at` and before number `end` are the
/// descendants of `f`.
pub open spec fn descendants_are_between(
    items: Seq<ItemView>,
    places: Seq<int>,
    f: i64,
    at: int,
    end: int,
) -> bool {
    forall|k: int|
        0 <= k < places.len() ==> (is_descendant(items, #[trigger] places[k], f) <==> at < k < end)
}

/// The places of the stored items that have rows, in the order of the rows.
pub open spec fn stored_places(items: Seq<ItemView>, collapsed: Set<i64>) -> Seq<int> {
    subtree_places(
        items,
        shown_children(items, 0),
        collapsed,
        Set::empty(),
        items.len() + 1,
    ).0
}

/// Where the rows of the stored items start.
pub open spec fn stored_start(
    history: Seq<Captured>,
    position: HistoryPosition,
    label: Seq<char>,
    collapsed: Set<i64>,
) -> int {
    match position {
        HistoryPosition::Top => history_rows(history, label, collapsed).len() as int,
        HistoryPosition::Bottom => 0,
    }
}

// ---- runs of rows -------------------------------------------------------

/// The rows behind row `at` are deeper, up to row `end`.
spec fn run_is(rows: Seq<TreeRow>, at: int, end: int) -> bool {
    &&& forall|k: int| at < k < end ==> (#[trigger] rows[k]).depth > rows[at].depth
    &&& end < rows.len() ==> rows[end].depth <= rows[at].depth
}

proof fn run_ends(rows: Seq<TreeRow>, at: int, k: int, end: int)
    requires
        0 <= at < k <= end <= rows.len(),
        run_is(rows, at, end),
    ensures
        subtree_end(rows, at, k) == end,
    decreases end - k,
{
    if k < end {
        run_ends(rows, at, k + 1, end);
    }
}

proof fn hidden_behind(
    before: Seq<TreeRow>,
    open: Seq<TreeRow>,
    closed: Seq<TreeRow>,
    at: int,
    end: int,
)
    requires
        hides(open, closed, at, end),
    ensures
        hides(before + open, before + closed, before.len() + at, before.len() + end),
        run_is(open, at, end) ==> run_is(before + open, before.len() + at, before.len() + end),
{
    let n = before.len();
    let all = before + open;
    assert(all[n + at] == open[at]);
    if run_is(open, at, end) {
        assert forall|k: int| n + at < k < n + end implies (#[trigger] all[k]).depth
            > all[n + at].depth by {
            assert(all[k] == open[k - n]);
        }
        if n + end < all.len() {
            assert(all[n + end] == open[end]);
        }
    }
    let shut = TreeRow { expanded: false, ..open[at] };
    assert(before + closed =~= all.take(n + at).push(shut) + all.skip(n + end));
}

proof fn hidden_before(
    open: Seq<TreeRow>,
    closed: Seq<TreeRow>,
    behind: Seq<TreeRow>,
    at: int,
    end: int,
)
    requires
        hides(open, closed, at, end),
    ensures
        hides(open + behind, closed + behind, at, end),
        run_is(open, at, end) && (behind.len() > 0 ==> behind[0].depth <= open[at].depth)
            ==> run_is(open + behind, at, end),
{
    let all = open + behind;
    assert(all[at] == open[at]);
    if run_is(open, at, end) && (behind.len() > 0 ==> behind[0].depth <= open[at].depth) {
        assert forall|k: int| at < k < end implies (#[trigger] all[k]).depth > all[at].depth by {
            assert(all[k] == open[k]);
        }
        if end < open.len() {
            assert(all[end] == open[end]);
        } else if end < all.len() {
            assert(all[end] == behind[0]);
        }
    }
    let shut = TreeRow { expanded: false, ..open[at] };
    assert(closed + behind =~= all.take(at).push(shut) + all.skip(end));
}

// ---- descendants --------------------------------------------------------

/// What lies below a folder that lies below `f` lies below `f`.
proof fn below_is_transitive(items: Seq<ItemView>, i: int, folder: int, f: i64, n: nat, m: nat)
    requires
        0 <= folder < items.len(),
        items[folder].id is Some,
        lies_below(items, i, items[folder].id->0, n),
        lies_below(items, folder, f, m),
    ensures
        lies_below(items, i, f, n + m),
    decreases n,
{
    let id = items[folder].id->0;
    if items[i].parent_id == id {
        below_in_more(items, folder, f, m, (n + m - 1) as nat);
        assert(items[folder].id == Some(items[i].parent_id));
    } else {
        let j = choose|j: int|
            0 <= j < items.len() && (#[trigger] items[j]).id == Some(items[i].parent_id)
                && lies_below(items, j, id, (n - 1) as nat);
        below_is_transitive(items, j, folder, f, (n - 1) as nat, m);
        assert((n - 1) as nat + m == (n + m - 1) as nat);
        assert(items[j].id == Some(items[i].parent_id));
    }
}

proof fn below_in_more(items: Seq<ItemView>, i: int, f: i64, n: nat, m: nat)
    requires
        n <= m,
        lies_below(items, i, f, n),
    ensures
        lies_below(items, i, f, m),
    decreases n,
{
    if items[i].parent_id != f {
        let j = choose|j: int|
            0 <= j < items.len() && (#[trigger] items[j]).id == Some(items[i].parent_id)
                && lies_below(items, j, f, (n - 1) as nat);
        below_in_more(items, j, f, (n - 1) as nat, (m - 1) as nat);
        assert(items[j].id == Some(items[i].parent_id));
    }
}

/// Neither is `top` the id `f` nor does a row with the id `top` lie below it.
spec fn is_apart(items: Seq<ItemView>, top: i64, f: i64) -> bool {
    &&& top != f
    &&& forall|j: int|
        0 <= j < items.len() && (#[trigger] items[j]).id == Some(top) ==> !is_descendant(
            items,
            j,
            f,
        )
}

/// A child of what is apart from `f` is no descendant of `f`.
proof fn child_is_no_descendant(items: Seq<ItemView>, i: int, f: i64)
    requires
        is_apart(items, items[i].parent_id, f),
    ensures
        !is_descendant(items, i, f),
{
    if is_descendant(items, i, f) {
        let n = choose|n: nat| #[trigger] lies_below(items, i, f, n);
        let j = choose|j: int|
            0 <= j < items.len() && (#[trigger] items[j]).id == Some(items[i].parent_id)
                && lies_below(items, j, f, (n - 1) as nat);
        assert(is_descendant(items, j, f));
    }
}

/// What a folder shows lies below it. `top` is its id.
proof fn shown_places_lie_below(
    items: Seq<ItemView>,
    order: Seq<int>,
    top: i64,
    collapsed: Set<i64>,
    visited: Set<i64>,
    levels: nat,
)
    requires
        forall|k: int|
            0 <= k < order.len() ==> 0 <= #[trigger] order[k] < items.len()
                && items[order[k]].parent_id == top,
    ensures
        ({
            let p = subtree_places(items, order, collapsed, visited, levels).0;
            forall|k: int| 0 <= k < p.len() ==> is_descendant(items, #[trigger] p[k], top)
        }),
    decreases levels, order.len(),
{
    if levels > 0 && order.len() > 0 {
        let first = order[0];
        let item = items[first];
        let rest = order.drop_first();
        let p = subtree_places(items, order, collapsed, visited, levels).0;
        assert(items[order[0]].parent_id == top);
        assert(lies_below(items, first, top, 1));
        assert forall|k: int| 0 <= k < rest.len() implies 0 <= #[trigger] rest[k] < items.len()
            && items[rest[k]].parent_id == top by {
            assert(rest[k] == order[k + 1]);
        }
        match item.id {
            Some(id) if item.kind == ItemKind::Folder && !visited.contains(id) => {
                let met = visited.insert(id);
                let children = shown_children(items, id);
                shown_children_exist(items, id);
                assert forall|k: int| 0 <= k < children.len() implies 0 <= #[trigger] children[k]
                    < items.len() && items[children[k]].parent_id == id by {
                    assert(children.contains(children[k]));
                }
                let below = if collapsed.contains(id) {
                    (Seq::<int>::empty(), met)
                } else {
                    shown_places_lie_below(
                        items,
                        children,
                        id,
                        collapsed,
                        met,
                        (levels - 1) as nat,
                    );
                    subtree_places(items, children, collapsed, met, (levels - 1) as nat)
                };
                shown_places_lie_below(items, rest, top, collapsed, below.1, levels);
                let after = subtree_places(items, rest, collapsed, below.1, levels).0;
                let head = seq![first] + below.0;
                assert(p == head + after);
                assert forall|k: int| 0 <= k < p.len() implies is_descendant(
                    items,
                    #[trigger] p[k],
                    top,
                ) by {
                    if 0 < k < head.len() {
                        assert(p[k] == below.0[k - 1]);
                        let n = choose|n: nat| #[trigger] lies_below(items, p[k], id, n);
                        below_is_transitive(items, p[k], first, top, n, 1);
                    } else if k >= head.len() {
                        assert(p[k] == after[k - head.len()]);
                    }
                }
            },
            _ => {
                shown_places_lie_below(items, rest, top, collapsed, visited, levels);
                let after = subtree_places(items, rest, collapsed, visited, levels).0;
                assert forall|k: int| 0 <= k < p.len() implies is_descendant(
                    items,
                    #[trigger] p[k],
                    top,
                ) by {
                    if p.len() > after.len() {
                        if k > 0 {
                            assert(p[k] == after[k - 1]);
                        }
                    }
                }
            },
        }
    }
}

/// Where `f` is not met, nothing that lies below it is shown.
proof fn shown_places_do_not_lie_below(
    items: Seq<ItemView>,
    order: Seq<int>,
    top: i64,
    collapsed: Set<i64>,
    visited: Set<i64>,
    levels: nat,
    f: i64,
)
    requires
        forall|k: int|
            0 <= k < order.len() ==> 0 <= #[trigger] order[k] < items.len()
                && items[order[k]].parent_id == top,
        ids_apart(items),
        is_apart(items, top, f),
        visited.contains(f) || !subtree_places(
            items,
            order,
            collapsed,
            visited,
            levels,
        ).1.contains(f),
    ensures
        ({
            let p = subtree_places(items, order, collapsed, visited, levels);
            &&& visited.subset_of(p.1)
            &&& forall|k: int| 0 <= k < p.0.len() ==> !is_descendant(items, #[trigger] p.0[k], f)
        }),
    decreases levels, order.len(),
{
    if levels > 0 && order.len() > 0 {
        let first = order[0];
        let item = items[first];
        let rest = order.drop_first();
        let p = subtree_places(items, order, collapsed, visited, levels).0;
        assert(items[order[0]].parent_id == top);
        child_is_no_descendant(items, first, f);
        assert forall|k: int| 0 <= k < rest.len() implies 0 <= #[trigger] rest[k] < items.len()
            && items[rest[k]].parent_id == top by {
            assert(rest[k] == order[k + 1]);
        }
        match item.id {
            Some(id) if item.kind == ItemKind::Folder && !visited.contains(id) => {
                let met = visited.insert(id);
                let children = shown_children(items, id);
                shown_children_exist(items, id);
                assert forall|k: int| 0 <= k < children.len() implies 0 <= #[trigger] children[k]
                    < items.len() && items[children[k]].parent_id == id by {
                    assert(children.contains(children[k]));
                }
                let below = if collapsed.contains(id) {
                    (Seq::<int>::empty(), met)
                } else {
                    subtree_places(items, children, collapsed, met, (levels - 1) as nat)
                };
                if !collapsed.contains(id) {
                    places_stay_met(items, children, collapsed, met, (levels - 1) as nat);
                }
                places_stay_met(items, rest, collapsed, below.1, levels);
                assert(below.1.contains(id));
                assert(id != f);
                assert(is_apart(items, id, f)) by {
                    assert forall|j: int|
                        0 <= j < items.len() && (#[trigger] items[j]).id == Some(
                            id,
                        ) implies !is_descendant(items, j, f) by {
                        assert(items[j].id == items[first].id);
                        assert(j == first);
                    }
                }
                if !collapsed.contains(id) {
                    shown_places_do_not_lie_below(
                        items,
                        children,
                        id,
                        collapsed,
                        met,
                        (levels - 1) as nat,
                        f,
                    );
                }
                shown_places_do_not_lie_below(items, rest, top, collapsed, below.1, levels, f);
                let after = subtree_places(items, rest, collapsed, below.1, levels).0;
                let head = seq![first] + below.0;
                assert(p == head + after);
                assert forall|k: int| 0 <= k < p.len() implies !is_descendant(
                    items,
                    #[trigger] p[k],
                    f,
                ) by {
                    if 0 < k < head.len() {
                        assert(p[k] == below.0[k - 1]);
                    } else if k >= head.len() {
                        assert(p[k] == after[k - head.len()]);
                    }
                }
            },
            _ => {
                shown_places_do_not_lie_below(items, rest, top, collapsed, visited, levels, f);
                let after = subtree_places(items, rest, collapsed, visited, levels).0;
                assert forall|k: int| 0 <= k < p.len() implies !is_descendant(
                    items,
                    #[trigger] p[k],
                    f,
                ) by {
                    if p.len() > after.len() {
                        if k > 0 {
                            assert(p[k] == after[k - 1]);
                        }
                    }
                }
            },
        }
    }
}

/// A folder that has been met stays met.
proof fn places_stay_met(
    items: Seq<ItemView>,
    order: Seq<int>,
    collapsed: Set<i64>,
    visited: Set<i64>,
    levels: nat,
)
    ensures
        visited.subset_of(subtree_places(items, order, collapsed, visited, levels).1),
    decreases levels, order.len(),
{
    if levels > 0 && order.len() > 0 {
        let item = items[order[0]];
        let rest = order.drop_first();
        match item.id {
            Some(id) if item.kind == ItemKind::Folder && !visited.contains(id) => {
                let met = visited.insert(id);
                let below = if collapsed.contains(id) {
                    met
                } else {
                    let children = shown_children(items, id);
                    places_stay_met(items, children, collapsed, met, (levels - 1) as nat);
                    subtree_places(items, children, collapsed, met, (levels - 1) as nat).1
                };
                places_stay_met(items, rest, collapsed, below, levels);
            },
            _ => {
                places_stay_met(items, rest, collapsed, visited, levels);
            },
        }
    }
}

// ---- no folder is reached twice -----------------------------------------

/// As [`subtree_rows`], without a look at which folders were met.
spec fn plain_rows(
    items: Seq<ItemView>,
    order: Seq<int>,
    depth: int,
    parent: i32,
    collapsed: Set<i64>,
    levels: nat,
) -> Seq<TreeRow>
    decreases levels, order.len(),
{
    if levels == 0 || order.len() == 0 {
        Seq::empty()
    } else {
        let item = items[order[0]];
        let rest = order.drop_first();
        let after = plain_rows(items, rest, depth, parent, collapsed, levels);
        match item.id {
            None => after,
            Some(id) => if item.kind != ItemKind::Folder {
                seq![snippet_row(item, id, parent, depth)] + after
            } else {
                let children = shown_children(items, id);
                let closed = collapsed.contains(id);
                let row = folder_row(item, id, parent, depth, children.len() > 0, !closed);
                let below = if closed {
                    Seq::empty()
                } else {
                    plain_rows(
                        items,
                        children,
                        depth + 1,
                        id as i32,
                        collapsed,
                        (levels - 1) as nat,
                    )
                };
                seq![row] + below + after
            },
        }
    }
}

/// The folder of everything met has been met too.
spec fn met_upward(items: Seq<ItemView>, visited: Set<i64>) -> bool {
    &&& !visited.contains(0)
    &&& forall|i: int|
        0 <= i < items.len() && visited.contains((#[trigger] items[i]).id->0) ==> visited.contains(
            items[i].parent_id,
        ) || items[i].parent_id == 0
}

/// The places are those of children of `top` that have not been met.
spec fn fresh(items: Seq<ItemView>, order: Seq<int>, top: i64, visited: Set<i64>) -> bool {
    &&& order.no_duplicates()
    &&& forall|k: int|
        0 <= k < order.len() ==> 0 <= #[trigger] order[k] < items.len()
            && items[order[k]].parent_id == top && !visited.contains(items[order[k]].id->0)
    &&& visited.contains(top) || top == 0
    &&& met_upward(items, visited)
}

/// What is newly met is listed, or lies in a folder that is newly met.
spec fn met_in_turn(
    items: Seq<ItemView>,
    order: Seq<int>,
    before: Set<i64>,
    after: Set<i64>,
) -> bool {
    &&& before.subset_of(after)
    &&& forall|i: int|
        0 <= i < items.len() && after.contains((#[trigger] items[i]).id->0) && !before.contains(
            items[i].id->0,
        ) ==> order.contains(i) || (after.contains(items[i].parent_id) && !before.contains(
            items[i].parent_id,
        ))
}

proof fn children_are_fresh(items: Seq<ItemView>, order: Seq<int>, top: i64, visited: Set<i64>)
    requires
        ids_apart(items),
        order.len() > 0,
        fresh(items, order, top, visited),
    ensures
        ({
            let id = items[order[0]].id->0;
            &&& fresh(items, shown_children(items, id), id, visited.insert(id))
            &&& id != top
        }),
{
    let first = order[0];
    let id = items[first].id->0;
    let met = visited.insert(id);
    let children = shown_children(items, id);
    assert(items[first].id is Some);
    shown_children_exist(items, id);
    assert forall|k: int| 0 <= k < children.len() implies 0 <= #[trigger] children[k] < items.len()
        && items[children[k]].parent_id == id && !met.contains(items[children[k]].id->0) by {
        let c = children[k];
        assert(children.contains(c));
        if items[c].id->0 == id {
            assert(items[c].id == items[first].id);
            assert(c == first);
        }
    }
    assert forall|i: int, j: int|
        0 <= i < children.len() && 0 <= j < children.len() && i != j implies children[i]
        != children[j] by {
        if i < j {
            assert(shown_before(items, children[i], children[j]));
        } else {
            assert(shown_before(items, children[j], children[i]));
        }
    }
    assert forall|i: int|
        0 <= i < items.len() && met.contains((#[trigger] items[i]).id->0) implies met.contains(
        items[i].parent_id,
    ) || items[i].parent_id == 0 by {
        if items[i].id->0 == id {
            assert(items[i].id == items[first].id);
            assert(i == first);
        }
    }
}

/// The places behind the first one are as fresh after it has been dealt with.
proof fn rest_is_fresh(
    items: Seq<ItemView>,
    order: Seq<int>,
    top: i64,
    visited: Set<i64>,
    met: Set<i64>,
)
    requires
        ids_apart(items),
        order.len() > 0,
        fresh(items, order, top, visited),
        ({
            let id = items[order[0]].id->0;
            met == visited || (met_upward(items, met) && met_in_turn(
                items,
                shown_children(items, id),
                visited.insert(id),
                met,
            ))
        }),
    ensures
        fresh(items, order.drop_first(), top, met),
{
    let first = order[0];
    let id = items[first].id->0;
    let rest = order.drop_first();
    shown_children_exist(items, id);
    children_are_fresh(items, order, top, visited);
    assert forall|i: int, j: int|
        0 <= i < rest.len() && 0 <= j < rest.len() && i != j implies rest[i] != rest[j] by {
        assert(rest[i] == order[i + 1] && rest[j] == order[j + 1]);
    }
    assert forall|k: int| 0 <= k < rest.len() implies 0 <= #[trigger] rest[k] < items.len()
        && items[rest[k]].parent_id == top && !met.contains(items[rest[k]].id->0) by {
        let r = rest[k];
        assert(r == order[k + 1]);
        assert(r != first);
        if met != visited && met.contains(items[r].id->0) {
            if items[r].id->0 == id {
                assert(items[r].id == items[first].id);
            }
            assert(!shown_children(items, id).contains(r));
        }
    }
    assert(visited.contains(top) ==> met.contains(top));
}

/// Where the ids are apart, no folder is reached twice.
proof fn no_folder_is_reached_twice(
    items: Seq<ItemView>,
    order: Seq<int>,
    top: i64,
    depth: int,
    parent: i32,
    collapsed: Set<i64>,
    visited: Set<i64>,
    levels: nat,
)
    requires
        ids_apart(items),
        fresh(items, order, top, visited),
    ensures
        ({
            let r = subtree_rows(items, order, depth, parent, collapsed, visited, levels);
            &&& r.0 == plain_rows(items, order, depth, parent, collapsed, levels)
            &&& met_in_turn(items, order, visited, r.1)
            &&& met_upward(items, r.1)
        }),
    decreases levels, order.len(),
{
    if levels > 0 && order.len() > 0 {
        let first = order[0];
        let item = items[first];
        let rest = order.drop_first();
        let r = subtree_rows(items, order, depth, parent, collapsed, visited, levels);
        assert(items[order[0]].id is Some);
        let id = item.id->0;
        assert(id != 0);
        assert forall|x: int| #[trigger] rest.contains(x) implies order.contains(x) by {
            let k = choose|k: int| 0 <= k < rest.len() && rest[k] == x;
            assert(order[k + 1] == x);
        }
        assert(order.contains(first));
        if item.kind != ItemKind::Folder {
            rest_is_fresh(items, order, top, visited, visited);
            no_folder_is_reached_twice(
                items,
                rest,
                top,
                depth,
                parent,
                collapsed,
                visited,
                levels,
            );
        } else {
            let met = visited.insert(id);
            let children = shown_children(items, id);
            shown_children_exist(items, id);
            children_are_fresh(items, order, top, visited);
            let below = if collapsed.contains(id) {
                (Seq::<TreeRow>::empty(), met)
            } else {
                no_folder_is_reached_twice(
                    items,
                    children,
                    id,
                    depth + 1,
                    id as i32,
                    collapsed,
                    met,
                    (levels - 1) as nat,
                );
                subtree_rows(
                    items,
                    children,
                    depth + 1,
                    id as i32,
                    collapsed,
                    met,
                    (levels - 1) as nat,
                )
            };
            rest_is_fresh(items, order, top, visited, below.1);
            no_folder_is_reached_twice(
                items,
                rest,
                top,
                depth,
                parent,
                collapsed,
                below.1,
                levels,
            );
            assert forall|i: int|
                0 <= i < items.len() && r.1.contains((#[trigger] items[i]).id->0)
                    && !visited.contains(items[i].id->0) implies order.contains(i) || (
            r.1.contains(items[i].parent_id) && !visited.contains(items[i].parent_id)) by {
                if items[i].id->0 == id {
                    assert(items[i].id == items[first].id);
                    assert(i == first);
                } else if below.1.contains(items[i].id->0) {
                    if children.contains(i) {
                        assert(items[i].parent_id == id);
                    }
                }
            }
        }
    }
}

// ---- one folder more is closed ------------------------------------------

/// To close a folder that is not reached any more changes nothing.
proof fn closing_what_is_not_reached(
    items: Seq<ItemView>,
    order: Seq<int>,
    depth: int,
    parent: i32,
    collapsed: Set<i64>,
    visited: Set<i64>,
    levels: nat,
    f: i64,
)
    requires
        forall|k: int| 0 <= k < order.len() ==> 0 <= #[trigger] order[k] < items.len(),
        visited.contains(f) || forall|i: int|
            0 <= i < items.len() ==> (#[trigger] items[i]).id != Some(f),
    ensures
        subtree_rows(items, order, depth, parent, collapsed, visited, levels) == subtree_rows(
            items,
            order,
            depth,
            parent,
            collapsed.insert(f),
            visited,
            levels,
        ),
        visited.subset_of(
            subtree_rows(items, order, depth, parent, collapsed, visited, levels).1,
        ),
    decreases levels, order.len(),
{
    if levels > 0 && order.len() > 0 {
        let item = items[order[0]];
        let rest = order.drop_first();
        assert forall|k: int| 0 <= k < rest.len() implies 0 <= #[trigger] rest[k]
            < items.len() by {
            assert(rest[k] == order[k + 1]);
        }
        match item.id {
            Some(id) if item.kind == ItemKind::Folder && !visited.contains(id) => {
                let met = visited.insert(id);
                let children = shown_children(items, id);
                shown_children_exist(items, id);
                assert forall|k: int| 0 <= k < children.len() implies 0 <= #[trigger] children[k]
                    < items.len() by {
                    assert(children.contains(children[k]));
                }
                assert(items[order[0]].id == Some(id));
                assert(id != f);
                let below = if collapsed.contains(id) {
                    met
                } else {
                    closing_what_is_not_reached(
                        items,
                        children,
                        depth + 1,
                        id as i32,
                        collapsed,
                        met,
                        (levels - 1) as nat,
                        f,
                    );
                    subtree_rows(
                        items,
                        children,
                        depth + 1,
                        id as i32,
                        collapsed,
                        met,
                        (levels - 1) as nat,
                    ).1
                };
                closing_what_is_not_reached(
                    items,
                    rest,
                    depth,
                    parent,
                    collapsed,
                    below,
                    levels,
                    f,
                );
            },
            _ => {
                closing_what_is_not_reached(
                    items,
                    rest,
                    depth,
                    parent,
                    collapsed,
                    visited,
                    levels,
                    f,
                );
            },
        }
    }
}

/// What stands behind a folder does not depend on whether it is open.
proof fn rows_behind_agree(
    items: Seq<ItemView>,
    order: Seq<int>,
    top: i64,
    depth: int,
    parent: i32,
    collapsed: Set<i64>,
    a: Set<i64>,
    b: Set<i64>,
    levels: nat,
    f: i64,
)
    requires
        ids_apart(items),
        fresh(items, order, top, a),
        fresh(items, order, top, b),
        a.contains(f),
        b.contains(f),
    ensures
        subtree_rows(items, order, depth, parent, collapsed, a, levels).0 == subtree_rows(
            items,
            order,
            depth,
            parent,
            collapsed.insert(f),
            b,
            levels,
        ).0,
        subtree_rows(items, order, depth, parent, collapsed, a, levels).1.contains(f),
        subtree_rows(items, order, depth, parent, collapsed.insert(f), b, levels).1.contains(f),
{
    let more = collapsed.insert(f);
    no_folder_is_reached_twice(items, order, top, depth, parent, collapsed, a, levels);
    no_folder_is_reached_twice(items, order, top, depth, parent, more, a, levels);
    no_folder_is_reached_twice(items, order, top, depth, parent, more, b, levels);
    closing_what_is_not_reached(items, order, depth, parent, collapsed, a, levels, f);
}

/// Row `at`, the one of the item at `place`, closes: the rows of the descendants of folder `f`
/// go, which are those up to row `end`. Where depths fit, these are the deeper ones.
spec fn cuts(
    items: Seq<ItemView>,
    open: Seq<TreeRow>,
    closed: Seq<TreeRow>,
    places: Seq<int>,
    place: int,
    depths_fit: bool,
    at: int,
    end: int,
) -> bool {
    &&& hides(open, closed, at, end)
    &&& places.len() == open.len()
    &&& places[at] == place
    &&& descendants_are_between(items, places, items[place].id->0, at, end)
    &&& depths_fit ==> run_is(open, at, end)
}

/// Closing the folder at `place`: either it is not reached and nothing changes, or its row
/// closes and the rows below it go.
spec fn closing_shows(
    items: Seq<ItemView>,
    open: (Seq<TreeRow>, Set<i64>),
    places: Seq<int>,
    closed: (Seq<TreeRow>, Set<i64>),
    place: int,
    depths_fit: bool,
) -> bool {
    let f = items[place].id->0;
    if open.1.contains(f) {
        &&& closed.1.contains(f)
        &&& exists|at: int, end: int| #[trigger]
            cuts(items, open.0, closed.0, places, place, depths_fit, at, end)
    } else {
        open == closed && !places.contains(place)
    }
}

/// Rows of no descendants before the others change nothing.
proof fn cut_behind(
    items: Seq<ItemView>,
    before: Seq<TreeRow>,
    before_places: Seq<int>,
    open: Seq<TreeRow>,
    closed: Seq<TreeRow>,
    places: Seq<int>,
    place: int,
    depths_fit: bool,
    at: int,
    end: int,
)
    requires
        cuts(items, open, closed, places, place, depths_fit, at, end),
        before.len() == before_places.len(),
        forall|k: int|
            0 <= k < before_places.len() ==> !is_descendant(
                items,
                #[trigger] before_places[k],
                items[place].id->0,
            ),
    ensures
        cuts(
            items,
            before + open,
            before + closed,
            before_places + places,
            place,
            depths_fit,
            before.len() + at,
            before.len() + end,
        ),
{
    hidden_behind(before, open, closed, at, end);
    let n = before.len();
    let all = before_places + places;
    assert(all[n + at] == places[at]);
    assert forall|k: int| 0 <= k < all.len() implies (is_descendant(
        items,
        #[trigger] all[k],
        items[place].id->0,
    ) <==> n + at < k < n + end) by {
        if k < n {
            assert(all[k] == before_places[k]);
        } else {
            assert(all[k] == places[k - n]);
        }
    }
}

/// Rows of no descendants behind the others change nothing.
proof fn cut_before(
    items: Seq<ItemView>,
    open: Seq<TreeRow>,
    closed: Seq<TreeRow>,
    places: Seq<int>,
    behind: Seq<TreeRow>,
    behind_places: Seq<int>,
    place: int,
    depths_fit: bool,
    at: int,
    end: int,
)
    requires
        cuts(items, open, closed, places, place, depths_fit, at, end),
        depths_fit && behind.len() > 0 ==> behind[0].depth <= open[at].depth,
        behind.len() == behind_places.len(),
        forall|k: int|
            0 <= k < behind_places.len() ==> !is_descendant(
                items,
                #[trigger] behind_places[k],
                items[place].id->0,
            ),
    ensures
        cuts(
            items,
            open + behind,
            closed + behind,
            places + behind_places,
            place,
            depths_fit,
            at,
            end,
        ),
{
    hidden_before(open, closed, behind, at, end);
    let all = places + behind_places;
    assert(all[at] == places[at]);
    assert forall|k: int| 0 <= k < all.len() implies (is_descendant(
        items,
        #[trigger] all[k],
        items[place].id->0,
    ) <==> at < k < end) by {
        if k < places.len() {
            assert(all[k] == places[k]);
        } else {
            assert(all[k] == behind_places[k - places.len()]);
        }
    }
}

proof fn closing_one_folder(
    items: Seq<ItemView>,
    order: Seq<int>,
    top: i64,
    depth: int,
    parent: i32,
    collapsed: Set<i64>,
    visited: Set<i64>,
    levels: nat,
    place: int,
)
    requires
        ids_apart(items),
        fresh(items, order, top, visited),
        0 <= depth,
        0 <= place < items.len(),
        items[place].kind == ItemKind::Folder,
        !visited.contains(items[place].id->0),
        !collapsed.contains(items[place].id->0),
        is_apart(items, top, items[place].id->0),
    ensures
        ({
            let f = items[place].id->0;
            closing_shows(
                items,
                subtree_rows(items, order, depth, parent, collapsed, visited, levels),
                subtree_places(items, order, collapsed, visited, levels).0,
                subtree_rows(
                    items,
                    order,
                    depth,
                    parent,
                    collapsed.insert(f),
                    visited,
                    levels,
                ),
                place,
                depth + levels <= i32::MAX,
            )
        }),
    decreases levels, order.len(),
{
    let f = items[place].id->0;
    let more = collapsed.insert(f);
    let open = subtree_rows(items, order, depth, parent, collapsed, visited, levels);
    let closed = subtree_rows(items, order, depth, parent, more, visited, levels);
    let places = subtree_places(items, order, collapsed, visited, levels).0;
    let fit = depth + levels <= i32::MAX;
    if levels > 0 && order.len() > 0 {
        let first = order[0];
        let item = items[first];
        let rest = order.drop_first();
        assert(items[order[0]].id is Some);
        let id = item.id->0;
        assert(items[order[0]].parent_id == top);
        child_is_no_descendant(items, first, f);
        if item.kind != ItemKind::Folder {
            rest_is_fresh(items, order, top, visited, visited);
            closing_one_folder(items, rest, top, depth, parent, collapsed, visited, levels, place);
            let row = snippet_row(item, id, parent, depth);
            let o = subtree_rows(items, rest, depth, parent, collapsed, visited, levels);
            let c = subtree_rows(items, rest, depth, parent, more, visited, levels);
            let p = subtree_places(items, rest, collapsed, visited, levels).0;
            if o.1.contains(f) {
                let (at, end) = choose|at: int, end: int| #[trigger]
                    cuts(items, o.0, c.0, p, place, fit, at, end);
                cut_behind(items, seq![row], seq![first], o.0, c.0, p, place, fit, at, end);
                assert(cuts(items, open.0, closed.0, places, place, fit, 1 + at, 1 + end));
            } else {
                place_is_not_behind(seq![first], p, place);
            }
        } else {
            let met = visited.insert(id);
            let children = shown_children(items, id);
            children_are_fresh(items, order, top, visited);
            shown_children_exist(items, id);
            if id == f {
                assert(items[first].id == items[place].id);
                assert(first == place);
                no_folder_is_reached_twice(
                    items,
                    children,
                    id,
                    depth + 1,
                    id as i32,
                    collapsed,
                    met,
                    (levels - 1) as nat,
                );
                let below = subtree_rows(
                    items,
                    children,
                    depth + 1,
                    id as i32,
                    collapsed,
                    met,
                    (levels - 1) as nat,
                );
                rest_is_fresh(items, order, top, visited, below.1);
                rest_is_fresh(items, order, top, visited, met);
                rows_behind_agree(
                    items,
                    rest,
                    top,
                    depth,
                    parent,
                    collapsed,
                    below.1,
                    met,
                    levels,
                    f,
                );
                let after = subtree_rows(
                    items,
                    rest,
                    depth,
                    parent,
                    collapsed,
                    below.1,
                    levels,
                ).0;
                let below_places = subtree_places(
                    items,
                    children,
                    collapsed,
                    met,
                    (levels - 1) as nat,
                );
                let after_places = subtree_places(items, rest, collapsed, below.1, levels).0;
                rows_stand_for_items(
                    items,
                    children,
                    depth + 1,
                    id as i32,
                    collapsed,
                    met,
                    (levels - 1) as nat,
                );
                rows_stand_for_items(items, rest, depth, parent, collapsed, below.1, levels);
                shown_places_lie_below(items, children, id, collapsed, met, (levels - 1) as nat);
                shown_places_do_not_lie_below(
                    items,
                    rest,
                    top,
                    collapsed,
                    below.1,
                    levels,
                    f,
                );
                let row = folder_row(item, id, parent, depth, children.len() > 0, true);
                let shut = folder_row(item, id, parent, depth, children.len() > 0, false);
                let end = (1 + below.0.len()) as int;
                let inner = seq![row] + below.0;
                let inner_places = seq![first] + below_places.0;
                assert(inner.take(0).push(shut) + inner.skip(end) =~= seq![shut]);
                assert(hides(inner, seq![shut], 0, end));
                assert forall|k: int| 0 <= k < inner_places.len() implies (is_descendant(
                    items,
                    #[trigger] inner_places[k],
                    f,
                ) <==> 0 < k < end) by {
                    if k > 0 {
                        assert(inner_places[k] == below_places.0[k - 1]);
                    }
                }
                if fit {
                    rows_come_depth_first(
                        items,
                        children,
                        depth + 1,
                        id as i32,
                        collapsed,
                        met,
                        (levels - 1) as nat,
                    );
                    rows_come_depth_first(items, rest, depth, parent, collapsed, below.1, levels);
                    assert forall|k: int| 0 < k < end implies (#[trigger] inner[k]).depth
                        > inner[0].depth by {
                        assert(inner[k] == below.0[k - 1]);
                    }
                }
                assert(cuts(items, inner, seq![shut], inner_places, place, fit, 0, end));
                cut_before(
                    items,
                    inner,
                    seq![shut],
                    inner_places,
                    after,
                    after_places,
                    place,
                    fit,
                    0,
                    end,
                );
                assert(closed.0 =~= seq![shut] + after);
                assert(cuts(items, open.0, closed.0, places, place, fit, 0, end));
            } else {
                let o = subtree_rows(
                    items,
                    children,
                    depth + 1,
                    id as i32,
                    collapsed,
                    met,
                    (levels - 1) as nat,
                );
                let c = subtree_rows(
                    items,
                    children,
                    depth + 1,
                    id as i32,
                    more,
                    met,
                    (levels - 1) as nat,
                );
                let p = subtree_places(items, children, collapsed, met, (levels - 1) as nat).0;
                let shut = collapsed.contains(id);
                let below = if shut {
                    (Seq::<TreeRow>::empty(), met)
                } else {
                    o
                };
                let below_closed = if shut {
                    (Seq::<TreeRow>::empty(), met)
                } else {
                    c
                };
                let below_places = if shut {
                    Seq::<int>::empty()
                } else {
                    p
                };
                let row = folder_row(item, id, parent, depth, children.len() > 0, !shut);
                assert(is_apart(items, id, f)) by {
                    assert forall|j: int|
                        0 <= j < items.len() && (#[trigger] items[j]).id == Some(
                            id,
                        ) implies !is_descendant(items, j, f) by {
                        assert(items[j].id == items[first].id);
                        assert(j == first);
                    }
                }
                if !shut {
                    closing_one_folder(
                        items,
                        children,
                        id,
                        depth + 1,
                        id as i32,
                        collapsed,
                        met,
                        (levels - 1) as nat,
                        place,
                    );
                    no_folder_is_reached_twice(
                        items,
                        children,
                        id,
                        depth + 1,
                        id as i32,
                        collapsed,
                        met,
                        (levels - 1) as nat,
                    );
                    no_folder_is_reached_twice(
                        items,
                        children,
                        id,
                        depth + 1,
                        id as i32,
                        more,
                        met,
                        (levels - 1) as nat,
                    );
                    rows_stand_for_items(
                        items,
                        children,
                        depth + 1,
                        id as i32,
                        collapsed,
                        met,
                        (levels - 1) as nat,
                    );
                }
                rest_is_fresh(items, order, top, visited, below.1);
                rest_is_fresh(items, order, top, visited, below_closed.1);
                rows_stand_for_items(items, rest, depth, parent, collapsed, below.1, levels);
                let after = subtree_rows(
                    items,
                    rest,
                    depth,
                    parent,
                    collapsed,
                    below.1,
                    levels,
                );
                let after_places = subtree_places(items, rest, collapsed, below.1, levels).0;
                if below.1.contains(f) {
                    rows_behind_agree(
                        items,
                        rest,
                        top,
                        depth,
                        parent,
                        collapsed,
                        below.1,
                        below_closed.1,
                        levels,
                        f,
                    );
                    let (at, end) = choose|at: int, end: int| #[trigger]
                        cuts(items, o.0, c.0, p, place, fit, at, end);
                    if fit {
                        rows_come_depth_first(
                            items,
                            children,
                            depth + 1,
                            id as i32,
                            collapsed,
                            met,
                            (levels - 1) as nat,
                        );
                        rows_come_depth_first(
                            items,
                            rest,
                            depth,
                            parent,
                            collapsed,
                            below.1,
                            levels,
                        );
                        assert(o.0[at].depth >= depth + 1);
                    }
                    shown_places_do_not_lie_below(
                        items,
                        rest,
                        top,
                        collapsed,
                        below.1,
                        levels,
                        f,
                    );
                    cut_behind(items, seq![row], seq![first], o.0, c.0, p, place, fit, at, end);
                    let inner = seq![row] + o.0;
                    assert(inner[1 + at] == o.0[at]);
                    cut_before(
                        items,
                        inner,
                        seq![row] + c.0,
                        seq![first] + p,
                        after.0,
                        after_places,
                        place,
                        fit,
                        1 + at,
                        1 + end,
                    );
                    assert(cuts(items, open.0, closed.0, places, place, fit, 1 + at, 1 + end));
                } else {
                    closing_one_folder(
                        items,
                        rest,
                        top,
                        depth,
                        parent,
                        collapsed,
                        below.1,
                        levels,
                        place,
                    );
                    let c2 = subtree_rows(items, rest, depth, parent, more, below.1, levels);
                    let head = seq![row] + below.0;
                    let head_places = seq![first] + below_places;
                    if after.1.contains(f) {
                        let (at, end) = choose|at: int, end: int| #[trigger]
                            cuts(items, after.0, c2.0, after_places, place, fit, at, end);
                        if !shut {
                            shown_places_do_not_lie_below(
                                items,
                                children,
                                id,
                                collapsed,
                                met,
                                (levels - 1) as nat,
                                f,
                            );
                        }
                        assert forall|k: int| 0 <= k < head_places.len() implies !is_descendant(
                            items,
                            #[trigger] head_places[k],
                            f,
                        ) by {
                            if k > 0 {
                                assert(head_places[k] == below_places[k - 1]);
                            }
                        }
                        cut_behind(
                            items,
                            head,
                            head_places,
                            after.0,
                            c2.0,
                            after_places,
                            place,
                            fit,
                            at,
                            end,
                        );
                        assert(cuts(
                            items,
                            open.0,
                            closed.0,
                            places,
                            place,
                            fit,
                            head.len() + at,
                            head.len() + end,
                        ));
                    } else {
                        assert(!head_places.contains(place)) by {
                            place_is_not_behind(seq![first], below_places, place);
                        }
                        place_is_not_behind(head_places, after_places, place);
                    }
                }
            }
        }
    }
}

proof fn place_is_not_behind(a: Seq<int>, b: Seq<int>, place: int)
    requires
        !a.contains(place),
        !b.contains(place),
    ensures
        !(a + b).contains(place),
{
    let whole = a + b;
    assert forall|k: int| 0 <= k < whole.len() implies whole[k] != place by {
        if k < a.len() {
            assert(whole[k] == a[k]);
        } else {
            assert(whole[k] == b[k - a.len()]);
        }
    }
}

// ---- the laws -----------------------------------------------------------

/// The roots are children of the top that have not been met.
proof fn roots_are_fresh(items: Seq<ItemView>)
    requires
        ids_apart(items),
    ensures
        fresh(items, shown_children(items, 0), 0, Set::empty()),
{
    let roots = shown_children(items, 0);
    shown_children_exist(items, 0);
    assert forall|k: int| 0 <= k < roots.len() implies 0 <= #[trigger] roots[k] < items.len()
        && items[roots[k]].parent_id == 0 by {
        assert(roots.contains(roots[k]));
    }
    assert forall|i: int, j: int|
        0 <= i < roots.len() && 0 <= j < roots.len() && i != j implies roots[i] != roots[j] by {
        if i < j {
            assert(shown_before(items, roots[i], roots[j]));
        } else {
            assert(shown_before(items, roots[j], roots[i]));
        }
    }
}

/// Are there so few items that depths fit?
spec fn are_few(items: Seq<ItemView>) -> bool {
    items.len() < i32::MAX
}

proof fn closing_among_stored_rows(items: Seq<ItemView>, collapsed: Set<i64>, place: int)
    requires
        ids_apart(items),
        0 <= place < items.len(),
        items[place].kind == ItemKind::Folder,
        !collapsed.contains(items[place].id->0),
    ensures
        ({
            let open = stored_rows(items, collapsed);
            let closed = stored_rows(items, collapsed.insert(items[place].id->0));
            let places = stored_places(items, collapsed);
            if places.contains(place) {
                exists|at: int, end: int| #[trigger]
                    cuts(items, open, closed, places, place, are_few(items), at, end)
            } else {
                open == closed
            }
        }),
{
    let roots = shown_children(items, 0);
    let levels = items.len() + 1;
    let f = items[place].id->0;
    roots_are_fresh(items);
    assert(is_apart(items, 0, f)) by {
        assert(items[place].id is Some);
    }
    closing_one_folder(items, roots, 0, 0, NO_PARENT, collapsed, Set::empty(), levels, place);
    let places = stored_places(items, collapsed);
    let open = stored_rows(items, collapsed);
    let closed = stored_rows(items, collapsed.insert(f));
    let fit = are_few(items);
    if exists|at: int, end: int| #[trigger]
        cuts(items, open, closed, places, place, fit, at, end) {
        let (at, end) = choose|at: int, end: int| #[trigger]
            cuts(items, open, closed, places, place, fit, at, end);
        assert(places.contains(places[at]));
    }
}

/// To close the virtual folder changes no row of a stored item.
proof fn stored_rows_ignore_the_virtual_folder(items: Seq<ItemView>, collapsed: Set<i64>)
    requires
        forall|i: int| 0 <= i < items.len() ==> (#[trigger] items[i]).id != Some(HISTORY_FOLDER_ID),
    ensures
        stored_rows(items, collapsed.insert(HISTORY_FOLDER_ID)) == stored_rows(items, collapsed),
{
    let roots = shown_children(items, 0);
    shown_children_exist(items, 0);
    assert forall|k: int| 0 <= k < roots.len() implies 0 <= #[trigger] roots[k] < items.len() by {
        assert(roots.contains(roots[k]));
    }
    closing_what_is_not_reached(
        items,
        roots,
        0,
        NO_PARENT,
        collapsed,
        Set::empty(),
        items.len() + 1,
        HISTORY_FOLDER_ID,
    );
}

/// Law: closing an open folder that has a row takes away exactly the rows of its descendants.
/// Its own row is shown closed and is otherwise the same, and so is every other row, in the
/// same order.
pub proof fn closing_a_folder_hides_its_descendants(
    items: Seq<ItemView>,
    history: Seq<Captured>,
    position: HistoryPosition,
    label: Seq<char>,
    collapsed: Set<i64>,
    place: int,
)
    requires
        ids_apart(items),
        0 <= place < items.len(),
        items[place].kind == ItemKind::Folder,
        items[place].id != Some(HISTORY_FOLDER_ID),
        !collapsed.contains(items[place].id->0),
        stored_places(items, collapsed).contains(place),
    ensures
        exists|at: int, end: int|
            #![trigger stored_places(items, collapsed)[at], descendants_are_between(
                items,
                stored_places(items, collapsed),
                items[place].id->0,
                at,
                end,
            )]
            {
                let places = stored_places(items, collapsed);
                let start = stored_start(history, position, label, collapsed);
                &&& 0 <= at < places.len()
                &&& places[at] == place
                &&& descendants_are_between(items, places, items[place].id->0, at, end)
                &&& hides(
                    tree_rows(items, history, position, label, collapsed),
                    tree_rows(
                        items,
                        history,
                        position,
                        label,
                        collapsed.insert(items[place].id->0),
                    ),
                    start + at,
                    start + end,
                )
            },
{
    let more = collapsed.insert(items[place].id->0);
    let open = stored_rows(items, collapsed);
    let closed = stored_rows(items, more);
    let places = stored_places(items, collapsed);
    let shown = history_rows(history, label, collapsed);
    let fit = are_few(items);
    closing_among_stored_rows(items, collapsed, place);
    let (at, end) = choose|at: int, end: int| #[trigger]
        cuts(items, open, closed, places, place, fit, at, end);
    assert(items[place].id is Some);
    assert(history_rows(history, label, more) == shown);
    match position {
        HistoryPosition::Top => {
            hidden_behind(shown, open, closed, at, end);
        },
        HistoryPosition::Bottom => {
            hidden_before(open, closed, shown, at, end);
        },
    }
    assert(places[at] == place);
    assert(descendants_are_between(items, places, items[place].id->0, at, end));
}

/// Law: as far as depths can be told apart, the rows that closing a folder takes away are the
/// deeper ones right behind its own.
pub proof fn closing_a_folder_hides_what_is_below(
    items: Seq<ItemView>,
    history: Seq<Captured>,
    position: HistoryPosition,
    label: Seq<char>,
    collapsed: Set<i64>,
    place: int,
)
    requires
        ids_apart(items),
        items.len() < i32::MAX,
        0 <= place < items.len(),
        items[place].kind == ItemKind::Folder,
        items[place].id != Some(HISTORY_FOLDER_ID),
        !collapsed.contains(items[place].id->0),
        stored_places(items, collapsed).contains(place),
    ensures
        exists|k: int|
            0 <= k < stored_places(items, collapsed).len() && #[trigger] stored_places(
                items,
                collapsed,
            )[k] == place && closes(
                tree_rows(items, history, position, label, collapsed),
                tree_rows(items, history, position, label, collapsed.insert(items[place].id->0)),
                stored_start(history, position, label, collapsed) + k,
            ),
{
    let more = collapsed.insert(items[place].id->0);
    let open = stored_rows(items, collapsed);
    let closed = stored_rows(items, more);
    let places = stored_places(items, collapsed);
    let shown = history_rows(history, label, collapsed);
    closing_among_stored_rows(items, collapsed, place);
    let (at, end) = choose|at: int, end: int| #[trigger]
        cuts(items, open, closed, places, place, are_few(items), at, end);
    assert(items[place].id is Some);
    assert(history_rows(history, label, more) == shown);
    assert(shown[0].depth == 0);
    stored_rows_come_depth_first(items, collapsed);
    assert(open[at].depth >= 0);
    match position {
        HistoryPosition::Top => {
            hidden_behind(shown, open, closed, at, end);
            run_ends(shown + open, shown.len() + at, shown.len() + at + 1, shown.len() + end);
        },
        HistoryPosition::Bottom => {
            hidden_before(open, closed, shown, at, end);
            run_ends(open + shown, at, at + 1, end);
        },
    }
    assert(places[at] == place);
}

/// Law: closing a folder that has no row, because a folder around it is closed, changes
/// nothing.
pub proof fn closing_a_hidden_folder_shows_nothing(
    items: Seq<ItemView>,
    history: Seq<Captured>,
    position: HistoryPosition,
    label: Seq<char>,
    collapsed: Set<i64>,
    place: int,
)
    requires
        ids_apart(items),
        0 <= place < items.len(),
        items[place].kind == ItemKind::Folder,
        items[place].id != Some(HISTORY_FOLDER_ID),
        !stored_places(items, collapsed).contains(place),
    ensures
        tree_rows(items, history, position, label, collapsed.insert(items[place].id->0))
            == tree_rows(items, history, position, label, collapsed),
{
    let f = items[place].id->0;
    assert(items[place].id is Some);
    if collapsed.contains(f) {
        assert(collapsed.insert(f) =~= collapsed);
    } else {
        closing_among_stored_rows(items, collapsed, place);
        assert(history_rows(history, label, collapsed.insert(f)) == history_rows(
            history,
            label,
            collapsed,
        ));
    }
}

/// Law: closing the virtual folder takes away exactly the rows of the captured texts. Its own
/// row is shown closed and is otherwise the same, and so is every row of a stored item.
pub proof fn closing_the_history_hides_its_entries(
    items: Seq<ItemView>,
    history: Seq<Captured>,
    position: HistoryPosition,
    label: Seq<char>,
    collapsed: Set<i64>,
)
    requires
        forall|i: int| 0 <= i < items.len() ==> (#[trigger] items[i]).id != Some(HISTORY_FOLDER_ID),
        !collapsed.contains(HISTORY_FOLDER_ID),
    ensures
        ({
            let at = match position {
                HistoryPosition::Top => 0,
                HistoryPosition::Bottom => stored_rows(items, collapsed).len() as int,
            };
            hides(
                tree_rows(items, history, position, label, collapsed),
                tree_rows(items, history, position, label, collapsed.insert(HISTORY_FOLDER_ID)),
                at,
                at + 1 + history.len(),
            )
        }),
{
    let more = collapsed.insert(HISTORY_FOLDER_ID);
    let open = history_rows(history, label, collapsed);
    let closed = history_rows(history, label, more);
    let stored = stored_rows(items, collapsed);
    stored_rows_ignore_the_virtual_folder(items, collapsed);
    let end = open.len() as int;
    assert(closed =~= open.take(0).push(TreeRow { expanded: false, ..open[0] }) + open.skip(end));
    assert(hides(open, closed, 0, end));
    match position {
        HistoryPosition::Top => {
            hidden_before(open, closed, stored, 0, end);
        },
        HistoryPosition::Bottom => {
            hidden_behind(stored, open, closed, 0, end);
        },
    }
}

} // verus!
