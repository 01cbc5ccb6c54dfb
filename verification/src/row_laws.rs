//! What the rows of the tree view are for: each shows its item where the item lies, and a
//! click on it does what it says.
use crate::clipboard_history::Captured;
use crate::item::{HistoryPosition, ItemKind, ItemView};
use crate::table::{decode, Table};
use crate::tree_builder::{
    history_index, history_label, history_rows, shown_before, shown_children, shown_children_exist,
    stored_rows, subtree_rows, tree_rows, TreeRow,
};
use crate::tree_view::{
    folder_ids, is_restored, live_collapsed, new_item_parent, pasted_text, row_at, selected_id,
    subtree_end, toggled, toggled_all,
};
use vstd::prelude::*;

verus! {

// ---- order --------------------------------------------------------------

/// Law: the children of a row are all items that name it as their parent, each once. They
/// stand in the order of their positions, those of one position in the order of their ids, and
/// those without an id before those with one.
pub proof fn children_in_shown_order(items: Seq<ItemView>, parent: i64, x: int, i: int, j: int)
    ensures
        shown_children(items, parent).contains(x) <==> 0 <= x < items.len() && items[x].parent_id
            == parent,
        0 <= i < j < shown_children(items, parent).len() ==> {
            let p = shown_children(items, parent)[i];
            let q = shown_children(items, parent)[j];
            let a = items[p];
            let b = items[q];
            &&& p != q
            &&& a.order_index <= b.order_index
            &&& a.order_index == b.order_index ==> {
                ||| a.id is None && b.id is Some
                ||| a.id is Some && b.id is Some && a.id->0 < b.id->0
                ||| a.id == b.id && p < q
            }
        },
{
    shown_children_exist(items, parent);
    let s = shown_children(items, parent);
    if 0 <= i < j < s.len() {
        assert(shown_before(items, s[i], s[j]));
    }
}

// ---- rows of items ------------------------------------------------------

/// Law: how a list of items becomes rows. An item that is no folder has one row; a folder has
/// one row and behind it, unless it is closed, the rows of its children, one level deeper. A
/// row shows the title of its item and carries the body, and its picture tells folders from
/// the rest. An item without an id has no row, and no folder is shown twice.
pub proof fn rows_of_a_list(
    items: Seq<ItemView>,
    order: Seq<int>,
    depth: int,
    parent: i32,
    collapsed: Set<i64>,
    visited: Set<i64>,
    levels: nat,
)
    requires
        levels > 0,
        order.len() > 0,
    ensures
        ({
            let item = items[order[0]];
            let rest = order.drop_first();
            let whole = subtree_rows(items, order, depth, parent, collapsed, visited, levels);
            let others = subtree_rows(items, rest, depth, parent, collapsed, visited, levels);
            &&& item.id is None ==> whole == others
            &&& item.id is Some && item.kind != ItemKind::Folder ==> {
                &&& whole.0 == seq![
                    TreeRow {
                        internal_id: item.id->0 as i32,
                        parent_internal_id: parent,
                        depth: depth as i32,
                        text: item.title,
                        user_data: item.body_plain,
                        icon: "📄"@,
                        item_type: (match item.kind {
                            ItemKind::Folder => 0i32,
                            ItemKind::Plain => 1i32,
                            ItemKind::RichText => 2i32,
                            ItemKind::Clip => 3i32,
                        }),
                        has_children: false,
                        expanded: false,
                    },
                ] + others.0
                &&& whole.1 == others.1
            }
            &&& item.id is Some && item.kind == ItemKind::Folder && visited.contains(item.id->0)
                ==> whole == others
            &&& item.id is Some && item.kind == ItemKind::Folder && !visited.contains(item.id->0)
                ==> {
                let id = item.id->0;
                let children = shown_children(items, id);
                let inside = subtree_rows(
                    items,
                    children,
                    depth + 1,
                    id as i32,
                    collapsed,
                    visited.insert(id),
                    (levels - 1) as nat,
                );
                let shown = if collapsed.contains(id) {
                    Seq::<TreeRow>::empty()
                } else {
                    inside.0
                };
                let met = if collapsed.contains(id) {
                    visited.insert(id)
                } else {
                    inside.1
                };
                let after = subtree_rows(items, rest, depth, parent, collapsed, met, levels);
                &&& whole.0 == seq![
                    TreeRow {
                        internal_id: id as i32,
                        parent_internal_id: parent,
                        depth: depth as i32,
                        text: item.title,
                        user_data: item.body_plain,
                        icon: "📁"@,
                        item_type: 0,
                        has_children: children.len() > 0,
                        expanded: !collapsed.contains(id),
                    },
                ] + shown + after.0
                &&& whole.1 == after.1
            }
        }),
{
}

/// Law: the rows of the stored items are those of the items at top level, under no row, at
/// depth 0.
pub proof fn rows_start_at_the_top(items: Seq<ItemView>, collapsed: Set<i64>)
    ensures
        stored_rows(items, collapsed) == subtree_rows(
            items,
            shown_children(items, 0),
            0,
            (-1) as i32,
            collapsed,
            Set::empty(),
            items.len() + 1,
        ).0,
        forall|depth: int, parent: i32, visited: Set<i64>, levels: nat|
            (#[trigger] subtree_rows(
                items,
                Seq::empty(),
                depth,
                parent,
                collapsed,
                visited,
                levels,
            )).0.len() == 0,
{
}

/// Law: the history folder stands above the stored items or below them, as is set.
pub proof fn where_the_history_stands(
    items: Seq<ItemView>,
    history: Seq<Captured>,
    label: Seq<char>,
    collapsed: Set<i64>,
)
    ensures
        tree_rows(items, history, HistoryPosition::Top, label, collapsed) == history_rows(
            history,
            label,
            collapsed,
        ) + stored_rows(items, collapsed),
        tree_rows(items, history, HistoryPosition::Bottom, label, collapsed) == stored_rows(
            items,
            collapsed,
        ) + history_rows(history, label, collapsed),
{
}

/// Law: the history folder has one row with its label, and behind it, unless it is closed, one
/// row for each captured text, in order. Such a row shows the start of its text and carries
/// the whole of it, under a number by which it is found again.
pub proof fn rows_of_the_history(
    history: Seq<Captured>,
    label: Seq<char>,
    collapsed: Set<i64>,
    i: int,
)
    ensures
        ({
            let rows = history_rows(history, label, collapsed);
            &&& rows.len() == (if collapsed.contains((-1000) as i64) {
                1
            } else {
                history.len() + 1
            })
            &&& rows[0] == (TreeRow {
                internal_id: (-1000) as i32,
                parent_internal_id: (-1) as i32,
                depth: 0,
                text: label,
                user_data: Seq::empty(),
                icon: "🕒"@,
                item_type: 0,
                has_children: history.len() > 0,
                expanded: !collapsed.contains((-1000) as i64),
            })
            &&& 0 <= i < rows.len() - 1 && i <= 0x7fff_fffd ==> rows[i + 1] == (TreeRow {
                internal_id: (-2 - i) as i32,
                parent_internal_id: (-1000) as i32,
                depth: 1,
                text: history_label(history[i].0),
                user_data: history[i].0,
                icon: "📋"@,
                item_type: 1,
                has_children: false,
                expanded: false,
            })
        }),
{
}

/// Law: a row number stands for a captured text exactly if it is below -1 and is not the
/// number of the history folder; -2 is the newest.
pub proof fn numbers_of_captured_texts(id: int)
    ensures
        history_index(id) is Some <==> id <= -2 && id != -1000,
        history_index(id) is Some ==> history_index(id) == Some(-2 - id),
{
}

// ---- selecting ----------------------------------------------------------

/// Law: the selected row is the one at the index, and nothing is selected where there is none.
/// The selection goes to the row with the number that was selected before, the first one, if
/// that is the number of a stored item.
pub proof fn what_is_selected(
    rows: Seq<TreeRow>,
    index: int,
    after: Seq<TreeRow>,
    r: Option<int>,
)
    ensures
        0 <= index < rows.len() ==> row_at(rows, index) == Some(rows[index]) && selected_id(
            rows,
            index,
        ) == rows[index].internal_id,
        !(0 <= index < rows.len()) ==> row_at(rows, index) is None && selected_id(rows, index)
            == -1,
        is_restored(rows, index, after, r) && 0 <= index < rows.len() && rows[index].internal_id
            > 0 ==> {
            &&& r matches Some(i) ==> 0 <= i < after.len() && after[i].internal_id
                == rows[index].internal_id && (forall|j: int|
                0 <= j < i ==> (#[trigger] after[j]).internal_id != rows[index].internal_id)
            &&& r is None ==> forall|j: int|
                0 <= j < after.len() ==> (#[trigger] after[j]).internal_id
                    != rows[index].internal_id
        },
        is_restored(rows, index, after, r) && !(0 <= index < rows.len()
            && rows[index].internal_id > 0) ==> r is None,
{
}

/// Law: a new item goes into the selected folder, beside the selected snippet, and to the top
/// level where a row of the history is selected.
pub proof fn where_a_new_item_goes(row: TreeRow)
    ensures
        row.internal_id > 0 && row.item_type == 0 ==> new_item_parent(row) == row.internal_id,
        row.internal_id > 0 && row.item_type != 0 && row.parent_internal_id > 0
            ==> new_item_parent(row) == row.parent_internal_id,
        row.internal_id > 0 && row.item_type != 0 && row.parent_internal_id <= 0
            ==> new_item_parent(row) == 0,
        row.internal_id <= 0 ==> new_item_parent(row) == 0,
{
}

// ---- opening and closing ------------------------------------------------

/// Law: opening a folder takes it from the closed ones and closing puts it among them. With
/// all that is below, the same goes for every folder listed. No other one is touched.
pub proof fn what_is_closed_after(
    collapsed: Set<i64>,
    id: i64,
    below: Seq<i64>,
    x: i64,
)
    ensures
        toggled(collapsed, id, true).contains(x) <==> collapsed.contains(x) && x != id,
        toggled(collapsed, id, false).contains(x) <==> collapsed.contains(x) || x == id,
        toggled_all(collapsed, id, below, true).contains(x) <==> collapsed.contains(x) && x != id
            && !below.contains(x),
        toggled_all(collapsed, id, below, false).contains(x) <==> collapsed.contains(x) || x == id
            || below.contains(x),
{
}

/// Law: a closed folder is forgotten exactly if it is neither the history nor a stored item.
pub proof fn which_closed_folders_are_forgotten(collapsed: Set<i64>, items: Seq<ItemView>, x: i64)
    ensures
        live_collapsed(collapsed, items).contains(x) <==> collapsed.contains(x) && (x == -1000
            || exists|i: int| 0 <= i < items.len() && (#[trigger] items[i]).id == Some(x)),
{
}

proof fn a_run_of_deeper_rows(rows: Seq<TreeRow>, start: int, at: int)
    requires
        0 <= start < at <= rows.len(),
    ensures
        at <= subtree_end(rows, start, at) <= rows.len(),
        forall|k: int|
            at <= k < subtree_end(rows, start, at) ==> (#[trigger] rows[k]).depth
                > rows[start].depth,
        subtree_end(rows, start, at) < rows.len() ==> rows[subtree_end(rows, start, at)].depth
            <= rows[start].depth,
    decreases rows.len() - at,
{
    if at < rows.len() && rows[at].depth > rows[start].depth {
        a_run_of_deeper_rows(rows, start, at + 1);
    }
}

proof fn folder_ids_are_a_filter(
    rows: Seq<TreeRow>,
    from: int,
    to: int,
    root_depth: int,
    levels: int,
)
    requires
        0 <= from <= to <= rows.len(),
    ensures
        folder_ids(rows, from, to, root_depth, levels) == rows.subrange(from, to).filter(
            |row: TreeRow| row.item_type == 0 && (levels < 0 || row.depth - root_depth <= levels),
        ).map_values(|row: TreeRow| row.internal_id as i64),
    decreases to - from,
{
    reveal(Seq::filter);
    let keep = |row: TreeRow|
        row.item_type == 0 && (levels < 0 || row.depth - root_depth <= levels);
    let show = |row: TreeRow| row.internal_id as i64;
    let part = rows.subrange(from, to);
    if from == to {
        assert(part =~= Seq::<TreeRow>::empty());
        assert(folder_ids(rows, from, to, root_depth, levels) =~= part.filter(keep).map_values(
            show,
        ));
    } else {
        folder_ids_are_a_filter(rows, from, to - 1, root_depth, levels);
        assert(part.drop_last() =~= rows.subrange(from, to - 1));
        assert(part.last() == rows[to - 1]);
        assert(folder_ids(rows, from, to, root_depth, levels) =~= part.filter(keep).map_values(
            show,
        ));
    }
}

/// Law: the folders below a row are the folders among the deeper rows right behind it, all of
/// them that are no more levels below than asked for, in order.
pub proof fn which_folders_are_below(rows: Seq<TreeRow>, start: int, levels: int)
    requires
        0 <= start < rows.len(),
    ensures
        ({
            let end = subtree_end(rows, start, start + 1);
            let depth = rows[start].depth as int;
            &&& start < end <= rows.len()
            &&& forall|k: int| start < k < end ==> (#[trigger] rows[k]).depth > rows[start].depth
            &&& end < rows.len() ==> rows[end].depth <= rows[start].depth
            &&& folder_ids(rows, start + 1, end, depth, levels) == rows.subrange(
                start + 1,
                end,
            ).filter(
                |row: TreeRow|
                    row.item_type == 0 && (levels < 0 || row.depth - depth <= levels),
            ).map_values(|row: TreeRow| row.internal_id as i64)
        }),
{
    a_run_of_deeper_rows(rows, start, start + 1);
    folder_ids_are_a_filter(
        rows,
        start + 1,
        subtree_end(rows, start, start + 1),
        rows[start].depth as int,
        levels,
    );
}

// ---- pasting ------------------------------------------------------------

/// Law: a captured text pastes what its row carries, a stored item that is no folder its whole
/// body as it is stored now, and nothing else pastes anything. An empty text is nothing.
pub proof fn what_a_row_pastes(row: TreeRow, t: Table)
    ensures
        ({
            let id = row.internal_id as i64;
            let captured = id <= -2 && id != -1000;
            let stored = id > 0 && row.item_type != 0 && t.dom().contains(id) && decode(
                id,
                t[id],
            ) is Ok;
            &&& captured && row.user_data.len() > 0 ==> pasted_text(row, t) == Some(row.user_data)
            &&& stored && (decode(id, t[id])->Ok_0).body_plain.len() > 0 ==> pasted_text(row, t)
                == Some((decode(id, t[id])->Ok_0).body_plain)
            &&& captured && row.user_data.len() == 0 ==> pasted_text(row, t) is None
            &&& stored && (decode(id, t[id])->Ok_0).body_plain.len() == 0 ==> pasted_text(
                row,
                t,
            ) is None
            &&& !captured && !stored ==> pasted_text(row, t) is None
        }),
{
}

} // verus!
