//! What a click in the tree means: which row is selected, where a new item goes, which folders
//! open and close, and what a row pastes.
use crate::clipboard_history::{entry_views, HistoryEntry};
use crate::database::{item_views, readable, Database};
use crate::item::{text_view, HistoryPosition, Item, ItemKind, ItemView, HISTORY_FOLDER_ID};
use crate::table::{decode, listing};
use crate::tree_builder::{
    build_tree_items_with_history, history_index, history_index_from_item_id, row_type, row_views,
    tree_rows, TreeItem, TreeRow,
};
use std::collections::HashSet;
use vstd::prelude::*;

verus! {

broadcast use vstd::std_specs::hash::group_hash_axioms;

/// Is this the row of a folder? An empty folder is one too, though it has no children.
pub open spec fn is_folder_row(row: TreeRow) -> bool {
    row.item_type == row_type(ItemKind::Folder)
}

fn folder_row(row: &TreeItem) -> (r: bool)
    ensures
        r == is_folder_row(row@),
{
    row.item_type == ItemKind::Folder.as_i64() as i32
}

// ---- selection ----------------------------------------------------------

/// The place of the first row with this id.
pub open spec fn is_place_of(rows: Seq<TreeRow>, id: i32, place: Option<int>) -> bool {
    match place {
        Some(i) => 0 <= i < rows.len() && rows[i].internal_id == id && forall|j: int|
            0 <= j < i ==> (#[trigger] rows[j]).internal_id != id,
        None => forall|j: int| 0 <= j < rows.len() ==> (#[trigger] rows[j]).internal_id != id,
    }
}

/// A place as a mathematical integer.
pub open spec fn place_view(place: Option<usize>) -> Option<int> {
    match place {
        Some(i) => Some(i as int),
        None => None,
    }
}

/// The place of the first row with this id, if there is one.
pub fn index_of_id(rows: &[TreeItem], id: i32) -> (r: Option<usize>)
    ensures
        is_place_of(row_views(rows@), id, place_view(r)),
{
    let ghost views = row_views(rows@);
    let mut i: usize = 0;
    while i < rows.len()
        invariant
            i <= rows@.len(),
            views == row_views(rows@),
            forall|j: int| 0 <= j < i ==> (#[trigger] views[j]).internal_id != id,
        decreases rows@.len() - i,
    {
        assert(views[i as int] == rows@[i as int]@);
        if rows[i].internal_id == id {
            return Some(i);
        }
        i = i + 1;
    }
    None
}

/// The row at an index of the view, where a negative index means that nothing is selected.
pub open spec fn row_at(rows: Seq<TreeRow>, index: int) -> Option<TreeRow> {
    if 0 <= index < rows.len() {
        Some(rows[index])
    } else {
        None
    }
}

fn find_row(rows: &[TreeItem], index: i32) -> (r: Option<&TreeItem>)
    ensures
        (match r {
            Some(row) => Some(row@),
            None => None,
        }) == row_at(row_views(rows@), index as int),
        r matches Some(row) ==> row_at(row_views(rows@), index as int) == Some(row@),
{
    if index >= 0 && (index as usize) < rows.len() {
        let row = &rows[index as usize];
        assert(row_views(rows@)[index as int] == row@);
        Some(row)
    } else {
        None
    }
}

/// The id of the selected row, also of one that is not stored; -1 where nothing is selected.
pub open spec fn selected_id(rows: Seq<TreeRow>, index: int) -> i32 {
    match row_at(rows, index) {
        Some(row) => row.internal_id,
        None => (-1) as i32,
    }
}

/// The id of the selected row, also of one that is not stored; -1 where nothing is selected.
pub fn selected_row_id_i32(rows: &[TreeItem], index: i32) -> (r: i32)
    ensures
        r == selected_id(row_views(rows@), index as int),
{
    match find_row(rows, index) {
        Some(row) => row.internal_id,
        None => -1,
    }
}

/// The id of the selected stored item, if one is selected. Rows of the history have ids below
/// zero and are none.
pub fn selected_row_id(rows: &[TreeItem], index: i32) -> (r: Option<i64>)
    ensures
        r == (if selected_id(row_views(rows@), index as int) > 0 {
            Some(selected_id(row_views(rows@), index as int) as i64)
        } else {
            None
        }),
{
    let id: i32 = selected_row_id_i32(rows, index);
    if id <= 0 {
        None
    } else {
        Some(id as i64)
    }
}

/// Where the selection goes when the rows are replaced: to the same stored item, or away if it
/// is gone. Ids of history rows count positions, so they are not followed.
pub open spec fn is_restored(
    before: Seq<TreeRow>,
    index: int,
    after: Seq<TreeRow>,
    r: Option<int>,
) -> bool {
    let id = selected_id(before, index);
    if id <= 0 {
        r is None
    } else {
        is_place_of(after, id, r)
    }
}

/// Where the selection goes when the rows are replaced.
pub fn restored_selection(before: &[TreeItem], index: i32, after: &[TreeItem]) -> (r: Option<
    usize,
>)
    ensures
        is_restored(row_views(before@), index as int, row_views(after@), place_view(r)),
{
    let id: i32 = selected_row_id_i32(before, index);
    if id <= 0 {
        None
    } else {
        index_of_id(after, id)
    }
}

/// A selection that survives a rebuild is on a row with the same id as before, and it survives
/// whenever such a row is there.
pub proof fn selection_follows_the_item(
    before: Seq<TreeRow>,
    index: int,
    after: Seq<TreeRow>,
    r: Option<int>,
)
    requires
        is_restored(before, index, after, r),
    ensures
        r matches Some(i) ==> selected_id(after, i) == selected_id(before, index) && selected_id(
            before,
            index,
        ) > 0,
        r is None && selected_id(before, index) > 0 ==> forall|j: int|
            0 <= j < after.len() ==> (#[trigger] after[j]).internal_id != selected_id(
                before,
                index,
            ),
{
}

// ---- new items ----------------------------------------------------------

/// The parent of an item added while this row is selected: a folder takes it in, beside a
/// snippet it becomes a sibling. Nothing is added to the history: such an item goes to the top.
pub open spec fn new_item_parent(row: TreeRow) -> i64 {
    if row.internal_id > 0 && is_folder_row(row) {
        row.internal_id as i64
    } else if row.internal_id > 0 && row.parent_internal_id > 0 {
        row.parent_internal_id as i64
    } else {
        0
    }
}

/// The parent of an item added while this row is selected.
pub fn parent_for_new_item(row: &TreeItem) -> (r: i64)
    ensures
        r == new_item_parent(row@),
{
    let is_folder = folder_row(row);
    if is_folder && row.internal_id > 0 {
        return row.internal_id as i64;
    }
    if !is_folder && row.internal_id > 0 && row.parent_internal_id > 0 {
        return row.parent_internal_id as i64;
    }
    0
}

/// The parent of an item added now; the top level where nothing is selected.
pub fn current_parent_id(rows: &[TreeItem], index: i32) -> (r: i64)
    ensures
        r == (match row_at(row_views(rows@), index as int) {
            Some(row) => new_item_parent(row),
            None => 0,
        }),
{
    match find_row(rows, index) {
        Some(row) => parent_for_new_item(row),
        None => 0,
    }
}

// ---- opening and closing ------------------------------------------------

/// Where the run of rows below the row at `start` ends.
pub open spec fn subtree_end(rows: Seq<TreeRow>, start: int, at: int) -> int
    decreases rows.len() - at,
{
    if at >= rows.len() || rows[at].depth <= rows[start].depth {
        at
    } else {
        subtree_end(rows, start, at + 1)
    }
}

/// Does the row count: a folder no more than `levels` below? A negative number sets no limit.
pub open spec fn folder_within(row: TreeRow, root_depth: int, levels: int) -> bool {
    is_folder_row(row) && (levels < 0 || row.depth - root_depth <= levels)
}

/// The ids of the folders in `rows[from..to]` that count.
pub open spec fn folder_ids(
    rows: Seq<TreeRow>,
    from: int,
    to: int,
    root_depth: int,
    levels: int,
) -> Seq<i64>
    decreases to - from,
{
    if from >= to {
        Seq::empty()
    } else {
        let earlier = folder_ids(rows, from, to - 1, root_depth, levels);
        if folder_within(rows[to - 1], root_depth, levels) {
            earlier.push(rows[to - 1].internal_id as i64)
        } else {
            earlier
        }
    }
}

/// The ids of the folders shown below the row with id `root_id`, down to `levels` below it; a
/// negative number sets no limit. Nothing where there is no such row.
pub fn subtree_folder_ids(rows: &[TreeItem], root_id: i32, levels: i32) -> (r: Option<Vec<i64>>)
    ensures
        match r {
            Some(ids) => exists|start: int|
                #![trigger is_place_of(row_views(rows@), root_id, Some(start))]
                is_place_of(row_views(rows@), root_id, Some(start)) && ids@ == folder_ids(
                    row_views(rows@),
                    start + 1,
                    subtree_end(row_views(rows@), start, start + 1),
                    row_views(rows@)[start].depth as int,
                    levels as int,
                ),
            None => is_place_of(row_views(rows@), root_id, None),
        },
{
    let ghost views = row_views(rows@);
    let start = match index_of_id(rows, root_id) {
        Some(i) => i,
        None => {
            return None;
        },
    };
    assert(views[start as int] == rows@[start as int]@);
    let root_depth: i32 = rows[start].depth;
    let mut out: Vec<i64> = Vec::new();
    let mut i: usize = start + 1;
    while i < rows.len()
        invariant_except_break
            start < i <= rows@.len(),
            subtree_end(views, start as int, start + 1) == subtree_end(
                views,
                start as int,
                i as int,
            ),
        invariant
            start < rows@.len(),
            views == row_views(rows@),
            root_depth == views[start as int].depth,
            out@ == folder_ids(views, start + 1, i as int, root_depth as int, levels as int),
        ensures
            i == subtree_end(views, start as int, start + 1),
        decreases rows@.len() - i,
    {
        let row = &rows[i];
        assert(views[i as int] == row@);
        if row.depth <= root_depth {
            break;
        }
        if folder_row(row) && (levels < 0 || row.depth as i64 - root_depth as i64
            <= levels as i64) {
            out.push(row.internal_id as i64);
        }
        i = i + 1;
    }
    assert(is_place_of(views, root_id, Some(start as int)));
    Some(out)
}

/// The closed folders after the user opened or closed one.
pub open spec fn toggled(collapsed: Set<i64>, id: i64, expand: bool) -> Set<i64> {
    if expand {
        collapsed.remove(id)
    } else {
        collapsed.insert(id)
    }
}

/// Opens or closes one folder.
pub fn set_expanded(collapsed: &mut HashSet<i64>, id: i32, expand: bool)
    ensures
        final(collapsed)@ == toggled(old(collapsed)@, id as i64, expand),
{
    if expand {
        let _ = collapsed.remove(&(id as i64));
    } else {
        let _ = collapsed.insert(id as i64);
    }
}

/// The closed folders after the user opened or closed one with all that is below.
pub open spec fn toggled_all(collapsed: Set<i64>, id: i64, below: Seq<i64>, expand: bool) -> Set<
    i64,
> {
    if expand {
        collapsed.remove(id).difference(below.to_set())
    } else {
        collapsed.insert(id).union(below.to_set())
    }
}

/// Opens or closes a folder together with folders below it.
pub fn set_expanded_all(collapsed: &mut HashSet<i64>, id: i32, below: &[i64], expand: bool)
    ensures
        final(collapsed)@ == toggled_all(old(collapsed)@, id as i64, below@, expand),
{
    let ghost before = collapsed@;
    set_expanded(collapsed, id, expand);
    let ghost first = collapsed@;
    let mut i: usize = 0;
    assert(collapsed@ =~= (if expand {
        first.difference(below@.take(0).to_set())
    } else {
        first.union(below@.take(0).to_set())
    }));
    while i < below.len()
        invariant
            i <= below@.len(),
            collapsed@ == (if expand {
                first.difference(below@.take(i as int).to_set())
            } else {
                first.union(below@.take(i as int).to_set())
            }),
        decreases below@.len() - i,
    {
        let ghost earlier = below@.take(i as int);
        let ghost upto = below@.take(i + 1);
        if expand {
            let _ = collapsed.remove(&below[i]);
        } else {
            let _ = collapsed.insert(below[i]);
        }
        proof {
            assert(upto =~= earlier.push(below@[i as int]));
            assert forall|x: i64| #[trigger] upto.to_set().contains(x) <==> (
            earlier.to_set().contains(x) || x == below@[i as int]) by {
                if earlier.contains(x) {
                    let k = choose|k: int| 0 <= k < earlier.len() && earlier[k] == x;
                    assert(upto[k] == x);
                }
                assert(upto[i as int] == below@[i as int]);
            }
            assert(collapsed@ =~= (if expand {
                first.difference(upto.to_set())
            } else {
                first.union(upto.to_set())
            }));
        }
        i = i + 1;
    }
    assert(below@.take(i as int) =~= below@);
    assert(collapsed@ =~= toggled_all(before, id as i64, below@, expand));
}

/// The ids of the items.
pub open spec fn ids_of(items: Seq<ItemView>) -> Set<i64> {
    Set::new(|id: i64| exists|i: int| 0 <= i < items.len() && (#[trigger] items[i]).id == Some(id))
}

/// The closed folders that are still there: those of stored items, and the history.
pub open spec fn live_collapsed(collapsed: Set<i64>, items: Seq<ItemView>) -> Set<i64> {
    collapsed.intersect(ids_of(items).insert(HISTORY_FOLDER_ID))
}

/// Forgets closed folders that are gone. Ids are used again, and a new folder must not start
/// out closed because an old one was.
pub fn prune_collapsed(collapsed: &HashSet<i64>, items: &[Item]) -> (r: HashSet<i64>)
    ensures
        r@ == live_collapsed(collapsed@, item_views(items@)),
{
    let ghost views = item_views(items@);
    let mut out: HashSet<i64> = HashSet::new();
    if collapsed.contains(&HISTORY_FOLDER_ID) {
        let _ = out.insert(HISTORY_FOLDER_ID);
    }
    let mut i: usize = 0;
    assert(out@ =~= live_collapsed(collapsed@, views.take(0)));
    while i < items.len()
        invariant
            i <= items@.len(),
            views == item_views(items@),
            out@ == live_collapsed(collapsed@, views.take(i as int)),
        decreases items@.len() - i,
    {
        let ghost earlier = views.take(i as int);
        let ghost upto = views.take(i + 1);
        assert(views[i as int] == items@[i as int]@);
        if let Some(id) = items[i].id {
            if collapsed.contains(&id) {
                let _ = out.insert(id);
            }
        }
        proof {
            assert(upto =~= earlier.push(views[i as int]));
            assert forall|id: i64| #[trigger] ids_of(upto).contains(id) <==> (ids_of(
                earlier,
            ).contains(id) || views[i as int].id == Some(id)) by {
                if ids_of(earlier).contains(id) {
                    let k = choose|k: int|
                        0 <= k < earlier.len() && (#[trigger] earlier[k]).id == Some(id);
                    assert(upto[k] == earlier[k]);
                }
                assert(upto[i as int] == views[i as int]);
                if ids_of(upto).contains(id) {
                    let k = choose|k: int| 0 <= k < upto.len() && (#[trigger] upto[k]).id == Some(id);
                    if k < i {
                        assert(earlier[k] == upto[k]);
                    }
                }
            }
            assert(out@ =~= live_collapsed(collapsed@, upto));
        }
        i = i + 1;
    }
    assert(views.take(i as int) =~= views);
    out
}

// ---- building the rows --------------------------------------------------

/// The rows to show now, and how many stored rows could not be read and are left out. Closed
/// folders that are gone are forgotten.
pub fn build_refresh_rows(
    db: &Database,
    history: &[HistoryEntry],
    position: HistoryPosition,
    history_folder_label: &str,
    collapsed: &mut HashSet<i64>,
) -> (r: (Vec<TreeItem>, usize))
    requires
        db.wf(),
        listing(db@).len() < i32::MAX,
        history@.len() <= i32::MAX - 2,
    ensures
        ({
            let items = readable(db@, listing(db@).len() as int);
            &&& final(collapsed)@ == live_collapsed(old(collapsed)@, items)
            &&& row_views(r.0@) == tree_rows(
                items,
                entry_views(history@),
                position,
                history_folder_label@,
                live_collapsed(old(collapsed)@, items),
            )
            &&& r.1 == listing(db@).len() - items.len()
        }),
{
    proof {
        crate::tree_laws::lenient_load_is_complete(db@, listing(db@).len() as int);
    }
    match db.load_all_lenient() {
        Ok((items, skipped)) => {
            let live = prune_collapsed(collapsed, &items);
            let rows = build_tree_items_with_history(
                &items,
                history,
                position,
                history_folder_label,
                &live,
            );
            *collapsed = live;
            (rows, skipped)
        },
        Err(_) => (Vec::new(), 0),
    }
}

// ---- pasting a row ------------------------------------------------------

/// What a stored item reads as, if it is there and readable.
pub open spec fn readable_item(t: crate::table::Table, id: i64) -> Option<ItemView> {
    if t.dom().contains(id) && decode(id, t[id]) is Ok {
        Some(decode(id, t[id])->Ok_0)
    } else {
        None
    }
}

/// The text that a row pastes. An entry of the history pastes what its row holds: looking it up
/// by its number again could find what was copied since.
pub open spec fn pasted_text(row: TreeRow, t: crate::table::Table) -> Option<Seq<char>> {
    let text = if history_index(row.internal_id as int) is Some {
        row.user_data
    } else if is_folder_row(row) || row.internal_id <= 0 {
        Seq::empty()
    } else {
        match readable_item(t, row.internal_id as i64) {
            Some(item) => item.body_plain,
            None => Seq::empty(),
        }
    };
    if text.len() == 0 {
        None
    } else {
        Some(text)
    }
}

fn unless_empty(text: String) -> (r: Option<String>)
    ensures
        text_view(r) == (if text@.len() == 0 {
            None
        } else {
            Some(text@)
        }),
{
    if crate::text::same_text(text.as_str(), "") {
        proof {
            reveal_strlit("");
        }
        None
    } else {
        proof {
            reveal_strlit("");
            if text@.len() == 0 {
                assert(text@ =~= ""@);
            }
        }
        Some(text)
    }
}

/// The text that the selected row pastes; nothing for a folder or an empty text.
pub fn activated_row_text(rows: &[TreeItem], index: i32, db: &Database) -> (r: Option<String>)
    requires
        db.wf(),
    ensures
        text_view(r) == (match row_at(row_views(rows@), index as int) {
            Some(row) => pasted_text(row, db@),
            None => None,
        }),
{
    let row = match find_row(rows, index) {
        Some(row) => row,
        None => {
            return None;
        },
    };
    if history_index_from_item_id(row.internal_id).is_some() {
        return unless_empty(row.user_data.clone());
    }
    if folder_row(row) || row.internal_id <= 0 {
        return None;
    }
    match db.get(row.internal_id as i64) {
        Ok(Some(item)) => unless_empty(item.body_plain),
        _ => None,
    }
}

// ---- deleting -----------------------------------------------------------

/// What pressing Delete does.
pub enum DeleteStep {
    /// Nothing is selected that could be deleted.
    Nothing,
    /// The item goes at once.
    Remove(i64),
    /// A folder takes everything in it along and there is no way back, so the user is asked
    /// first. The text is the folder's title.
    Ask(i64, String),
}

/// What pressing Delete does with the selected row.
pub fn delete_step(rows: &[TreeItem], index: i32, db: &Database) -> (r: DeleteStep)
    requires
        db.wf(),
    ensures
        ({
            let id = selected_id(row_views(rows@), index as int);
            let item = readable_item(db@, id as i64);
            match r {
                DeleteStep::Nothing => id <= 0 || item is None,
                DeleteStep::Remove(gone) => id > 0 && gone == id && item is Some
                    && item->0.kind != ItemKind::Folder,
                DeleteStep::Ask(gone, title) => id > 0 && gone == id && item is Some
                    && item->0.kind == ItemKind::Folder && title@ == item->0.title,
            }
        }),
{
    let id = match selected_row_id(rows, index) {
        Some(id) => id,
        None => {
            return DeleteStep::Nothing;
        },
    };
    match db.get(id) {
        Ok(Some(item)) => if item.is_folder() {
            DeleteStep::Ask(id, item.title)
        } else {
            DeleteStep::Remove(id)
        },
        _ => DeleteStep::Nothing,
    }
}

/// The question before a folder is deleted.
pub fn delete_question(warning: &str, title: &str) -> (r: String)
    ensures
        r@ == warning@ + "\n\n"@ + title@,
{
    let head = crate::text::join(warning, "\n\n");
    crate::text::join(head.as_str(), title)
}

} // verus!
