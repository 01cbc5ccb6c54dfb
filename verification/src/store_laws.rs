//! What the stored items are for: what is put in is there, where it was put, until it is
//! changed or taken out, and nothing else is touched.
use crate::database::{
    has_room_under, inserted, is_table_of_raw, loaded, raw_ids_fit, readable, recorded, removed,
    reparented, row_of_raw, shifted, updated, version_accepted, version_refused, RawRow,
};
use crate::error::{DataError, StorageFault};
use crate::item::{kind_code, kind_of_code, ItemKind, ItemView, Timestamp};
use crate::table::{
    append_slot, chain, chain_prefix, chain_splits, children, children_distinct, decode, has_room,
    is_append_slot, is_below, is_last_child, is_listing, is_under, listing, moved, next_row_id,
    position_after, row_before, sibling_before, RowView, Table,
};
use crate::tree_laws::{children_exist, moving_trades_places, next_places_exist};
use vstd::prelude::*;

verus! {

// ---- kinds and versions -------------------------------------------------

/// Law: the numbers of the kinds, as they are stored.
pub proof fn numbers_of_the_kinds(v: int)
    ensures
        kind_code(ItemKind::Folder) == 0,
        kind_code(ItemKind::Plain) == 1,
        kind_code(ItemKind::RichText) == 2,
        kind_code(ItemKind::Clip) == 3,
        kind_of_code(0) == Some(ItemKind::Folder),
        kind_of_code(1) == Some(ItemKind::Plain),
        kind_of_code(2) == Some(ItemKind::RichText),
        kind_of_code(3) == Some(ItemKind::Clip),
        v < 0 || v > 3 ==> kind_of_code(v) is None,
{
}

/// Law: a file is accepted exactly if it records no version, or one that is not negative and
/// not ahead of this build. The largest version of 32 bits accepts every file.
pub proof fn files_of_later_builds_are_refused(version: Option<i64>, expected: u32)
    requires
        expected < 0xffff_ffff,
    ensures
        version_accepted(version, expected) <==> (version matches Some(v) ==> 0 <= v <= expected),
        version matches Some(v) && 0 <= v <= 0xffff_ffff ==> recorded(version) == Some(
            (version->0) as u32,
        ),
        version is None ==> recorded(version) is None,
        version is Some && !(0 <= version->0 <= 0xffff_ffff) ==> recorded(version) == Some(
            0xffff_ffffu32,
        ),
{
}

// ---- reading a row ------------------------------------------------------

/// Law: a row is read exactly if every column holds a value of its type, the position fits 32
/// bits, both times are times, and its kind is one of the four. The item has what the row has;
/// an empty rich text is none.
pub proof fn what_a_row_is_read_as(id: i64, row: RowView)
    ensures
        decode(id, row) is Ok <==> {
            &&& !row.misread.parent && !row.misread.kind && !row.misread.title
                && !row.misread.body_plain && !row.misread.body_rtf && !row.misread.comment
                && !row.misread.position
            &&& -0x8000_0000 <= row.order_index <= 0x7fff_ffff
            &&& row.created_at is Some
            &&& row.updated_at is Some
            &&& 0 <= row.type_int <= 3
        },
        decode(id, row) matches Ok(item) ==> {
            &&& item.id == Some(id)
            &&& item.parent_id == row.parent_id
            &&& item.title == row.title
            &&& item.body_plain == row.body_plain
            &&& item.comment == row.comment
            &&& item.order_index == row.order_index
            &&& Some(item.created_at) == row.created_at
            &&& Some(item.updated_at) == row.updated_at
            &&& row.body_rtf.len() > 0 ==> item.body_rtf == Some(row.body_rtf)
            &&& row.body_rtf.len() == 0 ==> item.body_rtf is None
            &&& item.kind == ItemKind::Folder <==> row.type_int == 0
            &&& item.kind == ItemKind::Plain <==> row.type_int == 1
            &&& item.kind == ItemKind::RichText <==> row.type_int == 2
            &&& item.kind == ItemKind::Clip <==> row.type_int == 3
        },
{
}

/// Law: what makes a row unreadable is reported: a value of another type by the number of its
/// column, the first of them if there are several, else a position that does not fit, else a
/// time that is none, else an unknown kind.
pub proof fn why_a_row_is_not_read(id: i64, row: RowView)
    ensures
        ({
            let m = row.misread;
            let e = decode(id, row);
            let typed = !m.parent && !m.kind && !m.title && !m.body_plain && !m.body_rtf
                && !m.comment && !m.position;
            let fits = -0x8000_0000 <= row.order_index <= 0x7fff_ffff;
            &&& m.parent ==> e == Err::<ItemView, StorageFault>(StorageFault::WrongType(1))
            &&& !m.parent && m.kind ==> e == Err::<ItemView, StorageFault>(
                StorageFault::WrongType(2),
            )
            &&& !m.parent && !m.kind && m.title ==> e == Err::<ItemView, StorageFault>(
                StorageFault::WrongType(3),
            )
            &&& !m.parent && !m.kind && !m.title && m.body_plain ==> e == Err::<
                ItemView,
                StorageFault,
            >(StorageFault::WrongType(4))
            &&& !m.parent && !m.kind && !m.title && !m.body_plain && m.body_rtf ==> e == Err::<
                ItemView,
                StorageFault,
            >(StorageFault::WrongType(5))
            &&& !m.parent && !m.kind && !m.title && !m.body_plain && !m.body_rtf && m.comment
                ==> e == Err::<ItemView, StorageFault>(StorageFault::WrongType(6))
            &&& !m.parent && !m.kind && !m.title && !m.body_plain && !m.body_rtf && !m.comment
                && m.position ==> e == Err::<ItemView, StorageFault>(StorageFault::WrongType(7))
            &&& typed && !fits ==> e == Err::<ItemView, StorageFault>(
                StorageFault::OrderOutOfRange(row.order_index),
            )
            &&& typed && fits && row.created_at is None ==> e == Err::<ItemView, StorageFault>(
                StorageFault::BadCreatedAt,
            )
            &&& typed && fits && row.created_at is Some && row.updated_at is None ==> e == Err::<
                ItemView,
                StorageFault,
            >(StorageFault::BadUpdatedAt)
            &&& typed && fits && row.created_at is Some && row.updated_at is Some && !(0
                <= row.type_int <= 3) ==> e == Err::<ItemView, StorageFault>(
                StorageFault::UnknownKind(row.type_int),
            )
        }),
{
}

// ---- inserting ----------------------------------------------------------

/// Law: an insert under the root or under a row that is there stores the item in a new row,
/// whose id is above all others, with everything that the item has, and leaves every other row
/// alone. An item that names its position gets it, and the insert succeeds.
pub proof fn what_an_insert_stores(
    before: Table,
    item: ItemView,
    now: Timestamp,
    after: Table,
    item_after: ItemView,
    r: Result<(), DataError>,
)
    requires
        before.dom().finite(),
        forall|k: i64| #[trigger] before.dom().contains(k) ==> k < 0x7fff_ffff_ffff_ffff,
        item.parent_id == 0 || (item.parent_id > 0 && before.dom().contains(item.parent_id)),
        inserted(false, before, item, now, after, item_after, r),
    ensures
        exists|id: i64|
            {
                &&& forall|k: i64| #[trigger] before.dom().contains(k) ==> k < id
                &&& before.dom().len() == 0 ==> id == 1
                &&& before.dom().len() > 0 ==> before.dom().contains((id - 1) as i64)
                &&& after.dom() == before.dom().insert(id)
                &&& forall|k: i64| #[trigger] before.dom().contains(k) ==> after[k] == before[k]
                &&& (#[trigger] after[id]).title == item.title
                &&& after[id].body_plain == item.body_plain
                &&& after[id].comment == item.comment
                &&& item.body_rtf is Some ==> after[id].body_rtf == item.body_rtf->0
                &&& item.body_rtf is None ==> after[id].body_rtf.len() == 0
                &&& after[id].parent_id == item.parent_id
                &&& after[id].created_at == Some(now)
                &&& after[id].updated_at == Some(now)
                &&& after[id].type_int == (match item.kind {
                    ItemKind::Folder => 0,
                    ItemKind::Plain => 1,
                    ItemKind::RichText => 2,
                    ItemKind::Clip => 3int,
                })
                &&& !after[id].misread.parent && !after[id].misread.kind
                    && !after[id].misread.title && !after[id].misread.body_plain
                    && !after[id].misread.body_rtf && !after[id].misread.comment
                &&& item.order_index >= 0 ==> r is Ok && after[id].order_index == item.order_index
                    && !after[id].misread.position
                &&& r is Ok ==> !after[id].misread.position && item_after == (ItemView {
                    id: Some(id),
                    order_index: after[id].order_index as i32,
                    created_at: now,
                    updated_at: now,
                    ..item
                }) && item_after.order_index == after[id].order_index
                &&& r is Err ==> item_after == item
                &&& r is Err && after[id].misread.position ==> r == Err::<(), DataError>(
                    DataError::Sqlite(StorageFault::WrongType(7)),
                )
                &&& r is Err && !after[id].misread.position ==> !(-0x8000_0000
                    <= after[id].order_index <= 0x7fff_ffff) && r == Err::<(), DataError>(
                    DataError::Sqlite(StorageFault::OrderOutOfRange(after[id].order_index)),
                )
            },
{
    next_places_exist(before, item.parent_id);
    let id = next_row_id(before) as i64;
    assert(after[id].title == item.title);
    if before.dom().len() == 0 {
        assert forall|k: i64| !(#[trigger] before.dom().contains(k)) by {
            if before.dom().contains(k) {
                assert(before.dom().remove(k).len() < before.dom().len());
            }
        }
    }
    if before.dom().len() > 0 {
        if !(exists|k: i64| #[trigger] before.dom().contains(k)) {
            assert(before.dom() =~= Set::<i64>::empty());
        }
    }
    assert(after.dom() =~= before.dom().insert(id));
}

/// Law: an item that names no position goes behind its siblings: one behind the largest of
/// their positions, at 0 if there are none. This holds where their positions are numbers, and
/// succeeds as long as the new one fits 32 bits.
pub proof fn an_appended_item_goes_last(
    before: Table,
    item: ItemView,
    now: Timestamp,
    after: Table,
    item_after: ItemView,
    r: Result<(), DataError>,
    k: i64,
)
    requires
        before.dom().finite(),
        forall|id: i64| #[trigger] before.dom().contains(id) ==> id < 0x7fff_ffff_ffff_ffff,
        item.parent_id == 0 || (item.parent_id > 0 && before.dom().contains(item.parent_id)),
        inserted(false, before, item, now, after, item_after, r),
        item.order_index < 0,
        forall|id: i64| #[trigger]
            before.dom().contains(id) && !before[id].misread.parent && before[id].parent_id
                == item.parent_id ==> !before[id].misread.position && before[id].order_index
                < 0x7fff_ffff,
    ensures
        before.dom().contains(k) && !before[k].misread.parent && before[k].parent_id
            == item.parent_id && before[k].order_index >= -0x8000_0000 ==> r is Ok
            && item_after.order_index > before[k].order_index && exists|id: i64| #[trigger]
            before.dom().contains(id) && !before[id].misread.parent && before[id].parent_id
                == item.parent_id && before[id].order_index == item_after.order_index - 1,
        (forall|id: i64| #[trigger]
            before.dom().contains(id) ==> before[id].misread.parent || before[id].parent_id
                != item.parent_id) ==> r is Ok && item_after.order_index == 0,
{
    let parent = item.parent_id;
    next_places_exist(before, parent);
    let slot = append_slot(before, parent);
    assert(is_append_slot(before, parent, slot));
    if exists|j: i64| #[trigger]
        is_last_child(before, parent, j) && position_after(before[j]) == slot {
        let j = choose|j: i64| #[trigger]
            is_last_child(before, parent, j) && position_after(before[j]) == slot;
        assert(before.dom().contains(j) && is_under(before[j], parent));
        if before.dom().contains(k) && is_under(before[k], parent) && k != j {
            assert(sibling_before(before, k, j));
        }
    }
}

/// Law: an insert under a row that is not there is refused, and changes nothing.
pub proof fn an_insert_under_nothing_is_refused(
    read_only: bool,
    before: Table,
    item: ItemView,
    now: Timestamp,
    after: Table,
    item_after: ItemView,
    r: Result<(), DataError>,
)
    requires
        inserted(read_only, before, item, now, after, item_after, r),
        item.parent_id < 0 || (item.parent_id > 0 && !before.dom().contains(item.parent_id)),
    ensures
        r == Err::<(), DataError>(
            DataError::InvalidParent { id: 0, parent_id: item.parent_id },
        ),
        after == before,
        item_after == item,
{
}

// ---- below --------------------------------------------------------------

/// Law: a row is below another one exactly if its parent is that one or is below it.
pub proof fn below_by_one_step(t: Table, x: i64, a: i64)
    ensures
        is_below(t, x, a) <==> t.dom().contains(x) && !t[x].misread.parent && (t[x].parent_id == a
            || is_below(t, t[x].parent_id, a)),
{
    assert(chain(t, x, 0) == Some(x));
    let p = t[x].parent_id;
    if is_below(t, x, a) {
        let k = choose|k: nat| k > 0 && #[trigger] chain(t, x, k) == Some(a);
        chain_prefix(t, x, 1, k);
        assert(chain(t, x, 1) == Some(p));
        chain_splits(t, x, 1, (k - 1) as nat, p);
        assert(1 + (k - 1) as nat == k);
        if k > 1 {
            assert(chain(t, p, (k - 1) as nat) == Some(a));
        } else {
            assert(chain(t, p, 0) == Some(p));
        }
    }
    if t.dom().contains(x) && !t[x].misread.parent {
        assert(chain(t, x, 1) == Some(p));
        if p == a {
            assert(is_below(t, x, a));
        } else if is_below(t, p, a) {
            let k = choose|k: nat| k > 0 && #[trigger] chain(t, p, k) == Some(a);
            chain_splits(t, x, 1, k, p);
            assert(chain(t, x, 1 + k) == Some(a));
        }
    }
}

// ---- updating -----------------------------------------------------------

/// Law: an update succeeds exactly if the item has an id, there is a row of that id, and its
/// parent is the root or a row that is neither that row nor below it. It stores everything
/// that the item has but for the creation time, which stays, and leaves every other row alone.
/// One that fails changes nothing.
pub proof fn what_an_update_stores(
    before: Table,
    item: ItemView,
    now: Timestamp,
    after: Table,
    r: Result<(), DataError>,
)
    requires
        updated(false, before, item, now, after, r),
    ensures
        r is Ok <==> {
            &&& item.id is Some
            &&& before.dom().contains(item.id->0)
            &&& item.parent_id == 0 || (item.parent_id > 0 && item.parent_id != item.id->0
                && before.dom().contains(item.parent_id) && !is_below(
                before,
                item.parent_id,
                item.id->0,
            ))
        },
        item.id is None ==> r == Err::<(), DataError>(DataError::MissingId),
        item.id is Some && !(item.parent_id == 0 || (item.parent_id > 0 && item.parent_id
            != item.id->0 && before.dom().contains(item.parent_id) && !is_below(
            before,
            item.parent_id,
            item.id->0,
        ))) ==> r == Err::<(), DataError>(
            DataError::InvalidParent { id: item.id->0, parent_id: item.parent_id },
        ),
        item.id is Some && item.parent_id == 0 && !before.dom().contains(item.id->0) ==> r == Err::<
            (),
            DataError,
        >(DataError::ItemNotFound(item.id->0)),
        r is Err ==> after == before,
        r is Ok ==> {
            let id = item.id->0;
            &&& after.dom() == before.dom()
            &&& forall|k: i64| k != id && #[trigger] before.dom().contains(k) ==> after[k]
                == before[k]
            &&& after[id].title == item.title
            &&& after[id].body_plain == item.body_plain
            &&& after[id].comment == item.comment
            &&& item.body_rtf is Some ==> after[id].body_rtf == item.body_rtf->0
            &&& item.body_rtf is None ==> after[id].body_rtf.len() == 0
            &&& after[id].parent_id == item.parent_id
            &&& after[id].order_index == item.order_index
            &&& after[id].created_at == before[id].created_at
            &&& after[id].updated_at == Some(now)
            &&& after[id].type_int == (match item.kind {
                ItemKind::Folder => 0,
                ItemKind::Plain => 1,
                ItemKind::RichText => 2,
                ItemKind::Clip => 3int,
            })
            &&& !after[id].misread.parent && !after[id].misread.kind && !after[id].misread.title
                && !after[id].misread.body_plain && !after[id].misread.body_rtf
                && !after[id].misread.comment && !after[id].misread.position
        },
{
    if r is Ok {
        assert(after.dom() =~= before.dom());
    }
}

/// Law: moving a row under another one succeeds exactly if the row is there and the other one
/// is the root or a row that is neither the row nor below it. Only the parent and the time of
/// the change are new, of this row alone.
pub proof fn what_a_new_parent_changes(
    before: Table,
    id: i64,
    parent: i64,
    now: Timestamp,
    after: Table,
    r: Result<(), DataError>,
)
    requires
        reparented(false, before, id, parent, now, after, r),
    ensures
        r is Ok <==> {
            &&& before.dom().contains(id)
            &&& parent == 0 || (parent > 0 && parent != id && before.dom().contains(parent)
                && !is_below(before, parent, id))
        },
        !before.dom().contains(id) && parent == 0 ==> r == Err::<(), DataError>(
            DataError::ItemNotFound(id),
        ),
        before.dom().contains(id) && r is Err ==> r == Err::<(), DataError>(
            DataError::InvalidParent { id, parent_id: parent },
        ),
        r is Err ==> after == before,
        r is Ok ==> {
            &&& after.dom() == before.dom()
            &&& forall|k: i64| k != id && #[trigger] before.dom().contains(k) ==> after[k]
                == before[k]
            &&& after[id].parent_id == parent
            &&& !after[id].misread.parent
            &&& after[id].updated_at == Some(now)
            &&& after[id].title == before[id].title
            &&& after[id].body_plain == before[id].body_plain
            &&& after[id].body_rtf == before[id].body_rtf
            &&& after[id].comment == before[id].comment
            &&& after[id].type_int == before[id].type_int
            &&& after[id].order_index == before[id].order_index
            &&& after[id].misread.position == before[id].misread.position
            &&& after[id].created_at == before[id].created_at
        },
{
    if r is Ok {
        assert(after.dom() =~= before.dom());
    }
}

// ---- deleting -----------------------------------------------------------

/// Law: deleting a row takes it out, and with it every row whose parent goes, and no other.
/// What stays is as it was. Deleting a row that is not there changes nothing.
pub proof fn what_a_delete_takes_out(
    before: Table,
    id: i64,
    after: Table,
    r: Result<(), DataError>,
    x: i64,
)
    requires
        removed(false, before, id, after, r),
    ensures
        r is Ok,
        !before.dom().contains(id) ==> after == before,
        before.dom().contains(id) ==> !after.dom().contains(id),
        after.dom().contains(x) ==> before.dom().contains(x) && after[x] == before[x],
        before.dom().contains(id) && before.dom().contains(x) && x != id ==> (
        !after.dom().contains(x) <==> !before[x].misread.parent && before.dom().contains(
            before[x].parent_id,
        ) && !after.dom().contains(before[x].parent_id)),
{
    below_by_one_step(before, x, id);
    if !before.dom().contains(id) {
        assert(after =~= before);
    }
    if before.dom().contains(id) && before.dom().contains(x) && x != id
        && !before[x].misread.parent {
        let p = before[x].parent_id;
        below_by_one_step(before, p, id);
    }
}

// ---- order --------------------------------------------------------------

/// Law: siblings stand in the order of their positions, those of one position in the order of
/// their ids; a load goes by the parent before that.
pub proof fn how_rows_are_ordered(t: Table, a: i64, b: i64)
    requires
        !t[a].misread.position,
        !t[b].misread.position,
        !t[a].misread.parent,
        !t[b].misread.parent,
    ensures
        sibling_before(t, a, b) <==> t[a].order_index < t[b].order_index || (t[a].order_index
            == t[b].order_index && a < b),
        row_before(t, a, b) <==> t[a].parent_id < t[b].parent_id || (t[a].parent_id
            == t[b].parent_id && (t[a].order_index < t[b].order_index || (t[a].order_index
            == t[b].order_index && a < b))),
{
}

/// Law: the children of a row are all rows that name it as their parent, each once, in order.
pub proof fn who_the_children_are(t: Table, parent: i64, x: i64, i: int, j: int)
    requires
        t.dom().finite(),
    ensures
        children(t, parent).contains(x) <==> t.dom().contains(x) && !t[x].misread.parent
            && t[x].parent_id == parent,
        0 <= i < j < children(t, parent).len() ==> children(t, parent)[i] != children(
            t,
            parent,
        )[j],
        0 <= i < j < children(t, parent).len() ==> {
            let a = children(t, parent)[i];
            let b = children(t, parent)[j];
            !t[a].misread.position && !t[b].misread.position ==> t[a].order_index
                < t[b].order_index || (t[a].order_index == t[b].order_index && a < b)
        },
{
    children_exist(t, parent);
    let s = children(t, parent);
    children_distinct(t, parent, s);
    if 0 <= i < j < s.len() {
        assert(sibling_before(t, s[i], s[j]));
    }
}

/// Law: a load lists every row once, by parent, then by position, then by id.
pub proof fn what_a_load_lists(t: Table, s: Seq<i64>, x: i64, i: int, j: int)
    requires
        is_listing(t, s),
    ensures
        s == listing(t),
        s.contains(x) <==> t.dom().contains(x),
        0 <= i < j < s.len() ==> s[i] != s[j],
        0 <= i < j < s.len() && !t[s[i]].misread.parent && !t[s[j]].misread.parent
            && !t[s[i]].misread.position && !t[s[j]].misread.position ==> t[s[i]].parent_id
            < t[s[j]].parent_id || (t[s[i]].parent_id == t[s[j]].parent_id && (t[s[i]].order_index
            < t[s[j]].order_index || (t[s[i]].order_index == t[s[j]].order_index && s[i]
            < s[j]))),
{
    crate::table::listing_is_unique(t, s);
    if 0 <= i < j < s.len() {
        assert(row_before(t, s[i], s[j]));
    }
}

/// Law: the lenient load gives every row that can be read, in load order, as the item that it
/// is read as, and leaves out only those that cannot.
pub proof fn what_a_lenient_load_gives(t: Table, n: int)
    requires
        0 <= n <= listing(t).len(),
    ensures
        readable(t, n) == listing(t).take(n).filter(|id: i64| decode(id, t[id]) is Ok).map_values(
            |id: i64| decode(id, t[id])->Ok_0,
        ),
        0 <= n < listing(t).len() ==> loaded(t, n) == decode(listing(t)[n], t[listing(t)[n]]),
    decreases n,
{
    reveal(Seq::filter);
    let keep = |id: i64| decode(id, t[id]) is Ok;
    let show = |id: i64| decode(id, t[id])->Ok_0;
    let upto = listing(t).take(n);
    if n == 0 {
        assert(upto =~= Seq::<i64>::empty());
        assert(readable(t, n) =~= upto.filter(keep).map_values(show));
    } else {
        what_a_lenient_load_gives(t, n - 1);
        assert(upto.drop_last() =~= listing(t).take(n - 1));
        assert(upto.last() == listing(t)[n - 1]);
        assert(readable(t, n) =~= upto.filter(keep).map_values(show));
    }
}

// ---- moving -------------------------------------------------------------

/// Law: moving a row up puts it right before the sibling that stood before it, moving it down
/// right behind the one that stood behind it, and the others keep their places. The first one
/// stays when it is moved up, the last one when it is moved down. Nothing but positions
/// changes, and those of its siblings only.
pub proof fn what_moving_changes(t: Table, id: i64, up: bool, p: int, x: i64)
    requires
        t.dom().finite(),
        t.dom().contains(id),
        !t[id].misread.parent,
        children(t, t[id].parent_id).len() <= i64::MAX,
        0 <= p < children(t, t[id].parent_id).len(),
        children(t, t[id].parent_id)[p] == id,
    ensures
        ({
            let s = children(t, t[id].parent_id);
            let after = moved(t, id, up);
            let now = children(after, t[id].parent_id);
            &&& after.dom() == t.dom()
            &&& up && p > 0 ==> now.len() == s.len() && now[p - 1] == id && now[p] == s[p - 1] && (
            forall|k: int| 0 <= k < s.len() && k != p && k != p - 1 ==> now[k] == s[k])
            &&& !up && p + 1 < s.len() ==> now.len() == s.len() && now[p + 1] == id && now[p]
                == s[p + 1] && (forall|k: int|
                0 <= k < s.len() && k != p && k != p + 1 ==> now[k] == s[k])
            &&& up && p == 0 ==> after == t
            &&& !up && p + 1 == s.len() ==> after == t
            &&& t.dom().contains(x) ==> {
                &&& after[x].parent_id == t[x].parent_id
                &&& after[x].misread.parent == t[x].misread.parent
                &&& after[x].title == t[x].title
                &&& after[x].body_plain == t[x].body_plain
                &&& after[x].body_rtf == t[x].body_rtf
                &&& after[x].comment == t[x].comment
                &&& after[x].type_int == t[x].type_int
                &&& after[x].created_at == t[x].created_at
                &&& after[x].updated_at == t[x].updated_at
                &&& t[x].misread.parent || t[x].parent_id != t[id].parent_id ==> after[x] == t[x]
            }
        }),
{
    let s = children(t, t[id].parent_id);
    children_exist(t, t[id].parent_id);
    children_distinct(t, t[id].parent_id, s);
    assert(s.index_of(id) == p);
    let other = if up {
        p - 1
    } else {
        p + 1
    };
    let after = moved(t, id, up);
    assert(after.dom() =~= t.dom());
    if 0 <= other < s.len() {
        moving_trades_places(t, id, up);
        let w = crate::table::swapped(s, p, other);
        if t.dom().contains(x) && w.contains(x) {
            let k = choose|k: int| 0 <= k < w.len() && w[k] == x;
            let m = if k == p {
                other
            } else if k == other {
                p
            } else {
                k
            };
            assert(s[m] == x);
            assert(s.contains(x));
        }
    }
}

/// Law: asked to move a row that can be read, of a database that can be written, a move
/// succeeds and does it; asked to move a row that is not there, it succeeds and does nothing.
pub proof fn when_a_row_moves(
    before: Table,
    id: i64,
    up: bool,
    after: Table,
    r: Result<(), DataError>,
)
    requires
        shifted(false, before, id, up, after, r),
    ensures
        !before.dom().contains(id) ==> r is Ok && after == before,
        before.dom().contains(id) ==> (r is Ok <==> !before[id].misread.parent
            && !before[id].misread.position && -0x8000_0000 <= before[id].order_index
            <= 0x7fff_ffff),
        before.dom().contains(id) && r is Ok ==> after == moved(before, id, up),
        r is Err ==> after == before,
{
}

/// Law: a database that was opened for reading only refuses every change that it would have
/// made.
pub proof fn reading_only_refuses(
    before: Table,
    item: ItemView,
    item_after: ItemView,
    id: i64,
    parent: i64,
    up: bool,
    now: Timestamp,
    after: Table,
    r: Result<(), DataError>,
)
    ensures
        inserted(true, before, item, now, after, item_after, r) ==> r is Err && after == before
            && item_after == item,
        inserted(true, before, item, now, after, item_after, r) && item.parent_id == 0 ==> r
            == Err::<(), DataError>(DataError::Sqlite(StorageFault::ReadOnly)),
        updated(true, before, item, now, after, r) ==> r is Err && after == before,
        updated(true, before, item, now, after, r) && item.id is Some && item.parent_id == 0 ==> r
            == Err::<(), DataError>(DataError::Sqlite(StorageFault::ReadOnly)),
        reparented(true, before, id, parent, now, after, r) ==> r is Err && after == before,
        reparented(true, before, id, parent, now, after, r) && parent == 0 ==> r == Err::<
            (),
            DataError,
        >(DataError::Sqlite(StorageFault::ReadOnly)),
        removed(true, before, id, after, r) ==> r == Err::<(), DataError>(
            DataError::Sqlite(StorageFault::ReadOnly),
        ) && after == before,
        shifted(true, before, id, up, after, r) && before.dom().contains(id) ==> r is Err && after
            == before,
        shifted(true, before, id, up, after, r) && !before.dom().contains(id) ==> r is Ok && after
            == before,
{
}

// ---- files --------------------------------------------------------------

/// Law: there is room for another row exactly if no row has the largest id there is; room is
/// asked for only where a row would be stored.
pub proof fn when_there_is_room(read_only: bool, t: Table, parent: i64)
    ensures
        has_room(t) <==> forall|id: i64| #[trigger]
            t.dom().contains(id) ==> id < 0x7fff_ffff_ffff_ffff,
        has_room_under(read_only, t, parent) <==> (!read_only && (parent == 0 || (parent > 0
            && t.dom().contains(parent))) ==> has_room(t)),
{
}

/// Law: the table of a file holds each of its rows under its id, as it is read, and nothing
/// else.
pub proof fn what_a_file_holds(raw: Seq<RawRow>, t: Table, id: i64, i: int)
    requires
        is_table_of_raw(raw, t),
    ensures
        t.dom().contains(id) <==> exists|k: int| 0 <= k < raw.len() && (#[trigger] raw[k]).id == id,
        0 <= i < raw.len() ==> t.dom().contains(raw[i].id) && t[raw[i].id] == row_of_raw(raw[i]),
        raw_ids_fit(raw) <==> forall|a: int, b: int|
            0 <= a < b < raw.len() ==> (#[trigger] raw[a]).id != (#[trigger] raw[b]).id,
{
}

/// Law: a file of a later build is refused with its version and that of this build.
pub proof fn how_a_later_file_is_refused(version: Option<i64>, expected: u32, e: DataError)
    requires
        expected < 0xffff_ffff,
        version_refused(version, expected, e),
    ensures
        version is Some,
        !(0 <= version->0 <= expected),
        e == (DataError::CorruptSchema {
            found: Some(
                if 0 <= version->0 <= 0xffff_ffff {
                    version->0 as u32
                } else {
                    0xffff_ffff
                },
            ),
            expected,
        }),
{
}

} // verus!
