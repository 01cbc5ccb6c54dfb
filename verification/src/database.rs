//! The stored items and every operation on them.
use crate::error::{DataError, StorageFault};
use crate::item::{moment_in_text, told_by_the_clock, Item, ItemKind, ItemView, Timestamp};
use crate::table::{
    append_slot, append_slot_is_unique, Cell, chain, chain_prefix, chain_repeats, chain_splits,
    children, children_are_unique, children_distinct, decode, encode, fits_i32, has_room,
    is_append_slot, is_below, is_children, is_last_child, is_listing, is_next_row_id, is_tree,
    is_under, listing, listing_is_unique, Misread, moved, next_row_id, next_row_id_is_unique,
    number_cell, PARENT_COLUMN, parent_key, POSITION_COLUMN, position_key, renumbered, row_before,
    RowView, sibling_before, sort_key, subtree, swapped, Table, valid_new_parent, valid_parent,
};
use crate::tree_laws::{
    adding_keeps_tree, moving_keeps_tree, removing_keeps_tree, reparenting_keeps_tree,
};
use vstd::prelude::*;

verus! {

/// One row of the `items` table.
#[derive(Debug)]
pub struct Row {
    pub id: i64,
    pub parent_id: i64,
    pub type_int: i64,
    pub title: String,
    pub body_plain: String,
    pub body_rtf: String,
    pub comment: String,
    pub order_index: i64,
    pub created_at: Option<Timestamp>,
    pub updated_at: Option<Timestamp>,
    /// What stands in a column of these means nothing; for the parent and the position it says
    /// where the value sorts: right behind that number.
    pub misread: Misread,
    /// What the storage engine takes for one more than the position where that is of another
    /// type; 0 otherwise.
    pub next: Cell,
}

impl View for Row {
    type V = RowView;

    open spec fn view(&self) -> RowView {
        RowView {
            parent_id: self.parent_id,
            type_int: self.type_int,
            title: self.title@,
            body_plain: self.body_plain@,
            body_rtf: self.body_rtf@,
            comment: self.comment@,
            order_index: self.order_index,
            created_at: self.created_at,
            updated_at: self.updated_at,
            misread: self.misread,
            next: self.next,
        }
    }
}

impl Row {
    /// Is this a row under `parent`?
    fn under(&self, parent: i64) -> (r: bool)
        ensures
            r == is_under(self@, parent),
    {
        !self.misread.parent && self.parent_id == parent
    }
}

/// The row at another position.
spec fn at_position(row: Row, order_index: i64) -> Row {
    Row {
        order_index,
        misread: Misread { position: false, ..row.misread },
        next: number_cell(0),
        ..row
    }
}

/// One row as the storage engine hands it out, its timestamps still text.
#[derive(Debug)]
pub struct RawRow {
    pub id: i64,
    pub parent_id: i64,
    pub type_int: i64,
    pub title: String,
    pub body_plain: String,
    pub body_rtf: String,
    pub comment: String,
    pub order_index: i64,
    pub created_at: String,
    pub updated_at: String,
    /// As in [`Row`].
    pub misread: Misread,
    /// As in [`Row`].
    pub next: Cell,
}

/// The row with its timestamps read.
pub open spec fn row_of_raw(raw: RawRow) -> RowView {
    RowView {
        parent_id: raw.parent_id,
        type_int: raw.type_int,
        title: raw.title@,
        body_plain: raw.body_plain@,
        body_rtf: raw.body_rtf@,
        comment: raw.comment@,
        order_index: raw.order_index,
        created_at: moment_in_text(raw.created_at@),
        updated_at: moment_in_text(raw.updated_at@),
        misread: raw.misread,
        next: raw.next,
    }
}

/// Reads the timestamps of a raw row.
fn read_row(raw: RawRow) -> (r: Row)
    ensures
        r.id == raw.id,
        r@ == row_of_raw(raw),
{
    let created_at = Timestamp::parse(raw.created_at.as_str());
    let updated_at = Timestamp::parse(raw.updated_at.as_str());
    Row {
        id: raw.id,
        parent_id: raw.parent_id,
        type_int: raw.type_int,
        title: raw.title,
        body_plain: raw.body_plain,
        body_rtf: raw.body_rtf,
        comment: raw.comment,
        order_index: raw.order_index,
        created_at,
        updated_at,
        misread: raw.misread,
        next: raw.next,
    }
}

/// Reads a stored row as an item.
pub fn row_to_item(row: &Row) -> (r: Result<Item, StorageFault>)
    ensures
        match r {
            Ok(item) => decode(row.id, row@) == Ok::<ItemView, StorageFault>(item@),
            Err(e) => decode(row.id, row@) == Err::<ItemView, StorageFault>(e),
        },
{
    if let Some(column) = row.misread.first() {
        return Err(StorageFault::WrongType(column));
    }
    if row.order_index < i32::MIN as i64 || row.order_index > i32::MAX as i64 {
        return Err(StorageFault::OrderOutOfRange(row.order_index));
    }
    let created_at = match row.created_at {
        Some(at) => at,
        None => return Err(StorageFault::BadCreatedAt),
    };
    let updated_at = match row.updated_at {
        Some(at) => at,
        None => return Err(StorageFault::BadUpdatedAt),
    };
    let kind = match ItemKind::from_i64(row.type_int) {
        Some(kind) => kind,
        None => return Err(StorageFault::UnknownKind(row.type_int)),
    };
    let body_rtf = if row.body_rtf.as_str().is_empty() {
        None
    } else {
        Some(row.body_rtf.clone())
    };
    Ok(
        Item {
            id: Some(row.id),
            parent_id: row.parent_id,
            kind,
            title: row.title.clone(),
            body_plain: row.body_plain.clone(),
            body_rtf,
            comment: row.comment.clone(),
            order_index: row.order_index as i32,
            created_at,
            updated_at,
        },
    )
}

/// The row that `item` is written as.
fn item_to_row(
    item: &Item,
    id: i64,
    slot: Cell,
    created_at: Option<Timestamp>,
    updated_at: Timestamp,
) -> (r: Row)
    ensures
        r.id == id,
        r@ == encode(item@, slot, created_at, updated_at),
{
    let body_rtf = match &item.body_rtf {
        Some(s) => s.clone(),
        None => String::new(),
    };
    assert(body_rtf@ == (match item@.body_rtf {
        Some(s) => s,
        None => Seq::empty(),
    }));
    let next = if !slot.misread {
        Cell::number(0)
    } else if slot.value < i64::MAX {
        Cell { value: slot.value + 1, misread: true }
    } else {
        slot
    };
    Row {
        id,
        parent_id: item.parent_id,
        type_int: item.kind.as_i64(),
        title: item.title.clone(),
        body_plain: item.body_plain.clone(),
        body_rtf,
        comment: item.comment.clone(),
        order_index: slot.value,
        created_at,
        updated_at: Some(updated_at),
        misread: Misread { position: slot.misread, ..Misread::nothing() },
        next,
    }
}

// ---- rows as a table ----------------------------------------------------

/// No two rows have the same id.
pub open spec fn ids_distinct(rows: Seq<Row>) -> bool {
    forall|i: int, j: int|
        0 <= i < rows.len() && 0 <= j < rows.len() && i != j ==> (#[trigger] rows[i]).id != (
        #[trigger] rows[j]).id
}

/// Is there a row with this id?
pub open spec fn has_id(rows: Seq<Row>, id: i64) -> bool {
    exists|i: int| 0 <= i < rows.len() && (#[trigger] rows[i]).id == id
}

/// The place of the row with this id.
pub open spec fn place_of(rows: Seq<Row>, id: i64) -> int {
    choose|i: int| 0 <= i < rows.len() && (#[trigger] rows[i]).id == id
}

/// The table that a list of rows stands for.
pub open spec fn table_of(rows: Seq<Row>) -> Table {
    Map::new(|id: i64| has_id(rows, id), |id: i64| rows[place_of(rows, id)]@)
}

proof fn table_row(rows: Seq<Row>, i: int)
    requires
        ids_distinct(rows),
        0 <= i < rows.len(),
    ensures
        table_of(rows).dom().contains(rows[i].id),
        table_of(rows)[rows[i].id] == rows[i]@,
{
    assert(has_id(rows, rows[i].id));
    let j = place_of(rows, rows[i].id);
    assert(rows[j].id == rows[i].id);
}

/// All rows of a table at once.
proof fn table_rows(rows: Seq<Row>)
    requires
        ids_distinct(rows),
    ensures
        forall|i: int|
            0 <= i < rows.len() ==> table_of(rows).dom().contains((#[trigger] rows[i]).id)
                && table_of(rows)[rows[i].id] == rows[i]@,
        forall|id: i64| #[trigger]
            table_of(rows).dom().contains(id) ==> 0 <= place_of(rows, id) < rows.len()
                && rows[place_of(rows, id)].id == id,
{
    assert forall|i: int| 0 <= i < rows.len() implies table_of(rows).dom().contains(
        (#[trigger] rows[i]).id,
    ) && table_of(rows)[rows[i].id] == rows[i]@ by {
        table_row(rows, i);
    }
}

/// A list of distinct numbers below `n` is no longer than `n`.
proof fn distinct_below(s: Seq<usize>, n: nat)
    requires
        s.no_duplicates(),
        forall|i: int| 0 <= i < s.len() ==> (#[trigger] s[i]) < n,
    ensures
        s.len() <= n,
{
    let ints = s.map_values(|x: usize| x as int);
    assert(ints.no_duplicates()) by {
        assert forall|i: int, j: int| 0 <= i < ints.len() && 0 <= j < ints.len() && i != j implies
            ints[i] != ints[j] by {
            assert(s[i] != s[j]);
        }
    }
    ints.unique_seq_to_set();
    vstd::set_lib::lemma_int_range(0, n as int);
    assert(ints.to_set().subset_of(vstd::set_lib::set_int_range(0, n as int))) by {
        assert forall|x: int| ints.to_set().contains(x) implies vstd::set_lib::set_int_range(
            0,
            n as int,
        ).contains(x) by {
            let i = choose|i: int| 0 <= i < ints.len() && ints[i] == x;
            assert(s[i] < n);
        }
    }
    vstd::set_lib::lemma_len_subset(ints.to_set(), vstd::set_lib::set_int_range(0, n as int));
}

/// Load order on rows given by place: by parent, then by position, then by id.
spec fn place_before(rows: Seq<Row>, a: int, b: int) -> bool {
    let x = rows[a];
    let y = rows[b];
    parent_key(x@) < parent_key(y@) || (parent_key(x@) == parent_key(y@) && (position_key(x@)
        < position_key(y@) || (position_key(x@) == position_key(y@) && x.id < y.id)))
}

/// `s` holds places of rows, in load order.
spec fn places_in_order(rows: Seq<Row>, s: Seq<usize>) -> bool {
    &&& forall|i: int| 0 <= i < s.len() ==> (#[trigger] s[i]) < rows.len()
    &&& forall|i: int, j: int|
        0 <= i < j < s.len() ==> place_before(rows, #[trigger] s[i] as int, #[trigger] s[j] as int)
}

/// The ids of the rows at the given places.
spec fn ids_at(rows: Seq<Row>, s: Seq<usize>) -> Seq<i64> {
    s.map_values(|i: usize| rows[i as int].id)
}

/// Does one value sort before another?
fn sorts_before(a_misread: bool, a: i64, b_misread: bool, b: i64) -> (r: bool)
    ensures
        r == (sort_key(a_misread, a) < sort_key(b_misread, b)),
{
    a < b || (a == b && !a_misread && b_misread)
}

/// Does the row at place `a` come before the one at place `b`?
fn comes_before(rows: &Vec<Row>, a: usize, b: usize) -> (r: bool)
    requires
        a < rows@.len(),
        b < rows@.len(),
    ensures
        r == place_before(rows@, a as int, b as int),
{
    let x = &rows[a];
    let y = &rows[b];
    if x.parent_id != y.parent_id || x.misread.parent != y.misread.parent {
        sorts_before(x.misread.parent, x.parent_id, y.misread.parent, y.parent_id)
    } else if x.order_index != y.order_index || x.misread.position != y.misread.position {
        sorts_before(x.misread.position, x.order_index, y.misread.position, y.order_index)
    } else {
        x.id < y.id
    }
}

/// Puts place `i` where it belongs among places that are in load order.
fn insert_in_order(rows: &Vec<Row>, places: &mut Vec<usize>, i: usize)
    requires
        ids_distinct(rows@),
        places_in_order(rows@, old(places)@),
        i < rows@.len(),
        !old(places)@.contains(i),
    ensures
        places_in_order(rows@, final(places)@),
        forall|x: usize| #[trigger]
            final(places)@.contains(x) <==> (old(places)@.contains(x) || x == i),
{
    let ghost before = places@;
    let mut p: usize = 0;
    while p < places.len() && comes_before(rows, places[p], i)
        invariant
            places@ == before,
            p <= before.len(),
            i < rows@.len(),
            places_in_order(rows@, before),
            forall|k: int| 0 <= k < p ==> place_before(rows@, #[trigger] before[k] as int, i as int),
        decreases before.len() - p,
    {
        p = p + 1;
    }
    places.insert(p, i);
    proof {
        let after = places@;
        assert(after =~= before.insert(p as int, i));
        if p < before.len() {
            assert(before.contains(before[p as int]));
            assert(rows@[before[p as int] as int].id != rows@[i as int].id);
            assert(place_before(rows@, i as int, before[p as int] as int));
        }
        assert forall|a: int, b: int| 0 <= a < b < after.len() implies place_before(
            rows@,
            #[trigger] after[a] as int,
            #[trigger] after[b] as int,
        ) by {
            if b < p {
                assert(after[a] == before[a] && after[b] == before[b]);
            } else if b == p {
                assert(after[a] == before[a]);
            } else if a < p {
                assert(after[a] == before[a] && after[b] == before[b - 1]);
            } else if a == p {
                assert(after[b] == before[b - 1]);
                if b - 1 > p {
                    assert(place_before(rows@, before[p as int] as int, before[b - 1] as int));
                }
            } else {
                assert(after[a] == before[a - 1] && after[b] == before[b - 1]);
            }
        }
        assert forall|x: usize| #[trigger] after.contains(x) <==> (before.contains(x) || x
            == i) by {
            if after.contains(x) {
                let k = choose|k: int| 0 <= k < after.len() && after[k] == x;
                if k < p {
                    assert(before[k] == x);
                } else if k > p {
                    assert(before[k - 1] == x);
                }
            }
            if before.contains(x) {
                let k = choose|k: int| 0 <= k < before.len() && before[k] == x;
                if k < p {
                    assert(after[k] == x);
                } else {
                    assert(after[k + 1] == x);
                }
            }
            if x == i {
                assert(after[p as int] == i);
            }
        }
        assert forall|k: int| 0 <= k < after.len() implies (#[trigger] after[k])
            < rows@.len() by {
            if k < p {
                assert(after[k] == before[k]);
            } else if k > p {
                assert(after[k] == before[k - 1]);
            }
        }
    }
}

/// Is row `i` one that a listing of `parent` (or of everything) takes in?
spec fn listed(rows: Seq<Row>, parent: Option<i64>, i: int) -> bool {
    parent matches Some(p) ==> is_under(rows[i]@, p)
}

/// The places of all rows, or of the children of `parent`, in load order.
fn places_of(rows: &Vec<Row>, parent: Option<i64>) -> (r: Vec<usize>)
    requires
        ids_distinct(rows@),
    ensures
        places_in_order(rows@, r@),
        forall|i: usize| #[trigger]
            r@.contains(i) <==> i < rows@.len() && listed(rows@, parent, i as int),
{
    let mut out: Vec<usize> = Vec::new();
    let mut i: usize = 0;
    while i < rows.len()
        invariant
            i <= rows@.len(),
            ids_distinct(rows@),
            places_in_order(rows@, out@),
            forall|k: usize| #[trigger]
                out@.contains(k) <==> k < i && listed(rows@, parent, k as int),
        decreases rows@.len() - i,
    {
        let wanted = match parent {
            Some(p) => rows[i].under(p),
            None => true,
        };
        if wanted {
            insert_in_order(rows, &mut out, i);
        }
        i = i + 1;
    }
    out
}

/// What [`places_of`] gives, as ids.
proof fn places_are_listing(rows: Seq<Row>, s: Seq<usize>)
    requires
        ids_distinct(rows),
        places_in_order(rows, s),
        forall|i: usize| #[trigger] s.contains(i) <==> i < rows.len(),
        rows.len() <= usize::MAX,
    ensures
        is_listing(table_of(rows), ids_at(rows, s)),
        listing(table_of(rows)) == ids_at(rows, s),
{
    let t = table_of(rows);
    let ids = ids_at(rows, s);
    table_rows(rows);
    assert forall|id: i64| #[trigger] ids.contains(id) <==> t.dom().contains(id) by {
        if ids.contains(id) {
            let k = choose|k: int| 0 <= k < ids.len() && ids[k] == id;
            assert(s[k] < rows.len());
            assert(rows[s[k] as int].id == id);
        }
        if t.dom().contains(id) {
            let p = place_of(rows, id);
            assert(s.contains(p as usize));
            let k = choose|k: int| 0 <= k < s.len() && s[k] == p as usize;
            assert(ids[k] == id);
        }
    }
    assert forall|i: int, j: int| 0 <= i < j < ids.len() implies row_before(
        t,
        #[trigger] ids[i],
        #[trigger] ids[j],
    ) by {
        assert(place_before(rows, s[i] as int, s[j] as int));
        assert(ids[i] == rows[s[i] as int].id && ids[j] == rows[s[j] as int].id);
    }
    listing_is_unique(t, ids);
}

/// What [`places_of`] gives for one parent, as ids.
proof fn places_are_children(rows: Seq<Row>, parent: i64, s: Seq<usize>)
    requires
        ids_distinct(rows),
        places_in_order(rows, s),
        forall|i: usize| #[trigger]
            s.contains(i) <==> i < rows.len() && is_under(rows[i as int]@, parent),
        rows.len() <= usize::MAX,
    ensures
        is_children(table_of(rows), parent, ids_at(rows, s)),
        children(table_of(rows), parent) == ids_at(rows, s),
{
    let t = table_of(rows);
    let ids = ids_at(rows, s);
    table_rows(rows);
    assert forall|id: i64| #[trigger] ids.contains(id) <==> (t.dom().contains(id) && is_under(
        t[id],
        parent,
    )) by {
        if ids.contains(id) {
            let k = choose|k: int| 0 <= k < ids.len() && ids[k] == id;
            assert(s.contains(s[k]));
            assert(rows[s[k] as int].id == id);
        }
        if t.dom().contains(id) && is_under(t[id], parent) {
            let p = place_of(rows, id);
            assert(rows[p].id == id);
            assert(s.contains(p as usize));
            let k = choose|k: int| 0 <= k < s.len() && s[k] == p as usize;
            assert(ids[k] == id);
        }
    }
    assert forall|i: int, j: int| 0 <= i < j < ids.len() implies sibling_before(
        t,
        #[trigger] ids[i],
        #[trigger] ids[j],
    ) by {
        assert(place_before(rows, s[i] as int, s[j] as int));
        assert(s.contains(s[i]) && s.contains(s[j]));
        assert(ids[i] == rows[s[i] as int].id && ids[j] == rows[s[j] as int].id);
    }
    children_are_unique(t, parent, ids);
}

/// What the row at place `i` of the load order is read as.
pub open spec fn loaded(t: Table, i: int) -> Result<ItemView, StorageFault> {
    decode(listing(t)[i], t[listing(t)[i]])
}

/// The rows in load order that can be read.
pub open spec fn readable(t: Table, upto: int) -> Seq<ItemView>
    decreases upto,
{
    if upto <= 0 {
        Seq::empty()
    } else {
        match loaded(t, upto - 1) {
            Ok(item) => readable(t, upto - 1).push(item),
            Err(_) => readable(t, upto - 1),
        }
    }
}

/// Is place `i` in the list?
fn has_place(places: &Vec<usize>, i: usize) -> (r: bool)
    ensures
        r == places@.contains(i),
{
    let mut k: usize = 0;
    while k < places.len()
        invariant
            k <= places@.len(),
            forall|m: int| 0 <= m < k ==> #[trigger] places@[m] != i,
        decreases places@.len() - k,
    {
        if places[k] == i {
            assert(places@[k as int] == i);
            return true;
        }
        k = k + 1;
    }
    false
}

/// A child of a row in the subtree is in the subtree.
proof fn child_in_subtree(t: Table, id: i64, child: i64, parent: i64)
    requires
        t.dom().contains(child),
        is_under(t[child], parent),
        subtree(t, id).contains(parent),
    ensures
        subtree(t, id).contains(child),
{
    assert(chain(t, child, 0) == Some(child));
    assert(chain(t, child, 1) == Some(parent));
    if parent != id {
        let k = choose|k: nat| k > 0 && #[trigger] chain(t, parent, k) == Some(id);
        chain_splits(t, child, 1, k, parent);
        assert(chain(t, child, 1 + k) == Some(id));
    }
}

/// The error of a write to a database that was opened for reading only.
pub open spec fn read_only_error() -> DataError {
    DataError::Sqlite(StorageFault::ReadOnly)
}

/// Is there an id for a new row under `parent_id`, where one is going to be needed?
pub open spec fn has_room_under(read_only: bool, t: Table, parent_id: i64) -> bool {
    !read_only && valid_new_parent(t, parent_id) ==> has_room(t)
}

/// What an insert does to the table and to the item it is given.
pub open spec fn inserted(
    read_only: bool,
    before: Table,
    item: ItemView,
    now: Timestamp,
    after: Table,
    item_after: ItemView,
    r: Result<(), DataError>,
) -> bool {
    if !valid_new_parent(before, item.parent_id) {
        &&& r == Err::<(), DataError>(DataError::InvalidParent { id: 0, parent_id: item.parent_id })
        &&& after == before
        &&& item_after == item
    } else if read_only {
        &&& r == Err::<(), DataError>(read_only_error())
        &&& after == before
        &&& item_after == item
    } else {
        let id = next_row_id(before) as i64;
        let slot = if item.order_index < 0 {
            append_slot(before, item.parent_id)
        } else {
            number_cell(item.order_index as i64)
        };
        &&& after == before.insert(id, encode(item, slot, Some(now), now))
        &&& if slot.misread {
            &&& r == Err::<(), DataError>(
                DataError::Sqlite(StorageFault::WrongType(POSITION_COLUMN)),
            )
            &&& item_after == item
        } else if fits_i32(slot.value as int) {
            &&& r == Ok::<(), DataError>(())
            &&& item_after == (ItemView {
                id: Some(id),
                order_index: slot.value as i32,
                created_at: now,
                updated_at: now,
                ..item
            })
        } else {
            &&& r == Err::<(), DataError>(
                DataError::Sqlite(StorageFault::OrderOutOfRange(slot.value)),
            )
            &&& item_after == item
        }
    }
}

/// What an update does to the table.
pub open spec fn updated(
    read_only: bool,
    before: Table,
    item: ItemView,
    now: Timestamp,
    after: Table,
    r: Result<(), DataError>,
) -> bool {
    match item.id {
        None => r == Err::<(), DataError>(DataError::MissingId) && after == before,
        Some(id) => if !valid_parent(before, id, item.parent_id) {
            &&& r == Err::<(), DataError>(
                DataError::InvalidParent { id, parent_id: item.parent_id },
            )
            &&& after == before
        } else if read_only {
            &&& r == Err::<(), DataError>(read_only_error())
            &&& after == before
        } else if !before.dom().contains(id) {
            &&& r == Err::<(), DataError>(DataError::ItemNotFound(id))
            &&& after == before
        } else {
            &&& r == Ok::<(), DataError>(())
            &&& after == before.insert(
                id,
                encode(
                    item,
                    number_cell(item.order_index as i64),
                    before[id].created_at,
                    now,
                ),
            )
        },
    }
}

/// What giving a row another parent does to the table.
pub open spec fn reparented(
    read_only: bool,
    before: Table,
    id: i64,
    new_parent: i64,
    now: Timestamp,
    after: Table,
    r: Result<(), DataError>,
) -> bool {
    if !valid_parent(before, id, new_parent) {
        &&& r == Err::<(), DataError>(DataError::InvalidParent { id, parent_id: new_parent })
        &&& after == before
    } else if read_only {
        &&& r == Err::<(), DataError>(read_only_error())
        &&& after == before
    } else if !before.dom().contains(id) {
        &&& r == Err::<(), DataError>(DataError::ItemNotFound(id))
        &&& after == before
    } else {
        &&& r == Ok::<(), DataError>(())
        &&& after == before.insert(
            id,
            RowView {
                parent_id: new_parent,
                updated_at: Some(now),
                misread: Misread { parent: false, ..before[id].misread },
                ..before[id]
            },
        )
    }
}

/// What deleting a row with everything below it does to the table.
pub open spec fn removed(
    read_only: bool,
    before: Table,
    id: i64,
    after: Table,
    r: Result<(), DataError>,
) -> bool {
    if read_only {
        &&& r == Err::<(), DataError>(read_only_error())
        &&& after == before
    } else {
        &&& r == Ok::<(), DataError>(())
        &&& after == before.remove_keys(subtree(before, id))
    }
}

/// What moving a row past its neighbour does to the table.
pub open spec fn shifted(
    read_only: bool,
    before: Table,
    id: i64,
    up: bool,
    after: Table,
    r: Result<(), DataError>,
) -> bool {
    if before.dom().contains(id) && before[id].misread.parent {
        &&& r == Err::<(), DataError>(DataError::Sqlite(StorageFault::WrongType(PARENT_COLUMN)))
        &&& after == before
    } else if before.dom().contains(id) && before[id].misread.position {
        &&& r == Err::<(), DataError>(DataError::Sqlite(StorageFault::WrongType(POSITION_COLUMN)))
        &&& after == before
    } else if before.dom().contains(id) && !fits_i32(before[id].order_index as int) {
        &&& r == Err::<(), DataError>(
            DataError::Sqlite(StorageFault::OrderOutOfRange(before[id].order_index)),
        )
        &&& after == before
    } else if before.dom().contains(id) && read_only {
        &&& r == Err::<(), DataError>(read_only_error())
        &&& after == before
    } else {
        &&& r == Ok::<(), DataError>(())
        &&& after == moved(before, id, up)
    }
}

/// Rows that a table can hold: no id occurs twice.
pub open spec fn raw_ids_fit(raw: Seq<RawRow>) -> bool {
    forall|i: int, j: int|
        0 <= i < raw.len() && 0 <= j < raw.len() && i != j ==> (#[trigger] raw[i]).id != (
        #[trigger] raw[j]).id
}

/// Is this the table that the rows of a file stand for?
pub open spec fn is_table_of_raw(raw: Seq<RawRow>, t: Table) -> bool {
    &&& forall|id: i64| #[trigger]
        t.dom().contains(id) <==> exists|i: int| 0 <= i < raw.len() && (#[trigger] raw[i]).id == id
    &&& forall|i: int| 0 <= i < raw.len() ==> t[(#[trigger] raw[i]).id] == row_of_raw(raw[i])
}

/// Is `raw` how a file holds the row? Where a time could not be read, the file still has the
/// text that is none.
pub open spec fn stands_for(raw: RawRow, row: Row) -> bool {
    raw.id == row.id && row_of_raw(raw) == row@
}

/// What is written to a file is what is read from it again, in whatever order the file gives
/// its rows.
pub proof fn saved_rows_are_read_back(rows: Seq<Row>, raw: Seq<RawRow>, t: Table)
    requires
        ids_distinct(rows),
        forall|i: int|
            0 <= i < rows.len() ==> exists|j: int|
                0 <= j < raw.len() && stands_for(#[trigger] raw[j], #[trigger] rows[i]),
        forall|j: int|
            0 <= j < raw.len() ==> exists|i: int|
                0 <= i < rows.len() && stands_for(#[trigger] raw[j], #[trigger] rows[i]),
        is_table_of_raw(raw, t),
    ensures
        t == table_of(rows),
{
    table_rows(rows);
    assert forall|id: i64| #[trigger] t.dom().contains(id) == table_of(rows).dom().contains(id) by {
        if t.dom().contains(id) {
            let j = choose|j: int| 0 <= j < raw.len() && (#[trigger] raw[j]).id == id;
            let i = choose|i: int|
                0 <= i < rows.len() && stands_for(raw[j], #[trigger] rows[i]);
            assert(rows[i].id == id);
        }
        if table_of(rows).dom().contains(id) {
            let i = place_of(rows, id);
            let j = choose|j: int| 0 <= j < raw.len() && stands_for(#[trigger] raw[j], rows[i]);
            assert(raw[j].id == id);
        }
    }
    assert forall|id: i64| #[trigger] t.dom().contains(id) implies t[id] == table_of(rows)[id] by {
        let j = choose|j: int| 0 <= j < raw.len() && (#[trigger] raw[j]).id == id;
        let i = choose|i: int| 0 <= i < rows.len() && stands_for(raw[j], #[trigger] rows[i]);
        assert(rows[i].id == id);
    }
    assert(t =~= table_of(rows));
}

/// A recorded schema version as 32 bits. One that does not fit counts as the largest, which
/// is ahead of every build.
pub open spec fn recorded(version: Option<i64>) -> Option<u32> {
    match version {
        Some(v) => if 0 <= v <= u32::MAX {
            Some(v as u32)
        } else {
            Some(u32::MAX)
        },
        None => None,
    }
}

pub open spec fn version_accepted(version: Option<i64>, expected: u32) -> bool {
    recorded(version) matches Some(v) ==> v <= expected
}

pub open spec fn version_refused(version: Option<i64>, expected: u32, e: DataError) -> bool {
    !version_accepted(version, expected) && e == (DataError::CorruptSchema {
        found: recorded(version),
        expected,
    })
}

/// Reads the largest version number in the history table, if there is one.
pub fn saturate_version(version: Option<i64>) -> (r: Option<u32>)
    ensures
        r == recorded(version),
{
    match version {
        Some(v) => if 0 <= v && v <= u32::MAX as i64 {
            Some(v as u32)
        } else {
            Some(u32::MAX)
        },
        None => None,
    }
}

/// Refuses a schema version ahead of this build, whose rows an older build would misread.
pub fn check_version(found: Option<u32>, expected: u32) -> (r: Result<(), DataError>)
    ensures
        r == (match found {
            Some(v) => if v > expected {
                Err(DataError::CorruptSchema { found, expected })
            } else {
                Ok::<(), DataError>(())
            },
            None => Ok::<(), DataError>(()),
        }),
{
    if let Some(v) = found {
        if v > expected {
            return Err(DataError::CorruptSchema { found: Some(v), expected });
        }
    }
    Ok(())
}

/// The values of a list of items.
pub open spec fn item_views(items: Seq<Item>) -> Seq<ItemView> {
    items.map_values(|i: Item| i@)
}

/// The stored items.
#[derive(Debug)]
pub struct Database {
    rows: Vec<Row>,
    /// The schema version recorded with the items, if any.
    version: Option<u32>,
    /// Is every write refused?
    read_only: bool,
}

impl View for Database {
    type V = Table;

    closed spec fn view(&self) -> Table {
        table_of(self.rows@)
    }
}

impl Database {
    /// Every row has an id of its own.
    pub closed spec fn wf(&self) -> bool {
        ids_distinct(self.rows@)
    }

    pub closed spec fn recorded_version(&self) -> Option<u32> {
        self.version
    }

    pub closed spec fn is_read_only(&self) -> bool {
        self.read_only
    }

    /// An empty table that can be written.
    pub fn new(version: Option<u32>) -> (r: Self)
        ensures
            r.wf(),
            r@ == Map::<i64, RowView>::empty(),
            r.recorded_version() == version,
            !r.is_read_only(),
    {
        let r = Database { rows: Vec::new(), version, read_only: false };
        assert(r@ =~= Map::<i64, RowView>::empty());
        r
    }

    /// A table of stored items is finite.
    pub proof fn wf_table(&self)
        requires
            self.wf(),
        ensures
            self@.dom().finite(),
    {
        table_rows(self.rows@);
        let ids = self.rows@.map_values(|row: Row| row.id);
        ids.lemma_cardinality_of_set();
        assert(self@.dom() =~= ids.to_set()) by {
            assert forall|id: i64| #[trigger] self@.dom().contains(id) == ids.to_set().contains(
                id,
            ) by {
                if self@.dom().contains(id) {
                    let p = place_of(self.rows@, id);
                    assert(ids[p] == id);
                }
                if ids.contains(id) {
                    let k = choose|k: int| 0 <= k < ids.len() && ids[k] == id;
                    assert(self.rows@[k].id == id);
                }
            }
        }
    }

    fn find(&self, id: i64) -> (r: Option<usize>)
        requires
            self.wf(),
        ensures
            match r {
                Some(i) => i < self.rows@.len() && self.rows@[i as int].id == id
                    && self@.dom().contains(id) && self@[id] == self.rows@[i as int]@,
                None => !self@.dom().contains(id),
            },
    {
        let mut i: usize = 0;
        while i < self.rows.len()
            invariant
                i <= self.rows@.len(),
                self.wf(),
                forall|j: int| 0 <= j < i ==> (#[trigger] self.rows@[j]).id != id,
            decreases self.rows@.len() - i,
        {
            if self.rows[i].id == id {
                proof {
                    table_row(self.rows@, i as int);
                }
                return Some(i);
            }
            i = i + 1;
        }
        None
    }

    /// The item with this id, if there is one and it can be read.
    pub fn get(&self, id: i64) -> (r: Result<Option<Item>, DataError>)
        requires
            self.wf(),
        ensures
            match r {
                Ok(Some(item)) => self@.dom().contains(id) && decode(id, self@[id]) == Ok::<
                    ItemView,
                    StorageFault,
                >(item@),
                Ok(None) => !self@.dom().contains(id),
                Err(DataError::Sqlite(e)) => self@.dom().contains(id) && decode(id, self@[id])
                    == Err::<ItemView, StorageFault>(e),
                Err(_) => false,
            },
    {
        match self.find(id) {
            Some(i) => match row_to_item(&self.rows[i]) {
                Ok(item) => Ok(Some(item)),
                Err(e) => Err(DataError::Sqlite(e)),
            },
            None => Ok(None),
        }
    }

    /// Is `candidate` inside the subtree rooted at `ancestor`? Walks parent links upward and
    /// stops when it comes back to a row it has been at, so a cycle in the stored data ends it.
    fn is_descendant_of(&self, candidate: i64, ancestor: i64) -> (r: bool)
        requires
            self.wf(),
        ensures
            r == is_below(self@, candidate, ancestor),
    {
        let ghost t = self@;
        let mut seen: Vec<usize> = Vec::new();
        let mut at: i64 = candidate;
        proof {
            table_rows(self.rows@);
        }
        loop
            invariant
                self.wf(),
                t == self@,
                t == table_of(self.rows@),
                chain(t, candidate, seen@.len()) == Some(at),
                seen@.no_duplicates(),
                forall|j: int|
                    0 <= j < seen@.len() ==> (#[trigger] seen@[j]) < self.rows@.len() && chain(
                        t,
                        candidate,
                        j as nat,
                    ) == Some(self.rows@[seen@[j] as int].id),
                forall|k: nat|
                    0 < k <= seen@.len() ==> #[trigger] chain(t, candidate, k) != Some(ancestor),
            decreases self.rows@.len() - seen@.len(),
        {
            let i = match self.find(at) {
                Some(i) => i,
                None => {
                    proof {
                        assert forall|k: nat| k > 0 implies #[trigger] chain(t, candidate, k)
                            != Some(ancestor) by {
                            if k > seen@.len() {
                                if chain(t, candidate, k) is Some {
                                    chain_prefix(t, candidate, seen@.len(), k);
                                }
                            }
                        }
                    }
                    return false;
                },
            };
            let mut j: usize = 0;
            while j < seen.len()
                invariant
                    j <= seen@.len(),
                    forall|m: int| 0 <= m < j ==> #[trigger] seen@[m] != i,
                    self.wf(),
                    t == self@,
                    i < self.rows@.len(),
                    at == self.rows@[i as int].id,
                    chain(t, candidate, seen@.len()) == Some(at),
                    forall|j: int|
                        0 <= j < seen@.len() ==> (#[trigger] seen@[j]) < self.rows@.len() && chain(
                            t,
                            candidate,
                            j as nat,
                        ) == Some(self.rows@[seen@[j] as int].id),
                    forall|k: nat|
                        0 < k <= seen@.len() ==> #[trigger] chain(t, candidate, k) != Some(ancestor),
                decreases seen@.len() - j,
            {
                if seen[j] == i {
                    proof {
                        assert forall|k: nat| k > 0 implies #[trigger] chain(t, candidate, k)
                            != Some(ancestor) by {
                            if k > seen@.len() {
                                chain_repeats(t, candidate, j as nat, seen@.len(), k);
                            }
                        }
                    }
                    return false;
                }
                j = j + 1;
            }
            if self.rows[i].misread.parent {
                proof {
                    assert forall|k: nat| k > 0 implies #[trigger] chain(t, candidate, k) != Some(
                        ancestor,
                    ) by {
                        if k > seen@.len() && chain(t, candidate, k) is Some {
                            chain_prefix(t, candidate, seen@.len() + 1, k);
                        }
                    }
                }
                return false;
            }
            let ghost before = seen@;
            seen.push(i);
            at = self.rows[i].parent_id;
            proof {
                assert(chain(t, candidate, seen@.len()) == Some(at));
                assert(seen@.no_duplicates()) by {
                    assert forall|a: int, b: int|
                        0 <= a < seen@.len() && 0 <= b < seen@.len() && a != b implies seen@[a]
                        != seen@[b] by {
                        if a == before.len() {
                            assert(seen@[b] == before[b]);
                        } else if b == before.len() {
                            assert(seen@[a] == before[a]);
                        } else {
                            assert(seen@[a] == before[a] && seen@[b] == before[b]);
                        }
                    }
                }
                assert forall|j: int| 0 <= j < seen@.len() implies (#[trigger] seen@[j])
                    < self.rows@.len() && chain(t, candidate, j as nat) == Some(
                    self.rows@[seen@[j] as int].id,
                ) by {
                    if j < before.len() {
                        assert(seen@[j] == before[j]);
                    }
                }
                distinct_below(seen@, self.rows@.len());
            }
            if at == ancestor {
                return true;
            }
        }
    }

    /// Rejects a parent for a row that does not exist yet: a negative sentinel, or a row that
    /// is not there.
    fn validate_new_parent(&self, parent_id: i64) -> (r: Result<(), DataError>)
        requires
            self.wf(),
        ensures
            r == (if valid_new_parent(self@, parent_id) {
                Ok::<(), DataError>(())
            } else {
                Err(DataError::InvalidParent { id: 0, parent_id })
            }),
    {
        if parent_id == 0 {
            return Ok(());
        }
        if parent_id < 0 {
            return Err(DataError::InvalidParent { id: 0, parent_id });
        }
        match self.find(parent_id) {
            Some(_) => Ok(()),
            None => Err(DataError::InvalidParent { id: 0, parent_id }),
        }
    }

    /// Rejects a parent that would break the tree for an existing row: the row itself, one of
    /// its own descendants, a negative sentinel, or a row that is not there.
    fn validate_parent(&self, id: i64, parent_id: i64) -> (r: Result<(), DataError>)
        requires
            self.wf(),
        ensures
            r == (if valid_parent(self@, id, parent_id) {
                Ok::<(), DataError>(())
            } else {
                Err(DataError::InvalidParent { id, parent_id })
            }),
    {
        if parent_id == 0 {
            return Ok(());
        }
        if parent_id == id {
            return Err(DataError::InvalidParent { id, parent_id });
        }
        if self.validate_new_parent(parent_id).is_err() {
            return Err(DataError::InvalidParent { id, parent_id });
        }
        if self.is_descendant_of(parent_id, id) {
            return Err(DataError::InvalidParent { id, parent_id });
        }
        Ok(())
    }

    /// Every item, in load order. One row that cannot be read fails the load.
    pub fn load_all(&self) -> (r: Result<Vec<Item>, DataError>)
        requires
            self.wf(),
        ensures
            is_listing(self@, listing(self@)),
            match r {
                Ok(items) => items@.len() == listing(self@).len() && forall|i: int|
                    0 <= i < items@.len() ==> loaded(self@, i) == Ok::<ItemView, StorageFault>(
                        (#[trigger] items@[i])@,
                    ),
                Err(DataError::Sqlite(e)) => exists|i: int|
                    0 <= i < listing(self@).len() && #[trigger] loaded(self@, i) == Err::<
                        ItemView,
                        StorageFault,
                    >(e) && forall|j: int| 0 <= j < i ==> #[trigger] loaded(self@, j) is Ok,
                Err(_) => false,
            },
    {
        let places = places_of(&self.rows, None);
        let ghost t = self@;
        proof {
            assert(self.rows.len() == self.rows@.len());
            places_are_listing(self.rows@, places@);
            table_rows(self.rows@);
        }
        let mut out: Vec<Item> = Vec::new();
        let mut i: usize = 0;
        while i < places.len()
            invariant
                self.wf(),
                t == self@,
                i <= places@.len(),
                out@.len() == i,
                places_in_order(self.rows@, places@),
                listing(t) == ids_at(self.rows@, places@),
                is_listing(t, listing(t)),
                forall|k: int|
                    0 <= k < self.rows@.len() ==> t.dom().contains((#[trigger] self.rows@[k]).id)
                        && t[self.rows@[k].id] == self.rows@[k]@,
                forall|k: int|
                    0 <= k < i ==> loaded(t, k) == Ok::<ItemView, StorageFault>(
                        (#[trigger] out@[k])@,
                    ),
            decreases places@.len() - i,
        {
            let row = &self.rows[places[i]];
            assert(listing(t)[i as int] == row.id);
            match row_to_item(row) {
                Ok(item) => {
                    out.push(item);
                },
                Err(e) => {
                    proof {
                        assert(loaded(t, i as int) == Err::<ItemView, StorageFault>(e));
                        assert forall|j: int| 0 <= j < i implies #[trigger] loaded(t, j) is Ok by {
                            assert(loaded(t, j) == Ok::<ItemView, StorageFault>(out@[j]@));
                        }
                    }
                    return Err(DataError::Sqlite(e));
                },
            }
            i = i + 1;
        }
        Ok(out)
    }

    /// Is there an id left for one more item?
    pub fn can_grow(&self) -> (r: bool)
        requires
            self.wf(),
        ensures
            r == has_room(self@),
    {
        proof {
            table_rows(self.rows@);
        }
        let mut i: usize = 0;
        while i < self.rows.len()
            invariant
                i <= self.rows@.len(),
                forall|k: int| 0 <= k < i ==> (#[trigger] self.rows@[k]).id < i64::MAX,
                forall|k: int|
                    0 <= k < self.rows@.len() ==> self@.dom().contains((#[trigger] self.rows@[k]).id),
            decreases self.rows@.len() - i,
        {
            if self.rows[i].id == i64::MAX {
                assert(self@.dom().contains(self.rows@[i as int].id));
                return false;
            }
            i = i + 1;
        }
        assert forall|id: i64| #[trigger] self@.dom().contains(id) implies id < i64::MAX by {
            let k = choose|k: int| 0 <= k < self.rows@.len() && (#[trigger] self.rows@[k]).id == id;
            assert(self.rows@[k].id == id);
        }
        true
    }

    /// How many items are stored.
    pub fn item_count(&self) -> (r: usize)
        requires
            self.wf(),
        ensures
            is_listing(self@, listing(self@)),
            r == listing(self@).len(),
    {
        let places = places_of(&self.rows, None);
        proof {
            assert(self.rows.len() == self.rows@.len());
            places_are_listing(self.rows@, places@);
            table_rows(self.rows@);
        }
        places.len()
    }

    /// Every item that can be read, in load order, and how many rows cannot.
    pub fn load_all_lenient(&self) -> (r: Result<(Vec<Item>, usize), DataError>)
        requires
            self.wf(),
        ensures
            is_listing(self@, listing(self@)),
            match r {
                Ok((items, skipped)) => item_views(items@) == readable(
                    self@,
                    listing(self@).len() as int,
                ) && skipped == listing(self@).len() - items@.len(),
                Err(_) => false,
            },
    {
        let places = places_of(&self.rows, None);
        let ghost t = self@;
        proof {
            assert(self.rows.len() == self.rows@.len());
            places_are_listing(self.rows@, places@);
            table_rows(self.rows@);
        }
        let mut out: Vec<Item> = Vec::new();
        let mut skipped: usize = 0;
        let mut i: usize = 0;
        while i < places.len()
            invariant
                self.wf(),
                t == self@,
                i <= places@.len(),
                places_in_order(self.rows@, places@),
                listing(t) == ids_at(self.rows@, places@),
                is_listing(t, listing(t)),
                forall|k: int|
                    0 <= k < self.rows@.len() ==> t.dom().contains((#[trigger] self.rows@[k]).id)
                        && t[self.rows@[k].id] == self.rows@[k]@,
                item_views(out@) == readable(t, i as int),
                skipped + out@.len() == i,
            decreases places@.len() - i,
        {
            let row = &self.rows[places[i]];
            assert(listing(t)[i as int] == row.id);
            match row_to_item(row) {
                Ok(item) => {
                    let ghost before = out@;
                    out.push(item);
                    assert(item_views(out@) =~= item_views(before).push(item@));
                },
                Err(_) => {
                    skipped = skipped + 1;
                },
            }
            i = i + 1;
        }
        Ok((out, skipped))
    }

    /// The children of `parent_id`, in their order.
    pub fn children_of(&self, parent_id: i64) -> (r: Vec<i64>)
        requires
            self.wf(),
        ensures
            r@ == children(self@, parent_id),
            is_children(self@, parent_id, r@),
    {
        let places = places_of(&self.rows, Some(parent_id));
        proof {
            assert(self.rows.len() == self.rows@.len());
            places_are_children(self.rows@, parent_id, places@);
        }
        let mut out: Vec<i64> = Vec::new();
        let mut i: usize = 0;
        while i < places.len()
            invariant
                i <= places@.len(),
                places_in_order(self.rows@, places@),
                out@ == ids_at(self.rows@, places@).take(i as int),
            decreases places@.len() - i,
        {
            out.push(self.rows[places[i]].id);
            i = i + 1;
            assert(out@ =~= ids_at(self.rows@, places@).take(i as int));
        }
        assert(out@ =~= ids_at(self.rows@, places@));
        out
    }

    /// The id for a new row and the position after the last child of `parent_id`.
    fn next_places(&self, parent_id: i64) -> (r: (i64, Cell))
        requires
            self.wf(),
            has_room(self@),
        ensures
            r.0 == next_row_id(self@),
            is_next_row_id(self@, r.0 as int),
            r.1 == append_slot(self@, parent_id),
            is_append_slot(self@, parent_id, r.1),
    {
        let ghost t = self@;
        let mut next: i64 = 1;
        let mut last: Option<usize> = None;
        let mut i: usize = 0;
        proof {
            table_rows(self.rows@);
        }
        while i < self.rows.len()
            invariant
                self.wf(),
                t == table_of(self.rows@),
                has_room(t),
                i <= self.rows@.len(),
                forall|k: int|
                    0 <= k < self.rows@.len() ==> t.dom().contains((#[trigger] self.rows@[k]).id)
                        && t[self.rows@[k].id] == self.rows@[k]@,
                i == 0 ==> next == 1,
                forall|k: int| 0 <= k < i ==> (#[trigger] self.rows@[k]).id < next,
                i > 0 ==> exists|k: int| 0 <= k < i && (#[trigger] self.rows@[k]).id == next - 1,
                match last {
                    Some(p) => p < i && is_under(self.rows@[p as int]@, parent_id) && forall|k: int|
                        0 <= k < i && k != p && is_under((#[trigger] self.rows@[k])@, parent_id)
                            ==> sibling_before(t, self.rows@[k].id, self.rows@[p as int].id),
                    None => forall|k: int|
                        0 <= k < i ==> !is_under((#[trigger] self.rows@[k])@, parent_id),
                },
            decreases self.rows@.len() - i,
        {
            let row = &self.rows[i];
            assert(t.dom().contains(self.rows@[i as int].id));
            if i == 0 || row.id >= next {
                next = row.id + 1;
            }
            if row.under(parent_id) {
                let behind = match last {
                    Some(p) => {
                        let other = &self.rows[p];
                        assert(t[self.rows@[p as int].id] == self.rows@[p as int]@);
                        assert(t[self.rows@[i as int].id] == self.rows@[i as int]@);
                        assert(self.rows@[p as int].id != self.rows@[i as int].id);
                        if row.misread.position == other.misread.position && row.order_index
                            == other.order_index {
                            other.id < row.id
                        } else {
                            sorts_before(
                                other.misread.position,
                                other.order_index,
                                row.misread.position,
                                row.order_index,
                            )
                        }
                    },
                    None => true,
                };
                if behind {
                    last = Some(i);
                }
            }
            i = i + 1;
        }
        let slot = match last {
            Some(p) => {
                let row = &self.rows[p];
                if row.misread.position {
                    row.next
                } else if row.order_index < i64::MAX {
                    Cell::number(row.order_index + 1)
                } else {
                    Cell { value: i64::MAX, misread: true }
                }
            },
            None => Cell::number(0),
        };
        proof {
            table_rows(self.rows@);
            assert(is_next_row_id(t, next as int)) by {
                assert forall|k: i64| #[trigger] t.dom().contains(k) implies k < next by {
                    assert(self.rows@[place_of(self.rows@, k)].id == k);
                }
                if i > 0 {
                    let k = choose|k: int|
                        0 <= k < self.rows@.len() && (#[trigger] self.rows@[k]).id == next - 1;
                    assert(t.dom().contains(self.rows@[k].id));
                }
            }
            next_row_id_is_unique(t, next as int);
            assert(is_append_slot(t, parent_id, slot)) by {
                match last {
                    Some(p) => {
                        let id = self.rows@[p as int].id;
                        assert(t.dom().contains(id));
                        assert forall|j: i64| #[trigger]
                            t.dom().contains(j) && is_under(t[j], parent_id) && j
                                != id implies sibling_before(t, j, id) by {
                            let q = place_of(self.rows@, j);
                            assert(self.rows@[q].id == j);
                            assert(is_under(self.rows@[q]@, parent_id));
                        }
                        assert(is_last_child(t, parent_id, id));
                    },
                    None => {
                        assert forall|k: i64| #[trigger] t.dom().contains(k) implies !is_under(
                            t[k],
                            parent_id,
                        ) by {
                            let q = place_of(self.rows@, k);
                            assert(self.rows@[q].id == k);
                        }
                    },
                }
            }
            append_slot_is_unique(t, parent_id, slot);
        }
        (next, slot)
    }

    /// Adds a row with an id that is not in use.
    fn add_row(&mut self, row: Row)
        requires
            old(self).wf(),
            !old(self)@.dom().contains(row.id),
        ensures
            final(self).wf(),
            final(self)@ == old(self)@.insert(row.id, row@),
            final(self).recorded_version() == old(self).recorded_version(),
            final(self).is_read_only() == old(self).is_read_only(),
    {
        let ghost before = self.rows@;
        let ghost added = row;
        proof {
            table_rows(before);
        }
        self.rows.push(row);
        proof {
            let after = self.rows@;
            assert(after =~= before.push(added));
            assert(ids_distinct(after)) by {
                assert forall|i: int, j: int|
                    0 <= i < after.len() && 0 <= j < after.len() && i != j implies (
                #[trigger] after[i]).id != (#[trigger] after[j]).id by {
                    if i == before.len() {
                        assert(after[j] == before[j]);
                        assert(table_of(before).dom().contains(before[j].id));
                    } else if j == before.len() {
                        assert(after[i] == before[i]);
                        assert(table_of(before).dom().contains(before[i].id));
                    }
                }
            }
            table_rows(after);
            assert(table_of(after) =~= table_of(before).insert(added.id, added@)) by {
                assert forall|id: i64| #[trigger] table_of(after).dom().contains(id)
                    == table_of(before).insert(added.id, added@).dom().contains(id) by {
                    if table_of(before).dom().contains(id) {
                        let p = place_of(before, id);
                        assert(after[p] == before[p]);
                    }
                    if id == added.id {
                        assert(after[before.len() as int].id == id);
                    }
                    if table_of(after).dom().contains(id) {
                        let p = place_of(after, id);
                        if p < before.len() {
                            assert(after[p] == before[p]);
                        }
                    }
                }
                assert forall|id: i64| #[trigger] table_of(after).dom().contains(id) implies
                    table_of(after)[id] == table_of(before).insert(added.id, added@)[id] by {
                    let p = place_of(after, id);
                    assert(after[p].id == id);
                    if p < before.len() {
                        assert(after[p] == before[p]);
                        assert(table_of(before).dom().contains(before[p].id));
                    } else {
                        assert(after[p] == added);
                    }
                }
            }
        }
    }

    /// Replaces the row at place `i` by one with the same id.
    fn replace_row(&mut self, i: usize, row: Row)
        requires
            old(self).wf(),
            old(self)@.dom().contains(row.id),
            i < old(self).rows@.len(),
            old(self).rows@[i as int].id == row.id,
        ensures
            final(self).wf(),
            final(self)@ == old(self)@.insert(row.id, row@),
            final(self).recorded_version() == old(self).recorded_version(),
            final(self).is_read_only() == old(self).is_read_only(),
            final(self).rows@ == old(self).rows@.update(i as int, row),
    {
        let ghost before = self.rows@;
        let ghost put = row;
        proof {
            table_rows(before);
        }
        self.rows.set(i, row);
        proof {
            let after = self.rows@;
            assert(after =~= before.update(i as int, put));
            assert forall|k: int| 0 <= k < after.len() implies (#[trigger] after[k]).id
                == before[k].id by {}
            assert(ids_distinct(after)) by {
                assert forall|a: int, b: int|
                    0 <= a < after.len() && 0 <= b < after.len() && a != b implies (
                #[trigger] after[a]).id != (#[trigger] after[b]).id by {
                    assert(before[a].id != before[b].id);
                }
            }
            table_rows(after);
            assert(table_of(after) =~= table_of(before).insert(put.id, put@)) by {
                assert forall|id: i64| #[trigger] table_of(after).dom().contains(id)
                    == table_of(before).insert(put.id, put@).dom().contains(id) by {
                    if table_of(before).dom().contains(id) {
                        let p = place_of(before, id);
                        assert(after[p].id == id);
                    }
                    if table_of(after).dom().contains(id) {
                        let p = place_of(after, id);
                        assert(before[p].id == id);
                    }
                }
                assert forall|id: i64| #[trigger] table_of(after).dom().contains(id) implies
                    table_of(after)[id] == table_of(before).insert(put.id, put@)[id] by {
                    let p = place_of(after, id);
                    assert(after[p].id == id);
                    assert(before[p].id == id);
                    if id == put.id {
                        assert(after[i as int] == put);
                        assert(p == i as int);
                    } else {
                        assert(p != i as int);
                        assert(after[p] == before[p]);
                    }
                }
            }
        }
    }

    /// Stores a new item at the moment `now`. Fills in its id, its times and, if its position
    /// was negative, the position after its last sibling.
    pub fn insert_at(&mut self, item: &mut Item, now: Timestamp) -> (r: Result<(), DataError>)
        requires
            old(self).wf(),
            has_room_under(old(self).is_read_only(), old(self)@, old(item)@.parent_id),
        ensures
            final(self).wf(),
            final(self).recorded_version() == old(self).recorded_version(),
            final(self).is_read_only() == old(self).is_read_only(),
            inserted(old(self).is_read_only(), old(self)@, old(item)@, now, final(self)@, final(item)@, r),
            is_tree(old(self)@) ==> is_tree(final(self)@),
    {
        match self.validate_new_parent(item.parent_id) {
            Ok(()) => {},
            Err(e) => return Err(e),
        }
        if self.read_only {
            return Err(DataError::Sqlite(StorageFault::ReadOnly));
        }
        let (id, last) = self.next_places(item.parent_id);
        let slot = if item.order_index < 0 {
            last
        } else {
            Cell::number(item.order_index as i64)
        };
        let row = item_to_row(item, id, slot, Some(now), now);
        let ghost added = row@;
        self.add_row(row);
        proof {
            if is_tree(old(self)@) {
                adding_keeps_tree(old(self)@, id, added);
            }
        }
        if slot.misread {
            return Err(DataError::Sqlite(StorageFault::WrongType(POSITION_COLUMN)));
        }
        if slot.value < i32::MIN as i64 || slot.value > i32::MAX as i64 {
            return Err(DataError::Sqlite(StorageFault::OrderOutOfRange(slot.value)));
        }
        item.id = Some(id);
        item.order_index = slot.value as i32;
        item.created_at = now;
        item.updated_at = now;
        Ok(())
    }

    /// Stores a new item at the moment that the clock gives; see [`Self::insert_at`].
    pub fn insert(&mut self, item: &mut Item) -> (r: Result<(), DataError>)
        requires
            old(self).wf(),
            has_room_under(old(self).is_read_only(), old(self)@, old(item)@.parent_id),
        ensures
            final(self).wf(),
            final(self).recorded_version() == old(self).recorded_version(),
            final(self).is_read_only() == old(self).is_read_only(),
            exists|now: Timestamp|
                told_by_the_clock(now) && #[trigger] inserted(old(self).is_read_only(), old(self)@, old(item)@, now, final(self)@, final(item)@, r),
            is_tree(old(self)@) ==> is_tree(final(self)@),
    {
        let now = Timestamp::now();
        self.insert_at(item, now)
    }

    /// Rewrites a stored item at the moment `now`. The creation time stays.
    pub fn update_at(&mut self, item: &Item, now: Timestamp) -> (r: Result<(), DataError>)
        requires
            old(self).wf(),
        ensures
            final(self).wf(),
            final(self).recorded_version() == old(self).recorded_version(),
            final(self).is_read_only() == old(self).is_read_only(),
            updated(old(self).is_read_only(), old(self)@, item@, now, final(self)@, r),
            is_tree(old(self)@) ==> is_tree(final(self)@),
    {
        let id = match item.id {
            Some(id) => id,
            None => return Err(DataError::MissingId),
        };
        match self.validate_parent(id, item.parent_id) {
            Ok(()) => {},
            Err(e) => return Err(e),
        }
        if self.read_only {
            return Err(DataError::Sqlite(StorageFault::ReadOnly));
        }
        match self.find(id) {
            Some(i) => {
                let created_at = self.rows[i].created_at;
                let slot = Cell::number(item.order_index as i64);
                let row = item_to_row(item, id, slot, created_at, now);
                let ghost put = row@;
                self.replace_row(i, row);
                proof {
                    if is_tree(old(self)@) {
                        reparenting_keeps_tree(old(self)@, id, put);
                    }
                }
                Ok(())
            },
            None => Err(DataError::ItemNotFound(id)),
        }
    }

    /// Rewrites a stored item at the moment that the clock gives; see [`Self::update_at`].
    pub fn update(&mut self, item: &Item) -> (r: Result<(), DataError>)
        requires
            old(self).wf(),
        ensures
            final(self).wf(),
            final(self).recorded_version() == old(self).recorded_version(),
            final(self).is_read_only() == old(self).is_read_only(),
            exists|now: Timestamp|
                told_by_the_clock(now) && #[trigger] updated(old(self).is_read_only(), old(self)@, item@, now, final(self)@, r),
            is_tree(old(self)@) ==> is_tree(final(self)@),
    {
        let now = Timestamp::now();
        self.update_at(item, now)
    }

    /// Puts the row `id` under another parent at the moment `now`. Its position stays.
    pub fn move_to_parent_at(&mut self, id: i64, new_parent: i64, now: Timestamp) -> (r: Result<
        (),
        DataError,
    >)
        requires
            old(self).wf(),
        ensures
            final(self).wf(),
            final(self).recorded_version() == old(self).recorded_version(),
            final(self).is_read_only() == old(self).is_read_only(),
            reparented(old(self).is_read_only(), old(self)@, id, new_parent, now, final(self)@, r),
            is_tree(old(self)@) ==> is_tree(final(self)@),
    {
        match self.validate_parent(id, new_parent) {
            Ok(()) => {},
            Err(e) => return Err(e),
        }
        if self.read_only {
            return Err(DataError::Sqlite(StorageFault::ReadOnly));
        }
        match self.find(id) {
            Some(i) => {
                let old_row = &self.rows[i];
                let row = Row {
                    id,
                    parent_id: new_parent,
                    type_int: old_row.type_int,
                    title: old_row.title.clone(),
                    body_plain: old_row.body_plain.clone(),
                    body_rtf: old_row.body_rtf.clone(),
                    comment: old_row.comment.clone(),
                    order_index: old_row.order_index,
                    created_at: old_row.created_at,
                    updated_at: Some(now),
                    misread: Misread { parent: false, ..old_row.misread },
                    next: old_row.next,
                };
                let ghost put = row@;
                self.replace_row(i, row);
                proof {
                    if is_tree(old(self)@) {
                        reparenting_keeps_tree(old(self)@, id, put);
                    }
                }
                Ok(())
            },
            None => Err(DataError::ItemNotFound(id)),
        }
    }

    /// Puts the row `id` under another parent at the moment that the clock gives; see
    /// [`Self::move_to_parent_at`].
    pub fn move_to_parent(&mut self, id: i64, new_parent: i64) -> (r: Result<(), DataError>)
        requires
            old(self).wf(),
        ensures
            final(self).wf(),
            final(self).recorded_version() == old(self).recorded_version(),
            final(self).is_read_only() == old(self).is_read_only(),
            exists|now: Timestamp|
                told_by_the_clock(now) && #[trigger] reparented(old(self).is_read_only(), old(self)@, id, new_parent, now, final(self)@, r),
            is_tree(old(self)@) ==> is_tree(final(self)@),
    {
        let now = Timestamp::now();
        self.move_to_parent_at(id, new_parent, now)
    }

    /// The places of the rows that go when `id` is deleted. Children of what was found are
    /// looked up once each, so a cycle in the stored data ends the search.
    fn subtree_places(&self, id: i64) -> (r: Vec<usize>)
        requires
            self.wf(),
        ensures
            r@.no_duplicates(),
            forall|k: int| 0 <= k < r@.len() ==> (#[trigger] r@[k]) < self.rows@.len(),
            forall|i: usize| #[trigger]
                r@.contains(i) <==> i < self.rows@.len() && subtree(self@, id).contains(
                    self.rows@[i as int].id,
                ),
    {
        let ghost t = self@;
        let mut found: Vec<usize> = Vec::new();
        proof {
            table_rows(self.rows@);
        }
        match self.find(id) {
            Some(i) => found.push(i),
            None => {
                return found;
            },
        }
        let mut next: usize = 0;
        while next < found.len()
            invariant
                self.wf(),
                t == table_of(self.rows@),
                t == self@,
                t.dom().contains(id),
                forall|k: int|
                    0 <= k < self.rows@.len() ==> t.dom().contains((#[trigger] self.rows@[k]).id)
                        && t[self.rows@[k].id] == self.rows@[k]@,
                next <= found@.len(),
                found@.len() <= self.rows@.len(),
                found@.len() > 0,
                self.rows@[found@[0] as int].id == id,
                found@.no_duplicates(),
                forall|k: int|
                    0 <= k < found@.len() ==> (#[trigger] found@[k]) < self.rows@.len() && subtree(
                        t,
                        id,
                    ).contains(self.rows@[found@[k] as int].id),
                forall|k: int, q: usize|
                    0 <= k < next && q < self.rows@.len() && is_under(
                        self.rows@[q as int]@,
                        self.rows@[#[trigger] found@[k] as int].id,
                    ) ==> #[trigger] found@.contains(
                        q,
                    ),
            decreases self.rows@.len() - next,
        {
            let at = self.rows[found[next]].id;
            let ghost here = found@[next as int];
            let mut q: usize = 0;
            while q < self.rows.len()
                invariant
                    self.wf(),
                    t == table_of(self.rows@),
                    t == self@,
                    t.dom().contains(id),
                    forall|k: int|
                        0 <= k < self.rows@.len() ==> t.dom().contains(
                            (#[trigger] self.rows@[k]).id,
                        ) && t[self.rows@[k].id] == self.rows@[k]@,
                    q <= self.rows@.len(),
                    next < found@.len(),
                    found@[next as int] == here,
                    here < self.rows@.len(),
                    at == self.rows@[here as int].id,
                    subtree(t, id).contains(at),
                    self.rows@[found@[0] as int].id == id,
                    found@.no_duplicates(),
                    forall|k: int|
                        0 <= k < found@.len() ==> (#[trigger] found@[k]) < self.rows@.len()
                            && subtree(t, id).contains(self.rows@[found@[k] as int].id),
                    forall|k: int, q: usize|
                        0 <= k < next && q < self.rows@.len() && is_under(
                        self.rows@[q as int]@,
                        self.rows@[#[trigger] found@[k] as int].id,
                    )
                            ==> #[trigger] found@.contains(q),
                    forall|p: usize|
                        p < q && is_under(self.rows@[p as int]@, at) ==> #[trigger] found@.contains(
                            p,
                        ),
                decreases self.rows@.len() - q,
            {
                if self.rows[q].under(at) {
                    let known = has_place(&found, q);
                    if !known {
                        let ghost before = found@;
                        found.push(q);
                        proof {
                            child_in_subtree(t, id, self.rows@[q as int].id, at);
                            assert(found@ =~= before.push(q));
                            assert forall|p: usize| before.contains(p) || p == q implies
                                #[trigger] found@.contains(p) by {
                                if before.contains(p) {
                                    let k = choose|k: int|
                                        0 <= k < before.len() && before[k] == p;
                                    assert(found@[k] == p);
                                } else {
                                    assert(found@[before.len() as int] == p);
                                }
                            }
                            assert(found@.no_duplicates()) by {
                                assert forall|a: int, b: int|
                                    0 <= a < found@.len() && 0 <= b < found@.len() && a
                                        != b implies found@[a] != found@[b] by {
                                    if a == before.len() {
                                        assert(before.contains(before[b]));
                                    } else if b == before.len() {
                                        assert(before.contains(before[a]));
                                    }
                                }
                            }
                            assert forall|k: int, x: usize|
                                0 <= k < next && x < self.rows@.len()
                                    && is_under(
                        self.rows@[x as int]@,
                        self.rows@[#[trigger] found@[k] as int].id,
                    ) implies
                                #[trigger] found@.contains(x) by {
                                assert(before[k] == found@[k]);
                                assert(before.contains(x));
                            }
                            assert(found@.contains(q));
                            assert forall|p: usize|
                                p <= q && is_under(self.rows@[p as int]@, at) implies
                                #[trigger] found@.contains(p) by {
                                if p < q {
                                    assert(before.contains(p));
                                }
                            }
                        }
                    }
                }
                q = q + 1;
            }
            proof {
                distinct_below(found@, self.rows@.len());
                assert forall|k: int, x: usize|
                    0 <= k < next + 1 && x < self.rows@.len() && is_under(
                        self.rows@[x as int]@,
                        self.rows@[#[trigger] found@[k] as int].id,
                    ) implies #[trigger] found@.contains(
                    x,
                ) by {}
            }
            next = next + 1;
        }
        proof {
            assert forall|i: usize| #[trigger]
                found@.contains(i) <==> i < self.rows@.len() && subtree(self@, id).contains(
                self.rows@[i as int].id,
            ) by {
                if found@.contains(i) {
                    let k = choose|k: int| 0 <= k < found@.len() && found@[k] == i;
                    assert(found@[k] < self.rows@.len());
                }
                if i < self.rows@.len() && subtree(t, id).contains(self.rows@[i as int].id) {
                    let x = self.rows@[i as int].id;
                    if x == id {
                        assert(found@[0] == i);
                    } else {
                        let k = choose|k: nat| k > 0 && #[trigger] chain(t, x, k) == Some(id);
                        assert(self.rows.len() == self.rows@.len());
                        self.search_complete(found@, id, i, k);
                    }
                }
            }
        }
        found
    }

    /// A set of places that holds the row `id` and the children of what it holds takes in
    /// everything below `id`.
    proof fn search_complete(&self, found: Seq<usize>, id: i64, i: usize, k: nat)
        requires
            self.wf(),
            self@.dom().contains(id),
            found.len() > 0,
            found[0] < self.rows@.len(),
            self.rows@[found[0] as int].id == id,
            self.rows@.len() <= usize::MAX,
            forall|k: int, q: usize|
                0 <= k < found.len() && q < self.rows@.len() && is_under(
                        self.rows@[q as int]@,
                        self.rows@[#[trigger] found[k] as int].id,
                    ) ==> #[trigger] found.contains(q),
            i < self.rows@.len(),
            chain(self@, self.rows@[i as int].id, k) == Some(id),
        ensures
            found.contains(i),
        decreases k,
    {
        let t = self@;
        let x = self.rows@[i as int].id;
        table_rows(self.rows@);
        if k == 0 {
            assert(found[0] == i);
        } else {
            let up = self.rows@[i as int].parent_id;
            assert(t.dom().contains(x));
            assert(chain(t, x, 0) == Some(x));
            chain_prefix(t, x, 1, k);
            assert(chain(t, x, 1) == Some(up));
            chain_splits(t, x, 1, (k - 1) as nat, up);
            assert(1 + (k - 1) as nat == k);
            if k > 1 {
                chain_prefix(t, up, 0, (k - 1) as nat);
            }
            assert(t.dom().contains(up));
            let p = place_of(self.rows@, up);
            assert(self.rows@[p].id == up);
            self.search_complete(found, id, p as usize, (k - 1) as nat);
            let m = choose|m: int| 0 <= m < found.len() && found[m] == p as usize;
            assert(self.rows@[found[m] as int].id == up);
        }
    }

    /// The ids of the rows that go when `id` is deleted.
    pub fn subtree_ids(&self, id: i64) -> (r: Vec<i64>)
        requires
            self.wf(),
        ensures
            r@.no_duplicates(),
            r@.to_set() == subtree(self@, id),
    {
        let places = self.subtree_places(id);
        let mut out: Vec<i64> = Vec::new();
        let mut i: usize = 0;
        while i < places.len()
            invariant
                self.wf(),
                i <= places@.len(),
                forall|k: int|
                    0 <= k < places@.len() ==> (#[trigger] places@[k]) < self.rows@.len(),
                out@ == ids_at(self.rows@, places@).take(i as int),
            decreases places@.len() - i,
        {
            out.push(self.rows[places[i]].id);
            i = i + 1;
            assert(out@ =~= ids_at(self.rows@, places@).take(i as int));
        }
        proof {
            assert(self.rows.len() == self.rows@.len());
            table_rows(self.rows@);
            assert(out@ =~= ids_at(self.rows@, places@));
            assert(out@.no_duplicates()) by {
                assert forall|a: int, b: int|
                    0 <= a < out@.len() && 0 <= b < out@.len() && a != b implies out@[a]
                    != out@[b] by {
                    assert(places@[a] != places@[b]);
                    assert(self.rows@[places@[a] as int].id != self.rows@[places@[b] as int].id);
                }
            }
            assert forall|x: i64| #[trigger] out@.to_set().contains(x) == subtree(
                self@,
                id,
            ).contains(x) by {
                if out@.contains(x) {
                    let k = choose|k: int| 0 <= k < out@.len() && out@[k] == x;
                    assert(places@.contains(places@[k]));
                }
                if subtree(self@, id).contains(x) {
                    let p = place_of(self.rows@, x);
                    assert(self.rows@[p].id == x);
                    assert(places@.contains(p as usize));
                    let k = choose|k: int| 0 <= k < places@.len() && places@[k] == p as usize;
                    assert(out@[k] == x);
                }
            }
            assert(out@.to_set() =~= subtree(self@, id));
        }
        out
    }

    /// Deletes `id` and everything below it. Nothing happens if there is no such row.
    pub fn remove_subtree(&mut self, id: i64) -> (r: Result<(), DataError>)
        requires
            old(self).wf(),
        ensures
            final(self).wf(),
            final(self).recorded_version() == old(self).recorded_version(),
            final(self).is_read_only() == old(self).is_read_only(),
            removed(old(self).is_read_only(), old(self)@, id, final(self)@, r),
            is_tree(old(self)@) ==> is_tree(final(self)@),
    {
        if self.read_only {
            return Err(DataError::Sqlite(StorageFault::ReadOnly));
        }
        let places = self.subtree_places(id);
        let ghost before = self.rows@;
        let ghost gone = subtree(self@, id);
        let mut left: Vec<Row> = Vec::new();
        std::mem::swap(&mut left, &mut self.rows);
        // `from[k]` is where the `k`th kept row stood.
        let ghost mut from: Seq<int> = Seq::empty();
        proof {
            table_rows(before);
        }
        while left.len() > 0
            invariant
                ids_distinct(before),
                left@.len() <= before.len(),
                left@ == before.take(left@.len() as int),
                self.version == old(self).version,
                self.read_only == old(self).read_only,
                from.len() == self.rows@.len(),
                forall|i: usize| #[trigger]
                    places@.contains(i) <==> i < before.len() && gone.contains(
                        before[i as int].id,
                    ),
                forall|k: int|
                    0 <= k < from.len() ==> left@.len() <= (#[trigger] from[k]) < before.len()
                        && self.rows@[k] == before[from[k]] && !gone.contains(before[from[k]].id),
                forall|a: int, b: int|
                    0 <= a < b < from.len() ==> #[trigger] from[a] > #[trigger] from[b],
                forall|i: int|
                    left@.len() <= i < before.len() && !gone.contains((#[trigger] before[i]).id)
                        ==> from.contains(i),
            decreases left@.len(),
        {
            let ghost kept = from;
            let ghost rows_before = self.rows@;
            let i: usize = left.len() - 1;
            let dropped = has_place(&places, i);
            let last = left.pop();
            assert(left@ =~= before.take(left@.len() as int));
            match last {
                Some(row) => {
                    assert(row == before[i as int]);
                    if !dropped {
                        self.rows.push(row);
                        proof {
                            from = from.push(i as int);
                            assert(self.rows@ =~= rows_before.push(row));
                            assert forall|j: int|
                                left@.len() <= j < before.len() && !gone.contains(
                                    (#[trigger] before[j]).id,
                                ) implies from.contains(j) by {
                                if j == i as int {
                                    assert(from[kept.len() as int] == j);
                                } else {
                                    let k = choose|k: int|
                                        0 <= k < kept.len() && kept[k] == j;
                                    assert(from[k] == j);
                                }
                            }
                        }
                    }
                },
                None => {},
            }
        }
        proof {
            let after = self.rows@;
            assert(ids_distinct(after)) by {
                assert forall|a: int, b: int|
                    0 <= a < after.len() && 0 <= b < after.len() && a != b implies (
                #[trigger] after[a]).id != (#[trigger] after[b]).id by {
                    assert(from[a] != from[b]) by {
                        if a < b {
                            assert(from[a] > from[b]);
                        } else {
                            assert(from[b] > from[a]);
                        }
                    }
                    assert(before[from[a]].id != before[from[b]].id);
                }
            }
            table_rows(after);
            let kept_table = table_of(before).remove_keys(gone);
            assert(table_of(after) =~= kept_table) by {
                assert forall|x: i64| #[trigger] table_of(after).dom().contains(x)
                    == kept_table.dom().contains(x) by {
                    if table_of(after).dom().contains(x) {
                        let p = place_of(after, x);
                        assert(after[p] == before[from[p]]);
                        assert(table_of(before).dom().contains(before[from[p]].id));
                    }
                    if kept_table.dom().contains(x) {
                        let p = place_of(before, x);
                        assert(before[p].id == x);
                        assert(from.contains(p));
                        let k = choose|k: int| 0 <= k < from.len() && from[k] == p;
                        assert(after[k].id == x);
                    }
                }
                assert forall|x: i64| #[trigger] table_of(after).dom().contains(x) implies table_of(
                    after,
                )[x] == kept_table[x] by {
                    let p = place_of(after, x);
                    assert(after[p] == before[from[p]]);
                    assert(table_of(before).dom().contains(before[from[p]].id));
                }
            }
            if is_tree(old(self)@) {
                removing_keeps_tree(old(self)@, id);
            }
        }
        Ok(())
    }

    /// Gives the row at place `p` the position `order_index`.
    fn set_order(&mut self, p: usize, order_index: i64)
        requires
            p < old(self).rows@.len(),
        ensures
            final(self).version == old(self).version,
            final(self).read_only == old(self).read_only,
            final(self).rows@ == old(self).rows@.update(
                p as int,
                at_position(old(self).rows@[p as int], order_index),
            ),
    {
        let misread = Misread { position: false, ..self.rows[p].misread };
        self.rows[p].order_index = order_index;
        self.rows[p].misread = misread;
        self.rows[p].next = Cell::number(0);
    }

    /// Numbers the rows at the given places 0, 1, 2, .. in that order.
    fn renumber(&mut self, places: &Vec<usize>)
        requires
            old(self).wf(),
            places@.no_duplicates(),
            forall|k: int| 0 <= k < places@.len() ==> (#[trigger] places@[k]) < old(self).rows@.len(),
        ensures
            final(self).wf(),
            final(self).version == old(self).version,
            final(self).read_only == old(self).read_only,
            final(self)@ == renumbered(old(self)@, ids_at(old(self).rows@, places@)),
    {
        let ghost before = self.rows@;
        let ghost ids = ids_at(before, places@);
        let mut k: usize = 0;
        while k < places.len()
            invariant
                k <= places@.len(),
                self.version == old(self).version,
                self.read_only == old(self).read_only,
                places@.no_duplicates(),
                self.rows@.len() == before.len(),
                forall|j: int| 0 <= j < places@.len() ==> (#[trigger] places@[j]) < before.len(),
                forall|j: int|
                    0 <= j < k ==> self.rows@[#[trigger] places@[j] as int] == at_position(
                        before[places@[j] as int],
                        j as i64,
                    ),
                forall|q: int|
                    0 <= q < before.len() && (forall|j: int|
                        0 <= j < k ==> #[trigger] places@[j] != q) ==> (#[trigger] self.rows@[q])
                        == before[q],
            decreases places@.len() - k,
        {
            let ghost rows_before = self.rows@;
            let p = places[k];
            proof {
                assert forall|j: int| 0 <= j < k implies #[trigger] places@[j] != p by {
                    assert(places@[j] != places@[k as int]);
                }
                assert(rows_before[p as int] == before[p as int]);
            }
            self.set_order(p, k as i64);
            proof {
                assert forall|j: int| 0 <= j < k + 1 implies self.rows@[#[trigger] places@[j]
                    as int] == at_position(before[places@[j] as int], j as i64) by {
                    if j < k {
                        assert(places@[j] != places@[k as int]);
                        assert(self.rows@[places@[j] as int] == rows_before[places@[j] as int]);
                    }
                }
                assert forall|q: int|
                    0 <= q < before.len() && (forall|j: int|
                        0 <= j < k + 1 ==> #[trigger] places@[j] != q) implies (
                #[trigger] self.rows@[q]) == before[q] by {
                    assert(places@[k as int] != q);
                    assert(rows_before[q] == before[q]);
                }
            }
            k = k + 1;
        }
        proof {
            let after = self.rows@;
            assert forall|q: int| 0 <= q < after.len() implies (#[trigger] after[q]).id
                == before[q].id by {
                if exists|j: int| 0 <= j < places@.len() && #[trigger] places@[j] == q {
                    let j = choose|j: int| 0 <= j < places@.len() && #[trigger] places@[j] == q;
                    assert(after[places@[j] as int].id == before[q].id);
                }
            }
            assert(ids_distinct(after)) by {
                assert forall|a: int, b: int|
                    0 <= a < after.len() && 0 <= b < after.len() && a != b implies (
                #[trigger] after[a]).id != (#[trigger] after[b]).id by {
                    assert(before[a].id != before[b].id);
                }
            }
            table_rows(before);
            table_rows(after);
            let goal = renumbered(table_of(before), ids);
            assert(table_of(after) =~= goal) by {
                assert forall|x: i64| #[trigger] table_of(after).dom().contains(x)
                    == goal.dom().contains(x) by {
                    if table_of(after).dom().contains(x) {
                        assert(before[place_of(after, x)].id == x);
                    }
                    if table_of(before).dom().contains(x) {
                        assert(after[place_of(before, x)].id == x);
                    }
                }
                assert forall|x: i64| #[trigger] table_of(after).dom().contains(x) implies table_of(
                    after,
                )[x] == goal[x] by {
                    let q = place_of(after, x);
                    assert(before[q].id == x);
                    if ids.contains(x) {
                        let j = ids.index_of(x);
                        assert(0 <= j < ids.len() && ids[j] == x);
                        assert(before[places@[j] as int].id == x);
                        assert(places@[j] == q);
                        assert(after[places@[j] as int] == at_position(
                            before[places@[j] as int],
                            j as i64,
                        ));
                    } else {
                        assert forall|j: int| 0 <= j < places@.len() implies #[trigger] places@[j]
                            != q by {
                            if places@[j] == q {
                                assert(ids[j] == x);
                            }
                        }
                        assert(after[q] == before[q]);
                    }
                }
            }
        }
    }

    /// Moves `id` past the sibling next to it. The siblings are numbered anew first, in the
    /// order a load reports them, so that rows sharing a position are told apart.
    fn swap_with_adjacent(&mut self, id: i64, up: bool) -> (r: Result<(), DataError>)
        requires
            old(self).wf(),
        ensures
            final(self).wf(),
            final(self).recorded_version() == old(self).recorded_version(),
            final(self).is_read_only() == old(self).is_read_only(),
            shifted(old(self).is_read_only(), old(self)@, id, up, final(self)@, r),
            is_tree(old(self)@) ==> is_tree(final(self)@),
    {
        let i = match self.find(id) {
            Some(i) => i,
            None => return Ok(()),
        };
        let ghost t = self@;
        let order_index: i64 = self.rows[i].order_index;
        let parent_id: i64 = self.rows[i].parent_id;
        if self.rows[i].misread.parent {
            return Err(DataError::Sqlite(StorageFault::WrongType(PARENT_COLUMN)));
        }
        if self.rows[i].misread.position {
            return Err(DataError::Sqlite(StorageFault::WrongType(POSITION_COLUMN)));
        }
        if order_index < i32::MIN as i64 || order_index > i32::MAX as i64 {
            return Err(DataError::Sqlite(StorageFault::OrderOutOfRange(order_index)));
        }
        if self.read_only {
            return Err(DataError::Sqlite(StorageFault::ReadOnly));
        }
        let mut places = places_of(&self.rows, Some(parent_id));
        let ghost s = ids_at(self.rows@, places@);
        let ghost sorted = places@;
        proof {
            assert(self.rows.len() == self.rows@.len());
            assert(places.len() == places@.len());
            places_are_children(self.rows@, parent_id, places@);
            children_distinct(t, parent_id, s);
            assert(places@.no_duplicates()) by {
                assert forall|a: int, b: int|
                    0 <= a < places@.len() && 0 <= b < places@.len() && a != b implies places@[a]
                    != places@[b] by {
                    assert(s[a] != s[b]);
                }
            }
            assert(places@.contains(i));
        }
        let mut at: usize = 0;
        while places[at] != i
            invariant
                at < places.len(),
                places@ == sorted,
                sorted.contains(i),
                forall|k: int| 0 <= k < at ==> #[trigger] sorted[k] != i,
            decreases places@.len() - at,
        {
            proof {
                let k = choose|k: int| 0 <= k < sorted.len() && sorted[k] == i;
                assert(k > at);
            }
            at = at + 1;
        }
        proof {
            assert(s[at as int] == id);
            assert(s.contains(id));
            assert(s.index_of(id) == at as int) by {
                let j = s.index_of(id);
                assert(0 <= j < s.len() && s[j] == id);
            }
        }
        let other: usize = if up {
            if at == 0 {
                return Ok(());
            }
            at - 1
        } else {
            if at + 1 >= places.len() {
                return Ok(());
            }
            at + 1
        };
        let neighbour_place = places[other];
        places.set(at, neighbour_place);
        places.set(other, i);
        proof {
            let now = places@;
            assert(now =~= sorted.update(at as int, sorted[other as int]).update(
                other as int,
                sorted[at as int],
            ));
            assert(now.no_duplicates()) by {
                assert forall|a: int, b: int|
                    0 <= a < now.len() && 0 <= b < now.len() && a != b implies now[a] != now[b] by {
                    let a1 = if a == at { other as int } else if a == other { at as int } else { a };
                    let b1 = if b == at { other as int } else if b == other { at as int } else { b };
                    assert(sorted[a1] != sorted[b1]);
                }
            }
            assert forall|k: int| 0 <= k < now.len() implies (#[trigger] now[k])
                < self.rows@.len() by {
                let k1 = if k == at { other as int } else if k == other { at as int } else { k };
                assert(sorted[k1] < self.rows@.len());
            }
            assert(ids_at(self.rows@, now) =~= swapped(s, at as int, other as int));
            distinct_below(now, self.rows@.len());
        }
        self.renumber(&places);
        proof {
            if is_tree(t) {
                moving_keeps_tree(t, id, up);
            }
        }
        Ok(())
    }

    /// Moves `id` before the sibling above it. Nothing happens if it is the first.
    pub fn move_up(&mut self, id: i64) -> (r: Result<(), DataError>)
        requires
            old(self).wf(),
        ensures
            final(self).wf(),
            final(self).recorded_version() == old(self).recorded_version(),
            final(self).is_read_only() == old(self).is_read_only(),
            shifted(old(self).is_read_only(), old(self)@, id, true, final(self)@, r),
            is_tree(old(self)@) ==> is_tree(final(self)@),
    {
        self.swap_with_adjacent(id, true)
    }

    /// Moves `id` behind the sibling below it. Nothing happens if it is the last.
    pub fn move_down(&mut self, id: i64) -> (r: Result<(), DataError>)
        requires
            old(self).wf(),
        ensures
            final(self).wf(),
            final(self).recorded_version() == old(self).recorded_version(),
            final(self).is_read_only() == old(self).is_read_only(),
            shifted(old(self).is_read_only(), old(self)@, id, false, final(self)@, r),
            is_tree(old(self)@) ==> is_tree(final(self)@),
    {
        self.swap_with_adjacent(id, false)
    }

    /// A copy of every row, to be written to the file. A time that could not be read is left as
    /// it stands there.
    pub fn rows(&self) -> (r: Vec<Row>)
        requires
            self.wf(),
        ensures
            ids_distinct(r@),
            table_of(r@) == self@,
    {
        let mut out: Vec<Row> = Vec::new();
        let mut i: usize = 0;
        while i < self.rows.len()
            invariant
                i <= self.rows@.len(),
                out@.len() == i,
                forall|k: int|
                    0 <= k < i ==> (#[trigger] out@[k]).id == self.rows@[k].id && out@[k]@
                        == self.rows@[k]@,
            decreases self.rows@.len() - i,
        {
            let row = &self.rows[i];
            out.push(
                Row {
                    id: row.id,
                    parent_id: row.parent_id,
                    type_int: row.type_int,
                    title: row.title.clone(),
                    body_plain: row.body_plain.clone(),
                    body_rtf: row.body_rtf.clone(),
                    comment: row.comment.clone(),
                    order_index: row.order_index,
                    created_at: row.created_at,
                    updated_at: row.updated_at,
                    misread: row.misread,
                    next: row.next,
                },
            );
            i = i + 1;
        }
        proof {
            table_rows(self.rows@);
            table_rows(out@);
            assert forall|id: i64| #[trigger]
                table_of(out@).dom().contains(id) == self@.dom().contains(id) by {
                if table_of(out@).dom().contains(id) {
                    assert(self.rows@[place_of(out@, id)].id == id);
                }
                if self@.dom().contains(id) {
                    assert(out@[place_of(self.rows@, id)].id == id);
                }
            }
            assert forall|id: i64| #[trigger] self@.dom().contains(id) implies table_of(out@)[id]
                == self@[id] by {
                assert(out@[place_of(self.rows@, id)].id == id);
            }
            assert(table_of(out@) =~= self@);
        }
        out
    }

    /// The schema version recorded with the items, if any.
    pub fn schema_version(&self) -> (r: Result<Option<u32>, DataError>)
        ensures
            r == Ok::<Option<u32>, DataError>(self.recorded_version()),
    {
        Ok(self.version)
    }

    /// Takes over rows and the recorded schema version as the storage engine handed them out.
    /// Refused: a version ahead of this build. `None` stands for rows that no table can hold,
    /// because an id occurs twice. Where the file was opened for reading only, every write is
    /// refused later on.
    pub fn from_rows(
        raw: Vec<RawRow>,
        version: Option<i64>,
        expected: u32,
        read_only: bool,
    ) -> (r: Option<Result<Self, DataError>>)
        ensures
            match r {
                Some(Err(e)) => version_refused(version, expected, e),
                Some(Ok(db)) => {
                    &&& db.wf()
                    &&& db.recorded_version() == recorded(version)
                    &&& db.is_read_only() == read_only
                    &&& version_accepted(version, expected)
                    &&& raw_ids_fit(raw@)
                    &&& is_table_of_raw(raw@, db@)
                },
                None => version_accepted(version, expected) && !raw_ids_fit(raw@),
            },
    {
        let found = saturate_version(version);
        match check_version(found, expected) {
            Ok(()) => {},
            Err(e) => return Some(Err(e)),
        }
        let mut db = Database::new(found);
        let ghost given = raw@;
        let mut left = raw;
        while left.len() > 0
            invariant
                db.wf(),
                db.recorded_version() == recorded(version),
                version_accepted(version, expected),
                given == raw@,
                left@.len() <= given.len(),
                left@ == given.take(left@.len() as int),
                forall|i: int, j: int|
                    left@.len() <= i < given.len() && left@.len() <= j < given.len() && i != j
                        ==> (#[trigger] given[i]).id != (#[trigger] given[j]).id,
                forall|id: i64| #[trigger]
                    db@.dom().contains(id) <==> exists|i: int|
                        left@.len() <= i < given.len() && (#[trigger] given[i]).id == id,
                forall|i: int|
                    left@.len() <= i < given.len() ==> db@[(#[trigger] given[i]).id]
                        == row_of_raw(given[i]),
            decreases left@.len(),
        {
            let ghost table_before = db@;
            let ghost m = left@.len() - 1;
            let last = left.pop();
            assert(left@ =~= given.take(left@.len() as int));
            match last {
                Some(one) => {
                    assert(one == given[m]);
                    match db.find(one.id) {
                        Some(_) => {
                            proof {
                                let j = choose|j: int|
                                    m < j < given.len() && (#[trigger] given[j]).id == one.id;
                                assert(given[m].id == given[j].id);
                            }
                            return None;
                        },
                        None => {},
                    }
                    let row = read_row(one);
                    db.add_row(row);
                    proof {
                        assert forall|id: i64| #[trigger]
                            db@.dom().contains(id) <==> exists|i: int|
                                m <= i < given.len() && (#[trigger] given[i]).id == id by {
                            if table_before.dom().contains(id) {
                                let i = choose|i: int|
                                    m < i < given.len() && (#[trigger] given[i]).id == id;
                                assert(given[i].id == id);
                            }
                            if id == given[m].id {
                                assert(given[m].id == id);
                            }
                            if exists|i: int|
                                m <= i < given.len() && (#[trigger] given[i]).id == id {
                                let i = choose|i: int|
                                    m <= i < given.len() && (#[trigger] given[i]).id == id;
                                if i > m {
                                    assert(table_before.dom().contains(id));
                                }
                            }
                        }
                        assert forall|i: int|
                            m < i < given.len() implies (#[trigger] given[i]).id
                            != given[m].id by {
                            assert(table_before.dom().contains(given[i].id));
                        }
                    }
                },
                None => {},
            }
        }
        db.read_only = read_only;
        Some(Ok(db))
    }
}

} // verus!
