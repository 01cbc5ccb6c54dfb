//! The stored items as a mathematical table, and what holds of the tree they form.
use crate::error::StorageFault;
use crate::item::{kind_code, kind_of_code, ItemView, Timestamp};
use crate::ordering::ordered_lists_agree;
use vstd::prelude::*;

verus! {

/// Which columns of a row, up to the position, hold a value of another type than theirs.
#[derive(Debug, Clone, Copy, PartialEq, Eq, Structural)]
pub struct Misread {
    pub parent: bool,
    pub kind: bool,
    pub title: bool,
    pub body_plain: bool,
    pub body_rtf: bool,
    pub comment: bool,
    pub position: bool,
}

/// Every column holds a value of its type.
pub open spec fn nothing_misread() -> Misread {
    Misread {
        parent: false,
        kind: false,
        title: false,
        body_plain: false,
        body_rtf: false,
        comment: false,
        position: false,
    }
}

/// The number of the parent column.
pub const PARENT_COLUMN: u8 = 1;

/// The number of the position column.
pub const POSITION_COLUMN: u8 = 7;

/// The number of the first column that holds a value of another type.
pub open spec fn first_misread(m: Misread) -> Option<u8> {
    if m.parent {
        Some(PARENT_COLUMN)
    } else if m.kind {
        Some(2)
    } else if m.title {
        Some(3)
    } else if m.body_plain {
        Some(4)
    } else if m.body_rtf {
        Some(5)
    } else if m.comment {
        Some(6)
    } else if m.position {
        Some(POSITION_COLUMN)
    } else {
        None
    }
}

impl Misread {
    /// Every column holds a value of its type.
    pub fn nothing() -> (r: Self)
        ensures
            r == nothing_misread(),
    {
        Misread {
            parent: false,
            kind: false,
            title: false,
            body_plain: false,
            body_rtf: false,
            comment: false,
            position: false,
        }
    }

    /// The number of the first column that holds a value of another type.
    pub fn first(&self) -> (r: Option<u8>)
        ensures
            r == first_misread(*self),
    {
        if self.parent {
            Some(PARENT_COLUMN)
        } else if self.kind {
            Some(2)
        } else if self.title {
            Some(3)
        } else if self.body_plain {
            Some(4)
        } else if self.body_rtf {
            Some(5)
        } else if self.comment {
            Some(6)
        } else if self.position {
            Some(POSITION_COLUMN)
        } else {
            None
        }
    }
}

/// A number, or a value of another type that sorts right behind it.
#[derive(Debug, Clone, Copy, PartialEq, Eq, Structural)]
pub struct Cell {
    pub value: i64,
    pub misread: bool,
}

impl Cell {
    /// A number.
    pub fn number(value: i64) -> (r: Self)
        ensures
            r == number_cell(value),
    {
        Cell { value, misread: false }
    }
}

pub open spec fn number_cell(value: i64) -> Cell {
    Cell { value, misread: false }
}

/// One stored row, apart from its id. What stands for a text of another type means nothing.
/// What stands for a parent or a position of another type says only where it sorts: right
/// behind that number.
pub struct RowView {
    pub parent_id: i64,
    pub type_int: i64,
    pub title: Seq<char>,
    pub body_plain: Seq<char>,
    pub body_rtf: Seq<char>,
    pub comment: Seq<char>,
    pub order_index: i64,
    /// `None` if the stored text is no timestamp.
    pub created_at: Option<Timestamp>,
    /// `None` if the stored text is no timestamp.
    pub updated_at: Option<Timestamp>,
    pub misread: Misread,
    /// What one more than the position comes to where the position is of another type; 0
    /// otherwise.
    pub next: Cell,
}

/// The `items` table: rows by id.
pub type Table = Map<i64, RowView>;

/// Is this a row under `parent`? One whose parent column holds a value of another type is
/// under none.
pub open spec fn is_under(row: RowView, parent: i64) -> bool {
    !row.misread.parent && row.parent_id == parent
}

// ---- parent links -------------------------------------------------------

/// The `k`th parent link up from `id`: `id` itself for 0, nothing once a link leads to a row
/// that does not exist or whose parent cannot be read.
pub open spec fn chain(t: Table, id: i64, k: nat) -> Option<i64>
    decreases k,
{
    if k == 0 {
        Some(id)
    } else {
        match chain(t, id, (k - 1) as nat) {
            Some(a) => if t.dom().contains(a) && !t[a].misread.parent {
                Some(t[a].parent_id)
            } else {
                None
            },
            None => None,
        }
    }
}

/// Does some parent link, one or more steps up from `id`, lead to `ancestor`?
pub open spec fn is_below(t: Table, id: i64, ancestor: i64) -> bool {
    exists|k: nat| k > 0 && #[trigger] chain(t, id, k) == Some(ancestor)
}

/// The rows that go when `id` is deleted: the row itself and everything below it.
pub open spec fn subtree(t: Table, id: i64) -> Set<i64> {
    Set::new(|x: i64| t.dom().contains(id) && t.dom().contains(x) && (x == id || is_below(t, x, id)))
}

/// May a new row be put under `parent_id`?
pub open spec fn valid_new_parent(t: Table, parent_id: i64) -> bool {
    parent_id == 0 || (parent_id > 0 && t.dom().contains(parent_id))
}

/// May the row `id` be put under `parent_id`?
pub open spec fn valid_parent(t: Table, id: i64, parent_id: i64) -> bool {
    parent_id == 0 || (parent_id != id && parent_id > 0 && t.dom().contains(parent_id)
        && !is_below(t, parent_id, id))
}

/// Every row reaches the root by its parent links: no cycles and no orphans.
pub open spec fn is_tree(t: Table) -> bool {
    forall|id: i64| #[trigger] t.dom().contains(id) ==> is_below(t, id, 0)
}

pub proof fn chain_splits(t: Table, id: i64, a: nat, b: nat, mid: i64)
    requires
        chain(t, id, a) == Some(mid),
    ensures
        chain(t, id, a + b) == chain(t, mid, b),
    decreases b,
{
    if b > 0 {
        chain_splits(t, id, a, (b - 1) as nat, mid);
        assert((a + b - 1) as nat == (a + (b - 1) as nat) as nat);
    }
}

/// A chain that is defined at `k` is defined at every earlier step.
pub proof fn chain_prefix(t: Table, id: i64, j: nat, k: nat)
    requires
        j <= k,
        chain(t, id, k) is Some,
    ensures
        chain(t, id, j) is Some,
        j < k ==> t.dom().contains(chain(t, id, j)->0),
    decreases k,
{
    if j < k {
        chain_prefix(t, id, j, (k - 1) as nat);
    }
}

/// If a chain comes back to where it was, it never reaches anything new.
pub proof fn chain_repeats(t: Table, id: i64, j: nat, k: nat, m: nat)
    requires
        j < k,
        chain(t, id, j) == chain(t, id, k),
        chain(t, id, k) is Some,
        m > j,
    ensures
        exists|i: nat| j < i <= k && #[trigger] chain(t, id, i) == chain(t, id, m),
    decreases m,
{
    if m <= k {
        assert(chain(t, id, m) == chain(t, id, m));
    } else {
        chain_repeats(t, id, j, k, (m - 1) as nat);
        let i = choose|i: nat|
            j < i <= k && #[trigger] chain(t, id, i) == chain(t, id, (m - 1) as nat);
        if i < k {
            assert(chain(t, id, (i + 1) as nat) == chain(t, id, m));
        } else {
            assert(chain(t, id, (j + 1) as nat) == chain(t, id, (k + 1) as nat));
            assert(chain(t, id, (k + 1) as nat) == chain(t, id, m));
        }
    }
}

/// Two tables that give the same parents to every row a chain meets give the same chain.
pub proof fn chain_agrees(s: Table, t: Table, id: i64, k: nat)
    requires
        forall|j: nat|
            j < k ==> (#[trigger] chain(s, id, j) matches Some(a) ==> s.dom().contains(a)
                && t.dom().contains(a) && s[a].parent_id == t[a].parent_id && s[a].misread.parent
                == t[a].misread.parent),
    ensures
        chain(t, id, k) == chain(s, id, k),
    decreases k,
{
    if k > 0 {
        chain_agrees(s, t, id, (k - 1) as nat);
        let before = chain(s, id, (k - 1) as nat);
        assert(before matches Some(a) ==> s.dom().contains(a));
    }
}

// ---- reading rows -------------------------------------------------------

pub open spec fn fits_i32(v: int) -> bool {
    i32::MIN <= v <= i32::MAX
}

/// The item that a stored row is read as, or what makes it unreadable.
pub open spec fn decode(id: i64, row: RowView) -> Result<ItemView, StorageFault> {
    if first_misread(row.misread) is Some {
        Err(StorageFault::WrongType(first_misread(row.misread)->0))
    } else if !fits_i32(row.order_index as int) {
        Err(StorageFault::OrderOutOfRange(row.order_index))
    } else if row.created_at is None {
        Err(StorageFault::BadCreatedAt)
    } else if row.updated_at is None {
        Err(StorageFault::BadUpdatedAt)
    } else if kind_of_code(row.type_int as int) is None {
        Err(StorageFault::UnknownKind(row.type_int))
    } else {
        Ok(
            ItemView {
                id: Some(id),
                parent_id: row.parent_id,
                kind: kind_of_code(row.type_int as int)->0,
                title: row.title,
                body_plain: row.body_plain,
                body_rtf: if row.body_rtf.len() == 0 {
                    None
                } else {
                    Some(row.body_rtf)
                },
                comment: row.comment,
                order_index: row.order_index as i32,
                created_at: row.created_at->0,
                updated_at: row.updated_at->0,
            },
        )
    }
}

/// What one more than a new position comes to where that is of another type.
pub open spec fn next_of(slot: Cell) -> Cell {
    if !slot.misread {
        number_cell(0)
    } else if slot.value < i64::MAX {
        Cell { value: (slot.value + 1) as i64, misread: true }
    } else {
        slot
    }
}

/// The row an item is written as, at position `slot`.
pub open spec fn encode(
    item: ItemView,
    slot: Cell,
    created_at: Option<Timestamp>,
    updated_at: Timestamp,
) -> RowView {
    RowView {
        parent_id: item.parent_id,
        type_int: kind_code(item.kind) as i64,
        title: item.title,
        body_plain: item.body_plain,
        body_rtf: match item.body_rtf {
            Some(s) => s,
            None => Seq::empty(),
        },
        comment: item.comment,
        order_index: slot.value,
        created_at,
        updated_at: Some(updated_at),
        misread: Misread { position: slot.misread, ..nothing_misread() },
        next: next_of(slot),
    }
}

/// An empty rich text is the same as none once stored.
pub open spec fn stored_rtf(rtf: Option<Seq<char>>) -> Option<Seq<char>> {
    match rtf {
        Some(s) => if s.len() == 0 {
            None
        } else {
            Some(s)
        },
        None => None,
    }
}

/// Reading a row gives back the item that was written, with the id, the position and the
/// times it was stored under; an empty rich text comes back as none.
pub proof fn write_read_round_trip(
    id: i64,
    item: ItemView,
    order_index: i32,
    created_at: Timestamp,
    updated_at: Timestamp,
)
    ensures
        decode(id, encode(item, number_cell(order_index as i64), Some(created_at), updated_at)) == Ok::<
            ItemView,
            StorageFault,
        >(
            ItemView {
                id: Some(id),
                body_rtf: stored_rtf(item.body_rtf),
                order_index,
                created_at,
                updated_at,
                ..item
            },
        ),
{
    crate::item::kind_round_trip(item.kind, 0);
}

// ---- order --------------------------------------------------------------

/// Where a value sorts: one of another type right behind the number that stands for it.
pub open spec fn sort_key(misread: bool, value: i64) -> int {
    2 * value + if misread {
        1int
    } else {
        0int
    }
}

/// Where the parent of a row sorts.
pub open spec fn parent_key(row: RowView) -> int {
    sort_key(row.misread.parent, row.parent_id)
}

/// Where the position of a row sorts.
pub open spec fn position_key(row: RowView) -> int {
    sort_key(row.misread.position, row.order_index)
}

/// Is `k` the position of the row?
pub open spec fn has_position(row: RowView, k: int) -> bool {
    !row.misread.position && row.order_index == k
}

/// Does sibling `a` come before sibling `b`? By position, ties by id.
pub open spec fn sibling_before(t: Table, a: i64, b: i64) -> bool {
    position_key(t[a]) < position_key(t[b]) || (position_key(t[a]) == position_key(t[b]) && a < b)
}

/// The order of a load: by parent, then by position, then by id.
pub open spec fn row_before(t: Table, a: i64, b: i64) -> bool {
    parent_key(t[a]) < parent_key(t[b]) || (parent_key(t[a]) == parent_key(t[b])
        && sibling_before(t, a, b))
}

/// `s` lists every row exactly once, in load order.
pub open spec fn is_listing(t: Table, s: Seq<i64>) -> bool {
    &&& forall|id: i64| #[trigger] s.contains(id) <==> t.dom().contains(id)
    &&& forall|i: int, j: int| 0 <= i < j < s.len() ==> row_before(t, #[trigger] s[i], #[trigger] s[j])
}

/// `s` lists the children of `parent` exactly once each, in their order.
pub open spec fn is_children(t: Table, parent: i64, s: Seq<i64>) -> bool {
    &&& forall|id: i64| #[trigger]
        s.contains(id) <==> (t.dom().contains(id) && is_under(t[id], parent))
    &&& forall|i: int, j: int|
        0 <= i < j < s.len() ==> sibling_before(t, #[trigger] s[i], #[trigger] s[j])
}

/// All ids in load order.
pub open spec fn listing(t: Table) -> Seq<i64> {
    choose|s: Seq<i64>| is_listing(t, s)
}

/// The children of `parent` in their order.
pub open spec fn children(t: Table, parent: i64) -> Seq<i64> {
    choose|s: Seq<i64>| is_children(t, parent, s)
}

/// A table has only one load order.
pub proof fn listing_is_unique(t: Table, s: Seq<i64>)
    requires
        is_listing(t, s),
    ensures
        listing(t) == s,
{
    ordered_lists_agree(listing(t), s, |a: i64, b: i64| row_before(t, a, b));
}

/// The children of a row have only one order.
pub proof fn children_are_unique(t: Table, parent: i64, s: Seq<i64>)
    requires
        is_children(t, parent, s),
    ensures
        children(t, parent) == s,
{
    ordered_lists_agree(children(t, parent), s, |a: i64, b: i64| sibling_before(t, a, b));
}

/// A list ordered by sibling order holds nothing twice.
pub proof fn children_distinct(t: Table, parent: i64, s: Seq<i64>)
    requires
        is_children(t, parent, s),
    ensures
        s.no_duplicates(),
{
    assert forall|i: int, j: int| 0 <= i < s.len() && 0 <= j < s.len() && i != j implies s[i]
        != s[j] by {
        if i < j {
            assert(sibling_before(t, s[i], s[j]));
        } else {
            assert(sibling_before(t, s[j], s[i]));
        }
    }
}

// ---- ids and positions for new rows -------------------------------------

/// One more than the largest id in use; 1 for an empty table.
pub open spec fn is_next_row_id(t: Table, id: int) -> bool {
    &&& forall|k: i64| #[trigger] t.dom().contains(k) ==> k < id
    &&& (exists|k: i64| #[trigger] t.dom().contains(k) && k == id - 1) || (id == 1
        && forall|k: i64| !(#[trigger] t.dom().contains(k)))
}

pub open spec fn next_row_id(t: Table) -> int {
    choose|id: int| is_next_row_id(t, id)
}

/// One more than the position of a row. Beyond the largest number it is no number any more.
pub open spec fn position_after(row: RowView) -> Cell {
    if row.misread.position {
        row.next
    } else if row.order_index < i64::MAX {
        number_cell((row.order_index + 1) as i64)
    } else {
        Cell { value: i64::MAX, misread: true }
    }
}

/// One more than the position of the last child of `parent`; 0 if there are none.
pub open spec fn is_append_slot(t: Table, parent: i64, slot: Cell) -> bool {
    ||| exists|k: i64| #[trigger] is_last_child(t, parent, k) && position_after(t[k]) == slot
    ||| slot == number_cell(0) && forall|k: i64| #[trigger]
        t.dom().contains(k) ==> !is_under(t[k], parent)
}

/// Is `k` the last child of `parent`?
pub open spec fn is_last_child(t: Table, parent: i64, k: i64) -> bool {
    &&& t.dom().contains(k)
    &&& is_under(t[k], parent)
    &&& forall|j: i64| #[trigger]
        t.dom().contains(j) && is_under(t[j], parent) && j != k ==> sibling_before(t, j, k)
}

pub open spec fn append_slot(t: Table, parent: i64) -> Cell {
    choose|slot: Cell| is_append_slot(t, parent, slot)
}

pub proof fn next_row_id_is_unique(t: Table, id: int)
    requires
        is_next_row_id(t, id),
    ensures
        next_row_id(t) == id,
{
    assert(is_next_row_id(t, next_row_id(t)));
}

pub proof fn append_slot_is_unique(t: Table, parent: i64, slot: Cell)
    requires
        is_append_slot(t, parent, slot),
    ensures
        append_slot(t, parent) == slot,
{
    let other = append_slot(t, parent);
    assert(is_append_slot(t, parent, other));
    if exists|k: i64| #[trigger] is_last_child(t, parent, k) && position_after(t[k]) == slot {
        let a = choose|k: i64| #[trigger]
            is_last_child(t, parent, k) && position_after(t[k]) == slot;
        assert(t.dom().contains(a));
        let b = choose|k: i64| #[trigger]
            is_last_child(t, parent, k) && position_after(t[k]) == other;
        assert(t.dom().contains(b));
    } else if exists|k: i64| #[trigger]
        is_last_child(t, parent, k) && position_after(t[k]) == other {
        let b = choose|k: i64| #[trigger]
            is_last_child(t, parent, k) && position_after(t[k]) == other;
        assert(t.dom().contains(b));
    }
}

/// No id is so large that there is none after it.
pub open spec fn has_room(t: Table) -> bool {
    forall|id: i64| #[trigger] t.dom().contains(id) ==> id < i64::MAX
}

// ---- reordering ---------------------------------------------------------

/// `s` with two entries exchanged.
pub open spec fn swapped(s: Seq<i64>, i: int, j: int) -> Seq<i64> {
    s.update(i, s[j]).update(j, s[i])
}

/// The table with the rows of `s` numbered by their place in it.
pub open spec fn renumbered(t: Table, s: Seq<i64>) -> Table {
    Map::new(
        |id: i64| t.dom().contains(id),
        |id: i64|
            if s.contains(id) {
                RowView {
                    order_index: s.index_of(id) as i64,
                    misread: Misread { position: false, ..t[id].misread },
                    next: number_cell(0),
                    ..t[id]
                }
            } else {
                t[id]
            },
    )
}

/// The place among its siblings that a row trades with, going up or down.
pub open spec fn neighbour(place: int, up: bool) -> int {
    if up {
        place - 1
    } else {
        place + 1
    }
}

/// The table after moving `id` past its neighbour: the siblings are numbered 0, 1, 2, .. in
/// their old order, but for the two that trade places. Nothing changes if there is no such
/// row or no such neighbour.
pub open spec fn moved(t: Table, id: i64, up: bool) -> Table {
    if !t.dom().contains(id) {
        t
    } else {
        let s = children(t, t[id].parent_id);
        let place = s.index_of(id);
        let other = neighbour(place, up);
        if 0 <= other < s.len() {
            renumbered(t, swapped(s, place, other))
        } else {
            t
        }
    }
}

} // verus!
