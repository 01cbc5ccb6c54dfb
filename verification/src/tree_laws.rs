//! What every operation on the stored items keeps, and what undoes what.
use crate::database::{inserted, loaded, readable, removed, reparented, shifted, updated};
use crate::error::DataError;
use crate::item::{ItemView, Timestamp};
use crate::table::{
    append_slot, chain, chain_agrees, chain_prefix, chain_splits, children, children_are_unique,
    children_distinct, decode, has_position, has_room, is_append_slot, is_below, is_children,
    is_last_child, is_next_row_id, is_tree, is_under, moved, neighbour, next_row_id,
    position_after, renumbered, RowView, sibling_before, stored_rtf, subtree, swapped, Table,
    valid_new_parent, valid_parent, write_read_round_trip,
};
use vstd::prelude::*;
use vstd::relations::{is_maximal, is_minimal, total_ordering};

verus! {

// ---- the tree -----------------------------------------------------------

/// Before a chain gets to the root it meets stored rows only.
proof fn chain_in_table(t: Table, id: i64, k: nat)
    requires
        chain(t, id, k) is Some,
    ensures
        forall|j: nat|
            j < k ==> (#[trigger] chain(t, id, j) matches Some(a) ==> t.dom().contains(a)) && chain(
                t,
                id,
                j,
            ) is Some,
{
    assert forall|j: nat| j < k implies (#[trigger] chain(t, id, j) matches Some(a)
        ==> t.dom().contains(a)) && chain(t, id, j) is Some by {
        chain_prefix(t, id, j, k);
    }
}

/// Adding a row under the root or under an existing row keeps every row reachable.
pub proof fn adding_keeps_tree(t: Table, id: i64, row: RowView)
    requires
        is_tree(t),
        !t.dom().contains(id),
        valid_new_parent(t, row.parent_id),
        !row.misread.parent,
    ensures
        is_tree(t.insert(id, row)),
{
    let u = t.insert(id, row);
    assert forall|x: i64| #[trigger] t.dom().contains(x) implies is_below(u, x, 0) by {
        let k = choose|k: nat| k > 0 && #[trigger] chain(t, x, k) == Some(0i64);
        chain_in_table(t, x, k);
        chain_agrees(t, u, x, k);
        assert(chain(u, x, k) == Some(0i64));
    }
    assert(chain(u, id, 0) == Some(id));
    assert(chain(u, id, 1) == Some(row.parent_id));
    if row.parent_id != 0 {
        assert(is_below(u, row.parent_id, 0));
        let k = choose|k: nat| k > 0 && #[trigger] chain(u, row.parent_id, k) == Some(0i64);
        chain_splits(u, id, 1, k, row.parent_id);
        assert(chain(u, id, 1 + k) == Some(0i64));
    }
    assert(is_below(u, id, 0));
}

/// Rewriting a row under a parent that is neither the row itself nor below it keeps every
/// row reachable.
pub proof fn reparenting_keeps_tree(t: Table, id: i64, row: RowView)
    requires
        is_tree(t),
        t.dom().contains(id),
        valid_parent(t, id, row.parent_id),
        !row.misread.parent,
    ensures
        is_tree(t.insert(id, row)),
{
    let u = t.insert(id, row);
    let p = row.parent_id;
    assert(chain(u, id, 0) == Some(id));
    assert(chain(u, id, 1) == Some(p));
    assert(is_below(u, id, 0)) by {
        if p != 0 {
            assert(is_below(t, p, 0));
            let m = choose|m: nat| m > 0 && #[trigger] chain(t, p, m) == Some(0i64);
            chain_in_table(t, p, m);
            assert forall|j: nat| j < m implies (#[trigger] chain(t, p, j) matches Some(a)
                ==> t.dom().contains(a) && u.dom().contains(a) && t[a].parent_id
                == u[a].parent_id && t[a].misread.parent == u[a].misread.parent) by {
                assert(chain(t, p, j) != Some(id)) by {
                    if j > 0 && chain(t, p, j) == Some(id) {
                        assert(is_below(t, p, id));
                    }
                }
            }
            chain_agrees(t, u, p, m);
            chain_splits(u, id, 1, m, p);
            assert(chain(u, id, 1 + m) == Some(0i64));
        }
    }
    assert forall|x: i64| #[trigger] u.dom().contains(x) implies is_below(u, x, 0) by {
        assert(t.dom().contains(x));
        let k = choose|k: nat| k > 0 && #[trigger] chain(t, x, k) == Some(0i64);
        chain_in_table(t, x, k);
        if exists|j: nat| j < k && #[trigger] chain(t, x, j) == Some(id) {
            let j0 = choose|j: nat| j < k && #[trigger] chain(t, x, j) == Some(id);
            let j = first_meeting(t, x, id, j0);
            chain_agrees(t, u, x, j);
            let n = choose|n: nat| n > 0 && #[trigger] chain(u, id, n) == Some(0i64);
            chain_splits(u, x, j, n, id);
            assert(chain(u, x, j + n) == Some(0i64));
        } else {
            chain_agrees(t, u, x, k);
            assert(chain(u, x, k) == Some(0i64));
        }
    }
}

/// The first step at which the chain of `x` meets `id`.
proof fn first_meeting(t: Table, x: i64, id: i64, k: nat) -> (j: nat)
    requires
        chain(t, x, k) == Some(id),
    ensures
        j <= k,
        chain(t, x, j) == Some(id),
        forall|i: nat| i < j ==> #[trigger] chain(t, x, i) != Some(id),
    decreases k,
{
    if exists|i: nat| i < k && #[trigger] chain(t, x, i) == Some(id) {
        let i = choose|i: nat| i < k && #[trigger] chain(t, x, i) == Some(id);
        first_meeting(t, x, id, i)
    } else {
        k
    }
}

/// Deleting a row with everything below it keeps every other row reachable: no orphan stays.
pub proof fn removing_keeps_tree(t: Table, id: i64)
    requires
        is_tree(t),
    ensures
        is_tree(t.remove_keys(subtree(t, id))),
{
    let u = t.remove_keys(subtree(t, id));
    assert forall|x: i64| #[trigger] u.dom().contains(x) implies is_below(u, x, 0) by {
        assert(t.dom().contains(x));
        let k = choose|k: nat| k > 0 && #[trigger] chain(t, x, k) == Some(0i64);
        chain_in_table(t, x, k);
        assert forall|j: nat| j < k implies (#[trigger] chain(t, x, j) matches Some(a)
            ==> t.dom().contains(a) && u.dom().contains(a) && t[a].parent_id
            == u[a].parent_id && t[a].misread.parent == u[a].misread.parent) by {
            if let Some(a) = chain(t, x, j) {
                if subtree(t, id).contains(a) {
                    if a != id {
                        let m = choose|m: nat| m > 0 && #[trigger] chain(t, a, m) == Some(id);
                        chain_splits(t, x, j, m, a);
                        assert(chain(t, x, j + m) == Some(id));
                    } else if j == 0 {
                        assert(x == id);
                    } else {
                        assert(chain(t, x, j) == Some(id));
                    }
                    assert(subtree(t, id).contains(x));
                }
            }
        }
        chain_agrees(t, u, x, k);
        assert(chain(u, x, k) == Some(0i64));
    }
}

/// Changing positions only keeps every row reachable.
pub proof fn renumbering_keeps_tree(t: Table, s: Seq<i64>)
    requires
        is_tree(t),
    ensures
        is_tree(renumbered(t, s)),
{
    let u = renumbered(t, s);
    assert forall|x: i64| #[trigger] u.dom().contains(x) implies is_below(u, x, 0) by {
        assert(t.dom().contains(x));
        let k = choose|k: nat| k > 0 && #[trigger] chain(t, x, k) == Some(0i64);
        chain_in_table(t, x, k);
        chain_agrees(t, u, x, k);
        assert(chain(u, x, k) == Some(0i64));
    }
}

/// Moving a row among its siblings keeps every row reachable.
pub proof fn moving_keeps_tree(t: Table, id: i64, up: bool)
    requires
        is_tree(t),
    ensures
        is_tree(moved(t, id, up)),
{
    let s = children(t, t[id].parent_id);
    let place = s.index_of(id);
    renumbering_keeps_tree(t, swapped(s, place, neighbour(place, up)));
}

// ---- order --------------------------------------------------------------

/// A finite set of ids can be listed in sibling order.
proof fn ordered_list(t: Table, ids: Set<i64>) -> (r: Seq<i64>)
    requires
        ids.finite(),
    ensures
        forall|x: i64| #[trigger] r.contains(x) <==> ids.contains(x),
        forall|i: int, j: int|
            0 <= i < j < r.len() ==> sibling_before(t, #[trigger] r[i], #[trigger] r[j]),
    decreases ids.len(),
{
    if ids.len() == 0 {
        let r = Seq::<i64>::empty();
        assert forall|x: i64| #[trigger] r.contains(x) <==> ids.contains(x) by {
            if ids.contains(x) {
                assert(ids.remove(x).len() < ids.len());
            }
        }
        r
    } else {
        let leq = |a: i64, b: i64| a == b || sibling_before(t, a, b);
        assert(total_ordering(leq));
        ids.find_unique_minimal_ensures(leq);
        let m = ids.find_unique_minimal(leq);
        assert(is_minimal(leq, m, ids));
        let rest = ordered_list(t, ids.remove(m));
        let r = seq![m] + rest;
        assert forall|x: i64| #[trigger] r.contains(x) <==> ids.contains(x) by {
            if r.contains(x) {
                let i = choose|i: int| 0 <= i < r.len() && r[i] == x;
                if i > 0 {
                    assert(rest[i - 1] == x);
                    assert(rest.contains(x));
                }
            }
            if ids.contains(x) {
                if x == m {
                    assert(r[0] == m);
                } else {
                    assert(ids.remove(m).contains(x));
                    assert(rest.contains(x));
                    let i = choose|i: int| 0 <= i < rest.len() && rest[i] == x;
                    assert(r[i + 1] == x);
                }
            }
        }
        assert forall|i: int, j: int| 0 <= i < j < r.len() implies sibling_before(
            t,
            #[trigger] r[i],
            #[trigger] r[j],
        ) by {
            assert(r[j] == rest[j - 1]);
            assert(rest.contains(rest[j - 1]));
            if i == 0 {
                assert(ids.contains(r[j]) && r[j] != m);
                assert(leq(r[j], m) ==> leq(m, r[j]));
                assert(leq(m, r[j]) || leq(r[j], m));
            } else {
                assert(r[i] == rest[i - 1]);
            }
        }
        r
    }
}

/// In a finite table the children of every row can be listed in their order.
pub proof fn children_exist(t: Table, parent: i64)
    requires
        t.dom().finite(),
    ensures
        is_children(t, parent, children(t, parent)),
{
    let ids = t.dom().filter(|id: i64| is_under(t[id], parent));
    t.dom().lemma_len_filter(|id: i64| is_under(t[id], parent));
    let r = ordered_list(t, ids);
    assert(is_children(t, parent, r));
}

/// What a list holds after two entries trade places.
proof fn swapped_members(s: Seq<i64>, i: int, j: int)
    requires
        0 <= i < s.len(),
        0 <= j < s.len(),
    ensures
        forall|x: i64| #[trigger] swapped(s, i, j).contains(x) <==> s.contains(x),
        s.no_duplicates() ==> swapped(s, i, j).no_duplicates(),
{
    let w = swapped(s, i, j);
    assert forall|x: i64| #[trigger] w.contains(x) <==> s.contains(x) by {
        if w.contains(x) {
            let k = choose|k: int| 0 <= k < w.len() && w[k] == x;
            let k1 = if k == i { j } else if k == j { i } else { k };
            assert(s[k1] == x);
        }
        if s.contains(x) {
            let k = choose|k: int| 0 <= k < s.len() && s[k] == x;
            let k1 = if k == i { j } else if k == j { i } else { k };
            assert(w[k1] == x);
        }
    }
    if s.no_duplicates() {
        assert forall|a: int, b: int|
            0 <= a < w.len() && 0 <= b < w.len() && a != b implies w[a] != w[b] by {
            let a1 = if a == i { j } else if a == j { i } else { a };
            let b1 = if b == i { j } else if b == j { i } else { b };
            assert(s[a1] != s[b1]);
        }
    }
}

/// Numbering the children of a row by a list of them makes that list their order, numbers
/// them 0, 1, 2, .., and leaves the children of every other row alone.
pub proof fn renumbering_sets_order(t: Table, parent: i64, w: Seq<i64>)
    requires
        w.no_duplicates(),
        w.len() <= i64::MAX,
        forall|id: i64| #[trigger]
            w.contains(id) <==> (t.dom().contains(id) && is_under(t[id], parent)),
    ensures
        children(renumbered(t, w), parent) == w,
        forall|k: int|
            0 <= k < w.len() ==> has_position(renumbered(t, w)[#[trigger] w[k]], k),
        forall|other: i64, s: Seq<i64>|
            other != parent && #[trigger] is_children(t, other, s) ==> children(
                renumbered(t, w),
                other,
            ) == s,
{
    let u = renumbered(t, w);
    assert forall|k: int| 0 <= k < w.len() implies has_position(u[#[trigger] w[k]], k) by {
        assert(w.contains(w[k]));
        let j = w.index_of(w[k]);
        assert(0 <= j < w.len() && w[j] == w[k]);
        assert(j == k);
    }
    assert(is_children(u, parent, w)) by {
        assert forall|id: i64| #[trigger] w.contains(id) <==> (u.dom().contains(id)
            && is_under(u[id], parent)) by {}
    }
    children_are_unique(u, parent, w);
    assert forall|other: i64, s: Seq<i64>|
        other != parent && #[trigger] is_children(t, other, s) implies children(u, other) == s by {
        assert forall|id: i64| #[trigger] s.contains(id) implies !w.contains(id) by {}
        assert(is_children(u, other, s)) by {
            assert forall|i: int, j: int| 0 <= i < j < s.len() implies sibling_before(
                u,
                #[trigger] s[i],
                #[trigger] s[j],
            ) by {
                assert(s.contains(s[i]) && s.contains(s[j]));
                assert(sibling_before(t, s[i], s[j]));
            }
            assert forall|id: i64| #[trigger] s.contains(id) <==> (u.dom().contains(id)
                && is_under(u[id], other)) by {}
        }
        children_are_unique(u, other, s);
    }
}

/// Renumbering twice by the same list is the same as once.
pub proof fn renumbering_is_idempotent(t: Table, w: Seq<i64>)
    ensures
        renumbered(renumbered(t, w), w) == renumbered(t, w),
{
    assert(renumbered(renumbered(t, w), w) =~= renumbered(t, w));
}

/// Moving a row makes it trade places with its neighbour. The other siblings keep their
/// places, all of them are numbered 0, 1, 2, .., and the children of other rows stay as they
/// were.
pub proof fn moving_trades_places(t: Table, id: i64, up: bool)
    requires
        t.dom().finite(),
        t.dom().contains(id),
        !t[id].misread.parent,
        children(t, t[id].parent_id).len() <= i64::MAX,
        ({
            let s = children(t, t[id].parent_id);
            0 <= neighbour(s.index_of(id), up) < s.len()
        }),
    ensures
        ({
            let parent = t[id].parent_id;
            let s = children(t, parent);
            let place = s.index_of(id);
            let after = children(moved(t, id, up), parent);
            &&& after == swapped(s, place, neighbour(place, up))
            &&& forall|k: int|
                0 <= k < after.len() ==> has_position(
                    moved(t, id, up)[#[trigger] after[k]],
                    k,
                )
            &&& forall|other: i64|
                other != parent ==> #[trigger] children(moved(t, id, up), other) == children(
                    t,
                    other,
                )
        }),
{
    let parent = t[id].parent_id;
    let s = children(t, parent);
    children_exist(t, parent);
    children_distinct(t, parent, s);
    assert(s.contains(id));
    let place = s.index_of(id);
    let other = neighbour(place, up);
    let w = swapped(s, place, other);
    swapped_members(s, place, other);
    renumbering_sets_order(t, parent, w);
    assert forall|q: i64| q != parent implies #[trigger] children(moved(t, id, up), q) == children(
        t,
        q,
    ) by {
        children_exist(t, q);
    }
}

/// Moving a row one way and back leaves its siblings in the order they had.
pub proof fn moving_back_restores_order(t: Table, id: i64, up: bool)
    requires
        t.dom().finite(),
        t.dom().contains(id),
        !t[id].misread.parent,
        children(t, t[id].parent_id).len() <= i64::MAX,
        ({
            let s = children(t, t[id].parent_id);
            0 <= neighbour(s.index_of(id), up) < s.len()
        }),
    ensures
        children(moved(moved(t, id, up), id, !up), t[id].parent_id) == children(
            t,
            t[id].parent_id,
        ),
        moved(moved(t, id, up), id, !up) == renumbered(t, children(t, t[id].parent_id)),
{
    let parent = t[id].parent_id;
    let s = children(t, parent);
    children_exist(t, parent);
    children_distinct(t, parent, s);
    assert(s.contains(id));
    let place = s.index_of(id);
    let other = neighbour(place, up);
    let w = swapped(s, place, other);
    swapped_members(s, place, other);
    moving_trades_places(t, id, up);
    let u = moved(t, id, up);
    assert(u.dom() =~= t.dom());
    assert(is_under(u[id], parent));
    assert(w[other] == id);
    assert(w.contains(id));
    assert(w.index_of(id) == other) by {
        let k = w.index_of(id);
        assert(0 <= k < w.len() && w[k] == id);
    }
    moving_trades_places(u, id, !up);
    assert(swapped(w, other, place) =~= s);
    assert(moved(u, id, !up) =~= renumbered(t, s)) by {
        let v = moved(u, id, !up);
        assert(v == renumbered(u, s));
        assert forall|x: i64| #[trigger] v.dom().contains(x) implies v[x] == renumbered(t, s)[x] by {
            assert(w.contains(x) <==> s.contains(x));
        }
    }
}

/// A finite table has a next id and, for every parent, a next position.
pub proof fn next_places_exist(t: Table, parent: i64)
    requires
        t.dom().finite(),
        has_room(t),
    ensures
        is_next_row_id(t, next_row_id(t)),
        i64::MIN <= next_row_id(t) <= i64::MAX,
        !t.dom().contains(next_row_id(t) as i64),
        is_append_slot(t, parent, append_slot(t, parent)),
{
    if t.dom().len() == 0 {
        assert forall|k: i64| !(#[trigger] t.dom().contains(k)) by {
            if t.dom().contains(k) {
                assert(t.dom().remove(k).len() < t.dom().len());
            }
        }
        assert(is_next_row_id(t, 1));
    } else {
        let leq = |a: i64, b: i64| a <= b;
        assert(total_ordering(leq));
        t.dom().find_unique_maximal_ensures(leq);
        let m = t.dom().find_unique_maximal(leq);
        assert(is_maximal(leq, m, t.dom()));
        assert forall|k: i64| #[trigger] t.dom().contains(k) implies k < m + 1 by {
            assert(leq(m, k) ==> leq(k, m));
        }
        assert(is_next_row_id(t, m + 1));
    }
    children_exist(t, parent);
    let s = children(t, parent);
    if s.len() == 0 {
        assert forall|k: i64| #[trigger] t.dom().contains(k) implies !is_under(t[k], parent) by {
            assert(!s.contains(k));
        }
        assert(is_append_slot(t, parent, crate::table::number_cell(0)));
    } else {
        let last = s.last();
        assert(s.contains(last));
        assert forall|k: i64| #[trigger]
            t.dom().contains(k) && is_under(t[k], parent) && k != last implies sibling_before(
            t,
            k,
            last,
        ) by {
            assert(s.contains(k));
            let i = choose|i: int| 0 <= i < s.len() && s[i] == k;
            assert(sibling_before(t, s[i], s[s.len() - 1]));
        }
        assert(is_last_child(t, parent, last));
        assert(is_append_slot(t, parent, position_after(t[last])));
    }
}

/// An item inserted without a position becomes the last of its siblings, where each of them
/// has a number for its position.
pub proof fn appended_item_is_last(
    before: Table,
    item: ItemView,
    now: Timestamp,
    after: Table,
    item_after: ItemView,
    r: Result<(), DataError>,
)
    requires
        before.dom().finite(),
        inserted(false, before, item, now, after, item_after, r),
        r is Ok,
        item.order_index < 0,
        has_room(before),
        forall|k: i64| #[trigger]
            before.dom().contains(k) && is_under(before[k], item.parent_id)
                ==> !before[k].misread.position,
    ensures
        children(after, item.parent_id) == children(before, item.parent_id).push(
            item_after.id->0,
        ),
{
    let parent = item.parent_id;
    let id = item_after.id->0;
    let s = children(before, parent);
    children_exist(before, parent);
    next_places_exist(before, parent);
    let w = s.push(id);
    assert(is_children(after, parent, w)) by {
        assert forall|x: i64| #[trigger] w.contains(x) <==> (after.dom().contains(x)
            && is_under(after[x], parent)) by {
            if w.contains(x) {
                let k = choose|k: int| 0 <= k < w.len() && w[k] == x;
                if k < s.len() {
                    assert(s[k] == x);
                    assert(s.contains(x));
                }
            }
            if after.dom().contains(x) && is_under(after[x], parent) {
                if x == id {
                    assert(w[s.len() as int] == id);
                } else {
                    assert(s.contains(x));
                    let k = choose|k: int| 0 <= k < s.len() && s[k] == x;
                    assert(w[k] == x);
                }
            }
        }
        assert forall|i: int, j: int| 0 <= i < j < w.len() implies sibling_before(
            after,
            #[trigger] w[i],
            #[trigger] w[j],
        ) by {
            assert(s.contains(s[i]));
            assert(before.dom().contains(s[i]));
            if j < s.len() {
                assert(s.contains(s[j]));
                assert(sibling_before(before, s[i], s[j]));
            }
        }
    }
    children_are_unique(after, parent, w);
}

// ---- reading back -------------------------------------------------------

/// What a successful insert stored is read back as the item it handed out; an empty rich
/// text is read back as none.
pub proof fn inserted_item_is_read_back(
    before: Table,
    item: ItemView,
    now: Timestamp,
    after: Table,
    item_after: ItemView,
    r: Result<(), DataError>,
)
    requires
        inserted(false, before, item, now, after, item_after, r),
        r is Ok,
    ensures
        item_after.id matches Some(id) && after.dom().contains(id) && decode(id, after[id]) == Ok::<
            ItemView,
            crate::error::StorageFault,
        >(ItemView { body_rtf: stored_rtf(item.body_rtf), ..item_after }),
{
    write_read_round_trip(item_after.id->0, item, item_after.order_index, now, now);
}

/// What a successful update stored is read back as the item it was given, with the creation
/// time that was there before and the new modification time.
pub proof fn updated_item_is_read_back(
    before: Table,
    item: ItemView,
    now: Timestamp,
    after: Table,
    r: Result<(), DataError>,
)
    requires
        updated(false, before, item, now, after, r),
        r is Ok,
        before[item.id->0].created_at is Some,
    ensures
        item.id matches Some(id) && after.dom().contains(id) && decode(id, after[id]) == Ok::<
            ItemView,
            crate::error::StorageFault,
        >(
            ItemView {
                body_rtf: stored_rtf(item.body_rtf),
                created_at: before[id].created_at->0,
                updated_at: now,
                ..item
            },
        ),
{
    let id = item.id->0;
    write_read_round_trip(id, item, item.order_index, before[id].created_at->0, now);
}

/// The lenient load leaves nothing out exactly when every row can be read.
pub proof fn lenient_load_is_complete(t: Table, n: int)
    requires
        0 <= n,
    ensures
        readable(t, n).len() <= n,
        readable(t, n).len() == n <==> forall|i: int| 0 <= i < n ==> #[trigger] loaded(t, i) is Ok,
    decreases n,
{
    if n > 0 {
        lenient_load_is_complete(t, n - 1);
        if readable(t, n).len() == n {
            assert forall|i: int| 0 <= i < n implies #[trigger] loaded(t, i) is Ok by {}
        }
        if forall|i: int| 0 <= i < n ==> #[trigger] loaded(t, i) is Ok {
            assert(loaded(t, n - 1) is Ok);
        }
    }
}

// ---- reading only -------------------------------------------------------

/// Law: a database that was opened for reading only never changes, whatever is asked of it.
pub proof fn a_read_only_table_never_changes(
    before: Table,
    after: Table,
    item: ItemView,
    item_after: ItemView,
    id: i64,
    parent: i64,
    up: bool,
    now: Timestamp,
    r: Result<(), DataError>,
)
    requires
        inserted(true, before, item, now, after, item_after, r) || updated(
            true,
            before,
            item,
            now,
            after,
            r,
        ) || reparented(true, before, id, parent, now, after, r) || removed(
            true,
            before,
            id,
            after,
            r,
        ) || shifted(true, before, id, up, after, r),
    ensures
        after == before,
{
}

} // verus!
