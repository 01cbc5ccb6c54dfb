//! What the editor pane and the main window are for: the selected item is shown as it is
//! stored, and what is typed ends up in it.
use crate::database::inserted;
use crate::editor::{committed, edited, later, pane_for, queued, EditView};
use crate::error::DataError;
use crate::item::{fresh_item, told_by_the_clock, ItemKind, ItemView, Timestamp};
use crate::main_window::{change_stored, commit_effect, effect_of, item_added, no_effect, Effect};
use crate::table::{decode, is_below, Table};
use crate::tree_builder::TreeRow;
use vstd::prelude::*;

verus! {

// ---- the pane -----------------------------------------------------------

/// Law: what the pane shows. A stored item is shown as it is stored now; a captured text and a
/// row without an item as the row has them. Only a stored item can be typed into, and only the
/// title of a folder.
pub proof fn what_the_pane_shows(row: TreeRow, t: Table)
    ensures
        ({
            let id = row.internal_id as i64;
            let pane = pane_for(Some(row), t);
            let read = t.dom().contains(id) && decode(id, t[id]) is Ok;
            &&& id > 0 && read ==> pane.title == (decode(id, t[id])->Ok_0).title && pane.body == (
            decode(id, t[id])->Ok_0).body_plain
            &&& id <= 0 || !read ==> pane.title == row.text && pane.body == row.user_data
            &&& pane.title_enabled <==> id > 0
            &&& pane.body_enabled <==> id > 0 && row.item_type != 0
        }),
        pane_for(None, t).title.len() == 0,
        pane_for(None, t).body.len() == 0,
        !pane_for(None, t).title_enabled,
        !pane_for(None, t).body_enabled,
{
}

// ---- typing -------------------------------------------------------------

/// Law: what was typed into a row joins what waits for it, each field as it was typed last.
/// What waits for another row is handed back whole and is to be stored now.
pub proof fn what_waits_after_typing(waiting: Option<EditView>, typed: EditView)
    ensures
        ({
            let (next, stale) = queued(waiting, typed);
            &&& next.id == typed.id
            &&& typed.title is Some ==> next.title == typed.title
            &&& typed.body is Some ==> next.body == typed.body
            &&& waiting is Some && waiting->0.id == typed.id ==> {
                &&& stale is None
                &&& typed.title is None ==> next.title == waiting->0.title
                &&& typed.body is None ==> next.body == waiting->0.body
            }
            &&& waiting is Some && waiting->0.id != typed.id ==> stale == waiting && next == typed
            &&& waiting is None ==> stale is None && next == typed
        }),
        typed.title is Some ==> later(waiting->0.title, typed.title) == typed.title,
{
}

/// Law: storing a change writes what was typed into the fields it was typed into, and leaves
/// everything else of the item as it is.
pub proof fn what_a_change_makes_of_an_item(item: ItemView, edit: EditView)
    ensures
        ({
            let e = edited(item, edit);
            &&& edit.title is Some ==> e.title == edit.title->0
            &&& edit.title is None ==> e.title == item.title
            &&& edit.body is Some ==> e.body_plain == edit.body->0
            &&& edit.body is None ==> e.body_plain == item.body_plain
            &&& e.id == item.id
            &&& e.parent_id == item.parent_id
            &&& e.kind == item.kind
            &&& e.body_rtf == item.body_rtf
            &&& e.comment == item.comment
            &&& e.order_index == item.order_index
            &&& e.created_at == item.created_at
        }),
{
}

/// Law: a change is stored exactly if its row is there and can be read and the row's parent is
/// the root or another row that is not below it. Of the row only what was typed and the time
/// of the change are new. Otherwise nothing changes.
pub proof fn when_a_change_is_stored(
    before: Table,
    edit: EditView,
    now: Timestamp,
    after: Table,
    r: Result<bool, DataError>,
)
    requires
        committed(false, before, edit, now, after, r),
    ensures
        ({
            let id = edit.id;
            let parent = before[id].parent_id;
            &&& r == Ok::<bool, DataError>(true) <==> before.dom().contains(id) && decode(
                id,
                before[id],
            ) is Ok && (parent == 0 || (parent > 0 && parent != id && before.dom().contains(
                parent,
            ) && !is_below(before, parent, id)))
            &&& !before.dom().contains(id) ==> r == Ok::<bool, DataError>(false)
            &&& r != Ok::<bool, DataError>(true) ==> after == before
            &&& r == Ok::<bool, DataError>(true) ==> {
                &&& after.dom() == before.dom()
                &&& forall|k: i64| k != id && #[trigger] before.dom().contains(k) ==> after[k]
                    == before[k]
                &&& after[id].title == (match edit.title {
                    Some(t) => t,
                    None => before[id].title,
                })
                &&& after[id].body_plain == (match edit.body {
                    Some(b) => b,
                    None => before[id].body_plain,
                })
                &&& after[id].body_rtf == before[id].body_rtf
                &&& after[id].comment == before[id].comment
                &&& after[id].parent_id == parent
                &&& after[id].type_int == before[id].type_int
                &&& after[id].order_index == before[id].order_index
                &&& after[id].created_at == before[id].created_at
                &&& after[id].updated_at == Some(now)
            }
        }),
{
    let id = edit.id;
    if before.dom().contains(id) && decode(id, before[id]) is Ok {
        if r is Ok {
            assert(after.dom() =~= before.dom());
            if before[id].body_rtf.len() == 0 {
                assert(before[id].body_rtf =~= Seq::<char>::empty());
            }
        }
    }
}

// ---- the main window ----------------------------------------------------

/// Law: a button that adds an item inserts a fresh one under the parent, of the kind and with
/// the title that it has, empty and behind its siblings. The tree is built again exactly if it
/// was stored, and an error is reported exactly if it was not.
pub proof fn what_an_add_button_does(
    before: Table,
    parent: i64,
    kind: ItemKind,
    title: Seq<char>,
    after: Table,
    e: Effect,
)
    requires
        item_added(false, before, parent, kind, title, after, e),
    ensures
        e.refresh <==> e.error is None,
        exists|item: ItemView, stored: ItemView, now: Timestamp, r: Result<(), DataError>|
            {
                &&& #[trigger] inserted(false, before, item, now, after, stored, r)
                &&& told_by_the_clock(now)
                &&& item.id is None
                &&& item.parent_id == parent
                &&& item.kind == kind
                &&& item.title == title
                &&& item.body_plain.len() == 0
                &&& item.body_rtf is None
                &&& item.comment.len() == 0
                &&& item.order_index < 0
                &&& r is Ok <==> e.refresh
                &&& r is Err ==> e.error == Some(r->Err_0)
            },
{
    let (item, stored, now, r) = choose|
        item: ItemView,
        stored: ItemView,
        now: Timestamp,
        r: Result<(), DataError>,
    |
        {
            &&& #[trigger] inserted(false, before, item, now, after, stored, r)
            &&& told_by_the_clock(now)
            &&& item == fresh_item(
                parent,
                kind,
                title,
                Seq::empty(),
                item.created_at,
                item.updated_at,
            )
            &&& e == effect_of(r)
        };
    assert(inserted(false, before, item, now, after, stored, r));
}

/// Law: what is left to do after a write. One that succeeded shows in the tree, one that failed
/// is reported, and a change whose row is gone is neither.
pub proof fn what_follows_a_write(r: Result<(), DataError>, c: Result<bool, DataError>)
    ensures
        r is Ok ==> effect_of(r).refresh && effect_of(r).error is None,
        r is Err ==> !effect_of(r).refresh && effect_of(r).error == Some(r->Err_0),
        c is Ok ==> (commit_effect(c).refresh <==> c->Ok_0) && commit_effect(c).error is None,
        c is Err ==> !commit_effect(c).refresh && commit_effect(c).error == Some(c->Err_0),
        !no_effect().refresh && no_effect().error is None,
{
}

/// Law: leaving a row stores the change that waits for it, and does nothing where none waits.
pub proof fn leaving_stores_what_waits(
    before: Table,
    edit: Option<EditView>,
    after: Table,
    e: Effect,
)
    requires
        change_stored(false, before, edit, after, e),
    ensures
        edit is None ==> after == before && !e.refresh && e.error is None,
        edit is Some ==> exists|now: Timestamp, r: Result<bool, DataError>| #[trigger]
            committed(false, before, edit->0, now, after, r) && told_by_the_clock(now) && (
            e.refresh <==> r == Ok::<bool, DataError>(true)) && (e.error is Some <==> r is Err) && (
            r is Err ==> e.error == Some(r->Err_0)),
{
    if edit is Some {
        let (now, r) = choose|now: Timestamp, r: Result<bool, DataError>| #[trigger]
            committed(false, before, edit->0, now, after, r) && told_by_the_clock(now) && e
                == commit_effect(r);
        assert(committed(false, before, edit->0, now, after, r));
    }
}

/// Law: a fresh item is not stored yet, has what it was made with and nothing else, and goes
/// behind its siblings.
pub proof fn what_a_fresh_item_has(
    parent: i64,
    kind: ItemKind,
    title: Seq<char>,
    body: Seq<char>,
    created_at: Timestamp,
    updated_at: Timestamp,
)
    ensures
        ({
            let item = fresh_item(parent, kind, title, body, created_at, updated_at);
            &&& item.id is None
            &&& item.parent_id == parent
            &&& item.kind == kind
            &&& item.title == title
            &&& item.body_plain == body
            &&& item.body_rtf is None
            &&& item.comment.len() == 0
            &&& item.order_index == -1
            &&& item.created_at == created_at
            &&& item.updated_at == updated_at
        }),
{
}

} // verus!
