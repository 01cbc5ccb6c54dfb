//! The editor pane: what it shows of the selected row, and the changes typed into it that have
//! not been stored yet.
use crate::database::{updated, Database};
use crate::error::DataError;
use crate::item::{text_view, told_by_the_clock, ItemKind, ItemView, Timestamp};
use crate::table::{decode, is_tree, Table};
use crate::tree_builder::{history_index, history_index_from_item_id, row_views, TreeItem, TreeRow};
use crate::tree_view::{is_folder_row, readable_item, row_at};
use vstd::prelude::*;

verus! {

// ---- what the pane shows ------------------------------------------------

/// What the editor pane shows, and what of it can be typed into.
#[derive(Debug, PartialEq, Eq)]
pub struct EditorPane {
    pub title: String,
    pub body: String,
    pub title_enabled: bool,
    pub body_enabled: bool,
}

/// The value of an [`EditorPane`].
pub struct PaneView {
    pub title: Seq<char>,
    pub body: Seq<char>,
    pub title_enabled: bool,
    pub body_enabled: bool,
}

impl View for EditorPane {
    type V = PaneView;

    open spec fn view(&self) -> PaneView {
        PaneView {
            title: self.title@,
            body: self.body@,
            title_enabled: self.title_enabled,
            body_enabled: self.body_enabled,
        }
    }
}

/// The pane for a row. An entry of the history can be looked at, not changed. A stored item is
/// shown as it is stored: the row may still hold a title from before the last change, and
/// typing would put that back. A folder can be renamed and has no body to edit.
pub open spec fn pane_for(row: Option<TreeRow>, t: Table) -> PaneView {
    match row {
        None => PaneView {
            title: Seq::empty(),
            body: Seq::empty(),
            title_enabled: false,
            body_enabled: false,
        },
        Some(row) => if history_index(row.internal_id as int) is Some {
            PaneView {
                title: row.text,
                body: row.user_data,
                title_enabled: false,
                body_enabled: false,
            }
        } else {
            let stored = if row.internal_id > 0 {
                readable_item(t, row.internal_id as i64)
            } else {
                None
            };
            PaneView {
                title: match stored {
                    Some(item) => item.title,
                    None => row.text,
                },
                body: match stored {
                    Some(item) => item.body_plain,
                    None => row.user_data,
                },
                title_enabled: row.internal_id > 0,
                body_enabled: row.internal_id > 0 && !is_folder_row(row),
            }
        },
    }
}

/// What the editor pane shows of the selected row.
pub fn mirror_selection_to_editor(rows: &[TreeItem], index: i32, db: &Database) -> (r: EditorPane)
    requires
        db.wf(),
    ensures
        r@ == pane_for(row_at(row_views(rows@), index as int), db@),
{
    if index < 0 || index as usize >= rows.len() {
        return EditorPane {
            title: String::new(),
            body: String::new(),
            title_enabled: false,
            body_enabled: false,
        };
    }
    let row = &rows[index as usize];
    assert(row_views(rows@)[index as int] == row@);
    if history_index_from_item_id(row.internal_id).is_some() {
        return EditorPane {
            title: row.text.clone(),
            body: row.user_data.clone(),
            title_enabled: false,
            body_enabled: false,
        };
    }
    let title_enabled = row.internal_id > 0;
    let is_folder = row.item_type == ItemKind::Folder.as_i64() as i32;
    let body_enabled = !is_folder && row.internal_id > 0;
    if row.internal_id > 0 {
        if let Ok(Some(item)) = db.get(row.internal_id as i64) {
            return EditorPane {
                title: item.title,
                body: item.body_plain,
                title_enabled,
                body_enabled,
            };
        }
    }
    EditorPane { title: row.text.clone(), body: row.user_data.clone(), title_enabled, body_enabled }
}

// ---- changes not stored yet ---------------------------------------------

/// How long the editor waits after the last keystroke before it stores a change, in
/// milliseconds.
pub const EDITOR_COMMIT_DELAY_MS: u64 = 300;

/// A change that has not been stored yet.
#[derive(Debug, PartialEq, Eq)]
pub struct PendingEdit {
    pub id: i64,
    pub title: Option<String>,
    pub body: Option<String>,
}

/// The value of a [`PendingEdit`].
pub struct EditView {
    pub id: i64,
    pub title: Option<Seq<char>>,
    pub body: Option<Seq<char>>,
}

impl View for PendingEdit {
    type V = EditView;

    open spec fn view(&self) -> EditView {
        EditView { id: self.id, title: text_view(self.title), body: text_view(self.body) }
    }
}

pub open spec fn edit_view(edit: Option<PendingEdit>) -> Option<EditView> {
    match edit {
        Some(e) => Some(e@),
        None => None,
    }
}

/// The later of two texts typed into one field.
pub open spec fn later(earlier: Option<Seq<char>>, newer: Option<Seq<char>>) -> Option<Seq<char>> {
    match newer {
        Some(t) => Some(t),
        None => earlier,
    }
}

/// Typing into a row: what is then waiting, and what has to be stored first. A change to
/// another row is never dropped.
pub open spec fn queued(waiting: Option<EditView>, typed: EditView) -> (EditView, Option<EditView>) {
    match waiting {
        Some(w) => if w.id == typed.id {
            (
                EditView {
                    id: w.id,
                    title: later(w.title, typed.title),
                    body: later(w.body, typed.body),
                },
                None,
            )
        } else {
            (typed, Some(w))
        },
        None => (typed, None),
    }
}

/// Holds the change that waits to be stored. Every keystroke reports a change, and each of
/// them would otherwise be written to disk on its own.
pub struct EditQueue {
    waiting: Option<PendingEdit>,
}

impl EditQueue {
    /// The change that waits.
    pub closed spec fn waiting(&self) -> Option<EditView> {
        edit_view(self.waiting)
    }

    pub fn new() -> (r: Self)
        ensures
            r.waiting() is None,
    {
        EditQueue { waiting: None }
    }

    /// Takes up what was typed, and hands back a change of another row, which is to be stored
    /// now.
    pub fn queue_edit(&mut self, id: i64, title: Option<String>, body: Option<String>) -> (r:
        Option<PendingEdit>)
        ensures
            ({
                let typed = EditView { id, title: text_view(title), body: text_view(body) };
                let q = queued(old(self).waiting(), typed);
                final(self).waiting() == Some(q.0) && edit_view(r) == q.1
            }),
    {
        let waiting = self.waiting.take();
        match waiting {
            Some(w) => if w.id == id {
                let merged = PendingEdit {
                    id,
                    title: match title {
                        Some(t) => Some(t),
                        None => w.title,
                    },
                    body: match body {
                        Some(b) => Some(b),
                        None => w.body,
                    },
                };
                self.waiting = Some(merged);
                None
            } else {
                self.waiting = Some(PendingEdit { id, title, body });
                Some(w)
            },
            None => {
                self.waiting = Some(PendingEdit { id, title, body });
                None
            },
        }
    }

    /// Hands out the change that waits, to be stored now: the typing stopped, another row was
    /// selected, or the window closes.
    pub fn flush_pending_edit(&mut self) -> (r: Option<PendingEdit>)
        ensures
            edit_view(r) == old(self).waiting(),
            final(self).waiting() is None,
    {
        self.waiting.take()
    }
}

/// Typing into one row adds up: nothing has to be stored in between, and each field holds what
/// was typed into it last.
pub proof fn typing_adds_up(waiting: Option<EditView>, first: EditView, second: EditView)
    requires
        first.id == second.id,
    ensures
        ({
            let one = queued(waiting, first);
            let two = queued(Some(one.0), second);
            &&& two.1 is None
            &&& two.0.id == first.id
            &&& two.0.title == later(one.0.title, second.title)
            &&& two.0.body == later(one.0.body, second.body)
        }),
{
}

/// Nothing typed is dropped: a change that waits is either part of what waits next or handed
/// back to be stored.
pub proof fn no_change_is_dropped(waiting: EditView, typed: EditView)
    ensures
        ({
            let q = queued(Some(waiting), typed);
            if waiting.id == typed.id {
                &&& q.1 is None
                &&& q.0.title is None <==> waiting.title is None && typed.title is None
                &&& q.0.body is None <==> waiting.body is None && typed.body is None
            } else {
                q.1 == Some(waiting) && q.0 == typed
            }
        }),
{
}

// ---- storing a change ---------------------------------------------------

/// The item with the change made to it.
pub open spec fn edited(item: ItemView, edit: EditView) -> ItemView {
    ItemView {
        title: match edit.title {
            Some(t) => t,
            None => item.title,
        },
        body_plain: match edit.body {
            Some(b) => b,
            None => item.body_plain,
        },
        ..item
    }
}

/// What storing a change does. A row that is gone takes its change with it.
pub open spec fn committed(
    read_only: bool,
    before: Table,
    edit: EditView,
    now: Timestamp,
    after: Table,
    r: Result<bool, DataError>,
) -> bool {
    if !before.dom().contains(edit.id) {
        r == Ok::<bool, DataError>(false) && after == before
    } else {
        match decode(edit.id, before[edit.id]) {
            Err(e) => r == Err::<bool, DataError>(DataError::Sqlite(e)) && after == before,
            Ok(item) => match r {
                Ok(done) => done && updated(read_only, before, edited(item, edit), now, after, Ok(())),
                Err(e) => updated(read_only, before, edited(item, edit), now, after, Err(e)),
            },
        }
    }
}

/// Stores a change at the moment `now`. Says whether the tree has to be built again.
pub fn commit_edit_at(db: &mut Database, edit: PendingEdit, now: Timestamp) -> (r: Result<
    bool,
    DataError,
>)
    requires
        old(db).wf(),
    ensures
        final(db).wf(),
        final(db).recorded_version() == old(db).recorded_version(),
        final(db).is_read_only() == old(db).is_read_only(),
        committed(old(db).is_read_only(), old(db)@, edit@, now, final(db)@, r),
        is_tree(old(db)@) ==> is_tree(final(db)@),
{
    let mut item = match db.get(edit.id) {
        Ok(Some(item)) => item,
        Ok(None) => {
            return Ok(false);
        },
        Err(e) => {
            return Err(e);
        },
    };
    if let Some(title) = edit.title {
        item.title = title;
    }
    if let Some(body) = edit.body {
        item.body_plain = body;
    }
    match db.update_at(&item, now) {
        Ok(()) => Ok(true),
        Err(e) => Err(e),
    }
}

/// Stores a change now.
pub fn commit_edit(db: &mut Database, edit: PendingEdit) -> (r: Result<bool, DataError>)
    requires
        old(db).wf(),
    ensures
        final(db).wf(),
        final(db).recorded_version() == old(db).recorded_version(),
        final(db).is_read_only() == old(db).is_read_only(),
        exists|now: Timestamp|
            told_by_the_clock(now) && #[trigger] committed(
                old(db).is_read_only(),
                old(db)@,
                edit@,
                now,
                final(db)@,
                r,
            ),
        is_tree(old(db)@) ==> is_tree(final(db)@),
{
    let now = Timestamp::now();
    commit_edit_at(db, edit, now)
}

/// Storing a change touches one row, and of it only what was typed and the time of the change;
/// what was typed is then what the pane shows.
pub proof fn a_stored_change_is_read_back(
    before: Table,
    edit: EditView,
    now: Timestamp,
    after: Table,
    r: Result<bool, DataError>,
)
    requires
        committed(false, before, edit, now, after, r),
        r == Ok::<bool, DataError>(true),
    ensures
        before.dom().contains(edit.id),
        after.dom() == before.dom(),
        forall|id: i64|
            id != edit.id && before.dom().contains(id) ==> #[trigger] after[id] == before[id],
        readable_item(before, edit.id) is Some,
        readable_item(after, edit.id) == Some(
            ItemView { updated_at: now, ..edited(readable_item(before, edit.id)->0, edit) },
        ),
{
    let item = decode(edit.id, before[edit.id])->Ok_0;
    assert(after.dom() =~= before.dom());
}

} // verus!
