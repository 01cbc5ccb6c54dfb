//! The main window: what its buttons, its tree and its editor do.
use crate::clipboard_history::{entry_views, HistoryEntry};
use crate::database::{has_room_under, inserted, readable, removed, shifted, Database};
use crate::editor::{
    commit_edit_at, committed, edit_view, mirror_selection_to_editor, pane_for, queued, EditQueue,
    EditView, EditorPane, PendingEdit,
};
use crate::error::DataError;
use crate::item::{
    fresh_item, text_view, told_by_the_clock, HistoryPosition, Item, ItemKind, ItemView, Timestamp,
};
use crate::table::{is_tree, listing, Table};
use crate::tree_builder::{history_index_from_item_id, row_views, tree_rows, TreeItem, TreeRow};
use crate::tree_view::{
    activated_row_text, build_refresh_rows, current_parent_id, delete_step, folder_ids,
    index_of_id, is_place_of, is_restored, live_collapsed, new_item_parent, pasted_text,
    place_view, restored_selection, row_at, selected_id, selected_row_id, selected_row_id_i32,
    set_expanded, set_expanded_all, subtree_end, subtree_folder_ids, toggled, toggled_all,
    DeleteStep,
};
use std::collections::HashSet;
use vstd::prelude::*;

verus! {

broadcast use vstd::std_specs::hash::group_hash_axioms;

/// What is left to do after an action: build the tree again, or report an error.
#[derive(Debug, PartialEq, Eq)]
pub struct Effect {
    pub refresh: bool,
    pub error: Option<DataError>,
}

/// A write that succeeded shows in the tree; one that failed is reported.
pub open spec fn effect_of(r: Result<(), DataError>) -> Effect {
    match r {
        Ok(()) => Effect { refresh: true, error: None },
        Err(e) => Effect { refresh: false, error: Some(e) },
    }
}

/// The same for storing a change, which may find its row gone.
pub open spec fn commit_effect(r: Result<bool, DataError>) -> Effect {
    match r {
        Ok(done) => Effect { refresh: done, error: None },
        Err(e) => Effect { refresh: false, error: Some(e) },
    }
}

pub open spec fn no_effect() -> Effect {
    Effect { refresh: false, error: None }
}

fn after_write(r: Result<(), DataError>) -> (e: Effect)
    ensures
        e == effect_of(r),
{
    match r {
        Ok(()) => Effect { refresh: true, error: None },
        Err(e) => Effect { refresh: false, error: Some(e) },
    }
}

fn nothing() -> (e: Effect)
    ensures
        e == no_effect(),
{
    Effect { refresh: false, error: None }
}

/// Was a fresh item of this kind stored under `parent`, or refused?
pub open spec fn item_added(
    read_only: bool,
    before: Table,
    parent: i64,
    kind: ItemKind,
    title: Seq<char>,
    after: Table,
    e: Effect,
) -> bool {
    exists|item: ItemView, stored: ItemView, now: Timestamp, r: Result<(), DataError>|
        {
            &&& #[trigger] inserted(read_only, before, item, now, after, stored, r)
            &&& told_by_the_clock(now)
            &&& item == fresh_item(
                parent,
                kind,
                title,
                Seq::empty(),
                item.created_at,
                item.updated_at,
            )
            &&& e == effect_of(r)
        }
}

/// Was the change that waited stored, if there was one?
pub open spec fn change_stored(
    read_only: bool,
    before: Table,
    edit: Option<EditView>,
    after: Table,
    e: Effect,
) -> bool {
    match edit {
        Some(edit) => exists|now: Timestamp, r: Result<bool, DataError>| #[trigger]
            committed(read_only, before, edit, now, after, r) && told_by_the_clock(now) && e
                == commit_effect(r),
        None => after == before && e == no_effect(),
    }
}

/// The state of the main window.
pub struct MainWindow {
    /// The rows of the tree.
    pub rows: Vec<TreeItem>,
    /// The selected row; below zero where there is none.
    pub index: i32,
    pub pane: EditorPane,
    /// The folders that are closed.
    pub collapsed: HashSet<i64>,
    /// The change that has not been stored yet.
    pub edits: EditQueue,
}

impl MainWindow {
    /// The parent of an item that is added now.
    pub open spec fn new_parent(&self) -> i64 {
        match row_at(self.shown(), self.index as int) {
            Some(row) => new_item_parent(row),
            None => 0,
        }
    }

    /// The rows of the tree, by their values.
    pub open spec fn shown(&self) -> Seq<TreeRow> {
        row_views(self.rows@)
    }

    /// The id of the selected row; see [`selected_id`].
    pub open spec fn selected(&self) -> i32 {
        selected_id(self.shown(), self.index as int)
    }

    /// An empty window, before the tree has been built.
    pub fn new() -> (r: Self)
        ensures
            r.rows@ == Seq::<TreeItem>::empty(),
            r.index == -1,
            r.collapsed@ == Set::<i64>::empty(),
            r.edits.waiting() is None,
            r.pane@ == pane_for(None, Map::empty()),
    {
        let collapsed: HashSet<i64> = HashSet::new();
        assert(collapsed@ =~= Set::<i64>::empty());
        MainWindow {
            rows: Vec::new(),
            index: -1,
            pane: EditorPane {
                title: String::new(),
                body: String::new(),
                title_enabled: false,
                body_enabled: false,
            },
            collapsed,
            edits: EditQueue::new(),
        }
    }

    // ---- buttons --------------------------------------------------------

    /// Adds a folder where the selection says.
    pub fn add_folder(&self, db: &mut Database) -> (e: Effect)
        requires
            old(db).wf(),
            has_room_under(old(db).is_read_only(), old(db)@, self.new_parent()),
        ensures
            final(db).wf(),
            final(db).recorded_version() == old(db).recorded_version(),
            final(db).is_read_only() == old(db).is_read_only(),
            is_tree(old(db)@) ==> is_tree(final(db)@),
            item_added(
                old(db).is_read_only(),
                old(db)@,
                self.new_parent(),
                ItemKind::Folder,
                "New Folder"@,
                final(db)@,
                e,
            ),
    {
        let parent: i64 = current_parent_id(&self.rows, self.index);
        let mut item = Item::new_folder(parent, "New Folder");
        let r = db.insert(&mut item);
        after_write(r)
    }

    /// Adds a snippet where the selection says.
    pub fn add_plain(&self, db: &mut Database) -> (e: Effect)
        requires
            old(db).wf(),
            has_room_under(old(db).is_read_only(), old(db)@, self.new_parent()),
        ensures
            final(db).wf(),
            final(db).recorded_version() == old(db).recorded_version(),
            final(db).is_read_only() == old(db).is_read_only(),
            is_tree(old(db)@) ==> is_tree(final(db)@),
            item_added(
                old(db).is_read_only(),
                old(db)@,
                self.new_parent(),
                ItemKind::Plain,
                "New Snippet"@,
                final(db)@,
                e,
            ),
    {
        let parent: i64 = current_parent_id(&self.rows, self.index);
        let mut item = Item::new_plain(parent, "New Snippet", "");
        proof {
            reveal_strlit("");
            assert(""@ =~= Seq::<char>::empty());
        }
        let r = db.insert(&mut item);
        after_write(r)
    }

    /// Deletes the selected item; a folder only after the user was asked. Gives what to ask, as
    /// the folder's title.
    pub fn delete(&self, db: &mut Database) -> (r: (Effect, Option<String>))
        requires
            old(db).wf(),
        ensures
            final(db).wf(),
            final(db).recorded_version() == old(db).recorded_version(),
            final(db).is_read_only() == old(db).is_read_only(),
            is_tree(old(db)@) ==> is_tree(final(db)@),
            ({
                let id = self.selected() as i64;
                let item = crate::tree_view::readable_item(old(db)@, id);
                if id <= 0 || item is None {
                    final(db)@ == old(db)@ && r.0 == no_effect() && r.1 is None
                } else if item->0.kind == ItemKind::Folder {
                    final(db)@ == old(db)@ && r.0 == no_effect() && text_view(r.1) == Some(
                        item->0.title,
                    )
                } else {
                    &&& r.1 is None
                    &&& exists|w: Result<(), DataError>| #[trigger]
                        removed(old(db).is_read_only(), old(db)@, id, final(db)@, w) && r.0
                            == effect_of(w)
                }
            }),
    {
        match delete_step(&self.rows, self.index, db) {
            DeleteStep::Nothing => (nothing(), None),
            DeleteStep::Remove(id) => {
                let r = db.remove_subtree(id);
                (after_write(r), None)
            },
            DeleteStep::Ask(_, title) => (nothing(), Some(title)),
        }
    }

    /// Deletes the selected item with everything below it, the user having agreed.
    pub fn delete_confirmed(&self, db: &mut Database) -> (e: Effect)
        requires
            old(db).wf(),
        ensures
            final(db).wf(),
            final(db).recorded_version() == old(db).recorded_version(),
            final(db).is_read_only() == old(db).is_read_only(),
            is_tree(old(db)@) ==> is_tree(final(db)@),
            if self.selected() > 0 {
                exists|w: Result<(), DataError>| #[trigger]
                    removed(
                        old(db).is_read_only(),
                        old(db)@,
                        self.selected() as i64,
                        final(db)@,
                        w,
                    ) && e == effect_of(w)
            } else {
                final(db)@ == old(db)@ && e == no_effect()
            },
    {
        match selected_row_id(&self.rows, self.index) {
            Some(id) => {
                let r = db.remove_subtree(id);
                after_write(r)
            },
            None => nothing(),
        }
    }

    /// Moves the selected item past its neighbour.
    pub fn move_selected(&self, db: &mut Database, up: bool) -> (e: Effect)
        requires
            old(db).wf(),
        ensures
            final(db).wf(),
            final(db).recorded_version() == old(db).recorded_version(),
            final(db).is_read_only() == old(db).is_read_only(),
            is_tree(old(db)@) ==> is_tree(final(db)@),
            if self.selected() > 0 {
                exists|r: Result<(), DataError>| #[trigger]
                    shifted(old(db).is_read_only(), old(db)@, self.selected() as i64, up, final(db)@, r) && e == effect_of(r)
            } else {
                final(db)@ == old(db)@ && e == no_effect()
            },
    {
        match selected_row_id(&self.rows, self.index) {
            Some(id) => {
                let r = if up {
                    db.move_up(id)
                } else {
                    db.move_down(id)
                };
                assert(shifted(old(db).is_read_only(), old(db)@, id, up, db@, r));
                after_write(r)
            },
            None => nothing(),
        }
    }

    // ---- editing --------------------------------------------------------

    /// Stores a change, if there is one.
    fn store(db: &mut Database, edit: Option<PendingEdit>) -> (e: Effect)
        requires
            old(db).wf(),
        ensures
            final(db).wf(),
            final(db).recorded_version() == old(db).recorded_version(),
            final(db).is_read_only() == old(db).is_read_only(),
            is_tree(old(db)@) ==> is_tree(final(db)@),
            change_stored(old(db).is_read_only(), old(db)@, edit_view(edit), final(db)@, e),
    {
        match edit {
            Some(edit) => {
                let now = Timestamp::now();
                let ghost change = edit@;
                let r = commit_edit_at(db, edit, now);
                assert(committed(old(db).is_read_only(), old(db)@, change, now, db@, r));
                match r {
                    Ok(done) => Effect { refresh: done, error: None },
                    Err(e) => Effect { refresh: false, error: Some(e) },
                }
            },
            None => nothing(),
        }
    }

    /// Takes up what was typed into the title or the body of the selected row. Nothing is typed
    /// into a row that is not stored. A change of another row is stored at once.
    pub fn edited(&mut self, db: &mut Database, title: Option<String>, body: Option<String>) -> (e:
        Effect)
        requires
            old(db).wf(),
        ensures
            final(db).wf(),
            final(db).recorded_version() == old(db).recorded_version(),
            final(db).is_read_only() == old(db).is_read_only(),
            is_tree(old(db)@) ==> is_tree(final(db)@),
            final(self).rows@ == old(self).rows@,
            final(self).index == old(self).index,
            final(self).pane == old(self).pane,
            final(self).collapsed == old(self).collapsed,
            ({
                let id = old(self).selected();
                if id > 0 {
                    let typed = EditView {
                        id: id as i64,
                        title: text_view(title),
                        body: text_view(body),
                    };
                    let q = queued(old(self).edits.waiting(), typed);
                    &&& final(self).edits.waiting() == Some(q.0)
                    &&& change_stored(old(db).is_read_only(), old(db)@, q.1, final(db)@, e)
                } else {
                    &&& final(self).edits.waiting() == old(self).edits.waiting()
                    &&& final(db)@ == old(db)@
                    &&& e == no_effect()
                }
            }),
    {
        if history_index_from_item_id(selected_row_id_i32(&self.rows, self.index)).is_some() {
            return nothing();
        }
        match selected_row_id(&self.rows, self.index) {
            Some(id) => {
                let stale = self.edits.queue_edit(id, title, body);
                Self::store(db, stale)
            },
            None => nothing(),
        }
    }

    /// Stores the change that waits: the typing paused, or the window goes.
    pub fn flush(&mut self, db: &mut Database) -> (e: Effect)
        requires
            old(db).wf(),
        ensures
            final(db).wf(),
            final(db).recorded_version() == old(db).recorded_version(),
            final(db).is_read_only() == old(db).is_read_only(),
            is_tree(old(db)@) ==> is_tree(final(db)@),
            final(self).rows@ == old(self).rows@,
            final(self).index == old(self).index,
            final(self).pane == old(self).pane,
            final(self).collapsed == old(self).collapsed,
            final(self).edits.waiting() is None,
            change_stored(old(db).is_read_only(), old(db)@, old(self).edits.waiting(), final(db)@, e),
    {
        let waiting = self.edits.flush_pending_edit();
        Self::store(db, waiting)
    }

    // ---- the tree -------------------------------------------------------

    /// The user selected a row. What was typed into the row that is left is stored before the
    /// pane shows the new one.
    pub fn select(&mut self, db: &mut Database, index: i32) -> (e: Effect)
        requires
            old(db).wf(),
        ensures
            final(db).wf(),
            final(db).recorded_version() == old(db).recorded_version(),
            final(db).is_read_only() == old(db).is_read_only(),
            is_tree(old(db)@) ==> is_tree(final(db)@),
            final(self).rows@ == old(self).rows@,
            final(self).index == index,
            final(self).collapsed == old(self).collapsed,
            final(self).edits.waiting() is None,
            change_stored(old(db).is_read_only(), old(db)@, old(self).edits.waiting(), final(db)@, e),
            final(self).pane@ == pane_for(row_at(old(self).shown(), index as int), final(db)@),
    {
        let e = self.flush(db);
        self.index = index;
        self.pane = mirror_selection_to_editor(&self.rows, index, db);
        e
    }

    /// The user asked for the row of the parent. Nothing happens where it is not shown.
    pub fn select_parent(&mut self, db: &mut Database, parent_id: i32) -> (e: Effect)
        requires
            old(db).wf(),
            old(self).rows@.len() <= i32::MAX,
        ensures
            final(db).wf(),
            final(db).recorded_version() == old(db).recorded_version(),
            final(db).is_read_only() == old(db).is_read_only(),
            is_tree(old(db)@) ==> is_tree(final(db)@),
            final(self).rows@ == old(self).rows@,
            final(self).collapsed == old(self).collapsed,
            if is_place_of(old(self).shown(), parent_id, None) {
                &&& final(self).index == old(self).index
                &&& final(self).pane == old(self).pane
                &&& final(self).edits.waiting() == old(self).edits.waiting()
                &&& final(db)@ == old(db)@
                &&& e == no_effect()
            } else {
                &&& is_place_of(old(self).shown(), parent_id, Some(final(self).index as int))
                &&& final(self).edits.waiting() is None
                &&& change_stored(old(db).is_read_only(), old(db)@, old(self).edits.waiting(), final(db)@, e)
                &&& final(self).pane@ == pane_for(
                    row_at(old(self).shown(), final(self).index as int),
                    final(db)@,
                )
            },
    {
        match index_of_id(&self.rows, parent_id) {
            Some(i) => {
                assert(is_place_of(self.shown(), parent_id, Some(i as int)));
                assert(!is_place_of(self.shown(), parent_id, None)) by {
                    assert(self.shown()[i as int].internal_id == parent_id);
                }
                self.select(db, i as i32)
            },
            None => nothing(),
        }
    }

    /// The text that the selected row pastes.
    pub fn activated_text(&self, db: &Database) -> (r: Option<String>)
        requires
            db.wf(),
        ensures
            text_view(r) == (match row_at(self.shown(), self.index as int) {
                Some(row) => pasted_text(row, db@),
                None => None,
            }),
    {
        activated_row_text(&self.rows, self.index, db)
    }

    /// The user opened or closed a folder. The tree has to be built again.
    pub fn toggle(&mut self, id: i32, expand: bool)
        ensures
            final(self).collapsed@ == toggled(old(self).collapsed@, id as i64, expand),
            final(self).rows@ == old(self).rows@,
            final(self).index == old(self).index,
            final(self).pane == old(self).pane,
            final(self).edits == old(self).edits,
    {
        set_expanded(&mut self.collapsed, id, expand);
    }

    /// The user opened or closed a folder with the folders shown below it, down to `levels`
    /// below; a negative number sets no limit. Says whether there is such a folder, and so
    /// whether the tree has to be built again.
    pub fn toggle_all(&mut self, id: i32, expand: bool, levels: i32) -> (r: bool)
        ensures
            final(self).rows@ == old(self).rows@,
            final(self).index == old(self).index,
            final(self).pane == old(self).pane,
            final(self).edits == old(self).edits,
            if r {
                exists|start: int|
                    #![trigger is_place_of(old(self).shown(), id, Some(start))]
                    is_place_of(old(self).shown(), id, Some(start)) && final(self).collapsed@
                        == toggled_all(
                        old(self).collapsed@,
                        id as i64,
                        folder_ids(
                            old(self).shown(),
                            start + 1,
                            subtree_end(old(self).shown(), start, start + 1),
                            old(self).shown()[start].depth as int,
                            levels as int,
                        ),
                        expand,
                    )
            } else {
                is_place_of(old(self).shown(), id, None) && final(self).collapsed@ == old(
                    self,
                ).collapsed@
            },
    {
        match subtree_folder_ids(&self.rows, id, levels) {
            Some(below) => {
                let ghost shown = self.shown();
                let ghost start = choose|start: int|
                    #![trigger is_place_of(shown, id, Some(start))]
                    is_place_of(shown, id, Some(start)) && below@ == folder_ids(
                        shown,
                        start + 1,
                        subtree_end(shown, start, start + 1),
                        shown[start].depth as int,
                        levels as int,
                    );
                set_expanded_all(&mut self.collapsed, id, &below, expand);
                assert(is_place_of(old(self).shown(), id, Some(start)));
                true
            },
            None => false,
        }
    }

    /// Builds the rows again. The selection stays on its item; where that is gone, or was a row
    /// of the history, nothing is selected and the pane is cleared. Says how many stored rows
    /// could not be read.
    pub fn rebuild(
        &mut self,
        db: &Database,
        history: &[HistoryEntry],
        position: HistoryPosition,
        history_folder_label: &str,
    ) -> (skipped: usize)
        requires
            db.wf(),
            listing(db@).len() < i32::MAX,
            history@.len() <= i32::MAX - 2,
        ensures
            final(self).edits == old(self).edits,
            ({
                let items = readable(db@, listing(db@).len() as int);
                let collapsed = live_collapsed(old(self).collapsed@, items);
                &&& skipped == listing(db@).len() - items.len()
                &&& final(self).collapsed@ == collapsed
                &&& final(self).shown() == tree_rows(
                    items,
                    entry_views(history@),
                    position,
                    history_folder_label@,
                    collapsed,
                )
            }),
            exists|place: Option<usize>|
                {
                    &&& #[trigger] is_restored(
                        old(self).shown(),
                        old(self).index as int,
                        final(self).shown(),
                        place_view(place),
                    )
                    &&& match place {
                        Some(i) => final(self).index == i as i32 && final(self).pane == old(
                            self,
                        ).pane,
                        None => final(self).index == -1 && final(self).pane@ == pane_for(None, db@),
                    }
                },
    {
        let (rows, skipped) = build_refresh_rows(
            db,
            history,
            position,
            history_folder_label,
            &mut self.collapsed,
        );
        let place = restored_selection(&self.rows, self.index, &rows);
        self.rows = rows;
        assert(is_restored(
            old(self).shown(),
            old(self).index as int,
            self.shown(),
            place_view(place),
        ));
        match place {
            Some(i) => {
                self.index = i as i32;
            },
            None => {
                self.index = -1;
                self.pane = EditorPane {
                    title: String::new(),
                    body: String::new(),
                    title_enabled: false,
                    body_enabled: false,
                };
            },
        }
        skipped
    }
}

} // verus!
