use std::collections::{HashMap, HashSet};

use fastpaste::clipboard_history::HistoryEntry;
use fastpaste::database::Database;
use fastpaste::item::{HistoryPosition, Item, ItemKind, Timestamp, HISTORY_FOLDER_ID};
use fastpaste::settings::MAX_ITEMS_RANGE;
use fastpaste::tree_builder::{
    build_tree_items_with_history, collapse_newlines, history_index_from_item_id, TreeItem,
    NO_PARENT,
};
use fastpaste::tree_view::{
    activated_row_text, build_refresh_rows, current_parent_id, delete_question, delete_step,
    index_of_id, parent_for_new_item, prune_collapsed, restored_selection, selected_row_id,
    selected_row_id_i32, set_expanded, set_expanded_all, subtree_folder_ids, DeleteStep,
};

fn at(mut item: Item, order_index: i32) -> Item {
    item.order_index = order_index;
    item
}

fn titles(rows: &[TreeItem]) -> Vec<String> {
    rows.iter().map(|r| r.text.to_string()).collect()
}
#[test]
fn siblings_are_ordered_by_order_index() {
    let items = vec![
        at(plain(1, 0, "third"), 2),
        at(plain(2, 0, "first"), 0),
        at(plain(3, 0, "second"), 1),
    ];
    let rows = build_tree_items_with_history(
        &items,
        &[],
        HistoryPosition::Bottom,
        "History",
        &HashSet::new(),
    );
    assert_eq!(titles(&rows[..3]), ["first", "second", "third"]);
}
#[test]
fn tied_order_indexes_break_by_id() {
    let items = vec![
        at(plain(9, 0, "later id"), 0),
        at(plain(4, 0, "earlier id"), 0),
    ];
    let rows = build_tree_items_with_history(
        &items,
        &[],
        HistoryPosition::Bottom,
        "History",
        &HashSet::new(),
    );
    assert_eq!(titles(&rows[..2]), ["earlier id", "later id"]);
}

#[test]
fn nested_siblings_are_ordered_too() {
    let items = vec![
        folder(1, 0, "folder"),
        at(plain(2, 1, "b"), 1),
        at(plain(3, 1, "a"), 0),
    ];
    let rows = build_tree_items_with_history(
        &items,
        &[],
        HistoryPosition::Bottom,
        "History",
        &HashSet::new(),
    );
    assert_eq!(titles(&rows[..3]), ["folder", "a", "b"]);
}
#[test]
fn a_parent_id_cycle_terminates() {
    let items = vec![
        folder(1, 2, "a"),
        folder(2, 1, "b"),
        plain(3, 0, "reachable"),
    ];
    let rows = build_tree_items_with_history(
        &items,
        &[],
        HistoryPosition::Bottom,
        "History",
        &HashSet::new(),
    );
    assert!(titles(&rows).contains(&"reachable".to_string()));
}
#[test]
fn a_self_parenting_folder_reachable_from_the_root_terminates() {
    let mut selfish = folder(1, 0, "selfish");
    selfish.parent_id = 0;
    let items = vec![selfish, folder(2, 2, "loop"), plain(3, 1, "child")];
    let rows = build_tree_items_with_history(
        &items,
        &[],
        HistoryPosition::Bottom,
        "History",
        &HashSet::new(),
    );
    let t = titles(&rows);
    assert!(t.contains(&"selfish".to_string()));
    assert!(t.contains(&"child".to_string()));
}

#[test]
fn an_item_without_an_id_is_skipped_not_fatal() {
    let mut orphan = plain(1, 0, "no id");
    orphan.id = None;
    let items = vec![orphan, plain(2, 0, "kept")];
    let rows = build_tree_items_with_history(
        &items,
        &[],
        HistoryPosition::Bottom,
        "History",
        &HashSet::new(),
    );
    let t = titles(&rows);
    assert!(t.contains(&"kept".to_string()));
    assert!(!t.contains(&"no id".to_string()));
}

fn plain(id: i64, parent: i64, title: &str) -> Item {
    Item {
        id: Some(id),
        parent_id: parent,
        kind: ItemKind::Plain,
        title: title.into(),
        body_plain: String::new(),
        body_rtf: None,
        comment: String::new(),
        order_index: 0,
        created_at: Timestamp::now(),
        updated_at: Timestamp::now(),
    }
}

fn folder(id: i64, parent: i64, title: &str) -> Item {
    Item {
        id: Some(id),
        parent_id: parent,
        kind: ItemKind::Folder,
        title: title.into(),
        body_plain: String::new(),
        body_rtf: None,
        comment: String::new(),
        order_index: 0,
        created_at: Timestamp::now(),
        updated_at: Timestamp::now(),
    }
}

fn hist(text: &str) -> HistoryEntry {
    HistoryEntry {
        text: text.to_string(),
        timestamp: Timestamp::now(),
    }
}
fn no_history(items: &[Item]) -> Vec<TreeItem> {
    build_tree_items_with_history(
        items,
        &[],
        HistoryPosition::Bottom,
        "Clipboard History",
        &HashSet::new(),
    )
}

#[test]
fn empty_items_gives_empty_rows() {
    let items = no_history(&[]);
    assert_eq!(items.len(), 1, "empty DB still emits the history folder");
    assert_eq!(items[0].internal_id, HISTORY_FOLDER_ID as i32);
    assert!(!items[0].has_children);
}

#[test]
fn top_level_items_at_depth_zero() {
    let items_in = vec![plain(1, 0, "a"), plain(2, 0, "b")];
    let items = no_history(&items_in);
    assert_eq!(items.len(), 3);
    assert_eq!(items[0].depth, 0);
    assert_eq!(items[1].depth, 0);
    assert_eq!(items[2].internal_id, HISTORY_FOLDER_ID as i32);
}

#[test]
fn folder_child_at_depth_one() {
    let items_in = vec![folder(1, 0, "f"), plain(2, 1, "child")];
    let items = no_history(&items_in);
    assert_eq!(items.len(), 3);
    assert_eq!(items[0].depth, 0);
    assert!(items[0].has_children, "folder with a child reports it");
    assert_eq!(items[1].depth, 1);
    assert!(!items[1].has_children, "leaf has no children");
    assert_eq!(items[2].internal_id, HISTORY_FOLDER_ID as i32);
}

#[test]
fn nested_folders_depth_two() {
    let items_in = vec![
        folder(1, 0, "root"),
        folder(2, 1, "inner"),
        plain(3, 2, "leaf"),
    ];
    let items = no_history(&items_in);
    assert_eq!(items.len(), 4);
    assert_eq!(items[0].depth, 0);
    assert_eq!(items[1].depth, 1);
    assert_eq!(items[2].depth, 2);
}
#[test]
fn history_injected_at_bottom_when_empty() {
    let items_in = vec![plain(1, 0, "snippet")];
    let items = build_tree_items_with_history(
        &items_in,
        &[],
        HistoryPosition::Bottom,
        "Clipboard History",
        &HashSet::new(),
    );
    assert_eq!(items.len(), 2);
    assert_eq!(items[0].text, "snippet");
    assert_eq!(items[1].internal_id, HISTORY_FOLDER_ID as i32);
    assert!(!items[1].has_children);
    assert_eq!(items[1].text, "Clipboard History");
}

#[test]
fn history_injected_at_top_with_entries() {
    let items_in = vec![plain(1, 0, "snippet")];
    let history = vec![hist("foo"), hist("bar")];
    let items = build_tree_items_with_history(
        &items_in,
        &history,
        HistoryPosition::Top,
        "Clipboard History",
        &HashSet::new(),
    );
    assert_eq!(items.len(), 4, "snippet + folder + 2 history items");
    assert_eq!(items[0].internal_id, HISTORY_FOLDER_ID as i32);
    assert!(items[0].has_children, "folder with entries reports it");
    assert_eq!(items[0].depth, 0);
    assert_eq!(items[1].internal_id, -2);
    assert_eq!(items[1].depth, 1);
    assert_eq!(items[1].text, "foo");
    assert_eq!(items[2].internal_id, -3);
    assert_eq!(items[2].text, "bar");
    assert_eq!(items[3].internal_id, 1);
}

#[test]
fn history_item_texts_collapse_newlines() {
    let history = vec![hist("line one\nline two\r\nthree")];
    let items = build_tree_items_with_history(
        &[],
        &history,
        HistoryPosition::Bottom,
        "Clipboard History",
        &HashSet::new(),
    );
    assert_eq!(items[1].text, "line one line two three");
    assert_eq!(items[1].user_data, "line one\nline two\r\nthree");
}

#[test]
fn history_item_id_decoder() {
    assert_eq!(history_index_from_item_id(HISTORY_FOLDER_ID as i32), None);
    assert_eq!(history_index_from_item_id(1), None);
    assert_eq!(history_index_from_item_id(42), None);
    assert_eq!(history_index_from_item_id(NO_PARENT), None);
    assert_eq!(history_index_from_item_id(0), None);
    assert_eq!(history_index_from_item_id(-2), Some(0));
    assert_eq!(history_index_from_item_id(-3), Some(1));
    assert_eq!(history_index_from_item_id(-4), Some(2));
}
#[test]
fn history_entry_ids_cannot_reach_the_folder_sentinel() {
    let lowest_entry_id = -(MAX_ITEMS_RANGE.1 as i32 + 1);
    assert!(
        lowest_entry_id > HISTORY_FOLDER_ID as i32,
        "entry ids bottom out at {lowest_entry_id}, which must stay above \
         HISTORY_FOLDER_ID ({})",
        HISTORY_FOLDER_ID
    );
    for i in 0..=MAX_ITEMS_RANGE.1 as usize {
        let id = -((i as i32) + 2);
        assert_ne!(id, HISTORY_FOLDER_ID as i32, "index {i} collides");
        assert_eq!(history_index_from_item_id(id), Some(i));
    }
}
#[test]
fn folders_report_has_children_correctly() {
    let items_in = vec![
        folder(1, 0, "non-empty"), // has a child
        plain(2, 1, "kid"),
        folder(3, 0, "empty"), // no children
        plain(4, 0, "sibling"),
    ];
    let items = no_history(&items_in);
    let by_text: HashMap<&str, &TreeItem> =
        items.iter().map(|r| (r.text.as_str(), r)).collect();
    assert!(by_text["non-empty"].has_children, "folder with kid");
    assert!(!by_text["empty"].has_children, "empty folder");
    assert!(!by_text["sibling"].has_children, "leaf");
}
#[test]
fn folders_default_expanded() {
    let items_in = vec![folder(1, 0, "f"), plain(2, 1, "child")];
    let items = no_history(&items_in);
    assert!(items[0].expanded);
}
#[test]
fn collapsed_folder_hides_descendants() {
    let items_in = vec![
        folder(1, 0, "root"),
        folder(2, 1, "inner"),
        plain(3, 2, "leaf"),
        plain(4, 0, "sibling"),
    ];
    let collapsed: HashSet<i64> = [1].into_iter().collect();
    let items = build_tree_items_with_history(
        &items_in,
        &[],
        HistoryPosition::Bottom,
        "Clipboard History",
        &collapsed,
    );
    assert_eq!(items.len(), 3);
    assert_eq!(items[0].text, "root");
    assert!(!items[0].expanded, "collapsed folder reports it");
    assert!(items[0].has_children, "structural truth is unchanged");
    assert_eq!(items[1].text, "sibling");
}
#[test]
fn collapsed_inner_folder_keeps_outer_expanded() {
    let items_in = vec![
        folder(1, 0, "root"),
        folder(2, 1, "inner"),
        plain(3, 2, "leaf"),
        plain(4, 1, "other-kid"),
    ];
    let collapsed: HashSet<i64> = [2].into_iter().collect();
    let items = build_tree_items_with_history(
        &items_in,
        &[],
        HistoryPosition::Bottom,
        "Clipboard History",
        &collapsed,
    );
    assert_eq!(items.len(), 4);
    assert!(items[0].expanded);
    assert!(!items[1].expanded);
    assert_eq!(items[2].text, "other-kid");
    assert_eq!(items[2].depth, 1);
}
#[test]
fn collapsed_history_folder_hides_entries() {
    let history = vec![hist("foo"), hist("bar")];
    let collapsed: HashSet<i64> = [HISTORY_FOLDER_ID].into_iter().collect();
    let items = build_tree_items_with_history(
        &[],
        &history,
        HistoryPosition::Bottom,
        "Clipboard History",
        &collapsed,
    );
    assert_eq!(items.len(), 1, "folder only — entries hidden");
    assert_eq!(items[0].internal_id, HISTORY_FOLDER_ID as i32);
    assert!(!items[0].expanded);
    assert!(items[0].has_children);
}
#[test]
fn root_items_report_no_parent_sentinel() {
    let items_in = vec![plain(1, 0, "root-item")];
    let items = no_history(&items_in);
    assert_eq!(items[0].parent_internal_id, NO_PARENT);
}

fn row(id: i32, parent: i32, depth: i32, kind: ItemKind) -> TreeItem {
    let mut r = if kind == ItemKind::Folder {
        TreeItem::branch(id, parent, depth, "row")
    } else {
        TreeItem::leaf(id, parent, depth, "row", "body")
    };
    r.item_type = kind.as_i64() as i32;
    r
}

fn model(rows: Vec<TreeItem>) -> Vec<TreeItem> {
    rows
}

#[test]
fn index_of_id_finds_the_row() {
    let m = model(vec![
        row(7, -1, 0, ItemKind::Folder),
        row(9, 7, 1, ItemKind::Plain),
        row(4, -1, 0, ItemKind::Plain),
    ]);
    assert_eq!(index_of_id(&m, 7), Some(0));
    assert_eq!(index_of_id(&m, 9), Some(1));
    assert_eq!(index_of_id(&m, 4), Some(2));
}

#[test]
fn index_of_id_reports_a_vanished_row() {
    let m = model(vec![row(7, -1, 0, ItemKind::Plain)]);
    assert_eq!(index_of_id(&m, 99), None);
}

#[test]
fn index_of_id_on_an_empty_model_is_none() {
    assert_eq!(index_of_id(&model(vec![]), 1), None);
}
#[test]
fn index_of_id_follows_an_item_that_moved() {
    let before = model(vec![
        row(1, -1, 0, ItemKind::Plain),
        row(2, -1, 0, ItemKind::Plain),
        row(3, -1, 0, ItemKind::Plain),
    ]);
    assert_eq!(index_of_id(&before, 3), Some(2));
    let after = model(vec![
        row(-1000, -1, 0, ItemKind::Folder),
        row(1, -1, 0, ItemKind::Plain),
        row(2, -1, 0, ItemKind::Plain),
        row(3, -1, 0, ItemKind::Plain),
    ]);
    assert_eq!(index_of_id(&after, 3), Some(3));
}

#[test]
fn a_selected_folder_receives_the_new_item() {
    assert_eq!(parent_for_new_item(&row(5, -1, 0, ItemKind::Folder)), 5);
}
#[test]
fn a_selected_snippet_puts_the_new_item_beside_it() {
    assert_eq!(parent_for_new_item(&row(9, 5, 1, ItemKind::Plain)), 5);
}

#[test]
fn a_top_level_snippet_puts_the_new_item_at_the_root() {
    assert_eq!(parent_for_new_item(&row(9, -1, 0, ItemKind::Plain)), 0);
}

#[test]
fn virtual_rows_never_become_a_parent() {
    let history_folder = row(
        HISTORY_FOLDER_ID as i32,
        -1,
        0,
        ItemKind::Folder,
    );
    assert_eq!(parent_for_new_item(&history_folder), 0);
    let history_entry = row(
        -2,
        HISTORY_FOLDER_ID as i32,
        1,
        ItemKind::Plain,
    );
    assert_eq!(parent_for_new_item(&history_entry), 0);
}
fn nested_rows() -> Vec<TreeItem> {
    vec![
        row(1, -1, 0, ItemKind::Folder),
        row(2, 1, 1, ItemKind::Folder),
        row(3, 2, 2, ItemKind::Folder),
        row(4, 3, 3, ItemKind::Plain),
        row(5, -1, 0, ItemKind::Folder),
    ]
}

#[test]
fn subtree_collects_every_nested_folder() {
    assert_eq!(subtree_folder_ids(&nested_rows(), 1, -1), Some(vec![2, 3]));
}

#[test]
fn subtree_stops_at_the_sibling_after_it() {
    let ids = subtree_folder_ids(&nested_rows(), 1, -1).unwrap();
    assert!(!ids.contains(&5));
}

#[test]
fn subtree_respects_the_level_cap() {
    assert_eq!(subtree_folder_ids(&nested_rows(), 1, 1), Some(vec![2]));
    assert_eq!(subtree_folder_ids(&nested_rows(), 1, 2), Some(vec![2, 3]));
}

#[test]
fn subtree_of_an_unknown_root_is_none() {
    assert_eq!(subtree_folder_ids(&nested_rows(), 42, -1), None);
}

#[test]
fn subtree_of_a_leaf_is_empty_not_none() {
    assert_eq!(subtree_folder_ids(&nested_rows(), 4, -1), Some(vec![]));
}
#[test]
fn empty_folders_are_included() {
    let mut rows = vec![
        row(1, -1, 0, ItemKind::Folder),
        row(2, 1, 1, ItemKind::Folder),
    ];
    rows[1].has_children = false;
    assert_eq!(subtree_folder_ids(&rows, 1, -1), Some(vec![2]));
}

#[test]
fn a_run_of_line_breaks_becomes_one_space() {
    assert_eq!(collapse_newlines("a\r\n\r\nb\nc"), "a b c");
    assert_eq!(collapse_newlines("plain"), "plain");
    assert_eq!(collapse_newlines("\n"), " ");
}

#[test]
fn a_long_capture_is_cut_in_its_label_only() {
    let long = "x".repeat(100);
    let rows = build_tree_items_with_history(
        &[],
        &[hist(&long)],
        HistoryPosition::Bottom,
        "History",
        &HashSet::new(),
    );
    assert_eq!(rows[1].text, "x".repeat(80));
    assert_eq!(rows[1].user_data, long);
    assert_eq!(rows[1].icon, "📋");
    assert_eq!(rows[0].icon, "🕒");
}

#[test]
fn the_selection_follows_the_item_not_the_place() {
    let before = vec![row(1, -1, 0, ItemKind::Plain), row(2, -1, 0, ItemKind::Plain)];
    let after = vec![
        row(HISTORY_FOLDER_ID as i32, -1, 0, ItemKind::Folder),
        row(-2, HISTORY_FOLDER_ID as i32, 1, ItemKind::Plain),
        row(2, -1, 0, ItemKind::Plain),
    ];
    assert_eq!(restored_selection(&before, 1, &after), Some(2));
    assert_eq!(restored_selection(&before, 0, &after), None, "it is gone");
    assert_eq!(restored_selection(&before, -1, &after), None);
    assert_eq!(
        restored_selection(&after, 1, &after),
        None,
        "a history row is not followed"
    );
}

#[test]
fn the_selected_id_tells_stored_rows_from_others() {
    let rows = vec![row(7, -1, 0, ItemKind::Folder), row(-2, -1000, 1, ItemKind::Plain)];
    assert_eq!(selected_row_id(&rows, 0), Some(7));
    assert_eq!(selected_row_id(&rows, 1), None);
    assert_eq!(selected_row_id_i32(&rows, 1), -2);
    assert_eq!(selected_row_id_i32(&rows, 2), -1);
    assert_eq!(selected_row_id_i32(&rows, -1), -1);
    assert_eq!(current_parent_id(&rows, 0), 7);
    assert_eq!(current_parent_id(&rows, -1), 0);
}

#[test]
fn folders_open_and_close_alone_and_together() {
    let mut closed: HashSet<i64> = HashSet::new();
    set_expanded(&mut closed, 4, false);
    assert!(closed.contains(&4));
    set_expanded(&mut closed, 4, true);
    assert!(closed.is_empty());
    set_expanded_all(&mut closed, 1, &[2, 3], false);
    assert_eq!(closed, [1, 2, 3].into_iter().collect());
    closed.insert(9);
    set_expanded_all(&mut closed, 1, &[2, 3], true);
    assert_eq!(closed, [9].into_iter().collect());
}

#[test]
fn closed_folders_that_are_gone_are_forgotten() {
    let closed: HashSet<i64> = [1, 5, HISTORY_FOLDER_ID].into_iter().collect();
    let items = vec![folder(1, 0, "kept")];
    assert_eq!(
        prune_collapsed(&closed, &items),
        [1, HISTORY_FOLDER_ID].into_iter().collect()
    );
}

#[test]
fn an_activated_row_pastes_its_text() {
    let mut db = Database::new(Some(1));
    let mut f = Item::new_folder(0, "folder");
    db.insert(&mut f).unwrap();
    let mut p = Item::new_plain(0, "snippet", "body");
    db.insert(&mut p).unwrap();
    let mut blank = Item::new_plain(0, "blank", "");
    db.insert(&mut blank).unwrap();
    let history = vec![hist("captured")];
    let mut closed = HashSet::new();
    let (rows, skipped) =
        build_refresh_rows(&db, &history, HistoryPosition::Bottom, "History", &mut closed);
    assert_eq!(skipped, 0);
    assert_eq!(titles(&rows), ["folder", "snippet", "blank", "History", "captured"]);
    assert_eq!(activated_row_text(&rows, 0, &db), None, "a folder");
    assert_eq!(activated_row_text(&rows, 1, &db), Some("body".to_string()));
    assert_eq!(activated_row_text(&rows, 2, &db), None, "an empty body");
    assert_eq!(activated_row_text(&rows, 3, &db), None, "the history folder");
    assert_eq!(activated_row_text(&rows, 4, &db), Some("captured".to_string()));
    assert_eq!(activated_row_text(&rows, 5, &db), None);
}

#[test]
fn deleting_a_folder_asks_first() {
    let mut db = Database::new(Some(1));
    let mut f = Item::new_folder(0, "Work");
    db.insert(&mut f).unwrap();
    let mut p = Item::new_plain(0, "snippet", "body");
    db.insert(&mut p).unwrap();
    let rows = vec![
        row(f.id.unwrap() as i32, -1, 0, ItemKind::Folder),
        row(p.id.unwrap() as i32, -1, 0, ItemKind::Plain),
        row(99, -1, 0, ItemKind::Plain),
    ];
    assert!(matches!(delete_step(&rows, 0, &db), DeleteStep::Ask(id, title)
        if id == f.id.unwrap() && title == "Work"));
    assert!(matches!(delete_step(&rows, 1, &db), DeleteStep::Remove(id) if id == p.id.unwrap()));
    assert!(matches!(delete_step(&rows, 2, &db), DeleteStep::Nothing));
    assert!(matches!(delete_step(&rows, -1, &db), DeleteStep::Nothing));
    assert_eq!(delete_question("Delete it all?", "Work"), "Delete it all?\n\nWork");
}

#[test]
fn every_stored_item_has_one_row_and_closed_folders_hide_theirs() {
    let items = vec![
        folder(1, 0, "a"),
        folder(2, 1, "b"),
        plain(3, 2, "c"),
        plain(4, 1, "d"),
        plain(5, 0, "e"),
    ];
    let mut ids: Vec<i32> = no_history(&items).iter().map(|r| r.internal_id).collect();
    assert_eq!(ids, vec![1, 2, 3, 4, 5, HISTORY_FOLDER_ID as i32]);
    ids.dedup();
    assert_eq!(ids.len(), 6);
    let closed: HashSet<i64> = [1].into_iter().collect();
    let rows =
        build_tree_items_with_history(&items, &[], HistoryPosition::Bottom, "H", &closed);
    let ids: Vec<i32> = rows.iter().map(|r| r.internal_id).collect();
    assert_eq!(ids, vec![1, 5, HISTORY_FOLDER_ID as i32]);
}

/// What closing `id` leaves of the rows: nothing below its row, which alone changes.
fn closed_by_hand(rows: &[TreeItem], id: i32) -> Vec<TreeItem> {
    let at = rows.iter().position(|r| r.internal_id == id).unwrap();
    let mut out = rows[..=at].to_vec();
    out[at].expanded = false;
    let below = rows[at + 1..].iter().take_while(|r| r.depth > rows[at].depth).count();
    out.extend_from_slice(&rows[at + 1 + below..]);
    out
}

#[test]
fn closing_a_folder_takes_away_exactly_what_is_below_it() {
    let items = vec![
        folder(1, 0, "a"),
        folder(2, 1, "b"),
        plain(3, 2, "c"),
        plain(4, 1, "d"),
        folder(5, 0, "e"),
        plain(6, 5, "f"),
    ];
    let history = vec![hist("x"), hist("y")];
    for position in [HistoryPosition::Top, HistoryPosition::Bottom] {
        for already in [vec![], vec![5], vec![2]] {
            let open: HashSet<i64> = already.into_iter().collect();
            let rows = build_tree_items_with_history(&items, &history, position, "H", &open);
            for id in [1, 2, 5, HISTORY_FOLDER_ID] {
                if open.contains(&id) {
                    continue;
                }
                let mut more = open.clone();
                more.insert(id);
                let closed = build_tree_items_with_history(&items, &history, position, "H", &more);
                assert_eq!(closed, closed_by_hand(&rows, id as i32));
            }
        }
    }
}

#[test]
fn closing_a_folder_inside_a_closed_one_shows_nothing() {
    let items = vec![folder(1, 0, "a"), folder(2, 1, "b"), plain(3, 2, "c")];
    let outer: HashSet<i64> = [1].into_iter().collect();
    let both: HashSet<i64> = [1, 2].into_iter().collect();
    let build = |c: &HashSet<i64>| {
        build_tree_items_with_history(&items, &[], HistoryPosition::Bottom, "H", c)
    };
    assert_eq!(build(&outer), build(&both));
}
