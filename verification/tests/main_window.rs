use fastpaste::clipboard::ChangeFilter;
use fastpaste::clipboard_history::HistoryEntry;
use fastpaste::database::{Database, RawRow};
use fastpaste::item::{HistoryPosition, Item, ItemKind, Timestamp, HISTORY_FOLDER_ID};
use fastpaste::table::{Cell, Misread};
use fastpaste::main_window::{Effect, MainWindow};

const SHOWN: Effect = Effect { refresh: true, error: None };
const NOTHING: Effect = Effect { refresh: false, error: None };

fn insert(db: &mut Database, mut item: Item) -> i64 {
    assert!(db.can_grow());
    db.insert(&mut item).unwrap();
    item.id.unwrap()
}

/// A folder with two snippets in it, and a snippet behind it.
fn library() -> (Database, MainWindow) {
    let mut db = Database::new(Some(1));
    let folder = insert(&mut db, Item::new_folder(0, "mail"));
    insert(&mut db, Item::new_plain(folder, "hello", "Dear all,"));
    insert(&mut db, Item::new_plain(folder, "bye", "Yours"));
    insert(&mut db, Item::new_plain(0, "phone", "555"));
    let mut win = MainWindow::new();
    assert_eq!(rebuild(&mut win, &db, &[]), 0);
    (db, win)
}

fn rebuild(win: &mut MainWindow, db: &Database, history: &[HistoryEntry]) -> usize {
    win.rebuild(db, history, HistoryPosition::Bottom, "Clipboard")
}

fn texts(win: &MainWindow) -> Vec<&str> {
    win.rows.iter().map(|r| r.text.as_str()).collect()
}

fn title_of(db: &Database, id: i64) -> String {
    db.get(id).unwrap().unwrap().title
}

#[test]
fn the_tree_shows_the_library_and_the_history() {
    let (db, mut win) = library();
    assert_eq!(texts(&win), ["mail", "hello", "bye", "phone", "Clipboard"]);
    let entry = HistoryEntry { text: "copied".to_string(), timestamp: Timestamp::now() };
    rebuild(&mut win, &db, &[entry]);
    assert_eq!(texts(&win).last(), Some(&"copied"));
}

#[test]
fn new_items_go_where_the_selection_says() {
    let (mut db, mut win) = library();
    assert_eq!(win.select(&mut db, 0), NOTHING);
    assert_eq!(win.add_plain(&mut db), SHOWN);
    rebuild(&mut win, &db, &[]);
    assert_eq!(texts(&win), ["mail", "hello", "bye", "New Snippet", "phone", "Clipboard"]);
    assert_eq!(win.index, 0, "the selection stays on the folder");

    win.select(&mut db, 4);
    assert_eq!(win.add_folder(&mut db), SHOWN);
    rebuild(&mut win, &db, &[]);
    assert_eq!(texts(&win)[5], "New Folder");
    let made = db.get(i64::from(win.rows[5].internal_id)).unwrap().unwrap();
    assert_eq!((made.kind, made.parent_id), (ItemKind::Folder, 0));
}

#[test]
fn a_snippet_is_deleted_at_once_and_a_folder_after_a_question() {
    let (mut db, mut win) = library();
    win.select(&mut db, 3);
    assert_eq!(win.delete(&mut db), (SHOWN, None));
    rebuild(&mut win, &db, &[]);
    assert_eq!(texts(&win), ["mail", "hello", "bye", "Clipboard"]);
    assert_eq!(win.index, -1, "the selected item is gone");

    win.select(&mut db, 0);
    assert_eq!(win.delete(&mut db), (NOTHING, Some("mail".to_string())));
    assert_eq!(db.item_count(), 3);
    assert_eq!(win.delete_confirmed(&mut db), SHOWN);
    assert_eq!(db.item_count(), 0);
}

#[test]
fn rows_of_the_history_cannot_be_deleted_or_edited() {
    let (mut db, mut win) = library();
    win.select(&mut db, 4);
    assert_eq!(i64::from(win.rows[4].internal_id), HISTORY_FOLDER_ID);
    assert_eq!(win.delete(&mut db), (NOTHING, None));
    assert_eq!(win.delete_confirmed(&mut db), NOTHING);
    assert_eq!(win.edited(&mut db, Some("x".to_string()), None), NOTHING);
    assert_eq!(win.flush(&mut db), NOTHING);
    assert_eq!(db.item_count(), 4);
}

#[test]
fn moving_trades_places_with_the_neighbour() {
    let (mut db, mut win) = library();
    win.select(&mut db, 2);
    assert_eq!(win.move_selected(&mut db, true), SHOWN);
    rebuild(&mut win, &db, &[]);
    assert_eq!(texts(&win), ["mail", "bye", "hello", "phone", "Clipboard"]);
    assert_eq!(win.index, 1, "the selection follows the item");
    assert_eq!(win.move_selected(&mut db, false), SHOWN);
    rebuild(&mut win, &db, &[]);
    assert_eq!(texts(&win), ["mail", "hello", "bye", "phone", "Clipboard"]);
}

#[test]
fn typing_is_stored_when_it_pauses_or_the_row_is_left() {
    let (mut db, mut win) = library();
    win.select(&mut db, 1);
    let id = i64::from(win.rows[1].internal_id);
    assert!(win.pane.title_enabled && win.pane.body_enabled);
    assert_eq!(win.pane.body, "Dear all,");

    assert_eq!(win.edited(&mut db, Some("greeting".to_string()), None), NOTHING);
    assert_eq!(win.edited(&mut db, None, Some("Dear you,".to_string())), NOTHING);
    assert_eq!(title_of(&db, id), "hello", "nothing is stored yet");
    assert_eq!(win.flush(&mut db), SHOWN);
    let item = db.get(id).unwrap().unwrap();
    assert_eq!((item.title.as_str(), item.body_plain.as_str()), ("greeting", "Dear you,"));
    assert_eq!(win.flush(&mut db), NOTHING, "there is nothing left to store");

    win.edited(&mut db, Some("salutation".to_string()), None);
    assert_eq!(win.select(&mut db, 3), SHOWN, "leaving the row stores the change");
    assert_eq!(title_of(&db, id), "salutation");
    assert_eq!(win.pane.title, "phone");
}

#[test]
fn the_parent_row_is_selected_only_where_it_is_shown() {
    let (mut db, mut win) = library();
    win.select(&mut db, 2);
    let parent = win.rows[2].parent_internal_id;
    assert_eq!(win.select_parent(&mut db, parent), NOTHING);
    assert_eq!(win.index, 0);
    assert_eq!(win.pane.title, "mail");
    assert_eq!(win.select_parent(&mut db, 99), NOTHING);
    assert_eq!(win.index, 0);
}

#[test]
fn folders_close_and_open_with_what_is_below() {
    let (mut db, mut win) = library();
    let mail = win.rows[0].internal_id;
    win.toggle(mail, false);
    rebuild(&mut win, &db, &[]);
    assert_eq!(texts(&win), ["mail", "phone", "Clipboard"]);
    win.toggle(mail, true);
    rebuild(&mut win, &db, &[]);
    assert_eq!(win.rows.len(), 5);

    let inner = insert(&mut db, Item::new_folder(i64::from(mail), "drafts"));
    rebuild(&mut win, &db, &[]);
    assert!(win.toggle_all(mail, false, -1));
    assert!(win.collapsed.contains(&i64::from(mail)) && win.collapsed.contains(&inner));
    assert!(!win.toggle_all(12345, true, -1));
    rebuild(&mut win, &db, &[]);
    assert!(win.toggle_all(mail, true, -1));
    assert!(!win.collapsed.contains(&i64::from(mail)));
    assert!(win.collapsed.contains(&inner), "a row that is not shown is not reached");
}

#[test]
fn the_selected_row_pastes_its_body() {
    let (mut db, mut win) = library();
    win.select(&mut db, 3);
    assert_eq!(win.activated_text(&db), Some("555".to_string()));
    win.select(&mut db, 0);
    assert_eq!(win.activated_text(&db), None);
}

#[test]
fn the_rows_of_a_database_are_what_it_was_made_from() {
    let raw = RawRow {
        id: 7,
        parent_id: 0,
        type_int: 1,
        title: "t".to_string(),
        body_plain: "b".to_string(),
        body_rtf: String::new(),
        comment: "c".to_string(),
        order_index: 3,
        created_at: "2025-01-01 00:00:00+00:00".to_string(),
        updated_at: "nonsense".to_string(),
        misread: Misread::nothing(),
        next: Cell::number(0),
    };
    let db = Database::from_rows(vec![raw], Some(1), 1, false).unwrap().unwrap();
    let rows = db.rows();
    assert_eq!(rows.len(), 1);
    assert_eq!((rows[0].id, rows[0].order_index, rows[0].comment.as_str()), (7, 3, "c"));
    assert_eq!(rows[0].created_at.unwrap().secs, 1735689600);
    assert!(rows[0].updated_at.is_none(), "a time that cannot be read is no time");
}

#[test]
fn a_database_is_full_when_the_ids_have_run_out() {
    let mut raw = RawRow {
        id: i64::MAX,
        parent_id: 0,
        type_int: 1,
        title: String::new(),
        body_plain: String::new(),
        body_rtf: String::new(),
        comment: String::new(),
        order_index: 0,
        created_at: String::new(),
        updated_at: String::new(),
        misread: Misread::nothing(),
        next: Cell::number(0),
    };
    let full = Database::from_rows(vec![raw], Some(1), 1, false).unwrap().unwrap();
    assert!(!full.can_grow());
    raw = RawRow {
        id: 1,
        parent_id: 0,
        type_int: 1,
        title: String::new(),
        body_plain: String::new(),
        body_rtf: String::new(),
        comment: String::new(),
        order_index: 0,
        created_at: String::new(),
        updated_at: String::new(),
        misread: Misread::nothing(),
        next: Cell::number(0),
    };
    assert!(Database::from_rows(vec![raw], Some(1), 1, false).unwrap().unwrap().can_grow());
}

#[test]
fn a_change_notification_reports_each_text_once_and_no_empty_one() {
    let mut filter = ChangeFilter::seeded(Some("old".to_string()));
    assert!(filter.on_change(Some(String::new())).is_none());
    assert!(filter.on_change(Some("old".to_string())).is_none());
    assert_eq!(filter.on_change(Some("new".to_string())).unwrap().text, "new");
    assert!(filter.on_change(Some("new".to_string())).is_none());
    filter.suppress.arm("own");
    assert!(filter.on_change(Some("own".to_string())).is_none());
    assert!(filter.on_change(None).is_none());
}

#[test]
fn what_is_saved_is_read_back() {
    let (db, _) = library();
    let conn = rusqlite::Connection::open_in_memory().unwrap();
    conn.execute("CREATE TABLE times (id INTEGER PRIMARY KEY, c TEXT, u TEXT)", ()).unwrap();
    let time = |t: Option<Timestamp>| t.and_then(|t| chrono::DateTime::from_timestamp(t.secs, t.nanos));
    let mut raw: Vec<RawRow> = Vec::new();
    for row in db.rows() {
        let (c, u) = (time(row.created_at), time(row.updated_at));
        conn.execute("INSERT INTO times VALUES (?1, ?2, ?3)", (row.id, c, u)).unwrap();
        let (created_at, updated_at): (String, String) = conn
            .query_row("SELECT c, u FROM times WHERE id = ?1", [row.id], |r| {
                Ok((r.get(0)?, r.get(1)?))
            })
            .unwrap();
        raw.push(RawRow {
            id: row.id,
            parent_id: row.parent_id,
            type_int: row.type_int,
            title: row.title,
            body_plain: row.body_plain,
            body_rtf: row.body_rtf,
            comment: row.comment,
            order_index: row.order_index,
            created_at,
            updated_at,
            misread: row.misread,
            next: row.next,
        });
    }
    raw.reverse();
    let again = Database::from_rows(raw, Some(1), 1, false).unwrap().unwrap();
    assert_eq!(again.load_all().unwrap(), db.load_all().unwrap());
    assert_eq!(again.item_count(), 4);
}
