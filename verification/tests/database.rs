use fastpaste::database::{check_version, saturate_version, Database, RawRow};
use fastpaste::error::{DataError, StorageFault};
use fastpaste::item::{Item, ItemKind, Timestamp, HISTORY_FOLDER_ID};
use fastpaste::table::{Cell, Misread, PARENT_COLUMN, POSITION_COLUMN};

const GOOD_TIME: &str = "2025-01-01 00:00:00.000000+00:00";

fn raw(id: i64, parent_id: i64, type_int: i64, title: &str, created: &str) -> RawRow {
    RawRow {
        id,
        parent_id,
        type_int,
        title: title.to_string(),
        body_plain: String::new(),
        body_rtf: String::new(),
        comment: String::new(),
        order_index: 0,
        created_at: created.to_string(),
        updated_at: created.to_string(),
        misread: Misread::nothing(),
        next: Cell::number(0),
    }
}

fn loaded(rows: Vec<RawRow>) -> Database {
    Database::from_rows(rows, Some(1), 1, false).unwrap().unwrap()
}

#[test]
fn reads_legacy_t_separated_timestamps() {
    let ts = "2025-12-31T23:59:59.123456+00:00";
    let db = loaded(vec![raw(1, 0, 0, "legacy", ts)]);
    let loaded = db.load_all().unwrap();
    assert_eq!(loaded.len(), 1);
    let at = loaded[0].created_at;
    assert_eq!(
        chrono::DateTime::from_timestamp(at.secs, at.nanos)
            .unwrap()
            .to_rfc3339(),
        "2025-12-31T23:59:59.123456+00:00",
        "legacy RFC3339 timestamp must parse back exactly"
    );
}

#[test]
fn schema_ahead_of_build_is_rejected() {
    let db = Database::new(Some(1));
    check_version(db.schema_version().unwrap(), 1)
        .expect("a freshly migrated DB must pass the version guard");
    let err = check_version(Some(99), 1).unwrap_err();
    assert!(
        matches!(err, DataError::CorruptSchema { expected: 1, .. }),
        "expected CorruptSchema, got {err:?}"
    );
}

#[test]
fn open_rejects_database_from_a_newer_build() {
    let err = match Database::from_rows(Vec::new(), Some(99), 1, false) {
        Some(Err(e)) => e,
        _ => panic!("a newer schema must be refused"),
    };
    assert!(
        matches!(
            err,
            DataError::CorruptSchema {
                found: Some(99),
                expected: 1
            }
        ),
        "expected CorruptSchema{{found:99}}, got {err:?}"
    );
}

#[test]
fn remove_subtree_terminates_on_a_cycle_below_the_root() {
    let mut db = loaded(vec![
        raw(1, 0, 0, "root", GOOD_TIME),
        raw(2, 1, 0, "a", GOOD_TIME),
        raw(3, 4, 0, "b", GOOD_TIME),
        raw(4, 3, 0, "c", GOOD_TIME),
    ]);
    db.remove_subtree(1).unwrap();
    let left: Vec<String> = db
        .load_all()
        .unwrap()
        .into_iter()
        .map(|i| i.title)
        .collect();
    assert!(!left.contains(&"root".to_string()));
    assert!(!left.contains(&"a".to_string()));
    assert_eq!(left.len(), 2, "the detached cycle survives: {left:?}");

    db.remove_subtree(3).unwrap();
    assert!(db.load_all().unwrap().is_empty());
}

#[test]
fn remove_subtree_terminates_on_a_hand_written_cycle() {
    let mut db = loaded(vec![raw(1, 2, 0, "a", GOOD_TIME), raw(2, 1, 0, "b", GOOD_TIME)]);
    db.remove_subtree(1).unwrap();
    assert!(
        db.load_all().unwrap().is_empty(),
        "the cycle is deleted whole"
    );
}

#[test]
fn unknown_item_kind_discriminant_is_an_error_not_a_default() {
    let db = loaded(vec![raw(1, 0, 99, "bad", GOOD_TIME)]);
    let err = db.load_all().unwrap_err();
    assert!(
        matches!(err, DataError::Sqlite(_)),
        "corruption must surface, got {err:?}"
    );
    assert_eq!(err, DataError::Sqlite(StorageFault::UnknownKind(99)));
}

#[test]
fn malformed_timestamp_is_an_error() {
    let db = loaded(vec![raw(1, 0, 1, "bad", "not a timestamp")]);
    assert!(db.load_all().is_err());
}

#[test]
fn load_all_lenient_skips_bad_rows_and_keeps_the_good_ones() {
    let mut db = loaded(vec![
        raw(1, 0, 1, "good", GOOD_TIME),
        raw(2, 0, 99, "bad", GOOD_TIME),
        raw(3, 0, 1, "bad", "not a timestamp"),
    ]);
    let mut good2 = Item::new_plain(0, "good2", "");
    db.insert(&mut good2).unwrap();

    assert!(db.load_all().is_err(), "the strict load still fails");

    let (items, skipped) = db.load_all_lenient().unwrap();
    assert_eq!(skipped, 2);
    let titles: Vec<String> = items.into_iter().map(|i| i.title).collect();
    assert_eq!(titles, ["good", "good2"]);
}

#[test]
fn rows_that_no_table_can_hold_are_not_taken_over() {
    assert!(Database::from_rows(
        vec![raw(1, 0, 1, "x", GOOD_TIME), raw(1, 0, 1, "y", GOOD_TIME)],
        None,
        1,
        false
    )
    .is_none());
}

#[test]
fn rows_with_ids_below_one_are_loaded_like_others() {
    let mut db = loaded(vec![
        raw(-5, 0, 0, "minus five", GOOD_TIME),
        raw(-4, -5, 1, "minus four", GOOD_TIME),
        raw(3, 0, 1, "three", GOOD_TIME),
    ]);
    let titles: Vec<String> = db.load_all().unwrap().into_iter().map(|i| i.title).collect();
    assert_eq!(titles, ["minus four", "minus five", "three"]);
    db.remove_subtree(-5).unwrap();
    assert_eq!(db.load_all().unwrap().len(), 1, "the row below went with it");
    let zero = loaded(vec![raw(0, 0, 1, "zero", GOOD_TIME)]);
    assert_eq!(zero.get(0).unwrap().unwrap().title, "zero");
}

#[test]
fn a_new_id_follows_the_largest_one() {
    let mut empty = Database::new(None);
    let mut item = Item::new_plain(0, "first", "");
    empty.insert(&mut item).unwrap();
    assert_eq!(item.id, Some(1));
    let mut low = loaded(vec![raw(-7, 0, 1, "x", GOOD_TIME), raw(-9, 0, 1, "y", GOOD_TIME)]);
    low.insert(&mut item).unwrap();
    assert_eq!(item.id, Some(-6));
}

#[test]
fn a_column_of_another_type_costs_only_its_row() {
    let mut blob = raw(2, 0, 1, "", GOOD_TIME);
    blob.misread.title = true;
    let mut db = loaded(vec![raw(1, 0, 1, "good", GOOD_TIME), blob]);
    assert_eq!(db.load_all().unwrap_err(), DataError::Sqlite(StorageFault::WrongType(3)));
    let (items, skipped) = db.load_all_lenient().unwrap();
    assert_eq!((items.len(), skipped), (1, 1));
    assert!(db.rows().iter().find(|r| r.id == 2).unwrap().misread.title);
    db.move_up(2).unwrap();
    assert_eq!(db.children_of(0), [2, 1], "its place can be changed all the same");
    assert!(db.rows().iter().find(|r| r.id == 2).unwrap().misread.title);
    let mut over = Item::new_plain(0, "written over", "");
    over.id = Some(2);
    db.update(&over).unwrap();
    assert_eq!(db.get(2).unwrap().unwrap().title, "written over");
}

#[test]
fn the_first_column_of_another_type_is_named() {
    let all = Misread {
        parent: true,
        kind: true,
        title: true,
        body_plain: true,
        body_rtf: true,
        comment: true,
        position: true,
    };
    assert_eq!(all.first(), Some(1));
    assert_eq!(Misread { parent: false, ..all }.first(), Some(2));
    assert_eq!(Misread { parent: false, kind: false, ..all }.first(), Some(3));
    assert_eq!(Misread { body_plain: true, ..Misread::nothing() }.first(), Some(4));
    assert_eq!(Misread { body_rtf: true, ..Misread::nothing() }.first(), Some(5));
    assert_eq!(Misread { comment: true, ..Misread::nothing() }.first(), Some(6));
    assert_eq!(Misread { position: true, ..Misread::nothing() }.first(), Some(7));
    assert_eq!(Misread::nothing().first(), None);
}

#[test]
fn a_row_whose_parent_cannot_be_read_is_under_none_and_is_not_moved() {
    let mut stray = raw(2, 0, 1, "stray", GOOD_TIME);
    stray.misread.parent = true;
    let mut db = loaded(vec![
        raw(1, 0, 1, "one", GOOD_TIME),
        stray,
        raw(3, 0, 0, "three", GOOD_TIME),
    ]);
    assert_eq!(db.children_of(0), [1, 3]);
    for r in [db.move_up(2), db.move_down(2)] {
        assert_eq!(r, Err(DataError::Sqlite(StorageFault::WrongType(PARENT_COLUMN))));
    }
    db.move_down(1).unwrap();
    assert_eq!(db.children_of(0), [3, 1]);
    assert_eq!(db.rows().iter().find(|r| r.id == 2).unwrap().order_index, 0, "not numbered anew");
    db.move_to_parent(2, 3).unwrap();
    assert_eq!(db.children_of(3), [2], "a new parent mends it");
    assert_eq!(db.get(2).unwrap().unwrap().parent_id, 3);
}

#[test]
fn a_row_whose_position_cannot_be_read_is_mended_by_a_move_beside_it() {
    let mut last = raw(1, 0, 1, "last", GOOD_TIME);
    last.order_index = i64::MAX;
    last.misread.position = true;
    let mut db = loaded(vec![last, raw(2, 0, 1, "two", GOOD_TIME), raw(3, 0, 1, "three", GOOD_TIME)]);
    assert_eq!(db.children_of(0), [2, 3, 1]);
    for r in [db.move_up(1), db.move_down(1)] {
        assert_eq!(r, Err(DataError::Sqlite(StorageFault::WrongType(POSITION_COLUMN))));
    }
    assert!(db.can_grow());
    db.move_down(2).unwrap();
    assert_eq!(db.children_of(0), [3, 2, 1]);
    assert_eq!(db.get(1).unwrap().unwrap().order_index, 2);
}

#[test]
fn a_position_that_does_not_fit_is_an_error() {
    let mut wide = raw(1, 0, 1, "wide", GOOD_TIME);
    wide.order_index = 1 << 40;
    let db = loaded(vec![wide]);
    assert_eq!(
        db.get(1).unwrap_err(),
        DataError::Sqlite(StorageFault::OrderOutOfRange(1 << 40))
    );
}

#[test]
fn a_version_that_does_not_fit_counts_as_ahead() {
    assert_eq!(saturate_version(Some(-1)), Some(u32::MAX));
    assert_eq!(saturate_version(Some(1 << 40)), Some(u32::MAX));
    assert_eq!(saturate_version(Some(3)), Some(3));
    assert_eq!(saturate_version(None), None);
}

#[test]
fn both_spellings_of_a_time_are_read_and_nothing_else() {
    let space = Timestamp::parse("1970-01-01 00:00:01.5+00:00").unwrap();
    let t = Timestamp::parse("1970-01-01T00:00:01.5+00:00").unwrap();
    assert_eq!(space, t);
    assert_eq!((t.secs, t.nanos), (1, 500_000_000));
    assert_eq!(Timestamp::parse("tomorrow"), None);
}

#[test]
fn moving_there_and_back_restores_the_order() {
    let mut db = Database::new(Some(1));
    for title in ["a", "b", "c"] {
        let mut item = Item::new_plain(0, title, "");
        db.insert(&mut item).unwrap();
    }
    let before: Vec<i64> = db.load_all().unwrap().iter().map(|i| i.id.unwrap()).collect();
    db.move_up(before[2]).unwrap();
    db.move_down(before[2]).unwrap();
    let after: Vec<i64> = db.load_all().unwrap().iter().map(|i| i.id.unwrap()).collect();
    assert_eq!(before, after);
    assert_eq!(db.item_count(), 3);
}

#[test]
fn item_kind_round_trip() {
    for kind in [
        ItemKind::Folder,
        ItemKind::Plain,
        ItemKind::RichText,
        ItemKind::Clip,
    ] {
        assert_eq!(ItemKind::from_i64(kind.as_i64()), Some(kind));
    }
    assert_eq!(ItemKind::from_i64(99), None);
}

#[test]
fn new_folder_has_correct_defaults() {
    let f = Item::new_folder(0, "root");
    assert_eq!(f.parent_id, 0);
    assert_eq!(f.kind, ItemKind::Folder);
    assert_eq!(f.order_index, -1);
    assert!(f.body_plain.is_empty());
    assert!(f.body_rtf.is_none());
    assert!(f.is_folder());
}

#[test]
fn history_folder_id_is_negative() {
    assert!(HISTORY_FOLDER_ID < 0);
}

#[test]
fn insert_assigns_id_and_load_all_round_trips() {
    let mut db = Database::new(Some(1));

    let mut folder = Item::new_folder(0, "My folder");
    db.insert(&mut folder).unwrap();
    assert!(folder.id.is_some(), "insert must fill in the id");

    let mut item = Item::new_plain(folder.id.unwrap(), "Greeting", "Hello, world!");
    db.insert(&mut item).unwrap();
    assert!(item.id.is_some());

    let loaded = db.load_all().unwrap();
    assert_eq!(loaded.len(), 2);
    assert_eq!(loaded[0].title, "My folder");
    assert_eq!(loaded[1].title, "Greeting");
    assert_eq!(loaded[1].body_plain, "Hello, world!");
    assert_eq!(loaded[1].created_at, item.created_at);
    assert_eq!(loaded[1].updated_at, item.updated_at);
}

#[test]
fn insert_preserves_unicode() {
    let mut db = Database::new(Some(1));

    let mut item = Item::new_plain(0, "привет", "Héllo — Wörld 🌍");
    db.insert(&mut item).unwrap();

    let loaded = db.load_all().unwrap();
    assert_eq!(loaded[0].title, "привет");
    assert_eq!(loaded[0].body_plain, "Héllo — Wörld 🌍");
}

#[test]
fn update_changes_title_and_body() {
    let mut db = Database::new(Some(1));

    let mut item = Item::new_plain(0, "old", "old body");
    db.insert(&mut item).unwrap();
    let id = item.id.unwrap();

    let mut edited = item.clone();
    edited.title = "new title".into();
    edited.body_plain = "new body".into();
    db.update(&edited).unwrap();

    let loaded = db.load_all().unwrap();
    let row = loaded.iter().find(|i| i.id == Some(id)).unwrap();
    assert_eq!(row.title, "new title");
    assert_eq!(row.body_plain, "new body");
}

#[test]
fn insert_with_negative_order_index_appends_at_end() {
    let mut db = Database::new(Some(1));

    let mut a = Item::new_plain(0, "a", "");
    let mut b = Item::new_plain(0, "b", "");
    let mut c = Item::new_plain(0, "c", "");
    db.insert(&mut a).unwrap();
    db.insert(&mut b).unwrap();
    db.insert(&mut c).unwrap();

    let loaded = db.load_all().unwrap();
    let orders: Vec<i32> = loaded.iter().map(|i| i.order_index).collect();
    assert_eq!(orders, vec![0, 1, 2]);
}

#[test]
fn remove_subtree_deletes_item_and_all_descendants() {
    let mut db = Database::new(Some(1));
    let mut folder1 = Item::new_folder(0, "folder1");
    db.insert(&mut folder1).unwrap();
    let f1_id = folder1.id.unwrap();

    let mut folder2 = Item::new_folder(0, "folder2");
    db.insert(&mut folder2).unwrap();

    let mut child_a = Item::new_plain(f1_id, "child_a", "body_a");
    db.insert(&mut child_a).unwrap();
    let ca_id = child_a.id.unwrap();

    let mut child_b = Item::new_plain(f1_id, "child_b", "body_b");
    db.insert(&mut child_b).unwrap();
    db.remove_subtree(f1_id).unwrap();

    let remaining = db.load_all().unwrap();
    assert_eq!(remaining.len(), 1, "only folder2 should remain");
    assert_eq!(remaining[0].title, "folder2");
    assert!(db.get(ca_id).unwrap().is_none());
    assert!(db.get(f1_id).unwrap().is_none());
}

#[test]
fn remove_subtree_on_leaf_deletes_only_that_item() {
    let mut db = Database::new(Some(1));

    let mut a = Item::new_plain(0, "a", "");
    let mut b = Item::new_plain(0, "b", "");
    db.insert(&mut a).unwrap();
    db.insert(&mut b).unwrap();

    db.remove_subtree(a.id.unwrap()).unwrap();
    let remaining = db.load_all().unwrap();
    assert_eq!(remaining.len(), 1);
    assert_eq!(remaining[0].title, "b");
}

#[test]
fn get_returns_item_by_id() {
    let mut db = Database::new(Some(1));

    let mut item = Item::new_plain(0, "test", "body");
    db.insert(&mut item).unwrap();
    let id = item.id.unwrap();

    let found = db.get(id).unwrap();
    assert!(found.is_some());
    assert_eq!(found.unwrap().title, "test");

    let missing = db.get(99999).unwrap();
    assert!(missing.is_none());
}

#[test]
fn move_up_swaps_with_previous_sibling() {
    let mut db = Database::new(Some(1));

    let mut a = Item::new_plain(0, "a", "");
    let mut b = Item::new_plain(0, "b", "");
    let mut c = Item::new_plain(0, "c", "");
    db.insert(&mut a).unwrap();
    db.insert(&mut b).unwrap();
    db.insert(&mut c).unwrap();

    db.move_up(b.id.unwrap()).unwrap();

    let items = db.load_all().unwrap();
    assert_eq!(items[0].title, "b");
    assert_eq!(items[1].title, "a");
    assert_eq!(items[2].title, "c");
}

#[test]
fn move_up_on_first_item_is_noop() {
    let mut db = Database::new(Some(1));

    let mut a = Item::new_plain(0, "a", "");
    let mut b = Item::new_plain(0, "b", "");
    db.insert(&mut a).unwrap();
    db.insert(&mut b).unwrap();

    db.move_up(a.id.unwrap()).unwrap(); // a is already first
    let items = db.load_all().unwrap();
    assert_eq!(items[0].title, "a");
    assert_eq!(items[1].title, "b");
}

#[test]
fn move_down_swaps_with_next_sibling() {
    let mut db = Database::new(Some(1));

    let mut a = Item::new_plain(0, "a", "");
    let mut b = Item::new_plain(0, "b", "");
    let mut c = Item::new_plain(0, "c", "");
    db.insert(&mut a).unwrap();
    db.insert(&mut b).unwrap();
    db.insert(&mut c).unwrap();

    db.move_down(a.id.unwrap()).unwrap();
    let items = db.load_all().unwrap();
    assert_eq!(items[0].title, "b");
    assert_eq!(items[1].title, "a");
    assert_eq!(items[2].title, "c");
}

#[test]
fn move_down_on_last_item_is_noop() {
    let mut db = Database::new(Some(1));

    let mut a = Item::new_plain(0, "a", "");
    let mut b = Item::new_plain(0, "b", "");
    db.insert(&mut a).unwrap();
    db.insert(&mut b).unwrap();

    db.move_down(b.id.unwrap()).unwrap(); // b is already last
    let items = db.load_all().unwrap();
    assert_eq!(items[0].title, "a");
    assert_eq!(items[1].title, "b");
}

#[test]
fn update_without_id_is_missing_id_error() {
    let mut db = Database::new(Some(1));

    let mut item = Item::new_plain(0, "x", "");
    db.insert(&mut item).unwrap();
    let mut no_id = item.clone();
    no_id.id = None;

    let err = db.update(&no_id).unwrap_err();
    assert!(
        matches!(err, DataError::MissingId),
        "expected MissingId, got {err:?}"
    );
}

#[test]
fn remove_subtree_deletes_three_levels_deep() {
    let mut db = Database::new(Some(1));

    let mut l1 = Item::new_folder(0, "l1");
    db.insert(&mut l1).unwrap();
    let mut l2 = Item::new_folder(l1.id.unwrap(), "l2");
    db.insert(&mut l2).unwrap();
    let mut l3 = Item::new_folder(l2.id.unwrap(), "l3");
    db.insert(&mut l3).unwrap();
    let mut leaf = Item::new_plain(l3.id.unwrap(), "leaf", "body");
    db.insert(&mut leaf).unwrap();
    let mut sibling = Item::new_plain(0, "keep", "");
    db.insert(&mut sibling).unwrap();

    db.remove_subtree(l1.id.unwrap()).unwrap();

    let remaining = db.load_all().unwrap();
    assert_eq!(remaining.len(), 1, "only the untouched sibling remains");
    assert_eq!(remaining[0].title, "keep");
    assert!(db.get(leaf.id.unwrap()).unwrap().is_none());
}

#[test]
fn update_rejects_self_parent() {
    let mut db = Database::new(Some(1));

    let mut f = Item::new_folder(0, "f");
    db.insert(&mut f).unwrap();
    f.parent_id = f.id.unwrap();

    let err = db.update(&f).unwrap_err();
    assert!(
        matches!(err, DataError::InvalidParent { .. }),
        "expected InvalidParent, got {err:?}"
    );
}

#[test]
fn update_rejects_moving_a_folder_into_its_own_descendant() {
    let mut db = Database::new(Some(1));

    let mut parent = Item::new_folder(0, "parent");
    db.insert(&mut parent).unwrap();
    let mut child = Item::new_folder(parent.id.unwrap(), "child");
    db.insert(&mut child).unwrap();
    let mut grandchild = Item::new_folder(child.id.unwrap(), "grandchild");
    db.insert(&mut grandchild).unwrap();

    parent.parent_id = grandchild.id.unwrap();
    let err = db.update(&parent).unwrap_err();
    assert!(
        matches!(err, DataError::InvalidParent { .. }),
        "expected InvalidParent, got {err:?}"
    );
}

#[test]
fn update_rejects_nonexistent_and_sentinel_parents() {
    let mut db = Database::new(Some(1));

    let mut item = Item::new_plain(0, "x", "");
    db.insert(&mut item).unwrap();

    for bad in [9999_i64, HISTORY_FOLDER_ID, -1] {
        let mut candidate = item.clone();
        candidate.parent_id = bad;
        let err = db.update(&candidate).unwrap_err();
        assert!(
            matches!(err, DataError::InvalidParent { .. }),
            "parent {bad} must be rejected, got {err:?}"
        );
    }
}

#[test]
fn insert_rejects_a_nonexistent_parent() {
    let mut db = Database::new(Some(1));

    let mut orphan = Item::new_plain(4242, "orphan", "");
    let err = db.insert(&mut orphan).unwrap_err();
    assert!(
        matches!(
            err,
            DataError::InvalidParent {
                parent_id: 4242,
                ..
            }
        ),
        "expected InvalidParent, got {err:?}"
    );
    assert!(orphan.id.is_none(), "nothing must have been written");
    assert!(db.load_all().unwrap().is_empty());
}

#[test]
fn insert_rejects_the_history_sentinel_as_a_parent() {
    let mut db = Database::new(Some(1));
    let mut item = Item::new_plain(HISTORY_FOLDER_ID, "x", "");
    assert!(matches!(
        db.insert(&mut item).unwrap_err(),
        DataError::InvalidParent { .. }
    ));
}

#[test]
fn insert_still_accepts_the_root_and_a_real_folder() {
    let mut db = Database::new(Some(1));

    let mut root_level = Item::new_plain(0, "root level", "");
    db.insert(&mut root_level).expect("parent 0 is the root");

    let mut folder = Item::new_folder(0, "folder");
    db.insert(&mut folder).unwrap();
    let mut child = Item::new_plain(folder.id.unwrap(), "child", "");
    db.insert(&mut child)
        .expect("a real folder is a valid parent");

    assert_eq!(db.load_all().unwrap().len(), 3);
}

#[test]
fn move_down_separates_siblings_that_share_an_order_index() {
    let mut db = Database::new(Some(1));

    let mut a = Item::new_plain(0, "a", "");
    a.order_index = 0;
    let mut b = Item::new_plain(0, "b", "");
    b.order_index = 0;
    let mut c = Item::new_plain(0, "c", "");
    c.order_index = 0;
    db.insert(&mut a).unwrap();
    db.insert(&mut b).unwrap();
    db.insert(&mut c).unwrap();

    db.move_down(a.id.unwrap()).unwrap();
    let titles: Vec<String> = db
        .load_all()
        .unwrap()
        .into_iter()
        .map(|i| i.title)
        .collect();
    assert_eq!(titles, ["b", "a", "c"], "a must actually move past b");
}

#[test]
fn move_to_parent_on_a_nonexistent_id_reports_not_found() {
    let mut db = Database::new(Some(1));
    let mut folder = Item::new_folder(0, "f");
    db.insert(&mut folder).unwrap();

    let err = db.move_to_parent(4242, folder.id.unwrap()).unwrap_err();
    assert!(
        matches!(err, DataError::ItemNotFound(4242)),
        "expected ItemNotFound(4242), got {err:?}"
    );
}

#[test]
fn update_accepts_a_legitimate_reparent() {
    let mut db = Database::new(Some(1));

    let mut a = Item::new_folder(0, "a");
    let mut b = Item::new_folder(0, "b");
    db.insert(&mut a).unwrap();
    db.insert(&mut b).unwrap();
    let mut leaf = Item::new_plain(a.id.unwrap(), "leaf", "");
    db.insert(&mut leaf).unwrap();

    leaf.parent_id = b.id.unwrap();
    db.update(&leaf).unwrap();
    assert_eq!(
        db.get(leaf.id.unwrap()).unwrap().unwrap().parent_id,
        b.id.unwrap()
    );
    db.move_to_parent(leaf.id.unwrap(), 0).unwrap();
    assert_eq!(db.get(leaf.id.unwrap()).unwrap().unwrap().parent_id, 0);
}

#[test]
fn move_to_parent_refuses_to_build_a_cycle() {
    let mut db = Database::new(Some(1));

    let mut outer = Item::new_folder(0, "outer");
    db.insert(&mut outer).unwrap();
    let mut inner = Item::new_folder(outer.id.unwrap(), "inner");
    db.insert(&mut inner).unwrap();

    let err = db
        .move_to_parent(outer.id.unwrap(), inner.id.unwrap())
        .unwrap_err();
    assert!(matches!(err, DataError::InvalidParent { .. }));
}

#[test]
fn update_of_a_deleted_item_reports_not_found() {
    let mut db = Database::new(Some(1));

    let mut item = Item::new_plain(0, "x", "");
    db.insert(&mut item).unwrap();
    let id = item.id.unwrap();
    db.remove_subtree(id).unwrap();

    let err = db.update(&item).unwrap_err();
    assert!(
        matches!(err, DataError::ItemNotFound(n) if n == id),
        "expected ItemNotFound({id}), got {err:?}"
    );
}

#[test]
fn move_up_separates_siblings_that_share_an_order_index() {
    let mut db = Database::new(Some(1));

    let mut a = Item::new_plain(0, "a", "");
    a.order_index = 0;
    let mut b = Item::new_plain(0, "b", "");
    b.order_index = 0;
    let mut c = Item::new_plain(0, "c", "");
    c.order_index = 0;
    db.insert(&mut a).unwrap();
    db.insert(&mut b).unwrap();
    db.insert(&mut c).unwrap();
    let titles: Vec<String> = db
        .load_all()
        .unwrap()
        .into_iter()
        .map(|i| i.title)
        .collect();
    assert_eq!(titles, ["a", "b", "c"]);

    db.move_up(c.id.unwrap()).unwrap();
    let titles: Vec<String> = db
        .load_all()
        .unwrap()
        .into_iter()
        .map(|i| i.title)
        .collect();
    assert_eq!(titles, ["a", "c", "b"], "c must actually move past b");
    let orders: Vec<i32> = db
        .load_all()
        .unwrap()
        .iter()
        .map(|i| i.order_index)
        .collect();
    assert_eq!(orders, [0, 1, 2]);
}

#[test]
fn move_on_a_nonexistent_id_is_a_noop() {
    let mut db = Database::new(Some(1));
    let mut a = Item::new_plain(0, "a", "");
    db.insert(&mut a).unwrap();

    db.move_up(4242)
        .expect("a stale row id must not be an error");
    db.move_down(4242)
        .expect("a stale row id must not be an error");
    assert_eq!(db.load_all().unwrap().len(), 1);
}

#[test]
fn insert_with_explicit_order_index_is_honoured() {
    let mut db = Database::new(Some(1));

    let mut a = Item::new_plain(0, "a", "");
    a.order_index = 5;
    db.insert(&mut a).unwrap();
    assert_eq!(a.order_index, 5);
    let mut b = Item::new_plain(0, "b", "");
    db.insert(&mut b).unwrap();
    assert_eq!(b.order_index, 6);
}

#[test]
fn load_all_lenient_reports_zero_skips_on_clean_data() {
    let mut db = Database::new(Some(1));
    let mut a = Item::new_plain(0, "a", "");
    db.insert(&mut a).unwrap();

    let (items, skipped) = db.load_all_lenient().unwrap();
    assert_eq!(skipped, 0);
    assert_eq!(items.len(), 1);
}

#[test]
fn body_rtf_empty_string_round_trips_as_none() {
    let mut db = Database::new(Some(1));

    let mut item = Item::new_plain(0, "x", "");
    item.body_rtf = Some(String::new());
    db.insert(&mut item).unwrap();
    assert_eq!(db.get(item.id.unwrap()).unwrap().unwrap().body_rtf, None);

    let mut with_rtf = Item::new_plain(0, "y", "");
    with_rtf.body_rtf = Some("<b>hi</b>".into());
    db.insert(&mut with_rtf).unwrap();
    assert_eq!(
        db.get(with_rtf.id.unwrap()).unwrap().unwrap().body_rtf,
        Some("<b>hi</b>".to_string())
    );
}

#[test]
fn large_payload_round_trips() {
    let mut db = Database::new(Some(1));

    let body = "x".repeat(4 * 1024 * 1024);
    let mut item = Item::new_plain(0, "big", &body);
    db.insert(&mut item).unwrap();

    let loaded = db.get(item.id.unwrap()).unwrap().unwrap();
    assert_eq!(loaded.body_plain.len(), body.len());
    assert_eq!(loaded.body_plain, body);
}

#[test]
fn the_clock_gives_a_moment_outside_leap_seconds() {
    let now = Timestamp::now();
    assert!(now.nanos < 1_000_000_000);
    assert!(now.secs > 1_577_836_800, "the clock is past the start of 2020");
}

#[test]
fn read_only_db_rejects_insert() {
    let mut db = Database::new(Some(1));
    let mut item = Item::new_plain(0, "x", "y");
    db.insert(&mut item).unwrap();
    let stored = vec![raw(1, 0, 1, "x", GOOD_TIME)];
    let mut db = Database::from_rows(stored, Some(1), 1, true).unwrap().unwrap();
    let mut item = Item::new_plain(0, "z", "w");
    let err = db.insert(&mut item).unwrap_err();
    assert!(
        matches!(err, DataError::Sqlite(_)),
        "expected Sqlite error on read-only insert, got {err:?}"
    );
    assert_eq!(item.id, None);
}

#[test]
fn every_write_to_a_read_only_database_is_refused() {
    let refused = || Err(DataError::Sqlite(StorageFault::ReadOnly));
    let stored = vec![raw(1, 0, 0, "a", GOOD_TIME), raw(2, 0, 1, "b", GOOD_TIME)];
    let mut db = Database::from_rows(stored, Some(1), 1, true).unwrap().unwrap();
    let mut item = db.get(2).unwrap().unwrap();
    assert_eq!(db.insert(&mut item), refused());
    assert_eq!(db.update(&item), refused());
    item.id = Some(77);
    assert_eq!(db.update(&item), refused(), "before the row is looked for");
    assert_eq!(db.move_to_parent(2, 1), refused());
    assert_eq!(db.move_up(2), refused());
    assert_eq!(db.move_up(77), Ok(()), "there is nothing to write");
    assert_eq!(db.remove_subtree(77), refused());
    item.parent_id = 4242;
    assert_eq!(db.insert(&mut item), Err(DataError::InvalidParent { id: 0, parent_id: 4242 }));
    assert_eq!(db.children_of(0), [1, 2]);
}

#[test]
fn only_the_last_sibling_decides_where_an_item_is_appended() {
    let at = |id: i64, parent: i64, position: i64| RawRow {
        order_index: position,
        ..raw(id, parent, 0, "", GOOD_TIME)
    };
    let mut db = loaded(vec![at(1, 0, 5), at(2, 1, i64::MAX)]);
    let mut item = Item::new_plain(0, "x", "");
    item.order_index = -1;
    db.insert(&mut item).unwrap();
    assert_eq!(item.order_index, 6, "the position in the folder does not matter");
    let mut item = Item::new_plain(1, "y", "");
    item.order_index = -1;
    let beyond = db.insert(&mut item);
    assert_eq!(beyond, Err(DataError::Sqlite(StorageFault::WrongType(POSITION_COLUMN))));
    assert_eq!(item.id, None);
    assert_eq!(db.children_of(1), [2, 4], "stored all the same, behind the other");
}

#[test]
fn a_position_of_another_type_is_counted_on_as_the_engine_does() {
    let odd = |next: Cell| {
        let mut row = raw(1, 0, 1, "odd", GOOD_TIME);
        row.order_index = i64::MAX;
        row.misread.position = true;
        row.next = next;
        loaded(vec![row, raw(2, 0, 1, "two", GOOD_TIME)])
    };
    let mut item = Item::new_plain(0, "x", "");
    item.order_index = -1;
    odd(Cell::number(8)).insert(&mut item).unwrap();
    assert_eq!(item.order_index, 8, "as after the text 7x");
    let mut item = Item::new_plain(0, "y", "");
    item.order_index = -1;
    let mut db = odd(Cell { value: 3, misread: true });
    let r = db.insert(&mut item);
    assert_eq!(r, Err(DataError::Sqlite(StorageFault::WrongType(POSITION_COLUMN))));
    let row = db.rows().into_iter().find(|r| r.id == 3).unwrap();
    assert_eq!((row.order_index, row.misread.position), (3, true), "as after 2.5");
    assert_eq!(row.next, Cell { value: 4, misread: true });
}
