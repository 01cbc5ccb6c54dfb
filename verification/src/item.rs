//! Data model: snippets and folders.
use crate::text::same_text;
use chrono::{DateTime, Utc};
use rusqlite::types::{FromSql, ValueRef};
use vstd::prelude::*;

verus! {

/// What an item is.
#[derive(Debug, Clone, Copy, PartialEq, Eq, Structural)]
pub enum ItemKind {
    Folder,
    Plain,
    RichText,
    Clip,
}

/// The number stored in the `items.type` column for a kind.
pub open spec fn kind_code(kind: ItemKind) -> int {
    match kind {
        ItemKind::Folder => 0,
        ItemKind::Plain => 1,
        ItemKind::RichText => 2,
        ItemKind::Clip => 3,
    }
}

/// The kind that a stored number stands for, if any.
pub open spec fn kind_of_code(v: int) -> Option<ItemKind> {
    if v == 0 {
        Some(ItemKind::Folder)
    } else if v == 1 {
        Some(ItemKind::Plain)
    } else if v == 2 {
        Some(ItemKind::RichText)
    } else if v == 3 {
        Some(ItemKind::Clip)
    } else {
        None
    }
}

impl ItemKind {
    /// The integer stored in the `items.type` column.
    pub fn as_i64(self) -> (r: i64)
        ensures
            r == kind_code(self),
    {
        match self {
            ItemKind::Folder => 0,
            ItemKind::Plain => 1,
            ItemKind::RichText => 2,
            ItemKind::Clip => 3,
        }
    }

    /// Reads the integer of the `items.type` column.
    pub fn from_i64(v: i64) -> (r: Option<Self>)
        ensures
            r == kind_of_code(v as int),
    {
        match v {
            0 => Some(ItemKind::Folder),
            1 => Some(ItemKind::Plain),
            2 => Some(ItemKind::RichText),
            3 => Some(ItemKind::Clip),
            _ => None,
        }
    }
}

/// A kind survives being written to its column and read back, and a number is read as a
/// kind only if it is that kind's own number.
pub proof fn kind_round_trip(kind: ItemKind, v: int)
    ensures
        kind_of_code(kind_code(kind)) == Some(kind),
        kind_of_code(v) == Some(kind) <==> v == kind_code(kind),
{
}

/// A moment in UTC: whole seconds since the Unix epoch, and nanoseconds within the second.
#[derive(Debug, Clone, Copy, PartialEq, Eq, Structural)]
pub struct Timestamp {
    pub secs: i64,
    pub nanos: u32,
}

/// What the storage layer reads out of the text of a timestamp column: seconds since the
/// Unix epoch and nanoseconds within the second, or nothing if the text is no timestamp.
pub uninterp spec fn timestamp_in_text(text: Seq<char>) -> Option<(i64, u32)>;

/// `text` read as a moment.
pub open spec fn moment_in_text(text: Seq<char>) -> Option<Timestamp> {
    match timestamp_in_text(text) {
        Some((secs, nanos)) => Some(Timestamp { secs, nanos }),
        None => None,
    }
}

/// Calls rusqlite's `FromSql::column_result` for chrono's `DateTime<Utc>` on a text value.
/// Claimed: what comes back, success or not, depends on the text alone.
#[verifier::external_body]
fn read_timestamp_text(text: &str) -> (r: Option<(i64, u32)>)
    ensures
        r == timestamp_in_text(text@),
{
    match DateTime::<Utc>::column_result(ValueRef::Text(text.as_bytes())) {
        Ok(t) => Some((t.timestamp(), t.timestamp_subsec_nanos())),
        Err(_) => None,
    }
}

/// Was this moment told by the system's clock? It is a property of the moment of which nothing
/// else is known.
pub closed spec fn told_by_the_clock(t: Timestamp) -> bool {
    arbitrary::<spec_fn(Timestamp) -> bool>()(t)
}

/// Calls chrono's `Utc::now`. Claimed: the moment was told by the system's clock, and the
/// nanoseconds lie within the second, since the system's time holds no leap second. Which
/// moment it is depends on the clock and is not stated.
#[verifier::external_body]
fn clock() -> (r: (i64, u32))
    ensures
        told_by_the_clock(Timestamp { secs: r.0, nanos: r.1 }),
        r.1 < 1_000_000_000,
{
    let t = Utc::now();
    (t.timestamp(), t.timestamp_subsec_nanos())
}

impl Timestamp {
    /// The current moment, whatever the clock says. It is never in a leap second.
    pub fn now() -> (r: Timestamp)
        ensures
            told_by_the_clock(r),
            r.nanos < 1_000_000_000,
    {
        let (secs, nanos) = clock();
        Timestamp { secs, nanos }
    }

    /// Reads the text of a timestamp column.
    pub fn parse(text: &str) -> (r: Option<Timestamp>)
        ensures
            r == moment_in_text(text@),
    {
        match read_timestamp_text(text) {
            Some((secs, nanos)) => Some(Timestamp { secs, nanos }),
            None => None,
        }
    }
}

/// A snippet or a folder.
#[derive(Debug, PartialEq, Eq)]
pub struct Item {
    /// `None` until the item has been stored.
    pub id: Option<i64>,
    /// `0` is the invisible root.
    pub parent_id: i64,
    pub kind: ItemKind,
    pub title: String,
    pub body_plain: String,
    pub body_rtf: Option<String>,
    pub comment: String,
    /// Negative means "append" on insert.
    pub order_index: i32,
    pub created_at: Timestamp,
    pub updated_at: Timestamp,
}

/// The value of an [`Item`].
pub struct ItemView {
    pub id: Option<i64>,
    pub parent_id: i64,
    pub kind: ItemKind,
    pub title: Seq<char>,
    pub body_plain: Seq<char>,
    pub body_rtf: Option<Seq<char>>,
    pub comment: Seq<char>,
    pub order_index: i32,
    pub created_at: Timestamp,
    pub updated_at: Timestamp,
}

/// The value of an optional text.
pub open spec fn text_view(s: Option<String>) -> Option<Seq<char>> {
    match s {
        Some(s) => Some(s@),
        None => None,
    }
}

impl View for Item {
    type V = ItemView;

    open spec fn view(&self) -> ItemView {
        ItemView {
            id: self.id,
            parent_id: self.parent_id,
            kind: self.kind,
            title: self.title@,
            body_plain: self.body_plain@,
            body_rtf: text_view(self.body_rtf),
            comment: self.comment@,
            order_index: self.order_index,
            created_at: self.created_at,
            updated_at: self.updated_at,
        }
    }
}

impl Clone for Item {
    fn clone(&self) -> (r: Self)
        ensures
            r@ == self@,
    {
        let body_rtf = match &self.body_rtf {
            Some(s) => Some(s.clone()),
            None => None,
        };
        Item {
            id: self.id,
            parent_id: self.parent_id,
            kind: self.kind,
            title: self.title.clone(),
            body_plain: self.body_plain.clone(),
            body_rtf,
            comment: self.comment.clone(),
            order_index: self.order_index,
            created_at: self.created_at,
            updated_at: self.updated_at,
        }
    }
}

/// A brand-new item as `new_folder` and `new_plain` make it: not stored, to be appended.
pub open spec fn fresh_item(
    parent_id: i64,
    kind: ItemKind,
    title: Seq<char>,
    body: Seq<char>,
    created_at: Timestamp,
    updated_at: Timestamp,
) -> ItemView {
    ItemView {
        id: None,
        parent_id,
        kind,
        title,
        body_plain: body,
        body_rtf: None,
        comment: Seq::empty(),
        order_index: (-1) as i32,
        created_at,
        updated_at,
    }
}

impl Item {
    /// A new folder, ready to be inserted. Both timestamps come from the clock.
    pub fn new_folder(parent_id: i64, title: &str) -> (r: Self)
        ensures
            r@ == fresh_item(
                parent_id,
                ItemKind::Folder,
                title@,
                Seq::empty(),
                r.created_at,
                r.updated_at,
            ),
            told_by_the_clock(r.created_at),
            told_by_the_clock(r.updated_at),
    {
        Item {
            id: None,
            parent_id,
            kind: ItemKind::Folder,
            title: title.to_owned(),
            body_plain: String::new(),
            body_rtf: None,
            comment: String::new(),
            order_index: -1,
            created_at: Timestamp::now(),
            updated_at: Timestamp::now(),
        }
    }

    /// A new plain text item, ready to be inserted. Both timestamps come from the clock.
    pub fn new_plain(parent_id: i64, title: &str, body: &str) -> (r: Self)
        ensures
            r@ == fresh_item(
                parent_id,
                ItemKind::Plain,
                title@,
                body@,
                r.created_at,
                r.updated_at,
            ),
            told_by_the_clock(r.created_at),
            told_by_the_clock(r.updated_at),
    {
        Item {
            id: None,
            parent_id,
            kind: ItemKind::Plain,
            title: title.to_owned(),
            body_plain: body.to_owned(),
            body_rtf: None,
            comment: String::new(),
            order_index: -1,
            created_at: Timestamp::now(),
            updated_at: Timestamp::now(),
        }
    }

    pub fn is_folder(&self) -> (r: bool)
        ensures
            r == (self@.kind == ItemKind::Folder),
    {
        self.kind == ItemKind::Folder
    }
}

/// Sentinel for the virtual "Clipboard History" folder. Stored ids are at least 1 and
/// history entries count down from -2, so it collides with neither.
pub const HISTORY_FOLDER_ID: i64 = -1000;

/// Where the virtual Clipboard History folder sits in the tree.
#[derive(Debug, Clone, Copy, PartialEq, Eq, Structural)]
pub enum HistoryPosition {
    Top,
    Bottom,
}

impl HistoryPosition {
    /// The word that stands for the position in the settings file.
    pub fn as_word(self) -> (r: &'static str)
        ensures
            r@ == (match self {
                HistoryPosition::Top => "top"@,
                HistoryPosition::Bottom => "bottom"@,
            }),
    {
        match self {
            HistoryPosition::Top => "top",
            HistoryPosition::Bottom => "bottom",
        }
    }

    /// Reads the word of the settings file. Any word but `top` means the bottom, so that a
    /// value from a later version does not make the file unreadable.
    pub fn from_word(word: &str) -> (r: Self)
        ensures
            r == (if word@ == "top"@ {
                HistoryPosition::Top
            } else {
                HistoryPosition::Bottom
            }),
    {
        if same_text(word, "top") {
            HistoryPosition::Top
        } else {
            HistoryPosition::Bottom
        }
    }
}

} // verus!
