//! The flat list of rows that the tree view shows: stored items depth first, and the virtual
//! folder of the clipboard history.
use crate::clipboard_history::{entry_views, Captured, HistoryEntry};
use crate::item::{kind_code, HistoryPosition, Item, ItemKind, ItemView, HISTORY_FOLDER_ID};
use crate::database::item_views;
use crate::ordering::ordered_lists_agree;
use crate::text::chars_of;
use std::collections::HashSet;
use vstd::prelude::*;

verus! {

broadcast use vstd::std_specs::hash::group_hash_axioms;

/// The parent id of a row at top level.
pub const NO_PARENT: i32 = -1;

/// How many characters of a captured text its row shows.
pub const HISTORY_LABEL_CHARS: usize = 80;

/// The id of the first history entry; the others count down from it.
pub const FIRST_HISTORY_ENTRY_ID: i32 = -2;

/// One row of the tree view.
#[derive(Debug, PartialEq, Eq)]
pub struct TreeItem {
    pub internal_id: i32,
    pub parent_internal_id: i32,
    pub depth: i32,
    pub text: String,
    pub user_data: String,
    pub icon: String,
    pub item_type: i32,
    pub has_children: bool,
    pub expanded: bool,
}

/// The value of a [`TreeItem`].
pub struct TreeRow {
    pub internal_id: i32,
    pub parent_internal_id: i32,
    pub depth: i32,
    pub text: Seq<char>,
    pub user_data: Seq<char>,
    pub icon: Seq<char>,
    pub item_type: i32,
    pub has_children: bool,
    pub expanded: bool,
}

impl View for TreeItem {
    type V = TreeRow;

    open spec fn view(&self) -> TreeRow {
        TreeRow {
            internal_id: self.internal_id,
            parent_internal_id: self.parent_internal_id,
            depth: self.depth,
            text: self.text@,
            user_data: self.user_data@,
            icon: self.icon@,
            item_type: self.item_type,
            has_children: self.has_children,
            expanded: self.expanded,
        }
    }
}

impl Clone for TreeItem {
    fn clone(&self) -> (r: Self)
        ensures
            r@ == self@,
    {
        TreeItem {
            internal_id: self.internal_id,
            parent_internal_id: self.parent_internal_id,
            depth: self.depth,
            text: self.text.clone(),
            user_data: self.user_data.clone(),
            icon: self.icon.clone(),
            item_type: self.item_type,
            has_children: self.has_children,
            expanded: self.expanded,
        }
    }
}

/// The values of a list of rows.
pub open spec fn row_views(rows: Seq<TreeItem>) -> Seq<TreeRow> {
    rows.map_values(|r: TreeItem| r@)
}

impl TreeItem {
    /// A row that can hold others, shown open.
    pub fn branch(internal_id: i32, parent_internal_id: i32, depth: i32, text: &str) -> (r: Self)
        ensures
            r@ == (TreeRow {
                internal_id,
                parent_internal_id,
                depth,
                text: text@,
                user_data: Seq::empty(),
                icon: Seq::empty(),
                item_type: 0,
                has_children: true,
                expanded: true,
            }),
    {
        TreeItem {
            internal_id,
            parent_internal_id,
            depth,
            text: text.to_owned(),
            user_data: String::new(),
            icon: String::new(),
            item_type: 0,
            has_children: true,
            expanded: true,
        }
    }

    /// A row that holds no others.
    pub fn leaf(
        internal_id: i32,
        parent_internal_id: i32,
        depth: i32,
        text: &str,
        user_data: &str,
    ) -> (r: Self)
        ensures
            r@ == (TreeRow {
                internal_id,
                parent_internal_id,
                depth,
                text: text@,
                user_data: user_data@,
                icon: Seq::empty(),
                item_type: 0,
                has_children: false,
                expanded: false,
            }),
    {
        TreeItem {
            internal_id,
            parent_internal_id,
            depth,
            text: text.to_owned(),
            user_data: user_data.to_owned(),
            icon: String::new(),
            item_type: 0,
            has_children: false,
            expanded: false,
        }
    }
}

/// The number of a kind in a row.
pub open spec fn row_type(kind: ItemKind) -> i32 {
    kind_code(kind) as i32
}

fn type_of(kind: ItemKind) -> (r: i32)
    ensures
        r == row_type(kind),
{
    kind.as_i64() as i32
}

// ---- labels -------------------------------------------------------------

pub open spec fn is_newline(c: char) -> bool {
    c == '\n' || c == '\r'
}

/// `text` with every run of line breaks turned into one space.
pub open spec fn collapsed_newlines(text: Seq<char>) -> Seq<char>
    decreases text.len(),
{
    if text.len() == 0 {
        Seq::empty()
    } else {
        let head = collapsed_newlines(text.drop_last());
        if !is_newline(text.last()) {
            head.push(text.last())
        } else if text.len() > 1 && is_newline(text[text.len() - 2]) {
            head
        } else {
            head.push(' ')
        }
    }
}

/// Turns every run of line breaks into one space.
pub fn collapse_newlines(s: &str) -> (r: String)
    ensures
        r@ == collapsed_newlines(s@),
{
    let chars = chars_of(s);
    let mut out = String::new();
    let mut in_run = false;
    let mut i: usize = 0;
    assert(chars@.take(0) =~= Seq::<char>::empty());
    while i < chars.len()
        invariant
            i <= chars@.len(),
            chars@ == s@,
            out@ == collapsed_newlines(chars@.take(i as int)),
            in_run == (i > 0 && is_newline(chars@[i - 1])),
        decreases chars@.len() - i,
    {
        let c = chars[i];
        proof {
            let t = chars@.take(i + 1);
            assert(t.drop_last() =~= chars@.take(i as int));
            assert(t.last() == c);
            if i > 0 {
                assert(t[t.len() - 2] == chars@[i - 1]);
            }
        }
        if c == '\n' || c == '\r' {
            if !in_run {
                out.push(' ');
                in_run = true;
            }
        } else {
            out.push(c);
            in_run = false;
        }
        i = i + 1;
    }
    assert(chars@.take(i as int) =~= s@);
    out
}

/// A collapsed text holds no line break, and is no longer than the original.
pub proof fn collapsed_is_one_line(text: Seq<char>)
    ensures
        forall|i: int|
            0 <= i < collapsed_newlines(text).len() ==> !is_newline(
                #[trigger] collapsed_newlines(text)[i],
            ),
        collapsed_newlines(text).len() <= text.len(),
    decreases text.len(),
{
    if text.len() > 0 {
        collapsed_is_one_line(text.drop_last());
    }
}

/// A text without line breaks stays as it is.
pub proof fn one_line_stays(text: Seq<char>)
    requires
        forall|i: int| 0 <= i < text.len() ==> !is_newline(#[trigger] text[i]),
    ensures
        collapsed_newlines(text) == text,
    decreases text.len(),
{
    if text.len() > 0 {
        assert forall|i: int| 0 <= i < text.drop_last().len() implies !is_newline(
            #[trigger] text.drop_last()[i],
        ) by {
            assert(text.drop_last()[i] == text[i]);
        }
        one_line_stays(text.drop_last());
        assert(text =~= text.drop_last().push(text.last()));
    } else {
        assert(text =~= Seq::<char>::empty());
    }
}

/// The label of a captured text: its start, on one line.
pub open spec fn history_label(text: Seq<char>) -> Seq<char> {
    collapsed_newlines(
        if text.len() > HISTORY_LABEL_CHARS {
            text.take(HISTORY_LABEL_CHARS as int)
        } else {
            text
        },
    )
}

fn label_of(text: &str) -> (r: String)
    ensures
        r@ == history_label(text@),
{
    let chars = chars_of(text);
    if chars.len() > HISTORY_LABEL_CHARS {
        let start = crate::text::text_of(&chars, 0, HISTORY_LABEL_CHARS);
        assert(start@ =~= text@.take(HISTORY_LABEL_CHARS as int));
        collapse_newlines(start.as_str())
    } else {
        collapse_newlines(text)
    }
}

// ---- history rows -------------------------------------------------------

/// The id of history entry `i`.
pub open spec fn history_id(i: int) -> int {
    -(i + 2)
}

/// The history entry that a row id stands for, if any.
pub open spec fn history_index(id: int) -> Option<int> {
    if id == HISTORY_FOLDER_ID {
        None
    } else if id <= FIRST_HISTORY_ENTRY_ID {
        Some(-id - 2)
    } else {
        None
    }
}

/// The history entry that a row id stands for, if any: none for the folder itself, for a
/// stored item or for no row at all.
pub fn history_index_from_item_id(id: i32) -> (r: Option<usize>)
    ensures
        r == (match history_index(id as int) {
            Some(i) => Some(i as usize),
            None => None,
        }),
        r matches Some(i) ==> i == history_index(id as int)->0,
{
    if id as i64 == HISTORY_FOLDER_ID {
        return None;
    }
    if id <= FIRST_HISTORY_ENTRY_ID {
        let below: i64 = -(id as i64) - 2;
        Some(below as usize)
    } else {
        None
    }
}

/// Entry ids are read back as the entries they were made for, and collide with nothing: not
/// with a stored id, the root, the mark for no parent, or the folder's own id. This holds of
/// as many entries as the settings allow and more, short of the folder's id.
pub proof fn history_ids_are_unambiguous(i: int, j: int)
    requires
        0 <= i < -HISTORY_FOLDER_ID - 2,
        0 <= j < -HISTORY_FOLDER_ID - 2,
    ensures
        history_index(history_id(i)) == Some(i),
        history_id(i) < NO_PARENT,
        history_id(i) != HISTORY_FOLDER_ID,
        history_id(i) == history_id(j) ==> i == j,
        history_index(HISTORY_FOLDER_ID as int) is None,
{
}

/// The rows of the virtual folder.
pub open spec fn history_rows(
    history: Seq<Captured>,
    label: Seq<char>,
    collapsed: Set<i64>,
) -> Seq<TreeRow> {
    let closed = collapsed.contains(HISTORY_FOLDER_ID);
    let folder = TreeRow {
        internal_id: HISTORY_FOLDER_ID as i32,
        parent_internal_id: NO_PARENT,
        depth: 0,
        text: label,
        user_data: Seq::empty(),
        icon: "🕒"@,
        item_type: row_type(ItemKind::Folder),
        has_children: history.len() > 0,
        expanded: !closed,
    };
    if closed {
        seq![folder]
    } else {
        seq![folder] + Seq::new(history.len(), |i: int| history_row(history[i].0, i))
    }
}

/// The row of history entry `i`.
pub open spec fn history_row(text: Seq<char>, i: int) -> TreeRow {
    TreeRow {
        internal_id: history_id(i) as i32,
        parent_internal_id: HISTORY_FOLDER_ID as i32,
        depth: 1,
        text: history_label(text),
        user_data: text,
        icon: "📋"@,
        item_type: row_type(ItemKind::Plain),
        has_children: false,
        expanded: false,
    }
}

/// Appends the virtual folder and, unless it is closed, its entries.
pub fn push_history_folder(
    items: &mut Vec<TreeItem>,
    history: &[HistoryEntry],
    label: &str,
    collapsed: &HashSet<i64>,
)
    requires
        history@.len() <= i32::MAX - 2,
    ensures
        row_views(final(items)@) == row_views(old(items)@) + history_rows(
            entry_views(history@),
            label@,
            collapsed@,
        ),
{
    let ghost before = row_views(items@);
    let ghost entries = entry_views(history@);
    let closed = collapsed.contains(&HISTORY_FOLDER_ID);
    let mut folder = TreeItem::branch(HISTORY_FOLDER_ID as i32, NO_PARENT, 0, label);
    folder.icon = "🕒".to_owned();
    folder.item_type = type_of(ItemKind::Folder);
    folder.has_children = history.len() > 0;
    folder.expanded = !closed;
    let ghost head = folder@;
    items.push(folder);
    assert(row_views(items@) =~= before + seq![head]);
    if closed {
        return;
    }
    let ghost rows = Seq::new(entries.len(), |i: int| history_row(entries[i].0, i));
    let mut i: usize = 0;
    while i < history.len()
        invariant
            i <= history@.len() <= i32::MAX - 2,
            entries == entry_views(history@),
            rows == Seq::new(entries.len(), |i: int| history_row(entries[i].0, i)),
            row_views(items@) == before + seq![head] + rows.take(i as int),
        decreases history@.len() - i,
    {
        let text = history[i].text.as_str();
        let label = label_of(text);
        let mut row = TreeItem::leaf(
            -((i as i32) + 2),
            HISTORY_FOLDER_ID as i32,
            1,
            label.as_str(),
            text,
        );
        row.icon = "📋".to_owned();
        row.item_type = type_of(ItemKind::Plain);
        let ghost added = row@;
        let ghost rows_before = items@;
        items.push(row);
        proof {
            assert(entries[i as int] == history@[i as int]@);
            assert(added == rows[i as int]);
            assert(row_views(items@) =~= row_views(rows_before).push(added));
            assert(rows.take(i + 1) =~= rows.take(i as int).push(added));
        }
        i = i + 1;
        assert(row_views(items@) =~= before + seq![head] + rows.take(i as int));
    }
    assert(rows.take(i as int) =~= rows);
    assert(row_views(items@) =~= before + history_rows(entries, label@, collapsed@));
}

// ---- stored items -------------------------------------------------------

/// The order of optional ids: none comes first.
pub open spec fn id_before(a: Option<i64>, b: Option<i64>) -> bool {
    match (a, b) {
        (None, Some(_)) => true,
        (Some(x), Some(y)) => x < y,
        _ => false,
    }
}

/// Does the item at place `a` come before the one at place `b`, both having one parent? By
/// position, then by id, then as they stand.
pub open spec fn shown_before(items: Seq<ItemView>, a: int, b: int) -> bool {
    let x = items[a];
    let y = items[b];
    x.order_index < y.order_index || (x.order_index == y.order_index && (id_before(x.id, y.id) || (
    x.id == y.id && a < b)))
}

/// `s` lists the places of the children of `parent`, in the order they are shown.
pub open spec fn is_shown_children(items: Seq<ItemView>, parent: i64, s: Seq<int>) -> bool {
    &&& forall|i: int| #[trigger]
        s.contains(i) <==> (0 <= i < items.len() && items[i].parent_id == parent)
    &&& in_shown_order(items, s)
}

/// The places of the children of `parent`, in the order they are shown.
pub open spec fn shown_children(items: Seq<ItemView>, parent: i64) -> Seq<int> {
    choose|s: Seq<int>| is_shown_children(items, parent, s)
}

/// The children of a row are shown in only one order.
pub proof fn shown_children_are_unique(items: Seq<ItemView>, parent: i64, s: Seq<int>)
    requires
        is_shown_children(items, parent, s),
    ensures
        shown_children(items, parent) == s,
{
    ordered_lists_agree(
        shown_children(items, parent),
        s,
        |a: int, b: int| shown_before(items, a, b),
    );
}

/// The row of a folder.
pub open spec fn folder_row(
    item: ItemView,
    id: i64,
    parent: i32,
    depth: int,
    has_children: bool,
    expanded: bool,
) -> TreeRow {
    TreeRow {
        internal_id: id as i32,
        parent_internal_id: parent,
        depth: depth as i32,
        text: item.title,
        user_data: item.body_plain,
        icon: "📁"@,
        item_type: row_type(ItemKind::Folder),
        has_children,
        expanded,
    }
}

/// The row of anything but a folder.
pub open spec fn snippet_row(item: ItemView, id: i64, parent: i32, depth: int) -> TreeRow {
    TreeRow {
        internal_id: id as i32,
        parent_internal_id: parent,
        depth: depth as i32,
        text: item.title,
        user_data: item.body_plain,
        icon: "📄"@,
        item_type: row_type(item.kind),
        has_children: false,
        expanded: false,
    }
}

/// The rows of the items at the places `order`, each open folder followed by what is in it,
/// and the folders met so far. An item without an id is left out, and so is a folder that has
/// been met before. `levels` is how many levels of folders are followed at most.
pub open spec fn subtree_rows(
    items: Seq<ItemView>,
    order: Seq<int>,
    depth: int,
    parent: i32,
    collapsed: Set<i64>,
    visited: Set<i64>,
    levels: nat,
) -> (Seq<TreeRow>, Set<i64>)
    decreases levels, order.len(),
{
    if levels == 0 || order.len() == 0 {
        (Seq::empty(), visited)
    } else {
        let item = items[order[0]];
        let rest = order.drop_first();
        match item.id {
            None => subtree_rows(items, rest, depth, parent, collapsed, visited, levels),
            Some(id) => if item.kind != ItemKind::Folder {
                let after = subtree_rows(items, rest, depth, parent, collapsed, visited, levels);
                (seq![snippet_row(item, id, parent, depth)] + after.0, after.1)
            } else if visited.contains(id) {
                subtree_rows(items, rest, depth, parent, collapsed, visited, levels)
            } else {
                let children = shown_children(items, id);
                let closed = collapsed.contains(id);
                let row = folder_row(item, id, parent, depth, children.len() > 0, !closed);
                let below = if closed {
                    (Seq::<TreeRow>::empty(), visited.insert(id))
                } else {
                    subtree_rows(
                        items,
                        children,
                        depth + 1,
                        id as i32,
                        collapsed,
                        visited.insert(id),
                        (levels - 1) as nat,
                    )
                };
                let after = subtree_rows(items, rest, depth, parent, collapsed, below.1, levels);
                (seq![row] + below.0 + after.0, after.1)
            },
        }
    }
}

/// The rows of all stored items that can be reached from the root. A level is used up by each
/// folder that is followed, and no folder is followed twice, so there are always enough.
pub open spec fn stored_rows(items: Seq<ItemView>, collapsed: Set<i64>) -> Seq<TreeRow> {
    subtree_rows(
        items,
        shown_children(items, 0),
        0,
        NO_PARENT,
        collapsed,
        Set::empty(),
        items.len() + 1,
    ).0
}

/// All rows: the stored items, and the virtual folder before or after them.
pub open spec fn tree_rows(
    items: Seq<ItemView>,
    history: Seq<Captured>,
    position: HistoryPosition,
    label: Seq<char>,
    collapsed: Set<i64>,
) -> Seq<TreeRow> {
    match position {
        HistoryPosition::Top => history_rows(history, label, collapsed) + stored_rows(
            items,
            collapsed,
        ),
        HistoryPosition::Bottom => stored_rows(items, collapsed) + history_rows(
            history,
            label,
            collapsed,
        ),
    }
}

fn place_shown_before(items: &[Item], a: usize, b: usize) -> (r: bool)
    requires
        a < items@.len(),
        b < items@.len(),
    ensures
        r == shown_before(item_views(items@), a as int, b as int),
{
    let x = &items[a];
    let y = &items[b];
    assert(item_views(items@)[a as int] == x@);
    assert(item_views(items@)[b as int] == y@);
    if x.order_index != y.order_index {
        return x.order_index < y.order_index;
    }
    match (x.id, y.id) {
        (None, Some(_)) => true,
        (Some(_), None) => false,
        (None, None) => a < b,
        (Some(p), Some(q)) => if p != q {
            p < q
        } else {
            a < b
        },
    }
}

/// The places as mathematical integers.
pub open spec fn as_places(s: Seq<usize>) -> Seq<int> {
    s.map_values(|i: usize| i as int)
}

/// Places listed in the order they are shown.
pub open spec fn in_shown_order(items: Seq<ItemView>, s: Seq<int>) -> bool {
    forall|a: int, b: int|
        0 <= a < b < s.len() ==> shown_before(items, #[trigger] s[a], #[trigger] s[b])
}

/// A place put behind those shown before it, and before the others, keeps the order.
proof fn putting_keeps_order(items: Seq<ItemView>, s: Seq<int>, p: int, i: int)
    requires
        0 <= p <= s.len(),
        in_shown_order(items, s),
        forall|k: int| 0 <= k < p ==> shown_before(items, #[trigger] s[k], i),
        p < s.len() ==> shown_before(items, i, s[p]),
    ensures
        in_shown_order(items, s.insert(p, i)),
        forall|x: int| #[trigger] s.insert(p, i).contains(x) <==> (s.contains(x) || x == i),
{
    let after = s.insert(p, i);
    assert forall|a: int, b: int| 0 <= a < b < after.len() implies shown_before(
        items,
        #[trigger] after[a],
        #[trigger] after[b],
    ) by {
        if b < p {
            assert(after[a] == s[a] && after[b] == s[b]);
        } else if b == p {
            assert(after[a] == s[a]);
        } else if a < p {
            assert(after[a] == s[a] && after[b] == s[b - 1]);
        } else if a == p {
            assert(after[b] == s[b - 1]);
            if b - 1 > p {
                assert(shown_before(items, s[p], s[b - 1]));
            }
        } else {
            assert(after[a] == s[a - 1] && after[b] == s[b - 1]);
        }
    }
    assert forall|x: int| #[trigger] after.contains(x) <==> (s.contains(x) || x == i) by {
        if after.contains(x) {
            let k = choose|k: int| 0 <= k < after.len() && after[k] == x;
            if k < p {
                assert(s[k] == x);
            } else if k > p {
                assert(s[k - 1] == x);
            }
        }
        if s.contains(x) {
            let k = choose|k: int| 0 <= k < s.len() && s[k] == x;
            if k < p {
                assert(after[k] == x);
            } else {
                assert(after[k + 1] == x);
            }
        }
        if x == i {
            assert(after[p] == i);
        }
    }
}

/// Among places before `i` in the list, those shown before it come first.
proof fn slot_exists(items: Seq<ItemView>, s: Seq<int>, i: int) -> (p: int)
    requires
        in_shown_order(items, s),
        forall|k: int| 0 <= k < s.len() ==> 0 <= #[trigger] s[k] < i,
    ensures
        0 <= p <= s.len(),
        forall|k: int| 0 <= k < p ==> shown_before(items, #[trigger] s[k], i),
        p < s.len() ==> shown_before(items, i, s[p]),
    decreases s.len(),
{
    if s.len() == 0 {
        0
    } else if shown_before(items, s.last(), i) {
        assert forall|k: int| 0 <= k < s.len() implies shown_before(items, #[trigger] s[k], i) by {
            if k < s.len() - 1 {
                assert(shown_before(items, s[k], s.last()));
            }
        }
        s.len() as int
    } else {
        let rest = s.drop_last();
        assert forall|a: int, b: int| 0 <= a < b < rest.len() implies shown_before(
            items,
            #[trigger] rest[a],
            #[trigger] rest[b],
        ) by {
            assert(rest[a] == s[a] && rest[b] == s[b]);
        }
        let p = slot_exists(items, rest, i);
        assert(s.last() < i);
        assert forall|k: int| 0 <= k < p implies shown_before(items, #[trigger] s[k], i) by {
            assert(rest[k] == s[k]);
        }
        p
    }
}

/// The children among the first `n` items can be listed in the order they are shown.
proof fn children_listed(items: Seq<ItemView>, parent: i64, n: int) -> (s: Seq<int>)
    requires
        0 <= n <= items.len(),
    ensures
        in_shown_order(items, s),
        forall|i: int| #[trigger]
            s.contains(i) <==> (0 <= i < n && items[i].parent_id == parent),
    decreases n,
{
    if n == 0 {
        Seq::empty()
    } else {
        let s = children_listed(items, parent, n - 1);
        if items[n - 1].parent_id == parent {
            assert forall|k: int| 0 <= k < s.len() implies 0 <= #[trigger] s[k] < n - 1 by {
                assert(s.contains(s[k]));
            }
            let p = slot_exists(items, s, n - 1);
            putting_keeps_order(items, s, p, n - 1);
            s.insert(p, n - 1)
        } else {
            s
        }
    }
}

/// Every row's children can be listed in the order they are shown.
pub proof fn shown_children_exist(items: Seq<ItemView>, parent: i64)
    ensures
        is_shown_children(items, parent, shown_children(items, parent)),
{
    let s = children_listed(items, parent, items.len() as int);
    assert(is_shown_children(items, parent, s));
}

/// The places of the children of `parent`, in the order they are shown.
fn children_places(items: &[Item], parent: i64) -> (r: Vec<usize>)
    ensures
        as_places(r@) == shown_children(item_views(items@), parent),
        forall|k: int| 0 <= k < r@.len() ==> (#[trigger] r@[k]) < items@.len(),
{
    let ghost views = item_views(items@);
    let mut out: Vec<usize> = Vec::new();
    let mut i: usize = 0;
    while i < items.len()
        invariant
            i <= items@.len(),
            views == item_views(items@),
            forall|k: int| 0 <= k < out@.len() ==> (#[trigger] out@[k]) < i,
            in_shown_order(views, as_places(out@)),
            forall|p: int| #[trigger]
                as_places(out@).contains(p) <==> (0 <= p < i && views[p].parent_id == parent),
        decreases items@.len() - i,
    {
        assert(views[i as int] == items@[i as int]@);
        if items[i].parent_id == parent {
            insert_shown(items, &mut out, i);
        }
        i = i + 1;
    }
    proof {
        assert(items.len() == items@.len());
        shown_children_are_unique(views, parent, as_places(out@));
    }
    out
}

/// Puts place `i`, which stands behind all of them, where it belongs among the places.
fn insert_shown(items: &[Item], places: &mut Vec<usize>, i: usize)
    requires
        i < items@.len(),
        forall|k: int| 0 <= k < old(places)@.len() ==> (#[trigger] old(places)@[k]) < i,
        in_shown_order(item_views(items@), as_places(old(places)@)),
    ensures
        forall|k: int| 0 <= k < final(places)@.len() ==> (#[trigger] final(places)@[k]) <= i,
        in_shown_order(item_views(items@), as_places(final(places)@)),
        forall|x: int| #[trigger]
            as_places(final(places)@).contains(x) <==> (as_places(old(places)@).contains(x) || x
                == i),
{
    let ghost before = as_places(places@);
    let ghost views = item_views(items@);
    let mut p: usize = 0;
    while p < places.len() && place_shown_before(items, places[p], i)
        invariant
            as_places(places@) == before,
            places@ == old(places)@,
            views == item_views(items@),
            p <= before.len(),
            i < items@.len(),
            forall|k: int| 0 <= k < places@.len() ==> (#[trigger] places@[k]) < i,
            forall|k: int| 0 <= k < p ==> shown_before(views, #[trigger] before[k], i as int),
        decreases before.len() - p,
    {
        assert(before[p as int] == places@[p as int] as int);
        p = p + 1;
    }
    places.insert(p, i);
    proof {
        if p < before.len() {
            assert(before[p as int] == old(places)@[p as int] as int);
        }
        putting_keeps_order(views, before, p as int, i as int);
        assert(as_places(places@) =~= before.insert(p as int, i as int));
    }
}

/// Appends the rows of the items at the given places, each open folder followed by what is in
/// it.
fn build_subtree(
    items: &[Item],
    order: &Vec<usize>,
    depth: i32,
    parent_internal_id: i32,
    collapsed: &HashSet<i64>,
    visited: &mut HashSet<i64>,
    levels: usize,
    out: &mut Vec<TreeItem>,
)
    requires
        forall|k: int| 0 <= k < order@.len() ==> (#[trigger] order@[k]) < items@.len(),
        0 <= depth,
        depth + levels <= i32::MAX,
    ensures
        ({
            let r = subtree_rows(
                item_views(items@),
                as_places(order@),
                depth as int,
                parent_internal_id,
                collapsed@,
                old(visited)@,
                levels as nat,
            );
            &&& row_views(final(out)@) == row_views(old(out)@) + r.0
            &&& final(visited)@ == r.1
        }),
    decreases levels,
{
    let ghost views = item_views(items@);
    let ghost places = as_places(order@);
    let ghost start = row_views(out@);
    let ghost whole = subtree_rows(
        views,
        places,
        depth as int,
        parent_internal_id,
        collapsed@,
        visited@,
        levels as nat,
    );
    if levels == 0 {
        assert(row_views(out@) =~= start + whole.0);
        return;
    }
    let ghost mut done: Seq<TreeRow> = Seq::empty();
    let mut i: usize = 0;
    assert(places.skip(0) =~= places);
    assert(start =~= start + done);
    assert(whole.0 =~= done + whole.0);
    while i < order.len()
        invariant
            i <= order@.len(),
            views == item_views(items@),
            places == as_places(order@),
            forall|k: int| 0 <= k < order@.len() ==> (#[trigger] order@[k]) < items@.len(),
            0 <= depth,
            depth + levels <= i32::MAX,
            levels > 0,
            row_views(out@) == start + done,
            ({
                let tail = subtree_rows(
                    views,
                    places.skip(i as int),
                    depth as int,
                    parent_internal_id,
                    collapsed@,
                    visited@,
                    levels as nat,
                );
                whole.0 == done + tail.0 && whole.1 == tail.1
            }),
        decreases order@.len() - i,
    {
        let item = &items[order[i]];
        let ghost visited_before = visited@;
        let ghost tail = subtree_rows(
            views,
            places.skip(i as int),
            depth as int,
            parent_internal_id,
            collapsed@,
            visited@,
            levels as nat,
        );
        proof {
            assert(places.skip(i as int)[0] == order@[i as int] as int);
            assert(views[order@[i as int] as int] == item@);
            assert(places.skip(i as int).drop_first() =~= places.skip(i + 1));
        }
        let id = match item.id {
            Some(id) => id,
            None => {
                i = i + 1;
                continue;
            },
        };
        let row_id: i32 = id as i32;
        let is_folder = item.kind == ItemKind::Folder;
        if !is_folder {
            let mut row = TreeItem::leaf(
                row_id,
                parent_internal_id,
                depth,
                item.title.as_str(),
                item.body_plain.as_str(),
            );
            row.icon = "📄".to_owned();
            row.item_type = type_of(item.kind);
            let ghost added = row@;
            let ghost rows_before = out@;
            out.push(row);
            proof {
                assert(added == snippet_row(item@, id, parent_internal_id, depth as int));
                assert(row_views(out@) =~= row_views(rows_before).push(added));
                done = done.push(added);
                assert(row_views(out@) =~= start + done);
                let after = subtree_rows(
                    views,
                    places.skip(i + 1),
                    depth as int,
                    parent_internal_id,
                    collapsed@,
                    visited@,
                    levels as nat,
                );
                assert(whole.0 =~= done + after.0);
            }
            i = i + 1;
            continue;
        }
        if !visited.insert(id) {
            assert(visited@ =~= visited_before);
            i = i + 1;
            continue;
        }
        let children = children_places(items, id);
        let closed = collapsed.contains(&id);
        let mut branch = TreeItem::branch(
            row_id,
            parent_internal_id,
            depth,
            item.title.as_str(),
        );
        branch.icon = "📁".to_owned();
        branch.item_type = type_of(item.kind);
        branch.user_data = item.body_plain.clone();
        branch.has_children = children.len() > 0;
        branch.expanded = !closed;
        let ghost added = branch@;
        let ghost rows_before = out@;
        out.push(branch);
        let ghost with_row = row_views(out@);
        proof {
            assert(added == folder_row(
                item@,
                id,
                parent_internal_id,
                depth as int,
                children@.len() > 0,
                !closed,
            ));
            assert(with_row =~= row_views(rows_before).push(added));
        }
        let ghost visited_at = visited@;
        if !closed {
            build_subtree(
                items,
                &children,
                depth + 1,
                row_id,
                collapsed,
                visited,
                levels - 1,
                out,
            );
        }
        proof {
            let below = if closed {
                (Seq::<TreeRow>::empty(), visited_at)
            } else {
                subtree_rows(
                    views,
                    shown_children(views, id),
                    depth + 1,
                    id as i32,
                    collapsed@,
                    visited_at,
                    (levels - 1) as nat,
                )
            };
            assert(row_views(out@) =~= with_row + below.0);
            assert(visited@ == below.1);
            let after = subtree_rows(
                views,
                places.skip(i + 1),
                depth as int,
                parent_internal_id,
                collapsed@,
                below.1,
                levels as nat,
            );
            assert(tail.0 == seq![added] + below.0 + after.0);
            done = done.push(added) + below.0;
            assert(row_views(out@) =~= start + done);
            assert(whole.0 =~= done + after.0);
        }
        i = i + 1;
    }
    proof {
        assert(places.skip(i as int) =~= Seq::<int>::empty());
        assert(whole.0 =~= done);
    }
}

/// The rows that the tree view shows.
pub fn build_tree_items_with_history(
    items: &[Item],
    history: &[HistoryEntry],
    position: HistoryPosition,
    history_folder_label: &str,
    collapsed: &HashSet<i64>,
) -> (r: Vec<TreeItem>)
    requires
        items@.len() < i32::MAX,
        history@.len() <= i32::MAX - 2,
    ensures
        row_views(r@) == tree_rows(
            item_views(items@),
            entry_views(history@),
            position,
            history_folder_label@,
            collapsed@,
        ),
{
    let mut out: Vec<TreeItem> = Vec::new();
    let ghost none = row_views(out@);
    assert(none =~= Seq::<TreeRow>::empty());
    if position == HistoryPosition::Top {
        push_history_folder(&mut out, history, history_folder_label, collapsed);
    }
    let roots = children_places(items, 0);
    let mut visited: HashSet<i64> = HashSet::new();
    assert(visited@ =~= Set::<i64>::empty());
    build_subtree(
        items,
        &roots,
        0,
        NO_PARENT,
        collapsed,
        &mut visited,
        items.len() + 1,
        &mut out,
    );
    if position == HistoryPosition::Bottom {
        push_history_folder(&mut out, history, history_folder_label, collapsed);
    }
    assert(row_views(out@) =~= tree_rows(
        item_views(items@),
        entry_views(history@),
        position,
        history_folder_label@,
        collapsed@,
    ));
    out
}

} // verus!
