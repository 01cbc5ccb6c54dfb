//! What values stand for: a value has what its fields hold, a list has the values of its
//! entries, and a number that is agreed on outside has its value.
use crate::clipboard::{offers, reports, ClipboardPayload};
use crate::clipboard_history::{entry_views, HistoryEntry};
use crate::database::{item_views, row_of_raw, table_of, ids_distinct, RawRow, Row};
use crate::devices::read_view;
use crate::editor::{edit_view, EditorPane, PendingEdit, EDITOR_COMMIT_DELAY_MS};
use crate::grabs::{registration_views, ReaderState, RegisterPlan, Registration, RegistrationView};
use crate::hotkey::HotkeyError;
use crate::i18n::{key_views, label_keys, tag_view, LanguageTag};
use crate::item::{moment_in_text, text_view, timestamp_in_text, Item, Timestamp, HISTORY_FOLDER_ID};
use crate::options::OptionsForm;
use crate::paste_dialog::{candidate_views, PasteCandidate};
use crate::reader::RECONNECT_ATTEMPTS;
use crate::replay::{kept_or_read_anew, read_anew, reported_unreadable};
use crate::secret_store::{answers, complaint, secret_view, KeyringReply, Secret};
use crate::settings::Settings;
use crate::table::{decode, Table};
use crate::text::text_views;
use crate::tree_builder::{row_views, TreeItem, TreeRow};
use crate::tree_view::{is_place_of, place_view, readable_item};
use crate::windows_hotkey::{WM_HOTKEY, WM_QUIT};
use crate::x11::{lock_states, parsed_sequence, ModifierLayout};
use vstd::prelude::*;

verus! {

// ---- agreed numbers -----------------------------------------------------

/// The numbers and names that are agreed on outside or with the user.
pub proof fn agreed_numbers()
    ensures
        WM_QUIT == 0x12,
        WM_HOTKEY == 0x312,
        RECONNECT_ATTEMPTS == 5,
        EDITOR_COMMIT_DELAY_MS == 300,
        HISTORY_FOLDER_ID == -1000,
        crate::context::PASSPHRASE_ACCOUNT@ == "database-passphrase"@,
{
}

// ---- single values ------------------------------------------------------

/// An item has what its fields hold.
pub proof fn value_of_an_item(item: Item)
    ensures
        item@.id == item.id,
        item@.parent_id == item.parent_id,
        item@.kind == item.kind,
        item@.title == item.title@,
        item@.body_plain == item.body_plain@,
        item.body_rtf is Some ==> item@.body_rtf == Some(item.body_rtf->0@),
        item.body_rtf is None ==> item@.body_rtf is None,
        item@.comment == item.comment@,
        item@.order_index == item.order_index,
        item@.created_at == item.created_at,
        item@.updated_at == item.updated_at,
{
}

/// A stored row has what its fields hold, and a row as the storage engine hands it out is the
/// same with its times read.
pub proof fn value_of_a_row(row: Row, raw: RawRow)
    ensures
        row@.parent_id == row.parent_id,
        row@.type_int == row.type_int,
        row@.title == row.title@,
        row@.body_plain == row.body_plain@,
        row@.body_rtf == row.body_rtf@,
        row@.comment == row.comment@,
        row@.order_index == row.order_index,
        row@.created_at == row.created_at,
        row@.updated_at == row.updated_at,
        row@.misread == row.misread,
        row@.next == row.next,
        row_of_raw(raw).parent_id == raw.parent_id,
        row_of_raw(raw).type_int == raw.type_int,
        row_of_raw(raw).title == raw.title@,
        row_of_raw(raw).body_plain == raw.body_plain@,
        row_of_raw(raw).body_rtf == raw.body_rtf@,
        row_of_raw(raw).comment == raw.comment@,
        row_of_raw(raw).order_index == raw.order_index,
        row_of_raw(raw).created_at == moment_in_text(raw.created_at@),
        row_of_raw(raw).updated_at == moment_in_text(raw.updated_at@),
        row_of_raw(raw).misread == raw.misread,
        row_of_raw(raw).next == raw.next,
{
}

/// A text is read as the moment that the storage engine reads it as.
pub proof fn value_of_a_time(text: Seq<char>)
    ensures
        timestamp_in_text(text) matches Some((secs, nanos)) ==> moment_in_text(text) == Some(
            Timestamp { secs, nanos },
        ),
        timestamp_in_text(text) is None ==> moment_in_text(text) is None,
{
}

/// A list of rows with different ids stands for the table that holds each of them under its id
/// and nothing else.
pub proof fn value_of_a_table(rows: Seq<Row>, id: i64, i: int)
    requires
        ids_distinct(rows),
    ensures
        table_of(rows).dom().contains(id) <==> exists|k: int|
            0 <= k < rows.len() && (#[trigger] rows[k]).id == id,
        0 <= i < rows.len() ==> table_of(rows)[rows[i].id] == rows[i]@,
        ids_distinct(rows) <==> forall|a: int, b: int|
            0 <= a < b < rows.len() ==> (#[trigger] rows[a]).id != (#[trigger] rows[b]).id,
{
    if 0 <= i < rows.len() {
        let p = crate::database::place_of(rows, rows[i].id);
        assert(rows[i].id == rows[i].id && 0 <= i < rows.len());
        assert(0 <= p < rows.len() && rows[p].id == rows[i].id);
        assert(p == i);
    }
}

/// A captured text, a candidate of the dialog and a row of the tree have what their fields
/// hold.
pub proof fn value_of_what_is_shown(entry: HistoryEntry, c: PasteCandidate, row: TreeItem)
    ensures
        entry@.0 == entry.text@ && entry@.1 == entry.timestamp,
        c@.title == c.title@ && c@.preview == c.preview@ && c@.tag == c.tag@ && c@.text == c.text@,
        row@.internal_id == row.internal_id,
        row@.parent_internal_id == row.parent_internal_id,
        row@.depth == row.depth,
        row@.text == row.text@,
        row@.user_data == row.user_data@,
        row@.icon == row.icon@,
        row@.item_type == row.item_type,
        row@.has_children == row.has_children,
        row@.expanded == row.expanded,
{
}

/// The pane, a change that waits and a registration have what their fields hold.
pub proof fn value_of_what_is_edited(pane: EditorPane, edit: PendingEdit, reg: Registration)
    ensures
        pane@.title == pane.title@ && pane@.body == pane.body@,
        pane@.title_enabled == pane.title_enabled && pane@.body_enabled == pane.body_enabled,
        edit@.id == edit.id,
        edit.title is Some ==> edit@.title == Some(edit.title->0@),
        edit.title is None ==> edit@.title is None,
        edit.body is Some ==> edit@.body == Some(edit.body->0@),
        edit.body is None ==> edit@.body is None,
        reg@.id == reg.id && reg@.sequence == reg.sequence@,
        reg@.keycode == reg.keycode && reg@.base_mods == reg.base_mods,
{
}

/// The settings and the fields of the dialog have what they hold.
pub proof fn value_of_the_settings(s: Settings, form: OptionsForm)
    ensures
        s@.language == s.general.language@,
        s@.hotkeys.open_dialog == s.hotkeys.open_dialog@,
        s@.hotkeys.open_main_window == s.hotkeys.open_main_window@,
        s@.clipboard_history.enabled == s.clipboard_history.enabled,
        s@.clipboard_history.max_items == s.clipboard_history.max_items,
        s@.clipboard_history.position == s.clipboard_history.position,
        s@.paste.delay_ms == s.paste.delay_ms,
        s@.paste.restore_clipboard == s.paste.restore_clipboard,
        form@.language_index == form.language_index,
        form@.hotkey_open_dialog == form.hotkey_open_dialog@,
        form@.hotkey_open_main_window == form.hotkey_open_main_window@,
        form@.history_enabled == form.history_enabled,
        form@.history_max_items == form.history_max_items,
        form@.history_position_index == form.history_position_index,
        form@.paste_delay_ms == form.paste_delay_ms,
        form@.paste_restore_clipboard == form.paste_restore_clipboard,
{
}

/// An optional value is the value of what is there.
pub proof fn value_of_an_option(
    text: Option<String>,
    edit: Option<PendingEdit>,
    tag: Option<LanguageTag>,
    secret: Option<Secret>,
    place: Option<usize>,
    read: Result<String, crate::clipboard::ClipboardError>,
)
    ensures
        text is Some ==> text_view(text) == Some(text->0@),
        text is None ==> text_view(text) is None,
        edit is Some ==> edit_view(edit) == Some(edit->0@),
        edit is None ==> edit_view(edit) is None,
        tag is Some ==> tag_view(tag) is Some && tag_view(tag)->0.canonical == tag->0.canonical@
            && tag_view(tag)->0.language == tag->0.language@,
        tag is None ==> tag_view(tag) is None,
        secret is Some ==> secret_view(secret) == Some(secret->0@),
        secret is None ==> secret_view(secret) is None,
        place is Some ==> place_view(place) == Some(place->0 as int),
        place is None ==> place_view(place) is None,
        read is Ok ==> read_view(read) is Ok && read_view(read)->Ok_0 == read->Ok_0@,
        read is Err ==> read_view(read) is Err && read_view(read)->Err_0 == read->Err_0,
{
}

// ---- lists --------------------------------------------------------------

/// A list has the values of its entries, each of them, in order.
pub proof fn values_of_lists(
    items: Seq<Item>,
    entries: Seq<HistoryEntry>,
    candidates: Seq<PasteCandidate>,
    rows: Seq<TreeItem>,
    texts: Seq<String>,
    regs: Seq<Registration>,
    keys: Seq<&'static str>,
    i: int,
)
    ensures
        item_views(items).len() == items.len(),
        entry_views(entries).len() == entries.len(),
        candidate_views(candidates).len() == candidates.len(),
        row_views(rows).len() == rows.len(),
        text_views(texts).len() == texts.len(),
        registration_views(regs).len() == regs.len(),
        key_views(keys).len() == keys.len(),
        0 <= i < items.len() ==> item_views(items)[i] == items[i]@,
        0 <= i < entries.len() ==> entry_views(entries)[i] == entries[i]@,
        0 <= i < candidates.len() ==> candidate_views(candidates)[i] == candidates[i]@,
        0 <= i < rows.len() ==> row_views(rows)[i] == rows[i]@,
        0 <= i < texts.len() ==> text_views(texts)[i] == texts[i]@,
        0 <= i < regs.len() ==> registration_views(regs)[i] == regs[i]@,
        0 <= i < keys.len() ==> key_views(keys)[i] == keys[i]@,
{
}

/// The keys of the labels, in order.
pub proof fn keys_of_the_labels()
    ensures
        label_keys().len() == 42,
        label_keys()[0] == "app-title"@,
        label_keys()[1] == "main-window-title"@,
        label_keys()[2] == "toolbar-add-folder"@,
        label_keys()[3] == "toolbar-add-snippet"@,
        label_keys()[4] == "toolbar-delete"@,
        label_keys()[5] == "toolbar-move-up"@,
        label_keys()[6] == "toolbar-move-down"@,
        label_keys()[7] == "editor-title-label"@,
        label_keys()[8] == "editor-body-label"@,
        label_keys()[9] == "selection-dialog-title"@,
        label_keys()[10] == "tray-open-main-window"@,
        label_keys()[11] == "tray-selection-dialog"@,
        label_keys()[12] == "tray-options"@,
        label_keys()[13] == "tray-quit"@,
        label_keys()[14] == "options-title"@,
        label_keys()[15] == "options-general"@,
        label_keys()[16] == "options-hotkeys"@,
        label_keys()[17] == "options-clipboard-history"@,
        label_keys()[18] == "options-paste"@,
        label_keys()[19] == "options-language-label"@,
        label_keys()[20] == "options-language-hint"@,
        label_keys()[21] == "options-open-dialog-label"@,
        label_keys()[22] == "options-open-main-window-label"@,
        label_keys()[23] == "options-hotkeys-hint"@,
        label_keys()[24] == "options-capture-history"@,
        label_keys()[25] == "options-max-items-label"@,
        label_keys()[26] == "options-folder-position-label"@,
        label_keys()[27] == "options-position-top"@,
        label_keys()[28] == "options-position-bottom"@,
        label_keys()[29] == "options-paste-delay-label"@,
        label_keys()[30] == "options-restore-clipboard"@,
        label_keys()[31] == "options-ok"@,
        label_keys()[32] == "options-cancel"@,
        label_keys()[33] == "options-apply"@,
        label_keys()[34] == "confirm-delete-title"@,
        label_keys()[35] == "confirm-yes"@,
        label_keys()[36] == "confirm-no"@,
        label_keys()[37] == "selection-filter-placeholder"@,
        label_keys()[38] == "selection-empty"@,
        label_keys()[39] == "selection-tag-history"@,
        label_keys()[40] == "selection-hint"@,
        label_keys()[41] == "clipboard-history-folder"@,
{
}

// ---- what contracts say of results --------------------------------------

/// Law: a text is reported by a payload with just that text and no source, and nothing is
/// reported by nothing.
pub proof fn what_a_report_holds(p: Option<ClipboardPayload>, text: Option<Seq<char>>)
    requires
        reports(p, text),
    ensures
        p is Some <==> text is Some,
        p is Some ==> p->0.text@ == text->0 && p->0.source_process@.len() == 0,
{
}

/// Law: a format is offered exactly if it is among those listed, wherever it stands.
pub proof fn what_is_offered(offered: Seq<String>, mime: Seq<char>, i: int)
    ensures
        0 <= i < offered.len() && offered[i]@ == mime ==> offers(offered, mime),
        (forall|k: int| 0 <= k < offered.len() ==> (#[trigger] offered[k])@ != mime) ==> !offers(
            offered,
            mime,
        ),
{
}

/// Law: the place of an id is that of the first row that has it, and it has none exactly if no
/// row has it.
pub proof fn where_an_id_is(rows: Seq<TreeRow>, id: i32, place: Option<int>)
    requires
        is_place_of(rows, id, place),
    ensures
        place matches Some(i) ==> 0 <= i < rows.len() && rows[i].internal_id == id && (forall|
            j: int,
        |
            0 <= j < i ==> (#[trigger] rows[j]).internal_id != id),
        place is None <==> forall|j: int|
            0 <= j < rows.len() ==> (#[trigger] rows[j]).internal_id != id,
{
}

/// Law: a stored item can be had exactly if its row is there and can be read.
pub proof fn what_can_be_had(t: Table, id: i64)
    ensures
        t.dom().contains(id) && decode(id, t[id]) is Ok ==> readable_item(t, id) == Some(
            decode(id, t[id])->Ok_0,
        ),
        !t.dom().contains(id) || decode(id, t[id]) is Err ==> readable_item(t, id) is None,
{
}

/// Law: every entry that could not be read is reported once, in order, with its id and its
/// sequence, and no other entry is.
pub proof fn what_is_reported_unreadable(
    failed: Seq<(u32, HotkeyError)>,
    n: int,
    entries: Seq<RegistrationView>,
    from: int,
    to: int,
    i: int,
)
    requires
        reported_unreadable(failed, n, entries, from, to),
    ensures
        failed.len() == n + (to - from),
        0 <= n && 0 <= i < to - from ==> failed[n + i].0 == entries[from + i].id && (failed[n
            + i].1 matches HotkeyError::BadSequence(text) && text@ == entries[from + i].sequence),
{
}

/// Law: registering anew leaves an entry as it was or has it as its sequence reads now.
pub proof fn what_becomes_of_an_entry(
    was: RegistrationView,
    is: RegistrationView,
    layout: ModifierLayout,
)
    requires
        kept_or_read_anew(was, is, layout),
    ensures
        is.id == was.id,
        is.sequence == was.sequence,
        is == was || (parsed_sequence(was.sequence, layout) == Some((is.keycode, is.base_mods))),
        read_anew(was, layout).id == was.id,
{
}

/// Law: a plan has the key and the modifiers of its sequence, and a combination for each lock
/// state, in order.
pub proof fn what_a_plan_grabs(state: ReaderState, plan: RegisterPlan, i: int)
    requires
        state.plan_fits(&plan),
    ensures
        parsed_sequence(plan.sequence@, state.spec_layout()) == Some(
            (plan.keycode, plan.base_mods),
        ),
        plan.combos@.len() == lock_states(state.spec_layout()).len(),
        0 <= i < plan.combos@.len() ==> plan.combos@[i] == plan.base_mods | lock_states(
            state.spec_layout(),
        )[i],
{
}

/// Law: the credential store works unless the platform failed or it cannot be got at, and what
/// it complains of is told in its own words.
pub proof fn what_the_credential_store_answers(reply: KeyringReply)
    ensures
        answers(reply) <==> !(reply is PlatformFailure) && !(reply is NoStorageAccess),
        reply matches KeyringReply::PlatformFailure(why) ==> complaint(reply) == Some(why@),
        reply matches KeyringReply::NoStorageAccess(why) ==> complaint(reply) == Some(why@),
        reply matches KeyringReply::Other(why) ==> complaint(reply) == Some(why@),
        reply is Done || reply is NoEntry ==> complaint(reply) is None,
{
}

} // verus!
