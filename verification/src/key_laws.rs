//! What grabbing keys is for: the keys of a shortcut, in whatever state the locks are, and
//! those keys only.
use crate::grabs::{
    claimed, claimed_list, effective_mods, grab_error_is, grabs_of, has_registration, ids_differ,
    matched, place_of_id, released_on_move, retired_list, rolled_back, with_entry, without_id, Grab,
    GrabReply, RegistrationView,
};
use crate::hotkey::HotkeyError;
use crate::paste_keys::{ctrl_v_sequence, release_sequence, KeyFrame};
use crate::reader::{
    classified, phase_after, result_fits, wake_step_of, Phase, PhaseResult, PollOutcome, WakeRead,
    WakeStep,
};
use crate::replay::{combos_anew, first_grab, next_readable, read_anew};
use crate::windows_hotkey::{pump_after, pump_fits, refusal_is, without, PumpPhase, PumpResult};
use crate::x11::{
    bits_with, combos_of, fallback_layout, first_bit_with, first_lock_bits, in_group, key_has,
    lock_states, parsed_sequence, resolved_layout, row_bit, row_has, sanitized_layout, set_bits,
    KeyboardTables, ModifierLayout, SymbolGroup,
};
use vstd::prelude::*;

verus! {

// ---- the layout ---------------------------------------------------------

/// Law: the bit of each modifier row, and the symbols that make a key a lock, an Alt or a
/// Super.
pub proof fn bits_and_symbols(sym: u32)
    ensures
        row_bit(0) == 0x01 && row_bit(1) == 0x02 && row_bit(2) == 0x04 && row_bit(3) == 0x08,
        row_bit(4) == 0x10 && row_bit(5) == 0x20 && row_bit(6) == 0x40 && row_bit(7) == 0x80,
        in_group(SymbolGroup::Locks, sym) <==> sym == 0xffe5 || sym == 0xff7f || sym == 0xff14,
        in_group(SymbolGroup::Alt, sym) <==> 0xffe7 <= sym <= 0xffea,
        in_group(SymbolGroup::Super, sym) <==> 0xffeb <= sym <= 0xffee,
{
}

/// Law: a modifier row counts for a group exactly if the answer holds the row in full and a
/// key in it that is there, that the answer describes in full, has a symbol of the group in
/// any of its places.
pub proof fn what_a_row_holds(k: KeyboardTables, i: int, group: SymbolGroup)
    ensures
        row_has(k, i, group) <==> (i + 1) * (k.keycodes_per_modifier as int)
            <= k.modifier_keycodes@.len() && exists|j: int, s: int|
            #![trigger k.modifier_keycodes@[i * (k.keycodes_per_modifier as int) + j], k.keysyms@[(
            k.modifier_keycodes@[i * (k.keycodes_per_modifier as int) + j] - k.min_keycode) * (
            k.keysyms_per_keycode as int) + s]]
            {
                let kc = k.modifier_keycodes@[i * (k.keycodes_per_modifier as int) + j];
                &&& 0 <= j < k.keycodes_per_modifier
                &&& kc != 0
                &&& k.min_keycode <= kc <= k.max_keycode
                &&& (kc - k.min_keycode + 1) * (k.keysyms_per_keycode as int) <= k.keysyms@.len()
                &&& 0 <= s < k.keysyms_per_keycode
                &&& in_group(
                    group,
                    k.keysyms@[(kc - k.min_keycode) * (k.keysyms_per_keycode as int) + s],
                )
            },
{
    let width = k.keycodes_per_modifier as int;
    let per = k.keysyms_per_keycode as int;
    if row_has(k, i, group) {
        let j = choose|j: int|
            0 <= j < width && (#[trigger] k.modifier_keycodes@[i * width + j]) != 0 && key_has(
                k,
                k.modifier_keycodes@[i * width + j],
                group,
            );
        let kc = k.modifier_keycodes@[i * width + j];
        let row = kc - k.min_keycode;
        let s = choose|s: int|
            0 <= s < per && in_group(group, #[trigger] k.keysyms@[row * per + s]);
        assert(in_group(group, k.keysyms@[(kc - k.min_keycode) * per + s]));
    }
}

proof fn or_of_rows(a: u16, b: u16, mask: u16)
    by (bit_vector)
    ensures
        (a | b) & mask != 0 <==> a & mask != 0 || b & mask != 0,
{
}

proof fn rows_are_apart()
    by (bit_vector)
    ensures
        0u16 & 0x01 == 0 && 0u16 & 0x02 == 0 && 0u16 & 0x04 == 0 && 0u16 & 0x08 == 0,
        0u16 & 0x10 == 0 && 0u16 & 0x20 == 0 && 0u16 & 0x40 == 0 && 0u16 & 0x80 == 0,
        0x01u16 & 0x01 != 0 && 0x01u16 & 0x02 == 0 && 0x01u16 & 0x04 == 0 && 0x01u16 & 0x08 == 0,
        0x01u16 & 0x10 == 0 && 0x01u16 & 0x20 == 0 && 0x01u16 & 0x40 == 0 && 0x01u16 & 0x80 == 0,
        0x02u16 & 0x01 == 0 && 0x02u16 & 0x02 != 0 && 0x02u16 & 0x04 == 0 && 0x02u16 & 0x08 == 0,
        0x02u16 & 0x10 == 0 && 0x02u16 & 0x20 == 0 && 0x02u16 & 0x40 == 0 && 0x02u16 & 0x80 == 0,
        0x04u16 & 0x01 == 0 && 0x04u16 & 0x02 == 0 && 0x04u16 & 0x04 != 0 && 0x04u16 & 0x08 == 0,
        0x04u16 & 0x10 == 0 && 0x04u16 & 0x20 == 0 && 0x04u16 & 0x40 == 0 && 0x04u16 & 0x80 == 0,
        0x08u16 & 0x01 == 0 && 0x08u16 & 0x02 == 0 && 0x08u16 & 0x04 == 0 && 0x08u16 & 0x08 != 0,
        0x08u16 & 0x10 == 0 && 0x08u16 & 0x20 == 0 && 0x08u16 & 0x40 == 0 && 0x08u16 & 0x80 == 0,
        0x10u16 & 0x01 == 0 && 0x10u16 & 0x02 == 0 && 0x10u16 & 0x04 == 0 && 0x10u16 & 0x08 == 0,
        0x10u16 & 0x10 != 0 && 0x10u16 & 0x20 == 0 && 0x10u16 & 0x40 == 0 && 0x10u16 & 0x80 == 0,
        0x20u16 & 0x01 == 0 && 0x20u16 & 0x02 == 0 && 0x20u16 & 0x04 == 0 && 0x20u16 & 0x08 == 0,
        0x20u16 & 0x10 == 0 && 0x20u16 & 0x20 != 0 && 0x20u16 & 0x40 == 0 && 0x20u16 & 0x80 == 0,
        0x40u16 & 0x01 == 0 && 0x40u16 & 0x02 == 0 && 0x40u16 & 0x04 == 0 && 0x40u16 & 0x08 == 0,
        0x40u16 & 0x10 == 0 && 0x40u16 & 0x20 == 0 && 0x40u16 & 0x40 != 0 && 0x40u16 & 0x80 == 0,
        0x80u16 & 0x01 == 0 && 0x80u16 & 0x02 == 0 && 0x80u16 & 0x04 == 0 && 0x80u16 & 0x08 == 0,
        0x80u16 & 0x10 == 0 && 0x80u16 & 0x20 == 0 && 0x80u16 & 0x40 == 0 && 0x80u16 & 0x80 != 0,
{
}

proof fn bits_tell_the_rows(k: KeyboardTables, group: SymbolGroup, n: int, i: int)
    requires
        0 <= n <= 8,
        0 <= i < 8,
    ensures
        bits_with(k, group, n) & row_bit(i) != 0 <==> i < n && row_has(k, i, group),
    decreases n,
{
    bits_and_symbols(0);
    rows_are_apart();
    if n > 0 {
        bits_tell_the_rows(k, group, n - 1, i);
        or_of_rows(bits_with(k, group, n - 1), row_bit(n - 1), row_bit(i));
    }
}

proof fn first_bit_is_of_the_first_row(k: KeyboardTables, group: SymbolGroup, n: int)
    requires
        0 <= n <= 8,
    ensures
        match first_bit_with(k, group, n) {
            Some(bit) => exists|i: int|
                0 <= i < n && bit == #[trigger] row_bit(i) && row_has(k, i, group) && forall|j: int|
                    0 <= j < i ==> !#[trigger] row_has(k, j, group),
            None => forall|j: int| 0 <= j < n ==> !#[trigger] row_has(k, j, group),
        },
    decreases n,
{
    if n > 0 {
        first_bit_is_of_the_first_row(k, group, n - 1);
        if first_bit_with(k, group, n - 1) is Some {
            let bit = first_bit_with(k, group, n - 1)->0;
            let i = choose|i: int|
                0 <= i < n - 1 && bit == #[trigger] row_bit(i) && row_has(k, i, group)
                    && forall|j: int| 0 <= j < i ==> !#[trigger] row_has(k, j, group);
            assert(0 <= i < n && bit == row_bit(i));
        } else if row_has(k, n - 1, group) {
            assert(first_bit_with(k, group, n) == Some(row_bit(n - 1)));
        }
    }
}

/// Law: Alt and Super have the bit of the first row that holds a key of theirs, and the
/// customary one if no row does. The locks have the bits of all rows that hold one, but for
/// those that Alt and Super have.
pub proof fn what_a_layout_is(k: KeyboardTables, i: int)
    requires
        k.keycodes_per_modifier > 0,
        k.keysyms_per_keycode > 0,
        k.min_keycode <= k.max_keycode,
        0 <= i < 8,
    ensures
        ({
            let l = resolved_layout(Some(k));
            &&& row_has(k, i, SymbolGroup::Alt) && (forall|j: int|
                0 <= j < i ==> !#[trigger] row_has(k, j, SymbolGroup::Alt)) ==> l.alt_mod
                == row_bit(i)
            &&& (forall|j: int| 0 <= j < 8 ==> !#[trigger] row_has(k, j, SymbolGroup::Alt))
                ==> l.alt_mod == 0x08
            &&& row_has(k, i, SymbolGroup::Super) && (forall|j: int|
                0 <= j < i ==> !#[trigger] row_has(k, j, SymbolGroup::Super)) ==> l.super_mod
                == row_bit(i)
            &&& (forall|j: int| 0 <= j < 8 ==> !#[trigger] row_has(k, j, SymbolGroup::Super))
                ==> l.super_mod == 0x40
            &&& l.lock_mods & row_bit(i) != 0 <==> row_has(k, i, SymbolGroup::Locks) && l.alt_mod
                & row_bit(i) == 0 && l.super_mod & row_bit(i) == 0
            &&& l.lock_mods & 0xff00 == 0
        }),
{
    bits_and_symbols(0);
    first_bit_is_of_the_first_row(k, SymbolGroup::Alt, 8);
    first_bit_is_of_the_first_row(k, SymbolGroup::Super, 8);
    bits_tell_the_rows(k, SymbolGroup::Locks, 8, i);
    let l = resolved_layout(Some(k));
    one_row_less(bits_with(k, SymbolGroup::Locks, 8), l.alt_mod, l.super_mod);
    bits_are_of_rows(k, SymbolGroup::Locks, 8);
}

proof fn bits_are_of_rows(k: KeyboardTables, group: SymbolGroup, n: int)
    requires
        0 <= n <= 8,
    ensures
        bits_with(k, group, n) & 0xff00 == 0,
    decreases n,
{
    bits_and_symbols(0);
    rows_are_low();
    if n > 0 {
        bits_are_of_rows(k, group, n - 1);
        or_of_rows(bits_with(k, group, n - 1), row_bit(n - 1), 0xff00);
    }
}

proof fn rows_are_low()
    by (bit_vector)
    ensures
        0u16 & 0xff00 == 0 && 0x01u16 & 0xff00 == 0 && 0x02u16 & 0xff00 == 0,
        0x04u16 & 0xff00 == 0 && 0x08u16 & 0xff00 == 0 && 0x10u16 & 0xff00 == 0,
        0x20u16 & 0xff00 == 0 && 0x40u16 & 0xff00 == 0 && 0x80u16 & 0xff00 == 0,
{
}

proof fn one_row_less(locks: u16, a: u16, s: u16)
    by (bit_vector)
    ensures
        (locks & !(a | s)) & 0x01 != 0 <==> locks & 0x01 != 0 && a & 0x01 == 0 && s & 0x01 == 0,
        (locks & !(a | s)) & 0x02 != 0 <==> locks & 0x02 != 0 && a & 0x02 == 0 && s & 0x02 == 0,
        (locks & !(a | s)) & 0x04 != 0 <==> locks & 0x04 != 0 && a & 0x04 == 0 && s & 0x04 == 0,
        (locks & !(a | s)) & 0x08 != 0 <==> locks & 0x08 != 0 && a & 0x08 == 0 && s & 0x08 == 0,
        (locks & !(a | s)) & 0x10 != 0 <==> locks & 0x10 != 0 && a & 0x10 == 0 && s & 0x10 == 0,
        (locks & !(a | s)) & 0x20 != 0 <==> locks & 0x20 != 0 && a & 0x20 == 0 && s & 0x20 == 0,
        (locks & !(a | s)) & 0x40 != 0 <==> locks & 0x40 != 0 && a & 0x40 == 0 && s & 0x40 == 0,
        (locks & !(a | s)) & 0x80 != 0 <==> locks & 0x80 != 0 && a & 0x80 == 0 && s & 0x80 == 0,
        locks & 0xff00 == 0 ==> (locks & !(a | s)) & 0xff00 == 0,
{
}

/// Law: a server that answers nothing usable has the customary layout, and cleaning a layout
/// up takes the bits of Alt and Super from the locks and changes nothing else.
pub proof fn layouts_without_an_answer(k: KeyboardTables, layout: ModifierLayout)
    ensures
        fallback_layout().alt_mod == 0x08,
        fallback_layout().super_mod == 0x40,
        fallback_layout().lock_mods == 0x12,
        resolved_layout(None) == fallback_layout(),
        k.keycodes_per_modifier == 0 || k.keysyms_per_keycode == 0 || k.max_keycode
            < k.min_keycode ==> resolved_layout(Some(k)) == fallback_layout(),
        sanitized_layout(layout).alt_mod == layout.alt_mod,
        sanitized_layout(layout).super_mod == layout.super_mod,
        sanitized_layout(layout).lock_mods == layout.lock_mods & !(layout.alt_mod
            | layout.super_mod),
{
    assert(0x02u16 | 0x10 == 0x12) by (bit_vector);
}

// ---- lock states --------------------------------------------------------

proof fn set_bits_are_a_filter(m: u16, n: int)
    requires
        0 <= n <= 16,
    ensures
        set_bits(m, n) == Seq::new(n as nat, |i: int| m & (1u16 << (i as u16))).filter(
            |b: u16| b != 0,
        ),
    decreases n,
{
    reveal(Seq::filter);
    let all = Seq::new(n as nat, |i: int| m & (1u16 << (i as u16)));
    if n == 0 {
        assert(all =~= Seq::<u16>::empty());
    } else {
        set_bits_are_a_filter(m, n - 1);
        let head = Seq::new((n - 1) as nat, |i: int| m & (1u16 << (i as u16)));
        assert(all.drop_last() =~= head);
        assert(all.last() == m & (1u16 << ((n - 1) as u16)));
    }
}

/// Law: the locks that are told apart are the lowest three bits that are set, or all of them if
/// there are no more, and the lock states are all combinations of these.
pub proof fn every_lock_state_is_covered(layout: ModifierLayout, a: u16, b: u16, c: u16)
    ensures
        ({
            let all = Seq::new(16, |i: int| layout.lock_mods & (1u16 << (i as u16))).filter(
                |b: u16| b != 0,
            );
            &&& all.len() <= 3 ==> lock_states(layout) == combos_of(all)
            &&& all.len() > 3 ==> lock_states(layout) == combos_of(all.take(3))
        }),
        combos_of(Seq::empty()) == seq![0u16],
        combos_of(seq![a]) == seq![0u16, 0 | a],
        combos_of(seq![a, b]) == seq![0u16, 0 | a, 0 | b, 0 | a | b],
        combos_of(seq![a, b, c]) == seq![
            0u16,
            0 | a,
            0 | b,
            0 | a | b,
            0 | c,
            0 | a | c,
            0 | b | c,
            0 | a | b | c,
        ],
{
    set_bits_are_a_filter(layout.lock_mods, 16);
    reveal_with_fuel(combos_of, 4);
    let one = seq![a];
    let two = seq![a, b];
    let three = seq![a, b, c];
    assert(one.drop_last() =~= Seq::<u16>::empty());
    assert(two.drop_last() =~= one);
    assert(three.drop_last() =~= two);
    assert(combos_of(one) =~= seq![0u16, 0 | a]);
    assert(combos_of(two) =~= seq![0u16, 0 | a, 0 | b, 0 | a | b]);
    assert(combos_of(three) =~= seq![
        0u16,
        0 | a,
        0 | b,
        0 | a | b,
        0 | c,
        0 | a | c,
        0 | b | c,
        0 | a | b | c,
    ]);
    assert(first_lock_bits(layout.lock_mods).len() <= 3);
}

// ---- matching -----------------------------------------------------------

proof fn matched_from(
    regs: Seq<RegistrationView>,
    keycode: u8,
    state: u16,
    layout: ModifierLayout,
    i: int,
    k: int,
)
    requires
        0 <= i <= k < regs.len(),
        regs[k].keycode == keycode,
        regs[k].base_mods == effective_mods(state, layout),
        forall|j: int|
            i <= j < k ==> !((#[trigger] regs[j]).keycode == keycode && regs[j].base_mods
                == effective_mods(state, layout)),
    ensures
        matched(regs, keycode, state, layout, i) == Some(regs[k].id),
    decreases k - i,
{
    if i < k {
        matched_from(regs, keycode, state, layout, i + 1, k);
    }
}

proof fn matched_nowhere(
    regs: Seq<RegistrationView>,
    keycode: u8,
    state: u16,
    layout: ModifierLayout,
    i: int,
)
    requires
        0 <= i,
        forall|j: int|
            i <= j < regs.len() ==> !((#[trigger] regs[j]).keycode == keycode && regs[j].base_mods
                == effective_mods(state, layout)),
    ensures
        matched(regs, keycode, state, layout, i) is None,
    decreases regs.len() - i,
{
    if i < regs.len() {
        matched_nowhere(regs, keycode, state, layout, i + 1);
    }
}

/// Law: a key press fires the shortcut of its key whose modifiers are just those that are held,
/// apart from the locks and from what is no modifier, wherever it stands in the table: the
/// first of them if there are several. If there is none, nothing fires.
pub proof fn a_key_press_fires_its_shortcut(
    regs: Seq<RegistrationView>,
    keycode: u8,
    state: u16,
    layout: ModifierLayout,
    k: int,
)
    ensures
        0 <= k < regs.len() && regs[k].keycode == keycode && regs[k].base_mods == state & 0x00ff
            & !layout.lock_mods && (forall|j: int|
            0 <= j < k ==> !((#[trigger] regs[j]).keycode == keycode && regs[j].base_mods == state
                & 0x00ff & !layout.lock_mods)) ==> matched(regs, keycode, state, layout, 0) == Some(
            regs[k].id,
        ),
        (forall|j: int|
            0 <= j < regs.len() ==> !((#[trigger] regs[j]).keycode == keycode && regs[j].base_mods
                == state & 0x00ff & !layout.lock_mods)) ==> matched(
            regs,
            keycode,
            state,
            layout,
            0,
        ) is None,
{
    assert(effective_mods(state, layout) == state & 0x00ff & !layout.lock_mods);
    if 0 <= k < regs.len() && regs[k].keycode == keycode && regs[k].base_mods == state & 0x00ff
        & !layout.lock_mods && (forall|j: int|
        0 <= j < k ==> !((#[trigger] regs[j]).keycode == keycode && regs[j].base_mods == state
            & 0x00ff & !layout.lock_mods)) {
        matched_from(regs, keycode, state, layout, 0, k);
    }
    if forall|j: int|
        0 <= j < regs.len() ==> !((#[trigger] regs[j]).keycode == keycode && regs[j].base_mods
            == state & 0x00ff & !layout.lock_mods) {
        matched_nowhere(regs, keycode, state, layout, 0);
    }
}

// ---- grabs --------------------------------------------------------------

/// Law: a shortcut has one grab for each lock state, in their order.
pub proof fn one_grab_for_each_lock_state(keycode: u8, base_mods: u16, locks: Seq<u16>, i: int)
    ensures
        grabs_of(keycode, base_mods, locks).len() == locks.len(),
        0 <= i < locks.len() ==> grabs_of(keycode, base_mods, locks)[i] == (
            keycode,
            base_mods | locks[i],
        ),
{
}

/// Law: a grab belongs to the table exactly if it is that of some shortcut in some lock state.
pub proof fn which_grabs_belong_to_the_table(
    regs: Seq<RegistrationView>,
    locks: Seq<u16>,
    g: Grab,
)
    ensures
        claimed(regs, locks, g) <==> exists|i: int, k: int|
            #![trigger regs[i], locks[k]]
            0 <= i < regs.len() && 0 <= k < locks.len() && g == (
                regs[i].keycode,
                regs[i].base_mods | locks[k],
            ),
{
    if claimed(regs, locks, g) {
        let i = choose|i: int|
            0 <= i < regs.len() && grabs_of(
                (#[trigger] regs[i]).keycode,
                regs[i].base_mods,
                locks,
            ).contains(g);
        let list = grabs_of(regs[i].keycode, regs[i].base_mods, locks);
        let k = choose|k: int| 0 <= k < list.len() && list[k] == g;
        assert(g == (regs[i].keycode, regs[i].base_mods | locks[k]));
    }
    if exists|i: int, k: int|
        #![trigger regs[i], locks[k]]
        0 <= i < regs.len() && 0 <= k < locks.len() && g == (
            regs[i].keycode,
            regs[i].base_mods | locks[k],
        ) {
        let (i, k) = choose|i: int, k: int|
            #![trigger regs[i], locks[k]]
            0 <= i < regs.len() && 0 <= k < locks.len() && g == (
                regs[i].keycode,
                regs[i].base_mods | locks[k],
            );
        let list = grabs_of(regs[i].keycode, regs[i].base_mods, locks);
        assert(list[k] == g);
        assert(list.contains(g));
    }
}

/// Law: the grabs of the table are listed one shortcut after the other, all of them.
pub proof fn grabs_are_listed_in_turn(regs: Seq<RegistrationView>, locks: Seq<u16>, n: int)
    requires
        0 <= n < regs.len(),
    ensures
        claimed_list(regs, locks, 0).len() == 0,
        claimed_list(regs, locks, n + 1) == claimed_list(regs, locks, n) + Seq::new(
            locks.len(),
            |k: int| (regs[n].keycode, regs[n].base_mods | locks[k]),
        ),
{
    assert(grabs_of(regs[n].keycode, regs[n].base_mods, locks) =~= Seq::new(
        locks.len(),
        |k: int| (regs[n].keycode, regs[n].base_mods | locks[k]),
    ));
}

proof fn without_id_is_a_filter(regs: Seq<RegistrationView>, id: u32, n: int)
    requires
        0 <= n <= regs.len(),
    ensures
        without_id(regs, id, n) == regs.take(n).filter(|r: RegistrationView| r.id != id),
    decreases n,
{
    reveal(Seq::filter);
    if n == 0 {
        assert(regs.take(0) =~= Seq::<RegistrationView>::empty());
    } else {
        without_id_is_a_filter(regs, id, n - 1);
        let upto = regs.take(n);
        assert(upto.drop_last() =~= regs.take(n - 1));
        assert(upto.last() == regs[n - 1]);
    }
}

/// Law: registering an id that is there changes its entry in its place; a new id goes to the
/// end. Unregistering takes out the entry of the id. No other entry is touched.
pub proof fn what_the_table_holds(
    regs: Seq<RegistrationView>,
    entry: RegistrationView,
    i: int,
)
    requires
        ids_differ(regs),
    ensures
        0 <= i < regs.len() && regs[i].id == entry.id ==> with_entry(regs, entry) == regs.update(
            i,
            entry,
        ),
        (forall|k: int| 0 <= k < regs.len() ==> (#[trigger] regs[k]).id != entry.id)
            ==> with_entry(regs, entry) == regs.push(entry),
        without_id(regs, entry.id, regs.len() as int) == regs.filter(
            |r: RegistrationView| r.id != entry.id,
        ),
{
    without_id_is_a_filter(regs, entry.id, regs.len() as int);
    assert(regs.take(regs.len() as int) =~= regs);
    if 0 <= i < regs.len() && regs[i].id == entry.id {
        assert(has_registration(regs, entry.id));
        let p = place_of_id(regs, entry.id)->0;
        assert(regs[p].id == entry.id);
        assert(p == i);
    }
}

proof fn retired_is_a_filter(
    old_reg: RegistrationView,
    new_keycode: u8,
    new_combos: Seq<u16>,
    locks: Seq<u16>,
    others: Seq<RegistrationView>,
    n: int,
)
    requires
        0 <= n <= locks.len(),
    ensures
        retired_list(old_reg, new_keycode, new_combos, locks, others, n) == Seq::new(
            n as nat,
            |k: int| (old_reg.keycode, old_reg.base_mods | locks[k]),
        ).filter(
            |g: Grab|
                !(g.0 == new_keycode && new_combos.contains(g.1)) && !claimed(others, locks, g),
        ),
    decreases n,
{
    reveal(Seq::filter);
    let all = Seq::new(n as nat, |k: int| (old_reg.keycode, old_reg.base_mods | locks[k]));
    if n == 0 {
        assert(all =~= Seq::<Grab>::empty());
    } else {
        retired_is_a_filter(old_reg, new_keycode, new_combos, locks, others, n - 1);
        let head = Seq::new(
            (n - 1) as nat,
            |k: int| (old_reg.keycode, old_reg.base_mods | locks[k]),
        );
        assert(all.drop_last() =~= head);
        assert(all.last() == (old_reg.keycode, old_reg.base_mods | locks[n - 1]));
    }
}

/// Law: an id that moves releases those of its grabs that neither it nor any other shortcut
/// needs from now on, all of them, in order; an id that is new releases nothing.
pub proof fn what_a_move_releases(
    regs: Seq<RegistrationView>,
    entry: RegistrationView,
    new_combos: Seq<u16>,
    locks: Seq<u16>,
    i: int,
)
    requires
        ids_differ(regs),
    ensures
        0 <= i < regs.len() && regs[i].id == entry.id ==> released_on_move(
            regs,
            entry.id,
            entry.keycode,
            new_combos,
            locks,
        ) == Seq::new(
            locks.len(),
            |k: int| (regs[i].keycode, regs[i].base_mods | locks[k]),
        ).filter(
            |g: Grab|
                !(g.0 == entry.keycode && new_combos.contains(g.1)) && !claimed(
                    regs.filter(|r: RegistrationView| r.id != entry.id),
                    locks,
                    g,
                ),
        ),
        (forall|k: int| 0 <= k < regs.len() ==> (#[trigger] regs[k]).id != entry.id)
            ==> released_on_move(regs, entry.id, entry.keycode, new_combos, locks).len() == 0,
{
    if 0 <= i < regs.len() && regs[i].id == entry.id {
        assert(has_registration(regs, entry.id));
        let p = place_of_id(regs, entry.id)->0;
        assert(regs[p].id == entry.id);
        assert(p == i);
        let others = without_id(regs, entry.id, regs.len() as int);
        without_id_is_a_filter(regs, entry.id, regs.len() as int);
        assert(regs.take(regs.len() as int) =~= regs);
        retired_is_a_filter(
            regs[i],
            entry.keycode,
            new_combos,
            locks,
            others,
            locks.len() as int,
        );
    }
}

/// Law: a refused registration gives back, of the combinations granted so far, those that no
/// shortcut stands on, all of them, in order.
pub proof fn what_a_refusal_gives_back(
    regs: Seq<RegistrationView>,
    keycode: u8,
    combos: Seq<u16>,
    locks: Seq<u16>,
    n: int,
)
    requires
        0 <= n <= combos.len(),
    ensures
        rolled_back(regs, keycode, combos, locks, n) == Seq::new(
            n as nat,
            |k: int| (keycode, combos[k]),
        ).filter(|g: Grab| !claimed(regs, locks, g)),
    decreases n,
{
    reveal(Seq::filter);
    let all = Seq::new(n as nat, |k: int| (keycode, combos[k]));
    if n == 0 {
        assert(all =~= Seq::<Grab>::empty());
    } else {
        what_a_refusal_gives_back(regs, keycode, combos, locks, n - 1);
        let head = Seq::new((n - 1) as nat, |k: int| (keycode, combos[k]));
        assert(all.drop_last() =~= head);
        assert(all.last() == (keycode, combos[n - 1]));
    }
}

/// Law: a combination that another application holds is reported as taken, and any other
/// failure in its own words, both with the sequence and the combination.
pub proof fn how_a_refusal_is_reported(
    e: HotkeyError,
    sequence: Seq<char>,
    mods: u16,
    reply: GrabReply,
)
    requires
        grab_error_is(e, sequence, mods, reply),
    ensures
        reply is Taken ==> (e matches HotkeyError::AlreadyGrabbed { key, mods: m } && key@
            == sequence && m == mods),
        reply matches GrabReply::Failed(text) ==> (e matches HotkeyError::GrabFailed {
            key,
            mods: m,
            detail,
        } && key@ == sequence && m == mods && detail@ == text@),
        reply !is Granted,
{
}

// ---- registering anew ---------------------------------------------------

/// Law: registering anew goes to the first entry from the place on whose sequence can be read,
/// and passes over those only that cannot.
pub proof fn the_next_entry_that_reads(
    entries: Seq<RegistrationView>,
    i: int,
    layout: ModifierLayout,
)
    requires
        0 <= i <= entries.len(),
    ensures
        ({
            let j = next_readable(entries, i, layout);
            &&& i <= j <= entries.len()
            &&& forall|k: int|
                i <= k < j ==> parsed_sequence((#[trigger] entries[k]).sequence, layout) is None
            &&& j < entries.len() ==> parsed_sequence(entries[j].sequence, layout) is Some
            &&& j < entries.len() ==> first_grab(entries, j, layout) == Some(
                (
                    (parsed_sequence(entries[j].sequence, layout)->0).0,
                    combos_anew(entries[j], layout)[0],
                ),
            )
            &&& j == entries.len() ==> first_grab(entries, j, layout) is None
        }),
    decreases entries.len() - i,
{
    if i < entries.len() && parsed_sequence(entries[i].sequence, layout) is None {
        the_next_entry_that_reads(entries, i + 1, layout);
    }
}

/// Law: an entry that is registered anew has the key and the modifiers that its sequence has
/// under the new layout, keeps its id and its sequence, and is grabbed in every lock state.
pub proof fn what_an_entry_is_anew(entry: RegistrationView, layout: ModifierLayout, i: int)
    requires
        parsed_sequence(entry.sequence, layout) is Some,
    ensures
        ({
            let (keycode, mods) = parsed_sequence(entry.sequence, layout)->0;
            let anew = read_anew(entry, layout);
            &&& anew.id == entry.id
            &&& anew.sequence == entry.sequence
            &&& anew.keycode == keycode
            &&& anew.base_mods == mods
            &&& combos_anew(entry, layout).len() == lock_states(layout).len()
            &&& 0 <= i < lock_states(layout).len() ==> combos_anew(entry, layout)[i] == mods
                | lock_states(layout)[i]
        }),
{
}

// ---- the threads --------------------------------------------------------

/// Law: what a report of `poll` means. A wake pipe that is broken ends the thread, else a
/// connection that is broken is built again, else the thread goes on. Broken is what reports
/// an error, a hang-up or a bad descriptor.
pub proof fn what_a_poll_means(x: i16, wake: i16)
    ensures
        wake & 0x38 != 0 ==> classified(x, wake) == PollOutcome::Exit,
        wake & 0x38 == 0 && x & 0x38 != 0 ==> classified(x, wake) == PollOutcome::Reconnect,
        wake & 0x38 == 0 && x & 0x38 == 0 ==> classified(x, wake) == PollOutcome::Continue,
{
}

/// Law: what a read of the wake pipe means. No byte means that it is closed, as many as were
/// asked for that there may be more, fewer that it is empty.
pub proof fn what_a_wake_read_means(n: usize)
    ensures
        wake_step_of(WakeRead::Bytes(0)) == WakeStep::Closed,
        0 < n < 64 ==> wake_step_of(WakeRead::Bytes(n)) == WakeStep::Quiet,
        n >= 64 ==> wake_step_of(WakeRead::Bytes(n)) == WakeStep::ReadAgain,
        wake_step_of(WakeRead::WouldBlock) == WakeStep::Quiet,
        wake_step_of(WakeRead::Interrupted) == WakeStep::ReadAgain,
        wake_step_of(WakeRead::Failed) == WakeStep::Closed,
{
}

/// Law: the reader thread goes round: it empties the wake pipe, carries out every command,
/// handles the events, waits, and begins again. It ends when it is told to, when nobody can
/// tell it anything any more, and when the connection could not be built again.
pub proof fn the_reader_goes_round(x: i16, wake: i16)
    ensures
        phase_after(Phase::DrainWake, PhaseResult::Wake { open: true }) == Phase::TakeCommand,
        phase_after(Phase::DrainWake, PhaseResult::Wake { open: false }) == Phase::Exit,
        phase_after(Phase::TakeCommand, PhaseResult::CommandDone) == Phase::TakeCommand,
        phase_after(Phase::TakeCommand, PhaseResult::NoCommand) == Phase::DrainEvents,
        phase_after(Phase::TakeCommand, PhaseResult::Stop) == Phase::Exit,
        phase_after(Phase::DrainEvents, PhaseResult::Events { alive: true }) == Phase::Wait,
        phase_after(Phase::DrainEvents, PhaseResult::Events { alive: false }) == Phase::Reconnect,
        wake & 0x38 == 0 && x & 0x38 == 0 ==> phase_after(
            Phase::Wait,
            PhaseResult::Polled { x_revents: x, wake_revents: wake },
        ) == Phase::DrainWake,
        wake & 0x38 == 0 && x & 0x38 != 0 ==> phase_after(
            Phase::Wait,
            PhaseResult::Polled { x_revents: x, wake_revents: wake },
        ) == Phase::Reconnect,
        wake & 0x38 != 0 ==> phase_after(
            Phase::Wait,
            PhaseResult::Polled { x_revents: x, wake_revents: wake },
        ) == Phase::Exit,
        phase_after(Phase::Wait, PhaseResult::PollFailed { interrupted: true })
            == Phase::DrainWake,
        phase_after(Phase::Wait, PhaseResult::PollFailed { interrupted: false }) == Phase::Pause,
        phase_after(Phase::Pause, PhaseResult::Paused) == Phase::DrainWake,
        phase_after(Phase::Reconnect, PhaseResult::Reconnected { connected: true })
            == Phase::DrainWake,
        phase_after(Phase::Reconnect, PhaseResult::Reconnected { connected: false })
            == Phase::Exit,
{
}

/// Law: every result of a step of the reader thread or of the message thread is one that the
/// thread can go on from.
pub proof fn results_fit_their_steps(r: PhaseResult, p: PumpResult)
    ensures
        result_fits(Phase::DrainWake, r) <==> r is Wake,
        result_fits(Phase::TakeCommand, r) <==> r is CommandDone || r is NoCommand || r is Stop,
        result_fits(Phase::DrainEvents, r) <==> r is Events,
        result_fits(Phase::Wait, r) <==> r is Polled || r is PollFailed,
        result_fits(Phase::Pause, r) <==> r is Paused,
        result_fits(Phase::Reconnect, r) <==> r is Reconnected,
        !result_fits(Phase::Exit, r),
        pump_fits(PumpPhase::TakeCommand, p) <==> p is CommandDone || p is NoCommand || p is Stop,
        pump_fits(PumpPhase::Peek, p) <==> p is NoMessage || p is Message,
        pump_fits(PumpPhase::Block, p) <==> p is Message || p is WaitEnded,
        !pump_fits(PumpPhase::Exit, p),
{
}

/// Law: the message thread goes round: it carries out every command, handles every message
/// that has arrived, waits for one, and begins again with the commands. It ends when it is
/// told to, by a command or by a message.
pub proof fn the_message_thread_goes_round()
    ensures
        pump_after(PumpPhase::TakeCommand, PumpResult::CommandDone) == PumpPhase::TakeCommand,
        pump_after(PumpPhase::TakeCommand, PumpResult::NoCommand) == PumpPhase::Peek,
        pump_after(PumpPhase::TakeCommand, PumpResult::Stop) == PumpPhase::Exit,
        pump_after(PumpPhase::Peek, PumpResult::NoMessage) == PumpPhase::Block,
        pump_after(PumpPhase::Peek, PumpResult::Message { quit: false }) == PumpPhase::Peek,
        pump_after(PumpPhase::Peek, PumpResult::Message { quit: true }) == PumpPhase::Exit,
        pump_after(PumpPhase::Block, PumpResult::Message { quit: false })
            == PumpPhase::TakeCommand,
        pump_after(PumpPhase::Block, PumpResult::Message { quit: true }) == PumpPhase::Exit,
        pump_after(PumpPhase::Block, PumpResult::WaitEnded) == PumpPhase::Exit,
{
}

/// Law: dropping an id leaves all others, in their order.
pub proof fn dropping_an_id_leaves_the_others(ids: Seq<u32>, id: u32, n: int)
    requires
        0 <= n <= ids.len(),
    ensures
        without(ids, id, n) == ids.take(n).filter(|x: u32| x != id),
    decreases n,
{
    reveal(Seq::filter);
    if n == 0 {
        assert(ids.take(0) =~= Seq::<u32>::empty());
    } else {
        dropping_an_id_leaves_the_others(ids, id, n - 1);
        let upto = ids.take(n);
        assert(upto.drop_last() =~= ids.take(n - 1));
        assert(upto.last() == ids[n - 1]);
    }
}

/// Law: a shortcut that another application holds is reported as taken; every other refusal is
/// reported with its number.
pub proof fn how_windows_refuses(e: HotkeyError, sequence: Seq<char>, modifiers: u32, code: u32)
    requires
        refusal_is(e, sequence, modifiers, code),
    ensures
        code == 1409 ==> e is AlreadyGrabbed && (e matches HotkeyError::AlreadyGrabbed {
            key,
            mods,
        } && key@ == sequence && mods == modifiers as u16),
        code != 1409 ==> e is GrabFailed && (e matches HotkeyError::GrabFailed {
            key,
            mods,
            detail,
        } && key@ == sequence && mods == modifiers as u16 && detail@
            == "RegisterHotKey failed with error "@ + crate::text::decimal_of(code as nat)),
{
}

// ---- the keystroke ------------------------------------------------------

/// Law: the keystroke is left Ctrl down, V down, V up, left Ctrl up, by the kernel's codes, and
/// what follows a failure lets go of both.
pub proof fn the_keystroke_is_ctrl_v()
    ensures
        ctrl_v_sequence() == seq![
            KeyFrame { key: 29, press: true },
            KeyFrame { key: 47, press: true },
            KeyFrame { key: 47, press: false },
            KeyFrame { key: 29, press: false },
        ],
        release_sequence() == seq![
            KeyFrame { key: 47, press: false },
            KeyFrame { key: 29, press: false },
        ],
{
}

} // verus!
