//! What holds between the table of shortcuts and the key grabs that are held for it.
use crate::grabs::{
    claimed, effective_mods, grabs_of, has_registration, ids_differ, matched, place_of_id,
    released_on_move, retired_list, retired_list_holds, rolled_back, rolled_back_holds,
    with_entry, without_id, without_id_holds, Grab, RegistrationView,
};
use crate::x11::{
    combos_of, first_lock_bits, lock_states, sanitized_layout, set_bits, ModifierLayout, REAL_MODS,
};
use vstd::arithmetic::power2::pow2;
use vstd::prelude::*;

verus! {

// ---- lock states --------------------------------------------------------

/// All given bits taken together.
pub open spec fn union_of(bits: Seq<u16>) -> u16
    decreases bits.len(),
{
    if bits.len() == 0 {
        0
    } else {
        union_of(bits.drop_last()) | bits.last()
    }
}

spec fn single(b: u16) -> bool {
    exists|i: u16| i < 16 && b == #[trigger] (1u16 << i)
}

spec fn low_bits(n: u32) -> u16 {
    ((1u32 << n) - 1) as u16
}

proof fn set_bits_cover(m: u16, n: int)
    requires
        0 <= n <= 16,
    ensures
        union_of(set_bits(m, n)) == m & low_bits(n as u32),
        forall|k: int| 0 <= k < set_bits(m, n).len() ==> single(#[trigger] set_bits(m, n)[k]),
    decreases n,
{
    if n == 0 {
        assert(m & (((1u32 << 0u32) - 1) as u16) == 0) by (bit_vector);
    } else {
        set_bits_cover(m, n - 1);
        let i = (n - 1) as u16;
        let head = set_bits(m, n - 1);
        let b = m & (1u16 << i);
        let k = (n - 1) as u32;
        let next = n as u32;
        assert((m & (((1u32 << k) - 1) as u16)) | (m & (1u16 << i)) == m & (((1u32 << next) - 1)
            as u16)) by (bit_vector)
            requires
                i < 16,
                k == i,
                next == k + 1,
        ;
        assert(m & (1u16 << i) != 0 ==> m & (1u16 << i) == 1u16 << i) by (bit_vector)
            requires
                i < 16,
        ;
        if b != 0 {
            assert(single(b));
            assert(head.push(b).drop_last() =~= head);
        } else {
            let x = m & low_bits(k);
            assert(x | 0 == x) by (bit_vector);
        }
    }
}

/// The combinations of some bits are the parts of their union.
proof fn combos_are_parts(bits: Seq<u16>, m: u16)
    requires
        forall|k: int| 0 <= k < bits.len() ==> single(#[trigger] bits[k]),
    ensures
        combos_of(bits).contains(m) <==> m & !union_of(bits) == 0,
    decreases bits.len(),
{
    if bits.len() == 0 {
        assert(m & !0u16 == m) by (bit_vector);
        assert(seq![0u16].contains(m) <==> m == 0) by {
            assert(seq![0u16][0] == 0);
        }
    } else {
        let rest = bits.drop_last();
        let b = bits.last();
        let u = union_of(rest);
        let without = combos_of(rest);
        let with = without.map_values(|c: u16| c | b);
        assert(single(bits[bits.len() - 1]));
        let i = choose|i: u16| i < 16 && b == #[trigger] (1u16 << i);
        assert forall|k: int| 0 <= k < rest.len() implies single(#[trigger] rest[k]) by {
            assert(rest[k] == bits[k]);
        }
        let x = m & !b;
        combos_are_parts(rest, m);
        combos_are_parts(rest, x);
        assert(m & !(u | b) == 0 <==> (m & !u == 0 || ((m & !b) & !u == 0 && m == (m & !b) | b)))
            by (bit_vector)
            requires
                i < 16,
                b == 1u16 << i,
        ;
        let all = combos_of(bits);
        if all.contains(m) {
            let k = choose|k: int| 0 <= k < all.len() && all[k] == m;
            if k < without.len() {
                assert(without[k] == m);
            } else {
                let c = without[k - without.len()];
                assert(all[k] == c | b);
                combos_are_parts(rest, c);
                assert(without.contains(c));
                assert(c & !u == 0 && m == c | b ==> m & !(u | b) == 0) by (bit_vector);
            }
        }
        if m & !(u | b) == 0 {
            if m & !u == 0 {
                let k = choose|k: int| 0 <= k < without.len() && without[k] == m;
                assert(all[k] == m);
            } else {
                let k = choose|k: int| 0 <= k < without.len() && without[k] == x;
                assert(all[without.len() + k] == x | b);
            }
        }
    }
}

/// Each bit is outside the union of those before it.
spec fn bits_apart(bits: Seq<u16>) -> bool {
    forall|k: int| 0 <= k < bits.len() ==> union_of(bits.take(k)) & #[trigger] bits[k] == 0
}

proof fn set_bits_are_apart(m: u16, n: int)
    requires
        0 <= n <= 16,
    ensures
        bits_apart(set_bits(m, n)),
    decreases n,
{
    if n > 0 {
        set_bits_are_apart(m, n - 1);
        set_bits_cover(m, n - 1);
        let head = set_bits(m, n - 1);
        let bits = set_bits(m, n);
        let i = (n - 1) as u16;
        let k = (n - 1) as u32;
        assert((m & (((1u32 << k) - 1) as u16)) & (m & (1u16 << i)) == 0) by (bit_vector)
            requires
                i < 16,
                k == i,
        ;
        assert forall|j: int| 0 <= j < bits.len() implies union_of(bits.take(j))
            & #[trigger] bits[j] == 0 by {
            assert(bits.take(j) =~= head.take(j));
            if j == head.len() {
                assert(head.take(j) =~= head);
            } else {
                assert(bits[j] == head[j]);
            }
        }
    }
}

/// The combinations of bits that are apart are all different, start with none of the bits,
/// and double in number with each bit.
proof fn combos_are_distinct(bits: Seq<u16>)
    requires
        forall|k: int| 0 <= k < bits.len() ==> single(#[trigger] bits[k]),
        bits_apart(bits),
    ensures
        combos_of(bits).no_duplicates(),
        combos_of(bits).len() == pow2(bits.len()),
        combos_of(bits)[0] == 0,
    decreases bits.len(),
{
    vstd::arithmetic::power2::lemma2_to64();
    vstd::arithmetic::power2::lemma_pow2_pos(bits.len());
    if bits.len() > 0 {
        let rest = bits.drop_last();
        let b = bits.last();
        let u = union_of(rest);
        let without = combos_of(rest);
        let all = combos_of(bits);
        assert forall|k: int| 0 <= k < rest.len() implies single(#[trigger] rest[k]) by {
            assert(rest[k] == bits[k]);
        }
        assert forall|k: int| 0 <= k < rest.len() implies union_of(rest.take(k))
            & #[trigger] rest[k] == 0 by {
            assert(rest[k] == bits[k]);
            assert(rest.take(k) =~= bits.take(k));
        }
        combos_are_distinct(rest);
        vstd::arithmetic::power2::lemma_pow2_unfold(bits.len());
        assert(bits.take(rest.len() as int) =~= rest);
        assert(single(bits[bits.len() - 1]));
        let i = choose|i: u16| i < 16 && b == #[trigger] (1u16 << i);
        let n = without.len();
        assert forall|x: int, y: int| 0 <= x < y < all.len() implies all[x] != all[y] by {
            let c = without[if x < n { x } else { x - n }];
            let d = without[if y < n { y } else { y - n }];
            assert(without.contains(c) && without.contains(d));
            combos_are_parts(rest, c);
            combos_are_parts(rest, d);
            assert((c != d ==> c | b != d | b) && c != d | b) by (bit_vector)
                requires
                    i < 16,
                    b == 1u16 << i,
                    u & b == 0,
                    c & !u == 0,
                    d & !u == 0,
            ;
        }
    }
}

/// Law: the lock states are exactly the combinations of the first three lock bits, or of all
/// of them where there are no more. So a layout of up to three lock modifiers has them all.
pub proof fn lock_states_are_the_combinations(layout: ModifierLayout, m: u16)
    ensures
        lock_states(layout).contains(m) <==> m & !union_of(first_lock_bits(layout.lock_mods)) == 0,
        lock_states(layout).contains(m) ==> m & !layout.lock_mods == 0,
        set_bits(layout.lock_mods, 16).len() <= 3 ==> (lock_states(layout).contains(m) <==> m
            & !layout.lock_mods == 0),
{
    let lock = layout.lock_mods;
    let all = set_bits(lock, 16);
    let bits = first_lock_bits(lock);
    set_bits_cover(lock, 16);
    assert(lock & (((1u32 << 16u32) - 1) as u16) == lock) by (bit_vector);
    assert forall|k: int| 0 <= k < bits.len() implies single(#[trigger] bits[k]) by {
        assert(bits[k] == all[k]);
    }
    combos_are_parts(bits, m);
    if all.len() <= 3 {
        assert(bits =~= all);
    } else {
        union_grows(all, 3);
        let part = union_of(bits);
        assert(part & !lock == 0 && m & !part == 0 ==> m & !lock == 0) by (bit_vector);
    }
}

/// Law: no lock state is listed twice, the one with every lock off comes first, and each of
/// the at most three lock bits doubles their number.
pub proof fn lock_states_are_listed_once(layout: ModifierLayout)
    ensures
        lock_states(layout).no_duplicates(),
        lock_states(layout)[0] == 0,
        lock_states(layout).len() == pow2(first_lock_bits(layout.lock_mods).len()),
        first_lock_bits(layout.lock_mods).len() <= 3,
{
    let lock = layout.lock_mods;
    let all = set_bits(lock, 16);
    let bits = first_lock_bits(lock);
    set_bits_cover(lock, 16);
    set_bits_are_apart(lock, 16);
    assert forall|k: int| 0 <= k < bits.len() implies single(#[trigger] bits[k]) by {
        assert(bits[k] == all[k]);
    }
    assert forall|k: int| 0 <= k < bits.len() implies union_of(bits.take(k)) & #[trigger] bits[k]
        == 0 by {
        assert(bits[k] == all[k]);
        assert(bits.take(k) =~= all.take(k));
    }
    combos_are_distinct(bits);
}

/// A part of the bits lies within their union.
proof fn union_grows(bits: Seq<u16>, n: int)
    requires
        0 <= n <= bits.len(),
    ensures
        union_of(bits.take(n)) & !union_of(bits) == 0,
    decreases bits.len(),
{
    if n == bits.len() {
        assert(bits.take(n) =~= bits);
        let u = union_of(bits);
        assert(u & !u == 0) by (bit_vector);
    } else {
        let rest = bits.drop_last();
        union_grows(rest, n);
        assert(rest.take(n) =~= bits.take(n));
        let part = union_of(bits.take(n));
        let u = union_of(rest);
        let b = bits.last();
        assert(part & !u == 0 ==> part & !(u | b) == 0) by (bit_vector);
    }
}

/// A layout that has been cleaned up never counts Alt or Super as a lock.
pub proof fn sanitized_locks_are_apart(layout: ModifierLayout)
    ensures
        sanitized_layout(layout).lock_mods & sanitized_layout(layout).alt_mod == 0,
        sanitized_layout(layout).lock_mods & sanitized_layout(layout).super_mod == 0,
        sanitized_layout(sanitized_layout(layout)) == sanitized_layout(layout),
{
    let l = layout.lock_mods;
    let a = layout.alt_mod;
    let s = layout.super_mod;
    assert((l & !(a | s)) & a == 0) by (bit_vector);
    assert((l & !(a | s)) & s == 0) by (bit_vector);
    assert((l & !(a | s)) & !(a | s) == l & !(a | s)) by (bit_vector);
}

// ---- matching -----------------------------------------------------------

/// Lock keys, pointer buttons and the keyboard group make no difference to which shortcut a
/// key press belongs to.
pub proof fn matching_ignores_other_bits(
    regs: Seq<RegistrationView>,
    keycode: u8,
    state: u16,
    extra: u16,
    layout: ModifierLayout,
    i: int,
)
    requires
        extra & REAL_MODS & !layout.lock_mods == 0,
    ensures
        effective_mods(state | extra, layout) == effective_mods(state, layout),
        matched(regs, keycode, state | extra, layout, i) == matched(regs, keycode, state, layout, i),
    decreases regs.len() - i,
{
    let lock = layout.lock_mods;
    assert(extra & 0x00FF & !lock == 0 ==> (state | extra) & 0x00FF & !lock == state & 0x00FF
        & !lock) by (bit_vector);
    if 0 <= i < regs.len() {
        matching_ignores_other_bits(regs, keycode, state, extra, layout, i + 1);
    }
}

/// Every grab taken for a shortcut, whatever the lock state, is recognised as that shortcut's
/// modifiers when the key is pressed.
pub proof fn grabbed_states_are_recognised(
    keycode: u8,
    base_mods: u16,
    layout: ModifierLayout,
    g: Grab,
)
    requires
        base_mods & layout.lock_mods == 0,
        base_mods & !REAL_MODS == 0,
        grabs_of(keycode, base_mods, lock_states(layout)).contains(g),
    ensures
        g.0 == keycode,
        effective_mods(g.1, layout) == base_mods,
{
    let locks = lock_states(layout);
    let all = grabs_of(keycode, base_mods, locks);
    let k = choose|k: int| 0 <= k < all.len() && all[k] == g;
    let l = locks[k];
    assert(locks.contains(l));
    lock_states_are_the_combinations(layout, l);
    let lock = layout.lock_mods;
    assert(base_mods & lock == 0 && base_mods & !0x00FFu16 == 0 && l & !lock == 0 ==> (base_mods
        | l) & 0x00FF & !lock == base_mods) by (bit_vector);
}

// ---- grabs and the table ------------------------------------------------

proof fn claimed_by_member(regs: Seq<RegistrationView>, locks: Seq<u16>, g: Grab)
    ensures
        claimed(regs, locks, g) <==> exists|x: RegistrationView| #[trigger]
            regs.contains(x) && grabs_of(x.keycode, x.base_mods, locks).contains(g),
{
    if claimed(regs, locks, g) {
        let i = choose|i: int|
            0 <= i < regs.len() && grabs_of(
                (#[trigger] regs[i]).keycode,
                regs[i].base_mods,
                locks,
            ).contains(g);
        assert(regs.contains(regs[i]));
    }
    if exists|x: RegistrationView| #[trigger]
        regs.contains(x) && grabs_of(x.keycode, x.base_mods, locks).contains(g) {
        let x = choose|x: RegistrationView| #[trigger]
            regs.contains(x) && grabs_of(x.keycode, x.base_mods, locks).contains(g);
        let i = choose|i: int| 0 <= i < regs.len() && regs[i] == x;
        assert(grabs_of(regs[i].keycode, regs[i].base_mods, locks).contains(g));
    }
}

/// The grabs of a table are those of one id and those of the others.
proof fn claimed_splits(regs: Seq<RegistrationView>, id: u32, locks: Seq<u16>, g: Grab)
    requires
        ids_differ(regs),
    ensures
        claimed(regs, locks, g) <==> claimed(without_id(regs, id, regs.len() as int), locks, g) || (
        place_of_id(regs, id) matches Some(i) && grabs_of(
            regs[i].keycode,
            regs[i].base_mods,
            locks,
        ).contains(g)),
{
    let others = without_id(regs, id, regs.len() as int);
    assert(regs.take(regs.len() as int) =~= regs);
    claimed_by_member(regs, locks, g);
    claimed_by_member(others, locks, g);
    if claimed(regs, locks, g) {
        let x = choose|x: RegistrationView| #[trigger]
            regs.contains(x) && grabs_of(x.keycode, x.base_mods, locks).contains(g);
        without_id_holds(regs, id, regs.len() as int, x);
        if x.id == id {
            let k = choose|k: int| 0 <= k < regs.len() && regs[k] == x;
            assert(has_registration(regs, id));
            let i = place_of_id(regs, id)->0;
            assert(regs[i].id == regs[k].id);
        } else {
            assert(others.contains(x));
        }
    }
    if claimed(others, locks, g) {
        let x = choose|x: RegistrationView| #[trigger]
            others.contains(x) && grabs_of(x.keycode, x.base_mods, locks).contains(g);
        without_id_holds(regs, id, regs.len() as int, x);
        assert(regs.contains(x));
    }
    if let Some(i) = place_of_id(regs, id) {
        assert(regs[i].id == id);
        assert(regs.contains(regs[i]));
    }
}

/// The grabs of a table with a new entry are those of the entry and those of the others.
proof fn claimed_with_entry(
    regs: Seq<RegistrationView>,
    entry: RegistrationView,
    locks: Seq<u16>,
    g: Grab,
)
    requires
        ids_differ(regs),
    ensures
        claimed(with_entry(regs, entry), locks, g) <==> claimed(
            without_id(regs, entry.id, regs.len() as int),
            locks,
            g,
        ) || grabs_of(entry.keycode, entry.base_mods, locks).contains(g),
{
    let after = with_entry(regs, entry);
    let id = entry.id;
    let others = without_id(regs, id, regs.len() as int);
    assert(regs.take(regs.len() as int) =~= regs);
    claimed_by_member(after, locks, g);
    claimed_by_member(others, locks, g);
    let at = match place_of_id(regs, id) {
        Some(i) => i,
        None => regs.len() as int,
    };
    if place_of_id(regs, id) is Some {
        assert(regs[at].id == id);
    }
    assert(after[at] == entry);
    assert(after.contains(entry));
    if claimed(after, locks, g) {
        let x = choose|x: RegistrationView| #[trigger]
            after.contains(x) && grabs_of(x.keycode, x.base_mods, locks).contains(g);
        let k = choose|k: int| 0 <= k < after.len() && after[k] == x;
        if k != at {
            assert(regs[k] == x);
            assert(regs.contains(x));
            assert(x.id != id) by {
                if x.id == id {
                    assert(has_registration(regs, id));
                    assert(regs[at].id == regs[k].id);
                }
            }
            without_id_holds(regs, id, regs.len() as int, x);
            assert(others.contains(x));
        }
    }
    if claimed(others, locks, g) {
        let x = choose|x: RegistrationView| #[trigger]
            others.contains(x) && grabs_of(x.keycode, x.base_mods, locks).contains(g);
        without_id_holds(regs, id, regs.len() as int, x);
        let k = choose|k: int| 0 <= k < regs.len() && regs[k] == x;
        assert(k != at);
        assert(after[k] == x);
        assert(after.contains(x));
    }
}

/// The combinations that are grabbed for a registration.
pub open spec fn combos_for(base_mods: u16, locks: Seq<u16>) -> Seq<u16> {
    locks.map_values(|l: u16| base_mods | l)
}

proof fn combos_are_grabs(keycode: u8, base_mods: u16, locks: Seq<u16>, g: Grab)
    ensures
        grabs_of(keycode, base_mods, locks).contains(g) <==> g.0 == keycode && combos_for(
            base_mods,
            locks,
        ).contains(g.1),
{
    let a = grabs_of(keycode, base_mods, locks);
    let b = combos_for(base_mods, locks);
    if a.contains(g) {
        let k = choose|k: int| 0 <= k < a.len() && a[k] == g;
        assert(b[k] == g.1);
    }
    if g.0 == keycode && b.contains(g.1) {
        let k = choose|k: int| 0 <= k < b.len() && b[k] == g.1;
        assert(a[k] == g);
    }
}

/// Registering an id never releases a grab that another id stands on, nor one that the new
/// registration itself stands on.
pub proof fn registering_disturbs_nobody(
    regs: Seq<RegistrationView>,
    entry: RegistrationView,
    locks: Seq<u16>,
    g: Grab,
)
    requires
        ids_differ(regs),
        released_on_move(
            regs,
            entry.id,
            entry.keycode,
            combos_for(entry.base_mods, locks),
            locks,
        ).contains(g),
    ensures
        !claimed(with_entry(regs, entry), locks, g),
{
    let i = place_of_id(regs, entry.id)->0;
    retired_list_holds(
        regs[i],
        entry.keycode,
        combos_for(entry.base_mods, locks),
        locks,
        without_id(regs, entry.id, regs.len() as int),
        locks.len() as int,
        g,
    );
    combos_are_grabs(entry.keycode, entry.base_mods, locks, g);
    claimed_with_entry(regs, entry, locks, g);
}

/// If exactly the grabs of the table are held, then after a registration, the new grabs taken
/// and the listed ones released, exactly the grabs of the new table are held.
pub proof fn registering_keeps_the_books(
    regs: Seq<RegistrationView>,
    entry: RegistrationView,
    locks: Seq<u16>,
    held: Set<Grab>,
)
    requires
        ids_differ(regs),
        forall|g: Grab| #[trigger] held.contains(g) <==> claimed(regs, locks, g),
    ensures
        ({
            let taken = grabs_of(entry.keycode, entry.base_mods, locks).to_set();
            let released = released_on_move(
                regs,
                entry.id,
                entry.keycode,
                combos_for(entry.base_mods, locks),
                locks,
            ).to_set();
            forall|g: Grab| #[trigger]
                held.union(taken).difference(released).contains(g) <==> claimed(
                    with_entry(regs, entry),
                    locks,
                    g,
                )
        }),
{
    let combos = combos_for(entry.base_mods, locks);
    let taken = grabs_of(entry.keycode, entry.base_mods, locks).to_set();
    let list = released_on_move(regs, entry.id, entry.keycode, combos, locks);
    let released = list.to_set();
    let others = without_id(regs, entry.id, regs.len() as int);
    assert forall|g: Grab| #[trigger] held.union(taken).difference(released).contains(g)
        <==> claimed(with_entry(regs, entry), locks, g) by {
        claimed_splits(regs, entry.id, locks, g);
        claimed_with_entry(regs, entry, locks, g);
        combos_are_grabs(entry.keycode, entry.base_mods, locks, g);
        assert(released.contains(g) <==> list.contains(g));
        assert(taken.contains(g) <==> grabs_of(entry.keycode, entry.base_mods, locks).contains(g));
        if let Some(i) = place_of_id(regs, entry.id) {
            retired_list_holds(
                regs[i],
                entry.keycode,
                combos,
                locks,
                others,
                locks.len() as int,
                g,
            );
            assert(locks.take(locks.len() as int) =~= locks);
            let old_grabs = grabs_of(regs[i].keycode, regs[i].base_mods, locks);
            if old_grabs.contains(g) {
                let k = choose|k: int| 0 <= k < old_grabs.len() && old_grabs[k] == g;
                assert(g.0 == regs[i].keycode);
            }
        }
    }
}

/// Registering an id again on the sequence it already has releases nothing.
pub proof fn same_sequence_keeps_its_grabs(
    regs: Seq<RegistrationView>,
    i: int,
    locks: Seq<u16>,
)
    requires
        ids_differ(regs),
        0 <= i < regs.len(),
    ensures
        released_on_move(
            regs,
            regs[i].id,
            regs[i].keycode,
            combos_for(regs[i].base_mods, locks),
            locks,
        ) == Seq::<Grab>::empty(),
{
    let list = released_on_move(
        regs,
        regs[i].id,
        regs[i].keycode,
        combos_for(regs[i].base_mods, locks),
        locks,
    );
    assert(has_registration(regs, regs[i].id));
    let p = place_of_id(regs, regs[i].id)->0;
    assert(regs[p].id == regs[i].id);
    assert(p == i);
    if list.len() > 0 {
        let g = list[0];
        assert(list.contains(g));
        retired_list_holds(
            regs[i],
            regs[i].keycode,
            combos_for(regs[i].base_mods, locks),
            locks,
            without_id(regs, regs[i].id, regs.len() as int),
            locks.len() as int,
            g,
        );
        assert(locks.take(locks.len() as int) =~= locks);
        combos_are_grabs(regs[i].keycode, regs[i].base_mods, locks, g);
    }
    assert(list =~= Seq::<Grab>::empty());
}

/// After a refused registration, the grabs granted so far taken and the listed ones given
/// back, exactly the same grabs are held as before.
pub proof fn rolling_back_restores_the_grabs(
    regs: Seq<RegistrationView>,
    keycode: u8,
    combos: Seq<u16>,
    locks: Seq<u16>,
    granted: int,
    held: Set<Grab>,
    g: Grab,
)
    requires
        0 <= granted <= combos.len(),
        forall|g: Grab| #[trigger] held.contains(g) <==> claimed(regs, locks, g),
    ensures
        ({
            let taken = combos.take(granted).map_values(|m: u16| (keycode, m)).to_set();
            let back = rolled_back(regs, keycode, combos, locks, granted).to_set();
            held.union(taken).difference(back).contains(g) <==> held.contains(g)
        }),
{
    let list = combos.take(granted).map_values(|m: u16| (keycode, m));
    rolled_back_holds(regs, keycode, combos, locks, granted, g);
    if list.contains(g) {
        let k = choose|k: int| 0 <= k < list.len() && list[k] == g;
        assert(combos.take(granted)[k] == g.1);
        assert(combos.take(granted).contains(g.1));
    }
}

/// If exactly the grabs of the table are held, then after dropping a registration and
/// releasing the listed grabs, exactly the grabs of the remaining ones are held.
pub proof fn unregistering_keeps_the_books(
    regs: Seq<RegistrationView>,
    id: u32,
    locks: Seq<u16>,
    held: Set<Grab>,
    g: Grab,
)
    requires
        ids_differ(regs),
        forall|g: Grab| #[trigger] held.contains(g) <==> claimed(regs, locks, g),
        has_registration(regs, id),
    ensures
        ({
            let i = place_of_id(regs, id)->0;
            let others = without_id(regs, id, regs.len() as int);
            let released = retired_list(
                regs[i],
                regs[i].keycode,
                Seq::empty(),
                locks,
                others,
                locks.len() as int,
            ).to_set();
            held.difference(released).contains(g) <==> claimed(others, locks, g)
        }),
{
    let i = place_of_id(regs, id)->0;
    let others = without_id(regs, id, regs.len() as int);
    claimed_splits(regs, id, locks, g);
    retired_list_holds(
        regs[i],
        regs[i].keycode,
        Seq::empty(),
        locks,
        others,
        locks.len() as int,
        g,
    );
    assert(locks.take(locks.len() as int) =~= locks);
    let old_grabs = grabs_of(regs[i].keycode, regs[i].base_mods, locks);
    if old_grabs.contains(g) {
        let k = choose|k: int| 0 <= k < old_grabs.len() && old_grabs[k] == g;
        assert(g.0 == regs[i].keycode);
    }
}

} // verus!
