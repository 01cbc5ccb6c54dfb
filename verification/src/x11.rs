//! Hotkeys by passive key grabs on an X server.
//!
//! A key is identified by its physical code, so a shortcut keeps working under every keyboard
//! layout. Modifier bits come from the server's own modifier map.
use crate::key_names::{kernel_name, kernel_name_of_alias};
use crate::text::{
    ascii_alnum, ascii_big, ascii_lowercase, ascii_lowercase_of, ascii_uppercase, chars_of,
    is_ascii_alnum, same_text, split_of, split_on, text_views, trim, trimmed,
};
use evdev::KeyCode;
use std::str::FromStr;
use vstd::prelude::*;

verus! {

pub const SHIFT: u16 = 0x01;

pub const LOCK: u16 = 0x02;

pub const CONTROL: u16 = 0x04;

pub const M1: u16 = 0x08;

pub const M2: u16 = 0x10;

pub const M3: u16 = 0x20;

pub const M4: u16 = 0x40;

pub const M5: u16 = 0x80;

/// The bits of an event's state that are keyboard modifiers. The bits above them carry pointer
/// buttons and the keyboard group and must not keep a shortcut from matching.
pub const REAL_MODS: u16 = 0x00FF;

// ---- modifier layout ----------------------------------------------------

/// Which modifier bits carry what, as resolved from the server.
#[derive(Debug, Clone, Copy, PartialEq, Eq, Structural)]
pub struct ModifierLayout {
    /// Bits of Caps, Num and Scroll Lock.
    pub lock_mods: u16,
    /// The bit of Alt or Meta.
    pub alt_mod: u16,
    /// The bit of Super or Hyper.
    pub super_mod: u16,
}

/// What the server answered about its keys.
#[derive(Debug)]
pub struct KeyboardTables {
    pub min_keycode: u8,
    pub max_keycode: u8,
    /// How many keys each modifier row has room for.
    pub keycodes_per_modifier: u8,
    /// The rows Shift, Lock, Control, Mod1 to Mod5, one after the other.
    pub modifier_keycodes: Vec<u8>,
    /// How many symbols each key has room for.
    pub keysyms_per_keycode: u8,
    /// The symbols of each key from `min_keycode` on, one key after the other.
    pub keysyms: Vec<u32>,
}

/// The groups of key symbols that matter.
#[derive(Debug, Clone, Copy, PartialEq, Eq, Structural)]
pub enum SymbolGroup {
    Locks,
    Alt,
    Super,
}

/// Caps, Num and Scroll Lock; Alt and Meta; Super and Hyper.
pub open spec fn in_group(group: SymbolGroup, sym: u32) -> bool {
    match group {
        SymbolGroup::Locks => sym == 0xffe5 || sym == 0xff7f || sym == 0xff14,
        SymbolGroup::Alt => sym == 0xffe9 || sym == 0xffea || sym == 0xffe7 || sym == 0xffe8,
        SymbolGroup::Super => sym == 0xffeb || sym == 0xffec || sym == 0xffed || sym == 0xffee,
    }
}

fn symbol_in(group: SymbolGroup, sym: u32) -> (r: bool)
    ensures
        r == in_group(group, sym),
{
    match group {
        SymbolGroup::Locks => sym == 0xffe5 || sym == 0xff7f || sym == 0xff14,
        SymbolGroup::Alt => sym == 0xffe9 || sym == 0xffea || sym == 0xffe7 || sym == 0xffe8,
        SymbolGroup::Super => sym == 0xffeb || sym == 0xffec || sym == 0xffed || sym == 0xffee,
    }
}

/// The bit of a modifier row.
pub open spec fn row_bit(i: int) -> u16 {
    if i == 0 {
        SHIFT
    } else if i == 1 {
        LOCK
    } else if i == 2 {
        CONTROL
    } else if i == 3 {
        M1
    } else if i == 4 {
        M2
    } else if i == 5 {
        M3
    } else if i == 6 {
        M4
    } else {
        M5
    }
}

fn bit_of_row(i: usize) -> (r: u16)
    ensures
        r == row_bit(i as int),
{
    if i == 0 {
        SHIFT
    } else if i == 1 {
        LOCK
    } else if i == 2 {
        CONTROL
    } else if i == 3 {
        M1
    } else if i == 4 {
        M2
    } else if i == 5 {
        M3
    } else if i == 6 {
        M4
    } else {
        M5
    }
}

/// Does the key `kc` carry a symbol of the group?
pub open spec fn key_has(k: KeyboardTables, kc: u8, group: SymbolGroup) -> bool {
    let width = k.keysyms_per_keycode as int;
    let row = kc - k.min_keycode;
    &&& k.min_keycode <= kc <= k.max_keycode
    &&& (row + 1) * width <= k.keysyms@.len()
    &&& exists|s: int| 0 <= s < width && in_group(group, #[trigger] k.keysyms@[row * width + s])
}

/// Does some key in the modifier row `i` carry a symbol of the group? A row that the answer
/// does not hold in full counts for nothing, nor does an empty place in one.
pub open spec fn row_has(k: KeyboardTables, i: int, group: SymbolGroup) -> bool {
    let width = k.keycodes_per_modifier as int;
    &&& (i + 1) * width <= k.modifier_keycodes@.len()
    &&& exists|j: int|
        0 <= j < width && (#[trigger] k.modifier_keycodes@[i * width + j]) != 0 && key_has(
            k,
            k.modifier_keycodes@[i * width + j],
            group,
        )
}

/// The bits of the first `n` rows that hold a key of the group.
pub open spec fn bits_with(k: KeyboardTables, group: SymbolGroup, n: int) -> u16
    decreases n,
{
    if n <= 0 {
        0
    } else if row_has(k, n - 1, group) {
        bits_with(k, group, n - 1) | row_bit(n - 1)
    } else {
        bits_with(k, group, n - 1)
    }
}

/// The bit of the first of the first `n` rows that holds a key of the group.
pub open spec fn first_bit_with(k: KeyboardTables, group: SymbolGroup, n: int) -> Option<u16>
    decreases n,
{
    if n <= 0 {
        None
    } else if first_bit_with(k, group, n - 1) is Some {
        first_bit_with(k, group, n - 1)
    } else if row_has(k, n - 1, group) {
        Some(row_bit(n - 1))
    } else {
        None
    }
}

/// The layout without lock bits that collide with Alt or Super.
pub open spec fn sanitized_layout(layout: ModifierLayout) -> ModifierLayout {
    ModifierLayout { lock_mods: layout.lock_mods & !(layout.alt_mod | layout.super_mod), ..layout }
}

pub open spec fn fallback_layout() -> ModifierLayout {
    ModifierLayout { lock_mods: LOCK | M2, alt_mod: M1, super_mod: M4 }
}

pub open spec fn or_bit(b: Option<u16>, default: u16) -> u16 {
    match b {
        Some(b) => b,
        None => default,
    }
}

/// The layout that the server's answer describes, or the fallback where it answered nothing
/// usable.
pub open spec fn resolved_layout(answer: Option<KeyboardTables>) -> ModifierLayout {
    match answer {
        Some(k) => if k.keycodes_per_modifier == 0 || k.keysyms_per_keycode == 0 || k.max_keycode
            < k.min_keycode {
            fallback_layout()
        } else {
            sanitized_layout(
                ModifierLayout {
                    lock_mods: bits_with(k, SymbolGroup::Locks, 8),
                    alt_mod: or_bit(first_bit_with(k, SymbolGroup::Alt, 8), M1),
                    super_mod: or_bit(first_bit_with(k, SymbolGroup::Super, 8), M4),
                },
            )
        },
        None => fallback_layout(),
    }
}

/// How many keys to ask the server about: all of them, at most 255. Nothing if the range of
/// key codes is empty.
pub fn keys_to_query(min_keycode: u8, max_keycode: u8) -> (r: Option<u8>)
    ensures
        r == (if max_keycode < min_keycode {
            None
        } else if max_keycode - min_keycode >= 255 {
            Some(255u8)
        } else {
            Some((max_keycode - min_keycode + 1) as u8)
        }),
{
    if max_keycode < min_keycode {
        None
    } else if max_keycode - min_keycode >= 255 {
        Some(255)
    } else {
        Some(max_keycode - min_keycode + 1)
    }
}

proof fn place_fits(row: int, width: int, s: int, len: int)
    by (nonlinear_arith)
    requires
        0 <= row,
        0 <= s < width,
        (row + 1) * width <= len,
    ensures
        0 <= row * width + s < len,
        row * width <= (row + 1) * width,
{
}

/// Does the key `kc` carry a symbol of the group?
fn key_carries(k: &KeyboardTables, kc: u8, group: SymbolGroup) -> (r: bool)
    ensures
        r == key_has(*k, kc, group),
{
    if kc < k.min_keycode || kc > k.max_keycode {
        return false;
    }
    let width: usize = k.keysyms_per_keycode as usize;
    let row: usize = (kc - k.min_keycode) as usize;
    proof {
        assert((row + 1) * width <= 256 * 255) by (nonlinear_arith)
            requires
                row <= 255,
                width <= 255,
        ;
        assert(row * width <= 256 * 255) by (nonlinear_arith)
            requires
                row <= 255,
                width <= 255,
        ;
    }
    if (row + 1) * width > k.keysyms.len() {
        return false;
    }
    let start: usize = row * width;
    let mut s: usize = 0;
    while s < width
        invariant
            s <= width,
            start == row * width,
            row == kc - k.min_keycode,
            width == k.keysyms_per_keycode,
            start + width <= usize::MAX,
            (row + 1) * width <= k.keysyms@.len(),
            forall|q: int|
                0 <= q < s ==> !in_group(group, #[trigger] k.keysyms@[row as int * width as int + q]),
            k.min_keycode <= kc <= k.max_keycode,
        decreases width - s,
    {
        proof {
            place_fits(row as int, width as int, s as int, k.keysyms@.len() as int);
        }
        if symbol_in(group, k.keysyms[start + s]) {
            assert(in_group(group, k.keysyms@[row as int * width as int + s]));
            return true;
        }
        s = s + 1;
    }
    false
}

/// Does some key in the modifier row `i` carry a symbol of the group?
fn row_carries(k: &KeyboardTables, i: usize, group: SymbolGroup) -> (r: bool)
    requires
        i < 8,
    ensures
        r == row_has(*k, i as int, group),
{
    let width: usize = k.keycodes_per_modifier as usize;
    proof {
        assert((i + 1) * width <= 8 * 255) by (nonlinear_arith)
            requires
                i < 8,
                width <= 255,
        ;
        assert(i * width <= 8 * 255) by (nonlinear_arith)
            requires
                i < 8,
                width <= 255,
        ;
    }
    if (i + 1) * width > k.modifier_keycodes.len() {
        return false;
    }
    let start: usize = i * width;
    let mut j: usize = 0;
    while j < width
        invariant
            j <= width,
            start == i * width,
            width == k.keycodes_per_modifier,
            start + width <= usize::MAX,
            (i + 1) * width <= k.modifier_keycodes@.len(),
            forall|q: int|
                0 <= q < j ==> !((#[trigger] k.modifier_keycodes@[i as int * width as int + q]) != 0
                    && key_has(*k, k.modifier_keycodes@[i as int * width as int + q], group)),
        decreases width - j,
    {
        proof {
            place_fits(i as int, width as int, j as int, k.modifier_keycodes@.len() as int);
        }
        let kc = k.modifier_keycodes[start + j];
        if kc != 0 && key_carries(k, kc, group) {
            assert(k.modifier_keycodes@[i as int * width as int + j] == kc);
            return true;
        }
        j = j + 1;
    }
    false
}

impl ModifierLayout {
    /// The conventional bits, for a server whose mapping cannot be read.
    pub fn fallback() -> (r: Self)
        ensures
            r == fallback_layout(),
    {
        ModifierLayout { lock_mods: LOCK | M2, alt_mod: M1, super_mod: M4 }
    }

    /// The layout that the server's answer describes. `None` is a query that failed.
    pub fn resolve(answer: Option<&KeyboardTables>) -> (r: Self)
        ensures
            r == resolved_layout(match answer {
                Some(k) => Some(*k),
                None => None,
            }),
    {
        let k = match answer {
            Some(k) => k,
            None => return Self::fallback(),
        };
        if k.keycodes_per_modifier == 0 || k.keysyms_per_keycode == 0 || k.max_keycode
            < k.min_keycode {
            return Self::fallback();
        }
        let mut lock_mods: u16 = 0;
        let mut alt_mod: Option<u16> = None;
        let mut super_mod: Option<u16> = None;
        let mut i: usize = 0;
        while i < 8
            invariant
                i <= 8,
                lock_mods == bits_with(*k, SymbolGroup::Locks, i as int),
                alt_mod == first_bit_with(*k, SymbolGroup::Alt, i as int),
                super_mod == first_bit_with(*k, SymbolGroup::Super, i as int),
            decreases 8 - i,
        {
            let bit: u16 = bit_of_row(i);
            if row_carries(k, i, SymbolGroup::Locks) {
                lock_mods = lock_mods | bit;
            }
            if alt_mod.is_none() && row_carries(k, i, SymbolGroup::Alt) {
                alt_mod = Some(bit);
            }
            if super_mod.is_none() && row_carries(k, i, SymbolGroup::Super) {
                super_mod = Some(bit);
            }
            i = i + 1;
        }
        let layout = ModifierLayout {
            lock_mods,
            alt_mod: alt_mod.unwrap_or(M1),
            super_mod: super_mod.unwrap_or(M4),
        };
        layout.sanitized()
    }

    /// Drops lock bits that collide with Alt or Super: a lock key in Alt's row must not make
    /// Alt disappear from what is matched.
    pub fn sanitized(self) -> (r: Self)
        ensures
            r == sanitized_layout(self),
    {
        ModifierLayout {
            lock_mods: self.lock_mods & !(self.alt_mod | self.super_mod),
            alt_mod: self.alt_mod,
            super_mod: self.super_mod,
        }
    }
}

// ---- lock combinations --------------------------------------------------

/// The lowest `n` bits of `m` that are set, each by itself, lowest first.
pub open spec fn set_bits(m: u16, n: int) -> Seq<u16>
    decreases n,
{
    if n <= 0 {
        Seq::empty()
    } else {
        let b = m & (1u16 << ((n - 1) as u16));
        if b != 0 {
            set_bits(m, n - 1).push(b)
        } else {
            set_bits(m, n - 1)
        }
    }
}

/// The bits of `m`, lowest first, at most three of them.
pub open spec fn first_lock_bits(m: u16) -> Seq<u16> {
    let all = set_bits(m, 16);
    if all.len() > 3 {
        all.take(3)
    } else {
        all
    }
}

/// Every combination of the given bits. Those without the last bit come first.
pub open spec fn combos_of(bits: Seq<u16>) -> Seq<u16>
    decreases bits.len(),
{
    if bits.len() == 0 {
        seq![0u16]
    } else {
        let without = combos_of(bits.drop_last());
        without + without.map_values(|c: u16| c | bits.last())
    }
}

/// The lock states that a grab has to cover.
pub open spec fn lock_states(layout: ModifierLayout) -> Seq<u16> {
    combos_of(first_lock_bits(layout.lock_mods))
}

impl ModifierLayout {
    /// Every on/off combination of the lock keys, of at most three of them.
    pub fn lock_combos(&self) -> (r: Vec<u16>)
        ensures
            r@ == lock_states(*self),
            r@.len() >= 1,
    {
        let mut bits: Vec<u16> = Vec::new();
        let mut i: u16 = 0;
        while i < 16
            invariant
                i <= 16,
                bits@ == set_bits(self.lock_mods, i as int),
            decreases 16 - i,
        {
            let b: u16 = self.lock_mods & (1u16 << i);
            if b != 0 {
                bits.push(b);
            }
            i = i + 1;
        }
        if bits.len() > 3 {
            bits.truncate(3);
        }
        assert(bits@ =~= first_lock_bits(self.lock_mods));
        let mut combos: Vec<u16> = Vec::new();
        combos.push(0);
        let mut n: usize = 0;
        assert(combos@ =~= combos_of(bits@.take(0)));
        while n < bits.len()
            invariant
                n <= bits@.len(),
                combos@ == combos_of(bits@.take(n as int)),
                combos@.len() >= 1,
            decreases bits@.len() - n,
        {
            let bit: u16 = bits[n];
            let ghost without = combos@;
            let count: usize = combos.len();
            let mut j: usize = 0;
            while j < count
                invariant
                    j <= count,
                    count == without.len(),
                    combos@ == without + without.take(j as int).map_values(|c: u16| c | bit),
                decreases count - j,
            {
                let c: u16 = combos[j] | bit;
                combos.push(c);
                j = j + 1;
                assert(combos@ =~= without + without.take(j as int).map_values(|c: u16| c | bit));
            }
            n = n + 1;
            proof {
                assert(without.take(count as int) =~= without);
                assert(bits@.take(n as int).drop_last() =~= bits@.take(n - 1));
                assert(bits@.take(n as int).last() == bit);
                assert(combos@ =~= combos_of(bits@.take(n as int)));
            }
        }
        assert(bits@.take(n as int) =~= bits@);
        combos
    }
}

// ---- key sequences ------------------------------------------------------

/// The code that the kernel gives to a key of this name.
pub uninterp spec fn kernel_code_of(name: Seq<char>) -> Option<u16>;

/// The names that shortcuts lead to: a letter's, a digit's, or one out of the table of words.
pub open spec fn is_shortcut_key(name: Seq<char>) -> bool {
    ||| exists|alias: Seq<char>| #[trigger] kernel_name_of_alias(alias) == Some(name)
    ||| exists|c: char|
        (('0' <= c <= '9') || ('A' <= c <= 'Z')) && name == #[trigger] "KEY_"@.push(c)
}

/// Calls evdev's `KeyCode::from_str`. Claimed: the code depends on the name alone, and the
/// names that shortcuts lead to have one, of at most 111 (`KEY_DELETE`).
#[verifier::external_body]
fn kernel_code(name: &str) -> (r: Option<u16>)
    requires
        is_shortcut_key(name@),
    ensures
        r == kernel_code_of(name@),
        r is Some,
        r->0 <= 111,
{
    match KeyCode::from_str(name) {
        Ok(key) => Some(key.0),
        Err(_) => None,
    }
}

/// The display server's code for a key of the kernel: the kernel's code and 8. A code that
/// takes more than one byte has none.
pub open spec fn server_code_of(code: u16) -> Option<u8> {
    if code <= 247 {
        Some((code + 8) as u8)
    } else {
        None
    }
}

/// The display server's code for a key of the kernel. The last eight codes of one byte have no
/// room for the 8 and are left out.
pub fn server_code(code: u16) -> (r: Option<u8>)
    requires
        code <= 247 || code > 255,
    ensures
        r == server_code_of(code),
{
    if code > 255 {
        return None;
    }
    Some((code + 8) as u8)
}

/// The kernel's name for the key half of a shortcut.
pub open spec fn key_name_of(key: Seq<char>) -> Option<Seq<char>> {
    match kernel_name_of_alias(ascii_lowercase_of(key)) {
        Some(name) => Some(name),
        None => if key.len() == 1 && is_ascii_alnum(ascii_big(key[0])) {
            Some("KEY_"@.push(ascii_big(key[0])))
        } else {
            None
        },
    }
}

/// The kernel's name for the key half of a shortcut: a word of the table, a Latin letter or an
/// ASCII digit.
pub fn kernel_key_name(key: &str) -> (r: Option<String>)
    ensures
        match r {
            Some(name) => key_name_of(key@) == Some(name@) && is_shortcut_key(name@),
            None => key_name_of(key@) is None,
        },
{
    let lower = ascii_lowercase(key);
    if let Some(name) = kernel_name(lower.as_str()) {
        return Some(name.to_owned());
    }
    let chars = chars_of(key);
    if chars.len() != 1 {
        return None;
    }
    let c = ascii_uppercase(chars[0]);
    if !ascii_alnum(c) {
        return None;
    }
    let mut name = "KEY_".to_owned();
    name.push(c);
    assert(name@ == "KEY_"@.push(c));
    Some(name)
}

/// The bit of a modifier word.
pub open spec fn modifier_bit(word: Seq<char>, layout: ModifierLayout) -> Option<u16> {
    let lower = ascii_lowercase_of(word);
    if lower == "ctrl"@ || lower == "control"@ {
        Some(CONTROL)
    } else if lower == "shift"@ {
        Some(SHIFT)
    } else if lower == "alt"@ {
        Some(layout.alt_mod)
    } else if lower == "super"@ || lower == "meta"@ {
        Some(layout.super_mod)
    } else {
        None
    }
}

/// The bits of the first `n` parts taken together; nothing if one of them is no modifier.
pub open spec fn modifier_bits(
    parts: Seq<Seq<char>>,
    n: int,
    layout: ModifierLayout,
) -> Option<u16>
    decreases n,
{
    if n <= 0 {
        Some(0)
    } else {
        match (
            modifier_bits(parts, n - 1, layout),
            modifier_bit(trimmed(parts[n - 1]), layout),
        ) {
            (Some(bits), Some(bit)) => Some(bits | bit),
            _ => None,
        }
    }
}

/// The key code and modifier bits of a shortcut. The last part names the key, the ones before
/// it modifiers, of which there must be one.
pub open spec fn parsed_sequence(seq: Seq<char>, layout: ModifierLayout) -> Option<(u8, u16)> {
    let parts = split_of(seq, '+');
    match modifier_bits(parts, parts.len() - 1, layout) {
        Some(mods) => if mods == 0 {
            None
        } else {
            match key_name_of(trimmed(parts.last())) {
                Some(name) => match kernel_code_of(name) {
                    Some(code) => match server_code_of(code) {
                        Some(keycode) => Some((keycode, mods)),
                        None => None,
                    },
                    None => None,
                },
                None => None,
            }
        },
        None => None,
    }
}

fn bit_of_modifier(word: &str, layout: &ModifierLayout) -> (r: Option<u16>)
    ensures
        r == modifier_bit(word@, *layout),
{
    let lower = ascii_lowercase(word);
    let lower = lower.as_str();
    if same_text(lower, "ctrl") || same_text(lower, "control") {
        Some(CONTROL)
    } else if same_text(lower, "shift") {
        Some(SHIFT)
    } else if same_text(lower, "alt") {
        Some(layout.alt_mod)
    } else if same_text(lower, "super") || same_text(lower, "meta") {
        Some(layout.super_mod)
    } else {
        None
    }
}

/// Reads a shortcut such as `Ctrl+Shift+F5` as a key code and modifier bits.
pub fn parse_sequence(seq: &str, layout: &ModifierLayout) -> (r: Option<(u8, u16)>)
    ensures
        r == parsed_sequence(seq@, *layout),
{
    let parts = split_on(seq, '+');
    let ghost views = split_of(seq@, '+');
    let last: usize = parts.len() - 1;
    let mut base_mods: u16 = 0;
    let mut i: usize = 0;
    while i < last
        invariant
            i <= last,
            last == parts@.len() - 1,
            views == text_views(parts@),
            views == split_of(seq@, '+'),
            Some(base_mods) == modifier_bits(views, i as int, *layout),
        decreases last - i,
    {
        let word = trim(parts[i].as_str());
        assert(views[i as int] == parts@[i as int]@);
        match bit_of_modifier(word.as_str(), layout) {
            Some(bit) => {
                base_mods = base_mods | bit;
            },
            None => {
                proof {
                    modifier_failure_stays(views, i + 1, last as int, *layout);
                }
                return None;
            },
        }
        i = i + 1;
    }
    if base_mods == 0 {
        return None;
    }
    let key = trim(parts[last].as_str());
    assert(views[last as int] == parts@[last as int]@);
    match kernel_key_name(key.as_str()) {
        Some(name) => match kernel_code(name.as_str()) {
            Some(code) => match server_code(code) {
                Some(keycode) => Some((keycode, base_mods)),
                None => None,
            },
            None => None,
        },
        None => None,
    }
}

proof fn modifier_failure_stays(parts: Seq<Seq<char>>, i: int, n: int, layout: ModifierLayout)
    requires
        0 <= i <= n,
        modifier_bits(parts, i, layout) is None,
    ensures
        modifier_bits(parts, n, layout) is None,
    decreases n - i,
{
    if i < n {
        assert(modifier_bits(parts, i + 1, layout) is None);
        modifier_failure_stays(parts, i + 1, n, layout);
    }
}

} // verus!
