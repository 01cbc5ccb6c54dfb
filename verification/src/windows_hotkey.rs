//! Hotkeys registered with the Windows message thread.
use crate::hotkey::HotkeyError;
use crate::key_names::{same_key_names, virtual_key_by_name, virtual_key_of_alias};
use crate::text::{
    ascii_alnum, ascii_big, ascii_lowercase, ascii_lowercase_of, ascii_uppercase, chars_of,
    decimal, decimal_of, is_ascii_alnum, join, same_text, split_not_empty, split_of, split_on,
    text_views, trim, trimmed,
};
use crate::x11::{key_name_of, modifier_bit, modifier_bits, ModifierLayout};
use vstd::prelude::*;

verus! {

pub const MOD_ALT: u32 = 0x1;

pub const MOD_CONTROL: u32 = 0x2;

pub const MOD_SHIFT: u32 = 0x4;

pub const MOD_WIN: u32 = 0x8;

/// Holding the keys down fires once, not again and again.
pub const MOD_NOREPEAT: u32 = 0x4000;

/// The system's error number for a shortcut that another application holds.
pub const ERROR_HOTKEY_ALREADY_REGISTERED: u32 = 1409;

/// A shortcut in the system's terms.
#[derive(Debug, Clone, Copy, PartialEq, Eq, Structural)]
pub struct Accelerator {
    pub modifiers: u32,
    pub vk: u32,
}

/// The virtual-key code for the key half of a shortcut. Letters and digits have the code of
/// their capital.
pub open spec fn vk_of(key: Seq<char>) -> Option<u32> {
    match virtual_key_of_alias(ascii_lowercase_of(key)) {
        Some(vk) => Some(vk),
        None => if key.len() == 1 && is_ascii_alnum(ascii_big(key[0])) {
            Some(ascii_big(key[0]) as u32)
        } else {
            None
        },
    }
}

/// The virtual-key code for the key half of a shortcut: a word of the table, a Latin letter or
/// an ASCII digit.
pub fn virtual_key(key: &str) -> (r: Option<u32>)
    ensures
        r == vk_of(key@),
{
    let lower = ascii_lowercase(key);
    if let Some(vk) = virtual_key_by_name(lower.as_str()) {
        return Some(vk);
    }
    let chars = chars_of(key);
    if chars.len() != 1 {
        return None;
    }
    let c = ascii_uppercase(chars[0]);
    if !ascii_alnum(c) {
        return None;
    }
    Some(c as u32)
}

/// The flag of a modifier word.
pub open spec fn modifier_flag(word: Seq<char>) -> Option<u32> {
    let lower = ascii_lowercase_of(word);
    if lower == "ctrl"@ || lower == "control"@ {
        Some(MOD_CONTROL)
    } else if lower == "shift"@ {
        Some(MOD_SHIFT)
    } else if lower == "alt"@ {
        Some(MOD_ALT)
    } else if lower == "super"@ || lower == "meta"@ || lower == "win"@ {
        Some(MOD_WIN)
    } else {
        None
    }
}

fn flag_of_modifier(word: &str) -> (r: Option<u32>)
    ensures
        r == modifier_flag(word@),
{
    let lower = ascii_lowercase(word);
    let lower = lower.as_str();
    if same_text(lower, "ctrl") || same_text(lower, "control") {
        Some(MOD_CONTROL)
    } else if same_text(lower, "shift") {
        Some(MOD_SHIFT)
    } else if same_text(lower, "alt") {
        Some(MOD_ALT)
    } else if same_text(lower, "super") || same_text(lower, "meta") || same_text(lower, "win") {
        Some(MOD_WIN)
    } else {
        None
    }
}

/// The flags of the first `n` parts taken together; nothing if one of them is no modifier.
pub open spec fn modifier_flags(parts: Seq<Seq<char>>, n: int) -> Option<u32>
    decreases n,
{
    if n <= 0 {
        Some(0)
    } else {
        match (modifier_flags(parts, n - 1), modifier_flag(trimmed(parts[n - 1]))) {
            (Some(flags), Some(flag)) => Some(flags | flag),
            _ => None,
        }
    }
}

/// A shortcut in the system's terms. The last part names the key, the ones before it
/// modifiers, of which there must be one.
pub open spec fn accelerator_of(seq: Seq<char>) -> Option<Accelerator> {
    let parts = split_of(seq, '+');
    match modifier_flags(parts, parts.len() - 1) {
        Some(flags) => if flags == 0 {
            None
        } else {
            match vk_of(trimmed(parts.last())) {
                Some(vk) => Some(Accelerator { modifiers: flags | MOD_NOREPEAT, vk }),
                None => None,
            }
        },
        None => None,
    }
}

proof fn flag_failure_stays(parts: Seq<Seq<char>>, i: int, n: int)
    requires
        0 <= i <= n,
        modifier_flags(parts, i) is None,
    ensures
        modifier_flags(parts, n) is None,
    decreases n - i,
{
    if i < n {
        assert(modifier_flags(parts, i + 1) is None);
        flag_failure_stays(parts, i + 1, n);
    }
}

/// Reads a shortcut such as `Ctrl+Alt+V` in the system's terms.
pub fn parse_sequence(seq: &str) -> (r: Option<Accelerator>)
    ensures
        r == accelerator_of(seq@),
{
    let parts = split_on(seq, '+');
    let ghost views = split_of(seq@, '+');
    let last: usize = parts.len() - 1;
    let mut flags: u32 = 0;
    let mut i: usize = 0;
    while i < last
        invariant
            i <= last,
            last == parts@.len() - 1,
            views == text_views(parts@),
            views == split_of(seq@, '+'),
            Some(flags) == modifier_flags(views, i as int),
        decreases last - i,
    {
        let word = trim(parts[i].as_str());
        assert(views[i as int] == parts@[i as int]@);
        match flag_of_modifier(word.as_str()) {
            Some(flag) => {
                flags = flags | flag;
            },
            None => {
                proof {
                    flag_failure_stays(views, i + 1, last as int);
                }
                return None;
            },
        }
        i = i + 1;
    }
    if flags == 0 {
        return None;
    }
    let key = trim(parts[last].as_str());
    assert(views[last as int] == parts@[last as int]@);
    match virtual_key(key.as_str()) {
        Some(vk) => Some(Accelerator { modifiers: flags | MOD_NOREPEAT, vk }),
        None => None,
    }
}

/// The words of a shortcut before its key, and no `win` among them.
pub open spec fn no_win_word(seq: Seq<char>) -> bool {
    let parts = split_of(seq, '+');
    forall|i: int|
        0 <= i < parts.len() - 1 ==> ascii_lowercase_of(trimmed(#[trigger] parts[i])) != "win"@
}

/// Both platforms agree on the modifier words, and both find at least one or none.
proof fn modifiers_agree(parts: Seq<Seq<char>>, n: int, layout: ModifierLayout)
    requires
        0 <= n < parts.len(),
        layout.alt_mod != 0,
        layout.super_mod != 0,
        forall|i: int|
            0 <= i < parts.len() - 1 ==> ascii_lowercase_of(trimmed(#[trigger] parts[i]))
                != "win"@,
    ensures
        modifier_bits(parts, n, layout) is Some <==> modifier_flags(parts, n) is Some,
        modifier_bits(parts, n, layout) is Some ==> (modifier_bits(parts, n, layout)->0 == 0 <==> n
            == 0),
        modifier_flags(parts, n) is Some ==> (modifier_flags(parts, n)->0 == 0 <==> n == 0),
    decreases n,
{
    if n > 0 {
        modifiers_agree(parts, n - 1, layout);
        let word = trimmed(parts[n - 1]);
        assert(modifier_bit(word, layout) is Some <==> modifier_flag(word) is Some);
        if modifier_bits(parts, n, layout) is Some {
            let a = modifier_bits(parts, n - 1, layout)->0;
            let b = modifier_bit(word, layout)->0;
            assert(b != 0 ==> a | b != 0) by (bit_vector);
            let c = modifier_flags(parts, n - 1)->0;
            let d = modifier_flag(word)->0;
            assert(d != 0 ==> c | d != 0) by (bit_vector);
        }
    }
}

/// The two platforms accept the same shortcuts, so that settings move from one to the other:
/// same modifier words (but for `win`), same key names, at least one modifier.
pub proof fn platforms_accept_the_same_shortcuts(seq: Seq<char>, layout: ModifierLayout)
    requires
        layout.alt_mod != 0,
        layout.super_mod != 0,
        no_win_word(seq),
    ensures
        ({
            let parts = split_of(seq, '+');
            let mods = modifier_bits(parts, parts.len() - 1, layout);
            accelerator_of(seq) is Some <==> mods is Some && mods->0 != 0 && key_name_of(
                trimmed(parts.last()),
            ) is Some
        }),
{
    let parts = split_of(seq, '+');
    split_not_empty(seq, '+');
    modifiers_agree(parts, parts.len() - 1, layout);
    same_key_names(ascii_lowercase_of(trimmed(parts.last())));
}

// ---- the registrations of the message thread ----------------------------

/// The ids that the message thread holds, each with the shortcut that it is bound to.
pub struct WindowsGlobalHotkey {
    registered: Vec<(u32, Accelerator)>,
}

/// The ids of a list of registrations.
pub open spec fn ids_of(entries: Seq<(u32, Accelerator)>) -> Seq<u32> {
    Seq::new(entries.len(), |i: int| entries[i].0)
}

/// The shortcut of each id among the first `n` registrations; a later one counts.
pub open spec fn bindings(entries: Seq<(u32, Accelerator)>, n: int) -> Map<u32, Accelerator>
    decreases n,
{
    if n <= 0 {
        Map::empty()
    } else {
        bindings(entries, n - 1).insert(entries[n - 1].0, entries[n - 1].1)
    }
}

/// Exactly the listed ids are bound.
proof fn bindings_have_the_ids(entries: Seq<(u32, Accelerator)>, n: int)
    requires
        0 <= n <= entries.len(),
    ensures
        forall|id: u32|
            #![trigger bindings(entries, n).dom().contains(id)]
            bindings(entries, n).dom().contains(id) <==> exists|k: int|
                0 <= k < n && (#[trigger] entries[k]).0 == id,
    decreases n,
{
    if n > 0 {
        bindings_have_the_ids(entries, n - 1);
        assert forall|id: u32|
            #![trigger bindings(entries, n).dom().contains(id)]
            bindings(entries, n).dom().contains(id) <==> exists|k: int|
                0 <= k < n && (#[trigger] entries[k]).0 == id by {
            if id == entries[n - 1].0 {
                assert(entries[n - 1].0 == id);
            } else {
                assert(bindings(entries, n).dom().contains(id) == bindings(
                    entries,
                    n - 1,
                ).dom().contains(id));
            }
        }
    }
}

/// What stands behind the first `n` registrations does not matter to their bindings.
proof fn bindings_of_a_prefix(
    a: Seq<(u32, Accelerator)>,
    b: Seq<(u32, Accelerator)>,
    n: int,
)
    requires
        0 <= n <= a.len(),
        n <= b.len(),
        forall|k: int| 0 <= k < n ==> a[k] == b[k],
    ensures
        bindings(a, n) == bindings(b, n),
    decreases n,
{
    if n > 0 {
        bindings_of_a_prefix(a, b, n - 1);
    }
}

/// The list without any occurrence of `id`.
pub open spec fn without(ids: Seq<u32>, id: u32, n: int) -> Seq<u32>
    decreases n,
{
    if n <= 0 {
        Seq::empty()
    } else if ids[n - 1] != id {
        without(ids, id, n - 1).push(ids[n - 1])
    } else {
        without(ids, id, n - 1)
    }
}

/// The error for a shortcut that the system refused with number `code`.
pub open spec fn refusal_is(e: HotkeyError, sequence: Seq<char>, modifiers: u32, code: u32) -> bool {
    if code == ERROR_HOTKEY_ALREADY_REGISTERED {
        e matches HotkeyError::AlreadyGrabbed { key, mods } && key@ == sequence && mods
            == modifiers as u16
    } else {
        e matches HotkeyError::GrabFailed { key, mods, detail } && key@ == sequence && mods
            == modifiers as u16 && detail@ == "RegisterHotKey failed with error "@ + decimal_of(
            code as nat,
        )
    }
}

impl WindowsGlobalHotkey {
    /// The ids that are held, in the order of first registration.
    pub closed spec fn held(&self) -> Seq<u32> {
        ids_of(self.registered@)
    }

    /// The shortcut that each held id is bound to.
    pub closed spec fn bound(&self) -> Map<u32, Accelerator> {
        bindings(self.registered@, self.registered@.len() as int)
    }

    /// Law: an id is bound to a shortcut exactly while it is held.
    pub proof fn held_ids_are_bound(&self)
        ensures
            forall|id: u32| #[trigger]
                self.bound().dom().contains(id) <==> self.held().contains(id),
    {
        let n = self.registered@.len() as int;
        bindings_have_the_ids(self.registered@, n);
        assert forall|id: u32| #[trigger]
            self.bound().dom().contains(id) <==> self.held().contains(id) by {
            if self.bound().dom().contains(id) {
                let k = choose|k: int| 0 <= k < n && (#[trigger] self.registered@[k]).0 == id;
                assert(self.held()[k] == id);
            }
            if self.held().contains(id) {
                let k = choose|k: int| 0 <= k < self.held().len() && self.held()[k] == id;
                assert(self.registered@[k].0 == id);
            }
        }
    }

    /// Nothing registered yet.
    pub fn new() -> (r: Self)
        ensures
            r.held() == Seq::<u32>::empty(),
            r.bound() == Map::<u32, Accelerator>::empty(),
    {
        let r = WindowsGlobalHotkey { registered: Vec::new() };
        assert(r.held() =~= Seq::<u32>::empty());
        r
    }

    /// The shortcut that `id` is bound to.
    fn binding_of(&self, id: u32) -> (r: Option<Accelerator>)
        ensures
            r == (if self.bound().dom().contains(id) {
                Some(self.bound()[id])
            } else {
                None
            }),
            r is Some <==> self.held().contains(id),
    {
        let mut found: Option<Accelerator> = None;
        let mut i: usize = 0;
        while i < self.registered.len()
            invariant
                i <= self.registered@.len(),
                found == (if bindings(self.registered@, i as int).dom().contains(id) {
                    Some(bindings(self.registered@, i as int)[id])
                } else {
                    None
                }),
            decreases self.registered@.len() - i,
        {
            let (held, accel) = self.registered[i];
            if held == id {
                found = Some(accel);
            }
            i = i + 1;
        }
        proof {
            self.held_ids_are_bound();
        }
        found
    }

    fn drop_id(&mut self, id: u32)
        ensures
            final(self).held() == without(old(self).held(), id, old(self).held().len() as int),
            final(self).bound() == old(self).bound().remove(id),
    {
        let ghost before = self.registered@;
        let mut kept: Vec<(u32, Accelerator)> = Vec::new();
        let mut i: usize = 0;
        assert(ids_of(kept@) =~= without(ids_of(before), id, 0));
        assert(bindings(kept@, 0) =~= bindings(before, 0).remove(id));
        while i < self.registered.len()
            invariant
                i <= self.registered@.len(),
                self.registered@ == before,
                ids_of(kept@) == without(ids_of(before), id, i as int),
                bindings(kept@, kept@.len() as int) == bindings(before, i as int).remove(id),
            decreases self.registered@.len() - i,
        {
            let (held, accel) = self.registered[i];
            let ghost kept_before = kept@;
            assert(ids_of(before)[i as int] == held);
            if held != id {
                kept.push((held, accel));
                proof {
                    assert(ids_of(kept@) =~= ids_of(kept_before).push(held));
                    bindings_of_a_prefix(kept@, kept_before, kept_before.len() as int);
                    assert(bindings(before, i as int).remove(id).insert(held, accel)
                        =~= bindings(before, i + 1).remove(id));
                }
            } else {
                assert(bindings(before, i as int).remove(id) =~= bindings(
                    before,
                    i + 1,
                ).remove(id));
            }
            i = i + 1;
        }
        self.registered = kept;
    }

    /// Binds `id`, which is held, to another shortcut.
    fn rebind(&mut self, id: u32, accel: Accelerator)
        requires
            old(self).held().contains(id),
        ensures
            final(self).held() == old(self).held(),
            final(self).bound() == old(self).bound().insert(id, accel),
    {
        let ghost before = self.registered@;
        let ghost old_bound = self.bound();
        let mut i: usize = 0;
        while i < self.registered.len()
            invariant
                i <= self.registered@.len() == before.len(),
                forall|k: int| i <= k < before.len() ==> self.registered@[k] == before[k],
                ids_of(self.registered@) == ids_of(before),
                forall|other: u32|
                    bindings(self.registered@, i as int).dom().contains(other) == bindings(
                        before,
                        i as int,
                    ).dom().contains(other),
                forall|other: u32| #[trigger]
                    bindings(before, i as int).dom().contains(other) ==> bindings(
                        self.registered@,
                        i as int,
                    )[other] == (if other == id {
                        accel
                    } else {
                        bindings(before, i as int)[other]
                    }),
            decreases self.registered@.len() - i,
        {
            let (held, was) = self.registered[i];
            let ghost now = self.registered@;
            if held == id {
                self.registered.set(i, (id, accel));
            }
            proof {
                bindings_of_a_prefix(self.registered@, now, i as int);
                assert(before[i as int] == (held, was));
                assert(self.registered@[i as int].0 == held);
                assert(ids_of(self.registered@) =~= ids_of(now));
                assert(bindings(before, i + 1) == bindings(before, i as int).insert(held, was));
            }
            i = i + 1;
        }
        proof {
            bindings_have_the_ids(before, before.len() as int);
            let k = choose|k: int| 0 <= k < old(self).held().len() && old(self).held()[k] == id;
            assert(before[k].0 == id);
            assert(old_bound.dom().contains(id));
            assert(self.bound() =~= old_bound.insert(id, accel));
        }
    }

    /// Starts a registration: what to register, and whether the id must be released first
    /// because the system refuses an id that is in use.
    pub fn prepare(&self, id: u32, sequence: &str) -> (r: Result<(Accelerator, bool), HotkeyError>)
        ensures
            match r {
                Ok((accel, release_first)) => accelerator_of(sequence@) == Some(accel)
                    && release_first == self.held().contains(id),
                Err(e) => accelerator_of(sequence@) is None && (e matches HotkeyError::BadSequence(
                    text,
                ) && text@ == sequence@),
            },
    {
        match parse_sequence(sequence) {
            Some(accel) => {
                let held = self.binding_of(id).is_some();
                Ok((accel, held))
            },
            None => Err(HotkeyError::BadSequence(sequence.to_owned())),
        }
    }

    /// Ends a registration by what the system answered: nothing, or an error number. A refused
    /// id stays bound to the shortcut it had; `to_restore` names it, since it was released
    /// before.
    pub fn register_one(
        &mut self,
        id: u32,
        sequence: &str,
        accel: Accelerator,
        refusal: Option<u32>,
    ) -> (r: Result<(), HotkeyError>)
        ensures
            match refusal {
                Some(code) => (r matches Err(e) && refusal_is(
                    e,
                    sequence@,
                    accel.modifiers,
                    code,
                )) && final(self).held() == old(self).held() && final(self).bound() == old(
                    self,
                ).bound(),
                None => r == Ok::<(), HotkeyError>(()) && final(self).held() == (if old(
                    self,
                ).held().contains(id) {
                    old(self).held()
                } else {
                    old(self).held().push(id)
                }) && final(self).bound() == old(self).bound().insert(id, accel),
            },
    {
        match refusal {
            Some(code) => {
                let mods: u16 = accel.modifiers as u16;
                if code == ERROR_HOTKEY_ALREADY_REGISTERED {
                    Err(HotkeyError::AlreadyGrabbed { key: sequence.to_owned(), mods })
                } else {
                    let number = decimal(code as u64);
                    let detail = join("RegisterHotKey failed with error ", number.as_str());
                    Err(HotkeyError::GrabFailed { key: sequence.to_owned(), mods, detail })
                }
            },
            None => {
                if self.binding_of(id).is_some() {
                    self.rebind(id, accel);
                } else {
                    let ghost before = self.registered@;
                    self.registered.push((id, accel));
                    proof {
                        assert(ids_of(self.registered@) =~= ids_of(before).push(id));
                        bindings_of_a_prefix(self.registered@, before, before.len() as int);
                    }
                }
                Ok(())
            },
        }
    }

    /// The shortcut to register again for `id` after a refusal, if it had one.
    pub fn to_restore(&self, id: u32) -> (r: Option<Accelerator>)
        ensures
            r == (if self.bound().dom().contains(id) {
                Some(self.bound()[id])
            } else {
                None
            }),
    {
        self.binding_of(id)
    }

    /// Drops an id; says whether there is something to release.
    pub fn unregister_one(&mut self, id: u32) -> (r: bool)
        ensures
            r == old(self).held().contains(id),
            final(self).held() == (if r {
                without(old(self).held(), id, old(self).held().len() as int)
            } else {
                old(self).held()
            }),
            final(self).bound() == old(self).bound().remove(id),
    {
        if self.binding_of(id).is_none() {
            proof {
                self.held_ids_are_bound();
                assert(self.bound().remove(id) =~= self.bound());
            }
            return false;
        }
        self.drop_id(id);
        true
    }

    /// Drops everything; lists what to release.
    pub fn release_all(&mut self) -> (r: Vec<u32>)
        ensures
            r@ == old(self).held(),
            final(self).held() == Seq::<u32>::empty(),
            final(self).bound() == Map::<u32, Accelerator>::empty(),
    {
        let mut ids: Vec<u32> = Vec::new();
        let mut i: usize = 0;
        while i < self.registered.len()
            invariant
                i <= self.registered@.len(),
                ids@ == ids_of(self.registered@).take(i as int),
            decreases self.registered@.len() - i,
        {
            let (id, _) = self.registered[i];
            ids.push(id);
            i = i + 1;
            assert(ids@ =~= ids_of(self.registered@).take(i as int));
        }
        self.registered = Vec::new();
        assert(ids@ =~= old(self).held());
        assert(self.held() =~= Seq::<u32>::empty());
        ids
    }
}

/// What a message of the thread means.
#[derive(Debug, Clone, Copy, PartialEq, Eq, Structural)]
pub enum MessageAction {
    /// Report this id.
    Fire(u32),
    Ignore,
    /// Release everything and end.
    Quit,
}

pub const WM_QUIT: u32 = 0x0012;

pub const WM_HOTKEY: u32 = 0x0312;

/// Decides what a message means. For a hotkey the low 32 bits of its parameter are the id.
pub fn dispatch(message: u32, wparam: u64) -> (r: MessageAction)
    ensures
        r == (if message == WM_QUIT {
            MessageAction::Quit
        } else if message == WM_HOTKEY {
            MessageAction::Fire((wparam & 0xffff_ffff) as u32)
        } else {
            MessageAction::Ignore
        }),
{
    if message == WM_QUIT {
        MessageAction::Quit
    } else if message == WM_HOTKEY {
        MessageAction::Fire((wparam & 0xffff_ffff) as u32)
    } else {
        MessageAction::Ignore
    }
}

// ---- the message loop ---------------------------------------------------

/// What the message thread does next.
#[derive(Debug, Clone, Copy, PartialEq, Eq, Structural)]
pub enum PumpPhase {
    /// Take the next command out of the queue.
    TakeCommand,
    /// Take the next message that has already arrived, without waiting.
    Peek,
    /// Wait for a message.
    Block,
    /// Release everything and end.
    Exit,
}

/// What came of it.
#[derive(Debug, Clone, Copy, PartialEq, Eq, Structural)]
pub enum PumpResult {
    /// A command to register or unregister has been carried out.
    CommandDone,
    NoCommand,
    /// The queue holds a request to stop, or nobody can put anything into it any more.
    Stop,
    /// No message has arrived.
    NoMessage,
    /// A message has been handled.
    Message { quit: bool },
    /// Waiting ended with a request to quit, or failed.
    WaitEnded,
}

/// Can this result come out of this phase?
pub open spec fn pump_fits(phase: PumpPhase, result: PumpResult) -> bool {
    match phase {
        PumpPhase::TakeCommand => result is CommandDone || result is NoCommand || result is Stop,
        PumpPhase::Peek => result is NoMessage || result is Message,
        PumpPhase::Block => result is Message || result is WaitEnded,
        PumpPhase::Exit => false,
    }
}

/// The phase that follows.
pub open spec fn pump_after(phase: PumpPhase, result: PumpResult) -> PumpPhase {
    match result {
        PumpResult::CommandDone => PumpPhase::TakeCommand,
        PumpResult::NoCommand => PumpPhase::Peek,
        PumpResult::Stop => PumpPhase::Exit,
        PumpResult::NoMessage => PumpPhase::Block,
        PumpResult::Message { quit } => if quit {
            PumpPhase::Exit
        } else if phase == PumpPhase::Peek {
            PumpPhase::Peek
        } else {
            PumpPhase::TakeCommand
        },
        PumpResult::WaitEnded => PumpPhase::Exit,
    }
}

/// Decides what the message thread does next. It starts with [`PumpPhase::TakeCommand`].
pub fn next_pump_phase(phase: PumpPhase, result: PumpResult) -> (r: PumpPhase)
    requires
        pump_fits(phase, result),
    ensures
        r == pump_after(phase, result),
{
    match result {
        PumpResult::CommandDone => PumpPhase::TakeCommand,
        PumpResult::NoCommand => PumpPhase::Peek,
        PumpResult::Stop => PumpPhase::Exit,
        PumpResult::NoMessage => PumpPhase::Block,
        PumpResult::Message { quit } => if quit {
            PumpPhase::Exit
        } else if phase == PumpPhase::Peek {
            PumpPhase::Peek
        } else {
            PumpPhase::TakeCommand
        },
        PumpResult::WaitEnded => PumpPhase::Exit,
    }
}

/// The message thread waits only when no message has arrived, and looks for messages only
/// with an empty queue.
pub proof fn pump_blocks_only_when_idle(phase: PumpPhase, result: PumpResult)
    requires
        pump_fits(phase, result),
    ensures
        pump_after(phase, result) == PumpPhase::Block ==> phase == PumpPhase::Peek && result
            is NoMessage,
        pump_after(phase, result) == PumpPhase::Peek && phase != PumpPhase::Peek ==> phase
            == PumpPhase::TakeCommand && result is NoCommand,
{
}

} // verus!
