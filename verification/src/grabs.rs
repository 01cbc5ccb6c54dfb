//! The table of registered shortcuts, and which key grabs to take and to release for it.
use crate::hotkey::HotkeyError;
use crate::x11::{lock_states, parse_sequence, parsed_sequence, ModifierLayout, REAL_MODS};
use vstd::prelude::*;

verus! {

/// One live registration. The sequence is kept so that it can be read anew when the modifier
/// layout changes.
#[derive(Debug, PartialEq, Eq)]
pub struct Registration {
    pub id: u32,
    pub sequence: String,
    pub keycode: u8,
    pub base_mods: u16,
}

pub struct RegistrationView {
    pub id: u32,
    pub sequence: Seq<char>,
    pub keycode: u8,
    pub base_mods: u16,
}

impl View for Registration {
    type V = RegistrationView;

    open spec fn view(&self) -> RegistrationView {
        RegistrationView {
            id: self.id,
            sequence: self.sequence@,
            keycode: self.keycode,
            base_mods: self.base_mods,
        }
    }
}

impl Clone for Registration {
    fn clone(&self) -> (r: Self)
        ensures
            r@ == self@,
    {
        Registration {
            id: self.id,
            sequence: self.sequence.clone(),
            keycode: self.keycode,
            base_mods: self.base_mods,
        }
    }
}

/// The values of a list of registrations.
pub open spec fn registration_views(regs: Seq<Registration>) -> Seq<RegistrationView> {
    regs.map_values(|r: Registration| r@)
}

/// A key code with modifier bits: what one grab is on.
pub type Grab = (u8, u16);

// ---- which grabs stand for which registrations --------------------------

/// The grabs of one registration: its modifiers in every lock state.
pub open spec fn grabs_of(keycode: u8, base_mods: u16, locks: Seq<u16>) -> Seq<Grab> {
    locks.map_values(|l: u16| (keycode, base_mods | l))
}

/// The grabs of the first `n` registrations, one registration after the other.
pub open spec fn claimed_list(regs: Seq<RegistrationView>, locks: Seq<u16>, n: int) -> Seq<Grab>
    decreases n,
{
    if n <= 0 {
        Seq::empty()
    } else {
        claimed_list(regs, locks, n - 1) + grabs_of(
            regs[n - 1].keycode,
            regs[n - 1].base_mods,
            locks,
        )
    }
}

/// Is `g` a grab of one of the registrations?
pub open spec fn claimed(regs: Seq<RegistrationView>, locks: Seq<u16>, g: Grab) -> bool {
    exists|i: int|
        0 <= i < regs.len() && grabs_of(
            (#[trigger] regs[i]).keycode,
            regs[i].base_mods,
            locks,
        ).contains(g)
}

proof fn claimed_list_holds(regs: Seq<RegistrationView>, locks: Seq<u16>, n: int, g: Grab)
    requires
        0 <= n <= regs.len(),
    ensures
        claimed_list(regs, locks, n).contains(g) <==> exists|i: int|
            0 <= i < n && grabs_of(
                (#[trigger] regs[i]).keycode,
                regs[i].base_mods,
                locks,
            ).contains(g),
    decreases n,
{
    if n > 0 {
        claimed_list_holds(regs, locks, n - 1, g);
        let head = claimed_list(regs, locks, n - 1);
        let tail = grabs_of(regs[n - 1].keycode, regs[n - 1].base_mods, locks);
        contains_in_sum(head, tail, g);
        if head.contains(g) {
            let i = choose|i: int|
                0 <= i < n - 1 && grabs_of(
                    (#[trigger] regs[i]).keycode,
                    regs[i].base_mods,
                    locks,
                ).contains(g);
            assert(grabs_of(regs[i].keycode, regs[i].base_mods, locks).contains(g));
        }
    }
}

proof fn contains_in_sum(a: Seq<Grab>, b: Seq<Grab>, g: Grab)
    ensures
        (a + b).contains(g) <==> a.contains(g) || b.contains(g),
{
    if a.contains(g) {
        let i = choose|i: int| 0 <= i < a.len() && a[i] == g;
        assert((a + b)[i] == g);
    }
    if b.contains(g) {
        let i = choose|i: int| 0 <= i < b.len() && b[i] == g;
        assert((a + b)[a.len() + i] == g);
    }
    if (a + b).contains(g) {
        let i = choose|i: int| 0 <= i < (a + b).len() && (a + b)[i] == g;
        if i < a.len() {
            assert(a[i] == g);
        } else {
            assert(b[i - a.len()] == g);
        }
    }
}

/// Every grab that the registrations stand for.
pub fn claimed_combos(registrations: &[Registration], lock_combos: &[u16]) -> (r: Vec<Grab>)
    ensures
        r@ == claimed_list(
            registration_views(registrations@),
            lock_combos@,
            registrations@.len() as int,
        ),
{
    let ghost regs = registration_views(registrations@);
    let mut out: Vec<Grab> = Vec::new();
    let mut i: usize = 0;
    while i < registrations.len()
        invariant
            i <= registrations@.len(),
            regs == registration_views(registrations@),
            out@ == claimed_list(regs, lock_combos@, i as int),
        decreases registrations@.len() - i,
    {
        let reg = &registrations[i];
        let ghost head = out@;
        let mut j: usize = 0;
        while j < lock_combos.len()
            invariant
                j <= lock_combos@.len(),
                out@ == head + grabs_of(reg.keycode, reg.base_mods, lock_combos@).take(j as int),
            decreases lock_combos@.len() - j,
        {
            out.push((reg.keycode, reg.base_mods | lock_combos[j]));
            j = j + 1;
            assert(out@ =~= head + grabs_of(reg.keycode, reg.base_mods, lock_combos@).take(
                j as int,
            ));
        }
        assert(grabs_of(reg.keycode, reg.base_mods, lock_combos@).take(j as int) =~= grabs_of(
            reg.keycode,
            reg.base_mods,
            lock_combos@,
        ));
        assert(regs[i as int] == reg@);
        i = i + 1;
    }
    out
}

fn has_grab(grabs: &[Grab], keycode: u8, mods: u16) -> (r: bool)
    ensures
        r == grabs@.contains((keycode, mods)),
{
    let mut i: usize = 0;
    while i < grabs.len()
        invariant
            i <= grabs@.len(),
            forall|k: int| 0 <= k < i ==> #[trigger] grabs@[k] != (keycode, mods),
        decreases grabs@.len() - i,
    {
        if grabs[i].0 == keycode && grabs[i].1 == mods {
            assert(grabs@[i as int] == (keycode, mods));
            return true;
        }
        i = i + 1;
    }
    false
}

fn has_mods(combos: &[u16], mods: u16) -> (r: bool)
    ensures
        r == combos@.contains(mods),
{
    let mut i: usize = 0;
    while i < combos.len()
        invariant
            i <= combos@.len(),
            forall|k: int| 0 <= k < i ==> #[trigger] combos@[k] != mods,
        decreases combos@.len() - i,
    {
        if combos[i] == mods {
            assert(combos@[i as int] == mods);
            return true;
        }
        i = i + 1;
    }
    false
}

/// Must the old grab on `mods` be released? Not if the new set holds it too, and not if
/// another registration stands on it.
pub open spec fn retires(
    old_keycode: u8,
    mods: u16,
    new_keycode: u8,
    new_combos: Seq<u16>,
    locks: Seq<u16>,
    others: Seq<RegistrationView>,
) -> bool {
    &&& !(old_keycode == new_keycode && new_combos.contains(mods))
    &&& !claimed(others, locks, (old_keycode, mods))
}

/// The grabs of the first `n` lock states of `old` that are released.
pub open spec fn retired_list(
    old_reg: RegistrationView,
    new_keycode: u8,
    new_combos: Seq<u16>,
    locks: Seq<u16>,
    others: Seq<RegistrationView>,
    n: int,
) -> Seq<Grab>
    decreases n,
{
    if n <= 0 {
        Seq::empty()
    } else {
        let head = retired_list(old_reg, new_keycode, new_combos, locks, others, n - 1);
        let mods = old_reg.base_mods | locks[n - 1];
        if retires(old_reg.keycode, mods, new_keycode, new_combos, locks, others) {
            head.push((old_reg.keycode, mods))
        } else {
            head
        }
    }
}

/// Which grabs of `old` to release once its id stands on the new key and combinations.
pub fn combos_to_retire(
    old_reg: &Registration,
    new_keycode: u8,
    new_combos: &[u16],
    lock_combos: &[u16],
    others: &[Registration],
) -> (r: Vec<Grab>)
    ensures
        r@ == retired_list(
            old_reg@,
            new_keycode,
            new_combos@,
            lock_combos@,
            registration_views(others@),
            lock_combos@.len() as int,
        ),
{
    let owned = claimed_combos(others, lock_combos);
    let ghost views = registration_views(others@);
    let mut out: Vec<Grab> = Vec::new();
    let mut i: usize = 0;
    while i < lock_combos.len()
        invariant
            i <= lock_combos@.len(),
            views == registration_views(others@),
            owned@ == claimed_list(views, lock_combos@, views.len() as int),
            out@ == retired_list(
                old_reg@,
                new_keycode,
                new_combos@,
                lock_combos@,
                views,
                i as int,
            ),
        decreases lock_combos@.len() - i,
    {
        let mods: u16 = old_reg.base_mods | lock_combos[i];
        let is_new = old_reg.keycode == new_keycode && has_mods(new_combos, mods);
        let owned_elsewhere = has_grab(&owned, old_reg.keycode, mods);
        proof {
            claimed_list_holds(
                views,
                lock_combos@,
                views.len() as int,
                (old_reg.keycode, mods),
            );
        }
        if !is_new && !owned_elsewhere {
            out.push((old_reg.keycode, mods));
        }
        i = i + 1;
    }
    out
}

/// What the released list holds.
pub proof fn retired_list_holds(
    old_reg: RegistrationView,
    new_keycode: u8,
    new_combos: Seq<u16>,
    locks: Seq<u16>,
    others: Seq<RegistrationView>,
    n: int,
    g: Grab,
)
    requires
        0 <= n <= locks.len(),
    ensures
        retired_list(old_reg, new_keycode, new_combos, locks, others, n).contains(g) <==> grabs_of(
            old_reg.keycode,
            old_reg.base_mods,
            locks.take(n),
        ).contains(g) && retires(g.0, g.1, new_keycode, new_combos, locks, others),
    decreases n,
{
    let all = grabs_of(old_reg.keycode, old_reg.base_mods, locks.take(n));
    let list = retired_list(old_reg, new_keycode, new_combos, locks, others, n);
    if n > 0 {
        retired_list_holds(old_reg, new_keycode, new_combos, locks, others, n - 1, g);
        let before = grabs_of(old_reg.keycode, old_reg.base_mods, locks.take(n - 1));
        let head = retired_list(old_reg, new_keycode, new_combos, locks, others, n - 1);
        let last = (old_reg.keycode, old_reg.base_mods | locks[n - 1]);
        assert(all =~= before + seq![last]);
        contains_in_sum(before, seq![last], g);
        assert(seq![last].contains(g) <==> g == last) by {
            assert(seq![last][0] == last);
        }
        if retires(last.0, last.1, new_keycode, new_combos, locks, others) {
            assert(list =~= head + seq![last]);
            contains_in_sum(head, seq![last], g);
        }
    }
}

// ---- the table ----------------------------------------------------------

/// Does some registration have this id?
pub open spec fn has_registration(regs: Seq<RegistrationView>, id: u32) -> bool {
    exists|i: int| 0 <= i < regs.len() && (#[trigger] regs[i]).id == id
}

/// No id is registered twice.
pub open spec fn ids_differ(regs: Seq<RegistrationView>) -> bool {
    forall|i: int, j: int|
        0 <= i < regs.len() && 0 <= j < regs.len() && i != j ==> (#[trigger] regs[i]).id != (
        #[trigger] regs[j]).id
}

/// The registrations of other ids, in order.
pub open spec fn without_id(regs: Seq<RegistrationView>, id: u32, n: int) -> Seq<RegistrationView>
    decreases n,
{
    if n <= 0 {
        Seq::empty()
    } else if regs[n - 1].id != id {
        without_id(regs, id, n - 1).push(regs[n - 1])
    } else {
        without_id(regs, id, n - 1)
    }
}

/// The place of an id, if it is registered.
pub open spec fn place_of_id(regs: Seq<RegistrationView>, id: u32) -> Option<int> {
    if has_registration(regs, id) {
        Some(choose|i: int| 0 <= i < regs.len() && (#[trigger] regs[i]).id == id)
    } else {
        None
    }
}

/// The table with `entry` in the place of its id, or at the end if the id is new.
pub open spec fn with_entry(
    regs: Seq<RegistrationView>,
    entry: RegistrationView,
) -> Seq<RegistrationView> {
    match place_of_id(regs, entry.id) {
        Some(i) => regs.update(i, entry),
        None => regs.push(entry),
    }
}

/// The grabs to release when `id` moves to a new key and combinations.
pub open spec fn released_on_move(
    regs: Seq<RegistrationView>,
    id: u32,
    new_keycode: u8,
    new_combos: Seq<u16>,
    locks: Seq<u16>,
) -> Seq<Grab> {
    match place_of_id(regs, id) {
        Some(i) => retired_list(
            regs[i],
            new_keycode,
            new_combos,
            locks,
            without_id(regs, id, regs.len() as int),
            locks.len() as int,
        ),
        None => Seq::empty(),
    }
}

/// Of the first `n` combinations that were granted, those that nobody stands on.
pub open spec fn rolled_back(
    regs: Seq<RegistrationView>,
    keycode: u8,
    combos: Seq<u16>,
    locks: Seq<u16>,
    n: int,
) -> Seq<Grab>
    decreases n,
{
    if n <= 0 {
        Seq::empty()
    } else {
        let head = rolled_back(regs, keycode, combos, locks, n - 1);
        if claimed(regs, locks, (keycode, combos[n - 1])) {
            head
        } else {
            head.push((keycode, combos[n - 1]))
        }
    }
}

pub proof fn rolled_back_holds(
    regs: Seq<RegistrationView>,
    keycode: u8,
    combos: Seq<u16>,
    locks: Seq<u16>,
    n: int,
    g: Grab,
)
    requires
        0 <= n <= combos.len(),
    ensures
        rolled_back(regs, keycode, combos, locks, n).contains(g) <==> g.0 == keycode
            && combos.take(n).contains(g.1) && !claimed(regs, locks, g),
    decreases n,
{
    let list = rolled_back(regs, keycode, combos, locks, n);
    if n > 0 {
        rolled_back_holds(regs, keycode, combos, locks, n - 1, g);
        let head = rolled_back(regs, keycode, combos, locks, n - 1);
        let last = (keycode, combos[n - 1]);
        let t = combos.take(n);
        let s = combos.take(n - 1);
        assert(t.contains(g.1) <==> s.contains(g.1) || g.1 == combos[n - 1]) by {
            if t.contains(g.1) {
                let i = choose|i: int| 0 <= i < t.len() && t[i] == g.1;
                if i < n - 1 {
                    assert(s[i] == g.1);
                }
            }
            if s.contains(g.1) {
                let i = choose|i: int| 0 <= i < s.len() && s[i] == g.1;
                assert(t[i] == g.1);
            }
            if g.1 == combos[n - 1] {
                assert(t[n - 1] == g.1);
            }
        }
        if !claimed(regs, locks, last) {
            assert(list =~= head + seq![last]);
            contains_in_sum(head, seq![last], g);
            assert(seq![last].contains(g) <==> g == last) by {
                assert(seq![last][0] == last);
            }
        }
    }
}

/// How the server answered a grab.
#[derive(Debug)]
pub enum GrabReply {
    Granted,
    /// Another application holds the combination.
    Taken,
    /// Any other failure, in the server's words.
    Failed(String),
}

/// A registration under way: the combinations to grab, in order.
#[derive(Debug)]
pub struct RegisterPlan {
    pub id: u32,
    pub sequence: String,
    pub keycode: u8,
    pub base_mods: u16,
    pub combos: Vec<u16>,
}

/// What to do next about a registration under way.
#[derive(Debug)]
pub enum RegisterStep {
    /// Grab this combination and report the answer.
    Grab(u8, u16),
    /// Release these grabs; the registration has ended with this result.
    Done { release: Vec<Grab>, result: Result<(), HotkeyError> },
}

/// The error for a combination that was not granted.
pub open spec fn grab_error_is(
    e: HotkeyError,
    sequence: Seq<char>,
    mods: u16,
    reply: GrabReply,
) -> bool {
    match reply {
        GrabReply::Granted => false,
        GrabReply::Taken => e matches HotkeyError::AlreadyGrabbed { key, mods: m } && key@
            == sequence && m == mods,
        GrabReply::Failed(text) => e matches HotkeyError::GrabFailed { key, mods: m, detail }
            && key@ == sequence && m == mods && detail@ == text@,
    }
}

/// Turns an answer that grants nothing into the most specific error.
pub fn classify_grab_error(sequence: &str, mods: u16, reply: GrabReply) -> (r: Option<HotkeyError>)
    ensures
        match r {
            Some(e) => grab_error_is(e, sequence@, mods, reply),
            None => reply is Granted,
        },
{
    match reply {
        GrabReply::Granted => None,
        GrabReply::Taken => Some(HotkeyError::AlreadyGrabbed { key: sequence.to_owned(), mods }),
        GrabReply::Failed(detail) => Some(
            HotkeyError::GrabFailed { key: sequence.to_owned(), mods, detail },
        ),
    }
}

/// The registrations and the modifier layout they were read under.
pub struct ReaderState {
    layout: ModifierLayout,
    registrations: Vec<Registration>,
}

impl ReaderState {
    pub closed spec fn spec_layout(&self) -> ModifierLayout {
        self.layout
    }

    /// The registrations, in the order of first registration.
    pub closed spec fn table(&self) -> Seq<RegistrationView> {
        registration_views(self.registrations@)
    }

    pub open spec fn wf(&self) -> bool {
        ids_differ(self.table())
    }

    /// The combinations that a plan grabs.
    pub open spec fn plan_fits(&self, plan: &RegisterPlan) -> bool {
        &&& parsed_sequence(plan.sequence@, self.spec_layout()) == Some(
            (plan.keycode, plan.base_mods),
        )
        &&& plan.combos@ == lock_states(self.spec_layout()).map_values(
            |l: u16| plan.base_mods | l,
        )
    }

    pub fn new(layout: ModifierLayout) -> (r: Self)
        ensures
            r.wf(),
            r.spec_layout() == layout,
            r.table() == Seq::<RegistrationView>::empty(),
    {
        let r = ReaderState { layout, registrations: Vec::new() };
        assert(r.table() =~= Seq::<RegistrationView>::empty());
        r
    }

    pub fn layout(&self) -> (r: ModifierLayout)
        ensures
            r == self.spec_layout(),
    {
        self.layout
    }

    fn find(&self, id: u32) -> (r: Option<usize>)
        requires
            self.wf(),
        ensures
            match r {
                Some(i) => i < self.registrations@.len() && place_of_id(self.table(), id) == Some(
                    i as int,
                ),
                None => place_of_id(self.table(), id) is None,
            },
    {
        let mut i: usize = 0;
        while i < self.registrations.len()
            invariant
                self.wf(),
                i <= self.registrations@.len(),
                forall|k: int| 0 <= k < i ==> (#[trigger] self.table()[k]).id != id,
            decreases self.registrations@.len() - i,
        {
            assert(self.table()[i as int] == self.registrations@[i as int]@);
            if self.registrations[i].id == id {
                proof {
                    assert(has_registration(self.table(), id));
                    let p = place_of_id(self.table(), id)->0;
                    assert(self.table()[p].id == id);
                }
                return Some(i);
            }
            i = i + 1;
        }
        proof {
            if has_registration(self.table(), id) {
                let k = choose|k: int|
                    0 <= k < self.table().len() && (#[trigger] self.table()[k]).id == id;
                assert(self.table()[k].id != id);
            }
        }
        None
    }

    /// The registrations of other ids.
    fn others(&self, id: u32) -> (r: Vec<Registration>)
        ensures
            registration_views(r@) == without_id(self.table(), id, self.table().len() as int),
    {
        let mut out: Vec<Registration> = Vec::new();
        let mut i: usize = 0;
        assert(registration_views(out@) =~= without_id(self.table(), id, 0));
        while i < self.registrations.len()
            invariant
                i <= self.registrations@.len(),
                registration_views(out@) == without_id(self.table(), id, i as int),
            decreases self.registrations@.len() - i,
        {
            assert(self.table()[i as int] == self.registrations@[i as int]@);
            if self.registrations[i].id != id {
                let copy = self.registrations[i].clone();
                let ghost before = out@;
                out.push(copy);
                assert(registration_views(out@) =~= registration_views(before).push(copy@));
            }
            i = i + 1;
        }
        out
    }

    /// Reads a sequence and lists the combinations to grab for it. The first of them is to be
    /// grabbed next.
    pub fn plan_register(&self, id: u32, sequence: &str) -> (r: Result<RegisterPlan, HotkeyError>)
        ensures
            match r {
                Ok(plan) => plan.id == id && plan.sequence@ == sequence@ && self.plan_fits(&plan)
                    && plan.combos@.len() >= 1,
                Err(e) => parsed_sequence(sequence@, self.spec_layout()) is None && (e matches
                    HotkeyError::BadSequence(text) && text@ == sequence@),
            },
    {
        match parse_sequence(sequence, &self.layout) {
            Some((keycode, base_mods)) => {
                let locks = self.layout.lock_combos();
                let mut combos: Vec<u16> = Vec::new();
                let mut i: usize = 0;
                while i < locks.len()
                    invariant
                        i <= locks@.len(),
                        combos@ == locks@.take(i as int).map_values(|l: u16| base_mods | l),
                    decreases locks@.len() - i,
                {
                    combos.push(base_mods | locks[i]);
                    i = i + 1;
                    assert(combos@ =~= locks@.take(i as int).map_values(|l: u16| base_mods | l));
                }
                assert(locks@.take(i as int) =~= locks@);
                Ok(
                    RegisterPlan { id, sequence: sequence.to_owned(), keycode, base_mods, combos },
                )
            },
            None => Err(HotkeyError::BadSequence(sequence.to_owned())),
        }
    }

    /// Goes on with a registration after the answer to the grab of combination number
    /// `granted`, all combinations before it having been granted. Old grabs are released only
    /// once all new ones are held; on a refusal the new ones are given back, except those that
    /// some registration stands on.
    pub fn register_step(&mut self, plan: &RegisterPlan, granted: usize, reply: GrabReply) -> (r:
        RegisterStep)
        requires
            old(self).wf(),
            old(self).plan_fits(plan),
            granted < plan.combos@.len(),
        ensures
            final(self).wf(),
            final(self).spec_layout() == old(self).spec_layout(),
            match r {
                RegisterStep::Grab(keycode, mods) => {
                    &&& reply is Granted
                    &&& granted + 1 < plan.combos@.len()
                    &&& keycode == plan.keycode
                    &&& mods == plan.combos@[granted + 1]
                    &&& final(self).table() == old(self).table()
                },
                RegisterStep::Done { release, result: Ok(()) } => {
                    &&& reply is Granted
                    &&& granted + 1 == plan.combos@.len()
                    &&& release@ == released_on_move(
                        old(self).table(),
                        plan.id,
                        plan.keycode,
                        plan.combos@,
                        lock_states(old(self).spec_layout()),
                    )
                    &&& final(self).table() == with_entry(
                        old(self).table(),
                        (RegistrationView {
                            id: plan.id,
                            sequence: plan.sequence@,
                            keycode: plan.keycode,
                            base_mods: plan.base_mods,
                        }),
                    )
                },
                RegisterStep::Done { release, result: Err(e) } => {
                    &&& grab_error_is(e, plan.sequence@, plan.combos@[granted as int], reply)
                    &&& release@ == rolled_back(
                        old(self).table(),
                        plan.keycode,
                        plan.combos@,
                        lock_states(old(self).spec_layout()),
                        granted as int,
                    )
                    &&& final(self).table() == old(self).table()
                },
            },
    {
        let mods: u16 = plan.combos[granted];
        match classify_grab_error(plan.sequence.as_str(), mods, reply) {
            None => {},
            Some(e) => {
                let release = self.roll_back(plan, granted);
                return RegisterStep::Done { release, result: Err(e) };
            },
        }
        if granted < plan.combos.len() - 1 {
            return RegisterStep::Grab(plan.keycode, plan.combos[granted + 1]);
        }
        let release = self.enter(plan);
        RegisterStep::Done { release, result: Ok(()) }
    }

    /// Of the combinations granted so far, those to give back.
    fn roll_back(&self, plan: &RegisterPlan, granted: usize) -> (r: Vec<Grab>)
        requires
            granted <= plan.combos@.len(),
        ensures
            r@ == rolled_back(
                self.table(),
                plan.keycode,
                plan.combos@,
                lock_states(self.spec_layout()),
                granted as int,
            ),
    {
        let locks = self.layout.lock_combos();
        let owned = claimed_combos(&self.registrations, &locks);
        let ghost table = self.table();
        let mut out: Vec<Grab> = Vec::new();
        let mut i: usize = 0;
        while i < granted
            invariant
                i <= granted <= plan.combos@.len(),
                owned@ == claimed_list(table, locks@, table.len() as int),
                out@ == rolled_back(table, plan.keycode, plan.combos@, locks@, i as int),
            decreases granted - i,
        {
            let mods: u16 = plan.combos[i];
            proof {
                claimed_list_holds(table, locks@, table.len() as int, (plan.keycode, mods));
            }
            if !has_grab(&owned, plan.keycode, mods) {
                out.push((plan.keycode, mods));
            }
            i = i + 1;
        }
        out
    }

    /// Puts a fully granted registration into the table and lists the old grabs to release.
    fn enter(&mut self, plan: &RegisterPlan) -> (r: Vec<Grab>)
        requires
            old(self).wf(),
        ensures
            final(self).wf(),
            final(self).spec_layout() == old(self).spec_layout(),
            r@ == released_on_move(
                old(self).table(),
                plan.id,
                plan.keycode,
                plan.combos@,
                lock_states(old(self).spec_layout()),
            ),
            final(self).table() == with_entry(
                old(self).table(),
                (RegistrationView {
                    id: plan.id,
                    sequence: plan.sequence@,
                    keycode: plan.keycode,
                    base_mods: plan.base_mods,
                }),
            ),
    {
        let locks = self.layout.lock_combos();
        let ghost before = self.registrations@;
        let entry = Registration {
            id: plan.id,
            sequence: plan.sequence.clone(),
            keycode: plan.keycode,
            base_mods: plan.base_mods,
        };
        let ghost put = entry@;
        match self.find(plan.id) {
            Some(i) => {
                let others = self.others(plan.id);
                let release = combos_to_retire(
                    &self.registrations[i],
                    plan.keycode,
                    &plan.combos,
                    &locks,
                    &others,
                );
                self.registrations.set(i, entry);
                proof {
                    assert(registration_views(self.registrations@) =~= registration_views(
                        before,
                    ).update(i as int, put));
                    assert forall|a: int, b: int|
                        0 <= a < self.table().len() && 0 <= b < self.table().len() && a
                            != b implies (#[trigger] self.table()[a]).id != (
                    #[trigger] self.table()[b]).id by {
                        assert(registration_views(before)[a].id != registration_views(before)[b].id);
                        assert(registration_views(before)[i as int].id == put.id);
                    }
                }
                release
            },
            None => {
                self.registrations.push(entry);
                proof {
                    assert(registration_views(self.registrations@) =~= registration_views(
                        before,
                    ).push(put));
                    assert forall|a: int, b: int|
                        0 <= a < self.table().len() && 0 <= b < self.table().len() && a
                            != b implies (#[trigger] self.table()[a]).id != (
                    #[trigger] self.table()[b]).id by {
                        let old_views = registration_views(before);
                        if a == before.len() {
                            assert(old_views[b].id != put.id);
                        } else if b == before.len() {
                            assert(old_views[a].id != put.id);
                        } else {
                            assert(old_views[a].id != old_views[b].id);
                        }
                    }
                }
                Vec::new()
            },
        }
    }

    /// Drops the registration of `id` and lists the grabs to release: all of its own that no
    /// other registration stands on. Nothing happens if the id is not registered.
    pub fn unregister(&mut self, id: u32) -> (r: Vec<Grab>)
        requires
            old(self).wf(),
        ensures
            final(self).wf(),
            final(self).spec_layout() == old(self).spec_layout(),
            final(self).table() == without_id(
                old(self).table(),
                id,
                old(self).table().len() as int,
            ),
            r@ == (match place_of_id(old(self).table(), id) {
                Some(i) => retired_list(
                    old(self).table()[i],
                    old(self).table()[i].keycode,
                    Seq::empty(),
                    lock_states(old(self).spec_layout()),
                    without_id(old(self).table(), id, old(self).table().len() as int),
                    lock_states(old(self).spec_layout()).len() as int,
                ),
                None => Seq::empty(),
            }),
    {
        let ghost table = self.table();
        let i = match self.find(id) {
            Some(i) => i,
            None => {
                proof {
                    without_absent_id(table, id, table.len() as int);
                }
                return Vec::new();
            },
        };
        let locks = self.layout.lock_combos();
        let others = self.others(id);
        let none: Vec<u16> = Vec::new();
        let release = combos_to_retire(
            &self.registrations[i],
            self.registrations[i].keycode,
            &none,
            &locks,
            &others,
        );
        assert(none@ =~= Seq::<u16>::empty());
        self.registrations = others;
        proof {
            without_id_differs(table, id, table.len() as int);
        }
        release
    }

    /// Takes all registrations out, with the grabs to release for them under the layout they
    /// were made under.
    pub fn take_all(&mut self) -> (r: (Vec<Grab>, Vec<Registration>))
        ensures
            final(self).wf(),
            final(self).spec_layout() == old(self).spec_layout(),
            final(self).table() == Seq::<RegistrationView>::empty(),
            r.0@ == claimed_list(
                old(self).table(),
                lock_states(old(self).spec_layout()),
                old(self).table().len() as int,
            ),
            registration_views(r.1@) == old(self).table(),
    {
        let locks = self.layout.lock_combos();
        let release = claimed_combos(&self.registrations, &locks);
        let mut previous: Vec<Registration> = Vec::new();
        std::mem::swap(&mut previous, &mut self.registrations);
        assert(self.table() =~= Seq::<RegistrationView>::empty());
        (release, previous)
    }

    /// Takes over a newly resolved layout.
    pub fn set_layout(&mut self, layout: ModifierLayout)
        requires
            old(self).wf(),
        ensures
            final(self).wf(),
            final(self).spec_layout() == layout,
            final(self).table() == old(self).table(),
    {
        self.layout = layout;
    }

    /// Keeps an entry that could not be grabbed again, so that the table still says what was
    /// asked for. An id that is registered already stays as it is.
    pub fn keep(&mut self, entry: Registration)
        requires
            old(self).wf(),
        ensures
            final(self).wf(),
            final(self).spec_layout() == old(self).spec_layout(),
            final(self).table() == (if has_registration(old(self).table(), entry.id) {
                old(self).table()
            } else {
                old(self).table().push(entry@)
            }),
    {
        let ghost before = self.registrations@;
        let ghost kept = entry@;
        match self.find(entry.id) {
            Some(_) => {},
            None => {
                self.registrations.push(entry);
                proof {
                    assert(registration_views(self.registrations@) =~= registration_views(
                        before,
                    ).push(kept));
                    assert forall|a: int, b: int|
                        0 <= a < self.table().len() && 0 <= b < self.table().len() && a
                            != b implies (#[trigger] self.table()[a]).id != (
                    #[trigger] self.table()[b]).id by {
                        let old_views = registration_views(before);
                        if a == before.len() {
                            assert(old_views[b].id != kept.id);
                        } else if b == before.len() {
                            assert(old_views[a].id != kept.id);
                        } else {
                            assert(old_views[a].id != old_views[b].id);
                        }
                    }
                }
            },
        }
    }

    /// The id that a key press belongs to, if any.
    pub fn matching(&self, keycode: u8, state: u16) -> (r: Option<u32>)
        ensures
            r == matched(self.table(), keycode, state, self.spec_layout(), 0),
    {
        match_registration(&self.registrations, keycode, state, &self.layout)
    }
}

pub proof fn without_id_holds(regs: Seq<RegistrationView>, id: u32, n: int, x: RegistrationView)
    requires
        0 <= n <= regs.len(),
    ensures
        without_id(regs, id, n).contains(x) <==> x.id != id && regs.take(n).contains(x),
    decreases n,
{
    if n > 0 {
        without_id_holds(regs, id, n - 1, x);
        let head = without_id(regs, id, n - 1);
        let list = without_id(regs, id, n);
        let t = regs.take(n);
        let s = regs.take(n - 1);
        let last = regs[n - 1];
        assert(t.contains(x) <==> s.contains(x) || x == last) by {
            if t.contains(x) {
                let i = choose|i: int| 0 <= i < t.len() && t[i] == x;
                if i < n - 1 {
                    assert(s[i] == x);
                }
            }
            if s.contains(x) {
                let i = choose|i: int| 0 <= i < s.len() && s[i] == x;
                assert(t[i] == x);
            }
            if x == last {
                assert(t[n - 1] == x);
            }
        }
        if last.id != id {
            assert(list.contains(x) <==> head.contains(x) || x == last) by {
                if list.contains(x) {
                    let i = choose|i: int| 0 <= i < list.len() && list[i] == x;
                    if i < head.len() {
                        assert(head[i] == x);
                    }
                }
                if head.contains(x) {
                    let i = choose|i: int| 0 <= i < head.len() && head[i] == x;
                    assert(list[i] == x);
                }
                if x == last {
                    assert(list[head.len() as int] == x);
                }
            }
        }
    }
}

/// Taking out an id keeps ids different.
proof fn without_id_differs(regs: Seq<RegistrationView>, id: u32, n: int)
    requires
        0 <= n <= regs.len(),
        ids_differ(regs),
    ensures
        ids_differ(without_id(regs, id, n)),
        forall|i: int|
            0 <= i < without_id(regs, id, n).len() ==> regs.take(n).contains(
                #[trigger] without_id(regs, id, n)[i],
            ),
    decreases n,
{
    if n > 0 {
        without_id_differs(regs, id, n - 1);
        let head = without_id(regs, id, n - 1);
        let list = without_id(regs, id, n);
        let s = regs.take(n - 1);
        assert forall|i: int| 0 <= i < list.len() implies regs.take(n).contains(#[trigger] list[i]) by {
            if i < head.len() {
                assert(list[i] == head[i]);
                assert(s.contains(head[i]));
                let k = choose|k: int| 0 <= k < s.len() && s[k] == head[i];
                assert(regs.take(n)[k] == list[i]);
            } else {
                assert(regs.take(n)[n - 1] == list[i]);
            }
        }
        assert forall|i: int, j: int|
            0 <= i < list.len() && 0 <= j < list.len() && i != j implies (#[trigger] list[i]).id
            != (#[trigger] list[j]).id by {
            if i < head.len() && j < head.len() {
                assert(head[i].id != head[j].id);
            } else if i < head.len() {
                assert(s.contains(head[i]));
                let k = choose|k: int| 0 <= k < s.len() && s[k] == head[i];
                assert(regs[k].id != regs[n - 1].id);
            } else {
                assert(s.contains(head[j]));
                let k = choose|k: int| 0 <= k < s.len() && s[k] == head[j];
                assert(regs[k].id != regs[n - 1].id);
            }
        }
    }
}

proof fn without_absent_id(regs: Seq<RegistrationView>, id: u32, n: int)
    requires
        0 <= n <= regs.len(),
        !has_registration(regs, id),
    ensures
        without_id(regs, id, n) == regs.take(n),
    decreases n,
{
    if n > 0 {
        without_absent_id(regs, id, n - 1);
        assert(regs[n - 1].id != id);
        assert(regs.take(n) =~= regs.take(n - 1).push(regs[n - 1]));
    } else {
        assert(regs.take(0) =~= Seq::<RegistrationView>::empty());
    }
    assert(n == regs.len() ==> regs.take(n) =~= regs);
}

// ---- matching a key press -----------------------------------------------

/// The modifiers of a key press that count: no lock keys, no pointer buttons, no group.
pub open spec fn effective_mods(state: u16, layout: ModifierLayout) -> u16 {
    state & REAL_MODS & !layout.lock_mods
}

/// The id of the first registration from place `i` on that the key press belongs to.
pub open spec fn matched(
    regs: Seq<RegistrationView>,
    keycode: u8,
    state: u16,
    layout: ModifierLayout,
    i: int,
) -> Option<u32>
    decreases regs.len() - i,
{
    if i < 0 || i >= regs.len() {
        None
    } else if regs[i].keycode == keycode && regs[i].base_mods == effective_mods(state, layout) {
        Some(regs[i].id)
    } else {
        matched(regs, keycode, state, layout, i + 1)
    }
}

/// The id of the first registration that a key press belongs to, if any.
pub fn match_registration(
    registrations: &[Registration],
    keycode: u8,
    state: u16,
    layout: &ModifierLayout,
) -> (r: Option<u32>)
    ensures
        r == matched(registration_views(registrations@), keycode, state, *layout, 0),
{
    let ghost regs = registration_views(registrations@);
    let mods: u16 = state & REAL_MODS & !layout.lock_mods;
    let mut i: usize = 0;
    while i < registrations.len()
        invariant
            i <= registrations@.len(),
            regs == registration_views(registrations@),
            mods == effective_mods(state, *layout),
            matched(regs, keycode, state, *layout, 0) == matched(
                regs,
                keycode,
                state,
                *layout,
                i as int,
            ),
        decreases registrations@.len() - i,
    {
        assert(regs[i as int] == registrations@[i as int]@);
        if registrations[i].keycode == keycode && registrations[i].base_mods == mods {
            return Some(registrations[i].id);
        }
        i = i + 1;
    }
    None
}

} // verus!
