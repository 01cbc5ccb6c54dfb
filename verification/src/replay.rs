//! Registering every shortcut anew, after the keys were mapped anew or the connection to the
//! display server was made anew.
use crate::grabs::{
    claimed_list, grab_error_is, ids_differ, registration_views, released_on_move, rolled_back,
    Grab, GrabReply, ReaderState, RegisterPlan, RegisterStep, Registration, RegistrationView,
};
use crate::hotkey::HotkeyError;
use crate::x11::{lock_states, parsed_sequence, ModifierLayout};
use vstd::prelude::*;

verus! {

/// The shortcuts to register anew, and how far that has come.
pub struct Replay {
    entries: Vec<Registration>,
    at: usize,
    plan: Option<RegisterPlan>,
    granted: usize,
}

/// What to do next: give back these grabs, then ask for this one. Nothing to ask for means
/// that all is done. `failed` names what could not be registered, and why.
pub struct ReplayStep {
    pub release: Vec<Grab>,
    pub grab: Option<Grab>,
    pub failed: Vec<(u32, HotkeyError)>,
}

/// The first entry from place `i` on whose sequence can be read.
pub open spec fn next_readable(
    entries: Seq<RegistrationView>,
    i: int,
    layout: ModifierLayout,
) -> int
    decreases entries.len() - i,
{
    if i >= entries.len() || parsed_sequence(entries[i].sequence, layout) is Some {
        i
    } else {
        next_readable(entries, i + 1, layout)
    }
}

/// The entry as its sequence reads under `layout`.
pub open spec fn read_anew(entry: RegistrationView, layout: ModifierLayout) -> RegistrationView {
    match parsed_sequence(entry.sequence, layout) {
        Some((keycode, base_mods)) => RegistrationView { keycode, base_mods, ..entry },
        None => entry,
    }
}

/// The combinations to grab for the entry.
pub open spec fn combos_anew(entry: RegistrationView, layout: ModifierLayout) -> Seq<u16> {
    lock_states(layout).map_values(|l: u16| read_anew(entry, layout).base_mods | l)
}

/// What to ask for at place `i`: the first combination of the entry there, if there is one.
pub open spec fn first_grab(
    entries: Seq<RegistrationView>,
    i: int,
    layout: ModifierLayout,
) -> Option<Grab> {
    if i < entries.len() {
        Some((read_anew(entries[i], layout).keycode, combos_anew(entries[i], layout)[0]))
    } else {
        None
    }
}

/// The entries from `from` up to `to` are reported as not to be read, behind the first `n`
/// reports.
pub open spec fn reported_unreadable(
    failed: Seq<(u32, HotkeyError)>,
    n: int,
    entries: Seq<RegistrationView>,
    from: int,
    to: int,
) -> bool {
    &&& failed.len() == n + (to - from)
    &&& forall|i: int|
        n <= i < failed.len() ==> (#[trigger] failed[i]).0 == entries[from + (i - n)].id && (
        failed[i].1 matches HotkeyError::BadSequence(text) && text@ == entries[from + (i
            - n)].sequence)
}

/// An entry that has been dealt with: as it was, or as its sequence reads now.
pub open spec fn kept_or_read_anew(
    was: RegistrationView,
    is: RegistrationView,
    layout: ModifierLayout,
) -> bool {
    is == was || is == read_anew(was, layout)
}

impl Replay {
    /// Everything that is registered anew, in order.
    pub closed spec fn all(&self) -> Seq<RegistrationView> {
        registration_views(self.entries@)
    }

    /// How many entries have been dealt with.
    pub closed spec fn done(&self) -> int {
        self.at as int
    }

    /// How many combinations of the entry at hand have been granted.
    pub closed spec fn held(&self) -> int {
        self.granted as int
    }

    /// Has the first combination been asked for?
    pub closed spec fn begun(&self) -> bool {
        self.plan is Some
    }

    /// What has been dealt with is in the table, in order, with its id and its sequence, and
    /// nothing else is.
    pub closed spec fn fits(&self, state: &ReaderState) -> bool {
        &&& state.wf()
        &&& ids_differ(self.all())
        &&& 0 <= self.at <= self.entries@.len()
        &&& state.table().len() == self.at
        &&& forall|k: int|
            0 <= k < self.at ==> kept_or_read_anew(
                self.all()[k],
                #[trigger] state.table()[k],
                state.spec_layout(),
            )
        &&& self.plan matches Some(plan) ==> {
            &&& self.at < self.entries@.len()
            &&& plan.id == self.all()[self.at as int].id
            &&& plan.sequence@ == self.all()[self.at as int].sequence
            &&& state.plan_fits(&plan)
            &&& self.granted < plan.combos@.len()
        }
    }

    /// Takes everything out of the table to register it anew. Gives the grabs to release:
    /// those of the table where the connection is still there, none where the server dropped
    /// them together with it.
    pub fn start(state: &mut ReaderState, connected: bool) -> (r: (Self, Vec<Grab>))
        requires
            old(state).wf(),
        ensures
            final(state).spec_layout() == old(state).spec_layout(),
            final(state).table() == Seq::<RegistrationView>::empty(),
            r.0.fits(final(state)),
            r.0.all() == old(state).table(),
            r.0.done() == 0,
            !r.0.begun(),
            r.1@ == (if connected {
                claimed_list(
                    old(state).table(),
                    lock_states(old(state).spec_layout()),
                    old(state).table().len() as int,
                )
            } else {
                Seq::empty()
            }),
    {
        let (grabs, entries) = state.take_all();
        let replay = Replay { entries, at: 0, plan: None, granted: 0 };
        let release: Vec<Grab> = if connected {
            grabs
        } else {
            Vec::new()
        };
        (replay, release)
    }

    /// Goes on under the layout that has been resolved since.
    pub fn begin(&mut self, state: &mut ReaderState, layout: ModifierLayout) -> (r: ReplayStep)
        requires
            old(self).fits(old(state)),
            old(self).done() == 0,
            !old(self).begun(),
        ensures
            final(self).fits(final(state)),
            final(self).all() == old(self).all(),
            final(state).spec_layout() == layout,
            ({
                let all = old(self).all();
                let j = next_readable(all, 0, layout);
                &&& final(self).done() == j
                &&& final(self).held() == 0
                &&& final(self).begun() == (j < all.len())
                &&& final(state).table() == all.take(j)
                &&& r.release@ == Seq::<Grab>::empty()
                &&& r.grab == first_grab(all, j, layout)
                &&& reported_unreadable(r.failed@, 0, all, 0, j)
            }),
    {
        state.set_layout(layout);
        let mut failed: Vec<(u32, HotkeyError)> = Vec::new();
        let grab = self.advance(state, &mut failed);
        assert(state.table() =~= self.all().take(self.at as int));
        ReplayStep { release: Vec::new(), grab, failed }
    }

    /// Keeps every entry that cannot be read, up to one that can; says what to ask for.
    fn advance(&mut self, state: &mut ReaderState, failed: &mut Vec<(u32, HotkeyError)>) -> (r:
        Option<Grab>)
        requires
            old(self).fits(old(state)),
            !old(self).begun(),
        ensures
            final(self).fits(final(state)),
            final(self).all() == old(self).all(),
            final(state).spec_layout() == old(state).spec_layout(),
            ({
                let all = old(self).all();
                let layout = old(state).spec_layout();
                let from = old(self).done();
                let j = next_readable(all, from, layout);
                &&& from <= j <= all.len()
                &&& final(self).done() == j
                &&& final(self).held() == 0
                &&& final(self).begun() == (j < all.len())
                &&& final(state).table() == old(state).table() + all.subrange(from, j)
                &&& r == first_grab(all, j, layout)
                &&& final(failed)@.take(old(failed)@.len() as int) == old(failed)@
                &&& reported_unreadable(final(failed)@, old(failed)@.len() as int, all, from, j)
            }),
    {
        let ghost all = self.all();
        let ghost from = self.done();
        let ghost layout = state.spec_layout();
        let ghost table = state.table();
        let ghost reports = failed@;
        self.granted = 0;
        assert(table + all.subrange(from, from) =~= table);
        assert(failed@.take(reports.len() as int) =~= reports);
        while self.at < self.entries.len()
            invariant
                all == old(self).all(),
                from == old(self).done(),
                layout == old(state).spec_layout(),
                table == old(state).table(),
                reports == old(failed)@,
                self.fits(state),
                self.plan is None,
                self.granted == 0,
                self.all() == all,
                0 <= from <= self.at,
                state.spec_layout() == layout,
                next_readable(all, from, layout) == next_readable(all, self.at as int, layout),
                state.table() == table + all.subrange(from, self.at as int),
                failed@.take(reports.len() as int) == reports,
                reported_unreadable(failed@, reports.len() as int, all, from, self.at as int),
            decreases self.entries@.len() - self.at,
        {
            let ghost k = self.at as int;
            let entry = self.entries[self.at].clone();
            assert(all[k] == entry@);
            match state.plan_register(entry.id, entry.sequence.as_str()) {
                Ok(plan) => {
                    let grab: Grab = (plan.keycode, plan.combos[0]);
                    assert(plan.combos@ =~= combos_anew(all[k], layout));
                    self.plan = Some(plan);
                    return Some(grab);
                },
                Err(e) => {
                    let ghost before = state.table();
                    let ghost reported = failed@;
                    failed.push((entry.id, e));
                    proof {
                        if crate::grabs::has_registration(before, entry.id) {
                            let i = choose|i: int|
                                0 <= i < before.len() && (#[trigger] before[i]).id == entry.id;
                            assert(kept_or_read_anew(all[i], before[i], layout));
                            assert(all[i].id != all[k].id);
                        }
                    }
                    state.keep(entry);
                    self.at = self.at + 1;
                    proof {
                        assert(state.table() == before.push(all[k]));
                        assert forall|i: int| 0 <= i < self.at implies kept_or_read_anew(
                            all[i],
                            #[trigger] state.table()[i],
                            layout,
                        ) by {
                            if i < k {
                                assert(kept_or_read_anew(all[i], before[i], layout));
                            }
                        }
                        assert(state.table() =~= table + all.subrange(from, k + 1));
                        assert(failed@.take(reports.len() as int) =~= reported.take(
                            reports.len() as int,
                        ));
                    }
                },
            }
        }
        None
    }

    /// Goes on after the answer to the grab that was asked for. A refused entry stays in the
    /// table as it was, so that the table still says what was asked for.
    pub fn answered(&mut self, state: &mut ReaderState, reply: GrabReply) -> (r: ReplayStep)
        requires
            old(self).fits(old(state)),
            old(self).begun(),
        ensures
            final(self).fits(final(state)),
            final(self).all() == old(self).all(),
            final(state).spec_layout() == old(state).spec_layout(),
            ({
                let all = old(self).all();
                let layout = old(state).spec_layout();
                let locks = lock_states(layout);
                let k = old(self).done();
                let held = old(self).held();
                let entry = all[k];
                let anew = read_anew(entry, layout);
                let combos = combos_anew(entry, layout);
                let j = next_readable(all, k + 1, layout);
                &&& 0 <= k < all.len()
                &&& 0 <= held < combos.len()
                &&& if reply is Granted && held + 1 < combos.len() {
                    &&& final(self).done() == k
                    &&& final(self).held() == held + 1
                    &&& final(self).begun()
                    &&& final(state).table() == old(state).table()
                    &&& r.release@ == Seq::<Grab>::empty()
                    &&& r.grab == Some((anew.keycode, combos[held + 1]))
                    &&& r.failed@ == Seq::<(u32, HotkeyError)>::empty()
                } else {
                    &&& final(self).done() == j
                    &&& final(self).held() == 0
                    &&& final(self).begun() == (j < all.len())
                    &&& r.grab == first_grab(all, j, layout)
                    &&& if reply is Granted {
                        &&& final(state).table() == old(state).table().push(anew) + all.subrange(
                            k + 1,
                            j,
                        )
                        &&& r.release@ == released_on_move(
                            old(state).table(),
                            entry.id,
                            anew.keycode,
                            combos,
                            locks,
                        )
                        &&& reported_unreadable(r.failed@, 0, all, k + 1, j)
                    } else {
                        &&& final(state).table() == old(state).table().push(entry) + all.subrange(
                            k + 1,
                            j,
                        )
                        &&& r.release@ == rolled_back(
                            old(state).table(),
                            anew.keycode,
                            combos,
                            locks,
                            held,
                        )
                        &&& r.failed@.len() >= 1
                        &&& r.failed@[0].0 == entry.id
                        &&& grab_error_is(r.failed@[0].1, entry.sequence, combos[held], reply)
                        &&& reported_unreadable(r.failed@, 1, all, k + 1, j)
                    }
                }
            }),
    {
        let ghost all = self.all();
        let ghost k = self.done();
        let ghost layout = state.spec_layout();
        let ghost table = state.table();
        let plan = match self.plan.take() {
            Some(plan) => plan,
            None => {
                return ReplayStep { release: Vec::new(), grab: None, failed: Vec::new() };
            },
        };
        assert(plan.combos@ =~= combos_anew(all[k], layout));
        assert(self.granted < plan.combos.len() && self.at < self.entries.len());
        proof {
            if crate::grabs::has_registration(table, plan.id) {
                let i = choose|i: int| 0 <= i < table.len() && (#[trigger] table[i]).id == plan.id;
                assert(kept_or_read_anew(all[i], table[i], layout));
                assert(all[i].id != all[k].id);
            }
        }
        let mut failed: Vec<(u32, HotkeyError)> = Vec::new();
        let release = match state.register_step(&plan, self.granted, reply) {
            RegisterStep::Grab(keycode, mods) => {
                self.plan = Some(plan);
                self.granted = self.granted + 1;
                return ReplayStep { release: Vec::new(), grab: Some((keycode, mods)), failed };
            },
            RegisterStep::Done { release, result: Ok(()) } => release,
            RegisterStep::Done { release, result: Err(e) } => {
                let entry = self.entries[self.at].clone();
                assert(all[k] == entry@);
                failed.push((entry.id, e));
                state.keep(entry);
                release
            },
        };
        self.at = self.at + 1;
        let ghost reports = failed@;
        proof {
            assert(state.table() == table.push(
                if reports.len() == 0 {
                    read_anew(all[k], layout)
                } else {
                    all[k]
                },
            ));
            assert forall|i: int| 0 <= i < self.at implies kept_or_read_anew(
                all[i],
                #[trigger] state.table()[i],
                layout,
            ) by {
                if i < k {
                    assert(kept_or_read_anew(all[i], table[i], layout));
                }
            }
        }
        let grab = self.advance(state, &mut failed);
        proof {
            if reports.len() == 1 {
                assert(failed@.take(1)[0] == failed@[0]);
            }
        }
        ReplayStep { release, grab, failed }
    }
}

/// Law: registering anew loses nothing. When all is done, the table holds every entry that was
/// taken out, in order and with its id and sequence, either as it was or as its sequence reads
/// under the new layout.
pub proof fn registering_anew_loses_nothing(replay: Replay, state: ReaderState, k: int)
    requires
        replay.fits(&state),
        replay.done() == replay.all().len(),
    ensures
        state.table().len() == replay.all().len(),
        0 <= k < replay.all().len() ==> state.table()[k].id == replay.all()[k].id
            && state.table()[k].sequence == replay.all()[k].sequence && kept_or_read_anew(
            replay.all()[k],
            state.table()[k],
            state.spec_layout(),
        ),
{
    if 0 <= k < replay.all().len() {
        assert(kept_or_read_anew(replay.all()[k], state.table()[k], state.spec_layout()));
    }
}

} // verus!
