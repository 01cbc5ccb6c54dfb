//! The parts of the application put together, and the order in which it starts.
use crate::clipboard_history::{first_of, Captured, ClipboardHistory};
use crate::crypto::EncryptionState;
use crate::database::Database;
use crate::devices::{Clipboard, PasteKeys};
use crate::error::DataError;
use crate::hotkey::GlobalHotkey;
use crate::paster::Paster;
use crate::secret_store::SecretStore;
use crate::settings::{Settings, SettingsView};
use crate::text::{ascii_alnum, chars_of, is_ascii_alnum, join, text_of};
use vstd::prelude::*;

verus! {

/// The account under which the database passphrase is remembered.
pub const PASSPHRASE_ACCOUNT: &'static str = "database-passphrase";

/// Everything that lives as long as the application. `D` is the clipboard together with the
/// keyboard, `H` the hotkeys, `S` the credential store and `G` the guard that keeps a second
/// instance out.
pub struct AppContext<D, H, S, G> {
    pub db: Database,
    pub paster: Paster<D>,
    pub hotkey: H,
    pub clipboard_history: ClipboardHistory,
    /// Where the database file lies: a conversion works on it with the database closed.
    pub db_path: String,
    pub secret_store: S,
    pub single_instance: Option<G>,
    /// What is in force. [`Self::set_settings`] changes it together with the services that go
    /// by it.
    pub settings: Settings,
}

impl<D: Clipboard + PasteKeys, H: GlobalHotkey, S: SecretStore, G> AppContext<D, H, S, G> {
    /// The settings in force.
    pub open spec fn active(&self) -> SettingsView {
        self.settings@
    }

    /// Do the services work by the settings in force?
    pub open spec fn in_step(&self) -> bool {
        let s = self.active();
        &&& self.paster.config() == (s.paste.delay_ms, s.paste.restore_clipboard)
        &&& self.clipboard_history.is_enabled() == s.clipboard_history.enabled
        &&& self.clipboard_history.bound() == s.clipboard_history.max_items
        &&& self.clipboard_history.wf()
    }

    /// Puts the parts together.
    pub fn new(
        db: Database,
        device: D,
        hotkey: H,
        settings: Settings,
        single_instance: Option<G>,
        db_path: String,
        secret_store: S,
    ) -> (r: Self)
        ensures
            r.in_step(),
            r.active() == settings@,
            r.db == db,
            r.paster.spec_device() == device,
            r.hotkey == hotkey,
            r.clipboard_history.captured() == Seq::<Captured>::empty(),
            r.single_instance == single_instance,
            r.db_path == db_path,
            r.secret_store == secret_store,
    {
        let paster = Paster::new(device, settings.paste.delay_ms, settings.paste.restore_clipboard);
        let clipboard_history = ClipboardHistory::new(
            settings.clipboard_history.max_items as usize,
            settings.clipboard_history.enabled,
        );
        AppContext {
            db,
            paster,
            hotkey,
            clipboard_history,
            db_path,
            secret_store,
            single_instance,
            settings,
        }
    }

    /// A copy of the settings in force.
    pub fn settings(&self) -> (r: Settings)
        ensures
            r@ == self.active(),
    {
        self.settings.clone()
    }

    /// Puts settings in force, in every part that goes by them. A smaller history drops its
    /// oldest entries at once.
    pub fn set_settings(&mut self, s: Settings)
        requires
            old(self).clipboard_history.wf(),
        ensures
            final(self).in_step(),
            final(self).active() == s@,
            final(self).clipboard_history.captured() == first_of(
                old(self).clipboard_history.captured(),
                s@.clipboard_history.max_items as nat,
            ),
            final(self).paster.spec_device() == old(self).paster.spec_device(),
            final(self).db == old(self).db,
            final(self).hotkey == old(self).hotkey,
            final(self).single_instance == old(self).single_instance,
            final(self).db_path == old(self).db_path,
            final(self).secret_store == old(self).secret_store,
    {
        self.paster.set_config(s.paste.delay_ms, s.paste.restore_clipboard);
        self.clipboard_history.set_enabled(s.clipboard_history.enabled);
        self.clipboard_history.set_max_items(s.clipboard_history.max_items as usize);
        self.settings = s;
    }
}

// ---- one instance -------------------------------------------------------

/// How many characters of the data directory's path the instance key keeps.
pub const INSTANCE_KEY_TAIL: usize = 180;

/// The character that stands in the instance key for `c`.
pub open spec fn key_char(c: char) -> char {
    if is_ascii_alnum(c) {
        c
    } else {
        '_'
    }
}

/// The end of the path, with nothing in it but letters, digits and underscores.
pub open spec fn key_tail(data_dir: Seq<char>) -> Seq<char> {
    let plain = data_dir.map_values(|c: char| key_char(c));
    if plain.len() > INSTANCE_KEY_TAIL {
        plain.skip(plain.len() - INSTANCE_KEY_TAIL)
    } else {
        plain
    }
}

/// The name by which instances that use this data directory find each other. The path cannot
/// be used as it is: on some systems such a name holds no backslash and is of limited length.
/// What is kept of a long path is its end, which tells users apart.
pub fn instance_key_for(data_dir: &str) -> (r: String)
    ensures
        r@ == "fastpaste_instance_"@ + key_tail(data_dir@),
{
    let chars = chars_of(data_dir);
    let mut plain: Vec<char> = Vec::new();
    let mut i: usize = 0;
    while i < chars.len()
        invariant
            i <= chars@.len(),
            plain@ == chars@.take(i as int).map_values(|c: char| key_char(c)),
        decreases chars@.len() - i,
    {
        let c = if ascii_alnum(chars[i]) {
            chars[i]
        } else {
            '_'
        };
        plain.push(c);
        i = i + 1;
        assert(plain@ =~= chars@.take(i as int).map_values(|c: char| key_char(c)));
    }
    assert(chars@.take(i as int) =~= data_dir@);
    let from: usize = if plain.len() > INSTANCE_KEY_TAIL {
        plain.len() - INSTANCE_KEY_TAIL
    } else {
        0
    };
    let tail = text_of(&plain, from, plain.len());
    assert(tail@ =~= key_tail(data_dir@));
    join("fastpaste_instance_", tail.as_str())
}

/// An instance key is a plain name of limited length. Two paths that are not too long and get
/// the same key are of the same length and agree in every letter and digit.
pub proof fn instance_keys_are_plain(a: Seq<char>, b: Seq<char>)
    ensures
        key_tail(a).len() <= INSTANCE_KEY_TAIL,
        forall|i: int|
            0 <= i < key_tail(a).len() ==> is_ascii_alnum(#[trigger] key_tail(a)[i]) || key_tail(
                a,
            )[i] == '_',
        a.len() <= INSTANCE_KEY_TAIL && b.len() <= INSTANCE_KEY_TAIL && key_tail(a) == key_tail(b)
            ==> a.len() == b.len() && forall|i: int|
            0 <= i < a.len() && is_ascii_alnum(#[trigger] a[i]) ==> a[i] == b[i],
{
    if a.len() <= INSTANCE_KEY_TAIL && b.len() <= INSTANCE_KEY_TAIL && key_tail(a) == key_tail(b) {
        assert(key_tail(a).len() == a.len() && key_tail(b).len() == b.len());
        assert forall|i: int| 0 <= i < a.len() && is_ascii_alnum(#[trigger] a[i]) implies a[i]
            == b[i] by {
            assert(key_tail(a)[i] == key_char(a[i]));
            assert(key_tail(b)[i] == key_char(b[i]));
        }
    }
}

// ---- starting -----------------------------------------------------------

/// Why the application does not start.
#[derive(Debug, PartialEq, Eq)]
pub enum StartupError {
    /// It could not be found out whether another instance is running.
    Guard(String),
    /// Another instance is running.
    AlreadyRunning,
    /// A file or a directory could not be made or read.
    Io(String),
    Data(DataError),
    /// There is no clipboard to work with, and without one there is nothing to do.
    Clipboard(String),
    /// The database needs a passphrase and there is none.
    Encrypted,
    /// The application was already started from what was found out.
    AlreadyConsumed,
}

/// What has to be found out next before the database is opened.
#[derive(Debug, PartialEq, Eq)]
pub enum Startup {
    /// Take the guard that keeps a second instance out.
    TakeGuard,
    /// Make the data directory.
    CreateDirectory,
    /// Remove what a conversion may have left behind.
    CleanUp,
    /// Find out whether the database is encrypted.
    ReadEncryption,
    /// Load the settings.
    LoadSettings,
    /// Everything is known.
    Ready,
    Failed(StartupError),
}

/// What came of the step.
#[derive(Debug, PartialEq, Eq)]
pub enum StartupEvent {
    /// The guard was taken, or is held by another instance; or it failed.
    Guard(Result<bool, String>),
    /// A directory was made or the settings were loaded; or it failed.
    Done(Result<(), String>),
    CleanedUp(Result<bool, DataError>),
    Encryption(Result<EncryptionState, DataError>),
}

/// What follows a step.
pub open spec fn startup_next(now: Startup, event: StartupEvent) -> Startup {
    match (now, event) {
        (Startup::TakeGuard, StartupEvent::Guard(Ok(true))) => Startup::CreateDirectory,
        (Startup::TakeGuard, StartupEvent::Guard(Ok(false))) => Startup::Failed(
            StartupError::AlreadyRunning,
        ),
        (Startup::TakeGuard, StartupEvent::Guard(Err(why))) => Startup::Failed(
            StartupError::Guard(why),
        ),
        (Startup::CreateDirectory, StartupEvent::Done(Ok(()))) => Startup::CleanUp,
        (Startup::CreateDirectory, StartupEvent::Done(Err(why))) => Startup::Failed(
            StartupError::Io(why),
        ),
        (Startup::CleanUp, StartupEvent::CleanedUp(Ok(_))) => Startup::ReadEncryption,
        (Startup::CleanUp, StartupEvent::CleanedUp(Err(e))) => Startup::Failed(
            StartupError::Data(e),
        ),
        (Startup::ReadEncryption, StartupEvent::Encryption(Ok(_))) => Startup::LoadSettings,
        (Startup::ReadEncryption, StartupEvent::Encryption(Err(e))) => Startup::Failed(
            StartupError::Data(e),
        ),
        (Startup::LoadSettings, StartupEvent::Done(Ok(()))) => Startup::Ready,
        (Startup::LoadSettings, StartupEvent::Done(Err(why))) => Startup::Failed(
            StartupError::Io(why),
        ),
        (other, _) => other,
    }
}

impl Startup {
    /// Takes what came of the current step and says what is next. What does not belong to the
    /// current step changes nothing.
    pub fn next(self, event: StartupEvent) -> (r: Self)
        ensures
            r == startup_next(self, event),
    {
        match self {
            Startup::TakeGuard => match event {
                StartupEvent::Guard(Ok(single)) => if single {
                    Startup::CreateDirectory
                } else {
                    Startup::Failed(StartupError::AlreadyRunning)
                },
                StartupEvent::Guard(Err(why)) => Startup::Failed(StartupError::Guard(why)),
                _ => Startup::TakeGuard,
            },
            Startup::CreateDirectory => match event {
                StartupEvent::Done(Ok(())) => Startup::CleanUp,
                StartupEvent::Done(Err(why)) => Startup::Failed(StartupError::Io(why)),
                _ => Startup::CreateDirectory,
            },
            Startup::CleanUp => match event {
                StartupEvent::CleanedUp(Ok(_)) => Startup::ReadEncryption,
                StartupEvent::CleanedUp(Err(e)) => Startup::Failed(StartupError::Data(e)),
                _ => Startup::CleanUp,
            },
            Startup::ReadEncryption => match event {
                StartupEvent::Encryption(Ok(_)) => Startup::LoadSettings,
                StartupEvent::Encryption(Err(e)) => Startup::Failed(StartupError::Data(e)),
                _ => Startup::ReadEncryption,
            },
            Startup::LoadSettings => match event {
                StartupEvent::Done(Ok(())) => Startup::Ready,
                StartupEvent::Done(Err(why)) => Startup::Failed(StartupError::Io(why)),
                _ => Startup::LoadSettings,
            },
            Startup::Ready => Startup::Ready,
            Startup::Failed(e) => Startup::Failed(e),
        }
    }
}

/// Nothing is done before the guard is held: the only way on from taking it is having it.
pub proof fn guard_comes_first(event: StartupEvent)
    ensures
        startup_next(Startup::TakeGuard, event) matches Startup::Failed(_) || startup_next(
            Startup::TakeGuard,
            event,
        ) is TakeGuard || (startup_next(Startup::TakeGuard, event) is CreateDirectory && event
            == StartupEvent::Guard(Ok(true))),
{
}

/// What was found out before the database is opened. It holds the guard meanwhile, so that no
/// second instance starts while the user is asked for the passphrase.
pub struct StartupProbe<G> {
    pub encryption: EncryptionState,
    pub settings: Settings,
    pub data_dir: String,
    pub db_path: String,
    pub single_instance: Option<G>,
}

impl<G> StartupProbe<G> {
    /// Refuses to start without a passphrase where one is needed.
    pub fn require_unencrypted(&self) -> (r: Result<(), StartupError>)
        ensures
            r == (if self.encryption == EncryptionState::Encrypted {
                Err::<(), StartupError>(StartupError::Encrypted)
            } else {
                Ok(())
            }),
    {
        match self.encryption {
            EncryptionState::Encrypted => Err(StartupError::Encrypted),
            _ => Ok(()),
        }
    }
}

impl<D: Clipboard + PasteKeys, H: GlobalHotkey, S: SecretStore, G> AppContext<D, H, S, G> {
    /// Starts the application with the database and the devices, if they could be opened. The
    /// guard is handed over last: after a failed attempt it is still held, and the user can be
    /// asked for the passphrase again.
    pub fn build_unlocked_from(
        probe: &mut StartupProbe<G>,
        db: Result<Database, DataError>,
        device: Result<D, String>,
        hotkey: H,
        secret_store: S,
    ) -> (r: Result<Self, StartupError>)
        ensures
            match r {
                Ok(ctx) => {
                    &&& db is Ok && ctx.db == db->Ok_0
                    &&& device is Ok && ctx.paster.spec_device() == device->Ok_0
                    &&& ctx.hotkey == hotkey
                    &&& ctx.secret_store == secret_store
                    &&& old(probe).single_instance is Some
                    &&& ctx.single_instance == old(probe).single_instance
                    &&& ctx.in_step()
                    &&& ctx.active() == old(probe).settings@
                    &&& ctx.clipboard_history.captured() == Seq::<Captured>::empty()
                    &&& ctx.db_path@ == old(probe).db_path@
                    &&& *final(probe) == (StartupProbe { single_instance: None, ..*old(probe) })
                },
                Err(StartupError::Data(e)) => db == Err::<Database, DataError>(e) && *final(probe)
                    == *old(probe),
                Err(StartupError::Clipboard(why)) => db is Ok && device == Err::<D, String>(why)
                    && *final(probe) == *old(probe),
                Err(StartupError::AlreadyConsumed) => db is Ok && device is Ok && old(
                    probe,
                ).single_instance is None && *final(probe) == *old(probe),
                Err(_) => false,
            },
    {
        let db = match db {
            Ok(db) => db,
            Err(e) => {
                return Err(StartupError::Data(e));
            },
        };
        let device = match device {
            Ok(device) => device,
            Err(why) => {
                return Err(StartupError::Clipboard(why));
            },
        };
        match probe.single_instance.take() {
            Some(guard) => Ok(
                AppContext::new(
                    db,
                    device,
                    hotkey,
                    probe.settings.clone(),
                    Some(guard),
                    probe.db_path.clone(),
                    secret_store,
                ),
            ),
            None => Err(StartupError::AlreadyConsumed),
        }
    }
}

} // verus!
