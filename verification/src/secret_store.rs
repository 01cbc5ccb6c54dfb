//! Remembering one secret per account in the credential store of the operating system.
use crate::text::same_text;
use secrecy::zeroize::Zeroize;
use vstd::prelude::*;

verus! {

/// Why a secret could not be read or kept.
#[derive(Debug, PartialEq, Eq)]
pub enum SecretStoreError {
    /// There is no credential store.
    Unavailable(String),
    /// The credential store failed.
    Backend(String),
}

/// Calls `Zeroize::zeroize` on a text. Claimed: nothing is left of it, and the call returns
/// without a panic. That the memory behind it is overwritten is not stated: memory is no part of
/// a text's value.
#[verifier::external_body]
fn wipe(text: &mut String)
    ensures
        final(text)@ == Seq::<char>::empty(),
    opens_invariants none
    no_unwind
{
    text.zeroize()
}

/// A text that is not to be shown: it cannot be printed, is read in one way only, and is wiped
/// when it is dropped.
pub struct Secret {
    text: String,
}

impl View for Secret {
    type V = Seq<char>;

    closed spec fn view(&self) -> Seq<char> {
        self.text@
    }
}

impl Secret {
    pub fn new(text: String) -> (r: Self)
        ensures
            r@ == text@,
    {
        Secret { text }
    }

    /// The text itself.
    pub fn expose_secret(&self) -> (r: &str)
        ensures
            r@ == self@,
    {
        self.text.as_str()
    }

    /// Wipes the text.
    pub fn zeroize(&mut self)
        ensures
            final(self)@ == Seq::<char>::empty(),
        opens_invariants none
        no_unwind
    {
        wipe(&mut self.text);
    }
}

impl Drop for Secret {
    fn drop(&mut self)
        ensures
            final(self)@ == Seq::<char>::empty(),
        opens_invariants none
        no_unwind
    {
        self.zeroize();
    }
}

/// The values of what a read gave.
pub open spec fn secret_view(r: Option<Secret>) -> Option<Seq<char>> {
    match r {
        Some(s) => Some(s@),
        None => None,
    }
}

/// A credential store. That there is no entry is no failure: reading gives nothing, deleting
/// does nothing.
pub trait SecretStore: Send {
    /// Can the store be used now?
    fn is_available(&mut self) -> bool;

    fn get(&mut self, account: &str) -> Result<Option<Secret>, SecretStoreError>;

    fn set(&mut self, account: &str, secret: &Secret) -> Result<(), SecretStoreError>;

    fn delete(&mut self, account: &str) -> Result<(), SecretStoreError>;
}

// ---- in memory ----------------------------------------------------------

/// A store that forgets everything when the process ends.
pub struct NullSecretStore {
    entries: Vec<(String, String)>,
}

/// What a list of entries holds: for each account its first entry.
spec fn held(entries: Seq<(String, String)>) -> Map<Seq<char>, Seq<char>>
    decreases entries.len(),
{
    if entries.len() == 0 {
        Map::empty()
    } else {
        held(entries.drop_first()).insert(entries[0].0@, entries[0].1@)
    }
}

/// The account of the entry is not that of the others.
spec fn accounts_differ(entries: Seq<(String, String)>) -> bool {
    forall|i: int, j: int|
        0 <= i < j < entries.len() ==> (#[trigger] entries[i]).0@ != (#[trigger] entries[j]).0@
}

/// Entry `i` is what is held for its account.
proof fn entry_is_held(entries: Seq<(String, String)>, i: int)
    requires
        accounts_differ(entries),
        0 <= i < entries.len(),
    ensures
        held(entries).dom().contains(entries[i].0@),
        held(entries)[entries[i].0@] == entries[i].1@,
    decreases entries.len(),
{
    let rest = entries.drop_first();
    if i > 0 {
        assert(accounts_differ(rest)) by {
            assert forall|a: int, b: int| 0 <= a < b < rest.len() implies (#[trigger] rest[a]).0@
                != (#[trigger] rest[b]).0@ by {
                assert(rest[a] == entries[a + 1] && rest[b] == entries[b + 1]);
            }
        }
        assert(rest[i - 1] == entries[i]);
        entry_is_held(rest, i - 1);
        assert(entries[0].0@ != entries[i].0@);
    }
}

/// Where no entry has the account, nothing is held for it.
proof fn absent_is_not_held(entries: Seq<(String, String)>, account: Seq<char>)
    requires
        forall|i: int| 0 <= i < entries.len() ==> (#[trigger] entries[i]).0@ != account,
    ensures
        !held(entries).dom().contains(account),
    decreases entries.len(),
{
    if entries.len() > 0 {
        let rest = entries.drop_first();
        assert forall|i: int| 0 <= i < rest.len() implies (#[trigger] rest[i]).0@ != account by {
            assert(rest[i] == entries[i + 1]);
        }
        absent_is_not_held(rest, account);
        assert(entries[0].0@ != account);
    }
}

/// Taking out entry `i` takes its account out of what is held.
proof fn removing_forgets(entries: Seq<(String, String)>, i: int)
    requires
        accounts_differ(entries),
        0 <= i < entries.len(),
    ensures
        held(entries.remove(i)) == held(entries).remove(entries[i].0@),
        accounts_differ(entries.remove(i)),
    decreases entries.len(),
{
    let account = entries[i].0@;
    let rest = entries.drop_first();
    let left = entries.remove(i);
    assert(accounts_differ(left)) by {
        assert forall|a: int, b: int| 0 <= a < b < left.len() implies (#[trigger] left[a]).0@ != (
        #[trigger] left[b]).0@ by {
            let x = if a < i {
                a
            } else {
                a + 1
            };
            let y = if b < i {
                b
            } else {
                b + 1
            };
            assert(left[a] == entries[x] && left[b] == entries[y]);
        }
    }
    assert(accounts_differ(rest)) by {
        assert forall|a: int, b: int| 0 <= a < b < rest.len() implies (#[trigger] rest[a]).0@ != (
        #[trigger] rest[b]).0@ by {
            assert(rest[a] == entries[a + 1] && rest[b] == entries[b + 1]);
        }
    }
    if i == 0 {
        assert(left =~= rest);
        assert forall|k: int| 0 <= k < rest.len() implies (#[trigger] rest[k]).0@ != account by {
            assert(rest[k] == entries[k + 1]);
            assert(entries[0].0@ != entries[k + 1].0@);
        }
        absent_is_not_held(rest, account);
        assert(held(left) =~= held(entries).remove(account));
    } else {
        assert(rest[i - 1] == entries[i]);
        removing_forgets(rest, i - 1);
        assert(left.drop_first() =~= rest.remove(i - 1));
        assert(left[0] == entries[0]);
        assert(entries[0].0@ != entries[i].0@);
        assert(held(left) =~= held(entries).remove(account));
    }
}

impl View for NullSecretStore {
    type V = Map<Seq<char>, Seq<char>>;

    closed spec fn view(&self) -> Map<Seq<char>, Seq<char>> {
        held(self.entries@)
    }
}

impl NullSecretStore {
    /// No account occurs twice.
    #[verifier::type_invariant]
    spec fn wf(self) -> bool {
        accounts_differ(self.entries@)
    }

    /// An empty store.
    pub fn new() -> (r: Self)
        ensures
            r@ == Map::<Seq<char>, Seq<char>>::empty(),
    {
        NullSecretStore { entries: Vec::new() }
    }

    fn find(&self, account: &str) -> (r: Option<usize>)
        ensures
            match r {
                Some(i) => i < self.entries@.len() && self.entries@[i as int].0@ == account@,
                None => forall|i: int|
                    0 <= i < self.entries@.len() ==> (#[trigger] self.entries@[i]).0@ != account@,
            },
    {
        let mut i: usize = 0;
        while i < self.entries.len()
            invariant
                i <= self.entries@.len(),
                forall|j: int| 0 <= j < i ==> (#[trigger] self.entries@[j]).0@ != account@,
            decreases self.entries@.len() - i,
        {
            if same_text(self.entries[i].0.as_str(), account) {
                return Some(i);
            }
            i = i + 1;
        }
        None
    }
}

impl Default for NullSecretStore {
    fn default() -> (r: Self)
        ensures
            r@ == Map::<Seq<char>, Seq<char>>::empty(),
    {
        NullSecretStore::new()
    }
}

impl SecretStore for NullSecretStore {
    fn is_available(&mut self) -> (r: bool)
        ensures
            r,
            *final(self) == *old(self),
    {
        true
    }

    fn get(&mut self, account: &str) -> (r: Result<Option<Secret>, SecretStoreError>)
        ensures
            r is Ok,
            secret_view(r->Ok_0) == (if old(self)@.dom().contains(account@) {
                Some(old(self)@[account@])
            } else {
                None
            }),
            *final(self) == *old(self),
    {
        proof {
            use_type_invariant(&*self);
        }
        match self.find(account) {
            Some(i) => {
                proof {
                    entry_is_held(self.entries@, i as int);
                }
                Ok(Some(Secret::new(self.entries[i].1.clone())))
            },
            None => {
                proof {
                    absent_is_not_held(self.entries@, account@);
                }
                Ok(None)
            },
        }
    }

    fn set(&mut self, account: &str, secret: &Secret) -> (r: Result<(), SecretStoreError>)
        ensures
            r == Ok::<(), SecretStoreError>(()),
            final(self)@ == old(self)@.insert(account@, secret@),
    {
        proof {
            use_type_invariant(&*self);
        }
        let ghost before = self.entries@;
        let mut kept: Vec<(String, String)> = Vec::new();
        std::mem::swap(&mut kept, &mut self.entries);
        let mut place: usize = 0;
        let mut found = false;
        while place < kept.len() && !found
            invariant
                kept@ == before,
                place <= before.len(),
                found ==> place < before.len() && before[place as int].0@ == account@,
                !found ==> forall|j: int|
                    0 <= j < place ==> (#[trigger] before[j]).0@ != account@,
            decreases before.len() - place + (if found {
                0int
            } else {
                1int
            }),
        {
            if same_text(kept[place].0.as_str(), account) {
                found = true;
            } else {
                place = place + 1;
            }
        }
        if found {
            proof {
                removing_forgets(before, place as int);
            }
            let _ = kept.remove(place);
        } else {
            proof {
                absent_is_not_held(before, account@);
            }
        }
        let ghost left = kept@;
        assert(held(left) =~= held(before).remove(account@));
        assert forall|j: int| 0 <= j < left.len() implies (#[trigger] left[j]).0@ != account@ by {
            if left[j].0@ == account@ {
                entry_is_held(left, j);
            }
        }
        kept.insert(0, (account.to_owned(), secret.expose_secret().to_owned()));
        proof {
            let after = kept@;
            assert(after.drop_first() =~= left);
            assert forall|a: int, b: int| 0 <= a < b < after.len() implies (#[trigger] after[a]).0@
                != (#[trigger] after[b]).0@ by {
                assert(after[b] == left[b - 1]);
                if a > 0 {
                    assert(after[a] == left[a - 1]);
                }
            }
            assert(held(after) =~= held(before).insert(account@, secret@));
        }
        self.entries = kept;
        Ok(())
    }

    fn delete(&mut self, account: &str) -> (r: Result<(), SecretStoreError>)
        ensures
            r == Ok::<(), SecretStoreError>(()),
            final(self)@ == old(self)@.remove(account@),
    {
        proof {
            use_type_invariant(&*self);
        }
        let ghost before = self.entries@;
        match self.find(account) {
            Some(i) => {
                proof {
                    removing_forgets(before, i as int);
                }
                let mut kept: Vec<(String, String)> = Vec::new();
                std::mem::swap(&mut kept, &mut self.entries);
                let _ = kept.remove(i);
                self.entries = kept;
            },
            None => {
                proof {
                    absent_is_not_held(before, account@);
                    assert(held(before) =~= held(before).remove(account@));
                }
            },
        }
        Ok(())
    }
}

// ---- none ---------------------------------------------------------------

/// Stands in where there is no credential store: everything fails, and it says so beforehand.
#[derive(Debug)]
pub struct UnavailableSecretStore;

fn no_store() -> (r: SecretStoreError)
    ensures
        r is Unavailable,
        r->Unavailable_0@ == "no credential store on this session"@,
{
    SecretStoreError::Unavailable("no credential store on this session".to_owned())
}

impl SecretStore for UnavailableSecretStore {
    fn is_available(&mut self) -> (r: bool)
        ensures
            !r,
    {
        false
    }

    fn get(&mut self, _account: &str) -> (r: Result<Option<Secret>, SecretStoreError>)
        ensures
            r matches Err(SecretStoreError::Unavailable(why)) && why@
                == "no credential store on this session"@,
    {
        Err(no_store())
    }

    fn set(&mut self, _account: &str, _secret: &Secret) -> (r: Result<(), SecretStoreError>)
        ensures
            r matches Err(SecretStoreError::Unavailable(why)) && why@
                == "no credential store on this session"@,
    {
        Err(no_store())
    }

    fn delete(&mut self, _account: &str) -> (r: Result<(), SecretStoreError>)
        ensures
            r matches Err(SecretStoreError::Unavailable(why)) && why@
                == "no credential store on this session"@,
    {
        Err(no_store())
    }
}

// ---- the operating system's ---------------------------------------------

/// What the operating system's store answered.
#[derive(Debug, PartialEq, Eq)]
pub enum KeyringReply {
    /// It did as asked; a read gave this secret.
    Done(String),
    /// There is no such entry.
    NoEntry,
    /// The platform failed.
    PlatformFailure(String),
    /// The store is not there, or is still locked.
    NoStorageAccess(String),
    /// Anything else.
    Other(String),
}

/// What went wrong, in words.
pub open spec fn complaint(reply: KeyringReply) -> Option<Seq<char>> {
    match reply {
        KeyringReply::PlatformFailure(why) => Some(why@),
        KeyringReply::NoStorageAccess(why) => Some(why@),
        KeyringReply::Other(why) => Some(why@),
        _ => None,
    }
}

fn failure(reply: KeyringReply) -> (r: SecretStoreError)
    requires
        complaint(reply) is Some,
    ensures
        r is Backend,
        Some(r->Backend_0@) == complaint(reply),
{
    match reply {
        KeyringReply::PlatformFailure(why) => SecretStoreError::Backend(why),
        KeyringReply::NoStorageAccess(why) => SecretStoreError::Backend(why),
        KeyringReply::Other(why) => SecretStoreError::Backend(why),
        _ => SecretStoreError::Backend(String::new()),
    }
}

/// The result of reading an entry.
pub fn read_result(reply: KeyringReply) -> (r: Result<Option<Secret>, SecretStoreError>)
    ensures
        match r {
            Ok(Some(s)) => reply matches KeyringReply::Done(text) && s@ == text@,
            Ok(None) => reply is NoEntry,
            Err(SecretStoreError::Backend(why)) => complaint(reply) == Some(why@),
            Err(_) => false,
        },
{
    match reply {
        KeyringReply::Done(text) => Ok(Some(Secret::new(text))),
        KeyringReply::NoEntry => Ok(None),
        other => Err(failure(other)),
    }
}

/// The result of writing an entry.
pub fn write_result(reply: KeyringReply) -> (r: Result<(), SecretStoreError>)
    ensures
        match r {
            Ok(()) => reply is Done,
            Err(SecretStoreError::Backend(why)) => complaint(reply) == Some(why@) || (
            reply is NoEntry && why@ == "No matching entry found in secure storage"@),
            Err(_) => false,
        },
{
    match reply {
        KeyringReply::Done(_) => Ok(()),
        KeyringReply::NoEntry => Err(
            SecretStoreError::Backend("No matching entry found in secure storage".to_owned()),
        ),
        other => Err(failure(other)),
    }
}

/// The result of deleting an entry. One that is not there counts as deleted.
pub fn delete_result(reply: KeyringReply) -> (r: Result<(), SecretStoreError>)
    ensures
        match r {
            Ok(()) => reply is Done || reply is NoEntry,
            Err(SecretStoreError::Backend(why)) => complaint(reply) == Some(why@),
            Err(_) => false,
        },
{
    match reply {
        KeyringReply::Done(_) => Ok(()),
        KeyringReply::NoEntry => Ok(()),
        other => Err(failure(other)),
    }
}

/// Does the answer to a read of an entry that nobody wrote show that the store works? That
/// there is no such entry is the answer of a store that does.
pub open spec fn answers(reply: KeyringReply) -> bool {
    !(reply is PlatformFailure || reply is NoStorageAccess)
}

/// What is known of the operating system's store. That it works is remembered; that it does not
/// is asked again every time, since it may only be locked and be unlocked a moment later.
#[derive(Debug)]
pub struct KeyringSecretStore {
    available: bool,
}

impl KeyringSecretStore {
    /// Is it known that the store works?
    pub closed spec fn known(&self) -> bool {
        self.available
    }

    pub fn new() -> (r: Self)
        ensures
            !r.known(),
    {
        KeyringSecretStore { available: false }
    }

    /// Must the store be asked whether it works?
    pub fn must_probe(&self) -> (r: bool)
        ensures
            r == !self.known(),
    {
        !self.available
    }

    /// Takes note of the answer, where `None` means that the store could not even be asked, and
    /// says whether the store can be used.
    pub fn note_probe(&mut self, reply: Option<KeyringReply>) -> (r: bool)
        ensures
            r == (old(self).known() || (reply matches Some(a) && answers(a))),
            final(self).known() == r,
    {
        if self.available {
            return true;
        }
        let works = match reply {
            Some(KeyringReply::PlatformFailure(_)) => false,
            Some(KeyringReply::NoStorageAccess(_)) => false,
            Some(_) => true,
            None => false,
        };
        self.available = works;
        works
    }
}

impl Default for KeyringSecretStore {
    fn default() -> (r: Self)
        ensures
            !r.known(),
    {
        KeyringSecretStore::new()
    }
}

} // verus!
