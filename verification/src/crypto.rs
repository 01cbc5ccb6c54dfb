//! Encryption of the database file: finding out whether there is any, what a key turned out to
//! be, and the steps that rewrite a file under another key.
use crate::error::{DataError, StorageFault};
use crate::text::{join, same_text};
use vstd::prelude::*;

verus! {

/// Is a database file readable as it is, does it need a key, or is there none?
#[derive(Clone, Copy, PartialEq, Eq, Debug, Structural)]
pub enum EncryptionState {
    /// There is no file: a new installation.
    Absent,
    /// Readable without a key.
    Plaintext,
    /// Needs a passphrase.
    Encrypted,
}

/// Is this what the storage engine reports of a file whose start makes no sense to it? A wrong
/// key and a file that never was a database look the same to it.
pub fn is_not_a_database(e: &StorageFault) -> (r: bool)
    ensures
        r == (e is NotADatabase),
{
    match e {
        StorageFault::NotADatabase(_) => true,
        _ => false,
    }
}

/// Does the storage engine know encryption? One that does gives its cipher's version.
pub fn has_sqlcipher(cipher_version: Option<String>) -> (r: bool)
    ensures
        r == (cipher_version matches Some(v) && v@.len() > 0),
{
    match cipher_version {
        Some(v) => {
            proof {
                reveal_strlit("");
                if v@.len() == 0 {
                    assert(v@ =~= ""@);
                }
            }
            !same_text(v.as_str(), "")
        },
        None => false,
    }
}

/// What a first read without a key tells of a file.
pub open spec fn state_of(
    exists: bool,
    probe: Result<(), StorageFault>,
    sqlcipher: bool,
) -> Result<EncryptionState, DataError> {
    if !exists {
        Ok(EncryptionState::Absent)
    } else {
        match probe {
            Ok(()) => Ok(EncryptionState::Plaintext),
            Err(StorageFault::NotADatabase(_)) => if sqlcipher {
                Ok(EncryptionState::Encrypted)
            } else {
                Err(DataError::EncryptedButUnsupported)
            },
            Err(e) => Err(DataError::Sqlite(e)),
        }
    }
}

/// What a first read without a key tells of a file. `sqlcipher` says whether the engine knows
/// encryption.
pub fn encryption_state(exists: bool, probe: Result<(), StorageFault>, sqlcipher: bool) -> (r:
    Result<EncryptionState, DataError>)
    ensures
        r == state_of(exists, probe, sqlcipher),
{
    if !exists {
        return Ok(EncryptionState::Absent);
    }
    match probe {
        Ok(()) => Ok(EncryptionState::Plaintext),
        Err(e) => if is_not_a_database(&e) {
            if sqlcipher {
                Ok(EncryptionState::Encrypted)
            } else {
                Err(DataError::EncryptedButUnsupported)
            }
        } else {
            Err(DataError::Sqlite(e))
        },
    }
}

/// What a first read after the key was given tells of the key.
pub open spec fn key_verdict(probe: Result<(), StorageFault>, sqlcipher: bool) -> Result<
    (),
    DataError,
> {
    match probe {
        Ok(()) => Ok(()),
        Err(StorageFault::NotADatabase(_)) => if sqlcipher {
            Err(DataError::WrongPassphrase)
        } else {
            Err(DataError::EncryptedButUnsupported)
        },
        Err(e) => Err(DataError::Sqlite(e)),
    }
}

/// What a first read after the key was given tells of the key. Giving a key always succeeds;
/// only a read shows whether it was the right one.
pub fn apply_key(probe: Result<(), StorageFault>, sqlcipher: bool) -> (r: Result<(), DataError>)
    ensures
        r == key_verdict(probe, sqlcipher),
{
    match probe {
        Ok(()) => Ok(()),
        Err(e) => if is_not_a_database(&e) {
            if sqlcipher {
                Err(DataError::WrongPassphrase)
            } else {
                Err(DataError::EncryptedButUnsupported)
            }
        } else {
            Err(DataError::Sqlite(e))
        },
    }
}

/// A file that is found to be encrypted is refused without its key, and one that is found
/// readable is not.
pub proof fn encrypted_files_need_their_key(probe: Result<(), StorageFault>, sqlcipher: bool)
    ensures
        state_of(true, probe, sqlcipher) == Ok::<EncryptionState, DataError>(
            EncryptionState::Encrypted,
        ) <==> key_verdict(probe, sqlcipher) == Err::<(), DataError>(DataError::WrongPassphrase),
        state_of(true, probe, sqlcipher) == Ok::<EncryptionState, DataError>(
            EncryptionState::Plaintext,
        ) <==> key_verdict(probe, sqlcipher) is Ok,
{
}

/// The file that a conversion writes first. It lies beside the original, so that renaming it
/// takes one step.
pub fn conversion_temp_path(path: &str) -> (r: String)
    ensures
        r@ == path@ + ".new"@,
{
    join(path, ".new")
}

/// Refuses to work on a file that is not there: opening it would make an empty one.
pub fn require_file(exists: bool, path: &str) -> (r: Result<(), DataError>)
    ensures
        match r {
            Ok(()) => exists,
            Err(DataError::NotFound(p)) => !exists && p@ == path@,
            Err(_) => false,
        },
{
    if exists {
        Ok(())
    } else {
        Err(DataError::NotFound(path.to_owned()))
    }
}

/// What came of removing a file.
#[derive(Debug, PartialEq, Eq)]
pub enum Removal {
    Removed,
    /// There was no such file.
    Missing,
    Failed(String),
}

/// Settles the removal of what a conversion may have left behind when it was cut short. Says
/// whether there was anything; that there was not is no failure.
pub fn clean_orphaned_conversion(removal: Removal) -> (r: Result<bool, DataError>)
    ensures
        match r {
            Ok(found) => removal !is Failed && found == (removal is Removed),
            Err(DataError::Io(why)) => removal matches Removal::Failed(words) && why@ == words@,
            Err(_) => false,
        },
{
    match removal {
        Removal::Removed => Ok(true),
        Removal::Missing => Ok(false),
        Removal::Failed(why) => Err(DataError::Io(why)),
    }
}

// ---- converting ---------------------------------------------------------

/// Where a conversion stands: what is being done now.
#[derive(Debug, PartialEq, Eq)]
pub enum Conversion {
    /// Removing a copy that an earlier attempt left behind.
    Clearing,
    /// Opening the original under its key and counting its items.
    Counting,
    /// Writing the copy under the new key.
    Exporting { expected: i64 },
    /// Opening the copy under the new key and counting its items.
    Recounting { expected: i64 },
    /// Making sure the copy is on disk.
    Syncing,
    /// Removing the copy, because of this error.
    Discarding(DataError),
    /// Putting the copy in the original's place.
    Renaming,
    /// Over.
    Finished(Result<(), DataError>),
}

/// What came of the step that was being done.
#[derive(Debug, PartialEq, Eq)]
pub enum ConversionEvent {
    /// A file was removed, or could not be; either will do.
    Cleared,
    Counted(Result<i64, DataError>),
    /// A step without a result of its own was done, or failed.
    Done(Result<(), DataError>),
}

/// The next step.
pub open spec fn conversion_next(now: Conversion, event: ConversionEvent) -> Conversion {
    match (now, event) {
        (Conversion::Clearing, ConversionEvent::Cleared) => Conversion::Counting,
        (Conversion::Counting, ConversionEvent::Counted(Ok(n))) => Conversion::Exporting {
            expected: n,
        },
        (Conversion::Counting, ConversionEvent::Counted(Err(e))) => Conversion::Discarding(e),
        (Conversion::Exporting { expected }, ConversionEvent::Done(Ok(()))) =>
            Conversion::Recounting { expected },
        (Conversion::Exporting { .. }, ConversionEvent::Done(Err(e))) => Conversion::Discarding(e),
        (Conversion::Recounting { expected }, ConversionEvent::Counted(Ok(got))) => if got
            == expected {
            Conversion::Syncing
        } else {
            Conversion::Discarding(DataError::ConversionMismatch { expected, got })
        },
        (Conversion::Recounting { .. }, ConversionEvent::Counted(Err(e))) =>
            Conversion::Discarding(e),
        (Conversion::Syncing, ConversionEvent::Done(Ok(()))) => Conversion::Renaming,
        (Conversion::Syncing, ConversionEvent::Done(Err(e))) => Conversion::Discarding(e),
        (Conversion::Discarding(e), ConversionEvent::Cleared) => Conversion::Finished(Err(e)),
        (Conversion::Renaming, ConversionEvent::Done(r)) => Conversion::Finished(r),
        (other, _) => other,
    }
}

impl Conversion {
    /// Begins the conversion of the file at `path`; there is nothing to do where it is missing.
    pub fn begin(exists: bool, path: &str) -> (r: Self)
        ensures
            match r {
                Conversion::Clearing => exists,
                Conversion::Finished(Err(DataError::NotFound(p))) => !exists && p@ == path@,
                _ => false,
            },
    {
        match require_file(exists, path) {
            Ok(()) => Conversion::Clearing,
            Err(e) => Conversion::Finished(Err(e)),
        }
    }

    /// Takes what came of the current step and goes on to the next. Anything that does not
    /// belong to the current step changes nothing.
    pub fn next(self, event: ConversionEvent) -> (r: Self)
        ensures
            r == conversion_next(self, event),
    {
        match self {
            Conversion::Clearing => match event {
                ConversionEvent::Cleared => Conversion::Counting,
                _ => Conversion::Clearing,
            },
            Conversion::Counting => match event {
                ConversionEvent::Counted(Ok(n)) => Conversion::Exporting { expected: n },
                ConversionEvent::Counted(Err(e)) => Conversion::Discarding(e),
                _ => Conversion::Counting,
            },
            Conversion::Exporting { expected } => match event {
                ConversionEvent::Done(Ok(())) => Conversion::Recounting { expected },
                ConversionEvent::Done(Err(e)) => Conversion::Discarding(e),
                _ => Conversion::Exporting { expected },
            },
            Conversion::Recounting { expected } => match event {
                ConversionEvent::Counted(Ok(got)) => if got == expected {
                    Conversion::Syncing
                } else {
                    Conversion::Discarding(DataError::ConversionMismatch { expected, got })
                },
                ConversionEvent::Counted(Err(e)) => Conversion::Discarding(e),
                _ => Conversion::Recounting { expected },
            },
            Conversion::Syncing => match event {
                ConversionEvent::Done(Ok(())) => Conversion::Renaming,
                ConversionEvent::Done(Err(e)) => Conversion::Discarding(e),
                _ => Conversion::Syncing,
            },
            Conversion::Discarding(e) => match event {
                ConversionEvent::Cleared => Conversion::Finished(Err(e)),
                _ => Conversion::Discarding(e),
            },
            Conversion::Renaming => match event {
                ConversionEvent::Done(r) => Conversion::Finished(r),
                _ => Conversion::Renaming,
            },
            Conversion::Finished(r) => Conversion::Finished(r),
        }
    }
}

/// Where a conversion stands after these events.
pub open spec fn conversion_after(start: Conversion, events: Seq<ConversionEvent>) -> Conversion
    decreases events.len(),
{
    if events.len() == 0 {
        start
    } else {
        conversion_next(conversion_after(start, events.drop_last()), events.last())
    }
}

/// Did the original report `n` items, the copy get written and report as many, all in this
/// order?
pub open spec fn copy_verified(events: Seq<ConversionEvent>) -> bool {
    exists|i: int, j: int, k: int, n: i64| #[trigger] verified_at(events, i, j, k, n)
}

pub open spec fn verified_at(
    events: Seq<ConversionEvent>,
    i: int,
    j: int,
    k: int,
    n: i64,
) -> bool {
    &&& 0 <= i < j < k < events.len()
    &&& events[i] == ConversionEvent::Counted(Ok(n))
    &&& events[j] matches ConversionEvent::Done(r) && r is Ok
    &&& events[k] == ConversionEvent::Counted(Ok(n))
}

/// What has been reported by the time a conversion stands at `now`.
spec fn progress(now: Conversion, events: Seq<ConversionEvent>) -> bool {
    match now {
        Conversion::Exporting { expected } => exists|i: int|
            0 <= i < events.len() && #[trigger] events[i] == ConversionEvent::Counted(
                Ok(expected),
            ),
        Conversion::Recounting { expected } => exists|i: int, j: int|
            0 <= i < j < events.len() && #[trigger] events[i] == ConversionEvent::Counted(
                Ok(expected),
            ) && ((#[trigger] events[j]) matches ConversionEvent::Done(r) && r is Ok),
        Conversion::Syncing => copy_verified(events),
        Conversion::Renaming => copy_verified(events),
        Conversion::Finished(Ok(())) => copy_verified(events),
        _ => true,
    }
}

proof fn conversion_progress(events: Seq<ConversionEvent>)
    ensures
        progress(conversion_after(Conversion::Clearing, events), events),
    decreases events.len(),
{
    if events.len() > 0 {
        let earlier = events.drop_last();
        let last = events.last();
        let m = events.len() - 1;
        conversion_progress(earlier);
        let was = conversion_after(Conversion::Clearing, earlier);
        let now = conversion_after(Conversion::Clearing, events);
        assert(events[m] == last);
        match was {
            Conversion::Exporting { expected } => {
                let i = choose|i: int|
                    0 <= i < earlier.len() && #[trigger] earlier[i] == ConversionEvent::Counted(
                        Ok(expected),
                    );
                assert(events[i] == earlier[i]);
            },
            Conversion::Recounting { expected } => {
                let (i, j) = choose|i: int, j: int|
                    0 <= i < j < earlier.len() && #[trigger] earlier[i]
                        == ConversionEvent::Counted(Ok(expected)) && ((
                    #[trigger] earlier[j]) matches ConversionEvent::Done(r) && r is Ok);
                assert(events[i] == earlier[i] && events[j] == earlier[j]);
                if now is Syncing {
                    assert(verified_at(events, i, j, m, expected));
                }
            },
            _ => {
                if copy_verified(earlier) {
                    let (i, j, k, n) = choose|i: int, j: int, k: int, n: i64| #[trigger]
                        verified_at(earlier, i, j, k, n);
                    assert(verified_at(events, i, j, k, n));
                }
            },
        }
    }
}

/// The original is given up only for a copy that was written, opened under its new key and
/// found to hold as many items.
pub proof fn original_is_replaced_by_a_verified_copy(events: Seq<ConversionEvent>)
    requires
        ({
            let now = conversion_after(Conversion::Clearing, events);
            now is Renaming || (now matches Conversion::Finished(r) && r is Ok)
        }),
    ensures
        copy_verified(events),
{
    conversion_progress(events);
}

/// A conversion that fails before the copy takes the original's place removes the copy first,
/// and then reports what failed.
pub proof fn failed_conversions_leave_no_copy(now: Conversion, event: ConversionEvent)
    requires
        now is Counting || now is Exporting || now is Recounting || now is Syncing,
    ensures
        ({
            let then = conversion_next(now, event);
            &&& then !is Finished
            &&& event == ConversionEvent::Cleared ==> then == now
            &&& then matches Conversion::Discarding(e) ==> conversion_next(
                then,
                ConversionEvent::Cleared,
            ) == Conversion::Finished(Err(e))
            &&& (event matches ConversionEvent::Counted(Err(e)) && (now is Counting
                || now is Recounting)) ==> then == Conversion::Discarding(
                event->Counted_0->Err_0,
            )
            &&& (event matches ConversionEvent::Done(Err(e)) && (now is Exporting
                || now is Syncing)) ==> then == Conversion::Discarding(event->Done_0->Err_0)
        }),
{
}

/// A conversion that is over stays as it is.
pub proof fn finished_conversions_stay(r: Result<(), DataError>, event: ConversionEvent)
    ensures
        conversion_next(Conversion::Finished(r), event) == Conversion::Finished(r),
{
}

} // verus!
