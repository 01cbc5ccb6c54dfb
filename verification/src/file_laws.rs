//! What starting the application, opening its database and converting it are for: each comes
//! to its end if every step succeeds, and to the error of the step that failed.
use crate::context::{startup_next, Startup, StartupError, StartupEvent};
use crate::crypto::{
    conversion_after, conversion_next, key_verdict, state_of, Conversion, ConversionEvent,
    EncryptionState,
};
use crate::error::{DataError, StorageFault};
use crate::opening::{opens_to, MigrationFault, Opening, OpeningEvent};
use vstd::prelude::*;

verus! {

// ---- encryption ---------------------------------------------------------

/// Law: what a first read without a key tells. No file is a new installation, a read that
/// works a readable file, and one that makes no sense of the file an encrypted one, if the
/// engine knows encryption. Every other failure is reported as it is.
pub proof fn what_a_read_without_a_key_tells(
    exists: bool,
    probe: Result<(), StorageFault>,
    sqlcipher: bool,
)
    ensures
        ({
            let r = state_of(exists, probe, sqlcipher);
            let strange = probe is Err && probe->Err_0 is NotADatabase;
            &&& !exists ==> r == Ok::<EncryptionState, DataError>(EncryptionState::Absent)
            &&& exists && probe is Ok ==> r == Ok::<EncryptionState, DataError>(
                EncryptionState::Plaintext,
            )
            &&& exists && strange && sqlcipher ==> r == Ok::<EncryptionState, DataError>(
                EncryptionState::Encrypted,
            )
            &&& exists && strange && !sqlcipher ==> r == Err::<EncryptionState, DataError>(
                DataError::EncryptedButUnsupported,
            )
            &&& exists && probe is Err && !strange ==> r == Err::<EncryptionState, DataError>(
                DataError::Sqlite(probe->Err_0),
            )
        }),
{
}

/// Law: what a first read after a key was given tells. The key is right exactly if the read
/// works; one that makes no sense of the file had the wrong key, if the engine knows encryption.
pub proof fn what_a_read_with_a_key_tells(probe: Result<(), StorageFault>, sqlcipher: bool)
    ensures
        ({
            let r = key_verdict(probe, sqlcipher);
            let strange = probe is Err && probe->Err_0 is NotADatabase;
            &&& r is Ok <==> probe is Ok
            &&& strange && sqlcipher ==> r == Err::<(), DataError>(DataError::WrongPassphrase)
            &&& strange && !sqlcipher ==> r == Err::<(), DataError>(
                DataError::EncryptedButUnsupported,
            )
            &&& probe is Err && !strange ==> r == Err::<(), DataError>(
                DataError::Sqlite(probe->Err_0),
            )
        }),
{
}

/// Law: a conversion whose steps all succeed ends well: left-overs are removed, the items are
/// counted, the copy is written, counted to the same number, synced and renamed, whatever the
/// number is.
pub proof fn a_conversion_that_goes_well(n: i64, fine: Result<(), DataError>)
    requires
        fine is Ok,
    ensures
        ({
            let clearing = Conversion::Clearing;
            let counting = conversion_next(clearing, ConversionEvent::Cleared);
            let exporting = conversion_next(counting, ConversionEvent::Counted(Ok(n)));
            let recounting = conversion_next(exporting, ConversionEvent::Done(fine));
            let syncing = conversion_next(recounting, ConversionEvent::Counted(Ok(n)));
            let renaming = conversion_next(syncing, ConversionEvent::Done(fine));
            &&& counting == Conversion::Counting
            &&& exporting == (Conversion::Exporting { expected: n })
            &&& recounting == (Conversion::Recounting { expected: n })
            &&& syncing == Conversion::Syncing
            &&& renaming == Conversion::Renaming
            &&& conversion_next(renaming, ConversionEvent::Done(fine)) == Conversion::Finished(
                fine,
            )
            &&& conversion_after(
                clearing,
                seq![
                    ConversionEvent::Cleared,
                    ConversionEvent::Counted(Ok(n)),
                    ConversionEvent::Done(fine),
                    ConversionEvent::Counted(Ok(n)),
                    ConversionEvent::Done(fine),
                    ConversionEvent::Done(fine),
                ],
            ) == Conversion::Finished(fine)
        }),
{
    reveal_with_fuel(conversion_after, 7);
    let all = seq![
        ConversionEvent::Cleared,
        ConversionEvent::Counted(Ok(n)),
        ConversionEvent::Done(fine),
        ConversionEvent::Counted(Ok(n)),
        ConversionEvent::Done(fine),
        ConversionEvent::Done(fine),
    ];
    let a5 = all.drop_last();
    let a4 = a5.drop_last();
    let a3 = a4.drop_last();
    let a2 = a3.drop_last();
    let a1 = a2.drop_last();
    assert(a5.last() == all[4] && a4.last() == all[3] && a3.last() == all[2] && a2.last()
        == all[1] && a1.last() == all[0]);
    assert(a1.drop_last() =~= Seq::<ConversionEvent>::empty());
}

/// Law: a copy that holds another number of items than the original is discarded, and the
/// conversion fails with both numbers. A step that fails ends the conversion with its error,
/// after the copy was discarded; the last step ends it either way.
pub proof fn a_conversion_that_goes_wrong(
    expected: i64,
    got: i64,
    e: DataError,
    bad: Result<(), DataError>,
)
    requires
        expected != got,
        bad == Err::<(), DataError>(e),
    ensures
        conversion_next(
            Conversion::Recounting { expected },
            ConversionEvent::Counted(Ok(got)),
        ) == Conversion::Discarding(DataError::ConversionMismatch { expected, got }),
        conversion_next(Conversion::Counting, ConversionEvent::Counted(Err(e)))
            == Conversion::Discarding(e),
        conversion_next(Conversion::Exporting { expected }, ConversionEvent::Done(bad))
            == Conversion::Discarding(e),
        conversion_next(Conversion::Recounting { expected }, ConversionEvent::Counted(Err(e)))
            == Conversion::Discarding(e),
        conversion_next(Conversion::Syncing, ConversionEvent::Done(bad)) == Conversion::Discarding(
            e,
        ),
        conversion_next(Conversion::Discarding(e), ConversionEvent::Cleared)
            == Conversion::Finished(Err(e)),
        conversion_next(Conversion::Renaming, ConversionEvent::Done(bad)) == Conversion::Finished(
            bad,
        ),
{
}

// ---- opening ------------------------------------------------------------

/// Is this version one that a build of version `expected` opens?
pub open spec fn not_ahead(version: Option<i64>, expected: u32) -> bool {
    version matches Some(v) ==> 0 <= v <= expected
}

/// Law: an opening goes on from every step that succeeds. A file that may be written is
/// migrated once its version was found not to be ahead; one that is only read is not.
pub proof fn an_opening_that_goes_well(
    fine: Result<(), DataError>,
    read: Result<(), StorageFault>,
    version: Option<i64>,
    expected: u32,
    read_only: bool,
    sqlcipher: bool,
    next: Opening,
)
    requires
        fine is Ok,
        read is Ok,
        expected < 0xffff_ffff,
        not_ahead(version, expected),
    ensures
        opens_to(Opening::CreateDirectory, OpeningEvent::Done(fine), read_only, expected, next)
            <==> next is Connect,
        opens_to(Opening::Connect, OpeningEvent::Done(fine), read_only, expected, next)
            <==> next is Unlock,
        opens_to(
            Opening::Unlock,
            OpeningEvent::Probed(read, sqlcipher),
            read_only,
            expected,
            next,
        ) <==> next is CheckVersion,
        opens_to(
            Opening::CheckVersion,
            OpeningEvent::Version(Ok(version)),
            false,
            expected,
            next,
        ) <==> next is Migrate,
        opens_to(
            Opening::CheckVersion,
            OpeningEvent::Version(Ok(version)),
            true,
            expected,
            next,
        ) <==> next is CheckMigrated,
        opens_to(
            Opening::CheckMigrated,
            OpeningEvent::Version(Ok(version)),
            read_only,
            expected,
            next,
        ) <==> next is Open,
{
}

/// Law: migrations that ran are followed by a last look at the version.
pub proof fn migrations_are_checked(
    fine: Result<(), MigrationFault>,
    expected: u32,
    read_only: bool,
    next: Opening,
)
    requires
        fine is Ok,
    ensures
        opens_to(Opening::Migrate, OpeningEvent::Migrated(fine), read_only, expected, next)
            <==> next is CheckMigrated,
{
}

/// Law: a step that fails ends the opening with its error, and a file that is ahead of this
/// build is refused with both versions.
pub proof fn an_opening_that_goes_wrong(
    e: DataError,
    version: Option<i64>,
    expected: u32,
    read_only: bool,
    next: Opening,
)
    requires
        expected < 0xffff_ffff,
        version is Some,
        !not_ahead(version, expected),
    ensures
        opens_to(Opening::CreateDirectory, OpeningEvent::Done(Err(e)), read_only, expected, next)
            <==> next == Opening::Failed(e),
        opens_to(Opening::Connect, OpeningEvent::Done(Err(e)), read_only, expected, next)
            <==> next == Opening::Failed(e),
        opens_to(Opening::CheckVersion, OpeningEvent::Version(Err(e)), read_only, expected, next)
            <==> next == Opening::Failed(e),
        opens_to(Opening::CheckMigrated, OpeningEvent::Version(Err(e)), read_only, expected, next)
            <==> next == Opening::Failed(e),
        opens_to(
            Opening::CheckVersion,
            OpeningEvent::Version(Ok(version)),
            read_only,
            expected,
            next,
        ) ==> next == Opening::Failed(
            DataError::CorruptSchema {
                found: Some(
                    if 0 <= version->0 <= 0xffff_ffff {
                        version->0 as u32
                    } else {
                        0xffff_ffff
                    },
                ),
                expected,
            },
        ),
        opens_to(
            Opening::CheckMigrated,
            OpeningEvent::Version(Ok(version)),
            read_only,
            expected,
            next,
        ) ==> next is Failed,
{
}

/// Law: a key that turned out wrong ends the opening, and so does any other failed first read.
pub proof fn a_wrong_key_opens_nothing(
    read: Result<(), StorageFault>,
    sqlcipher: bool,
    read_only: bool,
    expected: u32,
    next: Opening,
)
    requires
        read is Err,
        opens_to(
            Opening::Unlock,
            OpeningEvent::Probed(read, sqlcipher),
            read_only,
            expected,
            next,
        ),
    ensures
        next == Opening::Failed(
            if read->Err_0 is NotADatabase {
                if sqlcipher {
                    DataError::WrongPassphrase
                } else {
                    DataError::EncryptedButUnsupported
                }
            } else {
                DataError::Sqlite(read->Err_0)
            },
        ),
{
}

/// Law: what a failed migration is reported as. A version that is missing here and ahead of
/// this build means a file from a later one; everything else is reported in its own words.
pub proof fn a_failed_migration_is_reported(
    fault: MigrationFault,
    expected: u32,
    read_only: bool,
    next: Opening,
)
    requires
        expected < 0xffff_ffff,
        opens_to(Opening::Migrate, OpeningEvent::Migrated(Err(fault)), read_only, expected, next),
    ensures
        next is Failed,
        not_ahead(fault.missing_version, expected) ==> (next->Failed_0 matches DataError::Migration(
            words,
        ) && words@ == fault.words@),
        !not_ahead(fault.missing_version, expected) ==> next->Failed_0 == (
        DataError::CorruptSchema {
            found: if 0 <= fault.missing_version->0 <= 0xffff_ffff {
                Some(fault.missing_version->0 as u32)
            } else {
                None
            },
            expected,
        }),
{
}

// ---- starting -----------------------------------------------------------

/// Law: a start whose steps all succeed gets ready: the guard, the directory, the left-overs,
/// the encryption, the settings, in this order.
pub proof fn a_start_that_goes_well(
    fine: Result<(), String>,
    cleaned: Result<bool, DataError>,
    found: Result<EncryptionState, DataError>,
)
    requires
        fine is Ok,
        cleaned is Ok,
        found is Ok,
    ensures
        ({
            let directory = startup_next(Startup::TakeGuard, StartupEvent::Guard(Ok(true)));
            let clean_up = startup_next(directory, StartupEvent::Done(fine));
            let encryption = startup_next(clean_up, StartupEvent::CleanedUp(cleaned));
            let settings = startup_next(encryption, StartupEvent::Encryption(found));
            &&& directory == Startup::CreateDirectory
            &&& clean_up == Startup::CleanUp
            &&& encryption == Startup::ReadEncryption
            &&& settings == Startup::LoadSettings
            &&& startup_next(settings, StartupEvent::Done(fine)) == Startup::Ready
        }),
{
}

/// Law: a start stops at the first step that fails, with its error; a second instance stops at
/// the guard.
pub proof fn a_start_that_goes_wrong(why: String, e: DataError)
    ensures
        startup_next(Startup::TakeGuard, StartupEvent::Guard(Ok(false))) == Startup::Failed(
            StartupError::AlreadyRunning,
        ),
        startup_next(Startup::TakeGuard, StartupEvent::Guard(Err(why))) == Startup::Failed(
            StartupError::Guard(why),
        ),
        startup_next(Startup::CreateDirectory, StartupEvent::Done(Err(why))) == Startup::Failed(
            StartupError::Io(why),
        ),
        startup_next(Startup::CleanUp, StartupEvent::CleanedUp(Err(e))) == Startup::Failed(
            StartupError::Data(e),
        ),
        startup_next(Startup::ReadEncryption, StartupEvent::Encryption(Err(e)))
            == Startup::Failed(StartupError::Data(e)),
        startup_next(Startup::LoadSettings, StartupEvent::Done(Err(why))) == Startup::Failed(
            StartupError::Io(why),
        ),
{
}

/// Law: what was reached stays: a start that is ready or has failed, an opening that is done
/// or has failed and a conversion that is over change no more.
pub proof fn what_is_over_stays(
    s: StartupEvent,
    o: OpeningEvent,
    c: ConversionEvent,
    why: StartupError,
    e: DataError,
    r: Result<(), DataError>,
    read_only: bool,
    expected: u32,
    next: Opening,
)
    ensures
        startup_next(Startup::Ready, s) == Startup::Ready,
        startup_next(Startup::Failed(why), s) == Startup::Failed(why),
        opens_to(Opening::Open, o, read_only, expected, next) <==> next is Open,
        opens_to(Opening::Failed(e), o, read_only, expected, next) <==> next == Opening::Failed(
            e,
        ),
        conversion_next(Conversion::Finished(r), c) == Conversion::Finished(r),
{
}

} // verus!
