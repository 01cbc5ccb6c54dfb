//! The steps that open a database file.
use crate::crypto::{apply_key, key_verdict, require_file};
use crate::database::{check_version, recorded, saturate_version, version_accepted};
use crate::error::{DataError, StorageFault};
use vstd::prelude::*;

verus! {

/// What has to be done next to open a database.
#[derive(Debug, PartialEq, Eq)]
pub enum Opening {
    /// Make the directory that the file lies in.
    CreateDirectory,
    /// Connect to the file; a file that may be written is made where there is none.
    Connect,
    /// Give the key, if there is one, and try to read.
    Unlock,
    /// Read the schema version, before anything is changed.
    CheckVersion,
    /// Bring the schema up to date.
    Migrate,
    /// Read the schema version again.
    CheckMigrated,
    /// The file is open: its rows can be read.
    Open,
    /// It cannot be opened.
    Failed(DataError),
}

/// Why the schema could not be brought up to date.
#[derive(Debug, PartialEq, Eq)]
pub struct MigrationFault {
    /// The version that one side has and the other lacks, where that is what is wrong.
    pub missing_version: Option<i64>,
    /// What the migrations reported.
    pub words: String,
}

/// What came of the step.
#[derive(Debug, PartialEq, Eq)]
pub enum OpeningEvent {
    /// A directory was made, or a connection; or it failed.
    Done(Result<(), DataError>),
    /// A first read was tried. The flag says whether the engine knows encryption.
    Probed(Result<(), StorageFault>, bool),
    /// The largest version in the schema's history, if it has any.
    Version(Result<Option<i64>, DataError>),
    /// The migrations ran.
    Migrated(Result<(), MigrationFault>),
}

/// The error that a failed migration is reported as. A version ahead of this build means a file
/// from a later one; a version at or below it that is missing means a faulty package, which
/// keeps its own words.
pub open spec fn is_migration_error(fault: MigrationFault, expected: u32, e: DataError) -> bool {
    match recorded(fault.missing_version) {
        Some(v) if v > expected => e == (DataError::CorruptSchema {
            found: if 0 <= fault.missing_version->0 <= u32::MAX {
                Some(v)
            } else {
                None
            },
            expected,
        }),
        _ => e matches DataError::Migration(words) && words@ == fault.words@,
    }
}

/// The error that a failed migration is reported as.
pub fn migration_error(fault: MigrationFault, expected: u32) -> (r: DataError)
    ensures
        is_migration_error(fault, expected, r),
{
    if let Some(v) = saturate_version(fault.missing_version) {
        if v > expected {
            let found = match fault.missing_version {
                Some(m) => if 0 <= m && m <= u32::MAX as i64 {
                    Some(v)
                } else {
                    None
                },
                None => None,
            };
            return DataError::CorruptSchema { found, expected };
        }
    }
    DataError::Migration(fault.words)
}

/// What follows once the schema version is known.
pub open spec fn is_after_version(
    read: Result<Option<i64>, DataError>,
    expected: u32,
    fine: Opening,
    next: Opening,
) -> bool {
    match read {
        Err(e) => next == Opening::Failed(e),
        Ok(v) => if version_accepted(v, expected) {
            next == fine
        } else {
            next == Opening::Failed(DataError::CorruptSchema { found: recorded(v), expected })
        },
    }
}

/// Is `next` what follows `now` after this event? `read_only` and `expected` say how the file is
/// opened and which schema version this build has.
pub open spec fn opens_to(
    now: Opening,
    event: OpeningEvent,
    read_only: bool,
    expected: u32,
    next: Opening,
) -> bool {
    match (now, event) {
        (Opening::CreateDirectory, OpeningEvent::Done(Ok(()))) => next is Connect,
        (Opening::CreateDirectory, OpeningEvent::Done(Err(e))) => next == Opening::Failed(e),
        (Opening::Connect, OpeningEvent::Done(Ok(()))) => next is Unlock,
        (Opening::Connect, OpeningEvent::Done(Err(e))) => next == Opening::Failed(e),
        (Opening::Unlock, OpeningEvent::Probed(probe, sqlcipher)) => match key_verdict(
            probe,
            sqlcipher,
        ) {
            Ok(()) => next is CheckVersion,
            Err(e) => next == Opening::Failed(e),
        },
        (Opening::CheckVersion, OpeningEvent::Version(read)) => is_after_version(
            read,
            expected,
            if read_only {
                Opening::CheckMigrated
            } else {
                Opening::Migrate
            },
            next,
        ),
        (Opening::Migrate, OpeningEvent::Migrated(Ok(()))) => next is CheckMigrated,
        (Opening::Migrate, OpeningEvent::Migrated(Err(fault))) => next matches Opening::Failed(e)
            && is_migration_error(fault, expected, e),
        (Opening::CheckMigrated, OpeningEvent::Version(read)) => is_after_version(
            read,
            expected,
            Opening::Open,
            next,
        ),
        (other, _) => next == other,
    }
}

fn after_version(read: Result<Option<i64>, DataError>, expected: u32, fine: Opening) -> (r: Opening)
    ensures
        is_after_version(read, expected, fine, r),
{
    match read {
        Ok(v) => match check_version(saturate_version(v), expected) {
            Ok(()) => fine,
            Err(e) => Opening::Failed(e),
        },
        Err(e) => Opening::Failed(e),
    }
}

impl Opening {
    /// Begins to open the file at `path`. A file that is only read must be there.
    pub fn begin(read_only: bool, exists: bool, in_directory: bool, path: &str) -> (r: Self)
        ensures
            match r {
                Opening::Failed(DataError::NotFound(p)) => read_only && !exists && p@ == path@,
                Opening::CreateDirectory => (!read_only || exists) && in_directory,
                Opening::Connect => (!read_only || exists) && !in_directory,
                _ => false,
            },
    {
        if read_only {
            match require_file(exists, path) {
                Ok(()) => {},
                Err(e) => {
                    return Opening::Failed(e);
                },
            }
        }
        if in_directory {
            Opening::CreateDirectory
        } else {
            Opening::Connect
        }
    }

    /// Takes what came of the current step and says what is next. What does not belong to the
    /// current step changes nothing.
    pub fn next(self, event: OpeningEvent, read_only: bool, expected: u32) -> (r: Self)
        ensures
            opens_to(self, event, read_only, expected, r),
    {
        match self {
            Opening::CreateDirectory => match event {
                OpeningEvent::Done(Ok(())) => Opening::Connect,
                OpeningEvent::Done(Err(e)) => Opening::Failed(e),
                _ => Opening::CreateDirectory,
            },
            Opening::Connect => match event {
                OpeningEvent::Done(Ok(())) => Opening::Unlock,
                OpeningEvent::Done(Err(e)) => Opening::Failed(e),
                _ => Opening::Connect,
            },
            Opening::Unlock => match event {
                OpeningEvent::Probed(probe, sqlcipher) => match apply_key(probe, sqlcipher) {
                    Ok(()) => Opening::CheckVersion,
                    Err(e) => Opening::Failed(e),
                },
                _ => Opening::Unlock,
            },
            Opening::CheckVersion => match event {
                OpeningEvent::Version(read) => after_version(
                    read,
                    expected,
                    if read_only {
                        Opening::CheckMigrated
                    } else {
                        Opening::Migrate
                    },
                ),
                _ => Opening::CheckVersion,
            },
            Opening::Migrate => match event {
                OpeningEvent::Migrated(Ok(())) => Opening::CheckMigrated,
                OpeningEvent::Migrated(Err(fault)) => Opening::Failed(
                    migration_error(fault, expected),
                ),
                _ => Opening::Migrate,
            },
            Opening::CheckMigrated => match event {
                OpeningEvent::Version(read) => after_version(read, expected, Opening::Open),
                _ => Opening::CheckMigrated,
            },
            Opening::Open => Opening::Open,
            Opening::Failed(e) => Opening::Failed(e),
        }
    }
}

/// A file that is only read is never changed: no migration follows any step of opening it.
pub proof fn reading_never_migrates(
    now: Opening,
    event: OpeningEvent,
    expected: u32,
    next: Opening,
)
    requires
        opens_to(now, event, true, expected, next),
        now !is Migrate,
    ensures
        next !is Migrate,
{
}

/// Migrations run only on a file whose version was read and is not ahead of this build, and
/// a file is open only once that has been found.
pub proof fn newer_files_are_refused(
    now: Opening,
    event: OpeningEvent,
    read_only: bool,
    expected: u32,
    next: Opening,
)
    requires
        opens_to(now, event, read_only, expected, next),
        next != now,
        next is Migrate || next is Open,
    ensures
        now is CheckVersion || now is CheckMigrated,
        event matches OpeningEvent::Version(Ok(v)) && version_accepted(v, expected),
{
}

} // verus!
