use fastpaste::context::{
    instance_key_for, Startup, StartupError, StartupEvent, StartupProbe, PASSPHRASE_ACCOUNT,
};
use fastpaste::crypto::{
    apply_key, clean_orphaned_conversion, conversion_temp_path, encryption_state, has_sqlcipher,
    require_file, Conversion, ConversionEvent, EncryptionState, Removal,
};
use fastpaste::error::{DataError, StorageFault};
use fastpaste::opening::{migration_error, MigrationFault, Opening, OpeningEvent};
use fastpaste::settings::Settings;

#[test]
fn the_instance_key_survives_a_windows_path() {
    let key = instance_key_for(r"C:\Users\Ada\AppData\Roaming\fastpaste\data");
    assert!(
        !key.contains('\\'),
        "a backslash makes the name invalid: {key}"
    );
    assert!(!key.contains(':'), "a colon is reserved too: {key}");
    assert!(key.starts_with("fastpaste_instance_"));
    assert!(key.len() < 200, "names are length-limited on Windows");
}

#[test]
fn different_data_dirs_get_different_keys() {
    let a = instance_key_for("/home/ada/.local/share/fastpaste");
    let b = instance_key_for("/home/bob/.local/share/fastpaste");
    assert_ne!(a, b, "two users must not share one instance slot");
    assert_eq!(a, "fastpaste_instance__home_ada__local_share_fastpaste");
}

#[test]
fn a_very_long_path_keeps_its_distinguishing_tail() {
    let deep = format!("/home/ada/{}/fastpaste", "x".repeat(400));
    let key = instance_key_for(&deep);
    assert!(key.len() < 220);
    assert!(
        key.ends_with("fastpaste"),
        "the tail identifies the dir: {key}"
    );
}

#[test]
fn the_guard_is_taken_before_anything_else() {
    assert_eq!(
        Startup::TakeGuard.next(StartupEvent::Guard(Ok(true))),
        Startup::CreateDirectory
    );
    assert_eq!(
        Startup::TakeGuard.next(StartupEvent::Guard(Ok(false))),
        Startup::Failed(StartupError::AlreadyRunning)
    );
    assert_eq!(
        Startup::TakeGuard.next(StartupEvent::Guard(Err("no socket".to_string()))),
        Startup::Failed(StartupError::Guard("no socket".to_string()))
    );
    assert_eq!(
        Startup::TakeGuard.next(StartupEvent::Done(Ok(()))),
        Startup::TakeGuard
    );
}

#[test]
fn starting_goes_through_its_steps() {
    let step = Startup::CreateDirectory.next(StartupEvent::Done(Ok(())));
    assert_eq!(step, Startup::CleanUp);
    let step = step.next(StartupEvent::CleanedUp(Ok(false)));
    assert_eq!(step, Startup::ReadEncryption);
    let step = step.next(StartupEvent::Encryption(Ok(EncryptionState::Plaintext)));
    assert_eq!(step, Startup::LoadSettings);
    assert_eq!(step.next(StartupEvent::Done(Ok(()))), Startup::Ready);
    assert_eq!(
        Startup::CreateDirectory.next(StartupEvent::Done(Err("full".to_string()))),
        Startup::Failed(StartupError::Io("full".to_string()))
    );
    assert_eq!(
        Startup::ReadEncryption.next(StartupEvent::Encryption(Err(
            DataError::EncryptedButUnsupported
        ))),
        Startup::Failed(StartupError::Data(DataError::EncryptedButUnsupported))
    );
}

#[test]
fn an_encrypted_database_is_not_started_without_a_passphrase() {
    let probe = StartupProbe {
        encryption: EncryptionState::Encrypted,
        settings: Settings::default(),
        data_dir: String::new(),
        db_path: String::new(),
        single_instance: Some(()),
    };
    assert_eq!(probe.require_unencrypted(), Err(StartupError::Encrypted));
    assert_eq!(PASSPHRASE_ACCOUNT, "database-passphrase");
}

// ---- encryption ---------------------------------------------------------

fn garbled() -> StorageFault {
    StorageFault::NotADatabase("file is not a database".to_string())
}

#[test]
fn encryption_state_reports_absent_and_plaintext() {
    assert_eq!(
        encryption_state(false, Ok(()), true).unwrap(),
        EncryptionState::Absent,
        "a file that is not there is a new install, not an error"
    );
    assert_eq!(
        encryption_state(true, Ok(()), true).unwrap(),
        EncryptionState::Plaintext
    );
}

#[test]
fn encryption_state_detects_an_encrypted_file() {
    assert_eq!(
        encryption_state(true, Err(garbled()), true).unwrap(),
        EncryptionState::Encrypted
    );
    assert_eq!(
        encryption_state(true, Err(garbled()), false).unwrap_err(),
        DataError::EncryptedButUnsupported
    );
    let other = StorageFault::Other("disk I/O error".to_string());
    assert_eq!(
        encryption_state(true, Err(other), true).unwrap_err(),
        DataError::Sqlite(StorageFault::Other("disk I/O error".to_string()))
    );
}

#[test]
fn the_wrong_passphrase_is_reported_as_such() {
    let err = apply_key(Err(garbled()), true).unwrap_err();
    assert!(
        matches!(err, DataError::WrongPassphrase),
        "expected WrongPassphrase, got {err:?}"
    );
    assert_eq!(apply_key(Ok(()), true), Ok(()));
    assert_eq!(
        apply_key(Err(garbled()), false),
        Err(DataError::EncryptedButUnsupported)
    );
}

#[test]
fn an_encrypted_database_will_not_open_unkeyed() {
    let err = Opening::Unlock.next(OpeningEvent::Probed(Err(garbled()), true), false, 1);
    assert!(
        matches!(err, Opening::Failed(DataError::WrongPassphrase)),
        "expected WrongPassphrase, got {err:?}"
    );
}

#[test]
fn an_engine_without_a_cipher_names_no_version() {
    assert!(has_sqlcipher(Some("4.5.7 community".to_string())));
    assert!(!has_sqlcipher(Some(String::new())));
    assert!(!has_sqlcipher(None));
}

#[test]
fn encrypting_a_missing_database_returns_not_found_and_creates_nothing() {
    let begun = Conversion::begin(false, "nope.sqlite");
    assert_eq!(
        begun,
        Conversion::Finished(Err(DataError::NotFound("nope.sqlite".to_string()))),
    );
}

#[test]
fn decrypting_a_missing_database_returns_not_found() {
    let begun = Conversion::begin(false, "nope.sqlite");
    assert!(matches!(
        begun,
        Conversion::Finished(Err(DataError::NotFound(_)))
    ));
}

#[test]
fn changing_the_passphrase_of_a_missing_database_returns_not_found() {
    let err = require_file(false, "nope.sqlite").unwrap_err();
    assert!(
        matches!(err, DataError::NotFound(_)),
        "expected NotFound, got {err:?}"
    );
    assert_eq!(require_file(true, "there.sqlite"), Ok(()));
}

#[test]
fn a_conversion_goes_through_its_steps() {
    let step = Conversion::begin(true, "lib.sqlite");
    assert_eq!(step, Conversion::Clearing);
    let step = step.next(ConversionEvent::Cleared);
    assert_eq!(step, Conversion::Counting);
    let step = step.next(ConversionEvent::Counted(Ok(3)));
    assert_eq!(step, Conversion::Exporting { expected: 3 });
    let step = step.next(ConversionEvent::Done(Ok(())));
    assert_eq!(step, Conversion::Recounting { expected: 3 });
    let step = step.next(ConversionEvent::Counted(Ok(3)));
    assert_eq!(step, Conversion::Syncing);
    let step = step.next(ConversionEvent::Done(Ok(())));
    assert_eq!(step, Conversion::Renaming);
    assert_eq!(
        step.next(ConversionEvent::Done(Ok(()))),
        Conversion::Finished(Ok(()))
    );
}

#[test]
fn a_corrupted_export_rolls_back_and_leaves_the_original_intact() {
    // The copy does not open under its key: it is removed, and only then is the error reported.
    let step = Conversion::Recounting { expected: 3 };
    let step = step.next(ConversionEvent::Counted(Err(DataError::WrongPassphrase)));
    assert_eq!(step, Conversion::Discarding(DataError::WrongPassphrase));
    let step = step.next(ConversionEvent::Done(Ok(())));
    assert_eq!(step, Conversion::Discarding(DataError::WrongPassphrase));
    assert_eq!(
        step.next(ConversionEvent::Cleared),
        Conversion::Finished(Err(DataError::WrongPassphrase))
    );
}

#[test]
fn a_copy_with_another_number_of_items_is_given_up() {
    let step = Conversion::Recounting { expected: 3 };
    assert_eq!(
        step.next(ConversionEvent::Counted(Ok(2))),
        Conversion::Discarding(DataError::ConversionMismatch {
            expected: 3,
            got: 2
        })
    );
}

#[test]
fn an_orphaned_conversion_file_is_cleaned_up() {
    assert_eq!(conversion_temp_path("lib.sqlite"), "lib.sqlite.new");
    assert_eq!(clean_orphaned_conversion(Removal::Removed), Ok(true));
    assert_eq!(clean_orphaned_conversion(Removal::Missing), Ok(false));
    assert_eq!(
        clean_orphaned_conversion(Removal::Failed("denied".to_string())),
        Err(DataError::Io("denied".to_string()))
    );
}

// ---- opening ------------------------------------------------------------

#[test]
fn open_read_only_fails_when_file_missing() {
    let err = Opening::begin(true, false, true, "missing.sqlite");
    assert!(
        matches!(err, Opening::Failed(DataError::NotFound(_))),
        "expected NotFound, got {err:?}"
    );
    assert_eq!(
        Opening::begin(false, false, true, "missing.sqlite"),
        Opening::CreateDirectory
    );
    assert_eq!(
        Opening::begin(true, true, false, "there.sqlite"),
        Opening::Connect
    );
}

#[test]
fn migrations_run_under_a_key() {
    let step = Opening::Unlock.next(OpeningEvent::Probed(Ok(()), true), false, 1);
    assert_eq!(step, Opening::CheckVersion);
    let step = step.next(OpeningEvent::Version(Ok(None)), false, 1);
    assert_eq!(step, Opening::Migrate);
    let step = step.next(OpeningEvent::Migrated(Ok(())), false, 1);
    assert_eq!(step, Opening::CheckMigrated);
    assert_eq!(
        step.next(OpeningEvent::Version(Ok(Some(1))), false, 1),
        Opening::Open
    );
}

#[test]
fn a_newer_file_is_refused_before_it_is_migrated() {
    assert_eq!(
        Opening::CheckVersion.next(OpeningEvent::Version(Ok(Some(99))), false, 1),
        Opening::Failed(DataError::CorruptSchema {
            found: Some(99),
            expected: 1
        })
    );
    assert_eq!(
        Opening::CheckVersion.next(OpeningEvent::Version(Ok(Some(1))), true, 1),
        Opening::CheckMigrated,
        "a file that is only read is not migrated"
    );
}

#[test]
fn a_missing_version_is_told_from_a_faulty_package() {
    let fault = |missing_version| MigrationFault {
        missing_version,
        words: "missing".to_string(),
    };
    assert_eq!(
        migration_error(fault(Some(7)), 1),
        DataError::CorruptSchema {
            found: Some(7),
            expected: 1
        }
    );
    assert_eq!(
        migration_error(fault(Some(1)), 1),
        DataError::Migration("missing".to_string())
    );
    assert_eq!(
        migration_error(fault(Some(-1)), 1),
        DataError::CorruptSchema {
            found: None,
            expected: 1
        }
    );
    assert_eq!(
        migration_error(fault(None), 1),
        DataError::Migration("missing".to_string())
    );
}
