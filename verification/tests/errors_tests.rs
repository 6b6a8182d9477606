//! Error classification into recoverable and unrecoverable failures.
use modloader::errors::{
    AppError, ConfigError, InvalidArchive, ModManagerError, RecoverableAppError,
};

#[test]
fn io_store_and_decode_failures_are_fatal() {
    for e in [
        ModManagerError::Io { msg: "disk".to_owned() },
        ModManagerError::Db { msg: "store".to_owned() },
        ModManagerError::DeSerialization { msg: "decode".to_owned() },
    ] {
        assert!(matches!(
            AppError::from_mod_manager_error(e),
            AppError::Unrecoverable { .. }
        ));
    }
}

#[test]
fn domain_and_state_failures_are_recoverable() {
    for e in [
        ModManagerError::InvalidArchive(InvalidArchive::PathNotExisting),
        ModManagerError::ArchiveHandling { msg: "bad".to_owned() },
        ModManagerError::InvalidModInfo { msg: "bad".to_owned() },
        ModManagerError::ModNotExisting,
        ModManagerError::ModAlreadyActive,
        ModManagerError::ModAlreadyDeactivated,
        ModManagerError::AppNotInitialized,
        ModManagerError::ModVersionMismatch {
            mismatch: (b"1.0.0".to_vec(), b"2.0.0".to_vec()),
        },
        ModManagerError::ModConflict {
            conflict: vec![(b"A".to_vec(), b"a/x.txt".to_vec())],
        },
    ] {
        assert!(matches!(
            AppError::from_mod_manager_error(e),
            AppError::Recoverable(RecoverableAppError::ModManagerError(_))
        ));
    }
}

#[test]
fn config_failures_split_by_kind() {
    assert!(matches!(
        AppError::from_config_error(ConfigError::Io { msg: "disk".to_owned() }),
        AppError::Unrecoverable { .. }
    ));
    assert!(matches!(
        AppError::from_config_error(ConfigError::DeSerialization { msg: "bad".to_owned() }),
        AppError::Unrecoverable { .. }
    ));
    assert!(matches!(
        AppError::from_config_error(ConfigError::GameLanguageNotSupported),
        AppError::Recoverable(RecoverableAppError::ConfigError(_))
    ));
    assert!(matches!(
        AppError::from_mod_manager_error(ModManagerError::ConfigError(
            ConfigError::GameLanguageNotSupported
        )),
        AppError::Recoverable(_)
    ));
}
