//! Error types: archive validation failures, configuration failures,
//! the mod-manager error taxonomy, and the application-level split into
//! recoverable and unrecoverable failures.
use vstd::prelude::*;

verus! {

/// Ways a provided mod-archive path can be invalid.
#[derive(Debug, Clone, Copy, PartialEq, Eq, Structural)]
pub enum InvalidArchive {
    /// The path does not exist.
    PathNotExisting,
    /// The path is not a regular file.
    PathNotFile,
    /// The file has no extension.
    NoExtension,
    /// The extension is not usable text.
    InvalidExtension,
}

/// Ways a provided game path can be invalid.
#[derive(Debug, Clone, Copy, PartialEq, Eq, Structural)]
pub enum InvalidGamePath {
    NotExisting,
    /// The path points to a file instead of a directory.
    NotADirectory,
    InvalidPath,
    /// The final folder name is not the expected game folder.
    InvalidFolderName,
    /// No localization folder inside the game folder.
    LocalizationNotFound,
}

/// Errors of the app-configuration component.
#[derive(Debug)]
pub enum ConfigError {
    DeSerialization { msg: String },
    Io { msg: String },
    GameLanguageNotSupported,
    InvalidGamePath(InvalidGamePath),
}

/// The mod-manager error taxonomy.
#[derive(Debug)]
pub enum ModManagerError {
    /// Filesystem failure under the store or around archives.
    Io { msg: String },
    /// A store fault other than filesystem failure.
    Db { msg: String },
    /// Self-written data failed to decode: an invariant violation.
    DeSerialization { msg: String },
    InvalidArchive(InvalidArchive),
    /// Failure while reading an archive container.
    ArchiveHandling { msg: String },
    /// The manifest inside an archive could not be parsed.
    InvalidModInfo { msg: String },
    ModNotExisting,
    ModAlreadyActive,
    ModAlreadyDeactivated,
    /// The added mod is not newer than the same-named registered one;
    /// carries (candidate version text, existing version text).
    ModVersionMismatch { mismatch: (Vec<u8>, Vec<u8>) },
    /// Required configuration (game path, language) is missing.
    AppNotInitialized,
    /// The mod wants files already owned by other mods; carries
    /// (owning mod name, path) pairs.
    ModConflict { conflict: Vec<(Vec<u8>, Vec<u8>)> },
    ConfigError(ConfigError),
}

/// The application-level error split: recoverable errors are shown and
/// handled, unrecoverable ones end the process since internal
/// invariants can no longer be trusted.
#[derive(Debug)]
pub enum AppError {
    Unrecoverable { msg: String },
    Recoverable(RecoverableAppError),
}

/// The recoverable errors of the application.
#[derive(Debug)]
pub enum RecoverableAppError {
    ConfigError(ConfigError),
    ModManagerError(ModManagerError),
}

impl AppError {
    /// Classifies a configuration error: decode and IO failures are
    /// fatal, validation failures are recoverable.
    pub fn from_config_error(e: ConfigError) -> (r: AppError)
        ensures
            match e {
                ConfigError::DeSerialization { .. } => r is Unrecoverable,
                ConfigError::Io { .. } => r is Unrecoverable,
                ConfigError::GameLanguageNotSupported => r matches AppError::Recoverable(
                    RecoverableAppError::ConfigError(c),
                ) && c == e,
                ConfigError::InvalidGamePath(_) => r matches AppError::Recoverable(
                    RecoverableAppError::ConfigError(c),
                ) && c == e,
            },
    {
        match e {
            ConfigError::DeSerialization { msg } => AppError::Unrecoverable { msg },
            ConfigError::Io { msg } => AppError::Unrecoverable { msg },
            ConfigError::GameLanguageNotSupported => AppError::Recoverable(
                RecoverableAppError::ConfigError(e),
            ),
            ConfigError::InvalidGamePath(_) => AppError::Recoverable(
                RecoverableAppError::ConfigError(e),
            ),
        }
    }

    /// Classifies a mod-manager error: IO, store faults and decode
    /// failures on self-written data are fatal; domain validation,
    /// state conflicts, file conflicts, version mismatches and missing
    /// configuration are recoverable.
    pub fn from_mod_manager_error(e: ModManagerError) -> (r: AppError)
        ensures
            match e {
                ModManagerError::Io { .. } => r is Unrecoverable,
                ModManagerError::Db { .. } => r is Unrecoverable,
                ModManagerError::DeSerialization { .. } => r is Unrecoverable,
                ModManagerError::ConfigError(_) => true,
                _ => r matches AppError::Recoverable(
                    RecoverableAppError::ModManagerError(m),
                ) && m == e,
            },
            e matches ModManagerError::ConfigError(c) ==> match c {
                ConfigError::DeSerialization { .. } => r is Unrecoverable,
                ConfigError::Io { .. } => r is Unrecoverable,
                _ => r is Recoverable,
            },
    {
        match e {
            ModManagerError::Io { msg } => AppError::Unrecoverable { msg },
            ModManagerError::Db { msg } => AppError::Unrecoverable { msg },
            ModManagerError::DeSerialization { msg } => AppError::Unrecoverable { msg },
            ModManagerError::ConfigError(c) => AppError::from_config_error(c),
            other => AppError::Recoverable(RecoverableAppError::ModManagerError(other)),
        }
    }
}

} // verus!
