//! The app configuration model: languages, game path and theme, with
//! the validation rules that need no filesystem. Loading and saving the
//! configuration file is the embedding application's concern.
use vstd::prelude::*;

use crate::codec::{bytes_eq, lower_bytes, to_lower};
use crate::errors::{ConfigError, ModManagerError};

verus! {

/// The persisted app configuration, as plain values.
pub struct ModloaderConfig {
    pub app_language: Option<Vec<u8>>,
    pub game_path: Option<Vec<u8>>,
    pub game_language: Option<Vec<u8>>,
    pub dark_theme: bool,
}

/// The view of an optional byte string.
pub open spec fn opt_bytes(o: Option<Vec<u8>>) -> Option<Seq<u8>> {
    match o {
        Some(v) => Some(v@),
        None => None,
    }
}

/// The stored game-language name of a language code, when supported.
pub open spec fn language_name(code: Seq<u8>) -> Option<Seq<u8>> {
    if code == seq![101u8, 110u8] {  // en
        Some(seq![69u8, 110u8, 103u8, 108u8, 105u8, 115u8, 104u8])  // English
    } else if code == seq![100u8, 101u8] {  // de
        Some(seq![71u8, 101u8, 114u8, 109u8, 97u8, 110u8])  // German
    } else if code == seq![102u8, 114u8] {  // fr
        Some(seq![70u8, 114u8, 101u8, 110u8, 99u8, 104u8])  // French
    } else if code == seq![112u8, 108u8] {  // pl
        Some(seq![80u8, 111u8, 108u8, 105u8, 115u8, 104u8])  // Polish
    } else if code == seq![114u8, 117u8] {  // ru
        Some(seq![82u8, 117u8, 115u8, 115u8, 105u8, 97u8, 110u8])  // Russian
    } else {
        None
    }
}

/// The expected final folder name of the game installation, lowercased.
pub open spec fn game_folder_lower() -> Seq<u8> {
    // "armored warfare mycom"
    seq![
        97u8, 114u8, 109u8, 111u8, 114u8, 101u8, 100u8, 32u8, 119u8, 97u8, 114u8, 102u8,
        97u8, 114u8, 101u8, 32u8, 109u8, 121u8, 99u8, 111u8, 109u8,
    ]
}

impl Default for ModloaderConfig {
    /// A configuration with nothing set and the light theme.
    fn default() -> (r: ModloaderConfig)
        ensures
            r.app_language is None,
            r.game_path is None,
            r.game_language is None,
            !r.dark_theme,
    {
        ModloaderConfig { app_language: None, game_path: None, game_language: None, dark_theme: false }
    }
}

impl ModloaderConfig {
    /// The app-UI language, if one was chosen.
    pub fn get_app_language(&self) -> (r: Option<Vec<u8>>)
        ensures
            opt_bytes(r) == opt_bytes(self.app_language),
    {
        match &self.app_language {
            Some(v) => Some(v.clone()),
            None => None,
        }
    }

    /// The validated game installation path, if one was set.
    pub fn get_game_path(&self) -> (r: Option<Vec<u8>>)
        ensures
            opt_bytes(r) == opt_bytes(self.game_path),
    {
        match &self.game_path {
            Some(v) => Some(v.clone()),
            None => None,
        }
    }

    /// The chosen game language (its stored folder name), if set.
    pub fn get_game_language(&self) -> (r: Option<Vec<u8>>)
        ensures
            opt_bytes(r) == opt_bytes(self.game_language),
    {
        match &self.game_language {
            Some(v) => Some(v.clone()),
            None => None,
        }
    }

    /// Whether the dark theme is on.
    pub fn get_dark_theme(&self) -> (r: bool)
        ensures
            r == self.dark_theme,
    {
        self.dark_theme
    }

    /// Sets (or clears) the app-UI language.
    pub fn set_app_language(&mut self, lang: Option<Vec<u8>>)
        ensures
            opt_bytes(final(self).app_language) == opt_bytes(lang),
            final(self).game_path == old(self).game_path,
            final(self).game_language == old(self).game_language,
            final(self).dark_theme == old(self).dark_theme,
    {
        self.app_language = lang;
    }

    /// Sets the dark-theme flag.
    pub fn set_dark_theme(&mut self, dark: bool)
        ensures
            final(self).dark_theme == dark,
            final(self).app_language == old(self).app_language,
            final(self).game_path == old(self).game_path,
            final(self).game_language == old(self).game_language,
    {
        self.dark_theme = dark;
    }

    /// Records an already-validated game path; the filesystem checks
    /// (existence, folder name, localization folder) are the caller's.
    pub fn set_game_path(&mut self, path: Vec<u8>)
        ensures
            opt_bytes(final(self).game_path) == Some(path@),
            final(self).app_language == old(self).app_language,
            final(self).game_language == old(self).game_language,
            final(self).dark_theme == old(self).dark_theme,
    {
        self.game_path = Some(path);
    }

    /// Maps a language code to its stored game-language name; rejects
    /// an unsupported code and changes nothing then.
    pub fn set_game_language(&mut self, game_lang: &Vec<u8>) -> (r: Result<(), ConfigError>)
        ensures
            match r {
                Ok(_) => language_name(game_lang@) is Some && opt_bytes(
                    final(self).game_language,
                ) == language_name(game_lang@),
                Err(e) => e == ConfigError::GameLanguageNotSupported && language_name(
                    game_lang@,
                ) is None && *final(self) == *old(self),
            },
            final(self).app_language == old(self).app_language,
            final(self).game_path == old(self).game_path,
            final(self).dark_theme == old(self).dark_theme,
    {
        let name = match Self::language_of(game_lang) {
            Some(n) => n,
            None => {
                return Err(ConfigError::GameLanguageNotSupported);
            },
        };
        self.game_language = Some(name);
        Ok(())
    }

    /// The stored game-language name of a code, when supported.
    fn language_of(code: &Vec<u8>) -> (r: Option<Vec<u8>>)
        ensures
            opt_bytes(r) == language_name(code@),
    {
        if code.len() != 2 {
            proof {
                assert(language_name(code@) is None);
            }
            return None;
        }
        let a = code[0];
        let b = code[1];
        proof {
            assert(code@ =~= seq![code@[0], code@[1]]);
        }
        let mut name: Vec<u8> = Vec::new();
        if a == 101 && b == 110 {
            name.push(69);
            name.push(110);
            name.push(103);
            name.push(108);
            name.push(105);
            name.push(115);
            name.push(104);
            proof {
                assert(name@ =~= language_name(code@)->0);
            }
            Some(name)
        } else if a == 100 && b == 101 {
            name.push(71);
            name.push(101);
            name.push(114);
            name.push(109);
            name.push(97);
            name.push(110);
            proof {
                assert(name@ =~= language_name(code@)->0);
            }
            Some(name)
        } else if a == 102 && b == 114 {
            name.push(70);
            name.push(114);
            name.push(101);
            name.push(110);
            name.push(99);
            name.push(104);
            proof {
                assert(name@ =~= language_name(code@)->0);
            }
            Some(name)
        } else if a == 112 && b == 108 {
            name.push(80);
            name.push(111);
            name.push(108);
            name.push(105);
            name.push(115);
            name.push(104);
            proof {
                assert(name@ =~= language_name(code@)->0);
            }
            Some(name)
        } else if a == 114 && b == 117 {
            name.push(82);
            name.push(117);
            name.push(115);
            name.push(115);
            name.push(105);
            name.push(97);
            name.push(110);
            proof {
                assert(name@ =~= language_name(code@)->0);
            }
            Some(name)
        } else {
            None
        }
    }

    /// Whether the game path and game language have both been set, the
    /// precondition of injecting or ejecting files.
    pub fn is_initialized(&self) -> (r: bool)
        ensures
            r == (self.game_path is Some && self.game_language is Some),
    {
        self.game_path.is_some() && self.game_language.is_some()
    }

    /// Whether the stored advanced configuration already equals the
    /// given language name and game path, making a change a no-op.
    pub fn advanced_config_unchanged(&self, language: &Vec<u8>, path: &Vec<u8>) -> (r: bool)
        ensures
            r == (opt_bytes(self.game_language) == Some(language@) && opt_bytes(
                self.game_path,
            ) == Some(path@)),
    {
        let lang_same = match &self.game_language {
            Some(l) => bytes_eq(l, language),
            None => false,
        };
        let path_same = match &self.game_path {
            Some(p) => bytes_eq(p, path),
            None => false,
        };
        lang_same && path_same
    }

    /// The injection target: the game path and language, owed exactly
    /// when both are configured; `AppNotInitialized` otherwise.
    pub fn injection_target(&self) -> (r: Result<(Vec<u8>, Vec<u8>), ModManagerError>)
        ensures
            match r {
                Ok((p, l)) => opt_bytes(self.game_path) == Some(p@) && opt_bytes(
                    self.game_language,
                ) == Some(l@),
                Err(e) => e is AppNotInitialized && (self.game_path is None
                    || self.game_language is None),
            },
    {
        let p = match &self.game_path {
            Some(p) => p.clone(),
            None => {
                return Err(ModManagerError::AppNotInitialized);
            },
        };
        let l = match &self.game_language {
            Some(l) => l.clone(),
            None => {
                return Err(ModManagerError::AppNotInitialized);
            },
        };
        Ok((p, l))
    }
}

/// Whether a folder name is the expected game folder, ignoring ASCII
/// case.
pub fn game_folder_name_ok(name: &Vec<u8>) -> (r: bool)
    ensures
        r == (lower_bytes(name@) == game_folder_lower()),
{
    let lowered = to_lower(name);
    let mut expected: Vec<u8> = Vec::new();
    expected.push(97);
    expected.push(114);
    expected.push(109);
    expected.push(111);
    expected.push(114);
    expected.push(101);
    expected.push(100);
    expected.push(32);
    expected.push(119);
    expected.push(97);
    expected.push(114);
    expected.push(102);
    expected.push(97);
    expected.push(114);
    expected.push(101);
    expected.push(32);
    expected.push(109);
    expected.push(121);
    expected.push(99);
    expected.push(111);
    expected.push(109);
    proof {
        assert(expected@ =~= game_folder_lower());
    }
    bytes_eq(&lowered, &expected)
}

} // verus!
