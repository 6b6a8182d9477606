//! Configuration model behavior.
use modloader::config::{game_folder_name_ok, ModloaderConfig};
use modloader::errors::{ConfigError, ModManagerError};

#[test]
fn defaults_are_empty_and_light() {
    let c = ModloaderConfig::default();
    assert!(c.get_app_language().is_none());
    assert!(c.get_game_path().is_none());
    assert!(c.get_game_language().is_none());
    assert!(!c.get_dark_theme());
    assert!(!c.is_initialized());
}

#[test]
fn language_codes_map_to_game_language_names() {
    let cases: [(&[u8], &[u8]); 5] = [
        (b"en", b"English"),
        (b"de", b"German"),
        (b"fr", b"French"),
        (b"pl", b"Polish"),
        (b"ru", b"Russian"),
    ];
    for (code, name) in cases {
        let mut c = ModloaderConfig::default();
        c.set_game_language(&code.to_vec()).expect("supported");
        assert_eq!(c.get_game_language(), Some(name.to_vec()));
    }
}

#[test]
fn unsupported_language_codes_are_rejected() {
    let mut c = ModloaderConfig::default();
    let r = c.set_game_language(&b"xx".to_vec());
    assert!(matches!(r, Err(ConfigError::GameLanguageNotSupported)));
    assert!(c.get_game_language().is_none());
}

#[test]
fn setters_update_their_fields() {
    let mut c = ModloaderConfig::default();
    c.set_app_language(Some(b"en".to_vec()));
    assert_eq!(c.get_app_language(), Some(b"en".to_vec()));
    c.set_dark_theme(true);
    assert!(c.get_dark_theme());
    c.set_game_path(b"/games/aw".to_vec());
    assert_eq!(c.get_game_path(), Some(b"/games/aw".to_vec()));
    c.set_game_language(&b"en".to_vec()).expect("supported");
    assert!(c.is_initialized());
}

#[test]
fn injection_target_requires_full_initialization() {
    let mut c = ModloaderConfig::default();
    assert!(matches!(
        c.injection_target(),
        Err(ModManagerError::AppNotInitialized)
    ));
    c.set_game_path(b"/games/aw".to_vec());
    assert!(matches!(
        c.injection_target(),
        Err(ModManagerError::AppNotInitialized)
    ));
    c.set_game_language(&b"en".to_vec()).expect("supported");
    let (path, lang) = c.injection_target().expect("initialized");
    assert_eq!(path, b"/games/aw".to_vec());
    assert_eq!(lang, b"English".to_vec());
}

#[test]
fn advanced_config_change_detection() {
    let mut c = ModloaderConfig::default();
    c.set_game_path(b"/games/aw".to_vec());
    c.set_game_language(&b"en".to_vec()).expect("supported");
    assert!(c.advanced_config_unchanged(&b"English".to_vec(), &b"/games/aw".to_vec()));
    assert!(!c.advanced_config_unchanged(&b"German".to_vec(), &b"/games/aw".to_vec()));
    assert!(!c.advanced_config_unchanged(&b"English".to_vec(), &b"/other".to_vec()));
}

#[test]
fn game_folder_names_match_ignoring_case() {
    assert!(game_folder_name_ok(&b"Armored Warfare MyCom".to_vec()));
    assert!(game_folder_name_ok(&b"ARMORED WARFARE MYCOM".to_vec()));
    assert!(!game_folder_name_ok(&b"Armored Warfare".to_vec()));
}
