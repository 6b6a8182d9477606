//! Archive listing and naming logic.
use modloader::archive::{
    archive_name_and_extension, get_archive_dirs_and_files, is_modinfo_entry_exec,
    registry_file_name, ModArchive,
};
use modloader::errors::InvalidArchive;
use modloader::injection::{localization_dest_path, InjectionType};

fn entries(list: &[&[u8]]) -> Vec<Vec<u8>> {
    list.iter().map(|p| p.to_vec()).collect()
}

#[test]
fn listing_splits_into_files_and_dirs_without_the_manifest() {
    let listing = entries(&[
        b"a/",
        b"a/x.txt",
        b"modinfo.json",
        b"a/b/",
        b"MODINFO.JSON",
        b"a/b/y.bin",
        b"notes.txt",
    ]);
    let (files, dirs) = get_archive_dirs_and_files(&listing);
    assert_eq!(files, entries(&[b"a/x.txt", b"a/b/y.bin", b"notes.txt"]));
    assert_eq!(dirs, entries(&[b"a/", b"a/b/"]));
}

#[test]
fn only_the_manifest_entry_itself_is_stripped() {
    // Content files that merely mention the manifest name stay in.
    let listing = entries(&[
        b"xmodinfo.jsony",
        b"sub/modinfo.json",
        b"modinfo.json.bak",
        b"modinfo.json",
    ]);
    let (files, dirs) = get_archive_dirs_and_files(&listing);
    assert_eq!(
        files,
        entries(&[b"xmodinfo.jsony", b"sub/modinfo.json", b"modinfo.json.bak"])
    );
    assert!(dirs.is_empty());
}

#[test]
fn manifest_detection_matches_the_exact_name_ignoring_case() {
    assert!(is_modinfo_entry_exec(&b"modinfo.json".to_vec()));
    assert!(is_modinfo_entry_exec(&b"ModInfo.JSON".to_vec()));
    assert!(!is_modinfo_entry_exec(&b"sub/modinfo.json".to_vec()));
    assert!(!is_modinfo_entry_exec(&b"modinfo.json.bak".to_vec()));
    assert!(!is_modinfo_entry_exec(&b"modinfo.jso".to_vec()));
    assert!(!is_modinfo_entry_exec(&b"plain.txt".to_vec()));
}

#[test]
fn archive_names_split_like_path_stems_and_extensions() {
    let (stem, ext) = archive_name_and_extension(&b"mod.zip".to_vec()).expect("split");
    assert_eq!((stem, ext), (b"mod".to_vec(), b"zip".to_vec()));
    let (stem, ext) = archive_name_and_extension(&b"archive.tar.gz".to_vec()).expect("split");
    assert_eq!((stem, ext), (b"archive".to_vec(), b"gz".to_vec()));
    let (stem, ext) = archive_name_and_extension(&b"dotted.".to_vec()).expect("split");
    assert_eq!((stem, ext), (b"dotted".to_vec(), b"".to_vec()));
}

#[test]
fn names_without_an_extension_are_rejected() {
    assert_eq!(
        archive_name_and_extension(&b"noext".to_vec()),
        Err(InvalidArchive::NoExtension)
    );
    assert_eq!(
        archive_name_and_extension(&b".hidden".to_vec()),
        Err(InvalidArchive::NoExtension)
    );
    assert_eq!(
        archive_name_and_extension(&b"".to_vec()),
        Err(InvalidArchive::NoExtension)
    );
}

#[test]
fn descriptors_carry_path_name_and_extension() {
    let d = ModArchive::describe(b"/tmp/pack.zip".to_vec(), &b"pack.zip".to_vec())
        .expect("descriptor");
    assert_eq!(d.path, b"/tmp/pack.zip".to_vec());
    assert_eq!(d.name, b"pack".to_vec());
    assert_eq!(d.extension, b"zip".to_vec());
    assert!(matches!(
        ModArchive::describe(b"/tmp/noext".to_vec(), &b"noext".to_vec()),
        Err(InvalidArchive::NoExtension)
    ));
}

#[test]
fn stored_archive_copies_are_named_by_id_and_extension() {
    assert_eq!(registry_file_name(7, &b"zip".to_vec()), b"7.zip".to_vec());
    assert_eq!(registry_file_name(1234, &b"tar".to_vec()), b"1234.tar".to_vec());
}

#[test]
fn localization_destinations_join_root_language_and_path() {
    let dest = localization_dest_path(
        &b"/games/aw".to_vec(),
        &b"English".to_vec(),
        &b"a/x.txt".to_vec(),
    );
    assert_eq!(dest, b"/games/aw/localization/English/a/x.txt".to_vec());
    let via_kind = InjectionType::Localization.destination_path(
        &b"/games/aw".to_vec(),
        &b"German".to_vec(),
        &b"y.bin".to_vec(),
    );
    assert_eq!(via_kind, b"/games/aw/localization/German/y.bin".to_vec());
}

#[test]
fn injection_kinds_parse_by_name() {
    assert_eq!(
        InjectionType::parse(&b"localization".to_vec()),
        Some(InjectionType::Localization)
    );
    assert_eq!(
        InjectionType::parse(&b"Localization".to_vec()),
        Some(InjectionType::Localization)
    );
    assert_eq!(InjectionType::parse(&b"overlay".to_vec()), None);
}
