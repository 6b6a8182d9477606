//! Registry behavior against a fresh temporary store.
use modloader::errors::ModManagerError;
use modloader::injection::InjectionType;
use modloader::manager::ModManager;
use modloader::registry::{Mod, ModInfo};
use modloader::store::AppDb;
use modloader::version::Version;

fn fresh_manager() -> ModManager {
    let db = AppDb::open_temporary().expect("temporary store");
    ModManager::new(db).expect("manager")
}

fn record(uid: u64, name: &[u8], active: bool) -> Mod {
    Mod {
        name: name.to_vec(),
        uid,
        archive_file_extension: b"zip".to_vec(),
        author: Some(b"someone".to_vec()),
        version: Some(Version {
            major: 1,
            minor: 2,
            patch: 3,
            pre: b"rc.1".to_vec(),
            build: b"nightly".to_vec(),
        }),
        info: Some(b"a test mod".to_vec()),
        injection: InjectionType::Localization,
        is_active: active,
    }
}

#[test]
fn put_then_get_is_field_for_field_identical() {
    let mut mgr = fresh_manager();
    let rec = record(11, b"Example", false);
    mgr.registry.put(&rec).expect("put");
    let back = mgr.registry.get(11).expect("get");
    assert!(back.same_record(&rec));
    assert_eq!(back.name, rec.name);
    assert_eq!(back.uid, rec.uid);
    assert_eq!(back.archive_file_extension, rec.archive_file_extension);
    assert_eq!(back.author, rec.author);
    assert_eq!(back.info, rec.info);
    assert!(!back.is_active());
    let v = back.version.as_ref().expect("version kept");
    assert_eq!((v.major, v.minor, v.patch), (1, 2, 3));
    assert_eq!(v.pre, b"rc.1".to_vec());
    assert_eq!(v.build, b"nightly".to_vec());
}

#[test]
fn get_of_absent_id_is_mod_not_existing() {
    let mgr = fresh_manager();
    assert!(matches!(mgr.registry.get(5), Err(ModManagerError::ModNotExisting)));
}

#[test]
fn delete_removes_and_reports_absence() {
    let mut mgr = fresh_manager();
    let rec = record(3, b"Gone", false);
    mgr.registry.put(&rec).expect("put");
    let removed = mgr.registry.delete(3).expect("delete");
    assert!(removed.same_record(&rec));
    assert!(matches!(mgr.registry.get(3), Err(ModManagerError::ModNotExisting)));
    assert!(matches!(mgr.registry.delete(3), Err(ModManagerError::ModNotExisting)));
}

#[test]
fn find_by_name_scans_the_registry() {
    let mut mgr = fresh_manager();
    mgr.registry.put(&record(1, b"Alpha", false)).expect("put");
    mgr.registry.put(&record(2, b"Beta", true)).expect("put");
    let hit = mgr.registry.find_by_name(&b"Beta".to_vec()).expect("find");
    assert_eq!(hit.expect("found").uid, 2);
    let miss = mgr.registry.find_by_name(&b"Gamma".to_vec()).expect("find");
    assert!(miss.is_none());
}

#[test]
fn list_yields_every_row_with_its_id() {
    let mut mgr = fresh_manager();
    mgr.registry.put(&record(1, b"Alpha", false)).expect("put");
    mgr.registry.put(&record(2, b"Beta", true)).expect("put");
    mgr.registry.put(&record(10, b"Gamma", false)).expect("put");
    let mut all = mgr.registry.list().expect("list");
    all.sort_by_key(|(id, _)| *id);
    let ids: Vec<u64> = all.iter().map(|(id, _)| *id).collect();
    assert_eq!(ids, vec![1, 2, 10]);
    assert_eq!(all[1].1.name, b"Beta".to_vec());
}

#[test]
fn from_mod_info_parses_the_version() {
    let mut db = AppDb::open_temporary().expect("temporary store");
    let manifest = ModInfo {
        name: b"Manifested".to_vec(),
        author: b"author".to_vec(),
        version: b"2.10.4-beta.3+exp".to_vec(),
        info: b"described".to_vec(),
        injection: InjectionType::Localization,
    };
    let rec = Mod::from_mod_info(manifest, &b"rar".to_vec(), &mut db).expect("record");
    assert_eq!(rec.name, b"Manifested".to_vec());
    assert_eq!(rec.archive_file_extension, b"rar".to_vec());
    assert_eq!(rec.author(), Some(b"author".to_vec()));
    assert_eq!(rec.info(), Some(b"described".to_vec()));
    assert!(!rec.is_active());
    let v = rec.version.as_ref().expect("parsed");
    assert_eq!((v.major, v.minor, v.patch), (2, 10, 4));
    assert_eq!(v.pre, b"beta.3".to_vec());
    assert_eq!(v.build, b"exp".to_vec());
}

#[test]
fn from_mod_info_rejects_a_bad_version() {
    let mut db = AppDb::open_temporary().expect("temporary store");
    let manifest = ModInfo {
        name: b"Broken".to_vec(),
        author: b"author".to_vec(),
        version: b"not-a-version".to_vec(),
        info: b"".to_vec(),
        injection: InjectionType::Localization,
    };
    let r = Mod::from_mod_info(manifest, &b"zip".to_vec(), &mut db);
    assert!(matches!(r, Err(ModManagerError::InvalidModInfo { .. })));
}

#[test]
fn generated_ids_are_distinct() {
    let mut db = AppDb::open_temporary().expect("temporary store");
    let a = Mod::new(&b"One".to_vec(), InjectionType::Localization, &b"zip".to_vec(), &mut db)
        .expect("record");
    let b = Mod::new(&b"Two".to_vec(), InjectionType::Localization, &b"zip".to_vec(), &mut db)
        .expect("record");
    assert_ne!(a.uid, b.uid);
}

#[test]
fn same_record_detects_any_field_change() {
    let base = record(7, b"Same", false);
    assert!(base.same_record(&record(7, b"Same", false)));
    assert!(!base.same_record(&record(8, b"Same", false)));
    assert!(!base.same_record(&record(7, b"Other", false)));
    assert!(!base.same_record(&record(7, b"Same", true)));
    let mut no_version = record(7, b"Same", false);
    no_version.version = None;
    assert!(!base.same_record(&no_version));
}
