//! Orchestrator flows against a fresh temporary store.
use modloader::errors::ModManagerError;
use modloader::injection::InjectionType;
use modloader::manager::{AddDecision, ModManager};
use modloader::registry::{Mod, ModInfo};
use modloader::store::AppDb;

fn fresh_manager() -> ModManager {
    let db = AppDb::open_temporary().expect("temporary store");
    ModManager::new(db).expect("manager")
}

fn manifest(name: &[u8], version: &[u8]) -> ModInfo {
    ModInfo {
        name: name.to_vec(),
        author: b"author".to_vec(),
        version: version.to_vec(),
        info: b"info".to_vec(),
        injection: InjectionType::Localization,
    }
}

fn entries(list: &[&[u8]]) -> Vec<Vec<u8>> {
    list.iter().map(|p| p.to_vec()).collect()
}

fn register(mgr: &mut ModManager, name: &[u8]) -> u64 {
    let decision = mgr
        .add_begin(&name.to_vec(), &b"zip".to_vec(), None)
        .expect("decision");
    let record = match decision {
        AddDecision::New(c) => c,
        _ => panic!("expected a new mod"),
    };
    let uid = record.uid;
    mgr.add_commit(&record).expect("commit");
    uid
}

fn activate(mgr: &mut ModManager, uid: u64, archive: &[&[u8]]) -> Mod {
    let plan = mgr.activate_check(uid, &entries(archive)).expect("plan");
    mgr.activate_commit(uid, &plan.files).expect("commit")
}

#[test]
fn add_registers_a_new_mod() {
    let mut mgr = fresh_manager();
    let uid = register(&mut mgr, b"Fresh");
    let rec = mgr.registry.get(uid).expect("stored");
    assert_eq!(rec.name, b"Fresh".to_vec());
    assert!(!rec.is_active());
}

#[test]
fn add_rejects_an_older_candidate_with_both_version_texts() {
    let mut mgr = fresh_manager();
    let decision = mgr
        .add_begin(&b"ignored".to_vec(), &b"zip".to_vec(), Some(manifest(b"Pack", b"2.0.0")))
        .expect("decision");
    let record = match decision {
        AddDecision::New(c) => c,
        _ => panic!("expected a new mod"),
    };
    mgr.add_commit(&record).expect("commit");
    let second = mgr.add_begin(
        &b"ignored".to_vec(),
        &b"zip".to_vec(),
        Some(manifest(b"Pack", b"1.9.9")),
    );
    match second {
        Err(ModManagerError::ModVersionMismatch { mismatch }) => {
            assert_eq!(mismatch.0, b"1.9.9".to_vec());
            assert_eq!(mismatch.1, b"2.0.0".to_vec());
        },
        _ => panic!("expected a version mismatch"),
    }
}

#[test]
fn add_replaces_an_older_version_under_its_id() {
    let mut mgr = fresh_manager();
    let decision = mgr
        .add_begin(&b"ignored".to_vec(), &b"zip".to_vec(), Some(manifest(b"Pack", b"1.0.0")))
        .expect("decision");
    let first = match decision {
        AddDecision::New(c) => c,
        _ => panic!("expected a new mod"),
    };
    let first_uid = first.uid;
    mgr.add_commit(&first).expect("commit");
    let second = mgr
        .add_begin(&b"ignored".to_vec(), &b"zip".to_vec(), Some(manifest(b"Pack", b"1.1.0")))
        .expect("decision");
    match second {
        AddDecision::Replace { candidate, existing } => {
            assert_eq!(existing.uid, first_uid);
            assert_eq!(candidate.uid, first_uid);
            let v = candidate.version.as_ref().expect("version");
            assert_eq!((v.major, v.minor, v.patch), (1, 1, 0));
        },
        _ => panic!("expected a replacement"),
    }
}

#[test]
fn add_asks_for_confirmation_when_a_version_is_missing() {
    let mut mgr = fresh_manager();
    let uid = register(&mut mgr, b"Plain");
    let second = mgr
        .add_begin(&b"ignored".to_vec(), &b"zip".to_vec(), Some(manifest(b"Plain", b"1.0.0")))
        .expect("decision");
    match second {
        AddDecision::NeedsConfirmation { candidate, existing } => {
            assert_eq!(existing.uid, uid);
            assert_eq!(candidate.uid, uid);
        },
        _ => panic!("expected a confirmation request"),
    }
}

#[test]
fn activation_claims_files_and_marks_active() {
    let mut mgr = fresh_manager();
    let uid = register(&mut mgr, b"A");
    let rec = activate(
        &mut mgr,
        uid,
        &[b"a/", b"a/x.txt", b"a/y.txt", b"modinfo.json", b"sub/modinfo.json"],
    );
    assert!(rec.is_active());
    let mut owned = mgr.files.get_files(uid).expect("owned");
    owned.sort();
    assert_eq!(owned, entries(&[b"a/x.txt", b"a/y.txt", b"sub/modinfo.json"]));
    assert!(mgr.registry.get(uid).expect("stored").is_active());
}

#[test]
fn conflicting_activation_fails_with_the_owner_name_and_path() {
    let mut mgr = fresh_manager();
    let uid_a = register(&mut mgr, b"A");
    activate(&mut mgr, uid_a, &[b"a/x.txt", b"a/y.txt"]);
    let uid_b = register(&mut mgr, b"B");
    let r = mgr.activate_check(uid_b, &entries(&[b"a/x.txt", b"b/z.txt"]));
    match r {
        Err(ModManagerError::ModConflict { conflict }) => {
            assert_eq!(conflict, vec![(b"A".to_vec(), b"a/x.txt".to_vec())]);
        },
        _ => panic!("expected a conflict"),
    }
    // Nothing of B was claimed and A's ownership is untouched.
    assert!(mgr.files.get_files(uid_b).expect("owned").is_empty());
    let mut owned = mgr.files.get_files(uid_a).expect("owned");
    owned.sort();
    assert_eq!(owned, entries(&[b"a/x.txt", b"a/y.txt"]));
    assert!(!mgr.registry.get(uid_b).expect("stored").is_active());
}

#[test]
fn activate_twice_is_mod_already_active() {
    let mut mgr = fresh_manager();
    let uid = register(&mut mgr, b"A");
    activate(&mut mgr, uid, &[b"a/x.txt"]);
    let r = mgr.activate_check(uid, &entries(&[b"a/x.txt"]));
    assert!(matches!(r, Err(ModManagerError::ModAlreadyActive)));
}

#[test]
fn activate_of_absent_mod_is_mod_not_existing() {
    let mgr = fresh_manager();
    let r = mgr.activate_check(99, &entries(&[b"a/x.txt"]));
    assert!(matches!(r, Err(ModManagerError::ModNotExisting)));
}

#[test]
fn deactivation_releases_files_and_marks_inactive() {
    let mut mgr = fresh_manager();
    let uid = register(&mut mgr, b"A");
    activate(&mut mgr, uid, &[b"a/x.txt", b"a/y.txt"]);
    let mut to_delete = mgr.deactivate_prepare(uid).expect("paths");
    to_delete.sort();
    assert_eq!(to_delete, entries(&[b"a/x.txt", b"a/y.txt"]));
    let rec = mgr.deactivate_commit(uid).expect("commit");
    assert!(!rec.is_active());
    assert!(mgr.files.get_files(uid).expect("owned").is_empty());
    assert!(!mgr.registry.get(uid).expect("stored").is_active());
}

#[test]
fn deactivate_of_inactive_mod_is_mod_already_deactivated() {
    let mut mgr = fresh_manager();
    let uid = register(&mut mgr, b"A");
    let r = mgr.deactivate_prepare(uid);
    assert!(matches!(r, Err(ModManagerError::ModAlreadyDeactivated)));
}

#[test]
fn deactivate_all_leaves_every_mod_inactive_with_no_ownership() {
    let mut mgr = fresh_manager();
    let uid_a = register(&mut mgr, b"A");
    let uid_b = register(&mut mgr, b"B");
    let uid_c = register(&mut mgr, b"C");
    activate(&mut mgr, uid_a, &[b"a/1.txt"]);
    activate(&mut mgr, uid_c, &[b"c/1.txt", b"c/2.txt"]);
    let mut plan = mgr.deactivate_all_plan().expect("plan");
    plan.sort();
    let mut expected = vec![uid_a, uid_c];
    expected.sort();
    assert_eq!(plan, expected);
    for uid in plan {
        mgr.deactivate_prepare(uid).expect("paths");
        mgr.deactivate_commit(uid).expect("commit");
    }
    for uid in [uid_a, uid_b, uid_c] {
        assert!(!mgr.registry.get(uid).expect("stored").is_active());
        assert!(mgr.files.get_files(uid).expect("owned").is_empty());
    }
    assert!(mgr.deactivate_all_plan().expect("plan").is_empty());
}

#[test]
fn delete_removes_the_record_and_never_reuses_the_id() {
    let mut mgr = fresh_manager();
    let uid = register(&mut mgr, b"Doomed");
    let (rec, paths) = mgr.delete_prepare(uid).expect("prepare");
    assert_eq!(rec.uid, uid);
    assert!(paths.is_empty());
    let removed = mgr.delete_commit(uid).expect("commit");
    assert_eq!(removed.uid, uid);
    assert!(matches!(mgr.registry.get(uid), Err(ModManagerError::ModNotExisting)));
    assert!(matches!(mgr.delete_commit(uid), Err(ModManagerError::ModNotExisting)));
    let fresh_uid = register(&mut mgr, b"Unrelated");
    assert_ne!(fresh_uid, uid);
}

#[test]
fn delete_of_an_active_mod_reports_its_files() {
    let mut mgr = fresh_manager();
    let uid = register(&mut mgr, b"Active");
    activate(&mut mgr, uid, &[b"a/x.txt"]);
    let (rec, paths) = mgr.delete_prepare(uid).expect("prepare");
    assert!(rec.is_active());
    assert_eq!(paths, entries(&[b"a/x.txt"]));
    mgr.delete_commit(uid).expect("commit");
    assert!(mgr.files.get_files(uid).expect("owned").is_empty());
}

#[test]
fn initial_mod_data_lists_the_registry() {
    let mut mgr = fresh_manager();
    let uid_a = register(&mut mgr, b"A");
    let uid_b = register(&mut mgr, b"B");
    let mut all = mgr.get_initial_mod_data().expect("snapshot");
    all.sort_by_key(|(id, _)| *id);
    let mut expected = vec![uid_a, uid_b];
    expected.sort();
    let ids: Vec<u64> = all.iter().map(|(id, _)| *id).collect();
    assert_eq!(ids, expected);
}
