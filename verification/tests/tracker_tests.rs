//! File-ownership tracker behavior against a fresh temporary store.
use modloader::manager::ModManager;
use modloader::store::AppDb;

fn fresh_manager() -> ModManager {
    let db = AppDb::open_temporary().expect("temporary store");
    ModManager::new(db).expect("manager")
}

fn paths(list: &[&[u8]]) -> Vec<Vec<u8>> {
    list.iter().map(|p| p.to_vec()).collect()
}

#[test]
fn disjoint_insert_leaves_no_conflicts() {
    let mut mgr = fresh_manager();
    let p2 = paths(&[b"b/one.txt", b"b/two.txt"]);
    mgr.files.insert_files(2, &p2).expect("insert");
    let p1 = paths(&[b"a/one.txt", b"a/two.txt"]);
    let conflicts = mgr.files.get_conflicts(&p1).expect("check");
    assert!(conflicts.is_none());
}

#[test]
fn conflicts_after_insert_are_exactly_the_inserted_paths() {
    let mut mgr = fresh_manager();
    let p1 = paths(&[b"a/x.txt", b"a/y.txt"]);
    mgr.files.insert_files(9, &p1).expect("insert");
    let conflicts = mgr.files.get_conflicts(&p1).expect("check").expect("hits");
    assert_eq!(
        conflicts,
        vec![(9u64, b"a/x.txt".to_vec()), (9u64, b"a/y.txt".to_vec())]
    );
}

#[test]
fn remove_twice_never_fails_and_is_a_no_op() {
    let mut mgr = fresh_manager();
    let p = paths(&[b"a/x.txt", b"a/y.txt"]);
    mgr.files.insert_files(1, &p).expect("insert");
    mgr.files.remove_files(&p).expect("first removal");
    assert!(mgr.files.get_conflicts(&p).expect("check").is_none());
    mgr.files.remove_files(&p).expect("second removal");
    assert!(mgr.files.get_conflicts(&p).expect("check").is_none());
    assert!(mgr.files.get_files(1).expect("scan").is_empty());
}

#[test]
fn removing_from_an_empty_tracker_is_fine() {
    let mut mgr = fresh_manager();
    mgr.files.remove_files(&paths(&[b"nothing/here"])).expect("removal");
}

#[test]
fn get_files_returns_exactly_the_owned_paths() {
    let mut mgr = fresh_manager();
    mgr.files.insert_files(1, &paths(&[b"a/1", b"a/2"])).expect("insert");
    mgr.files.insert_files(2, &paths(&[b"b/1"])).expect("insert");
    let mut owned = mgr.files.get_files(1).expect("scan");
    owned.sort();
    assert_eq!(owned, paths(&[b"a/1", b"a/2"]));
    assert_eq!(mgr.files.get_files(2).expect("scan"), paths(&[b"b/1"]));
    assert!(mgr.files.get_files(3).expect("scan").is_empty());
}

#[test]
fn insert_overwrites_the_owner_on_misuse() {
    let mut mgr = fresh_manager();
    let p = paths(&[b"shared.txt"]);
    mgr.files.insert_files(1, &p).expect("insert");
    mgr.files.insert_files(2, &p).expect("insert");
    let conflicts = mgr.files.get_conflicts(&p).expect("check").expect("hits");
    assert_eq!(conflicts, vec![(2u64, b"shared.txt".to_vec())]);
}
