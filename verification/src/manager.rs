//! The mod manager orchestrator: the add / delete / activate /
//! deactivate flows over the registry and the file-ownership tracker,
//! split into decision and commit steps. The embedding application
//! performs the filesystem and archive work between the steps.
use vstd::prelude::*;

use crate::archive::{get_archive_dirs_and_files, is_dir_entry, is_kept_file};
use crate::errors::ModManagerError;
use crate::filetree::{
    conflicts_of, disowned, owned_paths_of, own_insert_all, owner_bytes, paths_view,
    FileTreeManager,
};
use crate::injection::InjectionType;
use crate::registry::{
    dec_record, id_key, reg_has, reg_put, reg_record, Mod, ModInfo,
    ModRegistry, ModView,
};
use crate::store::{no_entries, AppDb};
use crate::version::{semver_parsed, version_lt, version_text};

verus! {

/// What changed in the registry, for a live UI mirror: a removal by
/// id, or an insert/update with the full record.
pub enum ModChangedEvent {
    Delete(u64),
    InsertUpdate(u64, Mod),
}

/// The decision `add_begin` reaches about a candidate mod.
pub enum AddDecision {
    /// No mod of this name is registered: persist the candidate.
    New(Mod),
    /// A strictly older version is registered: persist the candidate
    /// under the existing id (ejecting the existing files first if it
    /// is active).
    Replace { candidate: Mod, existing: Mod },
    /// A mod of this name is registered but at least one side has no
    /// parsed version: ask the user before replacing.
    NeedsConfirmation { candidate: Mod, existing: Mod },
}

/// An activation checked and ready to materialize: the record, and the
/// archive's directories and injectable files.
pub struct ActivationPlan {
    pub record: Mod,
    pub dirs: Vec<Vec<u8>>,
    pub files: Vec<Vec<u8>>,
}

/// Whether a candidate record carries exactly what the archive name,
/// extension and optional manifest dictate (its id aside).
pub open spec fn candidate_ok(
    c: ModView,
    archive_name: Seq<u8>,
    ext: Seq<u8>,
    manifest: Option<ModInfo>,
) -> bool {
    &&& match manifest {
        None => c.name == archive_name && c.author is None && c.version is None
            && c.info is None && c.injection == InjectionType::Localization,
        Some(mi) => c.name == mi.name@ && c.author == Some(mi.author@) && (Some(
            c.version->0,
        ) == semver_parsed(mi.version@)) && c.version is Some && c.info == Some(mi.info@)
            && c.injection == mi.injection,
    }
    &&& c.archive_file_extension == ext
    &&& !c.is_active
}

/// Whether some registry row decodes to exactly this record.
pub open spec fn registry_row_is(m: Map<Seq<u8>, Seq<u8>>, ex: ModView) -> bool {
    exists|k: Seq<u8>| m.dom().contains(k) && dec_record(#[trigger] m[k]) == Some(ex)
}

/// Whether every registry row decodes and none carries this name.
pub open spec fn no_row_named(m: Map<Seq<u8>, Seq<u8>>, name: Seq<u8>) -> bool {
    forall|k: Seq<u8>|
        m.dom().contains(k) ==> (dec_record(#[trigger] m[k]) matches Some(mv) && mv.name
            != name)
}

/// The injectable files of an archive listing.
pub open spec fn kept_files_of(entries: Seq<Vec<u8>>) -> Seq<Seq<u8>> {
    paths_view(entries).filter(|p: Seq<u8>| is_kept_file(p))
}

/// The directories of an archive listing.
pub open spec fn dirs_of(entries: Seq<Vec<u8>>) -> Seq<Seq<u8>> {
    paths_view(entries).filter(|p: Seq<u8>| is_dir_entry(p))
}

/// The mod manager: the store handle and the two typed layers over its
/// trees.
pub struct ModManager {
    db: AppDb,
    pub registry: ModRegistry,
    pub files: FileTreeManager,
}

impl ModManager {
    /// The registry rows.
    pub closed spec fn mods(self) -> Map<Seq<u8>, Seq<u8>> {
        self.registry.entries()
    }

    /// The ownership rows.
    pub closed spec fn owners(self) -> Map<Seq<u8>, Seq<u8>> {
        self.files.entries()
    }

    /// A lower bound on every id the store will generate from now on.
    pub closed spec fn floor(self) -> int {
        self.db.floor()
    }

    /// Takes ownership of the store and opens the registry and
    /// ownership trees; both are empty when the store is fresh.
    pub fn new(db: AppDb) -> (r: Result<ModManager, ModManagerError>)
        ensures
            match r {
                Ok(m) => db.fresh() ==> (m.mods() == no_entries() && m.owners()
                    == no_entries()),
                Err(e) => e is Io || e is Db,
            },
    {
        let mod_tree = match db.open_tree("modtree") {
            Ok(t) => t,
            Err(e) => {
                return Err(e);
            },
        };
        let file_tree = match db.open_tree("filetree") {
            Ok(t) => t,
            Err(e) => {
                return Err(e);
            },
        };
        Ok(
            ModManager {
                db,
                registry: ModRegistry::attach(mod_tree),
                files: FileTreeManager::attach(file_tree),
            },
        )
    }

    /// A point-in-time snapshot of every registered mod with its row
    /// id, for the initial UI state.
    pub fn get_initial_mod_data(&self) -> (r: Result<Vec<(u64, Mod)>, ModManagerError>)
        ensures
            match r {
                Ok(v) => {
                    &&& forall|i: int|
                        0 <= i < v@.len() ==> reg_record(
                            self.mods(),
                            (#[trigger] v@[i]).0,
                        ) == Some(v@[i].1@)
                    &&& forall|i: int|
                        0 <= i < v@.len() ==> (#[trigger] v@[i]).1@.uid == v@[i].0
                    &&& forall|k: Seq<u8>|
                        self.mods().dom().contains(k) ==> exists|i: int|
                            0 <= i < v@.len() && id_key((#[trigger] v@[i]).0) == k
                    &&& forall|i: int, j: int|
                        0 <= i < j < v@.len() ==> (#[trigger] v@[i]).0 != (
                        #[trigger] v@[j]).0
                },
                Err(e) => e is Io || e is Db || e is DeSerialization,
            },
    {
        self.registry.list()
    }

    /// Decides how to add a candidate mod built from an archive's name,
    /// extension and optional manifest: register it as new, replace a
    /// strictly older same-named mod under its id, ask the user when
    /// versions cannot settle it, or reject the candidate. Nothing is
    /// persisted here; only a fresh id is drawn.
    pub fn add_begin(
        &mut self,
        archive_name: &Vec<u8>,
        archive_extension: &Vec<u8>,
        manifest: Option<ModInfo>,
    ) -> (r: Result<AddDecision, ModManagerError>)
        ensures
            final(self).mods() == old(self).mods(),
            final(self).owners() == old(self).owners(),
            old(self).floor() <= final(self).floor(),
            (r matches Err(ModManagerError::InvalidModInfo { .. })) <==> (
            manifest matches Some(mi) && semver_parsed(mi.version@) is None),
            match r {
                Ok(AddDecision::New(c)) => candidate_ok(
                    c@,
                    archive_name@,
                    archive_extension@,
                    manifest,
                ) && no_row_named(old(self).mods(), c@.name) && old(self).floor() <= (
                c@.uid as int) && (c@.uid as int) < final(self).floor(),
                Ok(AddDecision::Replace { candidate, existing }) => candidate_ok(
                    candidate@,
                    archive_name@,
                    archive_extension@,
                    manifest,
                ) && registry_row_is(old(self).mods(), existing@) && existing@.name
                    == candidate@.name && candidate@.version is Some && existing@.version
                    is Some && version_lt(existing@.version->0, candidate@.version->0)
                    && candidate@.uid == existing@.uid,
                Ok(AddDecision::NeedsConfirmation { candidate, existing }) => candidate_ok(
                    candidate@,
                    archive_name@,
                    archive_extension@,
                    manifest,
                ) && registry_row_is(old(self).mods(), existing@) && existing@.name
                    == candidate@.name && (candidate@.version is None || existing@.version
                    is None) && candidate@.uid == existing@.uid,
                Err(ModManagerError::ModVersionMismatch { mismatch }) => (
                manifest matches Some(mi) && semver_parsed(mi.version@) matches Some(cv)
                    && mismatch.0@ == version_text(cv) && exists|ex: ModView|
                    #[trigger] registry_row_is(old(self).mods(), ex) && ex.name == mi.name@
                        && ex.version is Some && !version_lt(ex.version->0, cv)
                        && mismatch.1@ == version_text(ex.version->0)),
                Err(e) => e is Io || e is Db || e is DeSerialization || e
                    is InvalidModInfo,
            },
    {
        let mut candidate = match manifest {
            None => {
                match Mod::new(
                    archive_name,
                    InjectionType::Localization,
                    archive_extension,
                    &mut self.db,
                ) {
                    Ok(c) => c,
                    Err(e) => {
                        return Err(e);
                    },
                }
            },
            Some(mi) => {
                match Mod::from_mod_info(mi, archive_extension, &mut self.db) {
                    Ok(c) => c,
                    Err(e) => {
                        return Err(e);
                    },
                }
            },
        };
        let existing = match self.registry.find_by_name(&candidate.name) {
            Ok(found) => found,
            Err(e) => {
                return Err(e);
            },
        };
        match existing {
            None => Ok(AddDecision::New(candidate)),
            Some(ex) => {
                let ambiguous = candidate.version.is_none() || ex.version.is_none();
                if ambiguous {
                    candidate.uid = ex.uid;
                    Ok(AddDecision::NeedsConfirmation { candidate, existing: ex })
                } else {
                    let newer = candidate.is_newer_version(&ex);
                    if newer {
                        candidate.uid = ex.uid;
                        Ok(AddDecision::Replace { candidate, existing: ex })
                    } else {
                        let cand_text = match &candidate.version {
                            Some(v) => crate::version::render_version(v),
                            None => Vec::new(),
                        };
                        let ex_text = match &ex.version {
                            Some(v) => crate::version::render_version(v),
                            None => Vec::new(),
                        };
                        proof {
                            assert(registry_row_is(old(self).mods(), ex@));
                        }
                        Err(ModManagerError::ModVersionMismatch { mismatch: (cand_text, ex_text) })
                    }
                }
            },
        }
    }

    /// Persists an add decision's record (new or replacing) and yields
    /// the event to publish. The application copies the archive into
    /// the registry folder first.
    pub fn add_commit(&mut self, record: &Mod) -> (r: Result<ModChangedEvent, ModManagerError>)
        ensures
            final(self).owners() == old(self).owners(),
            final(self).floor() == old(self).floor(),
            match r {
                Ok(ev) => final(self).mods() == reg_put(old(self).mods(), record@) && (
                ev matches ModChangedEvent::InsertUpdate(u, m) && u == record@.uid && m@
                    == record@),
                Err(e) => e is Io || e is Db,
            },
    {
        match self.registry.put(record) {
            Ok(_) => Ok(ModChangedEvent::InsertUpdate(record.uid, record.clone())),
            Err(e) => Err(e),
        }
    }

    /// Checks an activation: the record must exist and be inactive, and
    /// none of the archive's injectable files may already be owned.
    /// Yields the plan whose files the application then materializes.
    pub fn activate_check(&self, uid: u64, entries: &Vec<Vec<u8>>) -> (r: Result<
        ActivationPlan,
        ModManagerError,
    >)
        ensures
            match r {
                Ok(plan) => {
                    &&& reg_record(self.mods(), uid) == Some(plan.record@)
                    &&& !plan.record@.is_active
                    &&& plan.record@.uid == uid
                    &&& plan.files@.map_values(|p: Vec<u8>| p@) == kept_files_of(entries@)
                    &&& plan.dirs@.map_values(|p: Vec<u8>| p@) == dirs_of(entries@)
                    &&& conflicts_of(self.owners(), kept_files_of(entries@)).len() == 0
                },
                Err(e) => match e {
                    ModManagerError::ModAlreadyActive => (reg_record(
                        self.mods(),
                        uid,
                    ) matches Some(m) && m.is_active),
                    ModManagerError::ModNotExisting => !reg_has(self.mods(), uid) || (
                    conflicts_of(self.owners(), kept_files_of(entries@)).len() > 0
                        && exists|j: int|
                        0 <= j < conflicts_of(self.owners(), kept_files_of(entries@)).len()
                            && !reg_has(
                            self.mods(),
                            (#[trigger] conflicts_of(
                                self.owners(),
                                kept_files_of(entries@),
                            )[j]).0,
                        )),
                    ModManagerError::ModConflict { conflict } => {
                        &&& (reg_record(self.mods(), uid) matches Some(m) && !m.is_active)
                        &&& conflict@.len() == conflicts_of(
                            self.owners(),
                            kept_files_of(entries@),
                        ).len()
                        &&& conflict@.len() > 0
                        &&& forall|j: int|
                            0 <= j < conflict@.len() ==> (#[trigger] conflict@[j]).1@
                                == conflicts_of(self.owners(), kept_files_of(entries@))[j].1
                                && (reg_record(
                                self.mods(),
                                conflicts_of(self.owners(), kept_files_of(entries@))[j].0,
                            ) matches Some(om) && om.name == conflict@[j].0@)
                    },
                    ModManagerError::DeSerialization { .. } => (reg_has(self.mods(), uid)
                        && (reg_record(self.mods(), uid) is None || (reg_record(
                        self.mods(),
                        uid,
                    ) matches Some(m) && m.uid != uid))) || (exists|i: int|
                        0 <= i < kept_files_of(entries@).len() && self.owners().dom().contains(
                            #[trigger] kept_files_of(entries@)[i],
                        ) && self.owners()[kept_files_of(entries@)[i]].len() != 8) || (
                    exists|j: int|
                        0 <= j < conflicts_of(self.owners(), kept_files_of(entries@)).len()
                            && reg_has(
                            self.mods(),
                            (#[trigger] conflicts_of(
                                self.owners(),
                                kept_files_of(entries@),
                            )[j]).0,
                        ) && reg_record(
                            self.mods(),
                            conflicts_of(self.owners(), kept_files_of(entries@))[j].0,
                        ) is None),
                    _ => e is Io || e is Db,
                },
            },
    {
        let record = match self.registry.get(uid) {
            Ok(m) => m,
            Err(e) => {
                return Err(e);
            },
        };
        if record.is_active() {
            return Err(ModManagerError::ModAlreadyActive);
        }
        let (files, dirs) = get_archive_dirs_and_files(entries);
        let conflicts = match self.files.get_conflicts(&files) {
            Ok(c) => c,
            Err(e) => {
                proof {
                    if e is DeSerialization {
                        let i = choose|i: int|
                            0 <= i < files@.len() && self.owners().dom().contains(
                                (#[trigger] files@[i])@,
                            ) && self.owners()[files@[i]@].len() != 8;
                        assert(kept_files_of(entries@)[i] == files@[i]@);
                    }
                }
                return Err(e);
            },
        };
        let ghost cf = conflicts_of(self.owners(), kept_files_of(entries@));
        match conflicts {
            None => {
                if record.uid != uid {
                    // A row whose stored id disagrees with its key is
                    // corrupt self-written data.
                    return Err(
                        ModManagerError::DeSerialization {
                            msg: "a registry row disagrees with its key".to_owned(),
                        },
                    );
                }
                Ok(ActivationPlan { record, dirs, files })
            },
            Some(hits) => {
                let mut named: Vec<(Vec<u8>, Vec<u8>)> = Vec::new();
                let mut j: usize = 0;
                proof {
                    assert(hits@.map_values(|q: (u64, Vec<u8>)| (q.0, q.1@)).len()
                        == hits@.len());
                }
                while j < hits.len()
                    invariant
                        j <= hits@.len(),
                        cf == conflicts_of(self.owners(), kept_files_of(entries@)),
                        hits@.map_values(|q: (u64, Vec<u8>)| (q.0, q.1@)) == cf,
                        named@.len() == j,
                        forall|t: int|
                            0 <= t < j ==> (#[trigger] named@[t]).1@ == cf[t].1 && (
                            reg_record(self.mods(), cf[t].0) matches Some(om) && om.name
                                == named@[t].0@),
                    decreases hits@.len() - j,
                {
                    proof {
                        assert(hits@.map_values(|q: (u64, Vec<u8>)| (q.0, q.1@))[j as int]
                            == (hits@[j as int].0, hits@[j as int].1@));
                    }
                    let owner = match self.registry.get(hits[j].0) {
                        Ok(m) => m,
                        Err(e) => {
                            proof {
                                if e is ModNotExisting {
                                    assert(!reg_has(self.mods(), cf[j as int].0));
                                }
                                if e is DeSerialization {
                                    assert(reg_has(self.mods(), cf[j as int].0));
                                    assert(reg_record(self.mods(), cf[j as int].0) is None);
                                }
                            }
                            return Err(e);
                        },
                    };
                    named.push((owner.name.clone(), hits[j].1.clone()));
                    proof {
                        assert(named@[j as int].1@ == cf[j as int].1);
                        assert(named@[j as int].0@ == owner@.name);
                        assert(reg_record(self.mods(), cf[j as int].0) == Some(owner@));
                        assert forall|t: int| 0 <= t < j + 1 implies (#[trigger] named@[t]).1@
                            == cf[t].1 && (reg_record(self.mods(), cf[t].0) matches Some(om)
                            && om.name == named@[t].0@) by {
                            if t < j {
                                assert(named@[t] == named@.subrange(0, j as int)[t]);
                            }
                        }
                    }
                    j = j + 1;
                }
                assert(cf.len() > 0);
                Err(ModManagerError::ModConflict { conflict: named })
            },
        }
    }

    /// Commits an activation after the files are materialized: claims
    /// every injected path for the mod atomically, then persists the
    /// record as active. Yields the persisted record.
    pub fn activate_commit(&mut self, uid: u64, files: &Vec<Vec<u8>>) -> (r: Result<
        Mod,
        ModManagerError,
    >)
        ensures
            final(self).floor() == old(self).floor(),
            match r {
                Ok(rec) => {
                    &&& (reg_record(old(self).mods(), uid) matches Some(m0) && rec@ == (
                    ModView { is_active: true, ..m0 }))
                    &&& final(self).mods() == reg_put(old(self).mods(), rec@)
                    &&& final(self).owners() == own_insert_all(
                        old(self).owners(),
                        paths_view(files@),
                        uid,
                    )
                },
                Err(e) => match e {
                    ModManagerError::ModNotExisting => !reg_has(old(self).mods(), uid)
                        && final(self).mods() == old(self).mods() && final(self).owners()
                        == old(self).owners(),
                    ModManagerError::DeSerialization { .. } => final(self).mods() == old(
                        self,
                    ).mods() && final(self).owners() == old(self).owners(),
                    _ => e is Io || e is Db,
                },
            },
    {
        let mut record = match self.registry.get(uid) {
            Ok(m) => m,
            Err(e) => {
                return Err(e);
            },
        };
        match self.files.insert_files(uid, files) {
            Ok(_) => {},
            Err(e) => {
                return Err(e);
            },
        }
        record.set_active_flag(true);
        match self.registry.put(&record) {
            Ok(_) => Ok(record),
            Err(e) => Err(e),
        }
    }

    /// Checks a deactivation: the record must exist and be active.
    /// Yields the paths the mod owns, which the application deletes
    /// from disk before committing.
    pub fn deactivate_prepare(&self, uid: u64) -> (r: Result<Vec<Vec<u8>>, ModManagerError>)
        ensures
            match r {
                Ok(v) => (reg_record(self.mods(), uid) matches Some(m) && m.is_active)
                    && owned_paths_of(self.owners(), uid, v@),
                Err(e) => match e {
                    ModManagerError::ModAlreadyDeactivated => (reg_record(
                        self.mods(),
                        uid,
                    ) matches Some(m) && !m.is_active),
                    ModManagerError::ModNotExisting => !reg_has(self.mods(), uid),
                    _ => e is Io || e is Db || e is DeSerialization,
                },
            },
    {
        let record = match self.registry.get(uid) {
            Ok(m) => m,
            Err(e) => {
                return Err(e);
            },
        };
        if !record.is_active() {
            return Err(ModManagerError::ModAlreadyDeactivated);
        }
        self.files.get_files(uid)
    }

    /// The paths a mod currently owns.
    pub fn get_owned_paths(&self, uid: u64) -> (r: Result<Vec<Vec<u8>>, ModManagerError>)
        ensures
            match r {
                Ok(v) => owned_paths_of(self.owners(), uid, v@),
                Err(e) => e is Io || e is Db || e is DeSerialization,
            },
    {
        self.files.get_files(uid)
    }

    /// Releases every ownership row of the mod in one atomic batch.
    pub fn remove_active_mod_files(&mut self, uid: u64) -> (r: Result<(), ModManagerError>)
        ensures
            final(self).mods() == old(self).mods(),
            final(self).floor() == old(self).floor(),
            match r {
                Ok(_) => final(self).owners() == disowned(old(self).owners(), uid),
                Err(e) => (e is Io || e is Db || e is DeSerialization) && (e
                    is DeSerialization ==> final(self).owners() == old(self).owners()),
            },
    {
        let paths = match self.files.get_files(uid) {
            Ok(v) => v,
            Err(e) => {
                return Err(e);
            },
        };
        match self.files.remove_files(&paths) {
            Ok(_) => {
                proof {
                    lemma_owned_removal(old(self).owners(), uid, paths@);
                }
                Ok(())
            },
            Err(e) => Err(e),
        }
    }

    /// Commits a deactivation after the files are deleted: releases the
    /// mod's ownership rows, then persists the record as inactive.
    pub fn deactivate_commit(&mut self, uid: u64) -> (r: Result<Mod, ModManagerError>)
        ensures
            final(self).floor() == old(self).floor(),
            match r {
                Ok(rec) => {
                    &&& (reg_record(old(self).mods(), uid) matches Some(m0) && rec@ == (
                    ModView { is_active: false, ..m0 }))
                    &&& final(self).mods() == reg_put(old(self).mods(), rec@)
                    &&& final(self).owners() == disowned(old(self).owners(), uid)
                },
                Err(e) => match e {
                    ModManagerError::ModNotExisting => !reg_has(old(self).mods(), uid)
                        && final(self).mods() == old(self).mods() && final(self).owners()
                        == old(self).owners(),
                    ModManagerError::DeSerialization { .. } => final(self).mods() == old(
                        self,
                    ).mods() && final(self).owners() == old(self).owners(),
                    _ => e is Io || e is Db,
                },
            },
    {
        let mut record = match self.registry.get(uid) {
            Ok(m) => m,
            Err(e) => {
                return Err(e);
            },
        };
        match self.remove_active_mod_files(uid) {
            Ok(_) => {},
            Err(e) => {
                return Err(e);
            },
        }
        record.set_active_flag(false);
        match self.registry.put(&record) {
            Ok(_) => Ok(record),
            Err(e) => Err(e),
        }
    }

    /// Checks a deletion: yields the record and, when it is active, the
    /// paths to delete from disk. The application also deletes the
    /// stored archive copy.
    pub fn delete_prepare(&self, uid: u64) -> (r: Result<(Mod, Vec<Vec<u8>>), ModManagerError>)
        ensures
            match r {
                Ok((rec, v)) => reg_record(self.mods(), uid) == Some(rec@) && (rec@.is_active
                    ==> owned_paths_of(self.owners(), uid, v@)) && (!rec@.is_active
                    ==> v@.len() == 0),
                Err(e) => match e {
                    ModManagerError::ModNotExisting => !reg_has(self.mods(), uid),
                    _ => e is Io || e is Db || e is DeSerialization,
                },
            },
    {
        let record = match self.registry.get(uid) {
            Ok(m) => m,
            Err(e) => {
                return Err(e);
            },
        };
        if record.is_active() {
            let paths = match self.files.get_files(uid) {
                Ok(v) => v,
                Err(e) => {
                    return Err(e);
                },
            };
            Ok((record, paths))
        } else {
            Ok((record, Vec::new()))
        }
    }

    /// Commits a deletion: releases the mod's ownership rows if it was
    /// active, then removes the registry row. Yields the removed
    /// record.
    pub fn delete_commit(&mut self, uid: u64) -> (r: Result<Mod, ModManagerError>)
        ensures
            final(self).floor() == old(self).floor(),
            match r {
                Ok(rec) => {
                    &&& reg_record(old(self).mods(), uid) == Some(rec@)
                    &&& final(self).mods() == old(self).mods().remove(id_key(uid))
                    &&& (rec@.is_active ==> final(self).owners() == disowned(
                        old(self).owners(),
                        uid,
                    ))
                    &&& (!rec@.is_active ==> final(self).owners() == old(self).owners())
                },
                Err(e) => match e {
                    ModManagerError::ModNotExisting => !reg_has(old(self).mods(), uid)
                        && final(self).mods() == old(self).mods() && final(self).owners()
                        == old(self).owners(),
                    _ => e is Io || e is Db || e is DeSerialization,
                },
            },
    {
        let record = match self.registry.get(uid) {
            Ok(m) => m,
            Err(e) => {
                return Err(e);
            },
        };
        if record.is_active() {
            match self.remove_active_mod_files(uid) {
                Ok(_) => {},
                Err(e) => {
                    return Err(e);
                },
            }
        }
        match self.registry.delete(uid) {
            Ok(rec) => Ok(rec),
            Err(e) => Err(e),
        }
    }

    /// The ids of every active mod, for deactivating them all in turn;
    /// the caller stops at the first failure.
    pub fn deactivate_all_plan(&self) -> (r: Result<Vec<u64>, ModManagerError>)
        ensures
            match r {
                Ok(v) => {
                    &&& forall|i: int|
                        0 <= i < v@.len() ==> (reg_record(
                            self.mods(),
                            #[trigger] v@[i],
                        ) matches Some(m) && m.is_active && m.uid == v@[i])
                    &&& forall|k: Seq<u8>|
                        self.mods().dom().contains(k) && (dec_record(
                            #[trigger] self.mods()[k],
                        ) matches Some(m) && m.is_active) ==> exists|i: int|
                            0 <= i < v@.len() && id_key(#[trigger] v@[i]) == k
                },
                Err(e) => e is Io || e is Db || e is DeSerialization,
            },
    {
        let all = match self.registry.list() {
            Ok(v) => v,
            Err(e) => {
                return Err(e);
            },
        };
        let mut out: Vec<u64> = Vec::new();
        let mut idx: usize = 0;
        while idx < all.len()
            invariant
                idx <= all@.len(),
                forall|i: int|
                    0 <= i < all@.len() ==> reg_record(
                        self.mods(),
                        (#[trigger] all@[i]).0,
                    ) == Some(all@[i].1@),
                forall|i: int|
                    0 <= i < all@.len() ==> (#[trigger] all@[i]).1@.uid == all@[i].0,
                forall|k: Seq<u8>|
                    self.mods().dom().contains(k) ==> exists|i: int|
                        0 <= i < all@.len() && id_key((#[trigger] all@[i]).0) == k,
                forall|t: int|
                    0 <= t < out@.len() ==> (reg_record(
                        self.mods(),
                        #[trigger] out@[t],
                    ) matches Some(m) && m.is_active && m.uid == out@[t]),
                forall|i: int|
                    0 <= i < idx ==> ((#[trigger] all@[i]).1@.is_active ==> exists|t: int|
                        0 <= t < out@.len() && #[trigger] out@[t] == all@[i].0),
            decreases all@.len() - idx,
        {
            let ghost prev_out = out@;
            let active = all[idx].1.is_active();
            if active {
                out.push(all[idx].0);
            }
            proof {
                assert forall|i: int|
                    0 <= i < idx + 1 && (#[trigger] all@[i]).1@.is_active implies exists|t: int|
                    0 <= t < out@.len() && #[trigger] out@[t] == all@[i].0 by {
                    if i < idx {
                        let t = choose|t: int|
                            0 <= t < prev_out.len() && #[trigger] prev_out[t] == all@[i].0;
                        assert(out@[t] == all@[i].0);
                    } else {
                        assert(out@[out@.len() - 1] == all@[idx as int].0);
                    }
                }
            }
            idx = idx + 1;
        }
        proof {
            assert forall|k: Seq<u8>|
                self.mods().dom().contains(k) && (dec_record(
                    #[trigger] self.mods()[k],
                ) matches Some(m) && m.is_active) implies exists|i: int|
                0 <= i < out@.len() && id_key(#[trigger] out@[i]) == k by {
                let i = choose|i: int|
                    0 <= i < all@.len() && id_key((#[trigger] all@[i]).0) == k;
                assert(reg_record(self.mods(), all@[i].0) == Some(all@[i].1@));
                assert(all@[i].1@.is_active);
                let t = choose|t: int| 0 <= t < out@.len() && #[trigger] out@[t] == all@[i].0;
                assert(id_key(out@[t]) == k);
            }
        }
        Ok(out)
    }

    /// Forces durability of everything written so far; run on shutdown.
    pub fn flush(&self) -> (r: Result<(), ModManagerError>)
        ensures
            match r {
                Ok(_) => true,
                Err(e) => e is Io || e is Db,
            },
    {
        self.db.flush()
    }
}

/// Removing exactly the paths a mod owns leaves the map without any of
/// its rows and with everything else intact.
proof fn lemma_owned_removal(m: Map<Seq<u8>, Seq<u8>>, uid: u64, v: Seq<Vec<u8>>)
    requires
        owned_paths_of(m, uid, v),
    ensures
        crate::filetree::own_remove_all(m, paths_view(v)) == disowned(m, uid),
{
    let lhs = crate::filetree::own_remove_all(m, paths_view(v));
    let rhs = disowned(m, uid);
    assert forall|k: Seq<u8>| #![auto] true implies (lhs.dom().contains(k) == rhs.dom().contains(
        k,
    )) by {
        if m.dom().contains(k) {
            if paths_view(v).contains(k) {
                let i = choose|i: int|
                    0 <= i < paths_view(v).len() && (#[trigger] paths_view(v)[i]) == k;
                assert(v[i]@ == k);
                assert(m[k] == owner_bytes(uid));
            }
            if m[k] == owner_bytes(uid) {
                let i = choose|i: int| 0 <= i < v.len() && (#[trigger] v[i])@ == k;
                assert(paths_view(v)[i] == k);
                assert(paths_view(v).contains(k));
            }
        }
    }
    assert(lhs =~= rhs);
}

} // verus!
