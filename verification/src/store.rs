//! The persistent store boundary: an embedded ordered key-value engine
//! (`sled`) with named trees, atomic batches and a monotonic id
//! generator. Every call into the engine goes through a trusted wrapper
//! here; the rest of the crate reasons only over the names `tree_entries`,
//! `batch_writes` and `id_floor`.
use vstd::prelude::*;

use crate::errors::ModManagerError;

verus! {

#[verifier::external_type_specification]
#[verifier::external_body]
pub struct ExSledDb(sled::Db);

#[verifier::external_type_specification]
#[verifier::external_body]
pub struct ExSledTree(sled::Tree);

#[verifier::external_type_specification]
#[verifier::external_body]
pub struct ExSledBatch(sled::Batch);

#[verifier::external_type_specification]
#[verifier::external_body]
pub struct ExSledError(sled::Error);

/// The key-value pairs a tree handle currently holds.
pub uninterp spec fn tree_entries(t: sled::Tree) -> Map<Seq<u8>, Seq<u8>>;

/// The pending writes of a batch: `Some` inserts, `None` removes.
pub uninterp spec fn batch_writes(b: sled::Batch) -> Map<Seq<u8>, Option<Seq<u8>>>;

/// A lower bound on every id the store will generate from now on;
/// ids already generated lie strictly below it.
pub uninterp spec fn id_floor(db: sled::Db) -> int;

/// Whether this store was created fresh in an empty directory.
pub uninterp spec fn db_fresh(db: sled::Db) -> bool;

/// The empty tree contents.
pub open spec fn no_entries() -> Map<Seq<u8>, Seq<u8>> {
    Map::empty()
}

/// The empty set of pending writes.
pub open spec fn no_writes() -> Map<Seq<u8>, Option<Seq<u8>>> {
    Map::empty()
}

/// A map after a set of writes: `Some` entries are present with the
/// written value, `None` entries are absent, the rest is unchanged.
pub open spec fn apply_writes(
    m: Map<Seq<u8>, Seq<u8>>,
    w: Map<Seq<u8>, Option<Seq<u8>>>,
) -> Map<Seq<u8>, Seq<u8>> {
    Map::new(
        |k: Seq<u8>|
            (w.dom().contains(k) && w[k] is Some) || (!w.dom().contains(k)
                && m.dom().contains(k)),
        |k: Seq<u8>|
            if w.dom().contains(k) {
                w[k]->0
            } else {
                m[k]
            },
    )
}

/// Relies on `sled::Config::open`: creates or recovers a store rooted
/// at `path`, flushing every `flush_every_ms` milliseconds. Nothing is
/// assumed of the contents it recovers.
#[verifier::external_body]
fn sled_open(path: &str, flush_every_ms: u64, cache_capacity: u64) -> (r: Result<
    sled::Db,
    sled::Error,
>)
    ensures
        r is Ok || r is Err,
{
    sled::Config::new()
        .path(path)
        .cache_capacity(cache_capacity)
        .mode(sled::Mode::HighThroughput)
        .flush_every_ms(Some(flush_every_ms))
        .open()
}

/// Relies on `sled::Config` with `temporary`: a store created fresh in
/// a new temporary directory, removed again when dropped.
#[verifier::external_body]
fn sled_open_temporary() -> (r: Result<sled::Db, sled::Error>)
    ensures
        match r {
            Ok(db) => db_fresh(db),
            Err(_) => true,
        },
{
    sled::Config::new().temporary(true).open()
}

/// Relies on `sled::Db::open_tree`: yields the named tree, creating it
/// empty if the store never held it; every tree of a fresh store is
/// empty. Open each name at most once per store: all later knowledge
/// of a tree's contents flows through the handle returned here.
#[verifier::external_body]
fn sled_open_tree(db: &sled::Db, name: &str) -> (r: Result<sled::Tree, sled::Error>)
    ensures
        match r {
            Ok(t) => db_fresh(*db) ==> tree_entries(t) == no_entries(),
            Err(_) => true,
        },
{
    db.open_tree(name)
}

/// Relies on `sled::Db::generate_id`: ids are unique and monotonic,
/// even across restarts, so each success lies at or above the floor
/// and raises the floor past itself.
#[verifier::external_body]
fn sled_generate_id(db: &mut sled::Db) -> (r: Result<u64, sled::Error>)
    ensures
        id_floor(*old(db)) <= id_floor(*final(db)),
        db_fresh(*final(db)) == db_fresh(*old(db)),
        match r {
            Ok(id) => id_floor(*old(db)) <= id as int && (id as int) < id_floor(*final(db)),
            Err(_) => true,
        },
{
    db.generate_id()
}

/// Relies on `sled::Tree::flush` (through the store handle): forces
/// prior writes to disk.
#[verifier::external_body]
fn sled_flush(db: &sled::Db) -> (r: Result<(), sled::Error>)
    ensures
        r is Ok || r is Err,
{
    match db.flush() {
        Ok(_) => Ok(()),
        Err(e) => Err(e),
    }
}

/// Relies on `sled::Tree::get`: a point read of one key.
#[verifier::external_body]
pub(crate) fn tree_get(t: &sled::Tree, key: &Vec<u8>) -> (r: Result<
    Option<Vec<u8>>,
    sled::Error,
>)
    ensures
        match r {
            Ok(Some(v)) => tree_entries(*t).dom().contains(key@) && v@ == tree_entries(
                *t,
            )[key@],
            Ok(None) => !tree_entries(*t).dom().contains(key@),
            Err(_) => true,
        },
{
    match t.get(key.as_slice()) {
        Ok(opt) => Ok(opt.map(|iv| iv.to_vec())),
        Err(e) => Err(e),
    }
}

/// Relies on `sled::Tree::insert`: sets one key and yields the value it
/// replaced. On an error the tree's state is unknown.
#[verifier::external_body]
pub(crate) fn tree_insert(t: &mut sled::Tree, key: &Vec<u8>, val: &Vec<u8>) -> (r: Result<
    Option<Vec<u8>>,
    sled::Error,
>)
    ensures
        match r {
            Ok(prev) => {
                &&& tree_entries(*final(t)) == tree_entries(*old(t)).insert(key@, val@)
                &&& match prev {
                    Some(p) => tree_entries(*old(t)).dom().contains(key@) && p@
                        == tree_entries(*old(t))[key@],
                    None => !tree_entries(*old(t)).dom().contains(key@),
                }
            },
            Err(_) => true,
        },
{
    match t.insert(key.as_slice(), val.as_slice()) {
        Ok(opt) => Ok(opt.map(|iv| iv.to_vec())),
        Err(e) => Err(e),
    }
}

/// Relies on `sled::Tree::remove`: unsets one key and yields the value
/// it held. On an error the tree's state is unknown.
#[verifier::external_body]
pub(crate) fn tree_remove(t: &mut sled::Tree, key: &Vec<u8>) -> (r: Result<
    Option<Vec<u8>>,
    sled::Error,
>)
    ensures
        match r {
            Ok(prev) => {
                &&& tree_entries(*final(t)) == tree_entries(*old(t)).remove(key@)
                &&& match prev {
                    Some(p) => tree_entries(*old(t)).dom().contains(key@) && p@
                        == tree_entries(*old(t))[key@],
                    None => !tree_entries(*old(t)).dom().contains(key@),
                }
            },
            Err(_) => true,
        },
{
    match t.remove(key.as_slice()) {
        Ok(opt) => Ok(opt.map(|iv| iv.to_vec())),
        Err(e) => Err(e),
    }
}

/// Relies on `sled::Tree::apply_batch`: applies every write of the
/// batch atomically. On an error the tree's state is unknown.
#[verifier::external_body]
pub(crate) fn tree_apply_batch(t: &mut sled::Tree, b: sled::Batch) -> (r: Result<
    (),
    sled::Error,
>)
    ensures
        match r {
            Ok(_) => tree_entries(*final(t)) == apply_writes(
                tree_entries(*old(t)),
                batch_writes(b),
            ),
            Err(_) => true,
        },
{
    t.apply_batch(b)
}

/// Relies on `sled::Batch::default`: a batch that holds no writes.
#[verifier::external_body]
pub(crate) fn batch_new() -> (r: sled::Batch)
    ensures
        batch_writes(r) == no_writes(),
{
    sled::Batch::default()
}

/// Relies on `sled::Batch::insert`: records one pending insert.
#[verifier::external_body]
pub(crate) fn batch_insert(b: &mut sled::Batch, key: &Vec<u8>, val: &Vec<u8>)
    ensures
        batch_writes(*final(b)) == batch_writes(*old(b)).insert(key@, Some(val@)),
{
    b.insert(key.as_slice(), val.as_slice());
}

/// Relies on `sled::Batch::remove`: records one pending removal.
#[verifier::external_body]
pub(crate) fn batch_remove(b: &mut sled::Batch, key: &Vec<u8>)
    ensures
        batch_writes(*final(b)) == batch_writes(*old(b)).insert(key@, None),
{
    b.remove(key.as_slice());
}

/// Relies on `sled::Tree::iter`: yields every entry of the tree, each
/// key once.
#[verifier::external_body]
pub(crate) fn tree_scan(t: &sled::Tree) -> (r: Result<Vec<(Vec<u8>, Vec<u8>)>, sled::Error>)
    ensures
        match r {
            Ok(v) => {
                &&& forall|i: int|
                    0 <= i < v@.len() ==> tree_entries(*t).dom().contains(
                        (#[trigger] v@[i]).0@,
                    ) && tree_entries(*t)[v@[i].0@] == v@[i].1@
                &&& forall|k: Seq<u8>|
                    tree_entries(*t).dom().contains(k) ==> exists|i: int|
                        0 <= i < v@.len() && (#[trigger] v@[i]).0@ == k
                &&& forall|i: int, j: int|
                    0 <= i < j < v@.len() ==> (#[trigger] v@[i]).0@ != (
                    #[trigger] v@[j]).0@
            },
            Err(_) => true,
        },
{
    let mut out = Vec::new();
    for item in t.iter() {
        match item {
            Ok((k, v)) => out.push((k.to_vec(), v.to_vec())),
            Err(e) => return Err(e),
        }
    }
    Ok(out)
}

/// Relies on `sled::Error`'s variants: `Io` is a filesystem failure,
/// anything else is a store fault; the message is its display text.
#[verifier::external_body]
pub(crate) fn store_error(e: sled::Error) -> (r: ModManagerError)
    ensures
        r is Io || r is Db,
{
    match e {
        sled::Error::Io(io) => ModManagerError::Io { msg: format!("{}", io) },
        other => ModManagerError::Db { msg: format!("{}", other) },
    }
}

/// The application store: one handle, opened once, shared with the
/// manager that owns the trees.
pub struct AppDb {
    db: sled::Db,
}

impl AppDb {
    /// A lower bound on every id this store will generate from now on.
    pub closed spec fn floor(self) -> int {
        id_floor(self.db)
    }

    /// Whether the store was created fresh (and so every tree is empty).
    pub closed spec fn fresh(self) -> bool {
        db_fresh(self.db)
    }

    /// Opens (or creates) durable storage at `path`. Unlike most
    /// failures of this component, a failure here is fatal to the
    /// caller: nothing was opened.
    pub fn open(path: &str, flush_interval_ms: u64, cache_capacity_bytes: u64) -> (r: Result<
        AppDb,
        ModManagerError,
    >)
        ensures
            match r {
                Ok(_) => true,
                Err(e) => e is Io || e is Db,
            },
    {
        match sled_open(path, flush_interval_ms, cache_capacity_bytes) {
            Ok(db) => Ok(AppDb { db }),
            Err(e) => Err(store_error(e)),
        }
    }

    /// Opens a fresh store in a temporary directory, removed when the
    /// handle is dropped.
    pub fn open_temporary() -> (r: Result<AppDb, ModManagerError>)
        ensures
            match r {
                Ok(d) => d.fresh(),
                Err(e) => e is Io || e is Db,
            },
    {
        match sled_open_temporary() {
            Ok(db) => Ok(AppDb { db }),
            Err(e) => Err(store_error(e)),
        }
    }

    /// Opens the named tree of this store.
    pub(crate) fn open_tree(&self, name: &str) -> (r: Result<sled::Tree, ModManagerError>)
        ensures
            match r {
                Ok(t) => self.fresh() ==> tree_entries(t) == no_entries(),
                Err(e) => e is Io || e is Db,
            },
    {
        match sled_open_tree(&self.db, name) {
            Ok(t) => Ok(t),
            Err(e) => Err(store_error(e)),
        }
    }

    /// A unique, monotonically increasing 64-bit id; never repeated by
    /// this store, even across restarts.
    pub fn generate_id(&mut self) -> (r: Result<u64, ModManagerError>)
        ensures
            old(self).floor() <= final(self).floor(),
            final(self).fresh() == old(self).fresh(),
            match r {
                Ok(id) => old(self).floor() <= id as int
                    && (id as int) < final(self).floor(),
                Err(e) => e is Io || e is Db,
            },
    {
        match sled_generate_id(&mut self.db) {
            Ok(id) => Ok(id),
            Err(e) => Err(store_error(e)),
        }
    }

    /// Forces durability of everything written so far; run on shutdown.
    pub fn flush(&self) -> (r: Result<(), ModManagerError>)
        ensures
            match r {
                Ok(_) => true,
                Err(e) => e is Io || e is Db,
            },
    {
        match sled_flush(&self.db) {
            Ok(_) => Ok(()),
            Err(e) => Err(store_error(e)),
        }
    }
}

} // verus!
