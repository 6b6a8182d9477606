//! Archive-side logic that needs no archive container: deriving a mod's
//! display name and extension from an archive file name, recognizing
//! the in-archive manifest entry, splitting an entry listing into
//! directories and injectable files, and naming the stored archive
//! copy of a registered mod.
use vstd::prelude::*;

use crate::codec::{dec_digits, lower_bytes, to_lower, u64_to_decimal};
use crate::errors::InvalidArchive;

verus! {

/// The lowercased name of the manifest entry.
pub open spec fn modinfo_name() -> Seq<u8> {
    seq![109u8, 111u8, 100u8, 105u8, 110u8, 102u8, 111u8, 46u8, 106u8, 115u8, 111u8, 110u8]
}

/// Whether the path is the manifest entry, ignoring ASCII case.
pub open spec fn is_modinfo_entry(p: Seq<u8>) -> bool {
    lower_bytes(p) == modinfo_name()
}

/// Whether an entry path names a directory (trailing separator).
pub open spec fn is_dir_entry(p: Seq<u8>) -> bool {
    p.len() > 0 && p.last() == 47u8
}

/// Whether an entry is an injectable file: not a directory and not the
/// manifest entry itself.
pub open spec fn is_kept_file(p: Seq<u8>) -> bool {
    !is_dir_entry(p) && !is_modinfo_entry(p)
}

/// The exec spelling of the manifest name.
fn modinfo_name_exec() -> (r: Vec<u8>)
    ensures
        r@ == modinfo_name(),
{
    let mut out: Vec<u8> = Vec::new();
    out.push(109);
    out.push(111);
    out.push(100);
    out.push(105);
    out.push(110);
    out.push(102);
    out.push(111);
    out.push(46);
    out.push(106);
    out.push(115);
    out.push(111);
    out.push(110);
    proof {
        assert(out@ =~= modinfo_name());
    }
    out
}

/// Whether `p` is the manifest entry, ignoring ASCII case.
pub fn is_modinfo_entry_exec(p: &Vec<u8>) -> (r: bool)
    ensures
        r == is_modinfo_entry(p@),
{
    let lowered = to_lower(p);
    let name = modinfo_name_exec();
    crate::codec::bytes_eq(&lowered, &name)
}

/// Splits an archive's entry listing into injectable files and
/// directories, in order, leaving manifest entries out of both.
pub fn get_archive_dirs_and_files(entries: &Vec<Vec<u8>>) -> (r: (Vec<Vec<u8>>, Vec<Vec<u8>>))
    ensures
        r.0@.map_values(|p: Vec<u8>| p@) == crate::filetree::paths_view(entries@).filter(
            |p: Seq<u8>| is_kept_file(p),
        ),
        r.1@.map_values(|p: Vec<u8>| p@) == crate::filetree::paths_view(entries@).filter(
            |p: Seq<u8>| is_dir_entry(p),
        ),
{
    let ghost ps = crate::filetree::paths_view(entries@);
    let mut files: Vec<Vec<u8>> = Vec::new();
    let mut dirs: Vec<Vec<u8>> = Vec::new();
    let mut i: usize = 0;
    proof {
        assert(ps.take(0) =~= Seq::<Seq<u8>>::empty());
        assert(ps.take(0).filter(|p: Seq<u8>| is_kept_file(p)) =~= Seq::<Seq<u8>>::empty());
        assert(ps.take(0).filter(|p: Seq<u8>| is_dir_entry(p)) =~= Seq::<Seq<u8>>::empty());
    }
    while i < entries.len()
        invariant
            i <= entries@.len(),
            ps == crate::filetree::paths_view(entries@),
            files@.map_values(|p: Vec<u8>| p@) == ps.take(i as int).filter(
                |p: Seq<u8>| is_kept_file(p),
            ),
            dirs@.map_values(|p: Vec<u8>| p@) == ps.take(i as int).filter(
                |p: Seq<u8>| is_dir_entry(p),
            ),
        decreases entries@.len() - i,
    {
        let ghost taken = ps.take(i as int);
        let ghost taken1 = ps.take(i + 1);
        proof {
            assert(taken1.drop_last() =~= taken);
            assert(taken1.last() == ps[i as int]);
            lemma_filter_split(taken1, |p: Seq<u8>| is_kept_file(p));
            lemma_filter_split(taken1, |p: Seq<u8>| is_dir_entry(p));
        }
        let entry = &entries[i];
        let is_dir = entry.len() > 0 && entry[entry.len() - 1] == 47;
        if is_dir {
            let ghost prev = dirs@;
            dirs.push(entry.clone());
            proof {
                assert(dirs@.map_values(|p: Vec<u8>| p@) =~= prev.map_values(
                    |p: Vec<u8>| p@,
                ).push(ps[i as int]));
            }
        } else if !is_modinfo_entry_exec(entry) {
            let ghost prev = files@;
            files.push(entry.clone());
            proof {
                assert(files@.map_values(|p: Vec<u8>| p@) =~= prev.map_values(
                    |p: Vec<u8>| p@,
                ).push(ps[i as int]));
            }
        }
        i = i + 1;
    }
    proof {
        assert(ps.take(ps.len() as int) =~= ps);
    }
    (files, dirs)
}

/// One step of a filter: a list with its last element split off.
pub proof fn lemma_filter_split(ps: Seq<Seq<u8>>, pred: spec_fn(Seq<u8>) -> bool)
    requires
        ps.len() > 0,
    ensures
        ps.filter(pred) == if pred(ps.last()) {
            ps.drop_last().filter(pred).push(ps.last())
        } else {
            ps.drop_last().filter(pred)
        },
{
    reveal(Seq::filter);
}

/// The name of the stored archive copy of a registered mod:
/// `<decimal id>.<original extension>`.
pub open spec fn registry_copy_name(uid: u64, ext: Seq<u8>) -> Seq<u8> {
    dec_digits(uid as nat) + seq![46u8] + ext
}

/// Builds the name of the stored archive copy of a registered mod.
pub fn registry_file_name(uid: u64, ext: &Vec<u8>) -> (r: Vec<u8>)
    ensures
        r@ == registry_copy_name(uid, ext@),
{
    let mut out = u64_to_decimal(uid);
    out.push(46);
    let mut k: usize = 0;
    let ghost base = out@;
    while k < ext.len()
        invariant
            k <= ext@.len(),
            out@ == base + ext@.take(k as int),
        decreases ext@.len() - k,
    {
        out.push(ext[k]);
        proof {
            assert(ext@.take(k + 1) =~= ext@.take(k as int).push(ext@[k as int]));
        }
        k = k + 1;
    }
    proof {
        assert(ext@.take(ext@.len() as int) =~= ext@);
        assert(out@ =~= registry_copy_name(uid, ext@));
    }
    out
}

/// The transient descriptor of an archive being added: its resolved
/// path, the display name derived from the file name, and the file
/// extension. Nothing of it is persisted.
pub struct ModArchive {
    pub name: Vec<u8>,
    pub extension: Vec<u8>,
    /// The resolved archive path, as raw bytes; only the embedding
    /// application interprets it.
    pub path: Vec<u8>,
}

impl ModArchive {
    /// Builds the descriptor of a resolved archive path from its final
    /// file name; fails exactly when the name yields no extension.
    pub fn describe(path: Vec<u8>, file_name: &Vec<u8>) -> (r: Result<ModArchive, InvalidArchive>)
        ensures
            match r {
                Ok(d) => d.path@ == path@ && (archive_name_and_extension_ok(
                    file_name@,
                    d.name@,
                    d.extension@,
                )),
                Err(e) => e == InvalidArchive::NoExtension && (forall|t: int|
                    1 <= t < file_name@.len() ==> file_name@[t] != 46u8),
            },
    {
        match archive_name_and_extension(file_name) {
            Ok((name, extension)) => Ok(ModArchive { name, extension, path }),
            Err(e) => Err(e),
        }
    }
}

/// How a file name splits into a display name and an extension: the
/// extension follows the last dot (never the leading byte), the name
/// precedes the first dot.
pub open spec fn archive_name_and_extension_ok(
    file_name: Seq<u8>,
    stem: Seq<u8>,
    ext: Seq<u8>,
) -> bool {
    &&& exists|j: int|
        1 <= j < file_name.len() && #[trigger] file_name[j] == 46u8 && ext
            == file_name.subrange(j + 1, file_name.len() as int) && (forall|t: int|
            j < t < file_name.len() ==> file_name[t] != 46u8)
    &&& (forall|t: int| 0 <= t < stem.len() ==> #[trigger] file_name[t] != 46u8)
    &&& (stem.len() == file_name.len() || (stem.len() < file_name.len() && file_name[stem.len() as int]
        == 46u8))
    &&& stem == file_name.subrange(0, stem.len() as int)
}

/// Derives a mod's display name and archive extension from an archive
/// file name, the way a path's stem and extension split: the extension
/// is what follows the last dot (which must not be the leading byte),
/// the display name is what precedes the first dot. `NoExtension`
/// exactly when no byte past the first is a dot.
pub fn archive_name_and_extension(file_name: &Vec<u8>) -> (r: Result<
    (Vec<u8>, Vec<u8>),
    InvalidArchive,
>)
    ensures
        match r {
            Ok((stem, ext)) => archive_name_and_extension_ok(file_name@, stem@, ext@),
            Err(e) => e == InvalidArchive::NoExtension && (forall|t: int|
                1 <= t < file_name@.len() ==> file_name@[t] != 46u8),
        },
{
    let n = file_name.len();
    let mut last_dot: usize = 0;
    let mut found: bool = false;
    let mut i: usize = 1;
    while i < n
        invariant
            1 <= i,
            n == file_name@.len(),
            i <= n || i == 1,
            found ==> 1 <= last_dot < i && file_name@[last_dot as int] == 46u8
                && (forall|t: int| last_dot < t < i ==> file_name@[t] != 46u8),
            !found ==> (forall|t: int| 1 <= t < i ==> file_name@[t] != 46u8),
        decreases n - i,
    {
        if file_name[i] == 46 {
            last_dot = i;
            found = true;
        }
        i = i + 1;
    }
    if !found {
        return Err(InvalidArchive::NoExtension);
    }
    let mut ext: Vec<u8> = Vec::new();
    let mut k: usize = last_dot + 1;
    while k < n
        invariant
            last_dot + 1 <= k <= n,
            n == file_name@.len(),
            ext@ == file_name@.subrange(last_dot + 1, k as int),
        decreases n - k,
    {
        ext.push(file_name[k]);
        proof {
            assert(file_name@.subrange(last_dot + 1, k + 1) =~= file_name@.subrange(
                last_dot + 1,
                k as int,
            ).push(file_name@[k as int]));
        }
        k = k + 1;
    }
    let mut stem: Vec<u8> = Vec::new();
    let mut t: usize = 0;
    while t < n && file_name[t] != 46
        invariant
            t <= n,
            n == file_name@.len(),
            stem@ == file_name@.subrange(0, t as int),
            forall|u: int| 0 <= u < t ==> #[trigger] file_name@[u] != 46u8,
        decreases n - t,
    {
        stem.push(file_name[t]);
        proof {
            assert(file_name@.subrange(0, t + 1) =~= file_name@.subrange(0, t as int).push(
                file_name@[t as int],
            ));
        }
        t = t + 1;
    }
    Ok((stem, ext))
}

} // verus!
