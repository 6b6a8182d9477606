//! The mod registry: the durable record of every known mod, keyed by
//! its decimal id, with a fixed verified binary encoding for record
//! values, and create / find-by-name / get / put / delete / list
//! operations over one store tree.
use vstd::prelude::*;

use crate::codec::{
    bytes_eq, dec_digits, le8_at, le_bytes, le_value, lemma_le_bytes_len,
    lemma_le_roundtrip, lemma_le_value_bound, lemma_pow256_8, parse_decimal,
    pow256, u64_to_decimal, u64_to_le,
};
use crate::errors::ModManagerError;
use crate::injection::InjectionType;
use crate::store::{
    store_error, tree_entries, tree_get, tree_insert, tree_remove, tree_scan, AppDb,
};
use crate::version::{semver_parsed, parse_version, version_lt, version_precedes, Version, VersionView};

verus! {

/// The author-supplied manifest of a mod, as plain values: the decoded
/// contents of the metadata file found inside an archive.
pub struct ModInfo {
    pub name: Vec<u8>,
    pub author: Vec<u8>,
    /// The version as text; must parse as a semantic version.
    pub version: Vec<u8>,
    pub info: Vec<u8>,
    /// The injection technique this mod needs.
    pub injection: InjectionType,
}

/// A single registered mod.
pub struct Mod {
    pub name: Vec<u8>,
    /// Unique identifier, generated by the store and never reused.
    pub uid: u64,
    /// The stored archive copy keeps its original extension.
    pub archive_file_extension: Vec<u8>,
    pub author: Option<Vec<u8>>,
    pub version: Option<Version>,
    pub info: Option<Vec<u8>>,
    /// The injection technique required to install this mod.
    pub injection: InjectionType,
    /// Whether the mod is currently materialized in the game.
    pub is_active: bool,
}

/// The mathematical value of a [`Mod`].
pub struct ModView {
    pub name: Seq<u8>,
    pub uid: u64,
    pub archive_file_extension: Seq<u8>,
    pub author: Option<Seq<u8>>,
    pub version: Option<VersionView>,
    pub info: Option<Seq<u8>>,
    pub injection: InjectionType,
    pub is_active: bool,
}

impl View for Mod {
    type V = ModView;

    open spec fn view(&self) -> ModView {
        ModView {
            name: self.name@,
            uid: self.uid,
            archive_file_extension: self.archive_file_extension@,
            author: match self.author {
                Some(a) => Some(a@),
                None => None,
            },
            version: match self.version {
                Some(v) => Some(v@),
                None => None,
            },
            info: match self.info {
                Some(i) => Some(i@),
                None => None,
            },
            injection: self.injection,
            is_active: self.is_active,
        }
    }
}

/// Whether a record view fits the fixed-width length prefixes of the
/// binary encoding; every in-memory record does.
pub open spec fn record_wf(m: ModView) -> bool {
    &&& m.name.len() <= u64::MAX
    &&& m.archive_file_extension.len() <= u64::MAX
    &&& (m.author matches Some(a) ==> a.len() <= u64::MAX)
    &&& (m.version matches Some(v) ==> v.pre.len() <= u64::MAX && v.build.len()
        <= u64::MAX)
    &&& (m.info matches Some(i) ==> i.len() <= u64::MAX)
}

/// A length-prefixed byte field.
pub open spec fn enc_bytes(b: Seq<u8>) -> Seq<u8> {
    le_bytes(b.len(), 8) + b
}

/// An optional byte field: a presence tag, then the field.
pub open spec fn enc_opt_bytes(o: Option<Seq<u8>>) -> Seq<u8> {
    match o {
        None => seq![0u8],
        Some(b) => seq![1u8] + enc_bytes(b),
    }
}

/// The encoding of a version: three numbers, pre-release, build.
pub open spec fn enc_version(v: VersionView) -> Seq<u8> {
    le_bytes(v.major as nat, 8) + le_bytes(v.minor as nat, 8) + le_bytes(v.patch as nat, 8)
        + enc_bytes(v.pre) + enc_bytes(v.build)
}

/// An optional version: a presence tag, then the version.
pub open spec fn enc_opt_version(o: Option<VersionView>) -> Seq<u8> {
    match o {
        None => seq![0u8],
        Some(v) => seq![1u8] + enc_version(v),
    }
}

/// The tag byte of an injection kind.
pub open spec fn injection_tag(k: InjectionType) -> u8 {
    match k {
        InjectionType::Localization => 0u8,
    }
}

/// The fixed binary encoding of a record: every field in order, byte
/// fields length-prefixed, options tagged.
pub open spec fn enc_record(m: ModView) -> Seq<u8> {
    enc_bytes(m.name) + le_bytes(m.uid as nat, 8) + enc_bytes(m.archive_file_extension)
        + enc_opt_bytes(m.author) + enc_opt_version(m.version) + enc_opt_bytes(m.info)
        + seq![injection_tag(m.injection)] + seq![
        if m.is_active {
            1u8
        } else {
            0u8
        },
    ]
}

/// Reads an 8-byte number at `i`; yields the value and the next offset.
pub open spec fn dec_u64_at(s: Seq<u8>, i: int) -> Option<(u64, int)> {
    if 0 <= i && i + 8 <= s.len() {
        Some(((le_value(s.subrange(i, i + 8)) as u64), i + 8))
    } else {
        None
    }
}

/// Reads a length-prefixed byte field at `i`.
pub open spec fn dec_bytes_at(s: Seq<u8>, i: int) -> Option<(Seq<u8>, int)> {
    match dec_u64_at(s, i) {
        Some((n, j)) => if j + n <= s.len() {
            Some((s.subrange(j, j + n), j + n))
        } else {
            None
        },
        None => None,
    }
}

/// Reads a tagged optional byte field at `i`.
pub open spec fn dec_opt_bytes_at(s: Seq<u8>, i: int) -> Option<(Option<Seq<u8>>, int)> {
    if 0 <= i && i < s.len() {
        if s[i] == 0u8 {
            Some((None, i + 1))
        } else if s[i] == 1u8 {
            match dec_bytes_at(s, i + 1) {
                Some((b, j)) => Some((Some(b), j)),
                None => None,
            }
        } else {
            None
        }
    } else {
        None
    }
}

/// Reads a version at `i`.
pub open spec fn dec_version_at(s: Seq<u8>, i: int) -> Option<(VersionView, int)> {
    match dec_u64_at(s, i) {
        Some((major, i1)) => match dec_u64_at(s, i1) {
            Some((minor, i2)) => match dec_u64_at(s, i2) {
                Some((patch, i3)) => match dec_bytes_at(s, i3) {
                    Some((pre, i4)) => match dec_bytes_at(s, i4) {
                        Some((build, i5)) => Some(
                            (VersionView { major, minor, patch, pre, build }, i5),
                        ),
                        None => None,
                    },
                    None => None,
                },
                None => None,
            },
            None => None,
        },
        None => None,
    }
}

/// Reads a tagged optional version at `i`.
pub open spec fn dec_opt_version_at(s: Seq<u8>, i: int) -> Option<(Option<VersionView>, int)> {
    if 0 <= i && i < s.len() {
        if s[i] == 0u8 {
            Some((None, i + 1))
        } else if s[i] == 1u8 {
            match dec_version_at(s, i + 1) {
                Some((v, j)) => Some((Some(v), j)),
                None => None,
            }
        } else {
            None
        }
    } else {
        None
    }
}

/// Reads an injection tag at `i`.
pub open spec fn dec_injection_at(s: Seq<u8>, i: int) -> Option<(InjectionType, int)> {
    if 0 <= i && i < s.len() && s[i] == 0u8 {
        Some((InjectionType::Localization, i + 1))
    } else {
        None
    }
}

/// Reads a boolean byte at `i`.
pub open spec fn dec_bool_at(s: Seq<u8>, i: int) -> Option<(bool, int)> {
    if 0 <= i && i < s.len() && (s[i] == 0u8 || s[i] == 1u8) {
        Some((s[i] == 1u8, i + 1))
    } else {
        None
    }
}

/// Decodes a whole record; `None` unless the bytes are exactly one
/// well-formed record.
pub open spec fn dec_record(s: Seq<u8>) -> Option<ModView> {
    match dec_bytes_at(s, 0) {
        Some((name, i1)) => match dec_u64_at(s, i1) {
            Some((uid, i2)) => match dec_bytes_at(s, i2) {
                Some((ext, i3)) => match dec_opt_bytes_at(s, i3) {
                    Some((author, i4)) => match dec_opt_version_at(s, i4) {
                        Some((version, i5)) => match dec_opt_bytes_at(s, i5) {
                            Some((info, i6)) => match dec_injection_at(s, i6) {
                                Some((injection, i7)) => match dec_bool_at(s, i7) {
                                    Some((is_active, i8)) => if i8 == s.len() {
                                        Some(
                                            ModView {
                                                name,
                                                uid,
                                                archive_file_extension: ext,
                                                author,
                                                version,
                                                info,
                                                injection,
                                                is_active,
                                            },
                                        )
                                    } else {
                                        None
                                    },
                                    None => None,
                                },
                                None => None,
                            },
                            None => None,
                        },
                        None => None,
                    },
                    None => None,
                },
                None => None,
            },
            None => None,
        },
        None => None,
    }
}

/// The two halves of a concatenation sit at their offsets.
proof fn lemma_parts(x: Seq<u8>, y: Seq<u8>)
    ensures
        (x + y).len() == x.len() + y.len(),
        (x + y).subrange(0, x.len() as int) == x,
        (x + y).subrange(x.len() as int, (x.len() + y.len()) as int) == y,
{
    assert((x + y).subrange(0, x.len() as int) =~= x);
    assert((x + y).subrange(x.len() as int, (x.len() + y.len()) as int) =~= y);
}

/// A subrange of an embedded sequence is the same bytes at the shifted
/// offsets.
proof fn lemma_sub_transfer(s: Seq<u8>, i: int, e: Seq<u8>, a: int, b: int)
    requires
        0 <= i,
        i + e.len() <= s.len(),
        s.subrange(i, i + e.len()) == e,
        0 <= a <= b <= e.len(),
    ensures
        s.subrange(i + a, i + b) == e.subrange(a, b),
{
    assert(s.subrange(i + a, i + b) =~= e.subrange(a, b));
}

/// A singleton subrange pins the byte.
proof fn lemma_sub_byte(s: Seq<u8>, i: int, c: u8)
    requires
        0 <= i,
        i + 1 <= s.len(),
        s.subrange(i, i + 1) == seq![c],
    ensures
        s[i] == c,
{
    assert(s.subrange(i, i + 1)[0] == s[i]);
}

/// An 8-byte number decodes back from wherever its encoding sits.
proof fn lemma_dec_u64_inv(s: Seq<u8>, i: int, x: u64)
    requires
        0 <= i,
        i + 8 <= s.len(),
        s.subrange(i, i + 8) == le_bytes(x as nat, 8),
    ensures
        dec_u64_at(s, i) == Some((x, i + 8)),
{
    lemma_pow256_8();
    lemma_le_roundtrip(x as nat, 8);
}

/// A length-prefixed field decodes back from wherever its encoding
/// sits.
proof fn lemma_dec_bytes_inv(s: Seq<u8>, i: int, b: Seq<u8>)
    requires
        0 <= i,
        b.len() <= u64::MAX,
        i + 8 + b.len() <= s.len(),
        s.subrange(i, i + 8) == le_bytes(b.len(), 8),
        s.subrange(i + 8, i + 8 + b.len()) == b,
    ensures
        dec_bytes_at(s, i) == Some((b, i + 8 + b.len())),
{
    lemma_pow256_8();
    lemma_le_roundtrip(b.len(), 8);
}

/// An encoded field (`enc_bytes`) decodes back from wherever it sits.
proof fn lemma_dec_enc_bytes_inv(s: Seq<u8>, i: int, b: Seq<u8>)
    requires
        0 <= i,
        b.len() <= u64::MAX,
        i + enc_bytes(b).len() <= s.len(),
        s.subrange(i, i + enc_bytes(b).len()) == enc_bytes(b),
    ensures
        enc_bytes(b).len() == 8 + b.len(),
        dec_bytes_at(s, i) == Some((b, i + 8 + b.len())),
{
    lemma_le_bytes_len(b.len(), 8);
    lemma_parts(le_bytes(b.len(), 8), b);
    lemma_sub_transfer(s, i, enc_bytes(b), 0, 8);
    lemma_sub_transfer(s, i, enc_bytes(b), 8, 8 + b.len() as int);
    lemma_dec_bytes_inv(s, i, b);
}

/// An encoded version decodes back from wherever it sits.
proof fn lemma_dec_version_inv(s: Seq<u8>, i: int, v: VersionView)
    requires
        0 <= i,
        v.pre.len() <= u64::MAX,
        v.build.len() <= u64::MAX,
        i + enc_version(v).len() <= s.len(),
        s.subrange(i, i + enc_version(v).len()) == enc_version(v),
    ensures
        enc_version(v).len() == 40 + v.pre.len() + v.build.len(),
        dec_version_at(s, i) == Some((v, i + enc_version(v).len())),
{
    let p1 = le_bytes(v.major as nat, 8);
    let p2 = le_bytes(v.minor as nat, 8);
    let p3 = le_bytes(v.patch as nat, 8);
    let p4 = enc_bytes(v.pre);
    let p5 = enc_bytes(v.build);
    lemma_le_bytes_len(v.major as nat, 8);
    lemma_le_bytes_len(v.minor as nat, 8);
    lemma_le_bytes_len(v.patch as nat, 8);
    lemma_le_bytes_len(v.pre.len(), 8);
    lemma_le_bytes_len(v.build.len(), 8);
    let q2 = p1 + p2;
    let q3 = q2 + p3;
    let q4 = q3 + p4;
    let e = enc_version(v);
    assert(e == q4 + p5);
    lemma_parts(q4, p5);
    lemma_parts(q3, p4);
    lemma_parts(q2, p3);
    lemma_parts(p1, p2);
    lemma_sub_transfer(s, i, e, 0, q4.len() as int);
    assert(s.subrange(i, i + q4.len()) == q4);
    lemma_sub_transfer(s, i, e, q4.len() as int, e.len() as int);
    assert(s.subrange(i + q4.len(), i + e.len()) == p5);
    lemma_sub_transfer(s, i, q4, 0, q3.len() as int);
    lemma_sub_transfer(s, i, q4, q3.len() as int, q4.len() as int);
    lemma_sub_transfer(s, i, q3, 0, q2.len() as int);
    lemma_sub_transfer(s, i, q3, q2.len() as int, q3.len() as int);
    lemma_sub_transfer(s, i, q2, 0, 8);
    lemma_sub_transfer(s, i, q2, 8, 16);
    lemma_dec_u64_inv(s, i, v.major);
    lemma_dec_u64_inv(s, i + 8, v.minor);
    lemma_dec_u64_inv(s, i + 16, v.patch);
    lemma_dec_enc_bytes_inv(s, i + 24, v.pre);
    lemma_dec_enc_bytes_inv(s, i + 32 + v.pre.len() as int, v.build);
}

/// An optional byte field decodes back from wherever it sits.
proof fn lemma_dec_opt_bytes_inv(s: Seq<u8>, i: int, o: Option<Seq<u8>>)
    requires
        0 <= i,
        (o matches Some(b) ==> b.len() <= u64::MAX),
        i + enc_opt_bytes(o).len() <= s.len(),
        s.subrange(i, i + enc_opt_bytes(o).len()) == enc_opt_bytes(o),
    ensures
        dec_opt_bytes_at(s, i) == Some((o, i + enc_opt_bytes(o).len())),
{
    match o {
        None => {
            lemma_sub_byte(s, i, 0u8);
        },
        Some(b) => {
            let e = enc_opt_bytes(o);
            lemma_parts(seq![1u8], enc_bytes(b));
            lemma_sub_transfer(s, i, e, 0, 1);
            lemma_sub_byte(s, i, 1u8);
            lemma_sub_transfer(s, i, e, 1, e.len() as int);
            lemma_dec_enc_bytes_inv(s, i + 1, b);
        },
    }
}

/// An optional version decodes back from wherever it sits.
proof fn lemma_dec_opt_version_inv(s: Seq<u8>, i: int, o: Option<VersionView>)
    requires
        0 <= i,
        (o matches Some(v) ==> v.pre.len() <= u64::MAX && v.build.len() <= u64::MAX),
        i + enc_opt_version(o).len() <= s.len(),
        s.subrange(i, i + enc_opt_version(o).len()) == enc_opt_version(o),
    ensures
        dec_opt_version_at(s, i) == Some((o, i + enc_opt_version(o).len())),
{
    match o {
        None => {
            lemma_sub_byte(s, i, 0u8);
        },
        Some(v) => {
            let e = enc_opt_version(o);
            lemma_parts(seq![1u8], enc_version(v));
            lemma_sub_transfer(s, i, e, 0, 1);
            lemma_sub_byte(s, i, 1u8);
            lemma_sub_transfer(s, i, e, 1, e.len() as int);
            lemma_dec_version_inv(s, i + 1, v);
        },
    }
}

/// Encoding then decoding a whole record yields it back, field for
/// field.
#[verifier::rlimit(100)]
#[verifier::spinoff_prover]
pub proof fn lemma_record_roundtrip(m: ModView)
    requires
        record_wf(m),
    ensures
        dec_record(enc_record(m)) == Some(m),
{
    let c1 = enc_bytes(m.name);
    let c2 = le_bytes(m.uid as nat, 8);
    let c3 = enc_bytes(m.archive_file_extension);
    let c4 = enc_opt_bytes(m.author);
    let c5 = enc_opt_version(m.version);
    let c6 = enc_opt_bytes(m.info);
    let c7 = seq![injection_tag(m.injection)];
    let c8 = seq![
        if m.is_active {
            1u8
        } else {
            0u8
        },
    ];
    lemma_le_bytes_len(m.name.len(), 8);
    lemma_le_bytes_len(m.uid as nat, 8);
    lemma_le_bytes_len(m.archive_file_extension.len(), 8);
    let q2 = c1 + c2;
    let q3 = q2 + c3;
    let q4 = q3 + c4;
    let q5 = q4 + c5;
    let q6 = q5 + c6;
    let q7 = q6 + c7;
    let s = enc_record(m);
    assert(s == q7 + c8);
    lemma_parts(q7, c8);
    lemma_parts(q6, c7);
    lemma_parts(q5, c6);
    lemma_parts(q4, c5);
    lemma_parts(q3, c4);
    lemma_parts(q2, c3);
    lemma_parts(c1, c2);
    assert(s.subrange(0, s.len() as int) =~= s);
    lemma_sub_transfer(s, 0, s, 0, q7.len() as int);
    lemma_sub_transfer(s, 0, s, q7.len() as int, s.len() as int);
    lemma_sub_transfer(s, 0, q7, 0, q6.len() as int);
    lemma_sub_transfer(s, 0, q7, q6.len() as int, q7.len() as int);
    lemma_sub_transfer(s, 0, q6, 0, q5.len() as int);
    lemma_sub_transfer(s, 0, q6, q5.len() as int, q6.len() as int);
    lemma_sub_transfer(s, 0, q5, 0, q4.len() as int);
    lemma_sub_transfer(s, 0, q5, q4.len() as int, q5.len() as int);
    lemma_sub_transfer(s, 0, q4, 0, q3.len() as int);
    lemma_sub_transfer(s, 0, q4, q3.len() as int, q4.len() as int);
    lemma_sub_transfer(s, 0, q3, 0, q2.len() as int);
    lemma_sub_transfer(s, 0, q3, q2.len() as int, q3.len() as int);
    lemma_sub_transfer(s, 0, q2, 0, c1.len() as int);
    lemma_sub_transfer(s, 0, q2, c1.len() as int, q2.len() as int);
    let i1 = c1.len() as int;
    let i2 = i1 + 8;
    let i3 = i2 + c3.len() as int;
    let i4 = i3 + c4.len() as int;
    let i5 = i4 + c5.len() as int;
    let i6 = i5 + c6.len() as int;
    let i7 = i6 + 1;
    let i8 = i7 + 1;
    lemma_dec_enc_bytes_inv(s, 0, m.name);
    lemma_dec_u64_inv(s, i1, m.uid);
    lemma_dec_enc_bytes_inv(s, i2, m.archive_file_extension);
    lemma_dec_opt_bytes_inv(s, i3, m.author);
    lemma_dec_opt_version_inv(s, i4, m.version);
    lemma_dec_opt_bytes_inv(s, i5, m.info);
    lemma_sub_byte(s, i6, injection_tag(m.injection));
    lemma_sub_byte(
        s,
        i7,
        if m.is_active {
            1u8
        } else {
            0u8
        },
    );
    assert(dec_injection_at(s, i6) == Some((m.injection, i7)));
    assert(dec_bool_at(s, i7) == Some((m.is_active, i8)));
    assert(s.len() == i8);
}


/// Appends a length-prefixed byte field.
fn push_field(out: &mut Vec<u8>, b: &Vec<u8>)
    ensures
        final(out)@ == old(out)@ + enc_bytes(b@),
{
    let len = u64_to_le(b.len() as u64);
    out.extend_from_slice(len.as_slice());
    out.extend_from_slice(b.as_slice());
    assert(out@ =~= old(out)@ + enc_bytes(b@));
}

/// Appends a tagged optional byte field.
fn push_opt_field(out: &mut Vec<u8>, o: &Option<Vec<u8>>)
    ensures
        final(out)@ == old(out)@ + enc_opt_bytes(
            match o {
                Some(b) => Some(b@),
                None => None,
            },
        ),
{
    match o {
        None => {
            out.push(0);
            assert(out@ =~= old(out)@ + seq![0u8]);
        },
        Some(b) => {
            out.push(1);
            push_field(out, b);
            assert(out@ =~= old(out)@ + enc_opt_bytes(Some(b@)));
        },
    }
}

/// Appends an encoded version.
fn push_version(out: &mut Vec<u8>, v: &Version)
    ensures
        final(out)@ == old(out)@ + enc_version(v@),
{
    let major = u64_to_le(v.major);
    let minor = u64_to_le(v.minor);
    let patch = u64_to_le(v.patch);
    out.extend_from_slice(major.as_slice());
    out.extend_from_slice(minor.as_slice());
    out.extend_from_slice(patch.as_slice());
    push_field(out, &v.pre);
    push_field(out, &v.build);
    assert(out@ =~= old(out)@ + enc_version(v@));
}

/// Encodes a record into its fixed binary form.
pub fn encode_record(m: &Mod) -> (r: Vec<u8>)
    ensures
        r@ == enc_record(m@),
{
    let mut out: Vec<u8> = Vec::new();
    push_field(&mut out, &m.name);
    let uid = u64_to_le(m.uid);
    out.extend_from_slice(uid.as_slice());
    push_field(&mut out, &m.archive_file_extension);
    push_opt_field(&mut out, &m.author);
    let ghost mid = out@;
    match &m.version {
        None => {
            out.push(0);
            assert(out@ =~= mid + seq![0u8]);
        },
        Some(v) => {
            out.push(1);
            push_version(&mut out, v);
            assert(out@ =~= mid + enc_opt_version(Some(v@)));
        },
    }
    push_opt_field(&mut out, &m.info);
    match m.injection {
        InjectionType::Localization => out.push(0),
    }
    out.push(
        if m.is_active {
            1
        } else {
            0
        },
    );
    assert(out@ =~= enc_record(m@));
    out
}


/// Reads an 8-byte number field.
fn read_u64_at(buf: &Vec<u8>, pos: usize) -> (r: Option<(u64, usize)>)
    ensures
        match r {
            Some((x, j)) => dec_u64_at(buf@, pos as int) == Some((x, j as int)) && j
                <= buf@.len(),
            None => dec_u64_at(buf@, pos as int) is None,
        },
{
    if pos <= buf.len() && buf.len() - pos >= 8 {
        let x = le8_at(buf, pos);
        proof {
            lemma_le_value_bound(buf@.subrange(pos as int, pos + 8));
            lemma_pow256_8();
        }
        Some((x, pos + 8))
    } else {
        None
    }
}

/// Reads a length-prefixed byte field.
fn read_bytes_at(buf: &Vec<u8>, pos: usize) -> (r: Option<(Vec<u8>, usize)>)
    ensures
        match r {
            Some((b, j)) => dec_bytes_at(buf@, pos as int) == Some((b@, j as int)) && j
                <= buf@.len(),
            None => dec_bytes_at(buf@, pos as int) is None,
        },
{
    let (n, j) = match read_u64_at(buf, pos) {
        Some(p) => p,
        None => {
            return None;
        },
    };
    if n > (buf.len() - j) as u64 {
        return None;
    }
    let count = n as usize;
    let mut out: Vec<u8> = Vec::new();
    let mut t: usize = 0;
    while t < count
        invariant
            t <= count,
            j + count <= buf@.len(),
            out@ == buf@.subrange(j as int, j + t),
        decreases count - t,
    {
        let bl: usize = buf.len();
        assert(j + t < bl);
        out.push(buf[j + t]);
        proof {
            assert(buf@.subrange(j as int, j + t + 1) =~= buf@.subrange(
                j as int,
                j + t,
            ).push(buf@[j + t]));
        }
        t = t + 1;
    }
    proof {
        assert(out@ =~= buf@.subrange(j as int, j + count));
    }
    Some((out, j + count))
}

/// Reads a tagged optional byte field.
fn read_opt_bytes_at(buf: &Vec<u8>, pos: usize) -> (r: Option<(Option<Vec<u8>>, usize)>)
    ensures
        match r {
            Some((o, j)) => dec_opt_bytes_at(buf@, pos as int) == Some(
                (
                    match o {
                        Some(b) => Some(b@),
                        None => None,
                    },
                    j as int,
                ),
            ) && j <= buf@.len(),
            None => dec_opt_bytes_at(buf@, pos as int) is None,
        },
{
    if pos >= buf.len() {
        return None;
    }
    let tag = buf[pos];
    if tag == 0 {
        Some((None, pos + 1))
    } else if tag == 1 {
        match read_bytes_at(buf, pos + 1) {
            Some((b, j)) => Some((Some(b), j)),
            None => None,
        }
    } else {
        None
    }
}

/// Reads an encoded version.
fn read_version_at(buf: &Vec<u8>, pos: usize) -> (r: Option<(Version, usize)>)
    ensures
        match r {
            Some((v, j)) => dec_version_at(buf@, pos as int) == Some((v@, j as int)) && j
                <= buf@.len(),
            None => dec_version_at(buf@, pos as int) is None,
        },
{
    let (major, i1) = match read_u64_at(buf, pos) {
        Some(p) => p,
        None => {
            return None;
        },
    };
    let (minor, i2) = match read_u64_at(buf, i1) {
        Some(p) => p,
        None => {
            return None;
        },
    };
    let (patch, i3) = match read_u64_at(buf, i2) {
        Some(p) => p,
        None => {
            return None;
        },
    };
    let (pre, i4) = match read_bytes_at(buf, i3) {
        Some(p) => p,
        None => {
            return None;
        },
    };
    let (build, i5) = match read_bytes_at(buf, i4) {
        Some(p) => p,
        None => {
            return None;
        },
    };
    Some((Version { major, minor, patch, pre, build }, i5))
}

/// Reads a tagged optional version.
fn read_opt_version_at(buf: &Vec<u8>, pos: usize) -> (r: Option<(Option<Version>, usize)>)
    ensures
        match r {
            Some((o, j)) => dec_opt_version_at(buf@, pos as int) == Some(
                (
                    match o {
                        Some(v) => Some(v@),
                        None => None,
                    },
                    j as int,
                ),
            ) && j <= buf@.len(),
            None => dec_opt_version_at(buf@, pos as int) is None,
        },
{
    if pos >= buf.len() {
        return None;
    }
    let tag = buf[pos];
    if tag == 0 {
        Some((None, pos + 1))
    } else if tag == 1 {
        match read_version_at(buf, pos + 1) {
            Some((v, j)) => Some((Some(v), j)),
            None => None,
        }
    } else {
        None
    }
}

/// Decodes a record from its fixed binary form; `None` unless the
/// bytes are exactly one well-formed record.
pub fn decode_record(buf: &Vec<u8>) -> (r: Option<Mod>)
    ensures
        match r {
            Some(m) => dec_record(buf@) == Some(m@),
            None => dec_record(buf@) is None,
        },
{
    let (name, i1) = match read_bytes_at(buf, 0) {
        Some(p) => p,
        None => {
            return None;
        },
    };
    let (uid, i2) = match read_u64_at(buf, i1) {
        Some(p) => p,
        None => {
            return None;
        },
    };
    let (ext, i3) = match read_bytes_at(buf, i2) {
        Some(p) => p,
        None => {
            return None;
        },
    };
    let (author, i4) = match read_opt_bytes_at(buf, i3) {
        Some(p) => p,
        None => {
            return None;
        },
    };
    let (version, i5) = match read_opt_version_at(buf, i4) {
        Some(p) => p,
        None => {
            return None;
        },
    };
    let (info, i6) = match read_opt_bytes_at(buf, i5) {
        Some(p) => p,
        None => {
            return None;
        },
    };
    if i6 >= buf.len() {
        return None;
    }
    if buf[i6] != 0 {
        return None;
    }
    let i7 = i6 + 1;
    if i7 >= buf.len() {
        return None;
    }
    let active_byte = buf[i7];
    if active_byte != 0 && active_byte != 1 {
        return None;
    }
    let i8 = i7 + 1;
    if i8 != buf.len() {
        return None;
    }
    Some(
        Mod {
            name,
            uid,
            archive_file_extension: ext,
            author,
            version,
            info,
            injection: InjectionType::Localization,
            is_active: active_byte == 1,
        },
    )
}


/// Whether the candidate record counts as newer than the existing one:
/// yes when either side lacks a parsed version (the ambiguous case is
/// deferred to the user), else exactly when the existing version
/// precedes the candidate's.
pub open spec fn newer_than(candidate: ModView, existing: ModView) -> bool {
    match (candidate.version, existing.version) {
        (Some(c), Some(e)) => version_lt(e, c),
        _ => true,
    }
}

impl Clone for Mod {
    fn clone(&self) -> (r: Self)
        ensures
            r@ == self@,
    {
        Mod {
            name: self.name.clone(),
            uid: self.uid,
            archive_file_extension: self.archive_file_extension.clone(),
            author: match &self.author {
                Some(a) => Some(a.clone()),
                None => None,
            },
            version: match &self.version {
                Some(v) => Some(v.clone()),
                None => None,
            },
            info: match &self.info {
                Some(i) => Some(i.clone()),
                None => None,
            },
            injection: self.injection,
            is_active: self.is_active,
        }
    }
}

impl Mod {
    /// Creates an inactive record from a bare name, used when an
    /// archive carries no manifest; the id is drawn fresh from the
    /// store.
    pub fn new(
        name: &Vec<u8>,
        injection_type: InjectionType,
        archive_file_extension: &Vec<u8>,
        db: &mut AppDb,
    ) -> (r: Result<Mod, ModManagerError>)
        ensures
            old(db).floor() <= final(db).floor(),
            match r {
                Ok(m) => {
                    &&& m@.name == name@
                    &&& m@.archive_file_extension == archive_file_extension@
                    &&& m@.author is None
                    &&& m@.version is None
                    &&& m@.info is None
                    &&& m@.injection == injection_type
                    &&& !m@.is_active
                    &&& old(db).floor() <= m@.uid as int
                    &&& (m@.uid as int) < final(db).floor()
                },
                Err(e) => e is Io || e is Db,
            },
    {
        let uid = match db.generate_id() {
            Ok(id) => id,
            Err(e) => {
                return Err(e);
            },
        };
        Ok(
            Mod {
                name: name.clone(),
                uid,
                archive_file_extension: archive_file_extension.clone(),
                author: None,
                version: None,
                info: None,
                injection: injection_type,
                is_active: false,
            },
        )
    }

    /// Creates an inactive record from a manifest; fails with
    /// `InvalidModInfo` exactly when the manifest's version text is not
    /// a semantic version.
    pub fn from_mod_info(mod_info: ModInfo, archive_file_extension: &Vec<u8>, db: &mut AppDb) -> (r:
        Result<Mod, ModManagerError>)
        ensures
            old(db).floor() <= final(db).floor(),
            r matches Err(ModManagerError::InvalidModInfo { .. }) <==> semver_parsed(
                mod_info.version@,
            ) is None,
            match r {
                Ok(m) => {
                    &&& m@.name == mod_info.name@
                    &&& m@.archive_file_extension == archive_file_extension@
                    &&& m@.author == Some(mod_info.author@)
                    &&& Some(m@.version->0) == semver_parsed(mod_info.version@)
                    &&& m@.version is Some
                    &&& m@.info == Some(mod_info.info@)
                    &&& m@.injection == mod_info.injection
                    &&& !m@.is_active
                    &&& old(db).floor() <= m@.uid as int
                    &&& (m@.uid as int) < final(db).floor()
                },
                Err(e) => e is Io || e is Db || e is InvalidModInfo,
            },
    {
        let version = match parse_version(&mod_info.version) {
            Some(v) => v,
            None => {
                return Err(
                    ModManagerError::InvalidModInfo {
                        msg: "the version is not a semantic version".to_owned(),
                    },
                );
            },
        };
        let uid = match db.generate_id() {
            Ok(id) => id,
            Err(e) => {
                return Err(e);
            },
        };
        Ok(
            Mod {
                name: mod_info.name,
                uid,
                archive_file_extension: archive_file_extension.clone(),
                author: Some(mod_info.author),
                version: Some(version),
                info: Some(mod_info.info),
                injection: mod_info.injection,
                is_active: false,
            },
        )
    }

    /// Whether the mod is currently active in the game.
    pub fn is_active(&self) -> (r: bool)
        ensures
            r == self@.is_active,
    {
        self.is_active
    }

    /// The injection technique this mod installs through.
    pub fn injection_type(&self) -> (r: InjectionType)
        ensures
            r == self@.injection,
    {
        self.injection
    }

    /// The author named in the manifest, if any.
    pub fn author(&self) -> (r: Option<Vec<u8>>)
        ensures
            r matches Some(a) ==> self@.author == Some(a@),
            r is None <==> self@.author is None,
    {
        match &self.author {
            Some(a) => Some(a.clone()),
            None => None,
        }
    }

    /// The description from the manifest, if any.
    pub fn info(&self) -> (r: Option<Vec<u8>>)
        ensures
            r matches Some(i) ==> self@.info == Some(i@),
            r is None <==> self@.info is None,
    {
        match &self.info {
            Some(i) => Some(i.clone()),
            None => None,
        }
    }

    /// Sets the activation flag; only the registry write makes it
    /// durable.
    pub(crate) fn set_active_flag(&mut self, active: bool)
        ensures
            final(self)@ == (ModView { is_active: active, ..old(self)@ }),
    {
        self.is_active = active;
        assert(self@ =~= ModView { is_active: active, ..old(self)@ });
    }

    /// Whether this candidate counts as newer than `other`: yes when
    /// either side lacks a version, else exactly when `other`'s version
    /// precedes this one's.
    pub fn is_newer_version(&self, other: &Self) -> (r: bool)
        ensures
            r == newer_than(self@, other@),
    {
        match (&self.version, &other.version) {
            (Some(c), Some(e)) => version_precedes(e, c),
            _ => true,
        }
    }

    /// Whether the two records agree field for field.
    pub fn same_record(&self, other: &Mod) -> (r: bool)
        ensures
            r == (self@ == other@),
    {
        if self.uid != other.uid || self.is_active != other.is_active {
            return false;
        }
        if !bytes_eq(&self.name, &other.name) {
            return false;
        }
        if !bytes_eq(&self.archive_file_extension, &other.archive_file_extension) {
            return false;
        }
        let authors_same = match (&self.author, &other.author) {
            (None, None) => true,
            (Some(a), Some(b)) => bytes_eq(a, b),
            _ => false,
        };
        if !authors_same {
            return false;
        }
        let infos_same = match (&self.info, &other.info) {
            (None, None) => true,
            (Some(a), Some(b)) => bytes_eq(a, b),
            _ => false,
        };
        if !infos_same {
            return false;
        }
        let versions_same = match (&self.version, &other.version) {
            (None, None) => true,
            (Some(a), Some(b)) => a.major == b.major && a.minor == b.minor && a.patch
                == b.patch && bytes_eq(&a.pre, &b.pre) && bytes_eq(&a.build, &b.build),
            _ => false,
        };
        if !versions_same {
            return false;
        }
        match (self.injection, other.injection) {
            (InjectionType::Localization, InjectionType::Localization) => {},
        }
        proof {
            assert(self@ =~= other@);
        }
        true
    }
}

/// The registry key of an id: its decimal numeral.
pub open spec fn id_key(id: u64) -> Seq<u8> {
    dec_digits(id as nat)
}

/// Whether the registry map holds a row for `id`.
pub open spec fn reg_has(m: Map<Seq<u8>, Seq<u8>>, id: u64) -> bool {
    m.dom().contains(id_key(id))
}

/// The decoded record stored under `id`, if the row exists and decodes.
pub open spec fn reg_record(m: Map<Seq<u8>, Seq<u8>>, id: u64) -> Option<ModView> {
    if reg_has(m, id) {
        dec_record(m[id_key(id)])
    } else {
        None
    }
}

/// The registry map after an upsert of `rec`.
pub open spec fn reg_put(m: Map<Seq<u8>, Seq<u8>>, rec: ModView) -> Map<Seq<u8>, Seq<u8>> {
    m.insert(id_key(rec.uid), enc_record(rec))
}

/// The mod registry: a typed layer over one store tree whose keys are
/// decimal ids and whose values are encoded records.
pub struct ModRegistry {
    tree: sled::Tree,
}

impl ModRegistry {
    /// The raw rows of the registry tree.
    pub closed spec fn entries(self) -> Map<Seq<u8>, Seq<u8>> {
        tree_entries(self.tree)
    }

    /// Wraps the registry tree handle.
    pub(crate) fn attach(tree: sled::Tree) -> (r: ModRegistry)
        ensures
            r.entries() == tree_entries(tree),
    {
        ModRegistry { tree }
    }

    /// Fetches the record of `uid`; `ModNotExisting` exactly when the
    /// row is absent, a serialization fault when it does not decode.
    pub fn get(&self, uid: u64) -> (r: Result<Mod, ModManagerError>)
        ensures
            match r {
                Ok(rec) => reg_record(self.entries(), uid) == Some(rec@),
                Err(e) => match e {
                    ModManagerError::ModNotExisting => !reg_has(self.entries(), uid),
                    ModManagerError::DeSerialization { .. } => reg_has(self.entries(), uid)
                        && reg_record(self.entries(), uid) is None,
                    _ => e is Io || e is Db,
                },
            },
    {
        let key = u64_to_decimal(uid);
        let bytes = match tree_get(&self.tree, &key) {
            Ok(Some(b)) => b,
            Ok(None) => {
                return Err(ModManagerError::ModNotExisting);
            },
            Err(e) => {
                return Err(store_error(e));
            },
        };
        match decode_record(&bytes) {
            Some(rec) => Ok(rec),
            None => Err(
                ModManagerError::DeSerialization {
                    msg: "a registry row does not decode as a record".to_owned(),
                },
            ),
        }
    }

    /// Writes (inserts or overwrites) the record under its id.
    pub fn put(&mut self, rec: &Mod) -> (r: Result<(), ModManagerError>)
        ensures
            match r {
                Ok(_) => final(self).entries() == reg_put(old(self).entries(), rec@),
                Err(e) => e is Io || e is Db,
            },
    {
        let key = u64_to_decimal(rec.uid);
        let value = encode_record(rec);
        match tree_insert(&mut self.tree, &key, &value) {
            Ok(_) => Ok(()),
            Err(e) => Err(store_error(e)),
        }
    }

    /// Removes the record of `uid` and yields it; `ModNotExisting`
    /// exactly when the row is absent (and then nothing changed).
    pub fn delete(&mut self, uid: u64) -> (r: Result<Mod, ModManagerError>)
        ensures
            match r {
                Ok(rec) => reg_record(old(self).entries(), uid) == Some(rec@)
                    && final(self).entries() == old(self).entries().remove(id_key(uid)),
                Err(e) => match e {
                    ModManagerError::ModNotExisting => !reg_has(old(self).entries(), uid)
                        && final(self).entries() == old(self).entries(),
                    ModManagerError::DeSerialization { .. } => reg_has(
                        old(self).entries(),
                        uid,
                    ) && reg_record(old(self).entries(), uid) is None
                        && final(self).entries() == old(self).entries().remove(id_key(uid)),
                    _ => e is Io || e is Db,
                },
            },
    {
        let key = u64_to_decimal(uid);
        let bytes = match tree_remove(&mut self.tree, &key) {
            Ok(Some(b)) => b,
            Ok(None) => {
                return Err(ModManagerError::ModNotExisting);
            },
            Err(e) => {
                return Err(store_error(e));
            },
        };
        match decode_record(&bytes) {
            Some(rec) => Ok(rec),
            None => Err(
                ModManagerError::DeSerialization {
                    msg: "a registry row does not decode as a record".to_owned(),
                },
            ),
        }
    }

    /// Scans the registry for a record with the given name. `Ok(None)`
    /// means every row decodes and none carries the name.
    pub fn find_by_name(&self, name: &Vec<u8>) -> (r: Result<Option<Mod>, ModManagerError>)
        ensures
            match r {
                Ok(Some(rec)) => rec@.name == name@ && exists|k: Seq<u8>|
                    self.entries().dom().contains(k) && dec_record(
                        #[trigger] self.entries()[k],
                    ) == Some(rec@),
                Ok(None) => forall|k: Seq<u8>|
                    self.entries().dom().contains(k) ==> (dec_record(
                        #[trigger] self.entries()[k],
                    ) matches Some(mv) && mv.name != name@),
                Err(e) => e is Io || e is Db || e is DeSerialization,
            },
    {
        let rows = match tree_scan(&self.tree) {
            Ok(v) => v,
            Err(e) => {
                return Err(store_error(e));
            },
        };
        let mut idx: usize = 0;
        while idx < rows.len()
            invariant
                idx <= rows@.len(),
                forall|i: int|
                    0 <= i < rows@.len() ==> self.entries().dom().contains(
                        (#[trigger] rows@[i]).0@,
                    ) && self.entries()[rows@[i].0@] == rows@[i].1@,
                forall|k: Seq<u8>|
                    self.entries().dom().contains(k) ==> exists|i: int|
                        0 <= i < rows@.len() && (#[trigger] rows@[i]).0@ == k,
                forall|i: int|
                    0 <= i < idx ==> (dec_record((#[trigger] rows@[i]).1@) matches Some(mv)
                        && mv.name != name@),
            decreases rows@.len() - idx,
        {
            let rec = match decode_record(&rows[idx].1) {
                Some(m) => m,
                None => {
                    return Err(
                        ModManagerError::DeSerialization {
                            msg: "a registry row does not decode as a record".to_owned(),
                        },
                    );
                },
            };
            if bytes_eq(&rec.name, name) {
                return Ok(Some(rec));
            }
            idx = idx + 1;
        }
        Ok(None)
    }

    /// A point-in-time snapshot of every registered mod, paired with
    /// the id its row is keyed by; a row whose stored id disagrees with
    /// its key is corrupt self-written data.
    pub fn list(&self) -> (r: Result<Vec<(u64, Mod)>, ModManagerError>)
        ensures
            match r {
                Ok(v) => {
                    &&& forall|i: int|
                        0 <= i < v@.len() ==> reg_record(
                            self.entries(),
                            (#[trigger] v@[i]).0,
                        ) == Some(v@[i].1@)
                    &&& forall|i: int| 0 <= i < v@.len() ==> (#[trigger] v@[i]).1@.uid == v@[i].0
                    &&& forall|k: Seq<u8>|
                        self.entries().dom().contains(k) ==> exists|i: int|
                            0 <= i < v@.len() && id_key((#[trigger] v@[i]).0) == k
                    &&& forall|i: int, j: int|
                        0 <= i < j < v@.len() ==> (#[trigger] v@[i]).0 != (
                        #[trigger] v@[j]).0
                },
                Err(e) => e is Io || e is Db || e is DeSerialization,
            },
    {
        let rows = match tree_scan(&self.tree) {
            Ok(v) => v,
            Err(e) => {
                return Err(store_error(e));
            },
        };
        let mut out: Vec<(u64, Mod)> = Vec::new();
        let mut idx: usize = 0;
        while idx < rows.len()
            invariant
                idx <= rows@.len(),
                out@.len() == idx,
                forall|i: int|
                    0 <= i < rows@.len() ==> self.entries().dom().contains(
                        (#[trigger] rows@[i]).0@,
                    ) && self.entries()[rows@[i].0@] == rows@[i].1@,
                forall|i: int, j: int|
                    0 <= i < j < rows@.len() ==> (#[trigger] rows@[i]).0@ != (
                    #[trigger] rows@[j]).0@,
                forall|i: int|
                    0 <= i < idx ==> id_key((#[trigger] out@[i]).0) == rows@[i].0@,
                forall|i: int|
                    0 <= i < idx ==> reg_record(
                        self.entries(),
                        (#[trigger] out@[i]).0,
                    ) == Some(out@[i].1@),
                forall|i: int| 0 <= i < idx ==> (#[trigger] out@[i]).1@.uid == out@[i].0,
            decreases rows@.len() - idx,
        {
            let id = match parse_decimal(&rows[idx].0) {
                Some(v) => v,
                None => {
                    return Err(
                        ModManagerError::DeSerialization {
                            msg: "a registry key is not a decimal id".to_owned(),
                        },
                    );
                },
            };
            let canon = u64_to_decimal(id);
            if !bytes_eq(&canon, &rows[idx].0) {
                return Err(
                    ModManagerError::DeSerialization {
                        msg: "a registry key is not a canonical decimal id".to_owned(),
                    },
                );
            }
            let rec = match decode_record(&rows[idx].1) {
                Some(m) => m,
                None => {
                    return Err(
                        ModManagerError::DeSerialization {
                            msg: "a registry row does not decode as a record".to_owned(),
                        },
                    );
                },
            };
            if rec.uid != id {
                return Err(
                    ModManagerError::DeSerialization {
                        msg: "a registry row disagrees with its key".to_owned(),
                    },
                );
            }
            out.push((id, rec));
            idx = idx + 1;
        }
        proof {
            assert forall|i: int, j: int| 0 <= i < j < out@.len() implies (
            #[trigger] out@[i]).0 != (#[trigger] out@[j]).0 by {
                if out@[i].0 == out@[j].0 {
                    assert(rows@[i].0@ == rows@[j].0@);
                }
            }
            assert forall|k: Seq<u8>| self.entries().dom().contains(k) implies exists|i: int|
                0 <= i < out@.len() && id_key((#[trigger] out@[i]).0) == k by {
                let i = choose|i: int| 0 <= i < rows@.len() && (#[trigger] rows@[i]).0@ == k;
                assert(id_key(out@[i].0) == k);
            }
        }
        Ok(out)
    }
}

} // verus!
