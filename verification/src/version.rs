//! Semantic versions: a plain-value model of a parsed version, the
//! standard precedence order (major, minor, patch, then pre-release),
//! and rendering back to text. Parsing itself is delegated to the
//! `semver` crate through a trusted wrapper.
use vstd::prelude::*;

use crate::codec::{bytes_eq, dec_digits, is_dec_digits, push_decimal};

verus! {

/// A parsed semantic version. `pre` and `build` hold the raw
/// pre-release and build-metadata text (without the leading `-`/`+`),
/// empty when absent.
pub struct Version {
    pub major: u64,
    pub minor: u64,
    pub patch: u64,
    pub pre: Vec<u8>,
    pub build: Vec<u8>,
}

/// The mathematical value of a [`Version`].
pub struct VersionView {
    pub major: u64,
    pub minor: u64,
    pub patch: u64,
    pub pre: Seq<u8>,
    pub build: Seq<u8>,
}

impl View for Version {
    type V = VersionView;

    open spec fn view(&self) -> VersionView {
        VersionView {
            major: self.major,
            minor: self.minor,
            patch: self.patch,
            pre: self.pre@,
            build: self.build@,
        }
    }
}

impl Clone for Version {
    fn clone(&self) -> (r: Self)
        ensures
            r@ == self@,
    {
        Version {
            major: self.major,
            minor: self.minor,
            patch: self.patch,
            pre: self.pre.clone(),
            build: self.build.clone(),
        }
    }
}

/// Strict lexicographic order on byte strings; a proper prefix comes
/// first.
pub open spec fn lex_lt(a: Seq<u8>, b: Seq<u8>) -> bool
    decreases a.len(),
{
    if b.len() == 0 {
        false
    } else if a.len() == 0 {
        true
    } else if a[0] != b[0] {
        a[0] < b[0]
    } else {
        lex_lt(a.drop_first(), b.drop_first())
    }
}

/// Strict precedence order on single pre-release identifiers: numeric
/// identifiers order numerically (shorter numerals first, since valid
/// identifiers carry no leading zeros) and precede alphanumeric ones;
/// alphanumeric identifiers order lexically by ASCII.
pub open spec fn id_lt(a: Seq<u8>, b: Seq<u8>) -> bool {
    if is_dec_digits(a) && is_dec_digits(b) {
        a.len() < b.len() || (a.len() == b.len() && lex_lt(a, b))
    } else if is_dec_digits(a) {
        true
    } else if is_dec_digits(b) {
        false
    } else {
        lex_lt(a, b)
    }
}

/// Strict precedence order on dot-separated identifier lists: the first
/// unequal identifier decides, and a proper prefix comes first.
pub open spec fn ids_lt(a: Seq<Seq<u8>>, b: Seq<Seq<u8>>) -> bool
    decreases a.len(),
{
    if b.len() == 0 {
        false
    } else if a.len() == 0 {
        true
    } else if a[0] == b[0] {
        ids_lt(a.drop_first(), b.drop_first())
    } else {
        id_lt(a[0], b[0])
    }
}

/// Splits on `.` (ASCII 46), accumulating the identifier under
/// construction.
pub open spec fn split_acc(s: Seq<u8>, cur: Seq<u8>) -> Seq<Seq<u8>>
    decreases s.len(),
{
    if s.len() == 0 {
        seq![cur]
    } else if s[0] == 46u8 {
        seq![cur] + split_acc(s.drop_first(), Seq::empty())
    } else {
        split_acc(s.drop_first(), cur.push(s[0]))
    }
}

/// The dot-separated identifiers of a pre-release string.
pub open spec fn split_ids(s: Seq<u8>) -> Seq<Seq<u8>> {
    split_acc(s, Seq::empty())
}

/// Strict precedence order on pre-release strings: a version with any
/// pre-release precedes the same numbers without one; two pre-releases
/// compare identifier by identifier.
pub open spec fn pre_lt(a: Seq<u8>, b: Seq<u8>) -> bool {
    if a.len() == 0 {
        false
    } else if b.len() == 0 {
        true
    } else {
        ids_lt(split_ids(a), split_ids(b))
    }
}

/// The standard strict precedence order on semantic versions. Build
/// metadata is ignored.
pub open spec fn version_lt(a: VersionView, b: VersionView) -> bool {
    if a.major != b.major {
        a.major < b.major
    } else if a.minor != b.minor {
        a.minor < b.minor
    } else if a.patch != b.patch {
        a.patch < b.patch
    } else {
        pre_lt(a.pre, b.pre)
    }
}

/// The text of a version: `major.minor.patch`, then `-pre` and
/// `+build` when present.
pub open spec fn version_text(v: VersionView) -> Seq<u8> {
    dec_digits(v.major as nat) + seq![46u8] + dec_digits(v.minor as nat) + seq![46u8]
        + dec_digits(v.patch as nat) + (if v.pre.len() == 0 {
        Seq::<u8>::empty()
    } else {
        seq![45u8] + v.pre
    }) + (if v.build.len() == 0 {
        Seq::<u8>::empty()
    } else {
        seq![43u8] + v.build
    })
}

fn lex_lt_exec(a: &Vec<u8>, b: &Vec<u8>) -> (r: bool)
    ensures
        r == lex_lt(a@, b@),
{
    let mut k: usize = 0;
    proof {
        assert(a@.skip(0) =~= a@);
        assert(b@.skip(0) =~= b@);
    }
    loop
        invariant
            k <= a@.len(),
            k <= b@.len(),
            lex_lt(a@, b@) == lex_lt(a@.skip(k as int), b@.skip(k as int)),
        decreases a@.len() - k,
    {
        proof {
            assert(a@.skip(k as int).len() == a@.len() - k);
            assert(b@.skip(k as int).len() == b@.len() - k);
        }
        if k >= b.len() {
            return false;
        }
        if k >= a.len() {
            return true;
        }
        proof {
            assert(a@.skip(k as int)[0] == a@[k as int]);
            assert(b@.skip(k as int)[0] == b@[k as int]);
            assert(a@.skip(k as int).drop_first() =~= a@.skip(k + 1));
            assert(b@.skip(k as int).drop_first() =~= b@.skip(k + 1));
        }
        if a[k] != b[k] {
            return a[k] < b[k];
        }
        k = k + 1;
    }
}

fn is_dec_digits_exec(s: &Vec<u8>) -> (r: bool)
    ensures
        r == is_dec_digits(s@),
{
    if s.len() == 0 {
        return false;
    }
    let mut k: usize = 0;
    while k < s.len()
        invariant
            k <= s@.len(),
            forall|i: int| 0 <= i < k ==> 48 <= #[trigger] s@[i] <= 57,
        decreases s@.len() - k,
    {
        if s[k] < 48 || s[k] > 57 {
            return false;
        }
        k = k + 1;
    }
    true
}

fn id_lt_exec(a: &Vec<u8>, b: &Vec<u8>) -> (r: bool)
    ensures
        r == id_lt(a@, b@),
{
    let a_num = is_dec_digits_exec(a);
    let b_num = is_dec_digits_exec(b);
    if a_num && b_num {
        if a.len() != b.len() {
            a.len() < b.len()
        } else {
            lex_lt_exec(a, b)
        }
    } else if a_num {
        true
    } else if b_num {
        false
    } else {
        lex_lt_exec(a, b)
    }
}

fn ids_lt_exec(a: &Vec<Vec<u8>>, b: &Vec<Vec<u8>>) -> (r: bool)
    ensures
        r == ids_lt(a@.map_values(|v: Vec<u8>| v@), b@.map_values(|v: Vec<u8>| v@)),
{
    let ghost sa = a@.map_values(|v: Vec<u8>| v@);
    let ghost sb = b@.map_values(|v: Vec<u8>| v@);
    let mut k: usize = 0;
    proof {
        assert(sa.skip(0) =~= sa);
        assert(sb.skip(0) =~= sb);
    }
    loop
        invariant
            k <= a@.len(),
            k <= b@.len(),
            sa == a@.map_values(|v: Vec<u8>| v@),
            sb == b@.map_values(|v: Vec<u8>| v@),
            ids_lt(sa, sb) == ids_lt(sa.skip(k as int), sb.skip(k as int)),
        decreases a@.len() - k,
    {
        proof {
            assert(sa.len() == a@.len());
            assert(sb.len() == b@.len());
            assert(sa.skip(k as int).len() == sa.len() - k);
            assert(sb.skip(k as int).len() == sb.len() - k);
        }
        if k >= b.len() {
            return false;
        }
        if k >= a.len() {
            return true;
        }
        proof {
            assert(sa.skip(k as int)[0] == sa[k as int]);
            assert(sb.skip(k as int)[0] == sb[k as int]);
            assert(sa[k as int] == a@[k as int]@);
            assert(sb[k as int] == b@[k as int]@);
            assert(sa.skip(k as int).drop_first() =~= sa.skip(k + 1));
            assert(sb.skip(k as int).drop_first() =~= sb.skip(k + 1));
        }
        if !bytes_eq(&a[k], &b[k]) {
            return id_lt_exec(&a[k], &b[k]);
        }
        k = k + 1;
    }
}

/// Splits a pre-release string into its dot-separated identifiers.
fn split_ids_exec(s: &Vec<u8>) -> (r: Vec<Vec<u8>>)
    ensures
        r@.map_values(|v: Vec<u8>| v@) == split_ids(s@),
{
    let mut out: Vec<Vec<u8>> = Vec::new();
    let mut cur: Vec<u8> = Vec::new();
    let mut i: usize = 0;
    proof {
        assert(s@.skip(0) =~= s@);
        assert(out@.map_values(|v: Vec<u8>| v@) + split_acc(s@, cur@) =~= split_acc(
            s@,
            cur@,
        ));
    }
    while i < s.len()
        invariant
            i <= s@.len(),
            split_ids(s@) == out@.map_values(|v: Vec<u8>| v@) + split_acc(
                s@.skip(i as int),
                cur@,
            ),
        decreases s@.len() - i,
    {
        let ghost rest = s@.skip(i as int);
        proof {
            assert(rest.len() == s@.len() - i);
            assert(rest[0] == s@[i as int]);
            assert(rest.drop_first() =~= s@.skip(i + 1));
        }
        if s[i] == 46 {
            let ghost old_out = out@;
            let done = cur;
            cur = Vec::new();
            out.push(done);
            proof {
                assert(out@.map_values(|v: Vec<u8>| v@) =~= old_out.map_values(
                    |v: Vec<u8>| v@,
                ).push(done@));
                assert(old_out.map_values(|v: Vec<u8>| v@).push(done@)
                    + split_acc(s@.skip(i + 1), Seq::empty()) =~= old_out.map_values(
                    |v: Vec<u8>| v@,
                ) + (seq![done@] + split_acc(s@.skip(i + 1), Seq::empty())));
            }
        } else {
            cur.push(s[i]);
        }
        i = i + 1;
    }
    proof {
        assert(s@.skip(s@.len() as int) =~= Seq::<u8>::empty());
    }
    let ghost old_out = out@;
    out.push(cur);
    proof {
        assert(out@.map_values(|v: Vec<u8>| v@) =~= old_out.map_values(
            |v: Vec<u8>| v@,
        ).push(cur@));
        assert(old_out.map_values(|v: Vec<u8>| v@).push(cur@) =~= old_out.map_values(
            |v: Vec<u8>| v@,
        ) + seq![cur@]);
    }
    out
}

/// Whether `a` strictly precedes `b` in semantic-version order.
pub fn version_precedes(a: &Version, b: &Version) -> (r: bool)
    ensures
        r == version_lt(a@, b@),
{
    if a.major != b.major {
        return a.major < b.major;
    }
    if a.minor != b.minor {
        return a.minor < b.minor;
    }
    if a.patch != b.patch {
        return a.patch < b.patch;
    }
    if a.pre.len() == 0 {
        return false;
    }
    if b.pre.len() == 0 {
        return true;
    }
    let sa = split_ids_exec(&a.pre);
    let sb = split_ids_exec(&b.pre);
    ids_lt_exec(&sa, &sb)
}

/// Renders a version as text (`1.2.3-rc.1+build5`).
pub fn render_version(v: &Version) -> (r: Vec<u8>)
    ensures
        r@ == version_text(v@),
{
    let mut out: Vec<u8> = Vec::new();
    push_decimal(&mut out, v.major);
    out.push(46);
    push_decimal(&mut out, v.minor);
    out.push(46);
    push_decimal(&mut out, v.patch);
    if v.pre.len() > 0 {
        out.push(45);
        let mut k: usize = 0;
        while k < v.pre.len()
            invariant
                k <= v.pre@.len(),
                out@ == dec_digits(v@.major as nat) + seq![46u8] + dec_digits(
                    v@.minor as nat,
                ) + seq![46u8] + dec_digits(v@.patch as nat) + seq![45u8]
                    + v.pre@.take(k as int),
            decreases v.pre@.len() - k,
        {
            out.push(v.pre[k]);
            proof {
                assert(v.pre@.take(k + 1) =~= v.pre@.take(k as int).push(
                    v.pre@[k as int],
                ));
            }
            k = k + 1;
        }
        proof {
            assert(v.pre@.take(v.pre@.len() as int) =~= v.pre@);
        }
    }
    if v.build.len() > 0 {
        out.push(43);
        let ghost base = out@;
        let mut k: usize = 0;
        while k < v.build.len()
            invariant
                k <= v.build@.len(),
                out@ == base + v.build@.take(k as int),
            decreases v.build@.len() - k,
        {
            out.push(v.build[k]);
            proof {
                assert(v.build@.take(k + 1) =~= v.build@.take(k as int).push(
                    v.build@[k as int],
                ));
            }
            k = k + 1;
        }
        proof {
            assert(v.build@.take(v.build@.len() as int) =~= v.build@);
        }
    }
    proof {
        assert(out@ =~= version_text(v@));
    }
    out
}

/// What `semver::Version::parse` yields on a given text, as plain
/// values; `None` where parsing fails. The result depends on the text
/// alone.
pub uninterp spec fn semver_parsed(s: Seq<u8>) -> Option<VersionView>;

/// Relies on `semver::Version::parse` for validating and splitting a
/// version string into its numbers, pre-release and build metadata.
/// Text that is not UTF-8 cannot be a valid version, and is reported
/// the same way as any other parse failure.
#[verifier::external_body]
pub(crate) fn parse_version(s: &Vec<u8>) -> (r: Option<Version>)
    ensures
        match r {
            Some(v) => semver_parsed(s@) == Some(v@),
            None => semver_parsed(s@) is None,
        },
{
    let text = match core::str::from_utf8(s) {
        Ok(t) => t,
        Err(_) => return None,
    };
    match semver::Version::parse(text) {
        Ok(v) => Some(Version {
            major: v.major,
            minor: v.minor,
            patch: v.patch,
            pre: v.pre.as_str().as_bytes().to_vec(),
            build: v.build.as_str().as_bytes().to_vec(),
        }),
        Err(_) => None,
    }
}

} // verus!
