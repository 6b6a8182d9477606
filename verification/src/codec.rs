//! Byte-level codecs shared by the store layers: fixed-width
//! little-endian integers and decimal ASCII numerals, with proofs that
//! decoding inverts encoding.
use vstd::prelude::*;

verus! {

/// 256 raised to `n`; the number of distinct byte strings of length `n`.
pub open spec fn pow256(n: nat) -> nat
    decreases n,
{
    if n == 0 {
        1
    } else {
        256 * pow256((n - 1) as nat)
    }
}

/// The `n`-byte little-endian encoding of `x` (mod 256^n).
pub open spec fn le_bytes(x: nat, n: nat) -> Seq<u8>
    decreases n,
{
    if n == 0 {
        Seq::empty()
    } else {
        seq![(x % 256) as u8] + le_bytes(x / 256, (n - 1) as nat)
    }
}

/// The value of a little-endian byte string.
pub open spec fn le_value(s: Seq<u8>) -> nat
    decreases s.len(),
{
    if s.len() == 0 {
        0
    } else {
        s[0] as nat + 256 * le_value(s.drop_first())
    }
}

pub proof fn lemma_le_bytes_len(x: nat, n: nat)
    ensures
        le_bytes(x, n).len() == n,
    decreases n,
{
    if n > 0 {
        lemma_le_bytes_len(x / 256, (n - 1) as nat);
    }
}

pub proof fn lemma_le_value_bound(s: Seq<u8>)
    ensures
        le_value(s) < pow256(s.len()),
    decreases s.len(),
{
    if s.len() > 0 {
        lemma_le_value_bound(s.drop_first());
    }
}

pub proof fn lemma_le_roundtrip(x: nat, n: nat)
    requires
        x < pow256(n),
    ensures
        le_value(le_bytes(x, n)) == x,
    decreases n,
{
    if n == 0 {
    } else {
        assert(x / 256 < pow256((n - 1) as nat)) by (nonlinear_arith)
            requires
                x < 256 * pow256((n - 1) as nat),
        ;
        lemma_le_roundtrip(x / 256, (n - 1) as nat);
        let tail = le_bytes(x / 256, (n - 1) as nat);
        assert((seq![(x % 256) as u8] + tail).drop_first() =~= tail);
        assert(x % 256 + 256 * (x / 256) == x) by (nonlinear_arith);
    }
}

/// Two 8-byte encodings agree only on equal values.
pub proof fn lemma_le8_injective(x: u64, y: u64)
    requires
        le_bytes(x as nat, 8) == le_bytes(y as nat, 8),
    ensures
        x == y,
{
    lemma_pow256_8();
    lemma_le_roundtrip(x as nat, 8);
    lemma_le_roundtrip(y as nat, 8);
}

pub proof fn lemma_pow256_8()
    ensures
        pow256(8) == 0x1_0000_0000_0000_0000,
{
    assert(pow256(8) == 0x1_0000_0000_0000_0000) by {
        reveal_with_fuel(pow256, 9);
    };
}

/// The 8-byte little-endian encoding of a 64-bit value.
pub fn u64_to_le(x: u64) -> (r: Vec<u8>)
    ensures
        r@ == le_bytes(x as nat, 8),
        r@.len() == 8,
{
    let mut out: Vec<u8> = Vec::new();
    let mut v: u64 = x;
    let mut i: usize = 0;
    proof {
        lemma_le_bytes_len(x as nat, 8);
    }
    while i < 8
        invariant
            i <= 8,
            out@.len() == i,
            le_bytes(x as nat, 8) == out@ + le_bytes(v as nat, (8 - i) as nat),
        decreases 8 - i,
    {
        proof {
            lemma_le_bytes_len(v as nat / 256, (8 - i - 1) as nat);
        }
        out.push((v % 256) as u8);
        v = v / 256;
        i = i + 1;
        assert(out@ + le_bytes(v as nat, (8 - i) as nat) =~= le_bytes(
            x as nat,
            8,
        ));
    }
    assert(out@ =~= le_bytes(x as nat, 8));
    out
}

/// Reads the 8-byte little-endian value stored at `pos`.
pub fn le8_at(buf: &Vec<u8>, pos: usize) -> (r: u64)
    requires
        pos + 8 <= buf@.len(),
    ensures
        r as nat == le_value(buf@.subrange(pos as int, pos + 8)),
{
    let mut acc: u64 = 0;
    let mut j: usize = 8;
    proof {
        lemma_pow256_8();
        assert(buf@.subrange(pos + 8, pos + 8) =~= Seq::<u8>::empty());
    }
    while j > 0
        invariant
            j <= 8,
            pos + 8 <= buf@.len(),
            acc as nat == le_value(buf@.subrange(pos + j, pos + 8)),
            (acc as nat) < pow256((8 - j) as nat),
        decreases j,
    {
        let ghost pre = buf@.subrange(pos + j - 1, pos + 8);
        proof {
            lemma_pow256_8();
            assert(pre.drop_first() =~= buf@.subrange(pos + j, pos + 8));
            assert(pow256((9 - j) as nat) == 256 * pow256((8 - j) as nat));
            lemma_pow256_monotone((9 - j) as nat, 8);
            assert(acc as nat * 256 + 255 < pow256((9 - j) as nat))
                by (nonlinear_arith)
                requires
                    (acc as nat) < pow256((8 - j) as nat),
                    pow256((9 - j) as nat) == 256 * pow256((8 - j) as nat),
            ;
        }
        let n: usize = buf.len();
        assert(pos + j <= n);
        let idx: usize = pos + j - 1;
        acc = acc * 256 + (buf[idx] as u64);
        j = j - 1;
    }
    proof {
        assert(buf@.subrange(pos as int, pos + 8) =~= buf@.subrange(
            pos + 0,
            pos + 8,
        ));
    }
    acc
}

pub proof fn lemma_pow256_monotone(m: nat, n: nat)
    requires
        m <= n,
    ensures
        pow256(m) <= pow256(n),
    decreases n,
{
    if m < n {
        lemma_pow256_monotone(m, (n - 1) as nat);
        lemma_pow256_pos((n - 1) as nat);
        assert(pow256(n) == 256 * pow256((n - 1) as nat));
        assert(256 * pow256((n - 1) as nat) >= pow256((n - 1) as nat))
            by (nonlinear_arith)
            requires
                pow256((n - 1) as nat) >= 1,
        ;
    }
}

pub proof fn lemma_pow256_pos(n: nat)
    ensures
        pow256(n) >= 1,
    decreases n,
{
    if n > 0 {
        lemma_pow256_pos((n - 1) as nat);
    }
}

/// The decimal ASCII numeral of `x`, most significant digit first,
/// without leading zeros.
pub open spec fn dec_digits(x: nat) -> Seq<u8>
    decreases x,
{
    if x < 10 {
        seq![(48 + x) as u8]
    } else {
        dec_digits(x / 10) + seq![(48 + x % 10) as u8]
    }
}

/// Whether `s` is a nonempty string of ASCII digits.
pub open spec fn is_dec_digits(s: Seq<u8>) -> bool {
    s.len() > 0 && forall|i: int| 0 <= i < s.len() ==> 48 <= #[trigger] s[i] <= 57
}

/// The numeric value of a string of ASCII digits.
pub open spec fn dec_value(s: Seq<u8>) -> nat
    decreases s.len(),
{
    if s.len() == 0 {
        0
    } else {
        dec_value(s.drop_last()) * 10 + if 48 <= s.last() <= 57 {
            (s.last() - 48) as nat
        } else {
            0
        }
    }
}

pub proof fn lemma_dec_roundtrip(x: nat)
    ensures
        is_dec_digits(dec_digits(x)),
        dec_value(dec_digits(x)) == x,
    decreases x,
{
    if x < 10 {
        let s = dec_digits(x);
        assert(s.drop_last() =~= Seq::<u8>::empty());
        assert(dec_value(Seq::<u8>::empty()) == 0);
        assert(s.last() as nat == 48 + x);
        assert(dec_value(s) == dec_value(s.drop_last()) * 10 + (s.last() - 48) as nat);
    } else {
        lemma_dec_roundtrip(x / 10);
        let s = dec_digits(x);
        let p = dec_digits(x / 10);
        assert(s.drop_last() =~= p);
        assert(s.last() as nat == 48 + x % 10);
        assert((x / 10) * 10 + x % 10 == x) by (nonlinear_arith);
    }
}

/// Distinct values have distinct decimal numerals.
pub proof fn lemma_dec_digits_injective(x: nat, y: nat)
    requires
        dec_digits(x) == dec_digits(y),
    ensures
        x == y,
{
    lemma_dec_roundtrip(x);
    lemma_dec_roundtrip(y);
}

/// Appends the decimal ASCII numeral of `x` to `out`.
pub fn push_decimal(out: &mut Vec<u8>, x: u64)
    ensures
        final(out)@ == old(out)@ + dec_digits(x as nat),
    decreases x,
{
    if x < 10 {
        out.push(48 + x as u8);
        assert(out@ =~= old(out)@ + dec_digits(x as nat));
    } else {
        push_decimal(out, x / 10);
        out.push(48 + (x % 10) as u8);
        assert(out@ =~= old(out)@ + dec_digits(x as nat));
    }
}

/// The decimal ASCII numeral of `x` as a fresh byte string.
pub fn u64_to_decimal(x: u64) -> (r: Vec<u8>)
    ensures
        r@ == dec_digits(x as nat),
{
    let mut out: Vec<u8> = Vec::new();
    push_decimal(&mut out, x);
    assert(out@ =~= dec_digits(x as nat));
    out
}

/// Parses a decimal ASCII numeral; `None` on a non-numeral or a value
/// above `u64::MAX`.
pub fn parse_decimal(s: &Vec<u8>) -> (r: Option<u64>)
    ensures
        match r {
            Some(v) => is_dec_digits(s@) && v as nat == dec_value(s@),
            None => !is_dec_digits(s@) || dec_value(s@) > u64::MAX,
        },
{
    if s.len() == 0 {
        return None;
    }
    let mut acc: u64 = 0;
    let mut i: usize = 0;
    while i < s.len()
        invariant
            i <= s@.len(),
            s@.len() > 0,
            forall|j: int| 0 <= j < i ==> 48 <= #[trigger] s@[j] <= 57,
            acc as nat == dec_value(s@.take(i as int)),
        decreases s@.len() - i,
    {
        let b = s[i];
        if b < 48 || b > 57 {
            proof {
                lemma_dec_value_extend_ge(s@, i as int);
            }
            return None;
        }
        let d = (b - 48) as u64;
        if acc > (u64::MAX - d) / 10 {
            proof {
                assert(s@.take(i + 1).drop_last() =~= s@.take(i as int));
                assert(s@.take(i + 1).last() == s@[i as int]);
                assert(dec_value(s@.take(i + 1)) > u64::MAX) by (nonlinear_arith)
                    requires
                        dec_value(s@.take(i + 1)) == dec_value(s@.take(i as int))
                            * 10 + (s@[i as int] - 48),
                        s@[i as int] - 48 == d,
                        dec_value(s@.take(i as int)) == acc as nat,
                        acc > (u64::MAX - d) / 10,
                        d <= 9,
                ;
                lemma_dec_value_extend_ge(s@, i + 1);
            }
            return None;
        }
        proof {
            assert(s@.take(i + 1).drop_last() =~= s@.take(i as int));
            assert(s@.take(i + 1).last() == s@[i as int]);
            assert(acc * 10 + d <= u64::MAX) by (nonlinear_arith)
                requires
                    acc <= (u64::MAX - d) / 10,
                    d <= 9,
            ;
        }
        acc = acc * 10 + d;
        i = i + 1;
    }
    proof {
        assert(s@.take(s@.len() as int) =~= s@);
    }
    Some(acc)
}

/// The ASCII-lowercase image of one byte.
pub open spec fn ascii_lower(c: u8) -> u8 {
    if 65 <= c <= 90 {
        (c + 32) as u8
    } else {
        c
    }
}

/// The ASCII-lowercase image of a byte string.
pub open spec fn lower_bytes(s: Seq<u8>) -> Seq<u8> {
    s.map_values(|c: u8| ascii_lower(c))
}

/// Lowercases the ASCII letters of a byte string.
pub fn to_lower(s: &Vec<u8>) -> (r: Vec<u8>)
    ensures
        r@ == lower_bytes(s@),
{
    let mut out: Vec<u8> = Vec::new();
    let mut k: usize = 0;
    while k < s.len()
        invariant
            k <= s@.len(),
            out@ == lower_bytes(s@.take(k as int)),
        decreases s@.len() - k,
    {
        let c = s[k];
        if c >= 65 && c <= 90 {
            out.push(c + 32);
        } else {
            out.push(c);
        }
        proof {
            assert(s@.take(k + 1).drop_last() =~= s@.take(k as int));
            assert(lower_bytes(s@.take(k + 1)) =~= lower_bytes(s@.take(k as int)).push(
                ascii_lower(s@[k as int]),
            ));
        }
        k = k + 1;
    }
    proof {
        assert(s@.take(s@.len() as int) =~= s@);
    }
    out
}

/// Whether two byte strings hold the same bytes.
pub fn bytes_eq(a: &Vec<u8>, b: &Vec<u8>) -> (r: bool)
    ensures
        r <==> a@ == b@,
{
    if a.len() != b.len() {
        return false;
    }
    let mut k: usize = 0;
    while k < a.len()
        invariant
            k <= a@.len(),
            a@.len() == b@.len(),
            forall|i: int| 0 <= i < k ==> a@[i] == b@[i],
        decreases a@.len() - k,
    {
        if a[k] != b[k] {
            return false;
        }
        k = k + 1;
    }
    proof {
        assert(a@ =~= b@);
    }
    true
}

/// The value of a digit string never drops as digits are appended: the
/// whole string is worth at least any of its prefixes.
proof fn lemma_dec_value_extend_ge(s: Seq<u8>, i: int)
    requires
        0 <= i <= s.len(),
    ensures
        dec_value(s) >= dec_value(s.take(i)),
    decreases s.len() - i,
{
    if i < s.len() {
        assert(s.take(i + 1).drop_last() =~= s.take(i));
        assert(dec_value(s.take(i + 1)) >= dec_value(s.take(i)))
            by (nonlinear_arith)
            requires
                dec_value(s.take(i + 1)) == dec_value(s.take(i)) * 10 + if 48
                    <= s.take(i + 1).last() <= 57 {
                    (s.take(i + 1).last() - 48) as nat
                } else {
                    0
                },
        ;
        lemma_dec_value_extend_ge(s, i + 1);
        assert(s.take(s.len() as int) =~= s);
    } else {
        assert(s.take(i) =~= s);
    }
}

} // verus!
