//! Unsigned integers on the wire, in bincode's standard configuration:
//! little-endian, variable-length integers.
use vstd::prelude::*;
use vstd::arithmetic::div_mod::{lemma_fundamental_div_mod, lemma_mod_breakdown, lemma_small_mod};

verus! {

/// Largest value that is written as a single byte.
pub const SINGLE_BYTE_MAX: u8 = 250;

/// Marker byte before a two-byte value.
pub const U16_MARKER: u8 = 251;

/// Marker byte before a four-byte value.
pub const U32_MARKER: u8 = 252;

/// Marker byte before an eight-byte value.
pub const U64_MARKER: u8 = 253;

/// 256 to the power `k`.
pub open spec fn byte_pow(k: nat) -> nat
    decreases k,
{
    if k == 0 {
        1
    } else {
        256 * byte_pow((k - 1) as nat)
    }
}

/// The lowest `k` bytes of `n`, least significant first.
pub open spec fn le_bytes(n: nat, k: nat) -> Seq<u8>
    decreases k,
{
    if k == 0 {
        Seq::empty()
    } else {
        seq![(n % 256) as u8] + le_bytes(n / 256, (k - 1) as nat)
    }
}

/// The number that bytes stored least significant first stand for.
pub open spec fn le_value(s: Seq<u8>) -> nat
    decreases s.len(),
{
    if s.len() == 0 {
        0
    } else {
        s[0] as nat + 256 * le_value(s.drop_first())
    }
}

/// The bytes that stand for `n`: one byte up to 250, else a marker and the
/// value in the smallest of two, four or eight bytes that holds it.
pub open spec fn varint_bytes(n: u64) -> Seq<u8> {
    if n <= SINGLE_BYTE_MAX as u64 {
        seq![n as u8]
    } else if n <= 0xffff {
        seq![U16_MARKER] + le_bytes(n as nat, 2)
    } else if n <= 0xffff_ffff {
        seq![U32_MARKER] + le_bytes(n as nat, 4)
    } else {
        seq![U64_MARKER] + le_bytes(n as nat, 8)
    }
}

/// The value read from the front of `s` and the number of bytes it took,
/// or `None` where the marker is unknown or the input ends too early.
pub open spec fn varint_parse(s: Seq<u8>) -> Option<(u64, nat)> {
    if s.len() == 0 {
        None
    } else if s[0] <= SINGLE_BYTE_MAX {
        Some((s[0] as u64, 1))
    } else if s[0] == U16_MARKER && s.len() >= 3 {
        Some((le_value(s.subrange(1, 3)) as u64, 3))
    } else if s[0] == U32_MARKER && s.len() >= 5 {
        Some((le_value(s.subrange(1, 5)) as u64, 5))
    } else if s[0] == U64_MARKER && s.len() >= 9 {
        Some((le_value(s.subrange(1, 9)) as u64, 9))
    } else {
        None
    }
}

proof fn lemma_le_bytes(n: nat, k: nat)
    ensures
        le_bytes(n, k).len() == k,
        le_value(le_bytes(n, k)) == n % byte_pow(k),
    decreases k,
{
    if k == 0 {
        assert(n % 1 == 0);
    } else {
        let k1 = (k - 1) as nat;
        lemma_le_bytes(n / 256, k1);
        let s = le_bytes(n, k);
        assert(s.drop_first() =~= le_bytes(n / 256, k1));
        assert(byte_pow(k1) > 0) by {
            lemma_byte_pow_positive(k1);
        }
        lemma_mod_breakdown(n as int, 256, byte_pow(k1) as int);
        assert((n % 256) as u8 as nat == n % 256);
    }
}

proof fn lemma_byte_pow_positive(k: nat)
    ensures
        byte_pow(k) > 0,
    decreases k,
{
    if k > 0 {
        lemma_byte_pow_positive((k - 1) as nat);
    }
}

proof fn lemma_le_round_trip(n: nat, k: nat)
    requires
        n < byte_pow(k),
    ensures
        le_bytes(n, k).len() == k,
        le_value(le_bytes(n, k)) == n,
{
    lemma_le_bytes(n, k);
    lemma_small_mod(n, byte_pow(k));
}

/// Reading the bytes written for `n`, with anything after them, gives back `n`
/// and stops right after those bytes.
pub proof fn lemma_varint_round_trip(n: u64, rest: Seq<u8>)
    ensures
        1 <= varint_bytes(n).len() <= 9,
        varint_parse(varint_bytes(n) + rest) == Some((n, varint_bytes(n).len())),
{
    reveal_with_fuel(byte_pow, 9);
    let b = varint_bytes(n);
    let s = b + rest;
    if n <= SINGLE_BYTE_MAX as u64 {
        assert(s[0] == n as u8);
    } else if n <= 0xffff {
        lemma_le_round_trip(n as nat, 2);
        assert(s.subrange(1, 3) =~= le_bytes(n as nat, 2));
    } else if n <= 0xffff_ffff {
        lemma_le_round_trip(n as nat, 4);
        assert(s.subrange(1, 5) =~= le_bytes(n as nat, 4));
    } else {
        lemma_le_round_trip(n as nat, 8);
        assert(s.subrange(1, 9) =~= le_bytes(n as nat, 8));
    }
}

/// Relies on bincode::encode_to_vec with the standard configuration: a `u64`
/// is written as a variable-length integer, least significant byte first,
/// into a growing vector, which never fails.
#[verifier::external_body]
fn encode_u64_bytes(n: u64) -> (r: Vec<u8>)
    ensures
        r@ == varint_bytes(n),
{
    bincode::encode_to_vec(n, bincode::config::standard()).unwrap()
}

/// Relies on bincode::decode_from_slice with the standard configuration: a
/// `u64` is read as a variable-length integer from the front of the slice,
/// with the count of bytes it took; an unknown marker or a short input fails.
#[verifier::external_body]
fn decode_u64_bytes(bytes: &[u8]) -> (r: Option<(u64, usize)>)
    ensures
        match (r, varint_parse(bytes@)) {
            (Some((v, k)), Some((w, m))) => v == w && k as nat == m,
            (None, None) => true,
            _ => false,
        },
{
    bincode::decode_from_slice::<u64, _>(bytes, bincode::config::standard()).ok()
}

/// Appends the bytes for `n` to `out`.
pub fn write_varint(out: &mut Vec<u8>, n: u64)
    ensures
        final(out)@ == old(out)@ + varint_bytes(n),
{
    let mut b = encode_u64_bytes(n);
    out.append(&mut b);
}

/// Reads one integer starting at `pos`; returns it with the position just
/// after it, or `None` where no well-formed integer starts there.
pub fn read_varint(bytes: &Vec<u8>, pos: usize) -> (r: Option<(u64, usize)>)
    requires
        pos <= bytes@.len(),
    ensures
        match (r, varint_parse(bytes@.subrange(pos as int, bytes@.len() as int))) {
            (Some((v, p)), Some((w, m))) => v == w && p == pos + m,
            (None, None) => true,
            _ => false,
        },
{
    let len = bytes.len();
    let tail = slice_from(bytes.as_slice(), pos);
    match decode_u64_bytes(tail) {
        Some((v, k)) => {
            proof {
                lemma_parse_width(bytes@.subrange(pos as int, bytes@.len() as int));
            }
            assert(pos + k <= len);
            Some((v, pos + k))
        },
        None => None,
    }
}

proof fn lemma_parse_width(s: Seq<u8>)
    ensures
        varint_parse(s) matches Some((_, m)) ==> 1 <= m <= s.len(),
{
}

fn slice_from(s: &[u8], pos: usize) -> (r: &[u8])
    requires
        pos <= s@.len(),
    ensures
        r@ == s@.subrange(pos as int, s@.len() as int),
{
    let (_, tail) = s.split_at(pos);
    tail
}

/// A byte string on the wire: its length, then its bytes. A `String` travels
/// the same way, as its UTF-8 bytes.
pub open spec fn byte_string(b: Seq<u8>) -> Seq<u8> {
    varint_bytes(b.len() as u64) + b
}

/// Relies on bincode::encode_to_vec with the standard configuration: a
/// `Vec<u8>` is written as its length, a variable-length integer, followed by
/// its bytes, into a growing vector, which never fails.
#[verifier::external_body]
fn encode_byte_vec(b: &Vec<u8>) -> (r: Vec<u8>)
    ensures
        r@ == byte_string(b@),
{
    bincode::encode_to_vec(b, bincode::config::standard()).unwrap()
}

/// Relies on bincode::decode_from_slice with the standard configuration: a
/// `Vec<u8>` is read as its length, then that many bytes, with the count of
/// bytes taken. bincode allocates the announced length before reading, so
/// the announced length must fit in the input.
#[verifier::external_body]
fn decode_byte_vec(bytes: &[u8]) -> (r: Option<(Vec<u8>, usize)>)
    requires
        varint_parse(bytes@) matches Some((len, m)) && m + len <= bytes@.len(),
    ensures
        match (r, varint_parse(bytes@)) {
            (Some((v, n)), Some((len, m))) => v@ == bytes@.subrange(m as int, (m + len) as int) && n == m + len,
            _ => false,
        },
{
    bincode::decode_from_slice::<Vec<u8>, _>(bytes, bincode::config::standard()).ok()
}

/// Appends the byte string `b` to `out`.
pub fn write_bytes(out: &mut Vec<u8>, b: &Vec<u8>)
    ensures
        final(out)@ == old(out)@ + byte_string(b@),
{
    let mut e = encode_byte_vec(b);
    out.append(&mut e);
}

/// Reads the byte string that starts at `pos`, whose announced length fits
/// in what follows; returns it with the position just after it.
pub fn read_bytes(bytes: &Vec<u8>, pos: usize) -> (r: (Vec<u8>, usize))
    requires
        pos <= bytes@.len(),
        varint_parse(bytes@.subrange(pos as int, bytes@.len() as int)) matches Some((len, m))
            && pos + m + len <= bytes@.len(),
    ensures
        varint_parse(bytes@.subrange(pos as int, bytes@.len() as int)) matches Some((len, m))
            && r.0@ == bytes@.subrange(pos + m, (pos + m + len) as int) && r.1 == pos + m + len,
{
    let total = bytes.len();
    let tail = slice_from(bytes.as_slice(), pos);
    match decode_byte_vec(tail) {
        Some((v, n)) => {
            proof {
                if let Some((len, m)) = varint_parse(tail@) {
                    assert(pos + n <= total);
                    assert(v@ =~= bytes@.subrange(pos + m, (pos + m + len) as int));
                }
            }
            (v, pos + n)
        },
        None => {
            assert(false);
            (Vec::new(), pos)
        },
    }
}

/// Reading a byte string that was written, with anything after it, gives it
/// back and stops right after it.
pub proof fn lemma_byte_string_round_trip(b: Seq<u8>, rest: Seq<u8>)
    requires
        b.len() <= u64::MAX,
    ensures
        ({
            let s = byte_string(b) + rest;
            let m = varint_bytes(b.len() as u64).len();
            &&& varint_parse(s) == Some((b.len() as u64, m))
            &&& m + b.len() <= s.len()
            &&& s.subrange(m as int, (m + b.len()) as int) == b
            &&& s.subrange((m + b.len()) as int, s.len() as int) == rest
        }),
{
    let d = varint_bytes(b.len() as u64);
    let s = byte_string(b) + rest;
    assert(s =~= d + (b + rest));
    lemma_varint_round_trip(b.len() as u64, b + rest);
    assert(s.subrange(d.len() as int, (d.len() + b.len()) as int) =~= b);
    assert(s.subrange((d.len() + b.len()) as int, s.len() as int) =~= rest);
}

} // verus!
