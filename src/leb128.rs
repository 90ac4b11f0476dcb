use vstd::arithmetic::div_mod::{
    lemma_fundamental_div_mod, lemma_fundamental_div_mod_converse, lemma_mod_multiples_vanish,
};
use vstd::prelude::*;

verus! {

/// Why a compressed segment of the weight file could not be read.
#[derive(Clone, Copy, Debug, PartialEq, Eq, Structural)]
pub enum Leb128Error {
    /// The segment does not start with the `COMPRESSED_LEB128` marker.
    BadMagic,
    /// The data ends before the length field or before the declared payload.
    Truncated,
    /// A value runs past the declared payload, or past the width of its type.
    Malformed,
    /// The values were decoded but did not use up the declared payload.
    LengthMismatch,
}

/// The ASCII marker `COMPRESSED_LEB128`.
pub open spec fn leb128_magic() -> Seq<u8> {
    seq![67u8, 79, 77, 80, 82, 69, 83, 83, 69, 68, 95, 76, 69, 66, 49, 50, 56]
}

fn leb128_magic_byte(i: usize) -> (r: u8)
    requires
        i < 17,
    ensures
        r == leb128_magic()[i as int],
{
    let magic: Vec<u8> = vec![67u8, 79, 77, 80, 82, 69, 83, 83, 69, 68, 95, 76, 69, 66, 49, 50, 56];
    assert(magic@ =~= leb128_magic());
    magic[i]
}

/// A little-endian `u32` at `at`.
pub open spec fn le_u32(data: Seq<u8>, at: int) -> int {
    data[at] + 256 * data[at + 1] + 65536 * data[at + 2] + 16777216 * data[at + 3]
}

pub open spec fn modulus(bits: nat) -> int {
    if bits == 16 {
        0x1_0000
    } else {
        0x1_0000_0000
    }
}

/// `v` reduced to a signed integer of `bits` bits, as two's complement wraps it.
pub open spec fn wrap_signed(v: int, bits: nat) -> int {
    let m = v % modulus(bits);
    if m >= modulus(bits) / 2 {
        m - modulus(bits)
    } else {
        m
    }
}

/// Decodes one signed LEB128 value from `b[p..end]`. `k` groups of 7 bits were
/// read already, adding up to `acc`; `scale` is `128` to the power `k`. A value
/// that has not ended when its groups reach `bits` bits, or that runs to `end`,
/// gives `None`. Otherwise the result is the value and the position after it.
pub open spec fn decode_value(
    b: Seq<u8>,
    end: int,
    p: int,
    k: nat,
    scale: int,
    acc: int,
    bits: nat,
) -> Option<(int, int)>
    decreases end - p,
{
    if 7 * k >= bits || p < 0 || p >= end || p >= b.len() {
        None
    } else {
        let byte = b[p] as int;
        let acc2 = acc + (byte % 128) * scale;
        if byte < 128 {
            let v = if bits <= 7 * (k + 1) || (byte / 64) % 2 == 0 {
                acc2
            } else {
                acc2 - scale * 128
            };
            Some((wrap_signed(v, bits), p + 1))
        } else {
            decode_value(b, end, p + 1, k + 1, scale * 128, acc2, bits)
        }
    }
}

/// Decodes `count` values one after another from position `start`, none past `end`.
pub open spec fn decode_values(b: Seq<u8>, end: int, start: int, count: nat, bits: nat) -> Option<
    (Seq<int>, int),
>
    decreases count,
{
    if count == 0 {
        Some((seq![], start))
    } else {
        match decode_values(b, end, start, (count - 1) as nat, bits) {
            Some((vs, q)) => match decode_value(b, end, q, 0, 1, 0, bits) {
                Some((v, r)) => Some((vs.push(v), r)),
                None => None,
            },
            None => None,
        }
    }
}

/// A segment at `pos`: the marker, the payload length as a little-endian `u32`,
/// then a payload that `count` values of `bits` bits must use up exactly. The
/// result holds the values and the position after the payload.
pub open spec fn decode_segment(data: Seq<u8>, pos: int, count: nat, bits: nat) -> Result<
    (Seq<int>, int),
    Leb128Error,
> {
    if data.len() < pos + 17 || data.subrange(pos, pos + 17) != leb128_magic() {
        Err(Leb128Error::BadMagic)
    } else if data.len() < pos + 21 {
        Err(Leb128Error::Truncated)
    } else {
        let n = le_u32(data, pos + 17);
        let start = pos + 21;
        if data.len() < start + n {
            Err(Leb128Error::Truncated)
        } else {
            match decode_values(data, start + n, start, count, bits) {
                None => Err(Leb128Error::Malformed),
                Some((vs, q)) => if q != start + n {
                    Err(Leb128Error::LengthMismatch)
                } else {
                    Ok((vs, start + n))
                },
            }
        }
    }
}

proof fn lemma_decode_values_stays_none(b: Seq<u8>, end: int, start: int, i: nat, n: nat, bits: nat)
    requires
        i <= n,
        decode_values(b, end, start, i, bits) is None,
    ensures
        decode_values(b, end, start, n, bits) is None,
    decreases n,
{
    if i < n {
        lemma_decode_values_stays_none(b, end, start, i, (n - 1) as nat, bits);
    }
}

fn wrap_value(v: i64, bits: usize) -> (r: i64)
    requires
        bits == 16 || bits == 32,
        -0x8_0000_0000 <= v <= 0x8_0000_0000,
    ensures
        r == wrap_signed(v as int, bits as nat),
        -modulus(bits as nat) / 2 <= r < modulus(bits as nat) / 2,
{
    let m: u64 = if bits == 16 {
        0x1_0000
    } else {
        0x1_0000_0000
    };
    let shifted: u64 = (v + 0x100_0000_0000) as u64;
    let red: u64 = shifted % m;
    proof {
        let a = 0x100_0000_0000int / (m as int);
        assert(a * (m as int) == 0x100_0000_0000);
        lemma_mod_multiples_vanish(a, v as int, m as int);
        assert((m as int) * a + v == shifted as int);
    }
    if red >= m / 2 {
        red as i64 - m as i64
    } else {
        red as i64
    }
}

/// Decodes one value of `data[p..end]`, as `decode_value` from its start.
fn read_value(data: &[u8], end: usize, p: usize, bits: usize) -> (r: Option<(i64, usize)>)
    requires
        bits == 16 || bits == 32,
        end <= data@.len(),
    ensures
        match r {
            Some((v, q)) => decode_value(data@, end as int, p as int, 0, 1, 0, bits as nat) == Some(
                (v as int, q as int),
            ) && -modulus(bits as nat) / 2 <= v < modulus(bits as nat) / 2,
            None => decode_value(data@, end as int, p as int, 0, 1, 0, bits as nat) is None,
        },
{
    let mut pos: usize = p;
    let mut k: usize = 0;
    let mut scale: i64 = 1;
    let mut acc: i64 = 0;
    while 7 * k < bits
        invariant
            bits == 16 || bits == 32,
            end <= data@.len(),
            7 * k < bits + 7,
            1 <= scale <= 0x8_0000_0000,
            0 <= acc < scale,
            k == 0 ==> scale == 1,
            k == 1 ==> scale == 128,
            k == 2 ==> scale == 0x4000,
            k == 3 ==> scale == 0x20_0000,
            k == 4 ==> scale == 0x1000_0000,
            k == 5 ==> scale == 0x8_0000_0000,
            decode_value(data@, end as int, p as int, 0, 1, 0, bits as nat) == decode_value(
                data@,
                end as int,
                pos as int,
                k as nat,
                scale as int,
                acc as int,
                bits as nat,
            ),
        decreases bits + 7 - 7 * k,
    {
        if pos >= end {
            return None;
        }
        let byte: u8 = data[pos];
        let group: i64 = (byte % 128) as i64;
        assert(group * scale <= 127 * scale) by (nonlinear_arith)
            requires
                0 <= group <= 127,
                scale >= 1,
        ;
        let acc2: i64 = acc + group * scale;
        if byte < 128 {
            let v: i64 = if bits <= 7 * (k + 1) || (byte / 64) % 2 == 0 {
                acc2
            } else {
                acc2 - scale * 128
            };
            let w = wrap_value(v, bits);
            return Some((w, pos + 1));
        }
        pos = pos + 1;
        k = k + 1;
        scale = scale * 128;
        acc = acc2;
    }
    None
}

/// Reads one segment at `pos` into values of `bits` bits, each in an `i64`.
pub(crate) fn read_segment(data: &[u8], pos: usize, count: usize, bits: usize) -> (r: Result<
    (Vec<i64>, usize),
    Leb128Error,
>)
    requires
        bits == 16 || bits == 32,
    ensures
        match r {
            Ok((v, next)) => decode_segment(data@, pos as int, count as nat, bits as nat) == Ok::<
                (Seq<int>, int),
                Leb128Error,
            >((v@.map_values(|x: i64| x as int), next as int),
            ),
            Err(e) => decode_segment(data@, pos as int, count as nat, bits as nat) == Err::<(Seq<int>, int), Leb128Error>(e),
        },
        match r {
            Ok((v, next)) => v@.len() == count && forall|i: int|
                0 <= i < v@.len() ==> -modulus(bits as nat) / 2 <= #[trigger] v@[i] < modulus(
                    bits as nat,
                ) / 2,
            Err(_) => true,
        },
{
    let len = data.len();
    if len < 17 || pos > len - 17 {
        return Err(Leb128Error::BadMagic);
    }
    let mut i: usize = 0;
    while i < 17
        invariant
            i <= 17,
            pos + 17 <= len == data@.len(),
            forall|j: int| 0 <= j < i ==> data@[pos + j] == leb128_magic()[j],
        decreases 17 - i,
    {
        if data[pos + i] != leb128_magic_byte(i) {
            assert(data@.subrange(pos as int, pos + 17)[i as int] != leb128_magic()[i as int]);
            return Err(Leb128Error::BadMagic);
        }
        i = i + 1;
    }
    assert(data@.subrange(pos as int, pos + 17) =~= leb128_magic());
    if len - pos < 21 {
        return Err(Leb128Error::Truncated);
    }
    let n: usize = data[pos + 17] as usize + 256 * (data[pos + 18] as usize) + 65536 * (data[pos
        + 19] as usize) + 16777216 * (data[pos + 20] as usize);
    assert(n == le_u32(data@, pos + 17));
    let start: usize = pos + 21;
    if n > len - start {
        return Err(Leb128Error::Truncated);
    }
    let end: usize = start + n;
    let mut out: Vec<i64> = Vec::new();
    let mut q: usize = start;
    let mut c: usize = 0;
    while c < count
        invariant
            bits == 16 || bits == 32,
            end <= data@.len(),
            len == data@.len(),
            pos + 21 <= len,
            data@.subrange(pos as int, pos + 17) == leb128_magic(),
            n == le_u32(data@, pos + 17),
            start == pos + 21,
            end == start + n,
            c <= count,
            out@.len() == c,
            decode_values(data@, end as int, start as int, c as nat, bits as nat) == Some(
                (out@.map_values(|x: i64| x as int), q as int),
            ),
            forall|j: int|
                0 <= j < out@.len() ==> -modulus(bits as nat) / 2 <= #[trigger] out@[j] < modulus(
                    bits as nat,
                ) / 2,
        decreases count - c,
    {
        match read_value(data, end, q, bits) {
            Some((v, q2)) => {
                assert(out@.push(v).map_values(|x: i64| x as int) =~= out@.map_values(
                    |x: i64| x as int,
                ).push(v as int));
                out.push(v);
                q = q2;
            },
            None => {
                proof {
                    assert(decode_values(data@, end as int, start as int, (c + 1) as nat, bits as nat) is None);
                    lemma_decode_values_stays_none(
                        data@,
                        end as int,
                        start as int,
                        (c + 1) as nat,
                        count as nat,
                        bits as nat,
                    );
                }
                return Err(Leb128Error::Malformed);
            },
        }
        c = c + 1;
    }
    if q != end {
        return Err(Leb128Error::LengthMismatch);
    }
    Ok((out, end))
}

/// Signed LEB128 encoding of `v`, shortest form: 7 bits per byte, low first,
/// the high bit set on every byte but the last, and the last byte's bit 6
/// equal to the sign. `fuel` bounds the number of bytes after the first.
pub open spec fn enc_value(v: int, fuel: nat) -> Seq<u8>
    decreases fuel,
{
    let byte = v % 128;
    let rest = v / 128;
    if fuel == 0 || (rest == 0 && byte < 64) || (rest == -1 && byte >= 64) {
        seq![byte as u8]
    } else {
        seq![(byte + 128) as u8] + enc_value(rest, (fuel - 1) as nat)
    }
}

/// Encoding of a 16-bit value: at most three bytes.
pub open spec fn enc16(v: int) -> Seq<u8> {
    enc_value(v, 2)
}

/// Encoding of a 32-bit value: at most five bytes.
pub open spec fn enc32(v: int) -> Seq<u8> {
    enc_value(v, 4)
}

/// Encoding of a value of `bits` bits (16 or 32).
pub open spec fn enc_width(v: int, bits: nat) -> Seq<u8> {
    if bits == 16 {
        enc16(v)
    } else {
        enc32(v)
    }
}

/// The values of `vs` fit in `bits` bits, signed.
pub open spec fn fits(vs: Seq<int>, bits: nat) -> bool {
    forall|i: int| 0 <= i < vs.len() ==> -modulus(bits) / 2 <= #[trigger] vs[i] < modulus(bits) / 2
}

/// A payload: the encodings of `vs`, one after another.
pub open spec fn enc_all(vs: Seq<int>, bits: nat) -> Seq<u8>
    decreases vs.len(),
{
    if vs.len() == 0 {
        seq![]
    } else {
        enc_all(vs.drop_last(), bits) + enc_width(vs.last(), bits)
    }
}

/// `n` as four little-endian bytes.
pub open spec fn le_bytes(n: nat) -> Seq<u8> {
    seq![(n % 256) as u8, ((n / 256) % 256) as u8, ((n / 65536) % 256) as u8, ((n / 16777216) % 256) as u8]
}

/// A whole segment: marker, payload length, payload.
pub open spec fn enc_segment(vs: Seq<int>, bits: nat) -> Seq<u8> {
    leb128_magic() + le_bytes(enc_all(vs, bits).len()) + enc_all(vs, bits)
}

proof fn lemma_wrap16_in_range(v: int)
    requires
        -32768 <= v < 32768,
    ensures
        wrap_signed(v, 16) == v,
        wrap_signed(v + 0x20_0000, 16) == v,
{
    if v >= 0 {
        lemma_fundamental_div_mod_converse(v, 0x1_0000, 0, v);
        lemma_fundamental_div_mod_converse(v + 0x20_0000, 0x1_0000, 32, v);
    } else {
        lemma_fundamental_div_mod_converse(v, 0x1_0000, -1, v + 0x1_0000);
        lemma_fundamental_div_mod_converse(v + 0x20_0000, 0x1_0000, 31, v + 0x1_0000);
    }
}

/// The decoder reads back a 16-bit value from its encoding, wherever the
/// encoding stands before `end`.
#[verifier::rlimit(60)]
proof fn lemma_decode_enc16(b: Seq<u8>, end: int, p: int, v: int)
    requires
        -32768 <= v < 32768,
        0 <= p,
        p + enc16(v).len() <= end <= b.len(),
        forall|j: int| 0 <= j < enc16(v).len() ==> b[p + j] == #[trigger] enc16(v)[j],
    ensures
        decode_value(b, end, p, 0, 1, 0, 16) == Some((v, p + enc16(v).len())),
{
    lemma_fundamental_div_mod(v, 128);
    let b0 = v % 128;
    let r1 = v / 128;
    lemma_fundamental_div_mod(r1, 128);
    let b1 = r1 % 128;
    let r2 = r1 / 128;
    lemma_fundamental_div_mod(r2, 128);
    let b2 = r2 % 128;
    lemma_wrap16_in_range(v);
    assert(-256 <= r1 < 256);
    assert(-2 <= r2 < 2);
    let e = enc16(v);
    assert(b[p + 0] == e[0]);
    if (r1 == 0 && b0 < 64) || (r1 == -1 && b0 >= 64) {
        assert(e == seq![b0 as u8]);
        assert(b[p] == b0);
        return;
    }
    assert(e == seq![(b0 + 128) as u8] + enc_value(r1, 1));
    assert(b[p] == b0 + 128);
    assert(decode_value(b, end, p, 0, 1, 0, 16) == decode_value(b, end, p + 1, 1, 128, b0, 16));
    let e1 = enc_value(r1, 1);
    assert(e1[0] == e[1] && e[1] == b[p + 1]);
    if (r2 == 0 && b1 < 64) || (r2 == -1 && b1 >= 64) {
        assert(e1 == seq![b1 as u8]);
        return;
    }
    assert(e1 == seq![(b1 + 128) as u8] + enc_value(r2, 0));
    assert(decode_value(b, end, p + 1, 1, 128, b0, 16) == decode_value(
        b,
        end,
        p + 2,
        2,
        0x4000,
        b0 + 128 * b1,
        16,
    ));
    assert(enc_value(r2, 0) == seq![b2 as u8]);
    assert(e[2] == b[p + 2]);
    assert(b[p + 2] == b2);
    assert(b2 - r2 == 0 || b2 - r2 == 128);
    assert(b0 + 128 * b1 + 0x4000 * b2 == v || b0 + 128 * b1 + 0x4000 * b2 == v + 0x20_0000);
}

proof fn lemma_wrap32_in_range(v: int)
    requires
        -0x8000_0000 <= v < 0x8000_0000,
    ensures
        wrap_signed(v, 32) == v,
        wrap_signed(v + 0x8_0000_0000, 32) == v,
{
    if v >= 0 {
        lemma_fundamental_div_mod_converse(v, 0x1_0000_0000, 0, v);
        lemma_fundamental_div_mod_converse(v + 0x8_0000_0000, 0x1_0000_0000, 8, v);
    } else {
        lemma_fundamental_div_mod_converse(v, 0x1_0000_0000, -1, v + 0x1_0000_0000);
        lemma_fundamental_div_mod_converse(v + 0x8_0000_0000, 0x1_0000_0000, 7, v + 0x1_0000_0000);
    }
}

/// The decoder reads back a 32-bit value from its encoding, wherever the
/// encoding stands before `end`.
#[verifier::rlimit(100)]
proof fn lemma_decode_enc32(b: Seq<u8>, end: int, p: int, v: int)
    requires
        -0x8000_0000 <= v < 0x8000_0000,
        0 <= p,
        p + enc32(v).len() <= end <= b.len(),
        forall|j: int| 0 <= j < enc32(v).len() ==> b[p + j] == #[trigger] enc32(v)[j],
    ensures
        decode_value(b, end, p, 0, 1, 0, 32) == Some((v, p + enc32(v).len())),
{
    lemma_fundamental_div_mod(v, 128);
    let b0 = v % 128;
    let r1 = v / 128;
    lemma_fundamental_div_mod(r1, 128);
    let b1 = r1 % 128;
    let r2 = r1 / 128;
    lemma_fundamental_div_mod(r2, 128);
    let b2 = r2 % 128;
    let r3 = r2 / 128;
    lemma_fundamental_div_mod(r3, 128);
    let b3 = r3 % 128;
    let r4 = r3 / 128;
    lemma_fundamental_div_mod(r4, 128);
    let b4 = r4 % 128;
    lemma_wrap32_in_range(v);
    assert(-0x100_0000 <= r1 < 0x100_0000);
    assert(-0x2_0000 <= r2 < 0x2_0000);
    assert(-0x400 <= r3 < 0x400);
    assert(-8 <= r4 < 8);
    let e = enc32(v);
    assert(b[p + 0] == e[0]);
    if (r1 == 0 && b0 < 64) || (r1 == -1 && b0 >= 64) {
        assert(e == seq![b0 as u8]);
        assert(b[p] == b0);
        return;
    }
    assert(e == seq![(b0 + 128) as u8] + enc_value(r1, 3));
    assert(b[p] == b0 + 128);
    assert(decode_value(b, end, p, 0, 1, 0, 32) == decode_value(b, end, p + 1, 1, 128, b0, 32));
    let e1 = enc_value(r1, 3);
    assert(e1[0] == e[1] && e[1] == b[p + 1]);
    if (r2 == 0 && b1 < 64) || (r2 == -1 && b1 >= 64) {
        assert(e1 == seq![b1 as u8]);
        return;
    }
    assert(e1 == seq![(b1 + 128) as u8] + enc_value(r2, 2));
    assert(decode_value(b, end, p + 1, 1, 128, b0, 32) == decode_value(
        b,
        end,
        p + 2,
        2,
        0x4000,
        b0 + 128 * b1,
        32,
    ));
    let e2 = enc_value(r2, 2);
    assert(e2[0] == e[2] && e[2] == b[p + 2]);
    if (r3 == 0 && b2 < 64) || (r3 == -1 && b2 >= 64) {
        assert(e2 == seq![b2 as u8]);
        return;
    }
    assert(e2 == seq![(b2 + 128) as u8] + enc_value(r3, 1));
    assert(decode_value(b, end, p + 2, 2, 0x4000, b0 + 128 * b1, 32) == decode_value(
        b,
        end,
        p + 3,
        3,
        0x20_0000,
        b0 + 128 * b1 + 0x4000 * b2,
        32,
    ));
    let e3 = enc_value(r3, 1);
    assert(e3[0] == e[3] && e[3] == b[p + 3]);
    if (r4 == 0 && b3 < 64) || (r4 == -1 && b3 >= 64) {
        assert(e3 == seq![b3 as u8]);
        return;
    }
    assert(e3 == seq![(b3 + 128) as u8] + enc_value(r4, 0));
    assert(decode_value(b, end, p + 3, 3, 0x20_0000, b0 + 128 * b1 + 0x4000 * b2, 32)
        == decode_value(
        b,
        end,
        p + 4,
        4,
        0x1000_0000,
        b0 + 128 * b1 + 0x4000 * b2 + 0x20_0000 * b3,
        32,
    ));
    assert(enc_value(r4, 0) == seq![b4 as u8]);
    assert(e[4] == b[p + 4]);
    assert(b[p + 4] == b4);
    assert(b4 - r4 == 0 || b4 - r4 == 128);
    assert(b0 + 128 * b1 + 0x4000 * b2 + 0x20_0000 * b3 + 0x1000_0000 * b4 == v || b0 + 128 * b1
        + 0x4000 * b2 + 0x20_0000 * b3 + 0x1000_0000 * b4 == v + 0x8_0000_0000);
}

proof fn lemma_decode_enc_width(b: Seq<u8>, end: int, p: int, v: int, bits: nat)
    requires
        bits == 16 || bits == 32,
        -modulus(bits) / 2 <= v < modulus(bits) / 2,
        0 <= p,
        p + enc_width(v, bits).len() <= end <= b.len(),
        forall|j: int| 0 <= j < enc_width(v, bits).len() ==> b[p + j] == #[trigger] enc_width(v, bits)[j],
    ensures
        decode_value(b, end, p, 0, 1, 0, bits) == Some((v, p + enc_width(v, bits).len())),
{
    if bits == 16 {
        lemma_decode_enc16(b, end, p, v);
    } else {
        lemma_decode_enc32(b, end, p, v);
    }
}

/// Decoding the concatenated encodings of `vs` gives `vs` back and uses up the
/// encodings exactly.
proof fn lemma_decode_enc_all(b: Seq<u8>, end: int, start: int, vs: Seq<int>, bits: nat)
    requires
        bits == 16 || bits == 32,
        fits(vs, bits),
        0 <= start,
        start + enc_all(vs, bits).len() <= end <= b.len(),
        forall|j: int| 0 <= j < enc_all(vs, bits).len() ==> b[start + j] == #[trigger] enc_all(vs, bits)[j],
    ensures
        decode_values(b, end, start, vs.len(), bits) == Some((vs, start + enc_all(vs, bits).len())),
    decreases vs.len(),
{
    if vs.len() > 0 {
        let init = vs.drop_last();
        let e0 = enc_all(init, bits);
        let e1 = enc_width(vs.last(), bits);
        assert(enc_all(vs, bits) == e0 + e1);
        assert forall|j: int| 0 <= j < e0.len() implies b[start + j] == #[trigger] e0[j] by {
            assert(enc_all(vs, bits)[j] == e0[j]);
        }
        assert(fits(init, bits)) by {
            assert forall|i: int| 0 <= i < init.len() implies -modulus(bits) / 2 <= #[trigger] init[i]
                < modulus(bits) / 2 by {
                assert(init[i] == vs[i]);
            }
        }
        lemma_decode_enc_all(b, end, start, init, bits);
        let q = start + e0.len();
        assert forall|j: int| 0 <= j < e1.len() implies b[q + j] == #[trigger] e1[j] by {
            assert(enc_all(vs, bits)[e0.len() + j] == e1[j]);
        }
        assert(vs.last() == vs[vs.len() - 1]);
        lemma_decode_enc_width(b, end, q, vs.last(), bits);
        assert(init.push(vs.last()) =~= vs);
        assert(vs.len() - 1 == init.len());
    }
}

proof fn lemma_le_bytes_read_back(n: nat)
    requires
        n < 0x1_0000_0000,
    ensures
        le_u32(le_bytes(n), 0) == n,
{
    let b = le_bytes(n);
    lemma_fundamental_div_mod(n as int, 256);
    lemma_fundamental_div_mod(n as int / 256, 256);
    lemma_fundamental_div_mod(n as int / 65536, 256);
    assert(n as int / 256 / 256 == n as int / 65536);
    assert(n as int / 65536 / 256 == n as int / 16777216);
    assert(n as int / 16777216 < 256);
    assert(b[3] == n as int / 16777216);
}

/// Round trip on the wire format: a segment that the reference encoder wrote
/// decodes to the values it was written from, so that encoding the decoded
/// values again reproduces the segment byte for byte.
#[verifier::rlimit(60)]
pub proof fn lemma_segment_round_trip(vs: Seq<int>, bits: nat)
    requires
        bits == 16 || bits == 32,
        fits(vs, bits),
        enc_all(vs, bits).len() < 0x1_0000_0000,
    ensures
        decode_segment(enc_segment(vs, bits), 0, vs.len(), bits) == Ok::<
            (Seq<int>, int),
            Leb128Error,
        >((vs, enc_segment(vs, bits).len() as int)),
        enc_segment(decode_segment(enc_segment(vs, bits), 0, vs.len(), bits)->Ok_0.0, bits)
            == enc_segment(vs, bits),
{
    let data = enc_segment(vs, bits);
    let payload = enc_all(vs, bits);
    let n = payload.len();
    assert(data.subrange(0, 17) =~= leb128_magic());
    assert(le_u32(data, 17) == n) by {
        let lb = le_bytes(n);
        lemma_le_bytes_read_back(n);
        assert(data[17] == lb[0]);
        assert(data[18] == lb[1]);
        assert(data[19] == lb[2]);
        assert(data[20] == lb[3]);
    }
    assert forall|j: int| 0 <= j < n implies data[21 + j] == #[trigger] payload[j] by {}
    lemma_decode_enc_all(data, 21 + n as int, 21, vs, bits);
}

proof fn lemma_enc_all_len(vs: Seq<int>, bits: nat)
    requires
        bits == 16 || bits == 32,
    ensures
        enc_all(vs, bits).len() <= 5 * vs.len(),
        bits == 16 ==> enc_all(vs, bits).len() <= 3 * vs.len(),
    decreases vs.len(),
{
    if vs.len() > 0 {
        lemma_enc_all_len(vs.drop_last(), bits);
        let v = vs.last();
        let r1 = v / 128;
        let r2 = r1 / 128;
        let r3 = r2 / 128;
        let r4 = r3 / 128;
        assert(enc_value(r4, 0).len() == 1);
        assert(enc_value(r3, 1).len() <= 2);
        assert(enc_value(r2, 2).len() <= 3);
        assert(enc_value(r1, 3).len() <= 4);
        assert(enc_value(v, 4).len() <= 5);
        assert(enc_value(r2, 0).len() == 1);
        assert(enc_value(r1, 1).len() <= 2);
        assert(enc_value(v, 2).len() <= 3);
    }
}

/// Appends the encoding of `v`, a value of `bits` bits, to `out`.
fn write_value(v: i64, bits: usize, out: &mut Vec<u8>)
    requires
        bits == 16 || bits == 32,
        -0x8000_0000 <= v < 0x8000_0000,
    ensures
        final(out)@ == old(out)@ + enc_value(v as int, if bits == 16 { 2 } else { 4 }),
{
    let ghost target = out@ + enc_value(v as int, if bits == 16 { 2 } else { 4 });
    let mut r: i64 = v;
    let mut fuel: usize = if bits == 16 { 2 } else { 4 };
    loop
        invariant
            fuel <= 4,
            target == old(out)@ + enc_value(v as int, if bits == 16 { 2 } else { 4 }),
            -0x8000_0000 <= r < 0x8000_0000,
            target == out@ + enc_value(r as int, fuel as nat),
        decreases fuel,
    {
        let t: u64 = (r + 0x100_0000_0000) as u64;
        let byte: i64 = (t % 128) as i64;
        let rest: i64 = (t / 128) as i64 - 0x2_0000_0000;
        proof {
            lemma_fundamental_div_mod(r as int, 128);
            lemma_fundamental_div_mod_converse(
                t as int,
                128,
                (r as int) / 128 + 0x2_0000_0000,
                (r as int) % 128,
            );
        }
        if fuel == 0 || (rest == 0 && byte < 64) || (rest == -1 && byte >= 64) {
            assert(enc_value(r as int, fuel as nat) == seq![byte as u8]);
            let ghost last = out@;
            out.push(byte as u8);
            assert(out@ =~= last + seq![byte as u8]);
            return ;
        }
        let ghost before = out@;
        out.push((byte + 128) as u8);
        assert(before + enc_value(r as int, fuel as nat) =~= out@ + enc_value(
            rest as int,
            (fuel - 1) as nat,
        ));
        r = rest;
        fuel = fuel - 1;
    }
}

/// The header of a segment whose payload is `payload`, then the payload.
fn frame_segment(payload: Vec<u8>) -> (r: Vec<u8>)
    requires
        payload@.len() < 0x1_0000_0000,
    ensures
        r@ == leb128_magic() + le_bytes(payload@.len()) + payload@,
{
    let mut payload = payload;
    let n: usize = payload.len();
    let mut out: Vec<u8> = vec![67u8, 79, 77, 80, 82, 69, 83, 83, 69, 68, 95, 76, 69, 66, 49, 50, 56];
    out.push((n % 256) as u8);
    out.push(((n / 256) % 256) as u8);
    out.push(((n / 65536) % 256) as u8);
    out.push(((n / 16777216) % 256) as u8);
    assert(out@ =~= leb128_magic() + le_bytes(n as nat));
    out.append(&mut payload);
    out
}

/// The reference encoder for 16-bit values: one segment, each value in its
/// shortest form.
pub fn write_leb_128_bias_type(values: &[i16]) -> (r: Vec<u8>)
    requires
        values@.len() <= 0x5000_0000,
    ensures
        r@ == enc_segment(values@.map_values(|x: i16| x as int), 16),
{
    let ghost vs = values@.map_values(|x: i16| x as int);
    let mut payload: Vec<u8> = Vec::new();
    let mut i: usize = 0;
    while i < values.len()
        invariant
            i <= values@.len(),
            vs == values@.map_values(|x: i16| x as int),
            payload@ == enc_all(vs.subrange(0, i as int), 16),
        decreases values@.len() - i,
    {
        proof {
            assert(vs.subrange(0, i + 1).drop_last() =~= vs.subrange(0, i as int));
        }
        write_value(values[i] as i64, 16, &mut payload);
        i = i + 1;
    }
    assert(vs.subrange(0, i as int) =~= vs);
    proof {
        lemma_enc_all_len(vs, 16);
    }
    frame_segment(payload)
}

/// The reference encoder for 32-bit values: one segment, each value in its
/// shortest form.
pub fn write_leb_128_psqt_type(values: &[i32]) -> (r: Vec<u8>)
    requires
        values@.len() <= 0x3000_0000,
    ensures
        r@ == enc_segment(values@.map_values(|x: i32| x as int), 32),
{
    let ghost vs = values@.map_values(|x: i32| x as int);
    let mut payload: Vec<u8> = Vec::new();
    let mut i: usize = 0;
    while i < values.len()
        invariant
            i <= values@.len(),
            vs == values@.map_values(|x: i32| x as int),
            payload@ == enc_all(vs.subrange(0, i as int), 32),
        decreases values@.len() - i,
    {
        proof {
            assert(vs.subrange(0, i + 1).drop_last() =~= vs.subrange(0, i as int));
        }
        write_value(values[i] as i64, 32, &mut payload);
        i = i + 1;
    }
    assert(vs.subrange(0, i as int) =~= vs);
    proof {
        lemma_enc_all_len(vs, 32);
    }
    frame_segment(payload)
}

} // verus!
