//! The o5m variable-length integer encodings.
//!
//! Both encodings put seven payload bits in each byte, least-significant
//! group first; a set high bit says that more bytes follow.
//!
//! The signed encoding gives the first byte a special shape: bit 0 is the
//! sign (1 for negative), bits 1 to 6 carry the six least-significant
//! payload bits, bit 7 is the continuation flag. A negative value stores
//! `-value - 1` as its payload, so `-1` encodes as `0x01`.

use crate::osm_io::error::{Error, ErrorKind};
use vstd::prelude::*;

verus! {

/// 128 raised to `e`.
pub open spec fn pow128(e: int) -> nat
    decreases e,
{
    if e <= 0 {
        1
    } else {
        128 * pow128(e - 1)
    }
}

/// The small powers of 128 the other lemmas need, written out.
pub proof fn lemma_pow128_values()
    ensures
        pow128(1) == 128,
        pow128(8) == 0x100_0000_0000_0000,
        pow128(9) == 0x8000_0000_0000_0000,
{
    assert(pow128(0) == 1);
    assert(pow128(1) == 128);
    assert(pow128(2) == 0x4000);
    assert(pow128(3) == 0x20_0000);
    assert(pow128(4) == 0x1000_0000);
    assert(pow128(5) == 0x8_0000_0000);
    assert(pow128(6) == 0x400_0000_0000);
    assert(pow128(7) == 0x2_0000_0000_0000);
    assert(pow128(8) == 0x100_0000_0000_0000);
    assert(pow128(9) == 0x8000_0000_0000_0000);
}

/// The payload magnitude a signed value stores: `v` itself when
/// non-negative, `-v - 1` when negative.
pub open spec fn s_mag(v: int) -> nat {
    if v < 0 {
        (-v - 1) as nat
    } else {
        v as nat
    }
}

/// The canonical unsigned encoding of `n`.
pub open spec fn uvarint_enc(n: nat) -> Seq<u8>
    decreases n,
{
    if n < 128 {
        seq![n as u8]
    } else {
        seq![(128 + (n % 128)) as u8] + uvarint_enc(n / 128)
    }
}

/// The canonical signed encoding of `v`.
pub open spec fn svarint_enc(v: int) -> Seq<u8> {
    let sign: nat = if v < 0 {
        1
    } else {
        0
    };
    let m = s_mag(v);
    if m < 64 {
        seq![(2 * m + sign) as u8]
    } else {
        seq![(128 + 2 * (m % 64) + sign) as u8] + uvarint_enc(m / 64)
    }
}

/// The value an unsigned encoding carries.
pub open spec fn uvarint_dec(bs: Seq<u8>) -> nat
    decreases bs.len(),
{
    if bs.len() == 0 {
        0
    } else if bs[0] < 128 {
        bs[0] as nat
    } else {
        (bs[0] - 128) as nat + 128 * uvarint_dec(bs.skip(1))
    }
}

/// The value a signed encoding carries.
pub open spec fn svarint_dec(bs: Seq<u8>) -> int {
    let first: u8 = if bs.len() == 0 {
        0u8
    } else {
        bs[0]
    };
    let low6: nat = ((first / 2) % 64) as nat;
    let m: nat = if first >= 128 {
        (low6 + 64 * uvarint_dec(bs.skip(1))) as nat
    } else {
        low6
    };
    if first % 2 == 1 {
        -(m as int) - 1
    } else {
        m as int
    }
}

/// How many bytes a varint starting at `pos` spans: up to and including
/// the first byte without its continuation bit, within `fuel` bytes and
/// the data; `None` where no such byte lies in reach. Signed and unsigned
/// varints stop at the same byte, so one scan serves both.
pub open spec fn uvarint_scan(data: Seq<u8>, pos: int, fuel: int) -> Option<int>
    decreases fuel,
{
    if fuel <= 0 {
        None
    } else if pos < 0 || pos >= data.len() {
        None
    } else if data[pos] < 128 {
        Some(1)
    } else {
        match uvarint_scan(data, pos + 1, fuel - 1) {
            Some(k) => Some(1 + k),
            None => None,
        }
    }
}

/// Where the first terminator lies within reach, the scan finds exactly
/// it.
pub proof fn lemma_uvarint_scan_found(data: Seq<u8>, pos: int, i: int, fuel: int)
    requires
        0 <= i < fuel,
        0 <= pos,
        pos + i < data.len(),
        forall|j: int| 0 <= j < i ==> #[trigger] data[pos + j] >= 128,
        data[pos + i] < 128,
    ensures
        uvarint_scan(data, pos, fuel) == Some(i + 1),
    decreases i,
{
    if i > 0 {
        assert(data[pos + 0] >= 128);
        assert forall|j: int| 0 <= j < i - 1 implies #[trigger] data[pos + 1 + j] >= 128 by {
            assert(data[pos + (j + 1)] >= 128);
        };
        lemma_uvarint_scan_found(data, pos + 1, i - 1, fuel - 1);
    }
}

/// A well-formed unsigned encoding: one to nine bytes, every byte but the
/// last with its continuation bit set, the last with it clear. It may still
/// carry a redundant zero group at its end.
pub open spec fn wf_uvarint(bs: Seq<u8>) -> bool {
    &&& 1 <= bs.len() <= 9
    &&& (forall|i: int| 0 <= i < bs.len() - 1 ==> bs[i] >= 128)
    &&& bs[bs.len() - 1] < 128
}

/// A canonical unsigned encoding: well-formed and without a redundant zero
/// group at its end.
pub open spec fn canonical_uvarint(bs: Seq<u8>) -> bool {
    &&& wf_uvarint(bs)
    &&& (bs.len() > 1 ==> bs[bs.len() - 1] != 0)
}

/// A well-formed signed encoding: a first byte, and, when its continuation
/// bit is set, a well-formed unsigned tail.
pub open spec fn wf_svarint(bs: Seq<u8>) -> bool {
    &&& bs.len() >= 1
    &&& if bs[0] < 128 {
        bs.len() == 1
    } else {
        wf_uvarint(bs.skip(1)) && bs.len() <= 9
    }
}

/// A canonical signed encoding: well-formed, with a continuation only where
/// the tail carries a nonzero value.
pub open spec fn canonical_svarint(bs: Seq<u8>) -> bool {
    &&& wf_svarint(bs)
    &&& (bs.len() > 1 ==> canonical_uvarint(bs.skip(1)) && uvarint_dec(bs.skip(1)) >= 1)
}

/// An encoding of `k` bytes carries a value below `128^k`, whether or not
/// it is well formed.
pub proof fn lemma_uvarint_dec_upper(bs: Seq<u8>)
    ensures
        uvarint_dec(bs) < pow128(bs.len() as int),
    decreases bs.len(),
{
    lemma_pow128_pos(bs.len() as int);
    if bs.len() == 0 {
    } else if bs[0] < 128 {
        lemma_pow128_values();
        lemma_pow128_increases(1, bs.len() as int);
    } else {
        let tail = bs.skip(1);
        lemma_uvarint_dec_upper(tail);
        let d = uvarint_dec(tail);
        assert(uvarint_dec(bs) == (bs[0] - 128) + 128 * d);
        assert(128 * d <= 128 * (pow128(bs.len() - 1) - 1)) by (nonlinear_arith)
            requires
                d <= pow128(bs.len() - 1) - 1,
        ;
        assert(pow128(bs.len() as int) == 128 * pow128(bs.len() - 1));
    }
}

/// A stream-read varint is well formed as an unsigned encoding; read as a
/// signed encoding it is well formed too.
pub proof fn lemma_wf_uvarint_svarint(bs: Seq<u8>)
    requires
        wf_uvarint(bs),
    ensures
        wf_svarint(bs),
{
    if bs[0] < 128 {
        assert(bs.len() == 1) by {
            if bs.len() > 1 {
                assert(bs[0] >= 128);
            }
        };
    } else {
        let tail = bs.skip(1);
        assert(bs.len() >= 2) by {
            if bs.len() == 1 {
                assert(bs[bs.len() - 1] < 128);
            }
        };
        assert forall|i: int| 0 <= i < tail.len() - 1 implies tail[i] >= 128 by {
            assert(tail[i] == bs[i + 1]);
        };
        assert(tail[tail.len() - 1] == bs[bs.len() - 1]);
    }
}

/// A well-formed encoding whose last byte is nonzero carries at least one.
pub proof fn lemma_uvarint_dec_nonzero(bs: Seq<u8>)
    requires
        wf_uvarint(bs),
        bs[bs.len() - 1] != 0,
    ensures
        uvarint_dec(bs) >= 1,
    decreases bs.len(),
{
    if bs.len() == 1 {
    } else {
        let tail = bs.skip(1);
        lemma_uvarint_dec_nonzero(tail);
        let d = uvarint_dec(tail);
        assert(128 * d >= 128) by (nonlinear_arith)
            requires
                d >= 1,
        ;
    }
}

/// Any count below `2^63` has a canonical encoding of at most nine bytes,
/// and decoding that encoding gives the count back.
pub proof fn lemma_uvarint_round_trip(n: nat)
    requires
        n < 0x8000_0000_0000_0000,
    ensures
        canonical_uvarint(uvarint_enc(n)),
        uvarint_dec(uvarint_enc(n)) == n,
        uvarint_enc(n).len() <= 9,
        n >= 1 ==> uvarint_enc(n)[uvarint_enc(n).len() - 1] != 0,
        n < 128 ==> uvarint_enc(n).len() == 1,
    decreases n,
{
    if n < 128 {
        assert(uvarint_enc(n) == seq![n as u8]);
    } else {
        let head = (128 + (n % 128)) as u8;
        let tail = uvarint_enc(n / 128);
        assert(n / 128 < 0x1_0000_0000_0000_00) by (nonlinear_arith)
            requires
                n < 0x8000_0000_0000_0000,
        ;
        lemma_uvarint_round_trip(n / 128);
        lemma_pow128_values();
        lemma_uvarint_enc_len(n / 128, 8);
        let whole = uvarint_enc(n);
        assert(whole == seq![head] + tail);
        assert(whole.skip(1) == tail);
        assert(whole[whole.len() - 1] == tail[tail.len() - 1]);
        assert(n / 128 >= 1);
        assert(uvarint_dec(whole) == (n % 128) + 128 * (n / 128));
        assert((n % 128) + 128 * (n / 128) == n) by (nonlinear_arith);
    }
}

/// A count below `128^k` encodes in at most `k` bytes.
pub proof fn lemma_uvarint_enc_len(n: nat, k: int)
    requires
        1 <= k,
        n < pow128(k),
    ensures
        uvarint_enc(n).len() <= k,
    decreases n,
{
    if n < 128 {
    } else {
        assert(k >= 2) by {
            if k == 1 {
                lemma_pow128_values();
            }
        };
        assert(n / 128 < pow128(k - 1)) by (nonlinear_arith)
            requires
                n < pow128(k),
                pow128(k) == 128 * pow128(k - 1),
        ;
        lemma_uvarint_enc_len(n / 128, k - 1);
    }
}

/// Encoding the value a canonical encoding carries gives the same bytes
/// back: the canonical form is unique.
pub proof fn lemma_uvarint_canonical_inverse(bs: Seq<u8>)
    requires
        canonical_uvarint(bs),
    ensures
        uvarint_enc(uvarint_dec(bs)) == bs,
    decreases bs.len(),
{
    if bs.len() == 1 {
        assert(uvarint_enc(uvarint_dec(bs)) =~= bs);
    } else {
        let tail = bs.skip(1);
        assert(canonical_uvarint(tail));
        lemma_uvarint_canonical_inverse(tail);
        lemma_uvarint_dec_nonzero(tail);
        let low = (bs[0] - 128) as nat;
        let vt = uvarint_dec(tail);
        let n = uvarint_dec(bs);
        assert(n == low + 128 * vt);
        assert(n >= 128 && n % 128 == low && n / 128 == vt) by (nonlinear_arith)
            requires
                n == low + 128 * vt,
                0 <= low < 128,
                vt >= 1,
        ;
        assert(uvarint_enc(n) == seq![(128 + low) as u8] + uvarint_enc(vt));
        assert(uvarint_enc(n) =~= bs);
    }
}

/// Any value in `[-2^62, 2^62)` has a canonical signed encoding of at most
/// nine bytes, and decoding that encoding gives the value back.
pub proof fn lemma_svarint_round_trip(v: int)
    requires
        -0x4000_0000_0000_0000 <= v < 0x4000_0000_0000_0000,
    ensures
        canonical_svarint(svarint_enc(v)),
        svarint_dec(svarint_enc(v)) == v,
        svarint_enc(v).len() <= 9,
{
    let sign: nat = if v < 0 {
        1
    } else {
        0
    };
    let m = s_mag(v);
    assert(m < 0x4000_0000_0000_0000);
    if m < 64 {
        let b = (2 * m + sign) as u8;
        assert(svarint_enc(v) == seq![b]);
        assert(b < 128);
        assert((b / 2) % 64 == m && b % 2 == sign) by (nonlinear_arith)
            requires
                b == 2 * m + sign,
                0 <= m < 64,
                sign <= 1,
        ;
    } else {
        let low = m % 64;
        let b = (128 + 2 * low + sign) as u8;
        let tail = uvarint_enc(m / 64);
        assert(m / 64 < 0x8000_0000_0000_0000) by (nonlinear_arith)
            requires
                m < 0x4000_0000_0000_0000,
        ;
        assert(m / 64 >= 1);
        lemma_uvarint_round_trip(m / 64);
        lemma_pow128_values();
        assert(m / 64 < 0x100_0000_0000_0000) by (nonlinear_arith)
            requires
                m < 0x4000_0000_0000_0000,
        ;
        lemma_uvarint_enc_len(m / 64, 8);
        let whole = svarint_enc(v);
        assert(whole == seq![b] + tail);
        assert(whole.skip(1) == tail);
        assert(b >= 128 && (b / 2) % 64 == low && b % 2 == sign) by (nonlinear_arith)
            requires
                b == 128 + 2 * low + sign,
                0 <= low < 64,
                sign <= 1,
        ;
        assert(low + 64 * (m / 64) == m) by (nonlinear_arith)
            requires
                low == m % 64,
        ;
    }
}

/// Encoding the value a canonical signed encoding carries gives the same
/// bytes back, and that value lies in `[-2^62, 2^62)`.
pub proof fn lemma_svarint_canonical_inverse(bs: Seq<u8>)
    requires
        canonical_svarint(bs),
    ensures
        svarint_enc(svarint_dec(bs)) == bs,
        -0x4000_0000_0000_0000 <= svarint_dec(bs) < 0x4000_0000_0000_0000,
{
    let first = bs[0];
    let sign: nat = (first % 2) as nat;
    let low6: nat = ((first / 2) % 64) as nat;
    if first < 128 {
        assert(low6 == first / 2);
        assert(first / 2 < 64);
        let m = low6;
        let v = svarint_dec(bs);
        assert(s_mag(v) == m && (v < 0 <==> sign == 1));
        assert(2 * m + sign == first) by (nonlinear_arith)
            requires
                sign == first % 2,
                m == first / 2,
        ;
        assert(svarint_enc(v) =~= bs);
    } else {
        let tail = bs.skip(1);
        lemma_uvarint_canonical_inverse(tail);
        lemma_uvarint_dec_nonzero(tail);
        lemma_uvarint_dec_upper(tail);
        let vt = uvarint_dec(tail);
        lemma_pow128_values();
        assert(vt < pow128(8)) by {
            lemma_pow128_increases(tail.len() as int, 8);
        };
        let m = (low6 + 64 * vt) as nat;
        let v = svarint_dec(bs);
        assert(s_mag(v) == m && (v < 0 <==> sign == 1));
        assert(m >= 64 && m % 64 == low6 && m / 64 == vt && m < 0x4000_0000_0000_0000)
            by (nonlinear_arith)
            requires
                m == low6 + 64 * vt,
                0 <= low6 < 64,
                1 <= vt < 0x100_0000_0000_0000,
        ;
        assert(2 * low6 + sign < 128) by (nonlinear_arith)
            requires
                low6 == (first / 2) % 64,
                sign == first % 2,
                low6 < 64,
                sign <= 1,
        ;
        assert(128 + 2 * low6 + sign == first) by (nonlinear_arith)
            requires
                first >= 128,
                sign == first % 2,
                low6 == (first / 2) % 64,
                first < 256,
        ;
        assert(svarint_enc(v) == seq![(128 + 2 * (m % 64) + sign) as u8] + uvarint_enc(m / 64));
        assert(svarint_enc(v) =~= bs);
    }
}

/// `pow128` grows with its exponent.
pub proof fn lemma_pow128_increases(a: int, b: int)
    requires
        a <= b,
    ensures
        pow128(a) <= pow128(b),
    decreases b - a,
{
    if a < b {
        if b <= 0 {
        } else {
            lemma_pow128_increases(a, b - 1);
            lemma_pow128_pos(b - 1);
            assert(pow128(b) == 128 * pow128(b - 1));
            assert(128 * pow128(b - 1) >= pow128(b - 1)) by (nonlinear_arith)
                requires
                    pow128(b - 1) >= 1,
            ;
        }
    }
}

/// `pow128` is positive.
pub proof fn lemma_pow128_pos(e: int)
    ensures
        pow128(e) >= 1,
    decreases e,
{
    if e > 0 {
        lemma_pow128_pos(e - 1);
        assert(128 * pow128(e - 1) >= pow128(e - 1)) by (nonlinear_arith)
            requires
                pow128(e - 1) >= 1,
        ;
    }
}

/// A variable-length integer, signed or unsigned: its encoded bytes.
#[derive(Debug, Clone)]
pub struct VarInt {
    pub bytes: Vec<u8>,
}

impl View for VarInt {
    type V = Seq<u8>;

    open spec fn view(&self) -> Seq<u8> {
        self.bytes@
    }
}

impl VarInt {
    /// Wrap already-encoded bytes.
    pub fn new(bytes: Vec<u8>) -> (r: VarInt)
        ensures
            r@ == bytes@,
    {
        VarInt { bytes }
    }

    /// The canonical unsigned encoding of `value`.
    pub fn create_bytes(value: u64) -> (r: Vec<u8>)
        ensures
            r@ == uvarint_enc(value as nat),
    {
        uvarint_bytes(value)
    }

    /// The encoded bytes.
    pub fn bytes(self) -> (r: Vec<u8>)
        ensures
            r@ == self@,
    {
        self.bytes
    }

    /// The value of this encoding read as a signed varint.
    pub fn into_i64(self) -> (r: i64)
        requires
            wf_svarint(self@),
        ensures
            r as int == svarint_dec(self@),
    {
        let first = self.bytes[0];
        let low6 = ((first / 2) % 64) as u64;
        let m: u64 = if first >= 128 {
            proof {
                assert(self.bytes@.skip(1) =~= self@.skip(1));
                lemma_uvarint_dec_upper(self@.skip(1));
                lemma_pow128_increases(self@.skip(1).len() as int, 8);
                lemma_pow128_values();
            }
            let t = udec_at(&self.bytes, 1);
            low6 + 64 * t
        } else {
            low6
        };
        if first % 2 == 1 {
            -(m as i64) - 1
        } else {
            m as i64
        }
    }

    /// The value of this encoding read as an unsigned varint.
    pub fn into_u64(self) -> (r: u64)
        requires
            wf_uvarint(self@),
        ensures
            r as nat == uvarint_dec(self@),
    {
        proof {
            assert(self.bytes@.skip(0) =~= self.bytes@);
        }
        udec_at(&self.bytes, 0)
    }
}

/// The value of the unsigned encoding that starts at `i`: seven payload
/// bits per byte up to the first byte without its continuation bit, or to
/// the end of the bytes.
fn udec_at(bs: &Vec<u8>, i: usize) -> (r: u64)
    requires
        i <= bs@.len(),
        bs@.len() - i <= 9,
    ensures
        r as nat == uvarint_dec(bs@.skip(i as int)),
    decreases bs@.len() - i,
{
    let n = bs.len();
    if i == n {
        proof {
            assert(bs@.skip(i as int) =~= Seq::<u8>::empty());
        }
        return 0;
    }
    let b = bs[i];
    proof {
        assert(bs@.skip(i as int)[0] == b);
    }
    if b < 128 {
        b as u64
    } else {
        proof {
            assert(bs@.skip(i as int).skip(1) =~= bs@.skip(i + 1));
            lemma_uvarint_dec_upper(bs@.skip(i + 1));
            lemma_pow128_increases(bs@.skip(i + 1).len() as int, 8);
            lemma_pow128_values();
        }
        let t = udec_at(bs, i + 1);
        (b - 128) as u64 + 128 * t
    }
}

/// The value of an arbitrary run of bytes read as an unsigned varint, as
/// the dictionary's user records store it: an empty run is zero, and a run
/// of ten or more bytes is an overflow error.
pub fn uvarint_value_of(bs: &Vec<u8>) -> (r: Result<u64, crate::osm_io::error::Error>)
    ensures
        match r {
            Ok(v) => bs@.len() <= 9 && v as nat == uvarint_dec(bs@),
            Err(e) => {
                &&& bs@.len() > 9
                &&& e.kind is ParseError
                &&& e.message matches Some(m) && m@ == "Varint overflow, read 9 bytes."@
            },
        },
{
    if bs.len() > 9 {
        let mut msg = String::new();
        msg.append("Varint overflow, read 9 bytes.");
        proof {
            reveal_strlit("Varint overflow, read 9 bytes.");
            assert(msg@ =~= "Varint overflow, read 9 bytes."@);
        }
        return Err(crate::osm_io::error::Error::new(
            crate::osm_io::error::ErrorKind::ParseError,
            Some(msg),
        ));
    }
    proof {
        assert(bs@.skip(0) =~= bs@);
    }
    Ok(udec_at(bs, 0))
}

/// The canonical unsigned encoding of `n` as a byte vector.
pub fn uvarint_bytes(n: u64) -> (r: Vec<u8>)
    ensures
        r@ == uvarint_enc(n as nat),
    decreases n,
{
    if n < 128 {
        let mut r: Vec<u8> = Vec::new();
        r.push(n as u8);
        proof {
            assert(r@ =~= uvarint_enc(n as nat));
        }
        r
    } else {
        let mut r: Vec<u8> = Vec::new();
        r.push(128 + (n % 128) as u8);
        let mut tail = uvarint_bytes(n / 128);
        r.append(&mut tail);
        proof {
            assert(r@ =~= uvarint_enc(n as nat));
        }
        r
    }
}

/// The canonical signed encoding of `v` as a byte vector. `v` must lie in
/// `[-2^62, 2^62)`, the range nine bytes can carry.
pub fn svarint_bytes(v: i64) -> (r: Vec<u8>)
    requires
        -0x4000_0000_0000_0000 <= v < 0x4000_0000_0000_0000,
    ensures
        r@ == svarint_enc(v as int),
{
    let sign: u8 = if v < 0 {
        1
    } else {
        0
    };
    let m: u64 = if v < 0 {
        (-(v + 1)) as u64
    } else {
        v as u64
    };
    if m < 64 {
        let mut r: Vec<u8> = Vec::new();
        r.push(2 * (m as u8) + sign);
        proof {
            assert(r@ =~= svarint_enc(v as int));
        }
        r
    } else {
        let mut r: Vec<u8> = Vec::new();
        r.push(128 + 2 * ((m % 64) as u8) + sign);
        let mut tail = uvarint_bytes(m / 64);
        r.append(&mut tail);
        proof {
            assert(r@ =~= svarint_enc(v as int));
        }
        r
    }
}

} // verus!
