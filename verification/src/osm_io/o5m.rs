//! The binary o5m codec: delta compression, a bounded string reference
//! table, variable-length integers and length-prefixed framing.

use crate::osm_io::error::{Error, ErrorKind};
use crate::osm_io::numbers::{dec_digits, u64_string};
use crate::osm_io::o5m::varint::{
    lemma_uvarint_scan_found, uvarint_enc, uvarint_scan, wf_uvarint, VarInt,
};
use std::collections::VecDeque;
use vstd::prelude::*;

pub mod reader;
pub mod writer;
pub mod varint;

verus! {

/// The string reference table holds at most this many entries.
pub const MAX_STRING_TABLE_SIZE: usize = 15_000;

/// Byte strings longer than this are never admitted to the table and never
/// referenced; they travel literally.
pub const MAX_STRING_REFERENCE_LENGTH: usize = 250;

/// The dataset type codes of the o5m framing.
pub const O5M_HEADER: u8 = 0xE0;
pub const O5M_EOF: u8 = 0xFE;
pub const O5M_RESET: u8 = 0xFF;
pub const O5M_NODE: u8 = 0x10;
pub const O5M_WAY: u8 = 0x11;
pub const O5M_RELATION: u8 = 0x12;
pub const O5M_BOUNDING_BOX: u8 = 0xDB;

/// The first position in `entries` that holds exactly the bytes `x`, front
/// of the table first.
pub open spec fn table_position(entries: Seq<Seq<u8>>, x: Seq<u8>) -> Option<int>
    decreases entries.len(),
{
    if entries.len() == 0 {
        None
    } else if entries[0] == x {
        Some(0)
    } else {
        match table_position(entries.skip(1), x) {
            Some(p) => Some(p + 1),
            None => None,
        }
    }
}

/// The table contents after a byte string is admitted: pushed to the front,
/// the oldest entry evicted when the table is full. A string over the length
/// bound leaves the table unchanged.
pub open spec fn table_after_push(entries: Seq<Seq<u8>>, x: Seq<u8>) -> Seq<Seq<u8>> {
    if x.len() > MAX_STRING_REFERENCE_LENGTH {
        entries
    } else if entries.len() == MAX_STRING_TABLE_SIZE {
        seq![x] + entries.drop_last()
    } else {
        seq![x] + entries
    }
}

/// The string reference table: an insertion-ordered bounded dictionary of
/// recently seen byte strings. Encoder and decoder each own one; matching
/// push sequences give matching tables, which is what makes reference
/// tokens meaningful.
#[derive(Debug)]
pub struct StringReferenceTable {
    table: VecDeque<Vec<u8>>,
}

impl StringReferenceTable {
    /// The stored byte strings, front (most recent) first.
    pub closed spec fn view(&self) -> Seq<Seq<u8>> {
        self.table@.map_values(|v: Vec<u8>| v@)
    }

    /// The table never exceeds its capacity and no entry exceeds the length
    /// bound.
    pub open spec fn wf(&self) -> bool {
        &&& self@.len() <= MAX_STRING_TABLE_SIZE
        &&& (forall|i: int|
            0 <= i < self@.len() ==> (#[trigger] self@[i]).len() <= MAX_STRING_REFERENCE_LENGTH)
    }

    /// An empty table.
    pub fn new() -> (t: Self)
        ensures
            t.wf(),
            t@.len() == 0,
    {
        let t = StringReferenceTable { table: VecDeque::with_capacity(15000) };
        proof {
            assert(t@ =~= Seq::<Seq<u8>>::empty());
        }
        t
    }

    /// Drop every entry.
    pub fn clear(&mut self)
        ensures
            final(self).wf(),
            final(self)@.len() == 0,
    {
        self.table.clear();
        proof {
            assert(self@ =~= Seq::<Seq<u8>>::empty());
        }
    }

    /// The entry at the one-based position `idx`, most recently admitted
    /// first. A position outside the table is a parse error that names the
    /// position and the table's size.
    pub fn get(&self, idx: u64) -> (r: Result<&Vec<u8>, Error>)
        ensures
            match r {
                Ok(v) => 1 <= idx <= self@.len() && v@ == self@[idx - 1],
                Err(e) => {
                    &&& (idx < 1 || idx > self@.len())
                    &&& e.kind is ParseError
                    &&& e.message matches Some(m) && m@ == "String reference '"@ + dec_digits(
                        idx as nat,
                    ) + "' not found in table with size '"@ + dec_digits(self@.len() as nat)
                        + "'."@
                },
            },
    {
        if idx >= 1 && idx <= self.table.len() as u64 {
            let i = (idx - 1) as usize;
            let v = &self.table[i];
            proof {
                assert(self@[idx - 1] == self.table@[idx - 1]@);
            }
            Ok(v)
        } else {
            let mut msg = String::new();
            msg.append("String reference '");
            msg.append(u64_string(idx).as_str());
            msg.append("' not found in table with size '");
            msg.append(u64_string(self.table.len() as u64).as_str());
            msg.append("'.");
            Err(Error::new(ErrorKind::ParseError, Some(msg)))
        }
    }

    /// Turn a byte string into what travels on the wire: the varint token
    /// of its position when the table already holds it, else the bytes
    /// themselves, which are then admitted to the table.
    pub fn reference(&mut self, bytes: Vec<u8>) -> (r: Vec<u8>)
        requires
            old(self).wf(),
        ensures
            final(self).wf(),
            bytes@.len() > MAX_STRING_REFERENCE_LENGTH ==> {
                &&& r@ == bytes@
                &&& final(self)@ == old(self)@
            },
            bytes@.len() <= MAX_STRING_REFERENCE_LENGTH ==> match table_position(
                old(self)@,
                bytes@,
            ) {
                Some(p) => {
                    &&& r@ == uvarint_enc((p + 1) as nat)
                    &&& final(self)@ == old(self)@
                },
                None => {
                    &&& r@ == bytes@
                    &&& final(self)@ == table_after_push(old(self)@, bytes@)
                },
            },
    {
        if bytes.len() > MAX_STRING_REFERENCE_LENGTH {
            return bytes;
        }

        match self.position_of(&bytes) {
            Some(pos) => {
                proof {
                    lemma_table_position_bound(self@, bytes@);
                    varint::lemma_uvarint_round_trip((pos + 1) as nat);
                }
                VarInt::create_bytes(pos as u64 + 1)
            }
            None => {
                self.push(&bytes);
                bytes
            }
        }
    }

    /// Admit a byte string to the front of the table, evicting the oldest
    /// entry when the table is full. A string over the length bound is not
    /// admitted.
    pub fn push(&mut self, bytes: &Vec<u8>)
        requires
            old(self).wf(),
        ensures
            final(self).wf(),
            final(self)@ == table_after_push(old(self)@, bytes@),
    {
        if bytes.len() > MAX_STRING_REFERENCE_LENGTH {
            return;
        }

        if self.table.len() == MAX_STRING_TABLE_SIZE {
            self.table.pop_back();
        }

        let copy = clone_bytes(bytes);
        self.table.push_front(copy);
        proof {
            assert(final(self)@ =~= table_after_push(old(self)@, bytes@));
        }
    }

    /// The zero-based position of `bytes` in the table, front first.
    fn position_of(&self, bytes: &Vec<u8>) -> (r: Option<usize>)
        ensures
            match r {
                Some(p) => table_position(self@, bytes@) == Some(p as int),
                None => table_position(self@, bytes@) is None,
            },
    {
        let n = self.table.len();
        let mut i: usize = 0;
        proof {
            assert(self@.skip(0) =~= self@);
        }
        while i < n
            invariant
                n == self@.len(),
                i <= n,
                table_position(self@, bytes@) == match table_position(self@.skip(i as int), bytes@) {
                    Some(p) => Some(p + i),
                    None => None,
                },
            decreases n - i,
        {
            proof {
                assert(self@.skip(i as int)[0] == self@[i as int]);
                assert(self@.skip(i as int).skip(1) =~= self@.skip(i as int + 1));
            }
            if bytes_eq(&self.table[i], bytes) {
                return Some(i);
            }
            i = i + 1;
        }
        proof {
            assert(self@.skip(n as int) =~= Seq::<Seq<u8>>::empty());
        }
        None
    }
}

/// The string table's standing bounds: it never exceeds its capacity of
/// fifteen thousand entries, and no entry exceeds the length bound of two
/// hundred and fifty bytes. Every operation keeps them.
pub proof fn lemma_table_bounds(t: &StringReferenceTable)
    requires
        t.wf(),
    ensures
        t@.len() <= MAX_STRING_TABLE_SIZE,
        forall|i: int| 0 <= i < t@.len() ==> (#[trigger] t@[i]).len() <= MAX_STRING_REFERENCE_LENGTH,
{
}

/// A found table position lies inside the table.
proof fn lemma_table_position_bound(entries: Seq<Seq<u8>>, x: Seq<u8>)
    ensures
        table_position(entries, x) matches Some(p) ==> 0 <= p < entries.len(),
    decreases entries.len(),
{
    if entries.len() > 0 && entries[0] != x {
        lemma_table_position_bound(entries.skip(1), x);
    }
}

/// Byte-for-byte equality of two byte vectors.
pub(crate) fn bytes_eq(a: &Vec<u8>, b: &Vec<u8>) -> (r: bool)
    ensures
        r == (a@ == b@),
{
    if a.len() != b.len() {
        proof {
            assert(a@.len() != b@.len());
        }
        return false;
    }
    let n = a.len();
    let mut i: usize = 0;
    while i < n
        invariant
            n == a@.len() == b@.len(),
            i <= n,
            forall|j: int| 0 <= j < i ==> a@[j] == b@[j],
        decreases n - i,
    {
        if a[i] != b[i] {
            return false;
        }
        i = i + 1;
    }
    proof {
        assert(a@ =~= b@);
    }
    true
}

/// A copy of a byte vector.
pub(crate) fn clone_bytes(a: &Vec<u8>) -> (r: Vec<u8>)
    ensures
        r@ == a@,
{
    let mut r: Vec<u8> = Vec::new();
    let n = a.len();
    let mut i: usize = 0;
    while i < n
        invariant
            n == a@.len(),
            i <= n,
            r@ == a@.take(i as int),
        decreases n - i,
    {
        r.push(a[i]);
        proof {
            assert(r@ =~= a@.take(i as int + 1));
        }
        i = i + 1;
    }
    proof {
        assert(a@.take(n as int) =~= a@);
    }
    r
}

/// One delta register: a running value against which the next value is
/// expressed as a difference.
#[derive(Debug)]
pub struct DeltaValue {
    pub state: i64,
}

impl DeltaValue {
    /// A register at zero.
    pub fn new() -> (r: Self)
        ensures
            r.state == 0,
    {
        DeltaValue { state: 0 }
    }

    /// Express `value` as a difference against the register, and set the
    /// register to it.
    pub fn delta(&mut self, value: i64) -> (d: i64)
        requires
            i64::MIN <= value - old(self).state <= i64::MAX,
        ensures
            d == value - old(self).state,
            final(self).state == value,
    {
        let d = value - self.state;
        self.state = value;
        d
    }

    /// Resolve a difference against the register: the register moves by
    /// `delta` and the new value is returned.
    pub fn value(&mut self, delta: i64) -> (v: i64)
        requires
            i64::MIN <= old(self).state + delta <= i64::MAX,
        ensures
            v == old(self).state + delta,
            final(self).state == v,
    {
        self.state = self.state + delta;
        self.state
    }
}

/// Which of the nine delta registers a value runs against.
#[derive(Debug, Copy, Clone, PartialEq, Eq, Structural)]
pub enum Delta {
    Id,
    Time,
    Lat,
    Lon,
    ChangeSet,
    WayRef,
    RelNodeRef,
    RelWayRef,
    RelRelRef,
}

/// The nine delta registers of the o5m codec. The three relation-member
/// registers are disjoint: a node member's delta runs against the last node
/// member's id only, and so on.
#[derive(Debug)]
pub struct DeltaState {
    pub id: DeltaValue,
    pub time: DeltaValue,
    pub lat: DeltaValue,
    pub lon: DeltaValue,
    pub change_set: DeltaValue,
    pub way_ref: DeltaValue,
    pub rel_node_ref: DeltaValue,
    pub rel_way_ref: DeltaValue,
    pub rel_rel_ref: DeltaValue,
}

impl DeltaState {
    /// The value register `d` currently holds.
    pub open spec fn reg(&self, d: Delta) -> i64 {
        match d {
            Delta::Id => self.id.state,
            Delta::Time => self.time.state,
            Delta::Lat => self.lat.state,
            Delta::Lon => self.lon.state,
            Delta::ChangeSet => self.change_set.state,
            Delta::WayRef => self.way_ref.state,
            Delta::RelNodeRef => self.rel_node_ref.state,
            Delta::RelWayRef => self.rel_way_ref.state,
            Delta::RelRelRef => self.rel_rel_ref.state,
        }
    }

    /// Every register at zero.
    pub open spec fn all_zero(&self) -> bool {
        forall|d: Delta| #[trigger] self.reg(d) == 0
    }

    /// A fresh bank: every register at zero.
    pub fn new() -> (r: Self)
        ensures
            r.all_zero(),
    {
        DeltaState {
            id: DeltaValue::new(),
            time: DeltaValue::new(),
            lat: DeltaValue::new(),
            lon: DeltaValue::new(),
            change_set: DeltaValue::new(),
            way_ref: DeltaValue::new(),
            rel_node_ref: DeltaValue::new(),
            rel_way_ref: DeltaValue::new(),
            rel_rel_ref: DeltaValue::new(),
        }
    }

    /// Read the value register `d` currently holds.
    pub fn get_reg(&self, d: Delta) -> (r: i64)
        ensures
            r == self.reg(d),
    {
        match d {
            Delta::Id => self.id.state,
            Delta::Time => self.time.state,
            Delta::Lat => self.lat.state,
            Delta::Lon => self.lon.state,
            Delta::ChangeSet => self.change_set.state,
            Delta::WayRef => self.way_ref.state,
            Delta::RelNodeRef => self.rel_node_ref.state,
            Delta::RelWayRef => self.rel_way_ref.state,
            Delta::RelRelRef => self.rel_rel_ref.state,
        }
    }

    /// Encode `value` against register `d`: the difference goes out, the
    /// register takes `value`. Other registers are untouched.
    pub fn encode(&mut self, d: Delta, value: i64) -> (r: i64)
        requires
            i64::MIN <= value - old(self).reg(d) <= i64::MAX,
        ensures
            r == value - old(self).reg(d),
            final(self).reg(d) == value,
            forall|d2: Delta| d2 != d ==> #[trigger] final(self).reg(d2) == old(self).reg(d2),
    {
        match d {
            Delta::Id => self.id.delta(value),
            Delta::Time => self.time.delta(value),
            Delta::Lat => self.lat.delta(value),
            Delta::Lon => self.lon.delta(value),
            Delta::ChangeSet => self.change_set.delta(value),
            Delta::WayRef => self.way_ref.delta(value),
            Delta::RelNodeRef => self.rel_node_ref.delta(value),
            Delta::RelWayRef => self.rel_way_ref.delta(value),
            Delta::RelRelRef => self.rel_rel_ref.delta(value),
        }
    }

    /// Decode a difference against register `d`: the register moves by
    /// `delta` and the new value is returned. Other registers are untouched.
    pub fn decode(&mut self, d: Delta, delta: i64) -> (r: i64)
        requires
            i64::MIN <= old(self).reg(d) + delta <= i64::MAX,
        ensures
            r == old(self).reg(d) + delta,
            final(self).reg(d) == r,
            forall|d2: Delta| d2 != d ==> #[trigger] final(self).reg(d2) == old(self).reg(d2),
    {
        match d {
            Delta::Id => self.id.value(delta),
            Delta::Time => self.time.value(delta),
            Delta::Lat => self.lat.value(delta),
            Delta::Lon => self.lon.value(delta),
            Delta::ChangeSet => self.change_set.value(delta),
            Delta::WayRef => self.way_ref.value(delta),
            Delta::RelNodeRef => self.rel_node_ref.value(delta),
            Delta::RelWayRef => self.rel_way_ref.value(delta),
            Delta::RelRelRef => self.rel_rel_ref.value(delta),
        }
    }
}

/// A byte-limited view over an in-memory byte stream. Reading consumes the
/// remaining budget as well as the data; reading past either is the same
/// end-of-input error, which framed sections use as their termination
/// signal.
pub struct ByteReader {
    data: Vec<u8>,
    pos: usize,
    limit: u64,
}

impl ByteReader {
    /// The whole input.
    pub closed spec fn spec_data(&self) -> Seq<u8> {
        self.data@
    }

    /// How many bytes have been consumed.
    pub closed spec fn spec_pos(&self) -> int {
        self.pos as int
    }

    /// The remaining budget.
    pub closed spec fn spec_limit(&self) -> int {
        self.limit as int
    }

    /// The position never passes the end of the data.
    pub open spec fn wf(&self) -> bool {
        self.spec_pos() <= self.spec_data().len()
    }

    /// A reader over `data`, with its budget set to the whole input.
    pub fn new(data: Vec<u8>) -> (r: Self)
        ensures
            r.wf(),
            r.spec_data() == data@,
            r.spec_pos() == 0,
            r.spec_limit() == data@.len(),
    {
        let limit = data.len() as u64;
        ByteReader { data, pos: 0, limit }
    }

    /// The remaining budget.
    pub fn limit(&self) -> (r: u64)
        ensures
            r == self.spec_limit(),
    {
        self.limit
    }

    /// Set the remaining budget.
    pub fn set_limit(&mut self, limit: u64)
        ensures
            final(self).wf() == old(self).wf(),
            final(self).spec_data() == old(self).spec_data(),
            final(self).spec_pos() == old(self).spec_pos(),
            final(self).spec_limit() == limit,
    {
        self.limit = limit;
    }

    /// How many bytes have been consumed from the start of the input.
    pub fn position(&self) -> (r: u64)
        ensures
            r == self.spec_pos(),
    {
        self.pos as u64
    }

    /// Read one byte. The budget and the data each end the stream: an
    /// exhausted budget or input is an end-of-input error and consumes
    /// nothing.
    pub fn read_u8(&mut self) -> (r: Result<u8, Error>)
        requires
            old(self).wf(),
        ensures
            final(self).wf(),
            final(self).spec_data() == old(self).spec_data(),
            final(self).spec_limit() <= old(self).spec_limit(),
            final(self).spec_pos() >= old(self).spec_pos(),
            match r {
                Ok(b) => {
                    &&& old(self).spec_limit() >= 1
                    &&& old(self).spec_pos() < old(self).spec_data().len()
                    &&& b == old(self).spec_data()[old(self).spec_pos()]
                    &&& final(self).spec_pos() == old(self).spec_pos() + 1
                    &&& final(self).spec_limit() == old(self).spec_limit() - 1
                },
                Err(e) => {
                    &&& (old(self).spec_limit() == 0 || old(self).spec_pos() == old(self).spec_data().len())
                    &&& e.kind is UnexpectedEof
                    &&& e.message is None
                    &&& final(self).spec_pos() == old(self).spec_pos()
                    &&& final(self).spec_limit() == old(self).spec_limit()
                },
            },
    {
        if self.limit == 0 || self.pos == self.data.len() {
            return Err(Error::new(ErrorKind::UnexpectedEof, None));
        }
        let b = self.data[self.pos];
        self.pos = self.pos + 1;
        self.limit = self.limit - 1;
        Ok(b)
    }

    /// Read one variable-length integer: bytes up to and including the
    /// first one without its continuation bit. Ten continuation bytes are
    /// an overflow; a stream that ends first is an end-of-input error.
    pub fn read_varint(&mut self) -> (r: Result<VarInt, Error>)
        requires
            old(self).wf(),
        ensures
            final(self).wf(),
            final(self).spec_data() == old(self).spec_data(),
            final(self).spec_pos() >= old(self).spec_pos(),
            final(self).spec_pos() - old(self).spec_pos() == old(self).spec_limit() - final(self).spec_limit(),
            match r {
                Ok(v) => {
                    &&& wf_uvarint(v@)
                    &&& v@ == old(self).spec_data().subrange(
                        old(self).spec_pos(),
                        final(self).spec_pos(),
                    )
                    &&& final(self).spec_pos() == old(self).spec_pos() + v@.len()
                    &&& uvarint_scan(old(self).spec_data(), old(self).spec_pos(), 9) == Some(
                        final(self).spec_pos() - old(self).spec_pos(),
                    )
                },
                Err(e) => {
                    &&& (e.kind is ParseError || e.kind is UnexpectedEof)
                    &&& (e.kind is ParseError ==> {
                        &&& e.message matches Some(m) && m@ == "Varint overflow, read 9 bytes."@
                        &&& final(self).spec_pos() == old(self).spec_pos() + 9
                        &&& (forall|j: int|
                            old(self).spec_pos() <= j < old(self).spec_pos() + 9
                                ==> #[trigger] old(self).spec_data()[j] >= 128)
                    })
                    &&& (e.kind is UnexpectedEof ==> {
                        &&& e.message is None
                        &&& (final(self).spec_limit() == 0 || final(self).spec_pos() == final(self).spec_data().len())
                        &&& final(self).spec_pos() - old(self).spec_pos() < 9
                        &&& (forall|j: int|
                            old(self).spec_pos() <= j < final(self).spec_pos()
                                ==> #[trigger] old(self).spec_data()[j] >= 128)
                    })
                },
            },
    {
        let mut bytes: Vec<u8> = Vec::new();
        let mut i: usize = 0;
        loop
            invariant
                self.wf(),
                self.spec_data() == old(self).spec_data(),
                i <= 9,
                bytes@.len() == i,
                self.spec_pos() == old(self).spec_pos() + i,
                old(self).spec_limit() - self.spec_limit() == i,
                bytes@ == old(self).spec_data().subrange(old(self).spec_pos(), self.spec_pos()),
                forall|j: int| 0 <= j < i ==> bytes@[j] >= 128,
            decreases 10 - i,
        {
            if i == 9 {
                let mut msg = String::new();
                msg.append("Varint overflow, read 9 bytes.");
                proof {
                    reveal_strlit("Varint overflow, read 9 bytes.");
                    reveal_strlit("");
                    assert(msg@ =~= "Varint overflow, read 9 bytes."@);
                    assert forall|j: int|
                        old(self).spec_pos() <= j < old(self).spec_pos() + 9 implies #[trigger] old(self).spec_data()[j] >= 128 by {
                        assert(bytes@[j - old(self).spec_pos()] >= 128);
                    };
                }
                return Err(Error::new(ErrorKind::ParseError, Some(msg)));
            }

            let b = match self.read_u8() {
                Ok(b) => b,
                Err(e) => {
                    proof {
                        assert forall|j: int|
                            old(self).spec_pos() <= j < self.spec_pos() implies #[trigger] old(self).spec_data()[j] >= 128 by {
                            assert(bytes@[j - old(self).spec_pos()] >= 128);
                        };
                    }
                    return Err(e);
                },
            };
            bytes.push(b);
            i = i + 1;
            proof {
                assert(bytes@ =~= old(self).spec_data().subrange(
                    old(self).spec_pos(),
                    self.spec_pos(),
                ));
            }
            if b < 128 {
                proof {
                    assert forall|j: int| 0 <= j < i as int - 1 implies #[trigger] old(self).spec_data()[old(self).spec_pos() + j] >= 128 by {
                        assert(bytes@[j] >= 128);
                    };
                    assert(old(self).spec_data()[old(self).spec_pos() + (i as int - 1)] == b);
                    lemma_uvarint_scan_found(
                        old(self).spec_data(),
                        old(self).spec_pos(),
                        i as int - 1,
                        9,
                    );
                }
                let v = VarInt::new(bytes);
                return Ok(v);
            }
        }
    }
}

} // verus!
