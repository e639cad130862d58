//! The o5m decoder: parses framed datasets from an in-memory byte stream,
//! maintaining the string reference table and the delta registers, and
//! assembles the map.

use crate::geo::{Boundary, Coordinate};
use crate::osm_io::error::{Error, ErrorKind};
use crate::osm_io::numbers::u64_string;
use crate::osm_io::o5m::varint::{
    svarint_dec, uvarint_dec, uvarint_scan, uvarint_value_of, wf_svarint, wf_uvarint,
};
use crate::osm_io::o5m::{
    ByteReader, Delta, DeltaState, StringReferenceTable, O5M_BOUNDING_BOX, O5M_EOF, O5M_HEADER,
    O5M_NODE, O5M_RELATION, O5M_RESET, O5M_WAY,
};
use crate::{AuthorInformation, Meta, Node, Osm, Relation, RelationMember, Tag, Way};
use vstd::prelude::*;

verus! {

/// The position of the first zero byte, if any.
pub open spec fn first_zero(bs: Seq<u8>) -> Option<int>
    decreases bs.len(),
{
    if bs.len() == 0 {
        None
    } else if bs[0] == 0 {
        Some(0)
    } else {
        match first_zero(bs.skip(1)) {
            Some(p) => Some(p + 1),
            None => None,
        }
    }
}

/// A dataset code the decoder knows nothing of: not an element, a
/// bounding box, a reset, a header or the end of the file, and below the
/// skippable extension range.
pub open spec fn unknown_code(b: u8) -> bool {
    b != O5M_NODE && b != O5M_WAY && b != O5M_RELATION && b != O5M_BOUNDING_BOX && b != O5M_RESET
        && b != O5M_EOF && b != O5M_HEADER && b < 0xF0
}

/// The position right after the varint that starts at `pos`, where one
/// lies in reach.
pub open spec fn after_varint(data: Seq<u8>, pos: int) -> Option<int> {
    match uvarint_scan(data, pos, 9) {
        Some(k) => Some(pos + k),
        None => None,
    }
}

/// The stream state after an overflowing varint read: nine continuation
/// bytes stand right before the position the decoder stopped at.
pub open spec fn overflow_stop(data: Seq<u8>, pos: int) -> bool {
    pos >= 9 && forall|j: int| pos - 9 <= j < pos ==> data[j] >= 128
}

/// A decoded corner value matches the varint it came from: exactly where
/// the varint's value fits 32 bits, which every value a boundary can hold
/// does.
pub open spec fn corner_matches(field: i32, decoded: int) -> bool {
    i32::MIN <= decoded <= i32::MAX ==> field == decoded
}

/// The decoder can read nothing further: its budget or its data is
/// exhausted.
pub open spec fn exhausted(limit: int, pos: int, data: Seq<u8>) -> bool {
    limit == 0 || pos == data.len()
}

/// A reader for the o5m binary format over an in-memory byte stream.
pub struct O5mReader {
    pub decoder: O5mDecoder,
}

/// Low-level decoding from bytes to values: keeps the string reference
/// table, the delta registers and the budget-limited stream.
pub struct O5mDecoder {
    pub inner: ByteReader,
    pub string_table: StringReferenceTable,
    pub delta: DeltaState,
}

impl O5mDecoder {
    /// The decoder state is well formed: the stream position inside the
    /// data, the table within its bounds.
    pub open spec fn wf(&self) -> bool {
        &&& self.inner.wf()
        &&& self.string_table.wf()
    }

    /// The input bytes.
    pub open spec fn spec_data(&self) -> Seq<u8> {
        self.inner.spec_data()
    }

    /// Bytes consumed so far.
    pub open spec fn spec_pos(&self) -> int {
        self.inner.spec_pos()
    }

    /// The remaining budget.
    pub open spec fn spec_limit(&self) -> int {
        self.inner.spec_limit()
    }

    /// A decoder over `data` with a cleared table and zeroed registers.
    pub fn new(data: Vec<u8>) -> (r: Self)
        ensures
            r.wf(),
            r.spec_data() == data@,
            r.spec_pos() == 0,
    {
        O5mDecoder {
            inner: ByteReader::new(data),
            string_table: StringReferenceTable::new(),
            delta: DeltaState::new(),
        }
    }

    /// Clear the string reference table and zero every delta register: the
    /// decoder is back at a resynchronisation point.
    pub fn reset(&mut self)
        requires
            old(self).wf(),
        ensures
            final(self).wf(),
            final(self).string_table@.len() == 0,
            final(self).delta.all_zero(),
            final(self).spec_data() == old(self).spec_data(),
            final(self).spec_pos() == old(self).spec_pos(),
            final(self).spec_limit() == old(self).spec_limit(),
    {
        self.string_table.clear();
        self.delta = DeltaState::new();
    }

    /// Set the remaining budget.
    fn set_limit(&mut self, limit: u64)
        requires
            old(self).wf(),
        ensures
            final(self).wf(),
            final(self).spec_data() == old(self).spec_data(),
            final(self).spec_pos() == old(self).spec_pos(),
            final(self).spec_limit() == limit,
            final(self).string_table == old(self).string_table,
            final(self).delta == old(self).delta,
    {
        self.inner.set_limit(limit);
    }

    /// The remaining budget.
    fn limit(&self) -> (r: u64)
        ensures
            r == self.spec_limit(),
    {
        self.inner.limit()
    }

    /// Bytes consumed from the start of the input.
    pub fn position(&self) -> (r: u64)
        ensures
            r == self.spec_pos(),
    {
        self.inner.position()
    }

    /// Read the length prefix of a dataset and make it the budget.
    fn read_limit(&mut self) -> (r: Result<(), Error>)
        requires
            old(self).wf(),
        ensures
            final(self).wf(),
            final(self).spec_data() == old(self).spec_data(),
            final(self).spec_pos() >= old(self).spec_pos(),
            final(self).string_table == old(self).string_table,
            final(self).delta == old(self).delta,
            match r {
                Ok(_) => {
                    &&& final(self).spec_pos() > old(self).spec_pos()
                    &&& uvarint_scan(old(self).spec_data(), old(self).spec_pos(), 9) == Some(
                        final(self).spec_pos() - old(self).spec_pos(),
                    )
                    &&& wf_uvarint(
                        old(self).spec_data().subrange(
                            old(self).spec_pos(),
                            final(self).spec_pos(),
                        ),
                    )
                    &&& final(self).spec_limit() == uvarint_dec(
                        old(self).spec_data().subrange(
                            old(self).spec_pos(),
                            final(self).spec_pos(),
                        ),
                    )
                },
                Err(e) => {
                    &&& (e.kind is ParseError || e.kind is UnexpectedEof)
                    &&& (e.kind is ParseError ==> (e.message matches Some(m) && m@
                        == "Varint overflow, read 9 bytes."@) && overflow_stop(
                        final(self).spec_data(),
                        final(self).spec_pos(),
                    ))
                    &&& (e.kind is UnexpectedEof ==> (e.message is None) && exhausted(
                        final(self).spec_limit(),
                        final(self).spec_pos(),
                        final(self).spec_data(),
                    ))
                },
            },
    {
        self.set_limit(9);
        let len = match self.read_uvarint() {
            Ok(v) => v,
            Err(e) => {
                return Err(e);
            },
        };
        self.set_limit(len);
        Ok(())
    }

    /// Read one byte.
    fn read_u8(&mut self) -> (r: Result<u8, Error>)
        requires
            old(self).wf(),
        ensures
            final(self).wf(),
            final(self).spec_data() == old(self).spec_data(),
            final(self).spec_pos() >= old(self).spec_pos(),
            final(self).spec_limit() <= old(self).spec_limit(),
            final(self).string_table == old(self).string_table,
            final(self).delta == old(self).delta,
            match r {
                Ok(b) => {
                    &&& final(self).spec_pos() == old(self).spec_pos() + 1
                    &&& final(self).spec_limit() == old(self).spec_limit() - 1
                    &&& b == old(self).spec_data()[old(self).spec_pos()]
                },
                Err(e) => {
                    &&& e.kind is UnexpectedEof
                    &&& e.message is None
                    &&& final(self).spec_pos() == old(self).spec_pos()
                    &&& final(self).spec_limit() == old(self).spec_limit()
                    &&& exhausted(
                        final(self).spec_limit(),
                        final(self).spec_pos(),
                        final(self).spec_data(),
                    )
                },
            },
    {
        self.inner.read_u8()
    }

    /// Read an unsigned varint as a value.
    fn read_uvarint(&mut self) -> (r: Result<u64, Error>)
        requires
            old(self).wf(),
        ensures
            final(self).wf(),
            final(self).spec_data() == old(self).spec_data(),
            final(self).spec_pos() >= old(self).spec_pos(),
            final(self).spec_pos() - old(self).spec_pos() == old(self).spec_limit() - final(self).spec_limit(),
            final(self).string_table == old(self).string_table,
            final(self).delta == old(self).delta,
            match r {
                Ok(v) => {
                    &&& final(self).spec_pos() > old(self).spec_pos()
                    &&& uvarint_scan(old(self).spec_data(), old(self).spec_pos(), 9) == Some(
                        final(self).spec_pos() - old(self).spec_pos(),
                    )
                    &&& wf_uvarint(
                        old(self).spec_data().subrange(
                            old(self).spec_pos(),
                            final(self).spec_pos(),
                        ),
                    )
                    &&& v as nat == uvarint_dec(
                        old(self).spec_data().subrange(
                            old(self).spec_pos(),
                            final(self).spec_pos(),
                        ),
                    )
                },
                Err(e) => {
                    &&& (e.kind is ParseError || e.kind is UnexpectedEof)
                    &&& (e.kind is ParseError ==> (e.message matches Some(m) && m@
                        == "Varint overflow, read 9 bytes."@) && overflow_stop(
                        final(self).spec_data(),
                        final(self).spec_pos(),
                    ))
                    &&& (e.kind is UnexpectedEof ==> (e.message is None) && exhausted(
                        final(self).spec_limit(),
                        final(self).spec_pos(),
                        final(self).spec_data(),
                    ) && final(self).spec_pos() - old(self).spec_pos() < 9)
                },
            },
    {
        let v = match self.inner.read_varint() {
            Ok(v) => v,
            Err(e) => {
                return Err(e);
            },
        };
        Ok(v.into_u64())
    }

    /// Read a signed varint as a value.
    fn read_varint(&mut self) -> (r: Result<i64, Error>)
        requires
            old(self).wf(),
        ensures
            final(self).wf(),
            final(self).spec_data() == old(self).spec_data(),
            final(self).spec_pos() >= old(self).spec_pos(),
            final(self).spec_pos() - old(self).spec_pos() == old(self).spec_limit() - final(self).spec_limit(),
            final(self).string_table == old(self).string_table,
            final(self).delta == old(self).delta,
            match r {
                Ok(v) => {
                    &&& final(self).spec_pos() > old(self).spec_pos()
                    &&& uvarint_scan(old(self).spec_data(), old(self).spec_pos(), 9) == Some(
                        final(self).spec_pos() - old(self).spec_pos(),
                    )
                    &&& wf_svarint(
                        old(self).spec_data().subrange(
                            old(self).spec_pos(),
                            final(self).spec_pos(),
                        ),
                    )
                    &&& v as int == svarint_dec(
                        old(self).spec_data().subrange(
                            old(self).spec_pos(),
                            final(self).spec_pos(),
                        ),
                    )
                },
                Err(e) => {
                    &&& (e.kind is ParseError || e.kind is UnexpectedEof)
                    &&& (e.kind is ParseError ==> (e.message matches Some(m) && m@
                        == "Varint overflow, read 9 bytes."@) && overflow_stop(
                        final(self).spec_data(),
                        final(self).spec_pos(),
                    ))
                    &&& (e.kind is UnexpectedEof ==> (e.message is None) && exhausted(
                        final(self).spec_limit(),
                        final(self).spec_pos(),
                        final(self).spec_data(),
                    ) && final(self).spec_pos() - old(self).spec_pos() < 9)
                },
            },
    {
        let v = match self.inner.read_varint() {
            Ok(v) => v,
            Err(e) => {
                return Err(e);
            },
        };
        proof {
            crate::osm_io::o5m::varint::lemma_wf_uvarint_svarint(v@);
        }
        Ok(v.into_i64())
    }

    /// Read a signed varint and resolve it against delta register `d`. A
    /// difference that would carry the register outside the 64-bit range is
    /// a parse error.
    fn read_delta(&mut self, d: Delta) -> (r: Result<i64, Error>)
        requires
            old(self).wf(),
        ensures
            final(self).wf(),
            final(self).spec_data() == old(self).spec_data(),
            final(self).spec_pos() >= old(self).spec_pos(),
            final(self).spec_limit() <= old(self).spec_limit(),
            final(self).string_table == old(self).string_table,
            match r {
                Ok(v) => {
                    &&& final(self).spec_pos() > old(self).spec_pos()
                    &&& final(self).spec_limit() < old(self).spec_limit()
                    &&& uvarint_scan(old(self).spec_data(), old(self).spec_pos(), 9) == Some(
                        final(self).spec_pos() - old(self).spec_pos(),
                    )
                    &&& wf_svarint(
                        old(self).spec_data().subrange(
                            old(self).spec_pos(),
                            final(self).spec_pos(),
                        ),
                    )
                    &&& v == old(self).delta.reg(d) + svarint_dec(
                        old(self).spec_data().subrange(
                            old(self).spec_pos(),
                            final(self).spec_pos(),
                        ),
                    )
                    &&& final(self).delta.reg(d) == v
                    &&& (forall|d2: Delta|
                        d2 != d ==> #[trigger] final(self).delta.reg(d2) == old(self).delta.reg(
                            d2,
                        ))
                },
                Err(e) => {
                    &&& (e.kind is ParseError || e.kind is UnexpectedEof)
                    &&& (e.kind is ParseError ==> (e.message matches Some(m) && (m@
                        == "Varint overflow, read 9 bytes."@ || m@
                        == "Delta value out of range."@)))
                    &&& (e.kind is UnexpectedEof ==> (e.message is None) && exhausted(
                        final(self).spec_limit(),
                        final(self).spec_pos(),
                        final(self).spec_data(),
                    ))
                    &&& final(self).delta == old(self).delta
                },
            },
    {
        let v = match self.read_varint() {
            Ok(v) => v,
            Err(e) => {
                return Err(e);
            },
        };
        let reg = self.delta.get_reg(d);
        if (v > 0 && reg > i64::MAX - v) || (v < 0 && reg < i64::MIN - v) {
            return Err(Error::new(ErrorKind::ParseError, Some(delta_overflow_text())));
        }
        Ok(self.delta.decode(d, v))
    }

    /// Read a delta-encoded coordinate: longitude first, then latitude,
    /// each truncated to 32 bits as the fixed-point form stores them.
    fn read_delta_coordinate(&mut self) -> (r: Result<Coordinate, Error>)
        requires
            old(self).wf(),
        ensures
            final(self).wf(),
            final(self).spec_data() == old(self).spec_data(),
            final(self).spec_pos() >= old(self).spec_pos(),
            final(self).spec_limit() <= old(self).spec_limit(),
            final(self).string_table == old(self).string_table,
            (forall|d2: Delta|
                d2 != Delta::Lat && d2 != Delta::Lon ==> #[trigger] final(self).delta.reg(d2)
                    == old(self).delta.reg(d2)),
            match r {
                Ok(c) => {
                    &&& final(self).spec_pos() > old(self).spec_pos()
                    &&& (i32::MIN <= final(self).delta.reg(Delta::Lat) <= i32::MAX ==> c.lat
                        == final(self).delta.reg(Delta::Lat))
                    &&& (i32::MIN <= final(self).delta.reg(Delta::Lon) <= i32::MAX ==> c.lon
                        == final(self).delta.reg(Delta::Lon))
                },
                Err(e) => (e.kind is ParseError || e.kind is UnexpectedEof) && (e.kind
                    is ParseError ==> e.message is Some) && (e.kind is UnexpectedEof
                    ==> e.message is None),
            },
    {
        let lon = match self.read_delta(Delta::Lon) {
            Ok(v) => v,
            Err(e) => {
                return Err(e);
            },
        };
        let lat = match self.read_delta(Delta::Lat) {
            Ok(v) => v,
            Err(e) => {
                return Err(e);
            },
        };
        Ok(Coordinate { lat: to_i32_trunc(lat), lon: to_i32_trunc(lon) })
    }

    /// Read the raw bytes of a dictionary string: bytes up to the
    /// `parts`-th NUL, which is consumed but not kept; earlier NULs are
    /// kept as separators. The bytes are admitted to the table.
    fn read_string_bytes(&mut self, parts: u8) -> (r: Result<Vec<u8>, Error>)
        requires
            old(self).wf(),
            parts >= 1,
        ensures
            final(self).wf(),
            final(self).spec_data() == old(self).spec_data(),
            final(self).spec_pos() >= old(self).spec_pos(),
            final(self).spec_limit() <= old(self).spec_limit(),
            final(self).delta == old(self).delta,
            match r {
                Ok(data) => {
                    &&& final(self).spec_pos() > old(self).spec_pos()
                    &&& final(self).spec_limit() < old(self).spec_limit()
                    &&& final(self).string_table@ == crate::osm_io::o5m::table_after_push(
                        old(self).string_table@,
                        data@,
                    )
                },
                Err(e) => (e.kind is ParseError || e.kind is UnexpectedEof) && (e.kind
                    is ParseError ==> e.message is Some) && (e.kind is UnexpectedEof
                    ==> e.message is None),
            },
    {
        let mut data: Vec<u8> = Vec::new();
        let mut count: u8 = 0;
        loop
            invariant_except_break
                count < parts,
            invariant
                self.wf(),
                self.spec_data() == old(self).spec_data(),
                self.spec_pos() >= old(self).spec_pos(),
                count <= parts,
                self.string_table == old(self).string_table,
                self.delta == old(self).delta,
                old(self).spec_limit() - self.spec_limit() == self.spec_pos() - old(self).spec_pos(),
            ensures
                self.wf(),
                self.spec_data() == old(self).spec_data(),
                self.string_table == old(self).string_table,
                self.delta == old(self).delta,
                old(self).spec_limit() - self.spec_limit() == self.spec_pos() - old(self).spec_pos(),
                self.spec_pos() > old(self).spec_pos(),
            decreases self.spec_limit(),
        {
            let b = match self.read_u8() {
                Ok(b) => b,
                Err(e) => {
                    return Err(e);
                },
            };
            if b == 0 {
                count = count + 1;
                if count == parts {
                    break;
                }
            }
            data.push(b);
        }

        self.string_table.push(&data);
        Ok(data)
    }

    /// Read a tag: a string pair through the reference machinery.
    fn read_string_pair(&mut self) -> (r: Result<(String, String), Error>)
        requires
            old(self).wf(),
        ensures
            final(self).wf(),
            final(self).spec_data() == old(self).spec_data(),
            final(self).spec_pos() >= old(self).spec_pos(),
            final(self).spec_limit() <= old(self).spec_limit(),
            final(self).delta == old(self).delta,
            match r {
                Ok(_) => final(self).spec_pos() > old(self).spec_pos() && final(self).spec_limit()
                    < old(self).spec_limit(),
                Err(e) => (e.kind is ParseError || e.kind is UnexpectedEof) && (e.kind
                    is ParseError ==> e.message is Some) && (e.kind is UnexpectedEof
                    ==> e.message is None),
            },
    {
        let reference = match self.read_uvarint() {
            Ok(v) => v,
            Err(e) => {
                return Err(e);
            },
        };
        if reference != 0 {
            let bytes = match self.string_table.get(reference) {
                Ok(b) => b,
                Err(e) => {
                    return Err(e);
                },
            };
            bytes_to_string_pair(bytes)
        } else {
            let bytes = match self.read_string_bytes(2) {
                Ok(b) => b,
                Err(e) => {
                    return Err(e);
                },
            };
            bytes_to_string_pair(&bytes)
        }
    }

    /// Read a single string (a relation member's type and role) through the
    /// reference machinery.
    fn read_string(&mut self) -> (r: Result<String, Error>)
        requires
            old(self).wf(),
        ensures
            final(self).wf(),
            final(self).spec_data() == old(self).spec_data(),
            final(self).spec_pos() >= old(self).spec_pos(),
            final(self).spec_limit() <= old(self).spec_limit(),
            final(self).delta == old(self).delta,
            match r {
                Ok(_) => final(self).spec_pos() > old(self).spec_pos() && final(self).spec_limit()
                    < old(self).spec_limit(),
                Err(e) => (e.kind is ParseError || e.kind is UnexpectedEof) && (e.kind
                    is ParseError ==> e.message is Some) && (e.kind is UnexpectedEof
                    ==> e.message is None),
            },
    {
        let reference = match self.read_uvarint() {
            Ok(v) => v,
            Err(e) => {
                return Err(e);
            },
        };
        if reference != 0 {
            let bytes = match self.string_table.get(reference) {
                Ok(b) => b,
                Err(e) => {
                    return Err(e);
                },
            };
            Ok(lossy_string(bytes))
        } else {
            let bytes = match self.read_string_bytes(1) {
                Ok(b) => b,
                Err(e) => {
                    return Err(e);
                },
            };
            Ok(lossy_string(&bytes))
        }
    }

    /// Read the author information of an element: the timestamp delta and,
    /// unless the resolved time is zero, the change-set delta and the user
    /// record. A resolved time of zero means the element has no author.
    fn read_author_info(&mut self) -> (r: Result<Option<AuthorInformation>, Error>)
        requires
            old(self).wf(),
        ensures
            final(self).wf(),
            final(self).spec_data() == old(self).spec_data(),
            final(self).spec_pos() >= old(self).spec_pos(),
            final(self).spec_limit() <= old(self).spec_limit(),
            (forall|d2: Delta|
                d2 != Delta::Time && d2 != Delta::ChangeSet ==> #[trigger] final(self).delta.reg(
                    d2,
                ) == old(self).delta.reg(d2)),
            match r {
                Ok(a) => {
                    &&& final(self).spec_pos() > old(self).spec_pos()
                    &&& (a matches Some(author) ==> author.created == final(self).delta.reg(
                        Delta::Time,
                    ) && author.created != 0)
                    &&& (a is None ==> final(self).delta.reg(Delta::Time) == 0)
                },
                Err(e) => (e.kind is ParseError || e.kind is UnexpectedEof) && (e.kind
                    is ParseError ==> e.message is Some) && (e.kind is UnexpectedEof
                    ==> e.message is None),
            },
    {
        let created = match self.read_delta(Delta::Time) {
            Ok(v) => v,
            Err(e) => {
                return Err(e);
            },
        };

        if created == 0 {
            return Ok(None);
        }

        let change_set_signed = match self.read_delta(Delta::ChangeSet) {
            Ok(v) => v,
            Err(e) => {
                return Err(e);
            },
        };
        let change_set = to_u64_trunc(change_set_signed);
        let (uid, user) = match self.read_user() {
            Ok(v) => v,
            Err(e) => {
                return Err(e);
            },
        };
        Ok(Some(AuthorInformation { created, change_set, uid, user }))
    }

    /// Read a user record: a reference or a literal whose bytes split at
    /// the first NUL into the uid's varint and the username.
    fn read_user(&mut self) -> (r: Result<(u64, String), Error>)
        requires
            old(self).wf(),
        ensures
            final(self).wf(),
            final(self).spec_data() == old(self).spec_data(),
            final(self).spec_pos() >= old(self).spec_pos(),
            final(self).spec_limit() <= old(self).spec_limit(),
            final(self).delta == old(self).delta,
            match r {
                Ok(_) => final(self).spec_pos() > old(self).spec_pos() && final(self).spec_limit()
                    < old(self).spec_limit(),
                Err(e) => (e.kind is ParseError || e.kind is UnexpectedEof) && (e.kind
                    is ParseError ==> e.message is Some) && (e.kind is UnexpectedEof
                    ==> e.message is None),
            },
    {
        let reference = match self.read_uvarint() {
            Ok(v) => v,
            Err(e) => {
                return Err(e);
            },
        };
        if reference != 0 {
            let bytes = match self.string_table.get(reference) {
                Ok(b) => b,
                Err(e) => {
                    return Err(e);
                },
            };
            bytes_to_user(bytes)
        } else {
            let bytes = match self.read_string_bytes(2) {
                Ok(b) => b,
                Err(e) => {
                    return Err(e);
                },
            };
            bytes_to_user(&bytes)
        }
    }

    /// Read tags until the budget of the current dataset is exhausted.
    fn read_tags(&mut self) -> (r: Result<Vec<Tag>, Error>)
        requires
            old(self).wf(),
        ensures
            final(self).wf(),
            final(self).spec_data() == old(self).spec_data(),
            final(self).spec_pos() >= old(self).spec_pos(),
            final(self).delta == old(self).delta,
            r matches Err(e) ==> e.kind is ParseError && e.message is Some,
    {
        let mut tags: Vec<Tag> = Vec::new();
        loop
            invariant
                self.wf(),
                self.spec_data() == old(self).spec_data(),
                self.spec_pos() >= old(self).spec_pos(),
                self.delta == old(self).delta,
            decreases self.spec_limit(),
        {
            match self.read_string_pair() {
                Ok((key, value)) => {
                    tags.push(Tag { key, value });
                }
                Err(e) => {
                    if matches!(e.kind, ErrorKind::UnexpectedEof) {
                        break;
                    }
                    return Err(e);
                }
            }
        }
        Ok(tags)
    }

    /// Read way references inside their own sub-budget of `size` bytes,
    /// then restore the remainder of the outer budget.
    fn read_way_references(&mut self, size: u64) -> (r: Result<Vec<i64>, Error>)
        requires
            old(self).wf(),
            size <= old(self).spec_limit(),
        ensures
            final(self).wf(),
            final(self).spec_data() == old(self).spec_data(),
            final(self).spec_pos() >= old(self).spec_pos(),
            (forall|d2: Delta|
                d2 != Delta::WayRef ==> #[trigger] final(self).delta.reg(d2) == old(self).delta.reg(d2)),
            r matches Ok(refs) ==> (refs@.len() == 0 ==> final(self).delta.reg(Delta::WayRef)
                == old(self).delta.reg(Delta::WayRef)) && (refs@.len() > 0 ==> final(self).delta.reg(Delta::WayRef) == refs@.last()),
            r matches Err(e) ==> e.kind is ParseError && e.message is Some,
    {
        let outer = self.limit();
        self.set_limit(size);
        let mut refs: Vec<i64> = Vec::new();
        loop
            invariant
                self.wf(),
                self.spec_data() == old(self).spec_data(),
                self.spec_pos() >= old(self).spec_pos(),
                refs@.len() == 0 ==> self.delta.reg(Delta::WayRef) == old(self).delta.reg(
                    Delta::WayRef,
                ),
                refs@.len() > 0 ==> self.delta.reg(Delta::WayRef) == refs@.last(),
                forall|d2: Delta|
                    d2 != Delta::WayRef ==> #[trigger] self.delta.reg(d2) == old(self).delta.reg(
                        d2,
                    ),
            decreases self.spec_limit(),
        {
            match self.read_delta(Delta::WayRef) {
                Ok(v) => {
                    refs.push(v);
                }
                Err(e) => {
                    if matches!(e.kind, ErrorKind::UnexpectedEof) {
                        break;
                    }
                    return Err(e);
                }
            }
        }
        self.set_limit(outer - size);
        Ok(refs)
    }

    /// Read relation members inside their own sub-budget of `size` bytes,
    /// then restore the remainder of the outer budget.
    fn read_relation_members(&mut self, size: u64) -> (r: Result<Vec<RelationMember>, Error>)
        requires
            old(self).wf(),
            size <= old(self).spec_limit(),
        ensures
            final(self).wf(),
            final(self).spec_data() == old(self).spec_data(),
            final(self).spec_pos() >= old(self).spec_pos(),
            (forall|d2: Delta|
                d2 != Delta::RelNodeRef && d2 != Delta::RelWayRef && d2 != Delta::RelRelRef
                    ==> #[trigger] final(self).delta.reg(d2) == old(self).delta.reg(d2)),
            r matches Err(e) ==> e.kind is ParseError && e.message is Some,
    {
        let outer = self.limit();
        self.set_limit(size);
        let mut members: Vec<RelationMember> = Vec::new();
        loop
            invariant
                self.wf(),
                self.spec_data() == old(self).spec_data(),
                self.spec_pos() >= old(self).spec_pos(),
                forall|d2: Delta|
                    d2 != Delta::RelNodeRef && d2 != Delta::RelWayRef && d2 != Delta::RelRelRef
                        ==> #[trigger] self.delta.reg(d2) == old(self).delta.reg(d2),
            decreases self.spec_limit(),
        {
            match self.read_relation_member() {
                Ok(m) => {
                    members.push(m);
                }
                Err(e) => {
                    if matches!(e.kind, ErrorKind::UnexpectedEof) {
                        break;
                    }
                    return Err(e);
                }
            }
        }
        self.set_limit(outer - size);
        Ok(members)
    }

    /// Read a single relation member: its id delta and its single string,
    /// whose first byte picks the member kind (`'0'` a node, `'1'` a way,
    /// `'2'` a relation) and its register, and whose remainder is the role.
    /// A string shorter than two bytes, one whose second byte is not on a
    /// character boundary, or an unknown kind byte is a parse error.
    fn read_relation_member(&mut self) -> (r: Result<RelationMember, Error>)
        requires
            old(self).wf(),
        ensures
            final(self).wf(),
            final(self).spec_data() == old(self).spec_data(),
            final(self).spec_pos() >= old(self).spec_pos(),
            final(self).spec_limit() <= old(self).spec_limit(),
            (forall|d2: Delta|
                d2 != Delta::RelNodeRef && d2 != Delta::RelWayRef && d2 != Delta::RelRelRef
                    ==> #[trigger] final(self).delta.reg(d2) == old(self).delta.reg(d2)),
            match r {
                Ok(m) => {
                    &&& final(self).spec_pos() > old(self).spec_pos()
                    &&& final(self).spec_limit() < old(self).spec_limit()
                    &&& (m matches RelationMember::Node(id, _) ==> id == final(self).delta.reg(
                        Delta::RelNodeRef,
                    ))
                    &&& (m matches RelationMember::Way(id, _) ==> id == final(self).delta.reg(
                        Delta::RelWayRef,
                    ))
                    &&& (m matches RelationMember::Relation(id, _) ==> id == final(self).delta.reg(Delta::RelRelRef))
                },
                Err(e) => (e.kind is ParseError || e.kind is UnexpectedEof) && (e.kind
                    is ParseError ==> e.message is Some) && (e.kind is UnexpectedEof
                    ==> e.message is None),
            },
    {
        let id = match self.read_varint() {
            Ok(v) => v,
            Err(e) => {
                return Err(e);
            },
        };
        let s = match self.read_string() {
            Ok(s) => s,
            Err(e) => {
                return Err(e);
            },
        };

        if !s.as_str().is_char_boundary(1) || s.as_str().unicode_len() < 2 {
            let mut msg = String::new();
            msg.append("Corrupt relation member reference data.");
            return Err(Error::new(ErrorKind::ParseError, Some(msg)));
        }

        let (mem_type, mem_role) = s.as_str().split_at(1);
        let type_byte = mem_type.as_bytes()[0];
        let role = mem_role.to_owned();

        if type_byte == 48 {
            let rid = match self.resolve_member_delta(Delta::RelNodeRef, id) {
                Ok(v) => v,
                Err(e) => {
                    return Err(e);
                },
            };
            Ok(RelationMember::Node(rid, role))
        } else if type_byte == 49 {
            let rid = match self.resolve_member_delta(Delta::RelWayRef, id) {
                Ok(v) => v,
                Err(e) => {
                    return Err(e);
                },
            };
            Ok(RelationMember::Way(rid, role))
        } else if type_byte == 50 {
            let rid = match self.resolve_member_delta(Delta::RelRelRef, id) {
                Ok(v) => v,
                Err(e) => {
                    return Err(e);
                },
            };
            Ok(RelationMember::Relation(rid, role))
        } else {
            let mut msg = String::new();
            msg.append("Invalid relation member type '");
            msg.append(mem_type);
            msg.append("'.");
            Err(Error::new(ErrorKind::ParseError, Some(msg)))
        }
    }

    /// Resolve a member id delta against its register, guarding the 64-bit
    /// range.
    fn resolve_member_delta(&mut self, d: Delta, id: i64) -> (r: Result<i64, Error>)
        requires
            old(self).wf(),
        ensures
            final(self).wf(),
            final(self).spec_data() == old(self).spec_data(),
            final(self).spec_pos() == old(self).spec_pos(),
            final(self).spec_limit() == old(self).spec_limit(),
            final(self).string_table == old(self).string_table,
            match r {
                Ok(v) => {
                    &&& final(self).delta.reg(d) == v
                    &&& (forall|d2: Delta|
                        d2 != d ==> #[trigger] final(self).delta.reg(d2) == old(self).delta.reg(
                            d2,
                        ))
                },
                Err(e) => e.kind is ParseError && e.message is Some && final(self).delta == old(
                    self,
                ).delta,
            },
    {
        let reg = self.delta.get_reg(d);
        if (id > 0 && reg > i64::MAX - id) || (id < 0 && reg < i64::MIN - id) {
            return Err(Error::new(ErrorKind::ParseError, Some(delta_overflow_text())));
        }
        Ok(self.delta.decode(d, id))
    }
}

impl O5mReader {
    /// A reader over the bytes of an o5m stream.
    pub fn new(data: Vec<u8>) -> (r: Self)
        ensures
            r.wf(),
            r.decoder.spec_data() == data@,
            r.decoder.spec_pos() == 0,
    {
        O5mReader { decoder: O5mDecoder::new(data) }
    }

    /// The reader's state is well formed.
    pub open spec fn wf(&self) -> bool {
        self.decoder.wf()
    }

    /// Bytes consumed from the start of the input.
    pub fn position(&self) -> u64 {
        self.decoder.position()
    }

    /// Read the whole stream into a map. On any failure the error's
    /// message, when it has one, is prefixed with the byte position the
    /// decoder ended at.
    pub fn read(&mut self) -> (r: Result<Osm, Error>)
        requires
            old(self).wf(),
        ensures
            final(self).wf(),
            final(self).decoder.spec_data() == old(self).decoder.spec_data(),
            r matches Ok(osm) ==> {
                &&& osm.wf()
                &&& final(self).decoder.spec_pos() >= 1
                &&& final(self).decoder.spec_data()[final(self).decoder.spec_pos() - 1]
                    == O5M_EOF
            },
            r matches Err(e) ==> {
                &&& (e.kind is ParseError || e.kind is UnexpectedEof)
                &&& (e.kind is ParseError ==> e.message is Some)
                &&& (e.kind is UnexpectedEof ==> e.message is None)
                &&& (e.message matches Some(mm) ==> {
                    let prefix = "Ending at byte "@ + crate::osm_io::numbers::dec_digits(
                        final(self).decoder.spec_pos() as nat,
                    ) + ": "@;
                    mm@.len() >= prefix.len() && mm@.subrange(0, prefix.len() as int) == prefix
                })
            },
            old(self).decoder.spec_pos() < old(self).decoder.spec_data().len() && unknown_code(
                old(self).decoder.spec_data()[old(self).decoder.spec_pos()],
            ) ==> (match r {
                Err(e) => e.kind is ParseError && (e.message matches Some(m) && m@
                    == "Ending at byte "@ + crate::osm_io::numbers::dec_digits(
                    (old(self).decoder.spec_pos() + 1) as nat,
                ) + ": "@ + "Unknown data set type '"@ + crate::osm_io::numbers::dec_digits(
                    old(self).decoder.spec_data()[old(self).decoder.spec_pos()] as nat,
                ) + "'."@),
                Ok(_) => false,
            }),
            old(self).decoder.spec_pos() < old(self).decoder.spec_data().len() && old(
                self,
            ).decoder.spec_data()[old(self).decoder.spec_pos()] == O5M_EOF ==> (match r {
                Ok(osm) => osm.nodes@.len() == 0 && osm.ways@.len() == 0 && osm.relations@.len()
                    == 0,
                Err(_) => false,
            }),
    {
        let mut osm = Osm::default();

        loop
            invariant_except_break
                old(self).decoder.spec_pos() < old(self).decoder.spec_data().len()
                    && unknown_code(
                    old(self).decoder.spec_data()[old(self).decoder.spec_pos()],
                ) ==> self.decoder.spec_pos() == old(self).decoder.spec_pos(),
                old(self).decoder.spec_pos() < old(self).decoder.spec_data().len() && old(
                    self,
                ).decoder.spec_data()[old(self).decoder.spec_pos()] == O5M_EOF
                    ==> self.decoder.spec_pos() == old(self).decoder.spec_pos()
                    && osm.nodes@.len() == 0 && osm.ways@.len() == 0 && osm.relations@.len()
                    == 0,
            invariant
                self.wf(),
                osm.wf(),
                self.decoder.spec_data() == old(self).decoder.spec_data(),
                self.decoder.spec_pos() >= old(self).decoder.spec_pos(),
            ensures
                self.wf(),
                osm.wf(),
                self.decoder.spec_pos() >= 1,
                self.decoder.spec_data() == old(self).decoder.spec_data(),
                self.decoder.spec_data()[self.decoder.spec_pos() - 1] == O5M_EOF,
                !(old(self).decoder.spec_pos() < old(self).decoder.spec_data().len()
                    && unknown_code(
                    old(self).decoder.spec_data()[old(self).decoder.spec_pos()],
                )),
                old(self).decoder.spec_pos() < old(self).decoder.spec_data().len() && old(
                    self,
                ).decoder.spec_data()[old(self).decoder.spec_pos()] == O5M_EOF
                    ==> osm.nodes@.len() == 0 && osm.ways@.len() == 0 && osm.relations@.len()
                    == 0,
            decreases self.decoder.spec_data().len() - self.decoder.spec_pos(),
        {
            let ghost pos_before = self.decoder.spec_pos();
            match self.parse_next(&mut osm) {
                Ok(true) => {
                    proof {
                        assert(self.decoder.spec_pos() > pos_before);
                    }
                }
                Ok(false) => {
                    break;
                }
                Err(mut error) => {
                    if error.message().is_some() {
                        let mut message = String::new();
                        message.append("Ending at byte ");
                        message.append(u64_string(self.decoder.position()).as_str());
                        message.append(": ");
                        let ghost prior: Seq<char> = match &error.message {
                            Some(m) => m@,
                            None => Seq::empty(),
                        };
                        match error.message() {
                            Some(m) => {
                                message.append(m.as_str());
                            }
                            None => {}
                        }
                        error.set_message(message);
                        proof {
                            let prefix = "Ending at byte "@
                                + crate::osm_io::numbers::dec_digits(
                                self.decoder.spec_pos() as nat,
                            ) + ": "@;
                            assert(error.message matches Some(mm) && mm@ =~= prefix + prior);
                            assert(error.message matches Some(mm) && mm@.subrange(
                                0,
                                prefix.len() as int,
                            ) =~= prefix);
                            let p0 = old(self).decoder.spec_pos();
                            if p0 < old(self).decoder.spec_data().len() && unknown_code(
                                old(self).decoder.spec_data()[p0],
                            ) {
                                assert(pos_before == p0);
                                assert(self.decoder.spec_pos() == p0 + 1);
                                assert(prior == "Unknown data set type '"@
                                    + crate::osm_io::numbers::dec_digits(
                                    old(self).decoder.spec_data()[p0] as nat,
                                ) + "'."@);
                                assert(error.message matches Some(mm) && mm@
                                    =~= "Ending at byte "@ + crate::osm_io::numbers::dec_digits(
                                    (p0 + 1) as nat,
                                ) + ": "@ + "Unknown data set type '"@
                                    + crate::osm_io::numbers::dec_digits(
                                    old(self).decoder.spec_data()[p0] as nat,
                                ) + "'."@);
                            }
                        }
                    }
                    return Err(error);
                }
            }
        }

        Ok(osm)
    }

    /// Parse the next dataset into the map. `Ok(false)` means the stream
    /// ended with its end-of-file code.
    fn parse_next(&mut self, osm: &mut Osm) -> (r: Result<bool, Error>)
        requires
            old(self).wf(),
            old(osm).wf(),
        ensures
            final(self).wf(),
            final(osm).wf(),
            final(self).decoder.spec_data() == old(self).decoder.spec_data(),
            final(self).decoder.spec_pos() >= old(self).decoder.spec_pos(),
            final(self).decoder.spec_pos() <= final(self).decoder.spec_data().len(),
            r == Ok::<bool, Error>(true) ==> final(self).decoder.spec_pos() > old(self).decoder.spec_pos(),
            r == Ok::<bool, Error>(false) ==> final(self).decoder.spec_pos() >= 1 && final(self).decoder.spec_data()[final(self).decoder.spec_pos() - 1] == O5M_EOF,
            r matches Err(e) ==> (e.kind is ParseError || e.kind is UnexpectedEof) && (e.kind
                is ParseError ==> e.message is Some) && (e.kind is UnexpectedEof ==> e.message
                is None),
            ({
                let data = old(self).decoder.spec_data();
                let p = old(self).decoder.spec_pos();
                &&& (p < data.len() && data[p] == O5M_NODE && r is Ok ==> r == Ok::<bool, Error>(
                    true,
                ) && final(osm).nodes@.len() == old(osm).nodes@.len() + 1 && final(osm).ways@
                    == old(osm).ways@ && final(osm).relations@ == old(osm).relations@)
                &&& (p < data.len() && data[p] == O5M_WAY && r is Ok ==> r == Ok::<bool, Error>(
                    true,
                ) && final(osm).ways@.len() == old(osm).ways@.len() + 1 && final(osm).nodes@
                    == old(osm).nodes@ && final(osm).relations@ == old(osm).relations@ && final(osm).boundary == old(osm).boundary)
                &&& (p < data.len() && data[p] == O5M_RELATION && r is Ok ==> r == Ok::<
                    bool,
                    Error,
                >(true) && final(osm).relations@.len() == old(osm).relations@.len() + 1 && final(osm).nodes@ == old(osm).nodes@ && final(osm).ways@ == old(osm).ways@ && final(osm).boundary == old(osm).boundary)
                &&& (p < data.len() && data[p] == O5M_BOUNDING_BOX && r is Ok ==> r == Ok::<
                    bool,
                    Error,
                >(true) && (final(osm).boundary matches Some(b) && b.freeze) && final(osm).nodes@
                    == old(osm).nodes@ && final(osm).ways@ == old(osm).ways@ && final(osm).relations@ == old(osm).relations@)
                &&& (p < data.len() && data[p] == O5M_RESET && r is Ok ==> r == Ok::<bool, Error>(
                    true,
                ) && *final(osm) == *old(osm) && final(self).decoder.string_table@.len() == 0
                    && final(self).decoder.delta.all_zero())
                &&& (p < data.len() && data[p] == O5M_EOF ==> r == Ok::<bool, Error>(false)
                    && *final(osm) == *old(osm))
                &&& (p < data.len() && unknown_code(data[p]) ==> (
                (r matches Err(e) && e.kind is ParseError) && final(self).decoder.spec_pos()
                    == old(self).decoder.spec_pos() + 1 && (match r {
                    Err(e2) => e2.message matches Some(m) && m@ == "Unknown data set type '"@
                        + crate::osm_io::numbers::dec_digits(data[p] as nat) + "'."@,
                    Ok(_) => false,
                })))
            }),
    {
        let set_type = match self.read_set_type() {
            Ok(t) => t,
            Err(e) => {
                return Err(e);
            },
        };
        if set_type == O5M_NODE {
            let node = match self.read_node() {
                Ok(n) => n,
                Err(e) => {
                    return Err(e);
                },
            };
            osm.add_node(node);
        } else if set_type == O5M_WAY {
            let way = match self.read_way() {
                Ok(w) => w,
                Err(e) => {
                    return Err(e);
                },
            };
            osm.add_way(way);
        } else if set_type == O5M_RELATION {
            let relation = match self.read_relation() {
                Ok(rel) => rel,
                Err(e) => {
                    return Err(e);
                },
            };
            osm.add_relation(relation);
        } else if set_type == O5M_BOUNDING_BOX {
            let boundary = match self.read_boundary() {
                Ok(b) => b,
                Err(e) => {
                    return Err(e);
                },
            };
            osm.boundary = Some(boundary);
            proof {
                lemma_frozen_boundary_wf(*old(osm), *osm);
            }
        } else if set_type == O5M_RESET {
            self.decoder.reset();
        } else if set_type == O5M_EOF {
            return Ok(false);
        } else if set_type == O5M_HEADER {
            match self.read_header() {
                Ok(()) => {}
                Err(e) => {
                    return Err(e);
                },
            }
        } else {
            match self.skip_dataset(set_type) {
                Ok(()) => {}
                Err(e) => {
                    return Err(e);
                },
            }
        }
        Ok(true)
    }

    /// Read the type code of the next dataset.
    fn read_set_type(&mut self) -> (r: Result<u8, Error>)
        requires
            old(self).wf(),
        ensures
            final(self).wf(),
            final(self).decoder.spec_data() == old(self).decoder.spec_data(),
            final(self).decoder.spec_pos() >= old(self).decoder.spec_pos(),
            match r {
                Ok(t) => {
                    &&& final(self).decoder.spec_pos() == old(self).decoder.spec_pos() + 1
                    &&& t == final(self).decoder.spec_data()[final(self).decoder.spec_pos() - 1]
                },
                Err(e) => e.kind is UnexpectedEof && e.message is None && old(self).decoder.spec_pos() == old(self).decoder.spec_data().len(),
            },
    {
        self.decoder.set_limit(1);
        self.decoder.read_u8()
    }

    /// Read and check the five magic bytes that follow the header code.
    fn read_header(&mut self) -> (r: Result<(), Error>)
        requires
            old(self).wf(),
        ensures
            final(self).wf(),
            final(self).decoder.spec_data() == old(self).decoder.spec_data(),
            final(self).decoder.spec_pos() >= old(self).decoder.spec_pos(),
            r matches Err(e) ==> (e.kind is ParseError || e.kind is UnexpectedEof) && (e.kind
                is UnexpectedEof ==> e.message is None),
            (match r {
                Err(e) => e.kind is ParseError ==> (e.message matches Some(m) && m@
                    == "Invalid o5m header."@),
                Ok(_) => true,
            }),
    {
        self.decoder.set_limit(5);
        let mut magic: Vec<u8> = Vec::new();
        let mut i: u8 = 0;
        while i < 5
            invariant
                self.wf(),
                self.decoder.spec_data() == old(self).decoder.spec_data(),
                self.decoder.spec_pos() >= old(self).decoder.spec_pos(),
                i <= 5,
            decreases 5 - i,
        {
            let b = match self.decoder.read_u8() {
                Ok(b) => b,
                Err(e) => {
                    return Err(e);
                },
            };
            magic.push(b);
            i = i + 1;
        }
        let expected: Vec<u8> = expected_magic();
        if !crate::osm_io::o5m::bytes_eq(&magic, &expected) {
            let mut msg = String::new();
            msg.append("Invalid o5m header.");
            proof {
                reveal_strlit("Invalid o5m header.");
                assert(msg@ =~= "Invalid o5m header."@);
            }
            return Err(Error::new(ErrorKind::ParseError, Some(msg)));
        }
        Ok(())
    }

    /// Skip a whole unknown dataset. Codes at `0xF0` and above carry a
    /// length prefix and are skipped; anything else unknown is a parse
    /// error naming the code.
    fn skip_dataset(&mut self, block_type: u8) -> (r: Result<(), Error>)
        requires
            old(self).wf(),
        ensures
            final(self).wf(),
            final(self).decoder.spec_data() == old(self).decoder.spec_data(),
            final(self).decoder.spec_pos() >= old(self).decoder.spec_pos(),
            r matches Err(e) ==> (e.kind is ParseError || e.kind is UnexpectedEof) && (e.kind
                is ParseError ==> e.message is Some) && (e.kind is UnexpectedEof ==> e.message
                is None),
            block_type < 0xF0 ==> final(self).decoder.spec_pos() == old(self).decoder.spec_pos()
                && (match r {
                Err(e) => e.kind is ParseError && (e.message matches Some(m) && m@
                    == "Unknown data set type '"@ + crate::osm_io::numbers::dec_digits(
                    block_type as nat,
                ) + "'."@),
                Ok(_) => false,
            }),
    {
        if block_type >= 0xF0 {
            match self.decoder.read_limit() {
                Ok(()) => {}
                Err(e) => {
                    return Err(e);
                },
            }
            self.skip_all()
        } else {
            let mut msg = String::new();
            msg.append("Unknown data set type '");
            msg.append(u64_string(block_type as u64).as_str());
            msg.append("'.");
            proof {
                assert(msg@ =~= "Unknown data set type '"@ + crate::osm_io::numbers::dec_digits(
                    block_type as nat,
                ) + "'."@);
            }
            Err(Error::new(ErrorKind::ParseError, Some(msg)))
        }
    }

    /// Consume bytes until the budget of the current dataset is exhausted.
    fn skip_all(&mut self) -> (r: Result<(), Error>)
        requires
            old(self).wf(),
        ensures
            final(self).wf(),
            final(self).decoder.spec_data() == old(self).decoder.spec_data(),
            final(self).decoder.spec_pos() >= old(self).decoder.spec_pos(),
            r is Ok,
    {
        loop
            invariant
                self.wf(),
                self.decoder.spec_data() == old(self).decoder.spec_data(),
                self.decoder.spec_pos() >= old(self).decoder.spec_pos(),
            decreases self.decoder.spec_limit(),
        {
            let ghost limit_before = self.decoder.spec_limit();
            match self.decoder.read_u8() {
                Ok(_) => {
                    proof {
                        assert(self.decoder.spec_limit() < limit_before);
                    }
                }
                Err(_) => {
                    break;
                }
            }
        }
        Ok(())
    }

    /// Read a bounding box dataset: four signed varints, min-lon, min-lat,
    /// max-lon, max-lat, in fixed-point units. The boundary comes out
    /// frozen: the producer's declared bounds are recorded verbatim.
    pub fn read_boundary(&mut self) -> (r: Result<Boundary, Error>)
        requires
            old(self).wf(),
        ensures
            final(self).wf(),
            final(self).decoder.spec_data() == old(self).decoder.spec_data(),
            final(self).decoder.spec_pos() >= old(self).decoder.spec_pos(),
            match r {
                Ok(b) => {
                    &&& b.freeze
                    &&& final(self).decoder.spec_pos() > old(self).decoder.spec_pos()
                    &&& exists|p0: int, p1: int, p2: int, p3: int|
                        #![trigger final(self).decoder.spec_data().subrange(p0, p1), final(self).decoder.spec_data().subrange(p2, p3)]
                        {
                            &&& old(self).decoder.spec_pos() < p0 <= p1 <= p2 <= p3 <= final(self).decoder.spec_pos()
                            &&& wf_svarint(final(self).decoder.spec_data().subrange(p0, p1))
                            &&& wf_svarint(final(self).decoder.spec_data().subrange(p1, p2))
                            &&& wf_svarint(final(self).decoder.spec_data().subrange(p2, p3))
                            &&& wf_svarint(
                                final(self).decoder.spec_data().subrange(
                                    p3,
                                    final(self).decoder.spec_pos(),
                                ),
                            )
                            &&& corner_matches(
                                b.min.lon,
                                svarint_dec(final(self).decoder.spec_data().subrange(p0, p1)),
                            )
                            &&& corner_matches(
                                b.min.lat,
                                svarint_dec(final(self).decoder.spec_data().subrange(p1, p2)),
                            )
                            &&& corner_matches(
                                b.max.lon,
                                svarint_dec(final(self).decoder.spec_data().subrange(p2, p3)),
                            )
                            &&& corner_matches(
                                b.max.lat,
                                svarint_dec(
                                    final(self).decoder.spec_data().subrange(
                                        p3,
                                        final(self).decoder.spec_pos(),
                                    ),
                                ),
                            )
                        }
                },
                Err(e) => {
                    &&& (e.kind is ParseError || e.kind is UnexpectedEof)
                    &&& (e.kind is ParseError ==> (e.message matches Some(m) && m@
                        == "Varint overflow, read 9 bytes."@) && overflow_stop(
                        final(self).decoder.spec_data(),
                        final(self).decoder.spec_pos(),
                    ))
                    &&& (e.kind is UnexpectedEof ==> (e.message is None) && exhausted(
                        final(self).decoder.spec_limit(),
                        final(self).decoder.spec_pos(),
                        final(self).decoder.spec_data(),
                    ))
                },
            },
    {
        match self.decoder.read_limit() {
            Ok(()) => {}
            Err(e) => {
                return Err(e);
            },
        }
        let ghost p0 = self.decoder.spec_pos();
        let min_lon = match self.decoder.read_varint() {
            Ok(v) => v,
            Err(e) => {
                return Err(e);
            },
        };
        let ghost p1 = self.decoder.spec_pos();
        let min_lat = match self.decoder.read_varint() {
            Ok(v) => v,
            Err(e) => {
                return Err(e);
            },
        };
        let ghost p2 = self.decoder.spec_pos();
        let max_lon = match self.decoder.read_varint() {
            Ok(v) => v,
            Err(e) => {
                return Err(e);
            },
        };
        let ghost p3 = self.decoder.spec_pos();
        let max_lat = match self.decoder.read_varint() {
            Ok(v) => v,
            Err(e) => {
                return Err(e);
            },
        };
        let b = Boundary {
            min: Coordinate { lat: to_i32_trunc(min_lat), lon: to_i32_trunc(min_lon) },
            max: Coordinate { lat: to_i32_trunc(max_lat), lon: to_i32_trunc(max_lon) },
            freeze: true,
        };
        proof {
            let data = self.decoder.spec_data();
            let end = self.decoder.spec_pos();
            assert(old(self).decoder.spec_pos() < p0 <= p1 <= p2 <= p3 <= end && wf_svarint(
                data.subrange(p0, p1),
            ) && wf_svarint(data.subrange(p1, p2)) && wf_svarint(data.subrange(p2, p3))
                && wf_svarint(data.subrange(p3, end)) && corner_matches(
                b.min.lon,
                svarint_dec(data.subrange(p0, p1)),
            ) && corner_matches(b.min.lat, svarint_dec(data.subrange(p1, p2))) && corner_matches(
                b.max.lon,
                svarint_dec(data.subrange(p2, p3)),
            ) && corner_matches(b.max.lat, svarint_dec(data.subrange(p3, end))));
        }
        Ok(b)
    }

    /// Read a node dataset: its length prefix, id delta, meta, coordinate
    /// deltas, and tags to the end of the budget.
    pub fn read_node(&mut self) -> (r: Result<Node, Error>)
        requires
            old(self).wf(),
        ensures
            final(self).wf(),
            final(self).decoder.spec_data() == old(self).decoder.spec_data(),
            final(self).decoder.spec_pos() >= old(self).decoder.spec_pos(),
            match r {
                Ok(node) => {
                    &&& final(self).decoder.spec_pos() > old(self).decoder.spec_pos()
                    &&& node.id == final(self).decoder.delta_reg(Delta::Id)
                    &&& ({
                        let data = final(self).decoder.spec_data();
                        let p = old(self).decoder.spec_pos();
                        &&& after_varint(data, p) matches Some(p1)
                        &&& (after_varint(data, p) matches Some(p1) ==> {
                            &&& after_varint(data, p1) matches Some(p2)
                            &&& (after_varint(data, p1) matches Some(p2) ==> p2 <= final(self).decoder.spec_pos() && wf_svarint(data.subrange(p1, p2)) && node.id
                                == old(self).decoder.delta_reg(Delta::Id) + svarint_dec(
                                data.subrange(p1, p2),
                            ))
                        })
                    })
                    &&& (i32::MIN <= final(self).decoder.delta_reg(Delta::Lat) <= i32::MAX
                        ==> node.coordinate.lat == final(self).decoder.delta_reg(Delta::Lat))
                    &&& (i32::MIN <= final(self).decoder.delta_reg(Delta::Lon) <= i32::MAX
                        ==> node.coordinate.lon == final(self).decoder.delta_reg(Delta::Lon))
                    &&& (node.meta.author matches Some(a) ==> a.created == final(self).decoder.delta_reg(Delta::Time) && a.created != 0)
                    &&& (node.meta.version is None ==> node.meta.author is None)
                },
                Err(e) => (e.kind is ParseError || e.kind is UnexpectedEof) && (e.kind
                    is ParseError ==> e.message is Some) && (e.kind is UnexpectedEof
                    ==> e.message is None),
            },
    {
        match self.decoder.read_limit() {
            Ok(()) => {}
            Err(e) => {
                return Err(e);
            },
        }
        let ghost a = self.decoder.spec_pos();
        let id = match self.decoder.read_delta(Delta::Id) {
            Ok(v) => v,
            Err(e) => {
                return Err(e);
            },
        };
        let ghost b = self.decoder.spec_pos();
        let mut meta = match self.read_meta() {
            Ok(m) => m,
            Err(e) => {
                return Err(e);
            },
        };
        let coordinate = match self.decoder.read_delta_coordinate() {
            Ok(c) => c,
            Err(e) => {
                return Err(e);
            },
        };
        meta.tags = match self.decoder.read_tags() {
            Ok(t) => t,
            Err(e) => {
                return Err(e);
            },
        };
        let node = Node { id, coordinate, meta };
        proof {
            assert(after_varint(self.decoder.spec_data(), old(self).decoder.spec_pos()) == Some(
                a,
            ));
            assert(after_varint(self.decoder.spec_data(), a) == Some(b));
            assert(old(self).decoder.spec_pos() < a < b <= self.decoder.spec_pos() && wf_svarint(
                self.decoder.spec_data().subrange(a, b),
            ) && node.id == old(self).decoder.delta_reg(Delta::Id) + svarint_dec(
                self.decoder.spec_data().subrange(a, b),
            ));
        }
        Ok(node)
    }

    /// Read a way dataset: its length prefix, id delta, meta, the
    /// reference section under its own sub-budget, and tags to the end of
    /// the budget.
    pub fn read_way(&mut self) -> (r: Result<Way, Error>)
        requires
            old(self).wf(),
        ensures
            final(self).wf(),
            final(self).decoder.spec_data() == old(self).decoder.spec_data(),
            final(self).decoder.spec_pos() >= old(self).decoder.spec_pos(),
            match r {
                Ok(way) => {
                    &&& final(self).decoder.spec_pos() > old(self).decoder.spec_pos()
                    &&& way.id == final(self).decoder.delta_reg(Delta::Id)
                    &&& (way.refs@.len() > 0 ==> final(self).decoder.delta_reg(Delta::WayRef)
                        == way.refs@.last())
                    &&& ({
                        let data = final(self).decoder.spec_data();
                        let p = old(self).decoder.spec_pos();
                        &&& after_varint(data, p) matches Some(p1)
                        &&& (after_varint(data, p) matches Some(p1) ==> {
                            &&& after_varint(data, p1) matches Some(p2)
                            &&& (after_varint(data, p1) matches Some(p2) ==> p2 <= final(self).decoder.spec_pos() && wf_svarint(data.subrange(p1, p2)) && way.id
                                == old(self).decoder.delta_reg(Delta::Id) + svarint_dec(
                                data.subrange(p1, p2),
                            ))
                        })
                    })
                    &&& (way.meta.author matches Some(au) ==> au.created == final(self).decoder.delta_reg(Delta::Time) && au.created != 0)
                    &&& (way.meta.version is None ==> way.meta.author is None)
                },
                Err(e) => (e.kind is ParseError || e.kind is UnexpectedEof) && (e.kind
                    is ParseError ==> e.message is Some) && (e.kind is UnexpectedEof
                    ==> e.message is None),
            },
    {
        match self.decoder.read_limit() {
            Ok(()) => {}
            Err(e) => {
                return Err(e);
            },
        }
        let ghost a = self.decoder.spec_pos();
        let id = match self.decoder.read_delta(Delta::Id) {
            Ok(v) => v,
            Err(e) => {
                return Err(e);
            },
        };
        let ghost b = self.decoder.spec_pos();
        let mut meta = match self.read_meta() {
            Ok(m) => m,
            Err(e) => {
                return Err(e);
            },
        };
        let ref_size = match self.decoder.read_uvarint() {
            Ok(v) => v,
            Err(e) => {
                return Err(e);
            },
        };
        if ref_size > self.decoder.limit_value() {
            return Err(Error::new(ErrorKind::UnexpectedEof, None));
        }
        let refs = match self.decoder.read_way_references(ref_size) {
            Ok(v) => v,
            Err(e) => {
                return Err(e);
            },
        };
        meta.tags = match self.decoder.read_tags() {
            Ok(t) => t,
            Err(e) => {
                return Err(e);
            },
        };
        let way = Way { id, refs, meta };
        proof {
            assert(after_varint(self.decoder.spec_data(), old(self).decoder.spec_pos()) == Some(
                a,
            ));
            assert(after_varint(self.decoder.spec_data(), a) == Some(b));
            assert(old(self).decoder.spec_pos() < a < b <= self.decoder.spec_pos() && wf_svarint(
                self.decoder.spec_data().subrange(a, b),
            ) && way.id == old(self).decoder.delta_reg(Delta::Id) + svarint_dec(
                self.decoder.spec_data().subrange(a, b),
            ));
        }
        Ok(way)
    }

    /// Read a relation dataset: its length prefix, id delta, meta, the
    /// member section under its own sub-budget, and tags to the end of the
    /// budget.
    pub fn read_relation(&mut self) -> (r: Result<Relation, Error>)
        requires
            old(self).wf(),
        ensures
            final(self).wf(),
            final(self).decoder.spec_data() == old(self).decoder.spec_data(),
            final(self).decoder.spec_pos() >= old(self).decoder.spec_pos(),
            match r {
                Ok(relation) => {
                    &&& final(self).decoder.spec_pos() > old(self).decoder.spec_pos()
                    &&& relation.id == final(self).decoder.delta_reg(Delta::Id)
                    &&& ({
                        let data = final(self).decoder.spec_data();
                        let p = old(self).decoder.spec_pos();
                        &&& after_varint(data, p) matches Some(p1)
                        &&& (after_varint(data, p) matches Some(p1) ==> {
                            &&& after_varint(data, p1) matches Some(p2)
                            &&& (after_varint(data, p1) matches Some(p2) ==> p2 <= final(self).decoder.spec_pos() && wf_svarint(data.subrange(p1, p2)) && relation.id
                                == old(self).decoder.delta_reg(Delta::Id) + svarint_dec(
                                data.subrange(p1, p2),
                            ))
                        })
                    })
                    &&& (relation.meta.author matches Some(au) ==> au.created == final(self).decoder.delta_reg(Delta::Time) && au.created != 0)
                    &&& (relation.meta.version is None ==> relation.meta.author is None)
                },
                Err(e) => (e.kind is ParseError || e.kind is UnexpectedEof) && (e.kind
                    is ParseError ==> e.message is Some) && (e.kind is UnexpectedEof
                    ==> e.message is None),
            },
    {
        match self.decoder.read_limit() {
            Ok(()) => {}
            Err(e) => {
                return Err(e);
            },
        }
        let ghost a = self.decoder.spec_pos();
        let id = match self.decoder.read_delta(Delta::Id) {
            Ok(v) => v,
            Err(e) => {
                return Err(e);
            },
        };
        let ghost b = self.decoder.spec_pos();
        let mut meta = match self.read_meta() {
            Ok(m) => m,
            Err(e) => {
                return Err(e);
            },
        };
        let ref_size = match self.decoder.read_uvarint() {
            Ok(v) => v,
            Err(e) => {
                return Err(e);
            },
        };
        if ref_size > self.decoder.limit_value() {
            return Err(Error::new(ErrorKind::UnexpectedEof, None));
        }
        let members = match self.decoder.read_relation_members(ref_size) {
            Ok(v) => v,
            Err(e) => {
                return Err(e);
            },
        };
        meta.tags = match self.decoder.read_tags() {
            Ok(t) => t,
            Err(e) => {
                return Err(e);
            },
        };
        let relation = Relation { id, members, meta };
        proof {
            assert(after_varint(self.decoder.spec_data(), old(self).decoder.spec_pos()) == Some(
                a,
            ));
            assert(after_varint(self.decoder.spec_data(), a) == Some(b));
            assert(old(self).decoder.spec_pos() < a < b <= self.decoder.spec_pos() && wf_svarint(
                self.decoder.spec_data().subrange(a, b),
            ) && relation.id == old(self).decoder.delta_reg(Delta::Id) + svarint_dec(
                self.decoder.spec_data().subrange(a, b),
            ));
        }
        Ok(relation)
    }

    /// Read the meta shared by every element: an unsigned varint version
    /// (zero means no version and no author), and, when a version is
    /// present, the author information.
    pub fn read_meta(&mut self) -> (r: Result<Meta, Error>)
        requires
            old(self).wf(),
        ensures
            final(self).wf(),
            final(self).decoder.spec_data() == old(self).decoder.spec_data(),
            final(self).decoder.spec_pos() >= old(self).decoder.spec_pos(),
            final(self).decoder.spec_limit() <= old(self).decoder.spec_limit(),
            (forall|d2: Delta|
                d2 != Delta::Time && d2 != Delta::ChangeSet ==> #[trigger] final(self).decoder.delta.reg(d2) == old(self).decoder.delta.reg(d2)),
            match r {
                Ok(meta) => {
                    &&& final(self).decoder.spec_pos() > old(self).decoder.spec_pos()
                    &&& meta.tags@.len() == 0
                    &&& (meta.version is None ==> meta.author is None)
                    &&& (meta.author matches Some(a) ==> a.created == final(self).decoder.delta_reg(Delta::Time) && a.created != 0)
                    &&& (meta.version is Some && meta.author is None ==> final(self).decoder.delta_reg(Delta::Time) == 0)
                    &&& ({
                        let data = final(self).decoder.spec_data();
                        let p = old(self).decoder.spec_pos();
                        &&& after_varint(data, p) matches Some(a)
                        &&& (after_varint(data, p) matches Some(a) ==> {
                            &&& a <= final(self).decoder.spec_pos()
                            &&& wf_uvarint(data.subrange(p, a))
                            &&& (uvarint_dec(data.subrange(p, a)) <= u32::MAX ==> match meta.version {
                                None => uvarint_dec(data.subrange(p, a)) == 0,
                                Some(v) => v as nat == uvarint_dec(data.subrange(p, a)),
                            })
                        })
                    })
                },
                Err(e) => (e.kind is ParseError || e.kind is UnexpectedEof) && (e.kind
                    is ParseError ==> e.message is Some) && (e.kind is UnexpectedEof
                    ==> e.message is None),
            },
    {
        let version_raw = match self.decoder.read_uvarint() {
            Ok(v) => v,
            Err(e) => {
                return Err(e);
            },
        };
        let ghost va = self.decoder.spec_pos();
        let version = to_u32_trunc(version_raw);
        if version == 0 {
            let meta = Meta { tags: Vec::new(), version: None, author: None };
            proof {
                assert(after_varint(self.decoder.spec_data(), old(self).decoder.spec_pos())
                    == Some(va));
                assert(old(self).decoder.spec_pos() < va <= self.decoder.spec_pos()
                    && wf_uvarint(
                    self.decoder.spec_data().subrange(old(self).decoder.spec_pos(), va),
                ));
            }
            return Ok(meta);
        }
        let author = match self.decoder.read_author_info() {
            Ok(a) => a,
            Err(e) => {
                return Err(e);
            },
        };
        let meta = Meta { tags: Vec::new(), version: Some(version), author };
        proof {
            assert(after_varint(self.decoder.spec_data(), old(self).decoder.spec_pos()) == Some(
                va,
            ));
            assert(old(self).decoder.spec_pos() < va <= self.decoder.spec_pos() && wf_uvarint(
                self.decoder.spec_data().subrange(old(self).decoder.spec_pos(), va),
            ));
        }
        Ok(meta)
    }
}

impl O5mDecoder {
    /// The value delta register `d` currently holds.
    pub open spec fn delta_reg(&self, d: Delta) -> i64 {
        self.delta.reg(d)
    }

    /// The remaining budget as a value.
    fn limit_value(&self) -> (r: u64)
        ensures
            r == self.spec_limit(),
    {
        self.inner.limit()
    }
}

/// Recording a frozen boundary read from the stream keeps the map well
/// formed: the containment invariant only speaks of unfrozen boundaries.
pub proof fn lemma_frozen_boundary_wf(pre: Osm, post: Osm)
    requires
        pre.wf(),
        post.nodes@ == pre.nodes@,
        post.ways@ == pre.ways@,
        post.relations@ == pre.relations@,
        post.spec_index() == pre.spec_index(),
        post.spec_max_id() == pre.spec_max_id(),
        post.boundary matches Some(b) && b.freeze,
    ensures
        post.wf(),
{
    assert forall|i: int| 0 <= i < post.nodes@.len() implies #[trigger] post.nodes@[i].id
        <= post.spec_max_id() by {
        assert(pre.nodes@[i].id <= pre.spec_max_id());
    };
    assert forall|i: int| 0 <= i < post.ways@.len() implies #[trigger] post.ways@[i].id
        <= post.spec_max_id() by {
        assert(pre.ways@[i].id <= pre.spec_max_id());
    };
    assert forall|i: int| 0 <= i < post.relations@.len() implies #[trigger] post.relations@[i].id
        <= post.spec_max_id() by {
        assert(pre.relations@[i].id <= pre.spec_max_id());
    };
    assert forall|i: int| 0 <= i < post.nodes@.len() implies crate::index_lookup(
        post.spec_index(),
        #[trigger] post.nodes@[i].coordinate,
    ) is Some by {
        assert(crate::index_lookup(pre.spec_index(), pre.nodes@[i].coordinate) is Some);
    };
    assert forall|k: int| 0 <= k < post.spec_index().len() implies #[trigger] post.index_entry_ok(
        k,
    ) by {
        assert(pre.index_entry_ok(k));
        let i = choose|i: int|
            0 <= i < pre.nodes@.len() && pre.spec_index()[k] == (
            pre.nodes@[i].coordinate,
            pre.nodes@[i].id,
            );
        assert(post.nodes@[i] == pre.nodes@[i]);
        assert(post.spec_index()[k] == (post.nodes@[i].coordinate, post.nodes@[i].id));
    };
}

/// The magic bytes that follow the o5m header code.
fn expected_magic() -> (r: Vec<u8>)
    ensures
        r@ == seq![0x04u8, 0x6fu8, 0x35u8, 0x6du8, 0x32u8],
{
    let mut r: Vec<u8> = Vec::new();
    r.push(0x04);
    r.push(0x6f);
    r.push(0x35);
    r.push(0x6d);
    r.push(0x32);
    proof {
        assert(r@ =~= seq![0x04u8, 0x6fu8, 0x35u8, 0x6du8, 0x32u8]);
    }
    r
}

/// Split bytes at their first NUL: the bytes before it and the bytes after
/// it. Bytes without a NUL cannot be split.
fn split_first_zero(bytes: &Vec<u8>) -> (r: Option<(Vec<u8>, Vec<u8>)>)
    ensures
        match r {
            Some((a, b)) => {
                &&& first_zero(bytes@) matches Some(z) && a@ == bytes@.take(z) && b@
                    == bytes@.skip(z + 1)
            },
            None => first_zero(bytes@) is None,
        },
{
    let n = bytes.len();
    let mut i: usize = 0;
    proof {
        assert(bytes@.skip(0) =~= bytes@);
    }
    while i < n
        invariant
            n == bytes@.len(),
            i <= n,
            first_zero(bytes@) == match first_zero(bytes@.skip(i as int)) {
                Some(p) => Some(p + i),
                None => None,
            },
            forall|j: int| 0 <= j < i ==> bytes@[j] != 0,
        decreases n - i,
    {
        proof {
            assert(bytes@.skip(i as int)[0] == bytes@[i as int]);
            assert(bytes@.skip(i as int).skip(1) =~= bytes@.skip(i as int + 1));
        }
        if bytes[i] == 0 {
            let mut a: Vec<u8> = Vec::new();
            let mut k: usize = 0;
            while k < i
                invariant
                    k <= i <= bytes@.len(),
                    a@ == bytes@.take(k as int),
                decreases i - k,
            {
                a.push(bytes[k]);
                proof {
                    assert(a@ =~= bytes@.take(k as int + 1));
                }
                k = k + 1;
            }
            let mut b: Vec<u8> = Vec::new();
            let mut k: usize = i + 1;
            while k < n
                invariant
                    i + 1 <= k <= n == bytes@.len(),
                    b@ == bytes@.subrange(i as int + 1, k as int),
                decreases n - k,
            {
                b.push(bytes[k]);
                proof {
                    assert(b@ =~= bytes@.subrange(i as int + 1, k as int + 1));
                }
                k = k + 1;
            }
            proof {
                assert(b@ =~= bytes@.skip(i as int + 1));
            }
            return Some((a, b));
        }
        i = i + 1;
    }
    proof {
        assert(bytes@.skip(n as int) =~= Seq::<u8>::empty());
    }
    None
}

/// Turn dictionary bytes into a tag's key and value: the bytes split at
/// their first NUL, each side decoded as UTF-8. Bytes without a NUL are a
/// parse error.
fn bytes_to_string_pair(bytes: &Vec<u8>) -> (r: Result<(String, String), Error>)
    ensures
        r matches Err(e) ==> e.kind is ParseError && e.message is Some && first_zero(bytes@)
            is None,
{
    match split_first_zero(bytes) {
        Some((key_bytes, value_bytes)) => {
            Ok((lossy_string(&key_bytes), lossy_string(&value_bytes)))
        }
        None => {
            let mut msg = String::new();
            msg.append("Corrupt string data.");
            Err(Error::new(ErrorKind::ParseError, Some(msg)))
        }
    }
}

/// Turn dictionary bytes into a user record: the bytes split at their
/// first NUL, the first run read as the uid's unsigned varint, the second
/// decoded as the username. Bytes without a NUL are a parse error.
fn bytes_to_user(bytes: &Vec<u8>) -> (r: Result<(u64, String), Error>)
    ensures
        r matches Err(e) ==> e.kind is ParseError && e.message is Some,
{
    match split_first_zero(bytes) {
        Some((uid_bytes, user_bytes)) => {
            let uid = match uvarint_value_of(&uid_bytes) {
                Ok(v) => v,
                Err(e) => {
                    return Err(e);
                },
            };
            Ok((uid, lossy_string(&user_bytes)))
        }
        None => {
            let mut msg = String::new();
            msg.append("Corrupt string data.");
            Err(Error::new(ErrorKind::ParseError, Some(msg)))
        }
    }
}

/// Truncate a 64-bit value to 32 bits, as the wire format's coordinate
/// fields store them. Values already in range come through unchanged.
fn to_i32_trunc(v: i64) -> (r: i32)
    ensures
        i32::MIN <= v <= i32::MAX ==> r == v,
{
    if v >= i32::MIN as i64 && v <= i32::MAX as i64 {
        v as i32
    } else {
        #[verifier::truncate] (v as i32)
    }
}

/// Truncate an unsigned varint value to 32 bits, as versions are stored.
/// Values already in range come through unchanged.
fn to_u32_trunc(v: u64) -> (r: u32)
    ensures
        v <= u32::MAX ==> r == v,
{
    if v <= u32::MAX as u64 {
        v as u32
    } else {
        #[verifier::truncate] (v as u32)
    }
}

/// Reinterpret a signed delta value as the unsigned change-set id.
fn to_u64_trunc(v: i64) -> (r: u64)
    ensures
        v >= 0 ==> r == v,
{
    if v >= 0 {
        v as u64
    } else {
        #[verifier::truncate] (v as u64)
    }
}

/// Decode bytes as UTF-8 text, substituting the replacement character for
/// invalid sequences.
/// Relies on String::from_utf8_lossy: valid UTF-8 decodes verbatim.
#[verifier::external_body]
fn lossy_string(bytes: &Vec<u8>) -> (r: String)
    ensures
        vstd::utf8::valid_utf8(bytes@) ==> r@ == vstd::utf8::decode_utf8(bytes@),
{
    String::from_utf8_lossy(bytes).into_owned()
}

/// The text of the error raised when a delta would leave the 64-bit range.
fn delta_overflow_text() -> (r: String)
    ensures
        r@ == "Delta value out of range."@,
{
    let mut msg = String::new();
    msg.append("Delta value out of range.");
    proof {
        reveal_strlit("Delta value out of range.");
        assert(msg@ =~= "Delta value out of range."@);
    }
    msg
}

} // verus!
