//! The osm XML reader: pulls events from an XML parser, interprets each
//! element's attributes, and assembles the map.

use crate::geo::{Boundary, Coordinate};
use crate::osm_io::error::{Error, ErrorKind};
use crate::osm_io::str_eq;
use crate::osm_io::numbers::{
    digits_val, fixed7_val, parse_fixed7, parse_i64, parse_u32, parse_u64, signed_val,
    unsigned_body, valid_fixed7, valid_signed, valid_unsigned,
};
use vstd::utf8::encode_utf8;
use crate::{AuthorInformation, Meta, Node, Osm, Relation, RelationMember, Tag, Way};
use vstd::prelude::*;
use vstd::string::StringSliceAdditionalSpecFns;

verus! {

/// The XML parser the reader pulls its events from.
#[verifier::external_type_specification]
#[verifier::external_body]
#[verifier::reject_recursive_types(R)]
pub struct ExXmlParser<R>(quick_xml::Reader<R>);

/// The in-memory byte source the parser reads.
#[verifier::external_type_specification]
#[verifier::external_body]
#[verifier::reject_recursive_types(T)]
pub struct ExCursor<T>(std::io::Cursor<T>);

/// An element's raw start-tag data, as the parser hands it out.
#[verifier::external_type_specification]
#[verifier::external_body]
pub struct ExBytesStart<'a>(quick_xml::events::BytesStart<'a>);

/// One event pulled from the XML parser, reduced to what the reader acts
/// on: an element opening, a self-closed element, a closing tag, the end
/// of the document, something to skip, or a parse failure with its text.
pub enum RawXmlEvent {
    Start(quick_xml::events::BytesStart<'static>),
    Empty(quick_xml::events::BytesStart<'static>),
    EndTag,
    Other,
    Eof,
    Fail(String),
}

/// The document a parser was opened over.
pub uninterp spec fn parser_doc(rd: quick_xml::Reader<std::io::Cursor<Vec<u8>>>) -> Seq<u8>;

/// How many events have been pulled from the parser.
pub uninterp spec fn parser_step(rd: quick_xml::Reader<std::io::Cursor<Vec<u8>>>) -> int;

/// The kind of the `k`-th event of a document, as the parser yields them:
/// 0 an element opening, 1 a self-closed element, 2 a closing tag, 3
/// anything skipped, 4 the end of the document, 5 a parse failure. A
/// function of the document bytes alone.
pub uninterp spec fn doc_event_kind(doc: Seq<u8>, k: int) -> int;

/// The element name the `k`-th event carries, where it is an opening or a
/// self-closed element.
pub uninterp spec fn doc_event_name(doc: Seq<u8>, k: int) -> Seq<char>;

/// The attribute texts the `k`-th event carries, where it is an opening
/// or a self-closed element.
pub uninterp spec fn doc_event_attrs(doc: Seq<u8>, k: int) -> Seq<(Seq<char>, Seq<char>)>;

/// The rendered failure text of the `k`-th event, where it is a parse
/// failure.
pub uninterp spec fn doc_event_text(doc: Seq<u8>, k: int) -> Seq<char>;

/// Open an XML parser over in-memory bytes.
/// Relies on quick_xml::Reader::from_reader: the parser is over exactly
/// these bytes with no event pulled yet.
#[verifier::external_body]
fn xml_parser_from(doc: Vec<u8>) -> (r: quick_xml::Reader<std::io::Cursor<Vec<u8>>>)
    ensures
        parser_doc(r) == doc@,
        parser_step(r) == 0,
{
    quick_xml::Reader::from_reader(std::io::Cursor::new(doc))
}

/// Pull the next event from the parser.
/// Relies on quick_xml::Reader::read_event_into, whose event stream is a
/// function of the document bytes alone; the event is reduced to its
/// variant, start-tag data is kept, and a parser error becomes its
/// rendered text.
#[verifier::external_body]
fn next_raw_event(rd: &mut quick_xml::Reader<std::io::Cursor<Vec<u8>>>) -> (r: RawXmlEvent)
    ensures
        parser_doc(*final(rd)) == parser_doc(*old(rd)),
        parser_step(*final(rd)) == parser_step(*old(rd)) + 1,
        match r {
            RawXmlEvent::Start(e) => doc_event_kind(parser_doc(*old(rd)), parser_step(*old(rd)))
                == 0 && start_name(e) == doc_event_name(
                parser_doc(*old(rd)),
                parser_step(*old(rd)),
            ) && start_attrs(e) == doc_event_attrs(parser_doc(*old(rd)), parser_step(*old(rd))),
            RawXmlEvent::Empty(e) => doc_event_kind(parser_doc(*old(rd)), parser_step(*old(rd)))
                == 1 && start_name(e) == doc_event_name(
                parser_doc(*old(rd)),
                parser_step(*old(rd)),
            ) && start_attrs(e) == doc_event_attrs(parser_doc(*old(rd)), parser_step(*old(rd))),
            RawXmlEvent::EndTag => doc_event_kind(parser_doc(*old(rd)), parser_step(*old(rd)))
                == 2,
            RawXmlEvent::Other => doc_event_kind(parser_doc(*old(rd)), parser_step(*old(rd)))
                == 3,
            RawXmlEvent::Eof => doc_event_kind(parser_doc(*old(rd)), parser_step(*old(rd))) == 4,
            RawXmlEvent::Fail(m) => doc_event_kind(parser_doc(*old(rd)), parser_step(*old(rd)))
                == 5 && m@ == doc_event_text(parser_doc(*old(rd)), parser_step(*old(rd))),
        },
{
    let mut buf: Vec<u8> = Vec::new();
    match rd.read_event_into(&mut buf) {
        Ok(quick_xml::events::Event::Start(e)) => RawXmlEvent::Start(e.into_owned()),
        Ok(quick_xml::events::Event::Empty(e)) => RawXmlEvent::Empty(e.into_owned()),
        Ok(quick_xml::events::Event::End(_)) => RawXmlEvent::EndTag,
        Ok(quick_xml::events::Event::Eof) => RawXmlEvent::Eof,
        Ok(_) => RawXmlEvent::Other,
        Err(e) => RawXmlEvent::Fail(e.to_string()),
    }
}

/// The name text a start-tag carries: a function of the tag's data alone.
pub uninterp spec fn start_name(e: quick_xml::events::BytesStart<'static>) -> Seq<char>;

/// The element's name as text.
/// Relies on quick_xml::events::BytesStart::name, whose result depends on
/// the tag's data alone.
#[verifier::external_body]
fn element_name(e: &quick_xml::events::BytesStart<'static>) -> (r: String)
    ensures
        r@ == start_name(*e),
{
    e.name().into_inner().to_string()
}

/// The attribute key/value texts a start-tag carries, in document order,
/// with unparseable attributes skipped: a function of the tag's data
/// alone.
pub uninterp spec fn start_attrs(e: quick_xml::events::BytesStart<'static>) -> Seq<
    (Seq<char>, Seq<char>),
>;

/// The element's attributes as key/value text pairs, in document order.
/// Relies on quick_xml's attribute parser and unescape_value, whose
/// results depend on the tag's data alone; attributes that fail to parse
/// or to unescape are skipped.
#[verifier::external_body]
fn element_attrs(e: &quick_xml::events::BytesStart<'static>) -> (r: Vec<(String, String)>)
    ensures
        r@.len() == start_attrs(*e).len(),
        forall|i: int|
            0 <= i < r@.len() ==> (#[trigger] r@[i]).0@ == start_attrs(*e)[i].0 && r@[i].1@
                == start_attrs(*e)[i].1,
{
    e.attributes().filter_map(|a| a.ok()).filter_map(
        |a|
            a.unescape_value().ok().map(
                |v| (a.key.into_inner().to_string(), v.into_owned()),
            ),
    ).collect()
}

/// How many bytes of the document the parser has consumed.
/// Relies on quick_xml::Reader::buffer_position.
#[verifier::external_body]
fn stream_offset(rd: &quick_xml::Reader<std::io::Cursor<Vec<u8>>>) -> u64 {
    rd.buffer_position()
}

/// Where the parser's last error lies in the document.
/// Relies on quick_xml::Reader::error_position.
#[verifier::external_body]
fn error_offset(rd: &quick_xml::Reader<std::io::Cursor<Vec<u8>>>) -> u64 {
    rd.error_position()
}

/// The Unix seconds an ISO 8601 UTC timestamp names, or `None` where the
/// text is not such a timestamp. The result depends on the text alone.
pub uninterp spec fn utc_timestamp_of(s: Seq<char>) -> Option<i64>;

/// Parse an ISO 8601 UTC timestamp into Unix seconds.
/// Relies on chrono's `DateTime<Utc>` parsing and `timestamp`: the result
/// is a function of the text alone.
#[verifier::external_body]
fn parse_utc_timestamp(s: &str) -> (r: Option<i64>)
    ensures
        r == utc_timestamp_of(s@),
{
    match s.parse::<chrono::DateTime<chrono::Utc>>() {
        Ok(t) => Some(t.timestamp()),
        Err(_) => None,
    }
}

/// The value the attribute list resolves `key` to: the value of the last
/// attribute under that key, as a map would keep it.
pub open spec fn attr_lookup(entries: Seq<(String, String)>, key: Seq<char>) -> Option<Seq<char>>
    decreases entries.len(),
{
    if entries.len() == 0 {
        None
    } else if entries[entries.len() - 1].0@ == key {
        Some(entries[entries.len() - 1].1@)
    } else {
        attr_lookup(entries.drop_last(), key)
    }
}

/// The value a list of attribute texts resolves `key` to: the value of
/// the last pair under that key.
pub open spec fn attr_text_lookup(entries: Seq<(Seq<char>, Seq<char>)>, key: Seq<char>) -> Option<
    Seq<char>,
>
    decreases entries.len(),
{
    if entries.len() == 0 {
        None
    } else if entries[entries.len() - 1].0 == key {
        Some(entries[entries.len() - 1].1)
    } else {
        attr_text_lookup(entries.drop_last(), key)
    }
}

/// Looking a key up in an attribute list or in its texts gives the same
/// answer.
proof fn lemma_attr_lookup_texts(
    entries: Seq<(String, String)>,
    texts: Seq<(Seq<char>, Seq<char>)>,
    key: Seq<char>,
)
    requires
        entries.len() == texts.len(),
        forall|i: int|
            0 <= i < entries.len() ==> (#[trigger] entries[i]).0@ == texts[i].0 && entries[i].1@
                == texts[i].1,
    ensures
        attr_lookup(entries, key) == attr_text_lookup(texts, key),
    decreases entries.len(),
{
    if entries.len() > 0 {
        assert(entries[entries.len() - 1].0@ == texts[texts.len() - 1].0);
        assert forall|i: int| 0 <= i < entries.drop_last().len() implies (#[trigger] entries
            .drop_last()[i]).0@ == texts.drop_last()[i].0 && entries.drop_last()[i].1@
            == texts.drop_last()[i].1 by {
            assert(entries.drop_last()[i] == entries[i]);
            assert(texts.drop_last()[i] == texts[i]);
        };
        lemma_attr_lookup_texts(entries.drop_last(), texts.drop_last(), key);
    }
}

/// The text of the error for a missing required attribute.
pub open spec fn missing_attr_text(field: Seq<char>) -> Seq<char> {
    "Required attribute '"@ + field + "' missing."@
}

/// The text of the error for an attribute whose value cannot be read.
pub open spec fn invalid_attr_text(field: Seq<char>, value: Seq<char>) -> Seq<char> {
    "The '"@ + field + "' attribute contains invalid data '"@ + value + "'."@
}

/// A fixed-point degree attribute that cannot be read: missing, or not a
/// decimal number.
pub open spec fn fixed7_attr_bad(entries: Seq<(String, String)>, key: Seq<char>) -> bool {
    match attr_lookup(entries, key) {
        None => true,
        Some(s) => !valid_fixed7(encode_utf8(s)),
    }
}

/// A signed 64-bit attribute that cannot be read: missing, malformed, or
/// out of range.
pub open spec fn signed_attr_bad(entries: Seq<(String, String)>, key: Seq<char>) -> bool {
    match attr_lookup(entries, key) {
        None => true,
        Some(s) => !valid_signed(encode_utf8(s)) || signed_val(encode_utf8(s)) > i64::MAX
            || signed_val(encode_utf8(s)) < i64::MIN,
    }
}

/// An unsigned 64-bit attribute that cannot be read: missing, malformed,
/// or out of range.
pub open spec fn unsigned_attr_bad(entries: Seq<(String, String)>, key: Seq<char>) -> bool {
    match attr_lookup(entries, key) {
        None => true,
        Some(s) => !valid_unsigned(encode_utf8(s)) || digits_val(unsigned_body(encode_utf8(s)))
            > u64::MAX,
    }
}

/// All four author attributes are present, so the reader parses them.
pub open spec fn author_attrs_present(entries: Seq<(String, String)>) -> bool {
    &&& attr_lookup(entries, "timestamp"@) is Some
    &&& attr_lookup(entries, "uid"@) is Some
    &&& attr_lookup(entries, "user"@) is Some
    &&& attr_lookup(entries, "changeset"@) is Some
}

/// The meta attributes cannot be read: the four author attributes are all
/// present but one of them does not parse, or a present version does not
/// parse.
pub open spec fn meta_attrs_bad(entries: Seq<(String, String)>) -> bool {
    ||| {
        &&& attr_lookup(entries, "timestamp"@) is Some
        &&& attr_lookup(entries, "uid"@) is Some
        &&& attr_lookup(entries, "user"@) is Some
        &&& attr_lookup(entries, "changeset"@) is Some
        &&& {
            ||| (attr_lookup(entries, "timestamp"@) matches Some(t) && utc_timestamp_of(t)
                is None)
            ||| unsigned_attr_bad(entries, "uid"@)
            ||| unsigned_attr_bad(entries, "changeset"@)
        }
    }
    ||| (attr_lookup(entries, "version"@) matches Some(vs) && (!valid_unsigned(encode_utf8(vs))
        || digits_val(unsigned_body(encode_utf8(vs))) > u32::MAX))
}

/// The attributes of one XML element, ready to be looked up by name. A
/// repeated attribute resolves to its last occurrence.
pub struct Attributes {
    pub map: Vec<(String, String)>,
}

impl Attributes {
    /// Wrap a list of key/value pairs.
    pub fn from_pairs(map: Vec<(String, String)>) -> (r: Attributes)
        ensures
            r.map@ == map@,
    {
        Attributes { map }
    }

    /// The value under `key`, if any.
    pub fn get(&self, key: &str) -> (r: Option<&String>)
        ensures
            match r {
                Some(v) => attr_lookup(self.map@, key@) == Some(v@),
                None => attr_lookup(self.map@, key@) is None,
            },
    {
        let mut i: usize = self.map.len();
        proof {
            assert(self.map@.take(self.map@.len() as int) =~= self.map@);
        }
        while i > 0
            invariant
                i <= self.map@.len(),
                attr_lookup(self.map@, key@) == attr_lookup(self.map@.take(i as int), key@),
            decreases i,
        {
            i = i - 1;
            let entry = &self.map[i];
            proof {
                assert(self.map@.take(i as int + 1).drop_last() =~= self.map@.take(i as int));
                assert(self.map@.take(i as int + 1)[i as int] == self.map@[i as int]);
            }
            if str_eq(entry.0.as_str(), key) {
                return Some(&entry.1);
            }
        }
        proof {
            assert(self.map@.take(0) =~= Seq::<(String, String)>::empty());
        }
        None
    }

    /// The value under `key`, or an invalid-data error naming the missing
    /// attribute.
    pub fn get_required(&self, val: &str) -> (r: Result<&String, Error>)
        ensures
            match r {
                Ok(v) => attr_lookup(self.map@, val@) == Some(v@),
                Err(e) => {
                    &&& attr_lookup(self.map@, val@) is None
                    &&& e.kind matches ErrorKind::InvalidData(m) && m@ == missing_attr_text(val@)
                },
            },
    {
        match self.get(val) {
            Some(v) => Ok(v),
            None => {
                let mut msg = String::new();
                msg.append("Required attribute '");
                msg.append(val);
                msg.append("' missing.");
                proof {
                    assert(msg@ =~= missing_attr_text(val@));
                }
                Err(Error::new(ErrorKind::InvalidData(msg), None))
            },
        }
    }

    /// Whether `key` is present.
    pub fn contains(&self, key: &str) -> (r: bool)
        ensures
            r == (attr_lookup(self.map@, key@) is Some),
    {
        match self.get(key) {
            Some(_) => true,
            None => false,
        }
    }

    /// The required attribute `field` as a signed 64-bit number, or an
    /// invalid-data error naming the attribute and the offending value.
    pub fn get_parse_i64(&self, field: &str) -> (r: Result<i64, Error>)
        ensures
            match r {
                Ok(v) => {
                    &&& attr_lookup(self.map@, field@) matches Some(s)
                    &&& valid_signed(encode_utf8(s))
                    &&& v as int == signed_val(encode_utf8(s))
                },
                Err(e) => {
                    &&& e.kind matches ErrorKind::InvalidData(m) && m@ == (match attr_lookup(
                        self.map@,
                        field@,
                    ) {
                        None => missing_attr_text(field@),
                        Some(s) => invalid_attr_text(field@, s),
                    })
                    &&& match attr_lookup(self.map@, field@) {
                        None => true,
                        Some(s) => !valid_signed(encode_utf8(s)) || signed_val(encode_utf8(s))
                            > i64::MAX || signed_val(encode_utf8(s)) < i64::MIN,
                    }
                },
            },
    {
        let s = match self.get_required(field) {
            Ok(s) => s,
            Err(e) => {
                return Err(e);
            },
        };
        match parse_i64(s.as_str()) {
            Some(v) => Ok(v),
            None => Err(invalid_attr_error(field, s.as_str())),
        }
    }

    /// The required attribute `field` as an unsigned 64-bit number.
    pub fn get_parse_u64(&self, field: &str) -> (r: Result<u64, Error>)
        ensures
            match r {
                Ok(v) => {
                    &&& attr_lookup(self.map@, field@) matches Some(s)
                    &&& valid_unsigned(encode_utf8(s))
                    &&& v as nat == digits_val(unsigned_body(encode_utf8(s)))
                },
                Err(e) => {
                    &&& e.kind matches ErrorKind::InvalidData(m) && m@ == (match attr_lookup(
                        self.map@,
                        field@,
                    ) {
                        None => missing_attr_text(field@),
                        Some(s) => invalid_attr_text(field@, s),
                    })
                    &&& match attr_lookup(self.map@, field@) {
                        None => true,
                        Some(s) => !valid_unsigned(encode_utf8(s)) || digits_val(
                            unsigned_body(encode_utf8(s)),
                        ) > u64::MAX,
                    }
                },
            },
    {
        let s = match self.get_required(field) {
            Ok(s) => s,
            Err(e) => {
                return Err(e);
            },
        };
        match parse_u64(s.as_str()) {
            Some(v) => Ok(v),
            None => Err(invalid_attr_error(field, s.as_str())),
        }
    }

    /// The required attribute `field` as a fixed-point degree value in
    /// 1e-7 degree units: exact inside the 32-bit range, saturated at its
    /// ends outside it.
    pub fn get_parse_fixed7(&self, field: &str) -> (r: Result<i32, Error>)
        ensures
            match r {
                Ok(v) => {
                    &&& attr_lookup(self.map@, field@) matches Some(s)
                    &&& valid_fixed7(encode_utf8(s))
                    &&& (i32::MIN <= fixed7_val(encode_utf8(s)) <= i32::MAX ==> v as int
                        == fixed7_val(encode_utf8(s)))
                },
                Err(e) => {
                    &&& e.kind matches ErrorKind::InvalidData(m) && m@ == (match attr_lookup(
                        self.map@,
                        field@,
                    ) {
                        None => missing_attr_text(field@),
                        Some(s) => invalid_attr_text(field@, s),
                    })
                    &&& match attr_lookup(self.map@, field@) {
                        None => true,
                        Some(s) => !valid_fixed7(encode_utf8(s)),
                    }
                },
            },
    {
        let s = match self.get_required(field) {
            Ok(s) => s,
            Err(e) => {
                return Err(e);
            },
        };
        match parse_fixed7(s.as_str()) {
            Some(v) => Ok(v),
            None => Err(invalid_attr_error(field, s.as_str())),
        }
    }

    /// The coordinate an element's `lat` and `lon` attributes name.
    pub fn create_coordinate(&self) -> (r: Result<Coordinate, Error>)
        ensures
            match r {
                Ok(c) => {
                    &&& attr_lookup(self.map@, "lat"@) matches Some(lat)
                    &&& valid_fixed7(encode_utf8(lat))
                    &&& (i32::MIN <= fixed7_val(encode_utf8(lat)) <= i32::MAX ==> c.lat as int
                        == fixed7_val(encode_utf8(lat)))
                    &&& attr_lookup(self.map@, "lon"@) matches Some(lon)
                    &&& valid_fixed7(encode_utf8(lon))
                    &&& (i32::MIN <= fixed7_val(encode_utf8(lon)) <= i32::MAX ==> c.lon as int
                        == fixed7_val(encode_utf8(lon)))
                },
                Err(e) => e.kind is InvalidData && (fixed7_attr_bad(self.map@, "lat"@)
                    || fixed7_attr_bad(self.map@, "lon"@)),
            },
    {
        let lat = match self.get_parse_fixed7("lat") {
            Ok(v) => v,
            Err(e) => {
                return Err(e);
            },
        };
        let lon = match self.get_parse_fixed7("lon") {
            Ok(v) => v,
            Err(e) => {
                return Err(e);
            },
        };
        Ok(Coordinate { lat, lon })
    }

    /// The boundary a bounds element names. It comes out frozen: the
    /// producer's declared bounds are recorded verbatim.
    pub fn create_boundary(&self) -> (r: Result<Boundary, Error>)
        ensures
            match r {
                Ok(b) => {
                    &&& b.freeze
                    &&& (attr_lookup(self.map@, "minlat"@) matches Some(s) && valid_fixed7(
                        encode_utf8(s),
                    ) && (i32::MIN <= fixed7_val(encode_utf8(s)) <= i32::MAX ==> b.min.lat as int
                        == fixed7_val(encode_utf8(s))))
                    &&& (attr_lookup(self.map@, "minlon"@) matches Some(s) && valid_fixed7(
                        encode_utf8(s),
                    ) && (i32::MIN <= fixed7_val(encode_utf8(s)) <= i32::MAX ==> b.min.lon as int
                        == fixed7_val(encode_utf8(s))))
                    &&& (attr_lookup(self.map@, "maxlat"@) matches Some(s) && valid_fixed7(
                        encode_utf8(s),
                    ) && (i32::MIN <= fixed7_val(encode_utf8(s)) <= i32::MAX ==> b.max.lat as int
                        == fixed7_val(encode_utf8(s))))
                    &&& (attr_lookup(self.map@, "maxlon"@) matches Some(s) && valid_fixed7(
                        encode_utf8(s),
                    ) && (i32::MIN <= fixed7_val(encode_utf8(s)) <= i32::MAX ==> b.max.lon as int
                        == fixed7_val(encode_utf8(s))))
                },
                Err(e) => e.kind is InvalidData && (fixed7_attr_bad(self.map@, "minlat"@)
                    || fixed7_attr_bad(self.map@, "minlon"@) || fixed7_attr_bad(
                    self.map@,
                    "maxlat"@,
                ) || fixed7_attr_bad(self.map@, "maxlon"@)),
            },
    {
        let minlat = match self.get_parse_fixed7("minlat") {
            Ok(v) => v,
            Err(e) => {
                return Err(e);
            },
        };
        let minlon = match self.get_parse_fixed7("minlon") {
            Ok(v) => v,
            Err(e) => {
                return Err(e);
            },
        };
        let maxlat = match self.get_parse_fixed7("maxlat") {
            Ok(v) => v,
            Err(e) => {
                return Err(e);
            },
        };
        let maxlon = match self.get_parse_fixed7("maxlon") {
            Ok(v) => v,
            Err(e) => {
                return Err(e);
            },
        };
        Ok(
            Boundary {
                min: Coordinate { lat: minlat, lon: minlon },
                max: Coordinate { lat: maxlat, lon: maxlon },
                freeze: true,
            },
        )
    }

    /// The tag a tag element names: its `k` and `v` attributes.
    pub fn create_tag(&self) -> (r: Result<Tag, Error>)
        ensures
            match r {
                Ok(t) => attr_lookup(self.map@, "k"@) == Some(t.key@) && attr_lookup(
                    self.map@,
                    "v"@,
                ) == Some(t.value@),
                Err(e) => e.kind is InvalidData && (attr_lookup(self.map@, "k"@) is None
                    || attr_lookup(self.map@, "v"@) is None),
            },
    {
        let key = match self.get_required("k") {
            Ok(v) => v,
            Err(e) => {
                return Err(e);
            },
        };
        let key = key.clone();
        let value = match self.get_required("v") {
            Ok(v) => v,
            Err(e) => {
                return Err(e);
            },
        };
        let value = value.clone();
        Ok(Tag { key, value })
    }

    /// The meta an element's attributes name. Author information is
    /// recorded only when `timestamp`, `uid`, `user` and `changeset` are
    /// all present; the version only when `version` is present.
    pub fn create_meta(&self) -> (r: Result<Meta, Error>)
        ensures
            match r {
                Ok(meta) => {
                    &&& meta.tags@.len() == 0
                    &&& (match attr_lookup(self.map@, "version"@) {
                        Some(s) => meta.version matches Some(v) && valid_unsigned(encode_utf8(s))
                            && v as nat == digits_val(unsigned_body(encode_utf8(s))),
                        None => meta.version is None,
                    })
                    &&& (meta.author is Some <==> (attr_lookup(self.map@, "timestamp"@) is Some
                        && attr_lookup(self.map@, "uid"@) is Some && attr_lookup(
                        self.map@,
                        "user"@,
                    ) is Some && attr_lookup(self.map@, "changeset"@) is Some))
                    &&& (meta.author matches Some(a) ==> {
                        &&& attr_lookup(self.map@, "user"@) == Some(a.user@)
                        &&& (attr_lookup(self.map@, "timestamp"@) matches Some(t)
                            && utc_timestamp_of(t) == Some(a.created))
                        &&& (attr_lookup(self.map@, "uid"@) matches Some(u) && a.uid as nat
                            == digits_val(unsigned_body(encode_utf8(u))))
                        &&& (attr_lookup(self.map@, "changeset"@) matches Some(cs)
                            && a.change_set as nat == digits_val(unsigned_body(encode_utf8(cs))))
                    })
                },
                Err(e) => {
                    &&& meta_attrs_bad(self.map@)
                    &&& e.kind matches ErrorKind::InvalidData(m) && m@ == (
                    if author_attrs_present(self.map@) && (attr_lookup(self.map@, "timestamp"@)
                        matches Some(t) && utc_timestamp_of(t) is None) {
                        match attr_lookup(self.map@, "timestamp"@) {
                            None => missing_attr_text("timestamp"@),
                            Some(t) => "Invalid timestamp '"@ + t + "'"@,
                        }
                    } else if author_attrs_present(self.map@) && unsigned_attr_bad(
                        self.map@,
                        "uid"@,
                    ) {
                        match attr_lookup(self.map@, "uid"@) {
                            None => missing_attr_text("uid"@),
                            Some(s) => invalid_attr_text("uid"@, s),
                        }
                    } else if author_attrs_present(self.map@) && unsigned_attr_bad(
                        self.map@,
                        "changeset"@,
                    ) {
                        match attr_lookup(self.map@, "changeset"@) {
                            None => missing_attr_text("changeset"@),
                            Some(s) => invalid_attr_text("changeset"@, s),
                        }
                    } else {
                        match attr_lookup(self.map@, "version"@) {
                            None => missing_attr_text("version"@),
                            Some(s) => invalid_attr_text("version"@, s),
                        }
                    })
                },
            },
    {
        let has_author = self.contains("timestamp") && self.contains("uid") && self.contains(
            "user",
        ) && self.contains("changeset");

        let author: Option<AuthorInformation> = if has_author {
            let created = match self.get_timestamp() {
                Ok(v) => v,
                Err(e) => {
                    return Err(e);
                },
            };
            let uid = match self.get_parse_u64("uid") {
                Ok(v) => v,
                Err(e) => {
                    return Err(e);
                },
            };
            let user = match self.get_required("user") {
                Ok(v) => v.clone(),
                Err(e) => {
                    return Err(e);
                },
            };
            let change_set = match self.get_parse_u64("changeset") {
                Ok(v) => v,
                Err(e) => {
                    return Err(e);
                },
            };
            Some(AuthorInformation { created, change_set, uid, user })
        } else {
            None
        };

        let version: Option<u32> = match self.get("version") {
            Some(s) => {
                let text = s.clone();
                match parse_u32(text.as_str()) {
                    Some(v) => Some(v),
                    None => {
                        return Err(invalid_attr_error("version", text.as_str()));
                    },
                }
            },
            None => None,
        };

        Ok(Meta { tags: Vec::new(), version, author })
    }

    /// The Unix seconds of the required `timestamp` attribute, or an
    /// invalid-data error naming the offending text.
    pub fn get_timestamp(&self) -> (r: Result<i64, Error>)
        ensures
            match r {
                Ok(v) => {
                    &&& attr_lookup(self.map@, "timestamp"@) matches Some(t)
                    &&& utc_timestamp_of(t) == Some(v)
                },
                Err(e) => {
                    &&& e.kind matches ErrorKind::InvalidData(m) && m@ == (match attr_lookup(
                        self.map@,
                        "timestamp"@,
                    ) {
                        None => missing_attr_text("timestamp"@),
                        Some(t) => "Invalid timestamp '"@ + t + "'"@,
                    })
                    &&& match attr_lookup(self.map@, "timestamp"@) {
                        None => true,
                        Some(t) => utc_timestamp_of(t) is None,
                    }
                },
            },
    {
        let time_str = match self.get_required("timestamp") {
            Ok(v) => v,
            Err(e) => {
                return Err(e);
            },
        };
        match parse_utc_timestamp(time_str.as_str()) {
            Some(time) => Ok(time),
            None => {
                let mut msg = String::new();
                msg.append("Invalid timestamp '");
                msg.append(time_str.as_str());
                msg.append("'");
                proof {
                    assert(msg@ =~= "Invalid timestamp '"@ + time_str@ + "'"@);
                }
                Err(Error::new(ErrorKind::InvalidData(msg), None))
            },
        }
    }

    /// The relation member an element names: its `ref` id, its `type`
    /// (`node`, `way`, or `rel`/`relation`) and its `role`, which defaults
    /// to the empty string. An unknown type is an invalid-data error
    /// naming the offending value.
    pub fn create_relation_member(&self) -> (r: Result<RelationMember, Error>)
        ensures
            match r {
                Ok(m) => {
                    &&& (attr_lookup(self.map@, "ref"@) matches Some(s) && valid_signed(
                        encode_utf8(s),
                    ) && m.spec_ref_id() as int == signed_val(encode_utf8(s)))
                    &&& (attr_lookup(self.map@, "type"@) matches Some(t) && (m is Node ==> t
                        == "node"@) && (m is Way ==> t == "way"@) && (m is Relation ==> (t
                        == "rel"@ || t == "relation"@)))
                    &&& (match attr_lookup(self.map@, "role"@) {
                        Some(role) => m.spec_role() == role,
                        None => m.spec_role().len() == 0,
                    })
                },
                Err(e) => {
                    &&& e.kind matches ErrorKind::InvalidData(m) && m@ == (
                    if signed_attr_bad(self.map@, "ref"@) {
                        match attr_lookup(self.map@, "ref"@) {
                            None => missing_attr_text("ref"@),
                            Some(s) => invalid_attr_text("ref"@, s),
                        }
                    } else {
                        match attr_lookup(self.map@, "type"@) {
                            None => missing_attr_text("type"@),
                            Some(t) => invalid_attr_text("type"@, t),
                        }
                    })
                    &&& (signed_attr_bad(self.map@, "ref"@) || match attr_lookup(
                        self.map@,
                        "type"@,
                    ) {
                        None => true,
                        Some(t) => t != "node"@ && t != "way"@ && t != "rel"@ && t != "relation"@,
                    })
                },
            },
    {
        let mem_ref = match self.get_parse_i64("ref") {
            Ok(v) => v,
            Err(e) => {
                return Err(e);
            },
        };
        let mem_type = match self.get_required("type") {
            Ok(v) => v,
            Err(e) => {
                return Err(e);
            },
        };
        let mem_role: String = match self.get("role") {
            Some(role) => role.clone(),
            None => String::new(),
        };

        if str_eq(mem_type.as_str(), "node") {
            Ok(RelationMember::Node(mem_ref, mem_role))
        } else if str_eq(mem_type.as_str(), "way") {
            Ok(RelationMember::Way(mem_ref, mem_role))
        } else if str_eq(mem_type.as_str(), "rel") || str_eq(
            mem_type.as_str(),
            "relation",
        ) {
            Ok(RelationMember::Relation(mem_ref, mem_role))
        } else {
            Err(invalid_attr_error("type", mem_type.as_str()))
        }
    }
}

/// The invalid-data error for an attribute whose value cannot be read:
/// names the attribute and the offending value.
fn invalid_attr_error(field: &str, value: &str) -> (e: Error)
    ensures
        e.kind matches ErrorKind::InvalidData(m) && m@ == invalid_attr_text(field@, value@),
        e.line is None,
{
    let mut msg = String::new();
    msg.append("The '");
    msg.append(field);
    msg.append("' attribute contains invalid data '");
    msg.append(value);
    msg.append("'.");
    proof {
        assert(msg@ =~= invalid_attr_text(field@, value@));
    }
    Error::new(ErrorKind::InvalidData(msg), None)
}

/// The node a node element names.
pub fn parse_node(attributes: &Attributes) -> (r: Result<Node, Error>)
    ensures
        r matches Err(e) ==> e.kind is InvalidData && (signed_attr_bad(attributes.map@, "id"@)
            || fixed7_attr_bad(attributes.map@, "lat"@) || fixed7_attr_bad(
            attributes.map@,
            "lon"@,
        ) || meta_attrs_bad(attributes.map@)),
        r matches Ok(node) ==> (attr_lookup(attributes.map@, "id"@) matches Some(s)
            && valid_signed(encode_utf8(s)) && node.id as int == signed_val(encode_utf8(s))),
{
    let id = match attributes.get_parse_i64("id") {
        Ok(v) => v,
        Err(e) => {
            return Err(e);
        },
    };
    let coordinate = match attributes.create_coordinate() {
        Ok(v) => v,
        Err(e) => {
            return Err(e);
        },
    };
    let meta = match attributes.create_meta() {
        Ok(v) => v,
        Err(e) => {
            return Err(e);
        },
    };
    Ok(Node { id, coordinate, meta })
}

/// The way a way element names, before its references and tags are read.
pub fn parse_way(attributes: &Attributes) -> (r: Result<Way, Error>)
    ensures
        r matches Err(e) ==> e.kind is InvalidData && (signed_attr_bad(attributes.map@, "id"@)
            || meta_attrs_bad(attributes.map@)),
        r matches Ok(w) ==> w.refs@.len() == 0 && (attr_lookup(attributes.map@, "id"@)
            matches Some(s) && valid_signed(encode_utf8(s)) && w.id as int == signed_val(
            encode_utf8(s),
        )),
{
    let id = match attributes.get_parse_i64("id") {
        Ok(v) => v,
        Err(e) => {
            return Err(e);
        },
    };
    let meta = match attributes.create_meta() {
        Ok(v) => v,
        Err(e) => {
            return Err(e);
        },
    };
    Ok(Way { id, refs: Vec::new(), meta })
}

/// The relation a relation element names, before its members and tags are
/// read.
pub fn parse_relation(attributes: &Attributes) -> (r: Result<Relation, Error>)
    ensures
        r matches Err(e) ==> e.kind is InvalidData && (signed_attr_bad(attributes.map@, "id"@)
            || meta_attrs_bad(attributes.map@)),
        r matches Ok(rel) ==> rel.members@.len() == 0 && (attr_lookup(attributes.map@, "id"@)
            matches Some(s) && valid_signed(encode_utf8(s)) && rel.id as int == signed_val(
            encode_utf8(s),
        )),
{
    let id = match attributes.get_parse_i64("id") {
        Ok(v) => v,
        Err(e) => {
            return Err(e);
        },
    };
    let meta = match attributes.create_meta() {
        Ok(v) => v,
        Err(e) => {
            return Err(e);
        },
    };
    Ok(Relation { id, members: Vec::new(), meta })
}

/// A reader for the osm XML format over an in-memory document.
pub struct XmlReader {
    rd: quick_xml::Reader<std::io::Cursor<Vec<u8>>>,
    doc: Vec<u8>,
    line: u32,
}

impl XmlReader {
    /// The document this reader parses.
    pub closed spec fn spec_doc(&self) -> Seq<u8> {
        self.doc@
    }

    /// How many events the reader has pulled from its parser.
    pub closed spec fn spec_step(&self) -> int {
        parser_step(self.rd)
    }

    /// The reader's parser runs over the reader's own document.
    pub closed spec fn wf(&self) -> bool {
        parser_doc(self.rd) == self.doc@
    }

    /// A reader over the document's bytes.
    pub fn new(data: Vec<u8>) -> (r: XmlReader)
        ensures
            r.spec_doc() == data@,
            r.wf(),
            r.spec_step() == 0,
    {
        let doc = crate::osm_io::o5m::clone_bytes(&data);
        XmlReader { rd: xml_parser_from(data), doc, line: 0 }
    }

    /// How many newlines lie before `offset` in the document.
    fn line_at(&self, offset: u64) -> u32 {
        let end: usize = if offset > self.doc.len() as u64 {
            self.doc.len()
        } else {
            offset as usize
        };
        let mut count: u32 = 0;
        let mut i: usize = 0;
        while i < end
            invariant
                end <= self.doc@.len(),
                i <= end,
            decreases end - i,
        {
            if self.doc[i] == 10 && count < u32::MAX {
                count = count + 1;
            }
            i = i + 1;
        }
        count
    }

    /// Read the whole document into a map. Errors carry the line they were
    /// found on; a boundary read from the document is left unfrozen, ready
    /// to edit. An unfrozen boundary taken verbatim from the document need
    /// not contain the nodes, which is why the result's well-formedness is
    /// not claimed here: it speaks of everything but the boundary.
    pub fn read(&mut self) -> (r: Result<Osm, Error>)
        requires
            old(self).wf(),
            old(self).spec_step() == 0,
        ensures
            final(self).spec_doc() == old(self).spec_doc(),
            r matches Ok(osm) ==> match osm.boundary {
                Some(b) => !b.freeze,
                None => true,
            },
            r matches Ok(osm) ==> (old(self).spec_doc().len() > 0 && doc_event_kind(
                old(self).spec_doc(),
                0,
            ) == 1 && doc_event_name(old(self).spec_doc(), 0) == "node"@ ==> osm.nodes@.len()
                >= 1),
            r is Ok ==> (old(self).spec_doc().len() > 0 ==> doc_event_kind(
                old(self).spec_doc(),
                0,
            ) != 5),
            old(self).spec_doc().len() > 0 && doc_event_kind(old(self).spec_doc(), 0) == 5 ==> (
            match r {
                Err(e) => e.kind is ParseError && (e.message matches Some(m) && m@
                    == doc_event_text(old(self).spec_doc(), 0)),
                Ok(_) => false,
            }),
    {
        let mut osm = Osm::default();

        let mut fuel: usize = self.doc.len();
        loop
            invariant
                osm.wf(),
                self.wf(),
                self.spec_doc() == old(self).spec_doc(),
                self.spec_step() >= 0,
                fuel < old(self).spec_doc().len() ==> self.spec_step() >= 1,
                self.spec_step() >= 1 ==> (old(self).spec_doc().len() > 0 && doc_event_kind(
                    old(self).spec_doc(),
                    0,
                ) == 1 && doc_event_name(old(self).spec_doc(), 0) == "node"@ ==> osm.nodes@.len()
                    >= 1),
                self.spec_step() >= 1 ==> doc_event_kind(old(self).spec_doc(), 0) != 5,
            ensures
                self.spec_doc() == old(self).spec_doc(),
                osm.wf(),
                old(self).spec_doc().len() > 0 && doc_event_kind(old(self).spec_doc(), 0) == 1
                    && doc_event_name(old(self).spec_doc(), 0) == "node"@ ==> osm.nodes@.len()
                    >= 1,
                old(self).spec_doc().len() > 0 ==> doc_event_kind(old(self).spec_doc(), 0) != 5,
            decreases fuel,
        {
            if fuel == 0 {
                break;
            }
            fuel = fuel - 1;
            let ghost step_before = self.spec_step();
            let event = next_raw_event(&mut self.rd);
            self.line = self.line_at(stream_offset(&self.rd));
            match event {
                RawXmlEvent::Start(e) => {
                    let r = self.parse_element(&mut osm, &e, &mut fuel);
                    match r {
                        Ok(()) => {}
                        Err(e) => {
                            return Err(e);
                        },
                    }
                }
                RawXmlEvent::Empty(e) => {
                    let r = self.parse_empty_element(&mut osm, &e);
                    match r {
                        Ok(()) => {}
                        Err(e) => {
                            return Err(e);
                        },
                    }
                    proof {
                        if step_before == 0 && doc_event_kind(old(self).spec_doc(), 0) == 1
                            && doc_event_name(old(self).spec_doc(), 0) == "node"@ {
                            assert(start_name(e) == "node"@);
                        }
                    }
                }
                RawXmlEvent::Eof => {
                    break;
                }
                RawXmlEvent::Fail(text) => {
                    self.line = self.line_at(error_offset(&self.rd));
                    return Err(Error::on_line(ErrorKind::ParseError, Some(text), self.line));
                }
                RawXmlEvent::EndTag => {}
                RawXmlEvent::Other => {}
            }
            proof {
                if step_before == 0 && old(self).spec_doc().len() > 0 && doc_event_kind(
                    old(self).spec_doc(),
                    0,
                ) == 1 && doc_event_name(old(self).spec_doc(), 0) == "node"@ {
                    assert(osm.nodes@.len() >= 1);
                }
            }
        }

        match &mut osm.boundary {
            Some(boundary) => {
                boundary.freeze = false;
            }
            None => {}
        }

        Ok(osm)
    }

    /// Handle a self-closing top-level element: a node without tags, or
    /// the bounds.
    fn parse_empty_element(
        &mut self,
        osm: &mut Osm,
        e: &quick_xml::events::BytesStart<'static>,
    ) -> (r: Result<(), Error>)
        requires
            old(osm).wf(),
            old(self).wf(),
        ensures
            final(osm).wf(),
            final(self).wf(),
            final(self).spec_doc() == old(self).spec_doc(),
            final(self).spec_step() == old(self).spec_step(),
            r matches Err(err) ==> err.kind is InvalidData && err.line == Some(old(self).line),
            start_name(*e) == "node"@ && r is Ok ==> final(osm).nodes@.len() == old(
                osm,
            ).nodes@.len() + 1 && (attr_text_lookup(start_attrs(*e), "id"@) matches Some(s)
                && valid_signed(encode_utf8(s)) && final(osm).nodes@.last().id as int
                == signed_val(encode_utf8(s))),
            start_name(*e) == "bounds"@ && r is Ok ==> (final(osm).boundary matches Some(b)
                && b.freeze),
            start_name(*e) != "node"@ ==> final(osm).nodes@ == old(osm).nodes@,
            final(osm).ways@ == old(osm).ways@,
            final(osm).relations@ == old(osm).relations@,
    {
        proof {
            lemma_element_names_distinct();
        }
        let name = element_name(e);
        if str_eq(name.as_str(), "node") {
            let attributes = Attributes::from_pairs(element_attrs(e));
            proof {
                lemma_attr_lookup_texts(attributes.map@, start_attrs(*e), "id"@);
            }
            let node = match parse_node(&attributes) {
                Ok(n) => n,
                Err(err) => {
                    return Err(self.at_line(err));
                },
            };
            osm.add_node(node);
        } else if str_eq(name.as_str(), "bounds") {
            let attributes = Attributes::from_pairs(element_attrs(e));
            let boundary = match attributes.create_boundary() {
                Ok(b) => b,
                Err(err) => {
                    return Err(self.at_line(err));
                },
            };
            let ghost pre = *osm;
            osm.boundary = Some(boundary);
            proof {
                crate::osm_io::o5m::reader::lemma_frozen_boundary_wf(pre, *osm);
            }
        }
        Ok(())
    }

    /// Handle an open top-level element and its contents: the nested
    /// self-closing elements up to the closing tag.
    fn parse_element(
        &mut self,
        osm: &mut Osm,
        e: &quick_xml::events::BytesStart<'static>,
        fuel: &mut usize,
    ) -> (r: Result<(), Error>)
        requires
            old(osm).wf(),
            old(self).wf(),
        ensures
            final(osm).wf(),
            final(self).wf(),
            final(self).spec_doc() == old(self).spec_doc(),
            final(self).spec_step() >= old(self).spec_step(),
            *final(fuel) <= *old(fuel),
            start_name(*e) == "node"@ && r is Ok ==> final(osm).nodes@.len() == old(
                osm,
            ).nodes@.len() + 1 && (attr_text_lookup(start_attrs(*e), "id"@) matches Some(s)
                && valid_signed(encode_utf8(s)) && final(osm).nodes@.last().id as int
                == signed_val(encode_utf8(s))),
            start_name(*e) == "way"@ && r is Ok ==> final(osm).ways@.len() == old(
                osm,
            ).ways@.len() + 1 && (attr_text_lookup(start_attrs(*e), "id"@) matches Some(s)
                && valid_signed(encode_utf8(s)) && final(osm).ways@.last().id as int
                == signed_val(encode_utf8(s))),
            start_name(*e) == "relation"@ && r is Ok ==> final(osm).relations@.len() == old(
                osm,
            ).relations@.len() + 1 && (attr_text_lookup(start_attrs(*e), "id"@) matches Some(s)
                && valid_signed(encode_utf8(s)) && final(osm).relations@.last().id as int
                == signed_val(encode_utf8(s))),
            start_name(*e) != "node"@ ==> final(osm).nodes@ == old(osm).nodes@,
            start_name(*e) != "way"@ ==> final(osm).ways@ == old(osm).ways@,
            start_name(*e) != "relation"@ ==> final(osm).relations@ == old(osm).relations@,
    {
        proof {
            lemma_element_names_distinct();
        }
        let name = element_name(e);
        if str_eq(name.as_str(), "osm") {
            return Ok(());
        }

        let content = match self.read_element_content(fuel) {
            Ok(c) => c,
            Err(err) => {
                return Err(err);
            },
        };

        if str_eq(name.as_str(), "node") {
            let attributes = Attributes::from_pairs(element_attrs(e));
            proof {
                lemma_attr_lookup_texts(attributes.map@, start_attrs(*e), "id"@);
            }
            let mut node = match parse_node(&attributes) {
                Ok(n) => n,
                Err(err) => {
                    return Err(self.at_line(err));
                },
            };
            node.meta.tags = match self.create_tags(&content) {
                Ok(t) => t,
                Err(err) => {
                    return Err(err);
                },
            };
            osm.add_node(node);
        } else if str_eq(name.as_str(), "way") {
            let attributes = Attributes::from_pairs(element_attrs(e));
            proof {
                lemma_attr_lookup_texts(attributes.map@, start_attrs(*e), "id"@);
            }
            let mut way = match parse_way(&attributes) {
                Ok(w) => w,
                Err(err) => {
                    return Err(self.at_line(err));
                },
            };
            way.refs = match self.create_way_refs(&content) {
                Ok(t) => t,
                Err(err) => {
                    return Err(err);
                },
            };
            way.meta.tags = match self.create_tags(&content) {
                Ok(t) => t,
                Err(err) => {
                    return Err(err);
                },
            };
            osm.add_way(way);
        } else if str_eq(name.as_str(), "relation") {
            let attributes = Attributes::from_pairs(element_attrs(e));
            proof {
                lemma_attr_lookup_texts(attributes.map@, start_attrs(*e), "id"@);
            }
            let mut relation = match parse_relation(&attributes) {
                Ok(rel) => rel,
                Err(err) => {
                    return Err(self.at_line(err));
                },
            };
            relation.members = match self.create_relation_members(&content) {
                Ok(t) => t,
                Err(err) => {
                    return Err(err);
                },
            };
            relation.meta.tags = match self.create_tags(&content) {
                Ok(t) => t,
                Err(err) => {
                    return Err(err);
                },
            };
            osm.add_relation(relation);
        }
        Ok(())
    }

    /// Collect the self-closing elements inside an open element, up to its
    /// closing tag or the end of the document.
    fn read_element_content(&mut self, fuel: &mut usize) -> (r: Result<
        Vec<quick_xml::events::BytesStart<'static>>,
        Error,
    >)
        requires
            old(self).wf(),
        ensures
            final(self).wf(),
            final(self).spec_doc() == old(self).spec_doc(),
            final(self).spec_step() >= old(self).spec_step(),
            *final(fuel) <= *old(fuel),
    {
        let mut events: Vec<quick_xml::events::BytesStart<'static>> = Vec::new();
        loop
            invariant
                *fuel <= *old(fuel),
                self.wf(),
                self.spec_doc() == old(self).spec_doc(),
                self.spec_step() >= old(self).spec_step(),
            decreases *fuel,
        {
            if *fuel == 0 {
                break;
            }
            *fuel = *fuel - 1;
            let event = next_raw_event(&mut self.rd);
            self.line = self.line_at(stream_offset(&self.rd));
            match event {
                RawXmlEvent::Empty(e) => {
                    events.push(e);
                }
                RawXmlEvent::EndTag => {
                    break;
                }
                RawXmlEvent::Eof => {
                    break;
                }
                RawXmlEvent::Fail(text) => {
                    self.line = self.line_at(error_offset(&self.rd));
                    return Err(Error::on_line(ErrorKind::ParseError, Some(text), self.line));
                }
                RawXmlEvent::Start(_) => {}
                RawXmlEvent::Other => {}
            }
        }
        Ok(events)
    }

    /// The tags among an element's contents, in order.
    fn create_tags(&self, events: &Vec<quick_xml::events::BytesStart<'static>>) -> (r: Result<
        Vec<Tag>,
        Error,
    >)
        ensures
            r matches Err(e) ==> e.kind is InvalidData && e.line == Some(self.line),
    {
        let mut tags: Vec<Tag> = Vec::new();
        let n = events.len();
        let mut i: usize = 0;
        while i < n
            invariant
                i <= n <= events@.len(),
            decreases n - i,
        {
            let e = &events[i];
            let name = element_name(e);
            if str_eq(name.as_str(), "tag") {
                let attributes = Attributes::from_pairs(element_attrs(e));
                match attributes.create_tag() {
                    Ok(tag) => {
                        tags.push(tag);
                    }
                    Err(err) => {
                        return Err(self.at_line_ref(err));
                    }
                }
            }
            i = i + 1;
        }
        Ok(tags)
    }

    /// The node references among a way's contents, in order.
    fn create_way_refs(&self, events: &Vec<quick_xml::events::BytesStart<'static>>) -> (r: Result<
        Vec<i64>,
        Error,
    >)
        ensures
            r matches Err(e) ==> e.kind is InvalidData && e.line == Some(self.line),
    {
        let mut refs: Vec<i64> = Vec::new();
        let n = events.len();
        let mut i: usize = 0;
        while i < n
            invariant
                i <= n <= events@.len(),
            decreases n - i,
        {
            let e = &events[i];
            let name = element_name(e);
            if str_eq(name.as_str(), "nd") {
                let attributes = Attributes::from_pairs(element_attrs(e));
                match attributes.get_parse_i64("ref") {
                    Ok(id) => {
                        refs.push(id);
                    }
                    Err(err) => {
                        return Err(self.at_line_ref(err));
                    }
                }
            }
            i = i + 1;
        }
        Ok(refs)
    }

    /// The members among a relation's contents, in order.
    fn create_relation_members(
        &self,
        events: &Vec<quick_xml::events::BytesStart<'static>>,
    ) -> (r: Result<Vec<RelationMember>, Error>)
        ensures
            r matches Err(e) ==> e.kind is InvalidData && e.line == Some(self.line),
    {
        let mut members: Vec<RelationMember> = Vec::new();
        let n = events.len();
        let mut i: usize = 0;
        while i < n
            invariant
                i <= n <= events@.len(),
            decreases n - i,
        {
            let e = &events[i];
            let name = element_name(e);
            if str_eq(name.as_str(), "member") {
                let attributes = Attributes::from_pairs(element_attrs(e));
                match attributes.create_relation_member() {
                    Ok(member) => {
                        members.push(member);
                    }
                    Err(err) => {
                        return Err(self.at_line_ref(err));
                    }
                }
            }
            i = i + 1;
        }
        Ok(members)
    }

    /// Attach the current line to an error.
    fn at_line(&self, e: Error) -> (r: Error)
        ensures
            r.kind == e.kind,
            r.message == e.message,
            r.line == Some(self.line),
    {
        Error { kind: e.kind, message: e.message, line: Some(self.line) }
    }

    /// Attach the current line to an error.
    fn at_line_ref(&self, e: Error) -> (r: Error)
        ensures
            r.kind == e.kind,
            r.message == e.message,
            r.line == Some(self.line),
    {
        Error { kind: e.kind, message: e.message, line: Some(self.line) }
    }
}

/// The element names the reader dispatches on are pairwise distinct.
proof fn lemma_element_names_distinct()
    ensures
        "osm"@ != "node"@,
        "osm"@ != "way"@,
        "osm"@ != "relation"@,
        "osm"@ != "bounds"@,
        "node"@ != "way"@,
        "node"@ != "relation"@,
        "node"@ != "bounds"@,
        "way"@ != "relation"@,
        "way"@ != "bounds"@,
        "relation"@ != "bounds"@,
{
    reveal_strlit("osm");
    reveal_strlit("node");
    reveal_strlit("way");
    reveal_strlit("relation");
    reveal_strlit("bounds");
    assert("osm"@[0] == 'o' && "way"@[0] == 'w' && "node"@[0] == 'n' && "bounds"@[0] == 'b'
        && "relation"@[0] == 'r');
}

} // verus!
