//! IO functionality for OSM maps: the binary `o5m` codec, the textual `osm`
//! (XML) codec, and format dispatch.

use vstd::prelude::*;
use vstd::string::StringSliceAdditionalSpecFns;
use vstd::utf8::encode_utf8;

pub mod error;
pub mod numbers;
pub mod o5m;
pub mod xml;

use crate::osm_io::error::{Error, ErrorKind};

verus! {

/// An OSM interchange format, picked by file extension: `osm` is the XML
/// form, `o5m` the binary form.
#[derive(Debug, PartialEq, Eq, Copy, Clone, Structural)]
pub enum FileFormat {
    Xml,
    O5m,
}

impl FileFormat {
    /// The format a file extension names, or `None` for any other extension.
    pub fn from(s: &str) -> (r: Option<FileFormat>)
        ensures
            s@ == "osm"@ ==> r == Some(FileFormat::Xml),
            s@ == "o5m"@ ==> r == Some(FileFormat::O5m),
            s@ != "osm"@ && s@ != "o5m"@ ==> r is None,
    {
        proof {
            reveal_strlit("osm");
            reveal_strlit("o5m");
            assert("osm"@[1] == 's' && "o5m"@[1] == '5');
            assert("osm"@ != "o5m"@);
        }
        if str_eq(s, "osm") {
            Some(FileFormat::Xml)
        } else if str_eq(s, "o5m") {
            Some(FileFormat::O5m)
        } else {
            None
        }
    }

    /// The format for an extension, or an invalid-file-format error naming
    /// the extension.
    pub fn from_ext(s: &str) -> (r: Result<FileFormat, Error>)
        ensures
            s@ == "osm"@ ==> r == Ok::<FileFormat, Error>(FileFormat::Xml),
            s@ == "o5m"@ ==> r == Ok::<FileFormat, Error>(FileFormat::O5m),
            s@ != "osm"@ && s@ != "o5m"@ ==> {
                &&& r is Err
                &&& r->Err_0.kind is InvalidFileFormat
                &&& r->Err_0.message matches Some(m) && m@ == "'"@ + s@
                    + "' is not a valid osm file format."@
            },
    {
        if let Some(format) = FileFormat::from(s) {
            Ok(format)
        } else {
            let mut msg = String::new();
            msg.append("'");
            msg.append(s);
            msg.append("' is not a valid osm file format.");
            proof {
                assert(msg@ =~= "'"@ + s@ + "' is not a valid osm file format."@);
            }
            Err(Error::new(ErrorKind::InvalidFileFormat, Some(msg)))
        }
    }
}


/// A reader for either format, picked by [`create_reader`].
pub enum MapReader {
    Xml(crate::osm_io::xml::reader::XmlReader),
    O5m(crate::osm_io::o5m::reader::O5mReader),
}

/// A writer for either format, picked by [`create_writer`].
pub enum MapWriter {
    Xml(crate::osm_io::xml::writer::XmlWriter),
    O5m(crate::osm_io::o5m::writer::O5mWriter),
}

impl MapReader {
    /// The wrapped reader's state is well formed.
    pub open spec fn wf(&self) -> bool {
        match self {
            MapReader::Xml(r) => r.wf() && r.spec_step() == 0,
            MapReader::O5m(r) => r.wf(),
        }
    }

    /// Read the whole input into a map, with the wrapped codec's
    /// guarantees: a binary read gives a well-formed map whose stream
    /// ended at the end-of-file code, an XML read leaves the boundary
    /// unfrozen, and every error carries the wrapped codec's kind.
    pub fn read(&mut self) -> (r: Result<crate::Osm, Error>)
        requires
            old(self).wf(),
        ensures
            *old(self) is O5m ==> match r {
                Ok(osm) => osm.wf(),
                Err(e) => (e.kind is ParseError || e.kind is UnexpectedEof) && (e.kind
                    is ParseError ==> e.message is Some) && (e.kind is UnexpectedEof ==> e.message
                    is None),
            },
            *old(self) is O5m && r is Ok ==> ((*final(self)) matches MapReader::O5m(rf)
                && rf.decoder.spec_pos() >= 1 && rf.decoder.spec_data() == (*old(
                self,
            ))->O5m_0.decoder.spec_data() && rf.decoder.spec_data()[rf.decoder.spec_pos() - 1]
                == crate::osm_io::o5m::O5M_EOF),
            *old(self) is O5m && (*old(self))->O5m_0.decoder.spec_pos() < (*old(
                self,
            ))->O5m_0.decoder.spec_data().len() && (*old(self))->O5m_0.decoder.spec_data()[(
            *old(self))->O5m_0.decoder.spec_pos()] == crate::osm_io::o5m::O5M_EOF ==> (match r {
                Ok(osm) => osm.nodes@.len() == 0 && osm.ways@.len() == 0 && osm.relations@.len()
                    == 0,
                Err(_) => false,
            }),
            *old(self) is Xml ==> (r matches Ok(osm) ==> match osm.boundary {
                Some(b) => !b.freeze,
                None => true,
            }),
            *old(self) is Xml && r is Ok ==> ((*old(self))->Xml_0.spec_doc().len() > 0
                ==> crate::osm_io::xml::reader::doc_event_kind(
                (*old(self))->Xml_0.spec_doc(),
                0,
            ) != 5),
            *old(self) is Xml && (*old(self))->Xml_0.spec_doc().len() > 0
                && crate::osm_io::xml::reader::doc_event_kind(
                (*old(self))->Xml_0.spec_doc(),
                0,
            ) == 1 && crate::osm_io::xml::reader::doc_event_name(
                (*old(self))->Xml_0.spec_doc(),
                0,
            ) == "node"@ ==> (r matches Ok(osm) ==> osm.nodes@.len() >= 1),
    {
        match self {
            MapReader::Xml(reader) => {
                proof {
                    assert((*old(self)) is Xml);
                }
                reader.read()
            },
            MapReader::O5m(reader) => {
                proof {
                    assert((*old(self)) is O5m);
                }
                reader.read()
            },
        }
    }
}

impl MapWriter {
    /// The wrapped writer's state is well formed.
    pub open spec fn wf(&self) -> bool {
        match self {
            MapWriter::Xml(_) => true,
            MapWriter::O5m(w) => w.encoder.wf(),
        }
    }

    /// Write a whole map: the wrapped codec appends exactly the map's
    /// wire form — the o5m stream or the XML text.
    pub fn write(&mut self, osm: &crate::Osm) -> (r: Result<(), Error>)
        requires
            old(self).wf(),
            (match *old(self) {
                MapWriter::O5m(_) => crate::osm_io::o5m::writer::osm_in_range(osm),
                MapWriter::Xml(_) => true,
            }),
        ensures
            r is Ok,
            *old(self) is O5m ==> ((*final(self)) matches MapWriter::O5m(w) && (*old(
                self,
            )) matches MapWriter::O5m(w0) && w.inner@ == w0.inner@
                + crate::osm_io::o5m::writer::osm_wire(*osm)),
            *old(self) is Xml ==> ((*final(self)) matches MapWriter::Xml(w) && (*old(
                self,
            )) matches MapWriter::Xml(w0) && w.out@ == w0.out@
                + crate::osm_io::xml::writer::osm_text(*osm)),
    {
        match self {
            MapWriter::Xml(writer) => writer.write(osm),
            MapWriter::O5m(writer) => writer.write(osm),
        }
    }

    /// The bytes written so far.
    pub fn into_inner(self) -> Vec<u8> {
        match self {
            MapWriter::Xml(writer) => writer.into_inner(),
            MapWriter::O5m(writer) => writer.into_inner(),
        }
    }
}

/// A reader over in-memory bytes: the XML reader for the XML format, the
/// o5m reader for the binary format, each over exactly `data`.
pub fn create_reader(data: Vec<u8>, format: FileFormat) -> (r: MapReader)
    ensures
        r.wf(),
        format is Xml ==> (r matches MapReader::Xml(reader) && reader.spec_doc() == data@),
        format is O5m ==> (r matches MapReader::O5m(reader) && reader.decoder.spec_data() == data@
            && reader.decoder.spec_pos() == 0),
{
    match format {
        FileFormat::Xml => MapReader::Xml(crate::osm_io::xml::reader::XmlReader::new(data)),
        FileFormat::O5m => MapReader::O5m(crate::osm_io::o5m::reader::O5mReader::new(data)),
    }
}

/// A writer collecting its output in memory: the XML writer for the XML
/// format, the o5m writer for the binary format, each starting empty.
pub fn create_writer(format: FileFormat) -> (r: MapWriter)
    ensures
        r.wf(),
        format is Xml ==> (r matches MapWriter::Xml(w) && w.out@ == Seq::<char>::empty()),
        format is O5m ==> (r matches MapWriter::O5m(w) && w.inner@ == Seq::<u8>::empty()
            && w.encoder.model() == crate::osm_io::o5m::writer::fresh_model()),
{
    match format {
        FileFormat::Xml => MapWriter::Xml(crate::osm_io::xml::writer::XmlWriter::new()),
        FileFormat::O5m => MapWriter::O5m(crate::osm_io::o5m::writer::O5mWriter::new(Vec::new())),
    }
}

/// The position of the last dot, if any.
pub open spec fn last_dot(s: Seq<u8>) -> Option<int>
    decreases s.len(),
{
    if s.len() == 0 {
        None
    } else if s.last() == 46 {
        Some(s.len() - 1)
    } else {
        last_dot(s.drop_last())
    }
}

/// The format a file path names through its last-dot extension: `osm` is
/// the XML format and `o5m` the binary one; an unknown extension or a
/// path without one is an invalid-file-format error.
pub fn format_of_path(path: &str) -> (r: Result<FileFormat, Error>)
    ensures
        match r {
            Ok(f) => {
                &&& last_dot(path.spec_bytes()) matches Some(d)
                &&& (f is Xml ==> path.spec_bytes().skip(d + 1) == encode_utf8("osm"@))
                &&& (f is O5m ==> path.spec_bytes().skip(d + 1) == encode_utf8("o5m"@))
            },
            Err(e) => e.kind is InvalidFileFormat,
        },
{
    let bytes = path.as_bytes();
    let n = bytes.len();
    let mut dot: usize = n;
    let mut i: usize = 0;
    proof {
        assert(bytes@.take(0) =~= Seq::<u8>::empty());
    }
    while i < n
        invariant
            i <= n,
            n == bytes@.len(),
            dot <= n,
            dot == n ==> last_dot(bytes@.take(i as int)) is None,
            dot < n ==> dot < i && last_dot(bytes@.take(i as int)) == Some(dot as int) && bytes@[dot as int] == 46,
        decreases n - i,
    {
        proof {
            assert(bytes@.take(i as int + 1).drop_last() =~= bytes@.take(i as int));
            assert(bytes@.take(i as int + 1).last() == bytes@[i as int]);
        }
        if bytes[i] == 46 {
            dot = i;
        }
        i = i + 1;
    }
    proof {
        assert(bytes@.take(n as int) =~= bytes@);
    }
    if dot < n && path.is_char_boundary(dot + 1) {
        let (_, ext) = path.split_at(dot + 1);
        let r = FileFormat::from_ext(ext);
        proof {
            reveal_strlit("osm");
            reveal_strlit("o5m");
            assert("osm"@[1] == 's' && "o5m"@[1] == '5');
            assert(ext.spec_bytes() =~= path.spec_bytes().skip(dot as int + 1));
            if r is Ok {
                if ext@ == "osm"@ {
                    assert(ext.spec_bytes() == encode_utf8("osm"@));
                } else if ext@ == "o5m"@ {
                    assert(ext.spec_bytes() == encode_utf8("o5m"@));
                }
            }
        }
        r
    } else {
        let mut msg = String::new();
        msg.append("Could not determine format of '");
        msg.append(path);
        msg.append("'.");
        Err(Error::new(ErrorKind::InvalidFileFormat, Some(msg)))
    }
}

/// Equality on string slices.
/// Relies on str's `==`, which compares the characters.
#[verifier::external_body]
pub(crate) fn str_eq(a: &str, b: &str) -> (r: bool)
    ensures
        r == (a@ == b@),
{
    a == b
}

} // verus!
