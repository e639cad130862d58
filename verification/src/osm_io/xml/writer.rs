//! The osm XML emitter: tab indentation, LF line endings, and a fixed
//! attribute order, so that reading a document this library produced and
//! writing it again gives the same bytes.

use crate::geo::Boundary;
use crate::osm_io::error::Error;
use crate::osm_io::numbers::{dec_digits, dec_int, fixed7_text, i64_string, u64_string, fixed7_string};
use crate::{Meta, Node, Osm, Relation, RelationMember, Tag, Way};
use vstd::prelude::*;
use vstd::string::StrSliceExecFns;

verus! {

/// One character of attribute text after XML escaping: the five special
/// characters become entity references, every other character stands as
/// itself.
pub open spec fn esc_char(c: char) -> Seq<char> {
    if c == '&' {
        seq!['&', 'a', 'm', 'p', ';']
    } else if c == '<' {
        seq!['&', 'l', 't', ';']
    } else if c == '>' {
        seq!['&', 'g', 't', ';']
    } else if c == '"' {
        seq!['&', 'q', 'u', 'o', 't', ';']
    } else if c == '\'' {
        seq!['&', 'a', 'p', 'o', 's', ';']
    } else {
        seq![c]
    }
}

/// Attribute text after XML escaping.
pub open spec fn esc(s: Seq<char>) -> Seq<char>
    decreases s.len(),
{
    if s.len() == 0 {
        Seq::empty()
    } else {
        esc(s.drop_last()) + esc_char(s.last())
    }
}

/// The text of one attribute: a space, its name, `="`, the value, `"`.
pub open spec fn attr_text(name: Seq<char>, value: Seq<char>) -> Seq<char> {
    " "@ + name + "=\""@ + value + "\""@
}

/// The attributes shared by every element: the author's uid, user and
/// changeset when author information is present, then the version, which
/// defaults to one.
#[verifier::opaque]
pub open spec fn meta_attrs_text(meta: Meta) -> Seq<char> {
    let author: Seq<char> = match meta.author {
        Some(a) => attr_text("uid"@, esc(dec_digits(a.uid as nat))) + attr_text(
            "user"@,
            esc(a.user@),
        ) + attr_text("changeset"@, esc(dec_digits(a.change_set as nat))),
        None => Seq::empty(),
    };
    let version: nat = match meta.version {
        Some(v) => v as nat,
        None => 1,
    };
    author + attr_text("version"@, esc(dec_digits(version)))
}

/// The text of one tag line.
#[verifier::opaque]
pub open spec fn tag_text(t: Tag) -> Seq<char> {
    "\t\t<tag"@ + attr_text("k"@, esc(t.key@)) + attr_text("v"@, esc(t.value@)) + "/>"@ + "\n"@
}

/// The text of an element's tag lines, in order.
pub open spec fn tags_text(tags: Seq<Tag>) -> Seq<char>
    decreases tags.len(),
{
    if tags.len() == 0 {
        Seq::empty()
    } else {
        tags_text(tags.drop_last()) + tag_text(tags.last())
    }
}

/// The text of one node reference line of a way.
#[verifier::opaque]
pub open spec fn nd_text(r: i64) -> Seq<char> {
    "\t\t<nd"@ + attr_text("ref"@, esc(dec_int(r as int))) + "/>"@ + "\n"@
}

/// The text of a way's node reference lines, in order.
pub open spec fn nds_text(refs: Seq<i64>) -> Seq<char>
    decreases refs.len(),
{
    if refs.len() == 0 {
        Seq::empty()
    } else {
        nds_text(refs.drop_last()) + nd_text(refs.last())
    }
}

/// The name the emitter writes for a member's kind.
pub open spec fn member_kind_text(m: RelationMember) -> Seq<char> {
    match m {
        RelationMember::Node(_, _) => "node"@,
        RelationMember::Way(_, _) => "way"@,
        RelationMember::Relation(_, _) => "relation"@,
    }
}

/// The text of one member line.
#[verifier::opaque]
pub open spec fn member_text(m: RelationMember) -> Seq<char> {
    "\t\t<member"@ + attr_text("type"@, esc(member_kind_text(m))) + attr_text(
        "ref"@,
        esc(dec_int(m.spec_ref_id() as int)),
    ) + attr_text("role"@, esc(m.spec_role())) + "/>"@ + "\n"@
}

/// The text of a relation's member lines, in order.
pub open spec fn members_text(members: Seq<RelationMember>) -> Seq<char>
    decreases members.len(),
{
    if members.len() == 0 {
        Seq::empty()
    } else {
        members_text(members.drop_last()) + member_text(members.last())
    }
}

/// The text of a bounds line.
#[verifier::opaque]
pub open spec fn bounds_text(b: Boundary) -> Seq<char> {
    "\t<bounds"@ + attr_text("minlat"@, esc(fixed7_text(b.min.lat as int))) + attr_text(
        "minlon"@,
        esc(fixed7_text(b.min.lon as int)),
    ) + attr_text("maxlat"@, esc(fixed7_text(b.max.lat as int))) + attr_text(
        "maxlon"@,
        esc(fixed7_text(b.max.lon as int)),
    ) + "/>"@ + "\n"@
}

/// The text of a node element: a single self-closing line without tags,
/// else an open line, the tag lines and a closing line.
#[verifier::opaque]
pub open spec fn node_text(n: Node) -> Seq<char> {
    let open = "\t<node"@ + attr_text("id"@, esc(dec_int(n.id as int))) + attr_text(
        "lat"@,
        esc(fixed7_text(n.coordinate.lat as int)),
    ) + attr_text("lon"@, esc(fixed7_text(n.coordinate.lon as int))) + meta_attrs_text(n.meta);
    if n.meta.tags@.len() == 0 {
        open + "/>"@ + "\n"@
    } else {
        open + ">"@ + "\n"@ + tags_text(n.meta.tags@) + "\t</node>"@ + "\n"@
    }
}

/// The text of a way element.
#[verifier::opaque]
pub open spec fn way_text(w: Way) -> Seq<char> {
    "\t<way"@ + attr_text("id"@, esc(dec_int(w.id as int))) + meta_attrs_text(w.meta) + ">"@
        + "\n"@ + nds_text(w.refs@) + tags_text(w.meta.tags@) + "\t</way>"@ + "\n"@
}

/// The text of a relation element.
#[verifier::opaque]
pub open spec fn relation_text(r: Relation) -> Seq<char> {
    "\t<relation"@ + attr_text("id"@, esc(dec_int(r.id as int))) + meta_attrs_text(r.meta) + ">"@
        + "\n"@ + members_text(r.members@) + tags_text(r.meta.tags@) + "\t</relation>"@ + "\n"@
}

/// The XML declaration and the opening osm element.
#[verifier::opaque]
pub open spec fn start_text() -> Seq<char> {
    "<?xml version=\"1.0\" encoding=\"UTF-8\"?>"@ + "\n"@
        + "<osm version=\"0.6\" generator=\"Vadeen OSM\">"@ + "\n"@
}

/// The text of the node elements, in order.
pub open spec fn nodes_text(nodes: Seq<Node>) -> Seq<char>
    decreases nodes.len(),
{
    if nodes.len() == 0 {
        Seq::empty()
    } else {
        nodes_text(nodes.drop_last()) + node_text(nodes.last())
    }
}

/// The text of the way elements, in order.
pub open spec fn ways_text(ways: Seq<Way>) -> Seq<char>
    decreases ways.len(),
{
    if ways.len() == 0 {
        Seq::empty()
    } else {
        ways_text(ways.drop_last()) + way_text(ways.last())
    }
}

/// The text of the relation elements, in order.
pub open spec fn relations_text(relations: Seq<Relation>) -> Seq<char>
    decreases relations.len(),
{
    if relations.len() == 0 {
        Seq::empty()
    } else {
        relations_text(relations.drop_last()) + relation_text(relations.last())
    }
}

/// The text of a whole document.
pub open spec fn osm_text(osm: Osm) -> Seq<char> {
    let bounds: Seq<char> = match osm.boundary {
        Some(b) => bounds_text(b),
        None => Seq::empty(),
    };
    start_text() + bounds + nodes_text(osm.nodes@) + ways_text(osm.ways@) + relations_text(
        osm.relations@,
    ) + "</osm>"@
}

/// A writer for the osm XML format, collecting the document in memory.
pub struct XmlWriter {
    pub out: String,
}

/// Append `value` to `out` with the XML special characters escaped.
fn escape_into(out: &mut String, value: &str)
    ensures
        final(out)@ == old(out)@ + esc(value@),
{
    let n = value.unicode_len();
    let mut i: usize = 0;
    proof {
        assert(value@.take(0) =~= Seq::<char>::empty());
        assert(out@ =~= old(out)@ + esc(value@.take(0)));
    }
    while i < n
        invariant
            n == value@.len(),
            i <= n,
            out@ == old(out)@ + esc(value@.take(i as int)),
        decreases n - i,
    {
        let c = value.get_char(i);
        if c == '&' {
            out.append("&amp;");
            proof {
                reveal_strlit("&amp;");
            }
        } else if c == '<' {
            out.append("&lt;");
            proof {
                reveal_strlit("&lt;");
            }
        } else if c == '>' {
            out.append("&gt;");
            proof {
                reveal_strlit("&gt;");
            }
        } else if c == '"' {
            out.append("&quot;");
            proof {
                reveal_strlit("&quot;");
            }
        } else if c == '\'' {
            out.append("&apos;");
            proof {
                reveal_strlit("&apos;");
            }
        } else {
            let piece = value.substring_char(i, i + 1);
            out.append(piece);
            proof {
                assert(piece@ =~= seq![value@[i as int]]);
            }
        }
        i = i + 1;
        proof {
            assert(value@.take(i as int).drop_last() =~= value@.take(i as int - 1));
            assert(value@.take(i as int).last() == value@[i as int - 1]);
            assert(out@ =~= old(out)@ + esc(value@.take(i as int)));
        }
    }
    proof {
        assert(value@.take(n as int) =~= value@);
    }
}

/// Append one attribute: a space, its name, `="`, the escaped value, `"`.
fn push_attr(out: &mut String, name: &str, value: &str)
    ensures
        final(out)@ == old(out)@ + attr_text(name@, esc(value@)),
{
    out.append(" ");
    out.append(name);
    out.append("=\"");
    escape_into(out, value);
    out.append("\"");
    proof {
        assert(out@ =~= old(out)@ + attr_text(name@, esc(value@)));
    }
}

/// Append the shared meta attributes: the author attributes when present,
/// then the version, defaulting to one.
fn push_meta_attrs(out: &mut String, meta: &Meta)
    ensures
        final(out)@ == old(out)@ + meta_attrs_text(*meta),
{
    match &meta.author {
        Some(author) => {
            push_attr(out, "uid", u64_string(author.uid).as_str());
            push_attr(out, "user", author.user.as_str());
            push_attr(out, "changeset", u64_string(author.change_set).as_str());
        }
        None => {}
    }
    let version: u32 = match &meta.version {
        Some(v) => *v,
        None => 1,
    };
    push_attr(out, "version", u64_string(version as u64).as_str());
    proof {
        reveal(meta_attrs_text);
        assert(out@ =~= old(out)@ + meta_attrs_text(*meta));
    }
}

/// Append an element's tag lines.
fn push_tags(out: &mut String, tags: &Vec<Tag>)
    ensures
        final(out)@ == old(out)@ + tags_text(tags@),
{
    let n = tags.len();
    let mut i: usize = 0;
    proof {
        assert(tags@.take(0) =~= Seq::<Tag>::empty());
        assert(out@ =~= old(out)@ + tags_text(tags@.take(0)));
    }
    while i < n
        invariant
            n == tags@.len(),
            i <= n,
            out@ == old(out)@ + tags_text(tags@.take(i as int)),
        decreases n - i,
    {
        push_tag(out, &tags[i]);
        i = i + 1;
        proof {
            assert(tags@.take(i as int).drop_last() =~= tags@.take(i as int - 1));
            assert(tags@.take(i as int).last() == tags@[i as int - 1]);
            assert(out@ =~= old(out)@ + tags_text(tags@.take(i as int)));
        }
    }
    proof {
        assert(tags@.take(n as int) =~= tags@);
    }
}

/// Append one tag line.
fn push_tag(out: &mut String, tag: &Tag)
    ensures
        final(out)@ == old(out)@ + tag_text(*tag),
{
    out.append("\t\t<tag");
    push_attr(out, "k", tag.key.as_str());
    push_attr(out, "v", tag.value.as_str());
    out.append("/>");
    out.append("\n");
    proof {
        reveal(tag_text);
        assert(out@ =~= old(out)@ + tag_text(*tag));
    }
}

/// Append one node reference line of a way.
fn push_nd(out: &mut String, r: i64)
    ensures
        final(out)@ == old(out)@ + nd_text(r),
{
    out.append("\t\t<nd");
    push_attr(out, "ref", i64_string(r).as_str());
    out.append("/>");
    out.append("\n");
    proof {
        reveal(nd_text);
        assert(out@ =~= old(out)@ + nd_text(r));
    }
}

/// Append one member line.
fn push_member(out: &mut String, member: &RelationMember)
    ensures
        final(out)@ == old(out)@ + member_text(*member),
{
    let kind: &str = match member {
        RelationMember::Node(_, _) => "node",
        RelationMember::Way(_, _) => "way",
        RelationMember::Relation(_, _) => "relation",
    };
    out.append("\t\t<member");
    push_attr(out, "type", kind);
    push_attr(out, "ref", i64_string(member.ref_id()).as_str());
    push_attr(out, "role", member.role());
    out.append("/>");
    out.append("\n");
    proof {
        reveal(member_text);
        assert(out@ =~= old(out)@ + member_text(*member));
    }
}

impl XmlWriter {
    /// A writer with an empty document.
    pub fn new() -> (r: Self)
        ensures
            r.out@ == Seq::<char>::empty(),
    {
        XmlWriter { out: String::new() }
    }

    /// The document's bytes.
    pub fn into_inner(self) -> (r: Vec<u8>)
        ensures
            r@ == vstd::utf8::encode_utf8(self.out@),
    {
        self.out.as_str().as_bytes_vec()
    }

    /// The document's text.
    pub fn into_string(self) -> (r: String)
        ensures
            r@ == self.out@,
    {
        self.out
    }

    /// Write the XML declaration and the opening osm element.
    pub fn write_start(&mut self) -> (r: Result<(), Error>)
        ensures
            r is Ok,
            final(self).out@ == old(self).out@ + start_text(),
    {
        self.out.append("<?xml version=\"1.0\" encoding=\"UTF-8\"?>");
        self.out.append("\n");
        self.out.append("<osm version=\"0.6\" generator=\"Vadeen OSM\">");
        self.out.append("\n");
        proof {
            reveal(start_text);
            assert(self.out@ =~= old(self).out@ + start_text());
        }
        Ok(())
    }

    /// Write the closing osm element.
    pub fn write_end(&mut self) -> (r: Result<(), Error>)
        ensures
            r is Ok,
            final(self).out@ == old(self).out@ + "</osm>"@,
    {
        self.out.append("</osm>");
        Ok(())
    }

    /// Write the bounds line: minlat, minlon, maxlat, maxlon in degrees.
    pub fn write_bounds(&mut self, bounds: &Boundary) -> (r: Result<(), Error>)
        ensures
            r is Ok,
            final(self).out@ == old(self).out@ + bounds_text(*bounds),
    {
        self.out.append("\t<bounds");
        push_attr(&mut self.out, "minlat", fixed7_string(bounds.min.lat).as_str());
        push_attr(&mut self.out, "minlon", fixed7_string(bounds.min.lon).as_str());
        push_attr(&mut self.out, "maxlat", fixed7_string(bounds.max.lat).as_str());
        push_attr(&mut self.out, "maxlon", fixed7_string(bounds.max.lon).as_str());
        self.out.append("/>");
        self.out.append("\n");
        proof {
            reveal(bounds_text);
            assert(self.out@ =~= old(self).out@ + bounds_text(*bounds));
        }
        Ok(())
    }

    /// Write a node element: id, coordinates and meta attributes, and its
    /// tag lines when it has any.
    pub fn write_node(&mut self, node: &Node) -> (r: Result<(), Error>)
        ensures
            r is Ok,
            final(self).out@ == old(self).out@ + node_text(*node),
    {
        self.out.append("\t<node");
        push_attr(&mut self.out, "id", i64_string(node.id).as_str());
        push_attr(&mut self.out, "lat", fixed7_string(node.coordinate.lat).as_str());
        push_attr(&mut self.out, "lon", fixed7_string(node.coordinate.lon).as_str());
        push_meta_attrs(&mut self.out, &node.meta);

        if node.meta.tags.len() == 0 {
            self.out.append("/>");
            self.out.append("\n");
        } else {
            self.out.append(">");
            self.out.append("\n");
            push_tags(&mut self.out, &node.meta.tags);
            self.out.append("\t</node>");
            self.out.append("\n");
        }
        proof {
            reveal(node_text);
            assert(self.out@ =~= old(self).out@ + node_text(*node));
        }
        Ok(())
    }

    /// Write a way element: its id and meta attributes, its node reference
    /// lines, then its tag lines.
    pub fn write_way(&mut self, way: &Way) -> (r: Result<(), Error>)
        ensures
            r is Ok,
            final(self).out@ == old(self).out@ + way_text(*way),
    {
        self.out.append("\t<way");
        push_attr(&mut self.out, "id", i64_string(way.id).as_str());
        push_meta_attrs(&mut self.out, &way.meta);
        self.out.append(">");
        self.out.append("\n");

        let ghost mid = self.out@;
        let n = way.refs.len();
        let mut i: usize = 0;
        proof {
            assert(way.refs@.take(0) =~= Seq::<i64>::empty());
            assert(self.out@ =~= mid + nds_text(way.refs@.take(0)));
        }
        while i < n
            invariant
                n == way.refs@.len(),
                i <= n,
                self.out@ == mid + nds_text(way.refs@.take(i as int)),
            decreases n - i,
        {
            push_nd(&mut self.out, way.refs[i]);
            i = i + 1;
            proof {
                assert(way.refs@.take(i as int).drop_last() =~= way.refs@.take(i as int - 1));
                assert(way.refs@.take(i as int).last() == way.refs@[i as int - 1]);
                assert(self.out@ =~= mid + nds_text(way.refs@.take(i as int)));
            }
        }
        proof {
            assert(way.refs@.take(n as int) =~= way.refs@);
        }

        push_tags(&mut self.out, &way.meta.tags);
        self.out.append("\t</way>");
        self.out.append("\n");
        proof {
            reveal(way_text);
            assert(self.out@ =~= old(self).out@ + way_text(*way));
        }
        Ok(())
    }

    /// Write a relation element: its id and meta attributes, its member
    /// lines, then its tag lines. The member kind is written in full: a
    /// relation member comes out as `relation`.
    pub fn write_relation(&mut self, rel: &Relation) -> (r: Result<(), Error>)
        ensures
            r is Ok,
            final(self).out@ == old(self).out@ + relation_text(*rel),
    {
        self.out.append("\t<relation");
        push_attr(&mut self.out, "id", i64_string(rel.id).as_str());
        push_meta_attrs(&mut self.out, &rel.meta);
        self.out.append(">");
        self.out.append("\n");

        let ghost mid = self.out@;
        let n = rel.members.len();
        let mut i: usize = 0;
        proof {
            assert(rel.members@.take(0) =~= Seq::<RelationMember>::empty());
            assert(self.out@ =~= mid + members_text(rel.members@.take(0)));
        }
        while i < n
            invariant
                n == rel.members@.len(),
                i <= n,
                self.out@ == mid + members_text(rel.members@.take(i as int)),
            decreases n - i,
        {
            push_member(&mut self.out, &rel.members[i]);
            i = i + 1;
            proof {
                assert(rel.members@.take(i as int).drop_last() =~= rel.members@.take(i as int - 1));
                assert(rel.members@.take(i as int).last() == rel.members@[i as int - 1]);
                assert(self.out@ =~= mid + members_text(rel.members@.take(i as int)));
            }
        }
        proof {
            assert(rel.members@.take(n as int) =~= rel.members@);
        }

        push_tags(&mut self.out, &rel.meta.tags);
        self.out.append("\t</relation>");
        self.out.append("\n");
        proof {
            reveal(relation_text);
            assert(self.out@ =~= old(self).out@ + relation_text(*rel));
        }
        Ok(())
    }

    /// Write a whole document: the declaration and opening element, the
    /// optional bounds, every node, way and relation in order, and the
    /// closing element.
    #[verifier::rlimit(100)]
    pub fn write(&mut self, osm: &Osm) -> (r: Result<(), Error>)
        ensures
            r is Ok,
            final(self).out@ == old(self).out@ + osm_text(*osm),
    {
        let start_result = self.write_start();
        match start_result {
            Ok(()) => {}
            Err(e) => {
                return Err(e);
            },
        }

        match &osm.boundary {
            Some(boundary) => {
                let r = self.write_bounds(boundary);
                match r {
                    Ok(()) => {}
                    Err(e) => {
                        return Err(e);
                    },
                }
            }
            None => {}
        }

        let ghost mid = self.out@;
        let n = osm.nodes.len();
        let mut i: usize = 0;
        proof {
            assert(osm.nodes@.take(0) =~= Seq::<Node>::empty());
            assert(self.out@ =~= mid + nodes_text(osm.nodes@.take(0)));
        }
        while i < n
            invariant
                n == osm.nodes@.len(),
                i <= n,
                self.out@ == mid + nodes_text(osm.nodes@.take(i as int)),
            decreases n - i,
        {
            let r = self.write_node(&osm.nodes[i]);
            match r {
                Ok(()) => {}
                Err(e) => {
                    return Err(e);
                },
            }
            i = i + 1;
            proof {
                assert(osm.nodes@.take(i as int).drop_last() =~= osm.nodes@.take(i as int - 1));
                assert(osm.nodes@.take(i as int).last() == osm.nodes@[i as int - 1]);
                assert(self.out@ =~= mid + nodes_text(osm.nodes@.take(i as int)));
            }
        }
        proof {
            assert(osm.nodes@.take(n as int) =~= osm.nodes@);
        }

        let ghost mid = self.out@;
        let n = osm.ways.len();
        let mut i: usize = 0;
        proof {
            assert(osm.ways@.take(0) =~= Seq::<Way>::empty());
            assert(self.out@ =~= mid + ways_text(osm.ways@.take(0)));
        }
        while i < n
            invariant
                n == osm.ways@.len(),
                i <= n,
                self.out@ == mid + ways_text(osm.ways@.take(i as int)),
            decreases n - i,
        {
            let r = self.write_way(&osm.ways[i]);
            match r {
                Ok(()) => {}
                Err(e) => {
                    return Err(e);
                },
            }
            i = i + 1;
            proof {
                assert(osm.ways@.take(i as int).drop_last() =~= osm.ways@.take(i as int - 1));
                assert(osm.ways@.take(i as int).last() == osm.ways@[i as int - 1]);
                assert(self.out@ =~= mid + ways_text(osm.ways@.take(i as int)));
            }
        }
        proof {
            assert(osm.ways@.take(n as int) =~= osm.ways@);
        }

        let ghost mid = self.out@;
        let n = osm.relations.len();
        let mut i: usize = 0;
        proof {
            assert(osm.relations@.take(0) =~= Seq::<Relation>::empty());
            assert(self.out@ =~= mid + relations_text(osm.relations@.take(0)));
        }
        while i < n
            invariant
                n == osm.relations@.len(),
                i <= n,
                self.out@ == mid + relations_text(osm.relations@.take(i as int)),
            decreases n - i,
        {
            let r = self.write_relation(&osm.relations[i]);
            match r {
                Ok(()) => {}
                Err(e) => {
                    return Err(e);
                },
            }
            i = i + 1;
            proof {
                assert(osm.relations@.take(i as int).drop_last() =~= osm.relations@.take(
                    i as int - 1,
                ));
                assert(osm.relations@.take(i as int).last() == osm.relations@[i as int - 1]);
                assert(self.out@ =~= mid + relations_text(osm.relations@.take(i as int)));
            }
        }
        proof {
            assert(osm.relations@.take(n as int) =~= osm.relations@);
        }

        let end_result = self.write_end();
        match end_result {
            Ok(()) => {}
            Err(e) => {
                return Err(e);
            },
        }
        proof {
            assert(self.out@ =~= old(self).out@ + osm_text(*osm));
        }
        Ok(())
    }
}

} // verus!
