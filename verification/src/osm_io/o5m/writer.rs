//! The o5m encoder: serialises map elements into framed datasets,
//! maintaining the string reference table and the delta registers that give
//! the format its compression.

use crate::geo::{Boundary, Coordinate};
use crate::osm_io::error::Error;
use crate::osm_io::o5m::varint::{svarint_bytes, svarint_enc, uvarint_bytes, uvarint_enc};
use crate::osm_io::o5m::{
    table_after_push, table_position, Delta, DeltaState, StringReferenceTable, O5M_BOUNDING_BOX,
    O5M_EOF, O5M_HEADER, O5M_NODE, O5M_RELATION, O5M_RESET, O5M_WAY,
};
use crate::{Meta, Node, Osm, Relation, RelationMember, Tag, Way};
use vstd::prelude::*;
use vstd::string::StringSliceAdditionalSpecFns;

verus! {

/// A value a delta register may hold so that any difference of two such
/// values still fits the nine-byte signed varint encoding.
pub open spec fn in_delta_range(v: int) -> bool {
    -0x2000_0000_0000_0000 <= v < 0x2000_0000_0000_0000
}

/// The wire form of a tag: NUL-framed key and value bytes.
pub open spec fn pair_wire(key: Seq<char>, value: Seq<char>) -> Seq<u8> {
    seq![0u8] + vstd::utf8::encode_utf8(key) + seq![0u8] + vstd::utf8::encode_utf8(value)
        + seq![0u8]
}

/// The uid bytes inside a user record: the unsigned varint of the uid,
/// except that zero is written as no bytes at all, so that the record's
/// first NUL still separates the uid from the username.
pub open spec fn uid_wire(uid: nat) -> Seq<u8> {
    if uid == 0 {
        Seq::empty()
    } else {
        uvarint_enc(uid)
    }
}

/// The wire form of a user record: a NUL marker, the uid bytes, a NUL, the
/// username's bytes, a NUL.
pub open spec fn user_wire(uid: nat, user: Seq<char>) -> Seq<u8> {
    seq![0u8] + uid_wire(uid) + seq![0u8] + vstd::utf8::encode_utf8(user) + seq![0u8]
}

/// What the string reference machinery emits for wire bytes `w`: the
/// varint token of its table position where the table holds it, else the
/// bytes themselves.
pub open spec fn ref_emit(table: Seq<Seq<u8>>, w: Seq<u8>) -> Seq<u8> {
    if w.len() > crate::osm_io::o5m::MAX_STRING_REFERENCE_LENGTH {
        w
    } else {
        match table_position(table, w) {
            Some(p) => uvarint_enc((p + 1) as nat),
            None => w,
        }
    }
}

/// The table after the string reference machinery saw wire bytes `w`.
pub open spec fn ref_table_after(table: Seq<Seq<u8>>, w: Seq<u8>) -> Seq<Seq<u8>> {
    if w.len() > crate::osm_io::o5m::MAX_STRING_REFERENCE_LENGTH {
        table
    } else {
        match table_position(table, w) {
            Some(p) => table,
            None => table_after_push(table, w),
        }
    }
}

/// The byte sequence a run of way references adds: each reference as a
/// signed varint against the previous one.
pub open spec fn way_refs_wire(refs: Seq<i64>, reg: int) -> Seq<u8>
    decreases refs.len(),
{
    if refs.len() == 0 {
        Seq::empty()
    } else {
        svarint_enc(refs[0] - reg) + way_refs_wire(refs.skip(1), refs[0] as int)
    }
}

/// The encoder's abstract state: the nine delta registers and the string
/// reference table. The wire functions below thread it through an
/// encoding, so that every emitted byte is pinned.
#[verifier::ext_equal]
pub struct EncModel {
    pub id: int,
    pub time: int,
    pub lat: int,
    pub lon: int,
    pub change_set: int,
    pub way_ref: int,
    pub rel_node_ref: int,
    pub rel_way_ref: int,
    pub rel_rel_ref: int,
    pub table: Seq<Seq<u8>>,
}

/// The model of a freshly reset encoder: every register zero, the table
/// empty.
pub open spec fn fresh_model() -> EncModel {
    EncModel {
        id: 0,
        time: 0,
        lat: 0,
        lon: 0,
        change_set: 0,
        way_ref: 0,
        rel_node_ref: 0,
        rel_way_ref: 0,
        rel_rel_ref: 0,
        table: Seq::empty(),
    }
}

/// What the string reference machinery emits for wire bytes `w`, together
/// with the model afterwards.
pub open spec fn via_table(m: EncModel, w: Seq<u8>) -> (Seq<u8>, EncModel) {
    (ref_emit(m.table, w), EncModel { table: ref_table_after(m.table, w), ..m })
}

/// The bytes one tag adds, and the model afterwards.
pub open spec fn tag_emitted(t: Tag, m: EncModel) -> (Seq<u8>, EncModel) {
    via_table(m, pair_wire(t.key@, t.value@))
}

/// The bytes a run of tags adds, in order, and the model afterwards.
pub open spec fn tags_emitted(tags: Seq<Tag>, m: EncModel) -> (Seq<u8>, EncModel)
    decreases tags.len(),
{
    if tags.len() == 0 {
        (Seq::empty(), m)
    } else {
        let (first, m1) = tag_emitted(tags[0], m);
        let (rest, m2) = tags_emitted(tags.skip(1), m1);
        (first + rest, m2)
    }
}

/// The bytes an element's meta adds, and the model afterwards: the
/// version (a zero byte when absent), and with both version and author
/// present the time and change-set deltas and the user record; an
/// author-less meta runs the time register to zero.
pub open spec fn meta_emitted(meta: Meta, m: EncModel) -> (Seq<u8>, EncModel) {
    match meta.version {
        None => (seq![0u8], m),
        Some(v) => match meta.author {
            None => (
                uvarint_enc(v as nat) + svarint_enc(0 - m.time),
                EncModel { time: 0, ..m },
            ),
            Some(a) => {
                let dt = a.created - m.time;
                let dc = a.change_set - m.change_set;
                let m1 = EncModel { time: a.created as int, change_set: a.change_set as int, ..m };
                let (uw, m2) = via_table(m1, user_wire(a.uid as nat, a.user@));
                (uvarint_enc(v as nat) + svarint_enc(dt) + svarint_enc(dc) + uw, m2)
            },
        },
    }
}

/// The bytes a way's reference section adds, and the model afterwards.
pub open spec fn way_refs_emitted(refs: Seq<i64>, m: EncModel) -> (Seq<u8>, EncModel) {
    (
        way_refs_wire(refs, m.way_ref),
        EncModel {
            way_ref: if refs.len() == 0 {
                m.way_ref
            } else {
                refs.last() as int
            },
            ..m
        },
    )
}

/// The kind character a relation member carries on the wire.
pub open spec fn member_kind_char(mem: RelationMember) -> Seq<char> {
    match mem {
        RelationMember::Node(_, _) => "0"@,
        RelationMember::Way(_, _) => "1"@,
        RelationMember::Relation(_, _) => "2"@,
    }
}

/// The wire form of a relation member's single string: a NUL marker, the
/// kind character, the role, a NUL.
pub open spec fn member_wire(mem: RelationMember) -> Seq<u8> {
    seq![0u8] + vstd::utf8::encode_utf8(member_kind_char(mem)) + vstd::utf8::encode_utf8(
        mem.spec_role(),
    ) + seq![0u8]
}

/// The register a member's id delta runs against.
pub open spec fn member_reg(mem: RelationMember, m: EncModel) -> int {
    match mem {
        RelationMember::Node(_, _) => m.rel_node_ref,
        RelationMember::Way(_, _) => m.rel_way_ref,
        RelationMember::Relation(_, _) => m.rel_rel_ref,
    }
}

/// The model after a member's id is written to its register.
pub open spec fn member_reg_set(mem: RelationMember, m: EncModel) -> EncModel {
    match mem {
        RelationMember::Node(id, _) => EncModel { rel_node_ref: id as int, ..m },
        RelationMember::Way(id, _) => EncModel { rel_way_ref: id as int, ..m },
        RelationMember::Relation(id, _) => EncModel { rel_rel_ref: id as int, ..m },
    }
}

/// The bytes one relation member adds — its id delta and its single
/// string through the reference machinery — and the model afterwards.
#[verifier::opaque]
pub open spec fn member_emitted(mem: RelationMember, m: EncModel) -> (Seq<u8>, EncModel) {
    let d = mem.spec_ref_id() - member_reg(mem, m);
    let m1 = member_reg_set(mem, m);
    let (sw, m2) = via_table(m1, member_wire(mem));
    (svarint_enc(d) + sw, m2)
}

/// The bytes a relation's member section adds, in order, and the model
/// afterwards.
pub open spec fn members_emitted(members: Seq<RelationMember>, m: EncModel) -> (Seq<u8>, EncModel)
    decreases members.len(),
{
    if members.len() == 0 {
        (Seq::empty(), m)
    } else {
        let (first, m1) = member_emitted(members[0], m);
        let (rest, m2) = members_emitted(members.skip(1), m1);
        (first + rest, m2)
    }
}

/// The payload bytes of a node dataset — id delta, meta, longitude and
/// latitude deltas, tags — and the model afterwards.
#[verifier::opaque]
pub open spec fn node_emitted(node: Node, m: EncModel) -> (Seq<u8>, EncModel) {
    let d_id = node.id - m.id;
    let d_lat = node.coordinate.lat - m.lat;
    let d_lon = node.coordinate.lon - m.lon;
    let m1 = EncModel {
        id: node.id as int,
        lat: node.coordinate.lat as int,
        lon: node.coordinate.lon as int,
        ..m
    };
    let (mw, m2) = meta_emitted(node.meta, m1);
    let (tw, m3) = tags_emitted(node.meta.tags@, m2);
    (svarint_enc(d_id) + mw + svarint_enc(d_lon) + svarint_enc(d_lat) + tw, m3)
}

/// The payload bytes of a way dataset — id delta, meta, the
/// length-prefixed reference section, tags — and the model afterwards.
#[verifier::opaque]
pub open spec fn way_emitted(way: Way, m: EncModel) -> (Seq<u8>, EncModel) {
    let d_id = way.id - m.id;
    let m1 = EncModel { id: way.id as int, ..m };
    let (rw, m2) = way_refs_emitted(way.refs@, m1);
    let (mw, m3) = meta_emitted(way.meta, m2);
    let (tw, m4) = tags_emitted(way.meta.tags@, m3);
    (svarint_enc(d_id) + mw + uvarint_enc(rw.len()) + rw + tw, m4)
}

/// The payload bytes of a relation dataset — id delta, meta, the
/// length-prefixed member section, tags — and the model afterwards.
#[verifier::opaque]
pub open spec fn relation_emitted(rel: Relation, m: EncModel) -> (Seq<u8>, EncModel) {
    let d_id = rel.id - m.id;
    let m1 = EncModel { id: rel.id as int, ..m };
    let (mw, m2) = meta_emitted(rel.meta, m1);
    let (ms, m3) = members_emitted(rel.members@, m2);
    let (tw, m4) = tags_emitted(rel.meta.tags@, m3);
    (svarint_enc(d_id) + mw + uvarint_enc(ms.len()) + ms + tw, m4)
}

/// A framed dataset: its type code, the payload's length as an unsigned
/// varint, and the payload.
pub open spec fn frame(code: u8, payload: Seq<u8>) -> Seq<u8> {
    seq![code] + uvarint_enc(payload.len()) + payload
}

/// The framed bytes of the node group, and the model afterwards.
pub open spec fn nodes_emitted(nodes: Seq<Node>, m: EncModel) -> (Seq<u8>, EncModel)
    decreases nodes.len(),
{
    if nodes.len() == 0 {
        (Seq::empty(), m)
    } else {
        let (p, m1) = node_emitted(nodes[0], m);
        let (rest, m2) = nodes_emitted(nodes.skip(1), m1);
        (frame(O5M_NODE, p) + rest, m2)
    }
}

/// The framed bytes of the way group, and the model afterwards.
pub open spec fn ways_emitted(ways: Seq<Way>, m: EncModel) -> (Seq<u8>, EncModel)
    decreases ways.len(),
{
    if ways.len() == 0 {
        (Seq::empty(), m)
    } else {
        let (p, m1) = way_emitted(ways[0], m);
        let (rest, m2) = ways_emitted(ways.skip(1), m1);
        (frame(O5M_WAY, p) + rest, m2)
    }
}

/// The framed bytes of the relation group, and the model afterwards.
pub open spec fn relations_emitted(relations: Seq<Relation>, m: EncModel) -> (Seq<u8>, EncModel)
    decreases relations.len(),
{
    if relations.len() == 0 {
        (Seq::empty(), m)
    } else {
        let (p, m1) = relation_emitted(relations[0], m);
        let (rest, m2) = relations_emitted(relations.skip(1), m1);
        (frame(O5M_RELATION, p) + rest, m2)
    }
}

/// The framed bytes of a bounding box dataset: min-lon, min-lat, max-lon,
/// max-lat as signed varints.
pub open spec fn bbox_wire(b: Boundary) -> Seq<u8> {
    frame(
        O5M_BOUNDING_BOX,
        svarint_enc(b.min.lon as int) + svarint_enc(b.min.lat as int) + svarint_enc(
            b.max.lon as int,
        ) + svarint_enc(b.max.lat as int),
    )
}

/// The magic bytes that follow the header code.
pub open spec fn header_magic() -> Seq<u8> {
    seq![0x04u8, 0x6fu8, 0x35u8, 0x6du8, 0x32u8]
}

/// The whole o5m stream of a map: reset, header, the optional bounding
/// box, then the node, way and relation groups, each behind its own reset
/// over a fresh model, and the end-of-file code.
pub open spec fn osm_wire(osm: Osm) -> Seq<u8> {
    let bbox: Seq<u8> = match osm.boundary {
        Some(b) => bbox_wire(b),
        None => Seq::empty(),
    };
    seq![O5M_RESET] + seq![O5M_HEADER] + header_magic() + bbox + seq![O5M_RESET] + nodes_emitted(
        osm.nodes@,
        fresh_model(),
    ).0 + seq![O5M_RESET] + ways_emitted(osm.ways@, fresh_model()).0 + seq![O5M_RESET]
        + relations_emitted(osm.relations@, fresh_model()).0 + seq![O5M_EOF]
}

/// One more tag extends the emitted bytes by that tag's emission under
/// the model the earlier tags left.
proof fn lemma_tags_emitted_snoc(tags: Seq<Tag>, i: int, m: EncModel)
    requires
        0 <= i < tags.len(),
    ensures
        tags_emitted(tags.take(i + 1), m).0 == tags_emitted(tags.take(i), m).0 + tag_emitted(
            tags[i],
            tags_emitted(tags.take(i), m).1,
        ).0,
        tags_emitted(tags.take(i + 1), m).1 == tag_emitted(
            tags[i],
            tags_emitted(tags.take(i), m).1,
        ).1,
    decreases i,
{
    if i == 0 {
        assert(tags.take(0) =~= Seq::<Tag>::empty());
        assert(tags.take(1)[0] == tags[0]);
        assert(tags.take(1).skip(1) =~= Seq::<Tag>::empty());
        assert(tags.take(1).len() == 1);
        assert(tags_emitted(tags.take(1), m).0 == tag_emitted(tags.take(1)[0], m).0 + tags_emitted(
            tags.take(1).skip(1),
            tag_emitted(tags.take(1)[0], m).1,
        ).0);
        assert(tags_emitted(Seq::<Tag>::empty(), tag_emitted(tags[0], m).1).0
            =~= Seq::<u8>::empty());
        assert(tags_emitted(tags.take(1), m).0 =~= tag_emitted(tags[0], m).0);
    } else {
        lemma_tags_emitted_snoc(tags.skip(1), i - 1, tag_emitted(tags[0], m).1);
        assert(tags.take(i + 1)[0] == tags[0]);
        assert(tags.take(i + 1).skip(1) =~= tags.skip(1).take(i));
        assert(tags.take(i)[0] == tags[0]);
        assert(tags.take(i).skip(1) =~= tags.skip(1).take(i - 1));
        assert(tags.skip(1)[i - 1] == tags[i]);
        assert(tags_emitted(tags.take(i + 1), m).0 =~= tags_emitted(tags.take(i), m).0
            + tag_emitted(tags[i], tags_emitted(tags.take(i), m).1).0);
    }
}

/// One more member extends the emitted bytes by that member's emission
/// under the model the earlier members left.
proof fn lemma_members_emitted_snoc(members: Seq<RelationMember>, i: int, m: EncModel)
    requires
        0 <= i < members.len(),
    ensures
        members_emitted(members.take(i + 1), m).0 == members_emitted(members.take(i), m).0
            + member_emitted(members[i], members_emitted(members.take(i), m).1).0,
        members_emitted(members.take(i + 1), m).1 == member_emitted(
            members[i],
            members_emitted(members.take(i), m).1,
        ).1,
    decreases i,
{
    if i == 0 {
        assert(members.take(0) =~= Seq::<RelationMember>::empty());
        assert(members.take(1)[0] == members[0]);
        assert(members.take(1).skip(1) =~= Seq::<RelationMember>::empty());
        assert(members.take(1).len() == 1);
        assert(members_emitted(members.take(1), m).0 == member_emitted(members.take(1)[0], m).0
            + members_emitted(members.take(1).skip(1), member_emitted(members.take(1)[0], m).1).0);
        assert(members_emitted(Seq::<RelationMember>::empty(), member_emitted(members[0], m).1).0
            =~= Seq::<u8>::empty());
        assert(members_emitted(members.take(1), m).0 =~= member_emitted(members[0], m).0);
    } else {
        lemma_members_emitted_snoc(members.skip(1), i - 1, member_emitted(members[0], m).1);
        assert(members.take(i + 1)[0] == members[0]);
        assert(members.take(i + 1).skip(1) =~= members.skip(1).take(i));
        assert(members.take(i)[0] == members[0]);
        assert(members.take(i).skip(1) =~= members.skip(1).take(i - 1));
        assert(members.skip(1)[i - 1] == members[i]);
        assert(members_emitted(members.take(i + 1), m).0 =~= members_emitted(members.take(i), m).0
            + member_emitted(members[i], members_emitted(members.take(i), m).1).0);
    }
}

/// One more node extends the group's bytes by that node's frame under the
/// model the earlier nodes left.
proof fn lemma_nodes_emitted_snoc(nodes: Seq<Node>, i: int, m: EncModel)
    requires
        0 <= i < nodes.len(),
    ensures
        nodes_emitted(nodes.take(i + 1), m).0 == nodes_emitted(nodes.take(i), m).0 + frame(
            O5M_NODE,
            node_emitted(nodes[i], nodes_emitted(nodes.take(i), m).1).0,
        ),
        nodes_emitted(nodes.take(i + 1), m).1 == node_emitted(
            nodes[i],
            nodes_emitted(nodes.take(i), m).1,
        ).1,
    decreases i,
{
    if i == 0 {
        assert(nodes.take(0) =~= Seq::<Node>::empty());
        assert(nodes.take(1)[0] == nodes[0]);
        assert(nodes.take(1).skip(1) =~= Seq::<Node>::empty());
        assert(nodes.take(1).len() == 1);
        assert(nodes_emitted(nodes.take(1), m).0 == frame(
            O5M_NODE,
            node_emitted(nodes.take(1)[0], m).0,
        ) + nodes_emitted(nodes.take(1).skip(1), node_emitted(nodes.take(1)[0], m).1).0);
        assert(nodes_emitted(Seq::<Node>::empty(), node_emitted(nodes[0], m).1).0
            =~= Seq::<u8>::empty());
        assert(nodes_emitted(nodes.take(1), m).0 =~= frame(O5M_NODE, node_emitted(nodes[0], m).0));
    } else {
        lemma_nodes_emitted_snoc(nodes.skip(1), i - 1, node_emitted(nodes[0], m).1);
        assert(nodes.take(i + 1)[0] == nodes[0]);
        assert(nodes.take(i + 1).skip(1) =~= nodes.skip(1).take(i));
        assert(nodes.take(i)[0] == nodes[0]);
        assert(nodes.take(i).skip(1) =~= nodes.skip(1).take(i - 1));
        assert(nodes.skip(1)[i - 1] == nodes[i]);
        assert(nodes_emitted(nodes.take(i + 1), m).0 =~= nodes_emitted(nodes.take(i), m).0 + frame(
            O5M_NODE,
            node_emitted(nodes[i], nodes_emitted(nodes.take(i), m).1).0,
        ));
    }
}

/// One more way extends the group's bytes by that way's frame under the
/// model the earlier ways left.
proof fn lemma_ways_emitted_snoc(ways: Seq<Way>, i: int, m: EncModel)
    requires
        0 <= i < ways.len(),
    ensures
        ways_emitted(ways.take(i + 1), m).0 == ways_emitted(ways.take(i), m).0 + frame(
            O5M_WAY,
            way_emitted(ways[i], ways_emitted(ways.take(i), m).1).0,
        ),
        ways_emitted(ways.take(i + 1), m).1 == way_emitted(
            ways[i],
            ways_emitted(ways.take(i), m).1,
        ).1,
    decreases i,
{
    if i == 0 {
        assert(ways.take(0) =~= Seq::<Way>::empty());
        assert(ways.take(1)[0] == ways[0]);
        assert(ways.take(1).skip(1) =~= Seq::<Way>::empty());
        assert(ways.take(1).len() == 1);
        assert(ways_emitted(ways.take(1), m).0 == frame(
            O5M_WAY,
            way_emitted(ways.take(1)[0], m).0,
        ) + ways_emitted(ways.take(1).skip(1), way_emitted(ways.take(1)[0], m).1).0);
        assert(ways_emitted(Seq::<Way>::empty(), way_emitted(ways[0], m).1).0
            =~= Seq::<u8>::empty());
        assert(ways_emitted(ways.take(1), m).0 =~= frame(O5M_WAY, way_emitted(ways[0], m).0));
    } else {
        lemma_ways_emitted_snoc(ways.skip(1), i - 1, way_emitted(ways[0], m).1);
        assert(ways.take(i + 1)[0] == ways[0]);
        assert(ways.take(i + 1).skip(1) =~= ways.skip(1).take(i));
        assert(ways.take(i)[0] == ways[0]);
        assert(ways.take(i).skip(1) =~= ways.skip(1).take(i - 1));
        assert(ways.skip(1)[i - 1] == ways[i]);
        assert(ways_emitted(ways.take(i + 1), m).0 =~= ways_emitted(ways.take(i), m).0 + frame(
            O5M_WAY,
            way_emitted(ways[i], ways_emitted(ways.take(i), m).1).0,
        ));
    }
}

/// One more relation extends the group's bytes by that relation's frame
/// under the model the earlier relations left.
proof fn lemma_relations_emitted_snoc(relations: Seq<Relation>, i: int, m: EncModel)
    requires
        0 <= i < relations.len(),
    ensures
        relations_emitted(relations.take(i + 1), m).0 == relations_emitted(relations.take(i), m).0
            + frame(
            O5M_RELATION,
            relation_emitted(relations[i], relations_emitted(relations.take(i), m).1).0,
        ),
        relations_emitted(relations.take(i + 1), m).1 == relation_emitted(
            relations[i],
            relations_emitted(relations.take(i), m).1,
        ).1,
    decreases i,
{
    if i == 0 {
        assert(relations.take(0) =~= Seq::<Relation>::empty());
        assert(relations.take(1)[0] == relations[0]);
        assert(relations.take(1).skip(1) =~= Seq::<Relation>::empty());
        assert(relations.take(1).len() == 1);
        assert(relations_emitted(relations.take(1), m).0 == frame(
            O5M_RELATION,
            relation_emitted(relations.take(1)[0], m).0,
        ) + relations_emitted(
            relations.take(1).skip(1),
            relation_emitted(relations.take(1)[0], m).1,
        ).0);
        assert(relations_emitted(Seq::<Relation>::empty(), relation_emitted(relations[0], m).1).0
            =~= Seq::<u8>::empty());
        assert(relations_emitted(relations.take(1), m).0 =~= frame(
            O5M_RELATION,
            relation_emitted(relations[0], m).0,
        ));
    } else {
        lemma_relations_emitted_snoc(
            relations.skip(1),
            i - 1,
            relation_emitted(relations[0], m).1,
        );
        assert(relations.take(i + 1)[0] == relations[0]);
        assert(relations.take(i + 1).skip(1) =~= relations.skip(1).take(i));
        assert(relations.take(i)[0] == relations[0]);
        assert(relations.take(i).skip(1) =~= relations.skip(1).take(i - 1));
        assert(relations.skip(1)[i - 1] == relations[i]);
        assert(relations_emitted(relations.take(i + 1), m).0 =~= relations_emitted(
            relations.take(i),
            m,
        ).0 + frame(
            O5M_RELATION,
            relation_emitted(relations[i], relations_emitted(relations.take(i), m).1).0,
        ));
    }
}

/// A writer for the o5m binary format, collecting the stream in memory.
#[derive(Debug)]
pub struct O5mWriter {
    pub inner: Vec<u8>,
    pub encoder: O5mEncoder,
}

/// Encodes elements into bytes: keeps the string reference table and the
/// delta registers between elements.
#[derive(Debug)]
pub struct O5mEncoder {
    pub string_table: StringReferenceTable,
    pub delta: DeltaState,
}

impl O5mEncoder {
    /// The encoder's abstract state: its registers and its table.
    pub open spec fn model(&self) -> EncModel {
        EncModel {
            id: self.delta.reg(Delta::Id) as int,
            time: self.delta.reg(Delta::Time) as int,
            lat: self.delta.reg(Delta::Lat) as int,
            lon: self.delta.reg(Delta::Lon) as int,
            change_set: self.delta.reg(Delta::ChangeSet) as int,
            way_ref: self.delta.reg(Delta::WayRef) as int,
            rel_node_ref: self.delta.reg(Delta::RelNodeRef) as int,
            rel_way_ref: self.delta.reg(Delta::RelWayRef) as int,
            rel_rel_ref: self.delta.reg(Delta::RelRelRef) as int,
            table: self.string_table@,
        }
    }

    /// The encoder's invariant: the table within its bounds and every
    /// register inside the encodable range.
    pub open spec fn wf(&self) -> bool {
        &&& self.string_table.wf()
        &&& (forall|d: Delta| in_delta_range(#[trigger] self.delta.reg(d) as int))
    }

    /// A fresh encoder: empty table, zeroed registers.
    pub fn new() -> (r: Self)
        ensures
            r.wf(),
            r.string_table@.len() == 0,
            r.delta.all_zero(),
            r.model() == fresh_model(),
    {
        let r = O5mEncoder { string_table: StringReferenceTable::new(), delta: DeltaState::new() };
        proof {
            assert(forall|d: Delta| #[trigger] r.delta.reg(d) == 0);
            assert(r.model().table =~= Seq::<Seq<u8>>::empty());
            assert(r.model() =~= fresh_model());
        }
        r
    }

    /// Clear the string reference table and zero every register: the
    /// stream is at a resynchronisation point.
    pub fn reset(&mut self)
        ensures
            final(self).wf(),
            final(self).string_table@.len() == 0,
            final(self).delta.all_zero(),
    {
        self.string_table.clear();
        self.delta = DeltaState::new();
        proof {
            assert(forall|d: Delta| #[trigger] self.delta.reg(d) == 0);
        }
    }

    /// Encode `value` against register `d`.
    fn encode_delta(&mut self, d: Delta, value: i64) -> (r: i64)
        requires
            old(self).wf(),
            in_delta_range(value as int),
        ensures
            final(self).wf(),
            r == value - old(self).delta.reg(d),
            -0x4000_0000_0000_0000 <= r < 0x4000_0000_0000_0000,
            final(self).delta.reg(d) == value,
            final(self).string_table == old(self).string_table,
            forall|d2: Delta| d2 != d ==> #[trigger] final(self).delta.reg(d2) == old(
                self,
            ).delta.reg(d2),
    {
        proof {
            assert(in_delta_range(old(self).delta.reg(d) as int));
        }
        let r = self.delta.encode(d, value);
        proof {
            assert forall|d2: Delta| in_delta_range(#[trigger] self.delta.reg(d2) as int) by {
                if d2 != d {
                    assert(self.delta.reg(d2) == old(self).delta.reg(d2));
                }
            };
        }
        r
    }

    /// Serialise a node into `out`: id delta, meta, longitude and latitude
    /// deltas, then its tags.
    pub fn write_node(&mut self, out: &mut Vec<u8>, node: &Node) -> (r: Result<(), Error>)
        requires
            old(self).wf(),
            in_delta_range(node.id as int),
            meta_in_range(&node.meta),
        ensures
            final(self).wf(),
            r is Ok,
            final(out)@ == old(out)@ + node_emitted(*node, old(self).model()).0,
            final(self).model() == node_emitted(*node, old(self).model()).1,
    {
        let delta_id = self.encode_delta(Delta::Id, node.id);
        let delta_lat = self.encode_delta(Delta::Lat, node.coordinate.lat as i64);
        let delta_lon = self.encode_delta(Delta::Lon, node.coordinate.lon as i64);
        let ghost m1 = self.model();

        append_bytes(out, svarint_bytes(delta_id));
        self.write_meta(out, &node.meta);
        append_bytes(out, svarint_bytes(delta_lon));
        append_bytes(out, svarint_bytes(delta_lat));

        self.write_tags(out, &node.meta.tags);
        proof {
            reveal(node_emitted);
            assert(m1 =~= EncModel {
                id: node.id as int,
                lat: node.coordinate.lat as int,
                lon: node.coordinate.lon as int,
                ..old(self).model()
            });
            assert(self.model() =~= node_emitted(*node, old(self).model()).1);
            assert(out@ =~= old(out)@ + node_emitted(*node, old(self).model()).0);
        }
        Ok(())
    }

    /// Serialise a way into `out`: id delta, meta, the length-prefixed
    /// reference section, then its tags.
    pub fn write_way(&mut self, out: &mut Vec<u8>, way: &Way) -> (r: Result<(), Error>)
        requires
            old(self).wf(),
            in_delta_range(way.id as int),
            meta_in_range(&way.meta),
            forall|i: int| 0 <= i < way.refs@.len() ==> in_delta_range(#[trigger] way.refs@[i] as int),
        ensures
            final(self).wf(),
            r is Ok,
            final(out)@ == old(out)@ + way_emitted(*way, old(self).model()).0,
            final(self).model() == way_emitted(*way, old(self).model()).1,
    {
        let delta_id = self.encode_delta(Delta::Id, way.id);
        let ghost m1 = self.model();
        let mut ref_bytes: Vec<u8> = Vec::new();
        self.write_way_refs(&mut ref_bytes, &way.refs);

        append_bytes(out, svarint_bytes(delta_id));
        self.write_meta(out, &way.meta);
        append_bytes(out, uvarint_bytes(ref_bytes.len() as u64));
        let ghost rw = ref_bytes@;
        let mut ref_bytes = ref_bytes;
        out.append(&mut ref_bytes);

        self.write_tags(out, &way.meta.tags);
        proof {
            reveal(way_emitted);
            assert(m1 =~= EncModel { id: way.id as int, ..old(self).model() });
            assert(self.model() =~= way_emitted(*way, old(self).model()).1);
            assert(out@ =~= old(out)@ + way_emitted(*way, old(self).model()).0);
        }
        Ok(())
    }

    /// Serialise the reference section of a way: each reference as a
    /// signed varint against the one before it.
    fn write_way_refs(&mut self, out: &mut Vec<u8>, refs: &Vec<i64>)
        requires
            old(self).wf(),
            forall|i: int| 0 <= i < refs@.len() ==> in_delta_range(#[trigger] refs@[i] as int),
        ensures
            final(self).wf(),
            final(out)@ == old(out)@ + way_refs_emitted(refs@, old(self).model()).0,
            final(self).model() == way_refs_emitted(refs@, old(self).model()).1,
    {
        let n = refs.len();
        let mut i: usize = 0;
        while i < n
            invariant
                self.wf(),
                n == refs@.len(),
                i <= n,
                forall|k: int| 0 <= k < refs@.len() ==> in_delta_range(#[trigger] refs@[k] as int),
                out@ == old(out)@ + way_refs_wire(refs@.take(i as int), old(self).delta.reg(
                    Delta::WayRef,
                ) as int),
                i > 0 ==> self.delta.reg(Delta::WayRef) == refs@[i - 1],
                i == 0 ==> self.delta.reg(Delta::WayRef) == old(self).delta.reg(Delta::WayRef),
                self.string_table == old(self).string_table,
                forall|d2: Delta|
                    d2 != Delta::WayRef ==> #[trigger] self.delta.reg(d2) == old(self).delta.reg(
                        d2,
                    ),
            decreases n - i,
        {
            let delta = self.encode_delta(Delta::WayRef, refs[i]);
            append_bytes(out, svarint_bytes(delta));
            i = i + 1;
            proof {
                lemma_way_refs_wire_snoc(refs@, i as int, old(self).delta.reg(Delta::WayRef) as int);
            }
        }
        proof {
            assert(refs@.take(n as int) =~= refs@);
        }
    }

    /// Serialise a relation into `out`: id delta, meta, the
    /// length-prefixed member section, then its tags.
    pub fn write_relation(&mut self, out: &mut Vec<u8>, rel: &Relation) -> (r: Result<(), Error>)
        requires
            old(self).wf(),
            in_delta_range(rel.id as int),
            meta_in_range(&rel.meta),
            forall|i: int|
                0 <= i < rel.members@.len() ==> in_delta_range(
                    (#[trigger] rel.members@[i]).spec_ref_id() as int,
                ),
        ensures
            final(self).wf(),
            r is Ok,
            final(out)@ == old(out)@ + relation_emitted(*rel, old(self).model()).0,
            final(self).model() == relation_emitted(*rel, old(self).model()).1,
    {
        let delta_id = self.encode_delta(Delta::Id, rel.id);
        let ghost m1 = self.model();
        append_bytes(out, svarint_bytes(delta_id));
        self.write_meta(out, &rel.meta);

        // The member section is built after the meta so that the string
        // table sees the author's user record first, in stream order: the
        // decoder admits strings in the order it reads them.
        let mut mem_bytes: Vec<u8> = Vec::new();
        self.write_rel_members(&mut mem_bytes, &rel.members);
        append_bytes(out, uvarint_bytes(mem_bytes.len() as u64));
        let mut mem_bytes = mem_bytes;
        out.append(&mut mem_bytes);

        self.write_tags(out, &rel.meta.tags);
        proof {
            reveal(relation_emitted);
            assert(m1 =~= EncModel { id: rel.id as int, ..old(self).model() });
            assert(self.model() =~= relation_emitted(*rel, old(self).model()).1);
            assert(out@ =~= old(out)@ + relation_emitted(*rel, old(self).model()).0);
        }
        Ok(())
    }

    /// Serialise the member section of a relation: for each member its id
    /// delta against the register of its kind, then its single string (the
    /// kind byte and the role) through the reference machinery.
    fn write_rel_members(&mut self, out: &mut Vec<u8>, members: &Vec<RelationMember>)
        requires
            old(self).wf(),
            forall|i: int|
                0 <= i < members@.len() ==> in_delta_range(
                    (#[trigger] members@[i]).spec_ref_id() as int,
                ),
        ensures
            final(self).wf(),
            final(out)@ == old(out)@ + members_emitted(members@, old(self).model()).0,
            final(self).model() == members_emitted(members@, old(self).model()).1,
    {
        let n = members.len();
        let mut i: usize = 0;
        proof {
            assert(members@.take(0) =~= Seq::<RelationMember>::empty());
            assert(out@ =~= old(out)@ + members_emitted(members@.take(0), old(self).model()).0);
        }
        while i < n
            invariant
                self.wf(),
                n == members@.len(),
                i <= n,
                forall|k: int|
                    0 <= k < members@.len() ==> in_delta_range(
                        (#[trigger] members@[k]).spec_ref_id() as int,
                    ),
                out@ == old(out)@ + members_emitted(members@.take(i as int), old(self).model()).0,
                self.model() == members_emitted(members@.take(i as int), old(self).model()).1,
            decreases n - i,
        {
            let member = &members[i];
            let type_str = member_type(member);
            let role = member.role();

            let mut mem_bytes: Vec<u8> = Vec::new();
            mem_bytes.push(0x00);
            append_bytes(&mut mem_bytes, type_str.as_bytes_vec());
            append_bytes(&mut mem_bytes, role.as_bytes_vec());
            mem_bytes.push(0x00);
            proof {
                assert(mem_bytes@ =~= member_wire(members@[i as int]));
            }

            let ghost m_before = self.model();
            let delta = self.delta_rel_member(member);
            append_bytes(out, svarint_bytes(delta));
            let emitted = self.string_table.reference(mem_bytes);
            append_bytes(out, emitted);
            i = i + 1;
            proof {
                lemma_members_emitted_snoc(members@, i as int - 1, old(self).model());
                reveal(member_emitted);
                assert(self.model() =~= member_emitted(members@[i as int - 1], m_before).1);
                assert(out@ =~= old(out)@ + members_emitted(
                    members@.take(i as int),
                    old(self).model(),
                ).0);
            }
        }
        proof {
            assert(members@.take(n as int) =~= members@);
        }
    }

    /// Delta-encode a coordinate: the latitude and longitude deltas
    /// against their registers, truncated to 32 bits as the wire stores
    /// them. Both deltas fit exactly whenever they stay in the 32-bit
    /// range, which holds for any two coordinates.
    pub fn delta_coordinate(&mut self, coordinate: Coordinate) -> (r: Coordinate)
        requires
            old(self).wf(),
        ensures
            final(self).wf(),
            final(self).delta.reg(Delta::Lat) == coordinate.lat,
            final(self).delta.reg(Delta::Lon) == coordinate.lon,
            final(self).string_table == old(self).string_table,
            i32::MIN <= coordinate.lat - old(self).delta.reg(Delta::Lat) <= i32::MAX ==> r.lat
                == coordinate.lat - old(self).delta.reg(Delta::Lat),
            i32::MIN <= coordinate.lon - old(self).delta.reg(Delta::Lon) <= i32::MAX ==> r.lon
                == coordinate.lon - old(self).delta.reg(Delta::Lon),
            forall|d2: Delta|
                d2 != Delta::Lat && d2 != Delta::Lon ==> #[trigger] final(self).delta.reg(d2)
                    == old(self).delta.reg(d2),
    {
        let lat_delta = self.encode_delta(Delta::Lat, coordinate.lat as i64);
        let lon_delta = self.encode_delta(Delta::Lon, coordinate.lon as i64);
        Coordinate { lat: wrap_i32(lat_delta), lon: wrap_i32(lon_delta) }
    }

    /// The id delta of a relation member against the register of its kind.
    fn delta_rel_member(&mut self, member: &RelationMember) -> (r: i64)
        requires
            old(self).wf(),
            in_delta_range(member.spec_ref_id() as int),
        ensures
            final(self).wf(),
            -0x4000_0000_0000_0000 <= r < 0x4000_0000_0000_0000,
            r == member.spec_ref_id() - member_reg(*member, old(self).model()),
            final(self).model() == member_reg_set(*member, old(self).model()),
            final(self).string_table == old(self).string_table,
    {
        match member {
            RelationMember::Node(id, _) => {
                let r = self.encode_delta(Delta::RelNodeRef, *id);
                proof {
                    assert(self.model() =~= member_reg_set(*member, old(self).model()));
                }
                r
            },
            RelationMember::Way(id, _) => {
                let r = self.encode_delta(Delta::RelWayRef, *id);
                proof {
                    assert(self.model() =~= member_reg_set(*member, old(self).model()));
                }
                r
            },
            RelationMember::Relation(id, _) => {
                let r = self.encode_delta(Delta::RelRelRef, *id);
                proof {
                    assert(self.model() =~= member_reg_set(*member, old(self).model()));
                }
                r
            },
        }
    }

    /// Serialise an element's meta: the version (zero when absent, which
    /// also means no author), and with both version and author present the
    /// timestamp delta, the change-set delta and the user record.
    pub fn write_meta(&mut self, out: &mut Vec<u8>, meta: &Meta)
        requires
            old(self).wf(),
            meta_in_range(meta),
        ensures
            final(self).wf(),
            final(out)@ == old(out)@ + meta_emitted(*meta, old(self).model()).0,
            final(self).model() == meta_emitted(*meta, old(self).model()).1,
            final(out)@.len() > old(out)@.len(),
    {
        match &meta.version {
            Some(version) => {
                append_bytes(out, uvarint_bytes(*version as u64));
                match &meta.author {
                    Some(author) => {
                        let delta_time = self.encode_delta(Delta::Time, author.created);
                        let delta_change_set = self.encode_delta(
                            Delta::ChangeSet,
                            author.change_set as i64,
                        );
                        append_bytes(out, svarint_bytes(delta_time));
                        append_bytes(out, svarint_bytes(delta_change_set));
                        self.write_user(out, author.uid, author.user.as_str());
                        proof {
                            assert(self.model() =~= meta_emitted(*meta, old(self).model()).1);
                            assert(out@ =~= old(out)@ + meta_emitted(*meta, old(self).model()).0);
                        }
                    }
                    None => {
                        // No author: the time register is run to zero, so
                        // that the decoder resolves the time to zero and
                        // reads no author fields.
                        let delta_time = self.encode_delta(Delta::Time, 0);
                        append_bytes(out, svarint_bytes(delta_time));
                        proof {
                            assert(self.model() =~= meta_emitted(*meta, old(self).model()).1);
                            assert(out@ =~= old(out)@ + meta_emitted(*meta, old(self).model()).0);
                        }
                    }
                }
            }
            None => {
                out.push(0x00);
                proof {
                    assert(self.model() =~= meta_emitted(*meta, old(self).model()).1);
                    assert(out@ =~= old(out)@ + meta_emitted(*meta, old(self).model()).0);
                }
            }
        }
    }

    /// Serialise the tags of an element, each through the reference
    /// machinery.
    fn write_tags(&mut self, out: &mut Vec<u8>, tags: &Vec<Tag>)
        requires
            old(self).wf(),
        ensures
            final(self).wf(),
            final(self).delta == old(self).delta,
            final(out)@ == old(out)@ + tags_emitted(tags@, old(self).model()).0,
            final(self).model() == tags_emitted(tags@, old(self).model()).1,
    {
        let n = tags.len();
        let mut i: usize = 0;
        proof {
            assert(tags@.take(0) =~= Seq::<Tag>::empty());
            assert(out@ =~= old(out)@ + tags_emitted(tags@.take(0), old(self).model()).0);
        }
        while i < n
            invariant
                self.wf(),
                i <= n == tags@.len(),
                self.delta == old(self).delta,
                out@ == old(out)@ + tags_emitted(tags@.take(i as int), old(self).model()).0,
                self.model() == tags_emitted(tags@.take(i as int), old(self).model()).1,
            decreases n - i,
        {
            let tag = &tags[i];
            let ghost m_before = self.model();
            let bytes = self.string_pair_to_bytes(tag.key.as_str(), tag.value.as_str());
            append_bytes(out, bytes);
            i = i + 1;
            proof {
                lemma_tags_emitted_snoc(tags@, i as int - 1, old(self).model());
                assert(tag_emitted(tags@[i as int - 1], m_before).0 == ref_emit(
                    m_before.table,
                    pair_wire(tags@[i as int - 1].key@, tags@[i as int - 1].value@),
                ));
                assert(self.model() =~= tag_emitted(tags@[i as int - 1], m_before).1);
                assert(out@ =~= old(out)@ + tags_emitted(tags@.take(i as int), old(self).model()).0);
            }
        }
        proof {
            assert(tags@.take(n as int) =~= tags@);
        }
    }

    /// Serialise a user record through the reference machinery: NUL, the
    /// uid's varint (no bytes at all for uid zero, so the record's first
    /// NUL still ends the uid field), NUL, the username, NUL.
    pub fn write_user(&mut self, out: &mut Vec<u8>, uid: u64, username: &str)
        requires
            old(self).wf(),
            uid < 0x8000_0000_0000_0000,
        ensures
            final(self).wf(),
            final(self).delta == old(self).delta,
            final(out)@ == old(out)@ + ref_emit(old(self).string_table@, user_wire(
                uid as nat,
                username@,
            )),
            final(self).string_table@ == ref_table_after(old(self).string_table@, user_wire(
                uid as nat,
                username@,
            )),
    {
        let mut bytes: Vec<u8> = Vec::new();
        bytes.push(0);
        if uid > 0 {
            proof {
                crate::osm_io::o5m::varint::lemma_uvarint_round_trip(uid as nat);
            }
            append_bytes(&mut bytes, uvarint_bytes(uid));
        }
        bytes.push(0);
        append_bytes(&mut bytes, username.as_bytes_vec());
        bytes.push(0);
        proof {
            assert(bytes@ =~= user_wire(uid as nat, username@));
        }

        let emitted = self.string_table.reference(bytes);
        append_bytes(out, emitted);
    }

    /// Serialise a tag's key and value as a string pair through the
    /// reference machinery: the NUL-framed pair where the table does not
    /// hold it yet, else its reference token.
    pub fn string_pair_to_bytes(&mut self, key: &str, value: &str) -> (r: Vec<u8>)
        requires
            old(self).wf(),
        ensures
            final(self).wf(),
            final(self).delta == old(self).delta,
            r@ == ref_emit(old(self).string_table@, pair_wire(key@, value@)),
            final(self).string_table@ == ref_table_after(old(self).string_table@, pair_wire(
                key@,
                value@,
            )),
    {
        let mut bytes: Vec<u8> = Vec::new();
        bytes.push(0x00);
        append_bytes(&mut bytes, key.as_bytes_vec());
        bytes.push(0x00);
        append_bytes(&mut bytes, value.as_bytes_vec());
        bytes.push(0x00);
        proof {
            assert(bytes@ =~= pair_wire(key@, value@));
        }

        self.string_table.reference(bytes)
    }
}

/// Every numeric field of a meta that runs through a delta register or a
/// varint stays inside the encodable range.
pub open spec fn meta_in_range(meta: &Meta) -> bool {
    match meta.author {
        Some(a) => {
            &&& in_delta_range(a.created as int)
            &&& a.change_set < 0x2000_0000_0000_0000
            &&& a.uid < 0x8000_0000_0000_0000
        },
        None => true,
    }
}

/// Appending a way reference extends its wire bytes by one more signed
/// varint.
proof fn lemma_way_refs_wire_snoc(refs: Seq<i64>, i: int, reg0: int)
    requires
        1 <= i <= refs.len(),
    ensures
        way_refs_wire(refs.take(i), reg0) == way_refs_wire(refs.take(i - 1), reg0) + svarint_enc(
            refs[i - 1] - (if i == 1 {
                reg0
            } else {
                refs[i - 2] as int
            }),
        ),
    decreases i,
{
    if i == 1 {
        assert(refs.take(1)[0] == refs[0]);
        assert(refs.take(1).skip(1) =~= Seq::<i64>::empty());
        assert(refs.take(0) =~= Seq::<i64>::empty());
        assert(way_refs_wire(refs.take(1), reg0) == svarint_enc(refs[0] - reg0) + way_refs_wire(
            Seq::<i64>::empty(),
            refs[0] as int,
        ));
        assert(way_refs_wire(refs.take(1), reg0) =~= way_refs_wire(refs.take(0), reg0)
            + svarint_enc(refs[0] - reg0));
    } else {
        lemma_way_refs_wire_snoc(refs.skip(1), i - 1, refs[0] as int);
        assert(refs.take(i)[0] == refs[0]);
        assert(refs.take(i).skip(1) =~= refs.skip(1).take(i - 1));
        assert(refs.take(i - 1)[0] == refs[0]);
        assert(refs.take(i - 1).skip(1) =~= refs.skip(1).take(i - 2));
        assert(refs.skip(1)[i - 2] == refs[i - 1]);
        assert(i >= 3 ==> refs.skip(1)[i - 3] == refs[i - 2]);
        assert(way_refs_wire(refs.take(i), reg0) == svarint_enc(refs[0] - reg0) + way_refs_wire(
            refs.skip(1).take(i - 1),
            refs[0] as int,
        ));
        assert(way_refs_wire(refs.take(i - 1), reg0) == svarint_enc(refs[0] - reg0)
            + way_refs_wire(refs.skip(1).take(i - 2), refs[0] as int));
    }
}

/// The single-character kind that marks a relation member on the wire:
/// `"0"` a node member, `"1"` a way member, `"2"` a relation member.
pub fn member_type(member: &RelationMember) -> (r: &'static str)
    ensures
        member is Node ==> r@ == "0"@,
        member is Way ==> r@ == "1"@,
        member is Relation ==> r@ == "2"@,
    {
    match member {
        RelationMember::Node(_, _) => "0",
        RelationMember::Way(_, _) => "1",
        RelationMember::Relation(_, _) => "2",
    }
}

/// Truncate a 64-bit delta to 32 bits, as the coordinate wire fields
/// store them. Values already in range come through unchanged.
fn wrap_i32(v: i64) -> (r: i32)
    ensures
        i32::MIN <= v <= i32::MAX ==> r == v,
{
    if v >= i32::MIN as i64 && v <= i32::MAX as i64 {
        v as i32
    } else {
        #[verifier::truncate] (v as i32)
    }
}

/// Move the bytes of `tail` to the end of `out`.
fn append_bytes(out: &mut Vec<u8>, tail: Vec<u8>)
    ensures
        final(out)@ == old(out)@ + tail@,
{
    let mut tail = tail;
    out.append(&mut tail);
}

impl O5mWriter {
    /// A writer that collects the o5m stream into `inner`.
    pub fn new(inner: Vec<u8>) -> (r: Self)
        ensures
            r.encoder.wf(),
            r.inner@ == inner@,
            r.encoder.model() == fresh_model(),
    {
        O5mWriter { inner, encoder: O5mEncoder::new() }
    }

    /// The bytes written so far.
    pub fn into_inner(self) -> (r: Vec<u8>)
        ensures
            r@ == self.inner@,
    {
        self.inner
    }

    /// Write a reset byte and clear the encoder state.
    pub fn reset(&mut self) -> (r: Result<(), Error>)
        ensures
            final(self).encoder.wf(),
            r is Ok,
            final(self).inner@ == old(self).inner@ + seq![O5M_RESET],
            final(self).encoder.model() == fresh_model(),
            final(self).encoder.string_table@.len() == 0,
            final(self).encoder.delta.all_zero(),
    {
        self.inner.push(O5M_RESET);
        self.encoder.reset();
        proof {
            assert(self.inner@ =~= old(self).inner@ + seq![O5M_RESET]);
            assert(self.encoder.model().table =~= Seq::<Seq<u8>>::empty());
            assert(self.encoder.model() =~= fresh_model());
        }
        Ok(())
    }

    /// Write a bounding box dataset: its code, length and the four corner
    /// varints, min-lon, min-lat, max-lon, max-lat.
    pub fn write_bounding_box(&mut self, boundary: &Boundary) -> (r: Result<(), Error>)
        requires
            old(self).encoder.wf(),
        ensures
            final(self).encoder.wf(),
            r is Ok,
            final(self).inner@ == old(self).inner@ + bbox_wire(*boundary),
            final(self).encoder == old(self).encoder,
    {
        let mut bytes: Vec<u8> = Vec::new();
        append_bytes(&mut bytes, svarint_bytes(boundary.min.lon as i64));
        append_bytes(&mut bytes, svarint_bytes(boundary.min.lat as i64));
        append_bytes(&mut bytes, svarint_bytes(boundary.max.lon as i64));
        append_bytes(&mut bytes, svarint_bytes(boundary.max.lat as i64));

        self.inner.push(O5M_BOUNDING_BOX);
        append_bytes(&mut self.inner, uvarint_bytes(bytes.len() as u64));
        append_bytes(&mut self.inner, bytes);
        proof {
            assert(self.inner@ =~= old(self).inner@ + bbox_wire(*boundary));
        }
        Ok(())
    }

    /// Write a node dataset: its code, the payload length, the payload.
    pub fn write_node(&mut self, node: &Node) -> (r: Result<(), Error>)
        requires
            old(self).encoder.wf(),
            in_delta_range(node.id as int),
            meta_in_range(&node.meta),
        ensures
            final(self).encoder.wf(),
            r is Ok,
            final(self).inner@ == old(self).inner@ + frame(
                O5M_NODE,
                node_emitted(*node, old(self).encoder.model()).0,
            ),
            final(self).encoder.model() == node_emitted(*node, old(self).encoder.model()).1,
    {
        let mut bytes: Vec<u8> = Vec::new();
        let inner_result = self.encoder.write_node(&mut bytes, node);
        match inner_result {
            Ok(()) => {}
            Err(e) => {
                return Err(e);
            },
        }

        self.inner.push(O5M_NODE);
        append_bytes(&mut self.inner, uvarint_bytes(bytes.len() as u64));
        append_bytes(&mut self.inner, bytes);
        proof {
            assert(self.inner@ =~= old(self).inner@ + frame(
                O5M_NODE,
                node_emitted(*node, old(self).encoder.model()).0,
            ));
        }
        Ok(())
    }

    /// Write a way dataset: its code, the payload length, the payload.
    pub fn write_way(&mut self, way: &Way) -> (r: Result<(), Error>)
        requires
            old(self).encoder.wf(),
            in_delta_range(way.id as int),
            meta_in_range(&way.meta),
            forall|i: int| 0 <= i < way.refs@.len() ==> in_delta_range(#[trigger] way.refs@[i] as int),
        ensures
            final(self).encoder.wf(),
            r is Ok,
            final(self).inner@ == old(self).inner@ + frame(
                O5M_WAY,
                way_emitted(*way, old(self).encoder.model()).0,
            ),
            final(self).encoder.model() == way_emitted(*way, old(self).encoder.model()).1,
    {
        let mut bytes: Vec<u8> = Vec::new();
        let inner_result = self.encoder.write_way(&mut bytes, way);
        match inner_result {
            Ok(()) => {}
            Err(e) => {
                return Err(e);
            },
        }

        self.inner.push(O5M_WAY);
        append_bytes(&mut self.inner, uvarint_bytes(bytes.len() as u64));
        append_bytes(&mut self.inner, bytes);
        proof {
            assert(self.inner@ =~= old(self).inner@ + frame(
                O5M_WAY,
                way_emitted(*way, old(self).encoder.model()).0,
            ));
        }
        Ok(())
    }

    /// Write a relation dataset: its code, the payload length, the
    /// payload.
    pub fn write_relation(&mut self, rel: &Relation) -> (r: Result<(), Error>)
        requires
            old(self).encoder.wf(),
            in_delta_range(rel.id as int),
            meta_in_range(&rel.meta),
            forall|i: int|
                0 <= i < rel.members@.len() ==> in_delta_range(
                    (#[trigger] rel.members@[i]).spec_ref_id() as int,
                ),
        ensures
            final(self).encoder.wf(),
            r is Ok,
            final(self).inner@ == old(self).inner@ + frame(
                O5M_RELATION,
                relation_emitted(*rel, old(self).encoder.model()).0,
            ),
            final(self).encoder.model() == relation_emitted(*rel, old(self).encoder.model()).1,
    {
        let mut bytes: Vec<u8> = Vec::new();
        let inner_result = self.encoder.write_relation(&mut bytes, rel);
        match inner_result {
            Ok(()) => {}
            Err(e) => {
                return Err(e);
            },
        }

        self.inner.push(O5M_RELATION);
        append_bytes(&mut self.inner, uvarint_bytes(bytes.len() as u64));
        append_bytes(&mut self.inner, bytes);
        proof {
            assert(self.inner@ =~= old(self).inner@ + frame(
                O5M_RELATION,
                relation_emitted(*rel, old(self).encoder.model()).0,
            ));
        }
        Ok(())
    }

    /// Write a whole map: reset, header, the optional bounding box, then
    /// each group of elements behind its own reset, and the end-of-file
    /// code. Each reset clears the string table and the delta registers,
    /// which is what lets readers resynchronise at group boundaries. The
    /// output is exactly the map's wire form.
    #[verifier::rlimit(100)]
    pub fn write(&mut self, osm: &Osm) -> (r: Result<(), Error>)
        requires
            old(self).encoder.wf(),
            osm_in_range(osm),
        ensures
            final(self).encoder.wf(),
            r is Ok,
            final(self).inner@ == old(self).inner@ + osm_wire(*osm),
    {
        let r = self.reset();
        match r {
            Ok(()) => {}
            Err(e) => {
                return Err(e);
            },
        }
        self.inner.push(O5M_HEADER);
        self.inner.push(0x04);
        self.inner.push(0x6f);
        self.inner.push(0x35);
        self.inner.push(0x6d);
        self.inner.push(0x32);
        proof {
            assert(self.inner@ =~= old(self).inner@ + seq![O5M_RESET] + seq![O5M_HEADER]
                + header_magic());
        }

        match &osm.boundary {
            Some(boundary) => {
                let r = self.write_bounding_box(boundary);
                match r {
                    Ok(()) => {}
                    Err(e) => {
                        return Err(e);
                    },
                }
            }
            None => {}
        }
        let ghost with_bbox = self.inner@;
        proof {
            assert(with_bbox == old(self).inner@ + seq![O5M_RESET] + seq![O5M_HEADER]
                + header_magic() + (match osm.boundary {
                Some(b) => bbox_wire(b),
                None => Seq::<u8>::empty(),
            }));
        }

        match self.reset() {
            Ok(()) => {}
            Err(e) => {
                return Err(e);
            },
        }
        let ghost nodes_base = self.inner@;
        let n_nodes = osm.nodes.len();
        let mut i: usize = 0;
        proof {
            assert(nodes_base =~= with_bbox + seq![O5M_RESET]);
            assert(osm.nodes@.take(0) =~= Seq::<Node>::empty());
            assert(self.inner@ =~= nodes_base + nodes_emitted(osm.nodes@.take(0), fresh_model()).0);
        }
        while i < n_nodes
            invariant
                self.encoder.wf(),
                n_nodes == osm.nodes@.len(),
                i <= n_nodes,
                osm_in_range(osm),
                self.inner@ == nodes_base + nodes_emitted(osm.nodes@.take(i as int), fresh_model()).0,
                self.encoder.model() == nodes_emitted(osm.nodes@.take(i as int), fresh_model()).1,
            decreases n_nodes - i,
        {
            proof {
                assert(in_delta_range(osm.nodes@[i as int].id as int) && meta_in_range(
                    &osm.nodes@[i as int].meta,
                ));
            }
            let node = &osm.nodes[i];
            let r = self.write_node(node);
            match r {
                Ok(()) => {}
                Err(e) => {
                    return Err(e);
                },
            }
            i = i + 1;
            proof {
                lemma_nodes_emitted_snoc(osm.nodes@, i as int - 1, fresh_model());
                assert(self.inner@ =~= nodes_base + nodes_emitted(
                    osm.nodes@.take(i as int),
                    fresh_model(),
                ).0);
            }
        }
        proof {
            assert(osm.nodes@.take(n_nodes as int) =~= osm.nodes@);
        }

        match self.reset() {
            Ok(()) => {}
            Err(e) => {
                return Err(e);
            },
        }
        let ghost ways_base = self.inner@;
        let n_ways = osm.ways.len();
        let mut i: usize = 0;
        proof {
            assert(ways_base =~= nodes_base + nodes_emitted(osm.nodes@, fresh_model()).0 + seq![
                O5M_RESET,
            ]);
            assert(osm.ways@.take(0) =~= Seq::<Way>::empty());
            assert(self.inner@ =~= ways_base + ways_emitted(osm.ways@.take(0), fresh_model()).0);
        }
        while i < n_ways
            invariant
                self.encoder.wf(),
                n_ways == osm.ways@.len(),
                i <= n_ways,
                osm_in_range(osm),
                self.inner@ == ways_base + ways_emitted(osm.ways@.take(i as int), fresh_model()).0,
                self.encoder.model() == ways_emitted(osm.ways@.take(i as int), fresh_model()).1,
            decreases n_ways - i,
        {
            proof {
                assert(way_in_range(&osm.ways@[i as int]));
            }
            let way = &osm.ways[i];
            let r = self.write_way(way);
            match r {
                Ok(()) => {}
                Err(e) => {
                    return Err(e);
                },
            }
            i = i + 1;
            proof {
                lemma_ways_emitted_snoc(osm.ways@, i as int - 1, fresh_model());
                assert(self.inner@ =~= ways_base + ways_emitted(
                    osm.ways@.take(i as int),
                    fresh_model(),
                ).0);
            }
        }
        proof {
            assert(osm.ways@.take(n_ways as int) =~= osm.ways@);
        }

        match self.reset() {
            Ok(()) => {}
            Err(e) => {
                return Err(e);
            },
        }
        let ghost rels_base = self.inner@;
        let n_rels = osm.relations.len();
        let mut i: usize = 0;
        proof {
            assert(rels_base =~= ways_base + ways_emitted(osm.ways@, fresh_model()).0 + seq![
                O5M_RESET,
            ]);
            assert(osm.relations@.take(0) =~= Seq::<Relation>::empty());
            assert(self.inner@ =~= rels_base + relations_emitted(
                osm.relations@.take(0),
                fresh_model(),
            ).0);
        }
        while i < n_rels
            invariant
                self.encoder.wf(),
                n_rels == osm.relations@.len(),
                i <= n_rels,
                osm_in_range(osm),
                self.inner@ == rels_base + relations_emitted(
                    osm.relations@.take(i as int),
                    fresh_model(),
                ).0,
                self.encoder.model() == relations_emitted(
                    osm.relations@.take(i as int),
                    fresh_model(),
                ).1,
            decreases n_rels - i,
        {
            proof {
                assert(relation_in_range(&osm.relations@[i as int]));
            }
            let rel = &osm.relations[i];
            let r = self.write_relation(rel);
            match r {
                Ok(()) => {}
                Err(e) => {
                    return Err(e);
                },
            }
            i = i + 1;
            proof {
                lemma_relations_emitted_snoc(osm.relations@, i as int - 1, fresh_model());
                assert(self.inner@ =~= rels_base + relations_emitted(
                    osm.relations@.take(i as int),
                    fresh_model(),
                ).0);
            }
        }
        proof {
            assert(osm.relations@.take(n_rels as int) =~= osm.relations@);
        }

        self.inner.push(O5M_EOF);
        proof {
            assert(self.inner@ =~= old(self).inner@ + osm_wire(*osm));
        }
        Ok(())
    }
}

/// A way's numeric fields stay inside the encodable range.
pub open spec fn way_in_range(way: &Way) -> bool {
    &&& in_delta_range(way.id as int)
    &&& meta_in_range(&way.meta)
    &&& (forall|i: int| 0 <= i < way.refs@.len() ==> in_delta_range(#[trigger] way.refs@[i] as int))
}

/// A relation's numeric fields stay inside the encodable range.
pub open spec fn relation_in_range(rel: &Relation) -> bool {
    &&& in_delta_range(rel.id as int)
    &&& meta_in_range(&rel.meta)
    &&& (forall|i: int|
        0 <= i < rel.members@.len() ==> in_delta_range(
            (#[trigger] rel.members@[i]).spec_ref_id() as int,
        ))
}

/// Every id, timestamp, change set and reference in the map stays inside
/// the range the nine-byte varints can carry.
pub open spec fn osm_in_range(osm: &Osm) -> bool {
    &&& (forall|i: int|
        0 <= i < osm.nodes@.len() ==> in_delta_range((#[trigger] osm.nodes@[i]).id as int)
            && meta_in_range(&osm.nodes@[i].meta))
    &&& (forall|i: int| 0 <= i < osm.ways@.len() ==> way_in_range(#[trigger] &osm.ways@[i]))
    &&& (forall|i: int|
        0 <= i < osm.relations@.len() ==> relation_in_range(#[trigger] &osm.relations@[i]))
}

} // verus!
