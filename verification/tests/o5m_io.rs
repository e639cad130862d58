//! The o5m codec: string references, entity decoding and encoding, and
//! the error positions the decoder reports.

use vadeen_osm::geo::Coordinate;
use vadeen_osm::osm_io::o5m::reader::O5mReader;
use vadeen_osm::osm_io::o5m::writer::{O5mEncoder, O5mWriter};
use vadeen_osm::osm_io::o5m::StringReferenceTable;
use vadeen_osm::osm_io::xml::reader::XmlReader;
use vadeen_osm::{AuthorInformation, Meta, Node, Relation, RelationMember, Tag, Way};

fn c(lat: f64, lon: f64) -> Coordinate {
    Coordinate {
        lat: (lat * 10_000_000.0) as i32,
        lon: (lon * 10_000_000.0) as i32,
    }
}

fn tag(k: &str, v: &str) -> Tag {
    Tag::new(k, v)
}

#[test]
fn o5m_string_references() {
    let mut table = StringReferenceTable::new();
    assert_eq!(table.reference(vec![0x01, 0x01]), vec![0x01, 0x01]); // New
    assert_eq!(table.reference(vec![0x02, 0x02]), vec![0x02, 0x02]); // New
    assert_eq!(table.reference(vec![0x01, 0x01]), vec![0x02]); // Existing
    assert_eq!(table.reference(vec![0x03, 0x03]), vec![0x03, 0x03]); // New
    assert_eq!(table.reference(vec![0x01, 0x01]), vec![0x03]); // Existing
    assert_eq!(table.reference(vec![0x02, 0x02]), vec![0x02]); // Existing
    assert_eq!(table.reference(vec![0x03, 0x03]), vec![0x01]); // Existing

    table.clear();

    assert_eq!(table.reference(vec![0x01, 0x01]), vec![0x01, 0x01]); // New
}

#[test]
fn reader_read_node() {
    // The o5m side: a node's bytes decode to its id, author and position.
    let data: Vec<u8> = vec![
        0x21, // length of following data of this node: 33 bytes
        0xce, 0xad, 0x0f, // id: 0+125799=125799
        0x05, // version: 5
        0xe4, 0x8e, 0xa7, 0xca, 0x09, // timestamp: 2010-09-30T19:23:30Z
        0x94, 0xfe, 0xd2, 0x05, // changeset: 0+5922698=5922698
        0x00, // string pair:
        0x85, 0xe3, 0x02, 0x00, // uid: 45445
        0x55, 0x53, 0x63, 0x68, 0x61, 0x00, // user: "UScha"
        0x86, 0x87, 0xe6, 0x53, // lon: 0+8.7867843=8.7867843
        0xcc, 0xe2, 0x94, 0xfa, 0x03, // lat: 0+53.0749606=53.0749606
    ];

    let mut reader = O5mReader::new(data);
    let node = reader.read_node().unwrap();

    assert_eq!(
        node,
        Node {
            id: 125799,
            coordinate: c(53.0749606, 8.7867843),
            meta: Meta {
                tags: vec![],
                version: Some(5),
                author: Some(AuthorInformation {
                    created: 1285874610,
                    change_set: 5922698,
                    uid: 45445,
                    user: "UScha".to_string()
                }),
            }
        }
    );

    // The XML side: a node element's attributes decode the same way.
    let xml = r#"<node id="25496583" lat="51.5173639" lon="-0.140043" version="1"
                       changeset="203496" user="80n" uid="1238" visible="true"
                       timestamp="2007-01-28T11:40:26Z" />"#;
    let mut reader = XmlReader::new(xml.as_bytes().to_vec());
    let osm = reader.read().unwrap();

    assert_eq!(osm.nodes.len(), 1);
    assert_eq!(osm.ways.len(), 0);
    assert_eq!(osm.relations.len(), 0);

    assert_eq!(
        osm.nodes[0],
        Node {
            id: 25496583,
            coordinate: c(51.5173639, -0.140043),
            meta: Meta {
                tags: vec![],
                version: Some(1),
                author: Some(AuthorInformation {
                    created: 1169984426,
                    uid: 1238,
                    user: "80n".to_owned(),
                    change_set: 203496,
                }),
            }
        }
    );
}

#[test]
fn reader_read_way() {
    // The o5m side.
    let data: Vec<u8> = vec![
        0x20, // length of following data of this way: 32 bytes
        0xec, 0x9b, 0xe8, 0x03, // id: 0+3999478=3999478
        0x00, // no version and no author information
        0x07, // length of node references area: 7 bytes
        0xce, 0xb9, 0xfe, 0x13, // referenced node: 0+20958823=20958823
        0xce, 0xeb, 0x01, // referenced node: 20958823+15079=20973902
        0x00, // string pair:
        0x68, 0x69, 0x67, 0x68, 0x77, 0x61, 0x79, 0x00, // key: "highway"
        0x73, 0x65, 0x63, 0x6f, 0x6e, 0x64, 0x61, 0x72, 0x79, 0x00, // val: "secondary"
    ];

    let mut reader = O5mReader::new(data);
    let way = reader.read_way().unwrap();

    assert_eq!(
        way,
        Way {
            id: 3999478,
            refs: vec![20958823, 20973902],
            meta: Meta {
                tags: vec![tag("highway", "secondary")],
                version: None,
                author: None,
            }
        }
    );

    // The XML side.
    let xml = r#"<way id="5090250" version="1" changeset="203496" user="80n" uid="1238"
                       visible="true" timestamp="2007-01-28T11:40:26Z">
                       <nd ref="822403"/>
                       <nd ref="21533912"/>
                       <nd ref="821601"/>
                       <tag k="highway" v="residential"/>
                       <tag k="oneway" v="yes"/>
                 </way>"#;
    let mut reader = XmlReader::new(xml.as_bytes().to_vec());
    let osm = reader.read().unwrap();

    assert_eq!(osm.nodes.len(), 0);
    assert_eq!(osm.ways.len(), 1);
    assert_eq!(osm.relations.len(), 0);

    assert_eq!(
        osm.ways[0],
        Way {
            id: 5090250,
            refs: vec![822403, 21533912, 821601],
            meta: Meta {
                version: Some(1),
                tags: vec![tag("highway", "residential"), tag("oneway", "yes")],
                author: Some(AuthorInformation {
                    created: 1169984426,
                    uid: 1238,
                    user: "80n".to_owned(),
                    change_set: 203496,
                }),
            }
        }
    );
}

#[test]
fn reader_read_relation() {
    // The o5m side, whose second member role comes from the string table.
    let data: Vec<u8> = vec![
        0x28, // length of following data of this relation: 40 bytes
        0x90, 0x2e, // id: 0+2952=2952
        0x00, // no version and no author information
        0x11, // length of references section: 17 bytes
        0xf4, 0x98, 0x83, 0x0b, // id: 0+11560506=11560506
        0x00, // string pair:
        0x31, // type: way
        0x69, 0x6e, 0x6e, 0x65, 0x72, 0x00, // role: "inner"
        0xca, 0x93, 0xd3, 0x0d, // id: 11560506+14312677=25873183
        0x01, // string pair: reference 1
        0x00, // string pair:
        0x74, 0x79, 0x70, 0x65, 0x00, // key: "type"
        0x6d, 0x75, 0x6c, 0x74, 0x69, 0x70, 0x6f, 0x6c, 0x79, 0x67, 0x6f, 0x6e,
        0x00, // val: "multipolygon"
    ];

    let mut reader = O5mReader::new(data);
    let relation = reader.read_relation().unwrap();

    assert_eq!(
        relation,
        Relation {
            id: 2952,
            members: vec![
                RelationMember::Way(11560506, "inner".to_owned()),
                RelationMember::Way(25873183, "inner".to_owned()),
            ],
            meta: Meta {
                tags: vec![tag("type", "multipolygon")],
                version: None,
                author: None,
            }
        }
    );

    // The XML side, with all three member kinds.
    let xml = r#"<relation id="56688" version="28" changeset="203496" user="80n" uid="1238"
                       visible="true" timestamp="2009-02-20T19:40:26Z">
                     <member type="node" ref="821601"/>
                     <member type="way" ref="821602" role=""/>
                     <member type="rel" ref="821603" role="outer"/>
                     <tag k="route" v="bus"/>
                     <tag k="ref" v="123"/>
                 </relation>"#;
    let mut reader = XmlReader::new(xml.as_bytes().to_vec());
    let osm = reader.read().unwrap();

    assert_eq!(osm.nodes.len(), 0);
    assert_eq!(osm.ways.len(), 0);
    assert_eq!(osm.relations.len(), 1);

    assert_eq!(
        osm.relations[0],
        Relation {
            id: 56688,
            members: vec![
                RelationMember::Node(821601, "".to_owned()),
                RelationMember::Way(821602, "".to_owned()),
                RelationMember::Relation(821603, "outer".to_owned()),
            ],
            meta: Meta {
                version: Some(28),
                tags: vec![tag("route", "bus"), tag("ref", "123")],
                author: Some(AuthorInformation {
                    created: 1235158826,
                    uid: 1238,
                    user: "80n".to_owned(),
                    change_set: 203496,
                }),
            }
        }
    );
}

#[test]
fn invalid_relation_member_string() {
    let data: Vec<u8> = vec![
        0x12, // relation
        0x28, // length of following data of this relation: 40 bytes
        0x90, 0x2e, // id: 0+2952=2952
        0x00, // no version and no author information
        0x11, // length of references section: 17 bytes
        0xf4, 0x98, 0x83, 0x0b, // id: 0+11560506=11560506
        0x00, 0xFF, 0x00, // Invalid string pair member ref.
        0x00, 0x00, 0x00, 0x00, 0x00, 0x00, 0x00,
    ];

    let mut reader = O5mReader::new(data);
    let error = reader.read().unwrap_err();
    assert_eq!(
        error.describe(),
        "Ending at byte 13: Corrupt relation member reference data."
    );
}

#[test]
fn invalid_relation_member_type() {
    let data: Vec<u8> = vec![
        0x12, // relation
        0x28, // length of following data of this relation: 40 bytes
        0x90, 0x2e, // id: 0+2952=2952
        0x00, // no version and no author information
        0x11, // length of references section: 17 bytes
        0xf4, 0x98, 0x83, 0x0b, // id: 0+11560506=11560506
        0x00, // String pair
        0x35, // Invalid type: 5
        0x69, 0x6e, 0x6e, 0x65, 0x72, 0x00, // role: "inner"
        0x00, 0x00, 0x00, 0x00, 0x00,
    ];

    let mut reader = O5mReader::new(data);
    let error = reader.read().unwrap_err();
    assert_eq!(
        error.describe(),
        "Ending at byte 18: Invalid relation member type '5'."
    );
}

#[test]
fn never_ending_varint() {
    let data: Vec<u8> = vec![
        0x12, // relation
        0xFF, 0xFF, 0xFF, 0xFF, 0xFF, 0xFF, 0xFF, 0xFF, 0xFF, 0xFF, 0xFF, 0xFF, 0xFF, 0xFF,
        0xFF, 0xFF, 0xFF, 0xFF, 0xFF, 0xFF, 0xFF, 0xFF, 0xFF, 0xFF,
    ];

    let mut reader = O5mReader::new(data);
    let error = reader.read().unwrap_err();
    assert_eq!(
        error.describe(),
        "Ending at byte 10: Varint overflow, read 9 bytes."
    );
}

#[test]
fn invalid_string_reference() {
    let data: Vec<u8> = vec![
        0x12, // relation
        0x28, // length of following data of this relation: 40 bytes
        0x90, 0x2e, // id: 0+2952=2952
        0x00, // no version and no author information
        0x11, // length of references section: 17 bytes
        0xf4, 0x98, 0x83, 0x0b, // id: 0+11560506=11560506
        0x03, // Invalid string reference
        0x00, 0x00, 0x00, 0x00, 0x00, 0x00, 0x00,
    ];

    let mut reader = O5mReader::new(data);
    let error = reader.read().unwrap_err();
    assert_eq!(
        error.describe(),
        "Ending at byte 11: String reference '3' not found in table with size '0'."
    );
}

#[test]
fn unexpected_eof() {
    let data: Vec<u8> = vec![
        0x12, // relation
             // No data
    ];

    let mut reader = O5mReader::new(data);
    let error = reader.read().unwrap_err();
    assert_eq!(error.describe(), "Unexpected end of file.");
}

#[test]
fn string_pair_bytes() {
    let mut encoder = O5mEncoder::new();
    let bytes = encoder.string_pair_to_bytes("oneway", "yes");
    let expected: Vec<u8> = vec![
        0x00, 0x6f, 0x6e, 0x65, 0x77, 0x61, 0x79, 0x00, 0x79, 0x65, 0x73, 0x00,
    ];
    assert_eq!(bytes, expected);
}

#[test]
fn writer_string_references() {
    let mut references = O5mEncoder::new();
    assert_eq!(
        references.string_pair_to_bytes("oneway", "yes"),
        vec![0x00, 0x6f, 0x6e, 0x65, 0x77, 0x61, 0x79, 0x00, 0x79, 0x65, 0x73, 0x00]
    );
    assert_eq!(
        references.string_pair_to_bytes("atm", "no"),
        vec![0x00, 0x61, 0x74, 0x6d, 0x00, 0x6e, 0x6f, 0x00]
    );
    assert_eq!(references.string_pair_to_bytes("oneway", "yes"), vec![0x02]);

    let mut user = Vec::new();
    references.write_user(&mut user, 1020, "John");
    assert_eq!(
        user,
        vec![0x00, 0xfc, 0x07, 0x00, 0x4a, 0x6f, 0x68, 0x6e, 0x00]
    );
    assert_eq!(references.string_pair_to_bytes("atm", "no"), vec![0x02]);
    assert_eq!(references.string_pair_to_bytes("oneway", "yes"), vec![0x03]);

    let mut user = Vec::new();
    references.write_user(&mut user, 1020, "John");
    assert_eq!(user, vec![0x01]);
}

#[test]
fn writer_write_node() {
    // The o5m side.
    let expected: Vec<u8> = vec![
        0x10, // Node type
        0x26, // Length
        0x80, 0x01, // Id, delta
        0x01, // Version
        0xe4, 0x8e, 0xa7, 0xca, 0x09, // Timestamp
        0x94, 0xfe, 0xd2, 0x05, // Changeset
        0x00, 0x85, 0xe3, 0x02, 0x00, // Uid
        0x55, 0x53, 0x63, 0x68, 0x61, 0x00, // User
        0x08, // Lon, delta
        0x81, 0x01, // Lat, delta
        // oneway=yes
        0x00, 0x6F, 0x6E, 0x65, 0x77, 0x61, 0x79, 0x00, 0x79, 0x65, 0x73, 0x00,
    ];

    let node = Node {
        id: 64,
        coordinate: Coordinate { lat: -65, lon: 4 },
        meta: Meta {
            tags: vec![tag("oneway", "yes")],
            version: Some(1),
            author: Some(AuthorInformation {
                created: 1285874610,
                change_set: 5922698,
                uid: 45445,
                user: "UScha".to_string(),
            }),
        },
    };

    let mut writer = O5mWriter::new(Vec::new());
    writer.write_node(&node).unwrap();
    assert_eq!(writer.into_inner(), expected);

    // The XML side.
    let mut writer = vadeen_osm::osm_io::xml::writer::XmlWriter::new();
    writer
        .write_node(&Node {
            id: 10,
            coordinate: c(65.12, 55.21),
            meta: Meta {
                tags: vec![],
                version: None,
                author: Some(AuthorInformation {
                    created: 0,
                    change_set: 1234,
                    uid: 4321,
                    user: "osm".to_owned(),
                }),
            },
        })
        .unwrap();

    let xml = writer.into_inner();
    assert_eq!(
        String::from_utf8_lossy(&xml),
        "\t<node id=\"10\" lat=\"65.12\" lon=\"55.21\" uid=\"4321\" user=\"osm\" \
         changeset=\"1234\" version=\"1\"/>\n"
    );
}

#[test]
fn writer_write_way() {
    // The o5m side.
    let expected: Vec<u8> = vec![
        0x11, // Way type
        0x1B, // Length
        0x80, 0x01, // Id, delta
        0x01, // Version
        0x00, // Timestamp
        0x03, // Length of ref section
        0x80, 0x01, // Ref1
        0x02, // Ref2
        // highway=secondary
        0x00, 0x68, 0x69, 0x67, 0x68, 0x77, 0x61, 0x79, 0x00, 0x73, 0x65, 0x63, 0x6f, 0x6e,
        0x64, 0x61, 0x72, 0x79, 0x00,
    ];

    let way = Way {
        id: 64,
        refs: vec![64, 65],
        meta: Meta {
            tags: vec![tag("highway", "secondary")],
            version: Some(1),
            author: None,
        },
    };

    let mut writer = O5mWriter::new(Vec::new());
    writer.write_way(&way).unwrap();
    assert_eq!(writer.into_inner(), expected);

    // The XML side.
    let mut writer = vadeen_osm::osm_io::xml::writer::XmlWriter::new();
    writer
        .write_way(&Way {
            id: 47,
            refs: vec![44, 45, 46],
            meta: Meta {
                tags: vec![
                    tag("highway", "unclassified"),
                    tag("name", "Pastower Straße"),
                ],
                version: Some(2),
                author: Some(AuthorInformation {
                    created: 0,
                    change_set: 12,
                    uid: 222,
                    user: "mos".to_owned(),
                }),
            },
        })
        .unwrap();

    let xml = writer.into_inner();
    assert_eq!(
        String::from_utf8_lossy(&xml),
        "\t<way id=\"47\" uid=\"222\" user=\"mos\" changeset=\"12\" version=\"2\">\n\
         \t\t<nd ref=\"44\"/>\n\
         \t\t<nd ref=\"45\"/>\n\
         \t\t<nd ref=\"46\"/>\n\
         \t\t<tag k=\"highway\" v=\"unclassified\"/>\n\
         \t\t<tag k=\"name\" v=\"Pastower Straße\"/>\n\
         \t</way>\n"
    );
}

#[test]
fn relation_bytes() {
    let expected: Vec<u8> = vec![
        0x12, // Relation type
        0x2B, // Length
        0x80, 0x01, // Id, delta
        0x00, // Version
        0x14, // Length of ref section
        0x08, // Ref id, delta
        0x00, 0x31, // Way
        0x6F, 0x75, 0x74, 0x65, 0x72, 0x00, // Outer
        0x08, // Ref id, delta
        0x00, 0x31, // Way
        0x69, 0x6e, 0x6e, 0x65, 0x72, 0x00, // Inner
        0x08, // Ref id, delta
        0x01, // String ref to way inner.
        // type=multipolygon
        0x00, 0x74, 0x79, 0x70, 0x65, 0x00, 0x6D, 0x75, 0x6C, 0x74, 0x69, 0x70, 0x6F, 0x6C,
        0x79, 0x67, 0x6F, 0x6E, 0x00,
    ];
    let relation = Relation {
        id: 64,
        members: vec![
            RelationMember::Way(4, "outer".to_owned()),
            RelationMember::Way(8, "inner".to_owned()),
            RelationMember::Way(12, "inner".to_owned()),
        ],
        meta: Meta {
            tags: vec![tag("type", "multipolygon")],
            version: None,
            author: None,
        },
    };

    let mut writer = O5mWriter::new(Vec::new());
    writer.write_relation(&relation).unwrap();
    assert_eq!(writer.into_inner(), expected);
}

#[test]
fn coordinate_delta() {
    let mut encoder = O5mEncoder::new();
    assert_eq!(
        encoder.delta_coordinate(Coordinate { lat: 1, lon: 10 }),
        Coordinate { lat: 1, lon: 10 }
    );
    assert_eq!(
        encoder.delta_coordinate(Coordinate { lat: 2, lon: 11 }),
        Coordinate { lat: 1, lon: 1 }
    );
}
