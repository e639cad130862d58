//! The XML codec: reading documents, attribute validation, and the
//! byte-exact emitter.

use vadeen_osm::geo::{Boundary, Coordinate};
use vadeen_osm::osm_io::error::ErrorKind;
use vadeen_osm::osm_io::xml::reader::XmlReader;
use vadeen_osm::osm_io::xml::writer::XmlWriter;
use vadeen_osm::osm_io::{create_reader, FileFormat};
use vadeen_osm::{AuthorInformation, Meta, Node, Relation, RelationMember, Tag};

fn c(lat: f64, lon: f64) -> Coordinate {
    Coordinate {
        lat: (lat * 10_000_000.0) as i32,
        lon: (lon * 10_000_000.0) as i32,
    }
}

fn tag(k: &str, v: &str) -> Tag {
    Tag::new(k, v)
}

#[test]
fn quick_xml_error() {
    let xml = r#"
            <osm>
            </wrong-element>
        "#;
    let mut reader = create_reader(xml.as_bytes().to_vec(), FileFormat::Xml);
    let error = reader.read().unwrap_err();
    assert_eq!(
        "Line 3: ill-formed document: expected `</osm>`, but `</wrong-element>` was found",
        error.describe()
    );
}

#[test]
fn read_boundary() {
    let xml = r#"<bounds minlat="58.24" minlon="15.16" maxlat="62.18" maxlon="17.34"/>"#;
    let mut reader = XmlReader::new(xml.as_bytes().to_vec());
    let osm = reader.read().unwrap();

    assert_eq!(
        osm.boundary,
        Some(Boundary {
            min: c(58.24, 15.16),
            max: c(62.18, 17.34),
            freeze: false,
        })
    );
}

#[test]
fn read_node_with_tags() {
    let xml = r#"<node id="25496583" lat="51.5173639" lon="-0.140043" version="1"
                       changeset="203496" user="80n" uid="1238" visible="true"
                       timestamp="2007-01-28T11:40:26Z">
                     <tag k="name" v="light"/>
                     <tag k="highway" v="traffic_signals"/>
                 </node>"#;
    let mut reader = XmlReader::new(xml.as_bytes().to_vec());
    let osm = reader.read().unwrap();

    assert_eq!(osm.nodes.len(), 1);
    assert_eq!(osm.ways.len(), 0);
    assert_eq!(osm.relations.len(), 0);

    assert_eq!(
        osm.nodes[0].meta.tags,
        vec![tag("name", "light"), tag("highway", "traffic_signals")]
    );
}

#[test]
fn read_node_missing_required_attributes() {
    let missing_id = r#"<node lat="51.12" lon="22.14" version="1" />"#;
    let missing_lat = r#"<node id="1" lon="22.14" version="1" />"#;
    let missing_lon = r#"<node id="1" lat="51.12" version="1" />"#;
    let data = vec![
        ("id", missing_id),
        ("lat", missing_lat),
        ("lon", missing_lon),
    ];

    validate_missing_attributes(data);
}

#[test]
fn read_node_invalid_required_attributes() {
    let invalid_id = r#"<node id="123.22" lat="51.12" lon="22.14" version="1" />"#;
    let invalid_lat = r#"<node id="1" lat="51.INVALID" lon="22.14" version="1" />"#;
    let invalid_lon = r#"<node id="1" lat="51.12" lon="INVALID.14" version="1" />"#;
    let invalid_version = r#"<node id="1" lat="51.12" lon="22.14" version="" />"#;
    let data = vec![
        ("id", "123.22", invalid_id),
        ("lat", "51.INVALID", invalid_lat),
        ("lon", "INVALID.14", invalid_lon),
        ("version", "", invalid_version),
    ];

    validate_invalid_attributes(data);
}

#[test]
fn read_way_missing_required_attributes() {
    let missing_id = r#"<way version="1"></way>"#;
    let missing_nd_ref = r#"<way id="1" version="1"><nd/></way>"#;
    let missing_tag_k = r#"<way id="1" version="1"><tag v="value"/></way>"#;
    let missing_tag_v = r#"<way id="1" version="1"><tag k="key"/></way>"#;
    let data = vec![
        ("id", missing_id),
        ("ref", missing_nd_ref),
        ("k", missing_tag_k),
        ("v", missing_tag_v),
    ];

    validate_missing_attributes(data);
}

#[test]
fn read_way_invalid_required_attributes() {
    let invalid_id = r#"<way id="INVALID" version="1"></way>"#;
    let invalid_version = r#"<way id="1" version=""></way>"#;
    let invalid_nd_ref = r#"<way id="1" version="1"><nd ref="INVALID"/></way>"#;
    let data = vec![
        ("id", "INVALID", invalid_id),
        ("version", "", invalid_version),
        ("ref", "INVALID", invalid_nd_ref),
    ];

    validate_invalid_attributes(data);
}

#[test]
fn read_relation_missing_required_attributes() {
    let missing_id = r#"<relation version="1"></relation>"#;
    let missing_mem_ref = r#"<relation id="1" version="1"><member type="way"/></relation>"#;
    let missing_mem_type = r#"<relation id="1" version="1"><member ref="22"/></relation>"#;
    let data = vec![
        ("id", missing_id),
        ("ref", missing_mem_ref),
        ("type", missing_mem_type),
    ];

    validate_missing_attributes(data);
}

#[test]
fn read_relation_invalid_required_attributes() {
    let invalid_id = r#"<relation id="INVALID" version="1"></relation>"#;
    let invalid_version = r#"<relation id="1" version="INVALID"></relation>"#;
    let invalid_mem_ref =
        r#"<relation id="1" version="1"><member type="way" ref="INVALID"/></relation>"#;
    let invalid_mem_type =
        r#"<relation id="1" version="1"><member type="INVALID" ref="2"/></relation>"#;
    let data = vec![
        ("id", "INVALID", invalid_id),
        ("version", "INVALID", invalid_version),
        ("ref", "INVALID", invalid_mem_ref),
        ("type", "INVALID", invalid_mem_type),
    ];

    validate_invalid_attributes(data);
}

fn validate_missing_attributes(data: Vec<(&str, &str)>) {
    for (field, xml) in data.iter() {
        let error = XmlReader::new(xml.as_bytes().to_vec()).read().unwrap_err();
        assert_eq!(error.line(), Some(0));
        match error.kind() {
            ErrorKind::InvalidData(s) => {
                assert_eq!(s, &format!("Required attribute '{}' missing.", field))
            }
            e => panic!("Unexpected kind {:?}", e),
        }
    }
}

fn validate_invalid_attributes(data: Vec<(&str, &str, &str)>) {
    for (field, value, xml) in data.iter() {
        let error = XmlReader::new(xml.as_bytes().to_vec()).read().unwrap_err();
        assert_eq!(error.line(), Some(0));
        match error.kind() {
            ErrorKind::InvalidData(s) => assert_eq!(
                s,
                &format!(
                    "The '{}' attribute contains invalid data '{}'.",
                    field, value
                )
            ),
            e => panic!("Unexpected kind {:?}", e),
        }
    }
}

#[test]
fn write_start() {
    let mut writer = XmlWriter::new();
    writer.write_start().unwrap();

    let xml = writer.into_inner();
    assert_eq!(
        String::from_utf8_lossy(&xml),
        "<?xml version=\"1.0\" encoding=\"UTF-8\"?>\n\
         <osm version=\"0.6\" generator=\"Vadeen OSM\">\n"
    );
}

#[test]
fn write_end() {
    let mut writer = XmlWriter::new();
    writer.write_end().unwrap();

    let xml = writer.into_inner();
    assert_eq!(String::from_utf8_lossy(&xml), "</osm>");
}

#[test]
fn write_node_with_tags() {
    let mut writer = XmlWriter::new();
    writer
        .write_node(&Node {
            id: 10,
            coordinate: c(65.12, 55.21),
            meta: Meta {
                tags: vec![
                    tag("name", "Neu Broderstorf"),
                    tag("traffic_sign", "city_limit"),
                ],
                version: Some(1),
                author: Some(AuthorInformation {
                    created: 0,
                    change_set: 1234,
                    uid: 4321,
                    user: "osm".to_owned(),
                }),
            },
        })
        .unwrap();

    let xml = writer.into_inner();
    assert_eq!(
        String::from_utf8_lossy(&xml),
        "\t<node id=\"10\" lat=\"65.12\" lon=\"55.21\" uid=\"4321\" user=\"osm\" \
         changeset=\"1234\" version=\"1\">\n\
         \t\t<tag k=\"name\" v=\"Neu Broderstorf\"/>\n\
         \t\t<tag k=\"traffic_sign\" v=\"city_limit\"/>\n\
         \t</node>\n"
    );
}

#[test]
fn write_relation() {
    let mut writer = XmlWriter::new();
    writer
        .write_relation(&Relation {
            id: 47,
            members: vec![
                RelationMember::Node(44, "".to_owned()),
                RelationMember::Way(45, "inner".to_owned()),
                RelationMember::Relation(46, "role".to_owned()),
            ],
            meta: Meta {
                tags: vec![
                    tag("highway", "unclassified"),
                    tag("name", "Pastower Straße"),
                ],
                version: Some(2),
                author: Some(AuthorInformation {
                    created: 0,
                    change_set: 12,
                    uid: 222,
                    user: "mos".to_owned(),
                }),
            },
        })
        .unwrap();

    let xml = writer.into_inner();
    assert_eq!(
        String::from_utf8_lossy(&xml),
        "\t<relation id=\"47\" uid=\"222\" user=\"mos\" changeset=\"12\" version=\"2\">\n\
         \t\t<member type=\"node\" ref=\"44\" role=\"\"/>\n\
         \t\t<member type=\"way\" ref=\"45\" role=\"inner\"/>\n\
         \t\t<member type=\"relation\" ref=\"46\" role=\"role\"/>\n\
         \t\t<tag k=\"highway\" v=\"unclassified\"/>\n\
         \t\t<tag k=\"name\" v=\"Pastower Straße\"/>\n\
         \t</relation>\n"
    );
}

#[test]
fn write_bounds() {
    let mut writer = XmlWriter::new();
    writer.write_bounds(&Boundary::default()).unwrap();

    let xml = writer.into_inner();
    assert_eq!(
        String::from_utf8_lossy(&xml),
        "\t<bounds minlat=\"-90\" minlon=\"-180\" maxlat=\"90\" maxlon=\"180\"/>\n"
    )
}

#[test]
fn xml_byte_round_trip() {
    // A document the library wrote reads back and writes again
    // byte-for-byte, for elements without author metadata.
    let mut osm = vadeen_osm::Osm::default();
    osm.add_node(Node {
        id: 1,
        coordinate: c(60.1, 17.5),
        meta: Meta {
            tags: vec![tag("name", "first")],
            version: Some(1),
            author: None,
        },
    });
    osm.add_node(Node {
        id: 2,
        coordinate: c(60.2, 17.6),
        meta: Meta {
            tags: vec![],
            version: Some(1),
            author: None,
        },
    });
    osm.add_way(vadeen_osm::Way {
        id: 3,
        refs: vec![1, 2],
        meta: Meta {
            tags: vec![tag("highway", "path")],
            version: Some(1),
            author: None,
        },
    });
    osm.add_relation(Relation {
        id: 4,
        members: vec![RelationMember::Way(3, "outer".to_owned())],
        meta: Meta {
            tags: vec![tag("type", "multipolygon")],
            version: Some(1),
            author: None,
        },
    });

    let mut writer = XmlWriter::new();
    writer.write(&osm).unwrap();
    let first = writer.into_inner();

    let mut reader = XmlReader::new(first.clone());
    let reread = reader.read().unwrap();

    let mut writer = XmlWriter::new();
    writer.write(&reread).unwrap();
    let second = writer.into_inner();

    assert_eq!(first, second);
}
