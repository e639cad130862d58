//! The map model: inserts, the id watermark, the coordinate index, the
//! builder, and the codec round trips over whole maps.

use vadeen_osm::geo::{Boundary, Coordinate};
use vadeen_osm::osm_io::o5m::reader::O5mReader;
use vadeen_osm::osm_io::o5m::writer::O5mWriter;
use vadeen_osm::{AuthorInformation, Meta, Node, Osm, OsmBuilder, Relation, RelationMember, Tag, Way};

fn c(lat: f64, lon: f64) -> Coordinate {
    Coordinate {
        lat: (lat * 10_000_000.0) as i32,
        lon: (lon * 10_000_000.0) as i32,
    }
}

fn tag(k: &str, v: &str) -> Tag {
    Tag::new(k, v)
}

#[test]
fn osm_add_node() {
    let mut osm = Osm::default();
    assert_eq!(osm.max_id(), 0);

    osm.add_node(Node {
        id: 10,
        coordinate: c(65.0, 55.0),
        meta: Meta::default(),
    });

    let expected_boundary = Boundary {
        min: c(65.0, 55.0),
        max: c(65.0, 55.0),
        freeze: false,
    };
    assert_eq!(osm.max_id(), 10);
    assert_eq!(osm.boundary, Some(expected_boundary));
}

#[test]
fn max_id_over_insert_sequence() {
    // The id watermark is the maximum over every inserted id, and the
    // coordinate index resolves each inserted coordinate.
    let mut osm = Osm::default();
    osm.add_node(Node { id: 7, coordinate: c(1.0, 1.0), meta: Meta::default() });
    osm.add_node(Node { id: 3, coordinate: c(2.0, 2.0), meta: Meta::default() });
    osm.add_way(Way { id: 12, refs: vec![7, 3], meta: Meta::default() });
    osm.add_relation(Relation { id: 5, members: vec![], meta: Meta::default() });
    assert_eq!(osm.max_id(), 12);
    assert_eq!(osm.find_node_id(c(1.0, 1.0)), Some(7));
    assert_eq!(osm.find_node_id(c(2.0, 2.0)), Some(3));
    assert_eq!(osm.find_node_id(c(3.0, 3.0)), None);

    // On a coordinate collision the last writer wins.
    osm.add_node(Node { id: 20, coordinate: c(1.0, 1.0), meta: Meta::default() });
    assert_eq!(osm.find_node_id(c(1.0, 1.0)), Some(20));
    assert_eq!(osm.max_id(), 20);
}

#[test]
fn builder_point_line_polygon() {
    let mut builder = OsmBuilder::default();
    builder.add_point(c(2.0, 2.0), vec![tag("power", "tower")]);
    builder.add_polyline(vec![c(2.0, 2.0), c(4.0, 5.0)], vec![tag("power", "line")]);
    builder.add_polygon(
        vec![vec![c(1.0, 1.0), c(10.0, 10.0), c(5.0, 5.0), c(1.0, 1.0)]],
        vec![tag("natural", "water")],
    );

    let osm = builder.build();
    assert_eq!(osm.nodes.len(), 5);
    assert_eq!(osm.ways.len(), 2);
    assert_eq!(osm.relations.len(), 0);
    assert_eq!(
        osm.boundary,
        Some(Boundary { min: c(1.0, 1.0), max: c(10.0, 10.0), freeze: false })
    );
}

#[test]
fn builder_multipolygon() {
    // Several rings become one way per ring plus a multipolygon relation
    // with the first ring outer and the rest inner.
    let mut builder = OsmBuilder::default();
    builder.add_polygon(
        vec![
            vec![c(1.0, 1.0), c(9.0, 9.0), c(1.0, 9.0), c(1.0, 1.0)],
            vec![c(3.0, 3.0), c(4.0, 4.0), c(3.0, 4.0), c(3.0, 3.0)],
        ],
        vec![tag("natural", "water")],
    );
    let osm = builder.build();
    assert_eq!(osm.ways.len(), 2);
    assert_eq!(osm.relations.len(), 1);
    let relation = &osm.relations[0];
    assert_eq!(relation.members.len(), 2);
    assert_eq!(relation.members[0], RelationMember::Way(osm.ways[1].id, "inner".to_owned()));
    assert_eq!(relation.members[1], RelationMember::Way(osm.ways[0].id, "outer".to_owned()));
    assert_eq!(
        relation.meta.tags.last(),
        Some(&tag("type", "multipolygon"))
    );
}

#[test]
fn builder_reuses_node_at_coordinate() {
    let mut builder = OsmBuilder::default();
    builder.add_point(c(2.0, 2.0), vec![]);
    builder.add_polyline(vec![c(2.0, 2.0), c(3.0, 3.0)], vec![]);
    let osm = builder.build();
    // The shared coordinate was not duplicated.
    assert_eq!(osm.nodes.len(), 2);
    assert_eq!(osm.ways.len(), 1);
    assert_eq!(osm.ways[0].refs[0], osm.nodes[0].id);
}

fn sample_map() -> Osm {
    let mut osm = Osm::default();
    osm.add_node(Node {
        id: 1,
        coordinate: c(60.67505, 17.13625),
        meta: Meta {
            tags: vec![tag("highway", "crossing")],
            version: Some(3),
            author: Some(AuthorInformation {
                created: 1295564363,
                change_set: 7035827,
                uid: 12140,
                user: "someone".to_owned(),
            }),
        },
    });
    osm.add_node(Node {
        id: 2,
        coordinate: c(60.67631, 17.13898),
        meta: Meta { tags: vec![], version: Some(1), author: None },
    });
    osm.add_way(Way {
        id: 3,
        refs: vec![1, 2],
        meta: Meta {
            tags: vec![tag("highway", "residential"), tag("oneway", "yes")],
            version: Some(2),
            author: None,
        },
    });
    osm.add_relation(Relation {
        id: 4,
        members: vec![
            RelationMember::Way(3, "outer".to_owned()),
            RelationMember::Node(1, "stop".to_owned()),
            RelationMember::Relation(9, "child".to_owned()),
        ],
        meta: Meta {
            tags: vec![tag("type", "multipolygon")],
            version: Some(1),
            author: Some(AuthorInformation {
                created: 1333869214,
                change_set: 11221181,
                uid: 113813,
                user: "someone else".to_owned(),
            }),
        },
    });
    osm
}

#[test]
fn three_records() {
    // Decoding a binary encoding of a built map gives the map back; only
    // the boundary's freeze flag differs, as the decoder records declared
    // bounds verbatim.
    let osm = sample_map();

    let mut writer = O5mWriter::new(Vec::new());
    writer.write(&osm).unwrap();
    let bytes = writer.into_inner();

    let mut reader = O5mReader::new(bytes);
    let reread = reader.read().unwrap();

    assert_eq!(reread.nodes, osm.nodes);
    assert_eq!(reread.ways, osm.ways);
    assert_eq!(reread.relations, osm.relations);
    let expected = osm.boundary.clone().map(|mut b| {
        b.freeze = true;
        b
    });
    assert_eq!(reread.boundary, expected);
    assert_eq!(reread.max_id(), osm.max_id());
}

#[test]
fn o5m_byte_round_trip() {
    // A file the library wrote decodes and encodes again byte-for-byte.
    let osm = sample_map();

    let mut writer = O5mWriter::new(Vec::new());
    writer.write(&osm).unwrap();
    let first = writer.into_inner();

    let mut reader = O5mReader::new(first.clone());
    let reread = reader.read().unwrap();

    let mut writer = O5mWriter::new(Vec::new());
    writer.write(&reread).unwrap();
    let second = writer.into_inner();

    assert_eq!(first, second);
}

#[test]
fn string_table_eviction_keeps_bound() {
    // The table holds at most fifteen thousand entries: after more
    // insertions than that, the oldest positions have been evicted and the
    // newest entry stands at the front.
    let mut table = vadeen_osm::osm_io::o5m::StringReferenceTable::new();
    for i in 0..15_001u32 {
        let bytes = i.to_be_bytes().to_vec();
        table.push(&bytes);
    }
    // The newest entry resolves at position one.
    let front = table.get(1).unwrap().clone();
    assert_eq!(front, 15_000u32.to_be_bytes().to_vec());
    // Position fifteen thousand resolves; the table cannot be any larger.
    assert!(table.get(15_000).is_ok());
    assert!(table.get(15_001).is_err());
}

#[test]
fn long_strings_travel_literally() {
    // A byte string over the length bound is never admitted and never
    // referenced: asking twice returns the literal bytes twice.
    let mut table = vadeen_osm::osm_io::o5m::StringReferenceTable::new();
    let long = vec![7u8; 251];
    assert_eq!(table.reference(long.clone()), long);
    assert_eq!(table.reference(long.clone()), long);
    assert!(table.get(1).is_err());
}

#[test]
fn empty_way_round_trips() {
    // A way without references writes a zero-length reference section,
    // which decodes back to no references.
    let mut osm = Osm::default();
    osm.add_way(Way {
        id: 8,
        refs: vec![],
        meta: Meta {
            tags: vec![tag("area", "yes")],
            version: Some(1),
            author: None,
        },
    });

    let mut writer = O5mWriter::new(Vec::new());
    writer.write(&osm).unwrap();
    let bytes = writer.into_inner();

    let mut reader = O5mReader::new(bytes);
    let reread = reader.read().unwrap();
    assert_eq!(reread.ways, osm.ways);
}
