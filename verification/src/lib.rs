//! An OpenStreetMap library: an in-memory map model together with codecs for
//! the textual `osm` (XML) form and the binary delta-encoded `o5m` form.
//!
//! The [`Osm`] struct is an abstract representation of an OSM map, built by
//! adding nodes, ways and relations. [`OsmBuilder`] builds maps from plain
//! geometry (points, polylines, polygons). The [`osm_io`] module holds the
//! codecs, and [`geo`] the geographic primitives.

use vstd::prelude::*;

mod element;
pub mod geo;
pub mod osm_io;

pub use element::{AuthorInformation, Meta, Node, Relation, RelationMember, Tag, Way};

use crate::geo::{Boundary, Coordinate};

verus! {

/// The id the coordinate index resolves `c` to: the id of the node at `c`
/// that was inserted last, or `None` where no node stands at `c`.
pub open spec fn index_lookup(entries: Seq<(Coordinate, i64)>, c: Coordinate) -> Option<i64>
    decreases entries.len(),
{
    if entries.len() == 0 {
        None
    } else if entries[entries.len() - 1].0 == c {
        Some(entries[entries.len() - 1].1)
    } else {
        index_lookup(entries.drop_last(), c)
    }
}

/// Abstract representation of an OSM map: an optional boundary, the three
/// element sequences, the largest id ever inserted, and a coordinate-to-id
/// index over the nodes.
#[derive(Debug)]
pub struct Osm {
    pub boundary: Option<Boundary>,
    pub nodes: Vec<Node>,
    pub ways: Vec<Way>,
    pub relations: Vec<Relation>,
    pub max_id: i64,
    pub node_id_index: Vec<(Coordinate, i64)>,
}

impl Osm {
    /// The largest id ever inserted, zero for a fresh map.
    pub open spec fn spec_max_id(&self) -> i64 {
        self.max_id
    }

    /// The coordinate index entries, in insertion order.
    pub open spec fn spec_index(&self) -> Seq<(Coordinate, i64)> {
        self.node_id_index@
    }

    /// Index entry `k` names an inserted node: its coordinate and id.
    pub open spec fn index_entry_ok(&self, k: int) -> bool {
        exists|i: int|
            0 <= i < self.nodes@.len() && self.spec_index()[k] == (
            self.nodes@[i].coordinate,
            self.nodes@[i].id,
            )
    }

    /// The id watermark is attained: it is zero, or some contained
    /// element carries it. Together with the dominance clauses of [`Osm::wf`]
    /// this pins `max_id` as the maximum over every inserted id.
    pub open spec fn max_id_attained(&self) -> bool {
        ||| self.spec_max_id() == 0
        ||| exists|i: int|
            0 <= i < self.nodes@.len() && (#[trigger] self.nodes@[i]).id == self.spec_max_id()
        ||| exists|i: int|
            0 <= i < self.ways@.len() && (#[trigger] self.ways@[i]).id == self.spec_max_id()
        ||| exists|i: int|
            0 <= i < self.relations@.len() && (#[trigger] self.relations@[i]).id
                == self.spec_max_id()
    }

    /// The map's invariants: `max_id` dominates every contained id and is
    /// attained by one of them (or zero), every node is indexed under its
    /// coordinate, every index entry names an inserted node, and an
    /// unfrozen boundary contains every node.
    pub open spec fn wf(&self) -> bool {
        &&& self.spec_max_id() >= 0
        &&& self.max_id_attained()
        &&& (forall|i: int| 0 <= i < self.nodes@.len() ==> #[trigger] self.nodes@[i].id <= self.spec_max_id())
        &&& (forall|i: int| 0 <= i < self.ways@.len() ==> #[trigger] self.ways@[i].id <= self.spec_max_id())
        &&& (forall|i: int|
            0 <= i < self.relations@.len() ==> #[trigger] self.relations@[i].id <= self.spec_max_id())
        &&& (forall|i: int|
            0 <= i < self.nodes@.len() ==> index_lookup(
                self.spec_index(),
                #[trigger] self.nodes@[i].coordinate,
            ) is Some)
        &&& (forall|k: int| 0 <= k < self.spec_index().len() ==> #[trigger] self.index_entry_ok(k))
        &&& (match self.boundary {
            Some(b) => !b.freeze ==> forall|i: int|
                0 <= i < self.nodes@.len() ==> b.spec_contains(
                    #[trigger] self.nodes@[i].coordinate,
                ),
            None => true,
        })
    }

    /// The largest id ever inserted.
    pub fn max_id(&self) -> (r: i64)
        ensures
            r == self.spec_max_id(),
    {
        self.max_id
    }

    /// Add a node to the map. An unfrozen boundary is expanded to include
    /// the node, `max_id` rises to the node's id where that is larger, and
    /// the node's coordinate now resolves to its id.
    pub fn add_node(&mut self, node: Node)
        requires
            old(self).wf(),
        ensures
            final(self).wf(),
            final(self).nodes@ == old(self).nodes@.push(node),
            final(self).ways@ == old(self).ways@,
            final(self).relations@ == old(self).relations@,
            final(self).spec_max_id() == if node.id > old(self).spec_max_id() {
                node.id
            } else {
                old(self).spec_max_id()
            },
            final(self).spec_index() == old(self).spec_index().push((node.coordinate, node.id)),
            index_lookup(final(self).spec_index(), node.coordinate) == Some(node.id),
            old(self).boundary is None ==> final(self).boundary is None,
            old(self).boundary matches Some(b) && b.freeze ==> final(self).boundary == old(self).boundary,
            old(self).boundary matches Some(b) && !b.freeze ==> (final(self).boundary matches Some(
                nb,
            ) && !nb.freeze && nb.spec_contains(node.coordinate) && nb.min.lat == (
            if node.coordinate.lat < old(self).boundary->0.min.lat {
                node.coordinate.lat
            } else {
                old(self).boundary->0.min.lat
            }) && nb.max.lat == (if node.coordinate.lat > old(self).boundary->0.max.lat {
                node.coordinate.lat
            } else {
                old(self).boundary->0.max.lat
            }) && nb.min.lon == (if node.coordinate.lon < old(self).boundary->0.min.lon {
                node.coordinate.lon
            } else {
                old(self).boundary->0.min.lon
            }) && nb.max.lon == (if node.coordinate.lon > old(self).boundary->0.max.lon {
                node.coordinate.lon
            } else {
                old(self).boundary->0.max.lon
            })),
    {
        if let Some(boundary) = &mut self.boundary {
            boundary.expand(node.coordinate);
        }

        if node.id > self.max_id {
            self.max_id = node.id;
        }
        self.node_id_index.push((node.coordinate, node.id));
        self.nodes.push(node);
        proof {
            lemma_attained_after_insert(*old(self), *self, node.id);
            assert(self.spec_index().drop_last() =~= old(self).spec_index());
            assert forall|i: int| 0 <= i < self.nodes@.len() implies index_lookup(
                self.spec_index(),
                #[trigger] self.nodes@[i].coordinate,
            ) is Some by {
                if i < self.nodes@.len() - 1 {
                    lemma_index_lookup_extend(old(self).spec_index(), (node.coordinate, node.id), self.nodes@[i].coordinate);
                }
            };
            assert forall|k: int| 0 <= k < self.spec_index().len() implies #[trigger] self
                .index_entry_ok(k) by {
                if k < self.spec_index().len() - 1 {
                    assert(old(self).index_entry_ok(k));
                    let i = choose|i: int|
                        0 <= i < old(self).nodes@.len() && old(self).spec_index()[k] == (
                        old(self).nodes@[i].coordinate,
                        old(self).nodes@[i].id,
                        );
                    assert(self.nodes@[i] == old(self).nodes@[i]);
                    assert(self.spec_index()[k] == (self.nodes@[i].coordinate, self.nodes@[i].id));
                } else {
                    let ghost i = self.nodes@.len() - 1;
                    assert(self.nodes@[i] == node);
                    assert(self.spec_index()[k] == (self.nodes@[i].coordinate, self.nodes@[i].id));
                }
            };
            match old(self).boundary {
                Some(b) => {
                    if !b.freeze {
                        let nb = self.boundary->0;
                        assert forall|i: int| 0 <= i < self.nodes@.len() implies nb.spec_contains(
                            #[trigger] self.nodes@[i].coordinate,
                        ) by {
                            if i < self.nodes@.len() - 1 {
                                assert(b.spec_contains(old(self).nodes@[i].coordinate));
                            }
                        };
                    }
                }
                None => {}
            }
        }
    }

    /// Add a way to the map; `max_id` rises to the way's id where that is
    /// larger.
    pub fn add_way(&mut self, way: Way)
        requires
            old(self).wf(),
        ensures
            final(self).wf(),
            final(self).ways@ == old(self).ways@.push(way),
            final(self).nodes@ == old(self).nodes@,
            final(self).relations@ == old(self).relations@,
            final(self).boundary == old(self).boundary,
            final(self).spec_index() == old(self).spec_index(),
            final(self).spec_max_id() == if way.id > old(self).spec_max_id() {
                way.id
            } else {
                old(self).spec_max_id()
            },
    {
        if way.id > self.max_id {
            self.max_id = way.id;
        }
        self.ways.push(way);
        proof {
            lemma_attained_after_insert(*old(self), *self, way.id);
            lemma_wf_preserved(*old(self), *self);
        }
    }

    /// Add a relation to the map; `max_id` rises to the relation's id where
    /// that is larger.
    pub fn add_relation(&mut self, relation: Relation)
        requires
            old(self).wf(),
        ensures
            final(self).wf(),
            final(self).relations@ == old(self).relations@.push(relation),
            final(self).nodes@ == old(self).nodes@,
            final(self).ways@ == old(self).ways@,
            final(self).boundary == old(self).boundary,
            final(self).spec_index() == old(self).spec_index(),
            final(self).spec_max_id() == if relation.id > old(self).spec_max_id() {
                relation.id
            } else {
                old(self).spec_max_id()
            },
    {
        if relation.id > self.max_id {
            self.max_id = relation.id;
        }
        self.relations.push(relation);
        proof {
            lemma_attained_after_insert(*old(self), *self, relation.id);
            lemma_wf_preserved(*old(self), *self);
        }
    }

    /// Find the id a coordinate resolves to in the node index: the id of
    /// the node at that coordinate that was inserted last.
    pub fn find_node_id(&self, coordinate: Coordinate) -> (r: Option<i64>)
        ensures
            r == index_lookup(self.spec_index(), coordinate),
    {
        let mut i: usize = self.node_id_index.len();
        proof {
            assert(self.spec_index().take(self.spec_index().len() as int) =~= self.spec_index());
        }
        while i > 0
            invariant
                i <= self.node_id_index@.len(),
                index_lookup(self.spec_index(), coordinate) == index_lookup(
                    self.spec_index().take(i as int),
                    coordinate,
                ),
            decreases i,
        {
            i = i - 1;
            let entry = &self.node_id_index[i];
            if entry.0.lat == coordinate.lat && entry.0.lon == coordinate.lon {
                proof {
                    assert(self.spec_index().take(i as int + 1).drop_last() =~= self.spec_index()
                        .take(i as int));
                    assert(self.spec_index().take(i as int + 1)[i as int] == self.spec_index()[i as int]);
                }
                return Some(entry.1);
            }
            proof {
                assert(self.spec_index().take(i as int + 1).drop_last() =~= self.spec_index()
                    .take(i as int));
                assert(self.spec_index().take(i as int + 1)[i as int] == self.spec_index()[i as int]);
            }
        }
        proof {
            assert(self.spec_index().take(0) =~= Seq::<(Coordinate, i64)>::empty());
        }
        None
    }
}

/// After one of the three element sequences grows by an element with id
/// `id` and the watermark is raised to it where it is larger, the
/// watermark stays attained: by the new element where it rose, else by
/// whatever attained it before.
proof fn lemma_attained_after_insert(pre: Osm, post: Osm, id: i64)
    requires
        pre.wf(),
        post.spec_max_id() == if id > pre.spec_max_id() {
            id
        } else {
            pre.spec_max_id()
        },
        (post.nodes@ == pre.nodes@.push(post.nodes@.last()) && post.nodes@.last().id == id
            && post.ways@ == pre.ways@ && post.relations@ == pre.relations@) || (post.ways@
            == pre.ways@.push(post.ways@.last()) && post.ways@.last().id == id && post.nodes@
            == pre.nodes@ && post.relations@ == pre.relations@) || (post.relations@
            == pre.relations@.push(post.relations@.last()) && post.relations@.last().id == id
            && post.nodes@ == pre.nodes@ && post.ways@ == pre.ways@),
    ensures
        post.max_id_attained(),
{
    if id > pre.spec_max_id() {
        if post.nodes@.len() > pre.nodes@.len() {
            assert(post.nodes@[post.nodes@.len() - 1].id == post.spec_max_id());
        } else if post.ways@.len() > pre.ways@.len() {
            assert(post.ways@[post.ways@.len() - 1].id == post.spec_max_id());
        } else {
            assert(post.relations@[post.relations@.len() - 1].id == post.spec_max_id());
        }
    } else {
        if pre.spec_max_id() == 0 {
        } else if exists|i: int|
            0 <= i < pre.nodes@.len() && (#[trigger] pre.nodes@[i]).id == pre.spec_max_id() {
            let i = choose|i: int|
                0 <= i < pre.nodes@.len() && (#[trigger] pre.nodes@[i]).id == pre.spec_max_id();
            assert(post.nodes@[i].id == post.spec_max_id());
        } else if exists|i: int|
            0 <= i < pre.ways@.len() && (#[trigger] pre.ways@[i]).id == pre.spec_max_id() {
            let i = choose|i: int|
                0 <= i < pre.ways@.len() && (#[trigger] pre.ways@[i]).id == pre.spec_max_id();
            assert(post.ways@[i].id == post.spec_max_id());
        } else {
            let i = choose|i: int|
                0 <= i < pre.relations@.len() && (#[trigger] pre.relations@[i]).id
                    == pre.spec_max_id();
            assert(post.relations@[i].id == post.spec_max_id());
        }
    }
}

/// A map stays well-formed when its nodes, index and boundary are kept and
/// `max_id` does not fall below any contained id.
proof fn lemma_wf_preserved(pre: Osm, post: Osm)
    requires
        pre.wf(),
        post.max_id_attained(),
        post.nodes@ == pre.nodes@,
        post.spec_index() == pre.spec_index(),
        post.boundary == pre.boundary,
        post.spec_max_id() >= pre.spec_max_id(),
        forall|i: int| 0 <= i < post.ways@.len() ==> #[trigger] post.ways@[i].id <= post.spec_max_id(),
        forall|i: int|
            0 <= i < post.relations@.len() ==> #[trigger] post.relations@[i].id
                <= post.spec_max_id(),
    ensures
        post.wf(),
{
    assert forall|i: int| 0 <= i < post.nodes@.len() implies #[trigger] post.nodes@[i].id
        <= post.spec_max_id() by {
        assert(pre.nodes@[i].id <= pre.spec_max_id());
    };
    assert forall|i: int| 0 <= i < post.nodes@.len() implies index_lookup(
        post.spec_index(),
        #[trigger] post.nodes@[i].coordinate,
    ) is Some by {
        assert(index_lookup(pre.spec_index(), pre.nodes@[i].coordinate) is Some);
    };
    match post.boundary {
        Some(b) => {
            if !b.freeze {
                assert forall|i: int| 0 <= i < post.nodes@.len() implies b.spec_contains(
                    #[trigger] post.nodes@[i].coordinate,
                ) by {
                    assert(b.spec_contains(pre.nodes@[i].coordinate));
                };
            }
        }
        None => {}
    }
    assert forall|k: int| 0 <= k < post.spec_index().len() implies #[trigger] post.index_entry_ok(
        k,
    ) by {
        assert(pre.index_entry_ok(k));
        let i = choose|i: int|
            0 <= i < pre.nodes@.len() && pre.spec_index()[k] == (
            pre.nodes@[i].coordinate,
            pre.nodes@[i].id,
            );
        assert(post.nodes@[i] == pre.nodes@[i]);
        assert(post.spec_index()[k] == (post.nodes@[i].coordinate, post.nodes@[i].id));
    };
}

/// Appending an index entry leaves every older lookup answered: a
/// coordinate that resolved before still resolves.
proof fn lemma_index_lookup_extend(entries: Seq<(Coordinate, i64)>, e: (Coordinate, i64), c: Coordinate)
    requires
        index_lookup(entries, c) is Some,
    ensures
        index_lookup(entries.push(e), c) is Some,
{
    assert(entries.push(e).drop_last() =~= entries);
}

/// Appending an entry for a different coordinate leaves a lookup's answer
/// unchanged.
proof fn lemma_index_lookup_other(entries: Seq<(Coordinate, i64)>, e: (Coordinate, i64), c: Coordinate)
    requires
        e.0 != c,
    ensures
        index_lookup(entries.push(e), c) == index_lookup(entries, c),
{
    assert(entries.push(e).drop_last() =~= entries);
}

impl Default for Osm {
    /// A fresh map: an inverted, unfrozen boundary ready to grow, no
    /// elements, and `max_id` zero.
    fn default() -> (osm: Self)
        ensures
            osm.wf(),
            osm.boundary matches Some(b) && b == Boundary::spec_inverted(),
            osm.nodes@.len() == 0,
            osm.ways@.len() == 0,
            osm.relations@.len() == 0,
            osm.spec_max_id() == 0,
            osm.spec_index().len() == 0,
    {
        Osm {
            boundary: Some(Boundary::inverted()),
            nodes: Vec::new(),
            ways: Vec::new(),
            relations: Vec::new(),
            max_id: 0,
            node_id_index: Vec::new(),
        }
    }
}

/// `OsmBuilder` builds OSM maps from plain geometry. Polygons, polylines
/// and points are vectors of coordinates; nodes are created and assigned
/// ids automatically, and a coordinate that already resolves in the index
/// reuses the node that stands there.
pub struct OsmBuilder {
    pub osm: Osm,
}

impl OsmBuilder {
    /// The map under construction satisfies its invariants.
    pub open spec fn wf(&self) -> bool {
        self.osm.wf()
    }

    /// The largest id handed out so far.
    pub open spec fn spec_max_id(&self) -> i64 {
        self.osm.spec_max_id()
    }

    /// Hand the finished map over: the very map the builder worked on.
    pub fn build(self) -> (osm: Osm)
        requires
            self.wf(),
        ensures
            osm.wf(),
            osm == self.osm,
    {
        self.osm
    }

    /// Add a point, represented as one node. A coordinate that already
    /// resolves in the index reuses the node standing there and the new
    /// tags are discarded; otherwise one node under the next id is
    /// appended.
    pub fn add_point(&mut self, coordinate: Coordinate, tags: Vec<Tag>)
        requires
            old(self).wf(),
            old(self).spec_max_id() < i64::MAX,
        ensures
            final(self).wf(),
            index_lookup(old(self).osm.spec_index(), coordinate) is Some ==> {
                &&& final(self).osm == old(self).osm
            },
            index_lookup(old(self).osm.spec_index(), coordinate) is None ==> {
                &&& final(self).osm.nodes@.len() == old(self).osm.nodes@.len() + 1
                &&& final(self).osm.nodes@.last().id == old(self).spec_max_id() + 1
                &&& final(self).osm.nodes@.last().coordinate == coordinate
                &&& final(self).osm.nodes@.last().meta.tags == tags
                &&& final(self).osm.nodes@.take(old(self).osm.nodes@.len() as int) == old(self).osm.nodes@
                &&& final(self).spec_max_id() == old(self).spec_max_id() + 1
                &&& index_lookup(final(self).osm.spec_index(), coordinate) == Some(
                    final(self).spec_max_id(),
                )
                &&& final(self).osm.ways@ == old(self).osm.ways@
                &&& final(self).osm.relations@ == old(self).osm.relations@
            },
    {
        self.add_node(coordinate, tags);
        proof {
            if index_lookup(old(self).osm.spec_index(), coordinate) is None {
                assert(self.osm.nodes@.take(old(self).osm.nodes@.len() as int) =~= old(self).osm.nodes@);
            }
        }
    }

    /// Add a polygon. The first part is the outer ring, the rest are inner
    /// rings (holes). A single ring becomes a tagged way; several rings
    /// become one way per ring plus a multipolygon relation. `parts` must
    /// not be empty.
    pub fn add_polygon(&mut self, parts: Vec<Vec<Coordinate>>, tags: Vec<Tag>)
        requires
            old(self).wf(),
            parts@.len() >= 1,
            old(self).spec_max_id() + total_len(parts@) + parts@.len() + 1 < i64::MAX,
        ensures
            final(self).wf(),
            parts@.len() == 1 ==> {
                &&& final(self).osm.ways@.len() == old(self).osm.ways@.len() + 1
                &&& final(self).osm.ways@.last().meta.tags == tags
                &&& final(self).osm.ways@.last().refs@.len() == parts@[0]@.len()
                &&& final(self).osm.relations@ == old(self).osm.relations@
            },
            parts@.len() >= 2 ==> {
                &&& final(self).osm.ways@.len() == old(self).osm.ways@.len() + parts@.len()
                &&& final(self).osm.relations@.len() == old(self).osm.relations@.len() + 1
                &&& (forall|i: int|
                    0 <= i < parts@.len() ==> ring_way_shape(
                        #[trigger] final(self).osm.ways@[old(self).osm.ways@.len() + i],
                        parts@[i]@.len() as int,
                    ))
                &&& multipolygon_relation_shape(
                    final(self).osm.relations@.last(),
                    final(self).osm.ways@,
                    old(self).osm.ways@.len() as int,
                    parts@.len() as int,
                    tags@,
                )
            },
    {
        let mut parts = parts;
        let ghost prev = parts@;
        if parts.len() == 1 {
            let part = parts.pop().unwrap();
            proof {
                lemma_total_len_parts(prev);
                assert(prev.skip(1) =~= Seq::<Vec<Coordinate>>::empty());
                assert(part@ == prev[0]@);
            }
            self.add_polyline(part, tags);
        } else {
            self.add_multipolygon(parts, tags);
        }
    }

    /// Add a polyline: one node per coordinate (reusing nodes that already
    /// stand at a coordinate) and one way referencing them, in order. The
    /// appended way carries the tags and the fresh id, which is returned,
    /// and each of its references resolves in the index to its coordinate.
    pub fn add_polyline(&mut self, coordinates: Vec<Coordinate>, tags: Vec<Tag>) -> (id: i64)
        requires
            old(self).wf(),
            old(self).spec_max_id() + coordinates@.len() + 1 < i64::MAX,
        ensures
            final(self).wf(),
            final(self).spec_max_id() <= old(self).spec_max_id() + coordinates@.len() + 1,
            id == final(self).spec_max_id(),
            final(self).osm.ways@.len() == old(self).osm.ways@.len() + 1,
            final(self).osm.ways@.take(old(self).osm.ways@.len() as int) == old(self).osm.ways@,
            final(self).osm.ways@.last().id == id,
            final(self).osm.ways@.last().meta.tags == tags,
            final(self).osm.ways@.last().meta.version is None,
            final(self).osm.ways@.last().meta.author is None,
            final(self).osm.ways@.last().refs@.len() == coordinates@.len(),
            forall|j: int|
                0 <= j < coordinates@.len() ==> index_lookup(
                    final(self).osm.spec_index(),
                    #[trigger] coordinates@[j],
                ) == Some(final(self).osm.ways@.last().refs@[j]),
            forall|j: int|
                0 <= j < coordinates@.len() ==> (index_lookup(
                    old(self).osm.spec_index(),
                    #[trigger] coordinates@[j],
                ) matches Some(found) ==> final(self).osm.ways@.last().refs@[j] == found),
            final(self).osm.relations@ == old(self).osm.relations@,
    {
        let refs = self.add_nodes(coordinates);
        let id = self.next_id();
        let meta = Meta { tags, version: None, author: None };
        self.osm.add_way(Way { id, refs, meta });
        proof {
            assert(self.osm.ways@.take(old(self).osm.ways@.len() as int) =~= old(self).osm.ways@);
        }
        id
    }

    /// Add a multipolygon: one untagged way per ring, and a relation that
    /// marks the first ring `outer` and the rest `inner`, carrying the
    /// given tags with `type=multipolygon` appended.
    fn add_multipolygon(&mut self, parts: Vec<Vec<Coordinate>>, tags: Vec<Tag>)
        requires
            old(self).wf(),
            parts@.len() >= 1,
            old(self).spec_max_id() + total_len(parts@) + parts@.len() + 1 < i64::MAX,
        ensures
            final(self).wf(),
            final(self).osm.ways@.len() == old(self).osm.ways@.len() + parts@.len(),
            final(self).osm.relations@.len() == old(self).osm.relations@.len() + 1,
            forall|i: int|
                0 <= i < parts@.len() ==> ring_way_shape(
                    #[trigger] final(self).osm.ways@[old(self).osm.ways@.len() + i],
                    parts@[i]@.len() as int,
                ),
            multipolygon_relation_shape(
                final(self).osm.relations@.last(),
                final(self).osm.ways@,
                old(self).osm.ways@.len() as int,
                parts@.len() as int,
                tags@,
            ),
    {
        let mut parts = parts;
        let ghost orig = parts@;
        let ghost tags0 = tags@;
        let mut tags = tags;
        let mut polygon_ids: Vec<i64> = Vec::new();
        let ghost n = parts@.len();
        let ghost ways0 = self.osm.ways@.len() as int;
        while parts.len() > 0
            invariant
                self.wf(),
                ways0 == old(self).osm.ways@.len(),
                n == orig.len(),
                parts@ == orig.skip(polygon_ids@.len() as int),
                polygon_ids@.len() + parts@.len() == n,
                self.spec_max_id() + total_len(parts@) + parts@.len() + 1 < i64::MAX,
                self.osm.ways@.len() == ways0 + polygon_ids@.len(),
                forall|i: int|
                    0 <= i < polygon_ids@.len() ==> (#[trigger] polygon_ids@[i])
                        == self.osm.ways@[ways0 + i].id,
                forall|i: int|
                    0 <= i < polygon_ids@.len() ==> ring_way_shape(
                        #[trigger] self.osm.ways@[ways0 + i],
                        orig[i]@.len() as int,
                    ),
                forall|i: int| 0 <= i < ways0 ==> #[trigger] self.osm.ways@[i] == old(self).osm.ways@[i],
                self.osm.relations@ == old(self).osm.relations@,
            decreases parts@.len(),
        {
            let ghost prev = parts@;
            let ghost ways_before = self.osm.ways@;
            proof {
                lemma_total_len_parts(prev);
                lemma_total_len_nonneg(prev.skip(1));
                assert(prev[0] == orig[polygon_ids@.len() as int]);
            }
            let part = parts.remove(0);
            proof {
                assert(parts@ =~= prev.skip(1));
            }
            let ghost ids_before = polygon_ids@;
            let id = self.add_polyline(part, Vec::new());
            polygon_ids.push(id);
            proof {
                assert(parts@ =~= orig.skip(polygon_ids@.len() as int));
                assert(self.osm.ways@.take(ways_before.len() as int) == ways_before);
                assert(ways_before.len() == ways0 + ids_before.len());
                assert forall|i: int| 0 <= i < polygon_ids@.len() - 1 implies (
                #[trigger] polygon_ids@[i]) == self.osm.ways@[ways0 + i].id by {
                    assert(polygon_ids@[i] == ids_before[i]);
                    assert(0 <= ways0 + i < ways_before.len());
                    assert(ids_before[i] == ways_before[ways0 + i].id);
                    assert(ways_before[ways0 + i] == self.osm.ways@.take(
                        ways_before.len() as int,
                    )[ways0 + i]);
                    assert(self.osm.ways@.take(ways_before.len() as int)[ways0 + i]
                        == self.osm.ways@[ways0 + i]);
                };
                assert forall|i: int| 0 <= i < polygon_ids@.len() implies ring_way_shape(
                    #[trigger] self.osm.ways@[ways0 + i],
                    orig[i]@.len() as int,
                ) by {
                    if i < polygon_ids@.len() - 1 {
                        assert(0 <= ways0 + i < ways_before.len());
                        assert(ring_way_shape(ways_before[ways0 + i], orig[i]@.len() as int));
                        assert(ways_before[ways0 + i] == self.osm.ways@.take(
                            ways_before.len() as int,
                        )[ways0 + i]);
                        assert(self.osm.ways@.take(ways_before.len() as int)[ways0 + i]
                            == self.osm.ways@[ways0 + i]);
                    } else {
                        assert(self.osm.ways@[ways0 + i] == self.osm.ways@.last());
                        assert(part@ == orig[i]@);
                    }
                };
                assert forall|i: int| 0 <= i < ways0 implies #[trigger] self.osm.ways@[i] == old(
                    self,
                ).osm.ways@[i] by {
                    assert(ways_before[i] == old(self).osm.ways@[i]);
                    assert(self.osm.ways@.take(ways_before.len() as int)[i]
                        == self.osm.ways@[i]);
                };
            }
        }

        tags.push(Tag::new("type", "multipolygon"));
        proof {
            assert(tags@.take(tags0.len() as int) =~= tags0);
            assert(polygon_ids@.len() == n);
        }
        let outer = polygon_ids[0];
        let mut inner: Vec<i64> = Vec::new();
        let mut k: usize = 1;
        while k < polygon_ids.len()
            invariant
                1 <= k <= polygon_ids@.len(),
                inner@.len() == k - 1,
                forall|j: int| 0 <= j < k - 1 ==> #[trigger] inner@[j] == polygon_ids@[j + 1],
            decreases polygon_ids@.len() - k,
        {
            inner.push(polygon_ids[k]);
            k = k + 1;
        }
        self.add_polygon_relations(outer, &inner, tags);
        proof {
            assert forall|i: int| 0 <= i < ways0 implies #[trigger] self.osm.ways@[i] == old(
                self,
            ).osm.ways@[i] by {};
            assert(multipolygon_relation_shape(
                self.osm.relations@.last(),
                self.osm.ways@,
                ways0,
                n as int,
                tags0,
            ));
        }
    }

    /// Add the relation that ties a multipolygon's rings together: each
    /// inner ring as a way member with role `inner`, then the outer ring
    /// with role `outer`, under the next id and carrying the given tags.
    fn add_polygon_relations(&mut self, outer: i64, inner: &Vec<i64>, tags: Vec<Tag>)
        requires
            old(self).wf(),
            old(self).spec_max_id() < i64::MAX,
        ensures
            final(self).wf(),
            final(self).osm.relations@.len() == old(self).osm.relations@.len() + 1,
            final(self).osm.relations@.take(old(self).osm.relations@.len() as int) == old(self).osm.relations@,
            final(self).osm.relations@.last().id == old(self).spec_max_id() + 1,
            final(self).spec_max_id() == old(self).spec_max_id() + 1,
            final(self).osm.relations@.last().meta.tags == tags,
            final(self).osm.relations@.last().meta.version is None,
            final(self).osm.relations@.last().meta.author is None,
            final(self).osm.relations@.last().members@.len() == inner@.len() + 1,
            forall|j: int|
                0 <= j < inner@.len() ==> ((#[trigger] final(self).osm.relations@.last().members@[j]) matches RelationMember::Way(w, role) && w
                    == inner@[j] && role@ == "inner"@),
            (final(self).osm.relations@.last().members@.last() matches RelationMember::Way(
                w,
                role,
            ) && w == outer && role@ == "outer"@),
            final(self).osm.ways@ == old(self).osm.ways@,
            final(self).osm.nodes@ == old(self).osm.nodes@,
            final(self).osm.spec_index() == old(self).osm.spec_index(),
    {
        let mut members: Vec<RelationMember> = Vec::new();
        let mut k: usize = 0;
        while k < inner.len()
            invariant
                k <= inner@.len(),
                members@.len() == k,
                forall|j: int|
                    0 <= j < k ==> ((#[trigger] members@[j]) matches RelationMember::Way(w, role)
                        && w == inner@[j] && role@ == "inner"@),
            decreases inner@.len() - k,
        {
            members.push(RelationMember::Way(inner[k], "inner".to_owned()));
            k = k + 1;
        }

        members.push(RelationMember::Way(outer, "outer".to_owned()));

        let id = self.next_id();
        let meta = Meta { tags, version: None, author: None };
        self.osm.add_relation(Relation { id, members, meta });
        proof {
            assert(self.osm.relations@.take(old(self).osm.relations@.len() as int) =~= old(self).osm.relations@);
        }
    }

    /// Add one node per coordinate, reusing nodes that already stand at a
    /// coordinate, and hand back their ids in order: afterwards each
    /// coordinate resolves in the index to its returned id.
    fn add_nodes(&mut self, coordinates: Vec<Coordinate>) -> (refs: Vec<i64>)
        requires
            old(self).wf(),
            old(self).spec_max_id() + coordinates@.len() < i64::MAX,
        ensures
            final(self).wf(),
            refs@.len() == coordinates@.len(),
            final(self).spec_max_id() <= old(self).spec_max_id() + coordinates@.len(),
            forall|j: int|
                0 <= j < coordinates@.len() ==> index_lookup(
                    final(self).osm.spec_index(),
                    #[trigger] coordinates@[j],
                ) == Some(refs@[j]),
            forall|j: int|
                0 <= j < coordinates@.len() ==> (index_lookup(
                    old(self).osm.spec_index(),
                    #[trigger] coordinates@[j],
                ) matches Some(found) ==> refs@[j] == found),
            final(self).osm.ways@ == old(self).osm.ways@,
            final(self).osm.relations@ == old(self).osm.relations@,
    {
        let mut refs: Vec<i64> = Vec::new();
        let n = coordinates.len();
        let mut k: usize = 0;
        while k < n
            invariant
                self.wf(),
                n == coordinates@.len(),
                k <= n,
                refs@.len() == k,
                self.spec_max_id() <= old(self).spec_max_id() + k,
                old(self).spec_max_id() + n < i64::MAX,
                forall|j: int|
                    0 <= j < k ==> index_lookup(
                        self.osm.spec_index(),
                        #[trigger] coordinates@[j],
                    ) == Some(refs@[j]),
                forall|c: Coordinate|
                    index_lookup(old(self).osm.spec_index(), c) is Some ==> #[trigger]
                    index_lookup(self.osm.spec_index(), c) == index_lookup(
                        old(self).osm.spec_index(),
                        c,
                    ),
                self.osm.ways@ == old(self).osm.ways@,
                self.osm.relations@ == old(self).osm.relations@,
            decreases n - k,
        {
            let ghost index_before = self.osm.spec_index();
            let id = self.add_node(coordinates[k], Vec::new());
            refs.push(id);
            k = k + 1;
            proof {
                if index_lookup(index_before, coordinates@[k - 1]) is None {
                    assert forall|j: int| 0 <= j < k - 1 implies index_lookup(
                        self.osm.spec_index(),
                        #[trigger] coordinates@[j],
                    ) == Some(refs@[j]) by {
                        lemma_index_lookup_other(
                            index_before,
                            (coordinates@[k - 1], id),
                            coordinates@[j],
                        );
                    };
                    assert forall|c: Coordinate|
                        index_lookup(old(self).osm.spec_index(), c) is Some implies #[trigger]
                    index_lookup(self.osm.spec_index(), c) == index_lookup(
                        old(self).osm.spec_index(),
                        c,
                    ) by {
                        if c == coordinates@[k - 1] {
                            assert(index_lookup(index_before, c) is Some);
                            assert(false);
                        } else {
                            lemma_index_lookup_other(index_before, (coordinates@[k - 1], id), c);
                        }
                    };
                }
            }
        }
        refs
    }

    /// The node id for a coordinate: the node already standing there, or a
    /// fresh node under the next id.
    fn add_node(&mut self, coordinate: Coordinate, tags: Vec<Tag>) -> (id: i64)
        requires
            old(self).wf(),
            old(self).spec_max_id() < i64::MAX,
        ensures
            final(self).wf(),
            final(self).spec_max_id() <= old(self).spec_max_id() + 1,
            index_lookup(old(self).osm.spec_index(), coordinate) matches Some(found) ==> {
                &&& id == found
                &&& final(self).osm == old(self).osm
            },
            index_lookup(old(self).osm.spec_index(), coordinate) is None ==> {
                &&& id == old(self).spec_max_id() + 1
                &&& final(self).spec_max_id() == id
                &&& index_lookup(final(self).osm.spec_index(), coordinate) == Some(id)
                &&& final(self).osm.nodes@ == old(self).osm.nodes@.push(
                    Node { id, coordinate, meta: Meta { tags, version: None, author: None } },
                )
                &&& final(self).osm.spec_index() == old(self).osm.spec_index().push(
                    (coordinate, id),
                )
                &&& final(self).osm.ways@ == old(self).osm.ways@
                &&& final(self).osm.relations@ == old(self).osm.relations@
            },
    {
        if let Some(id) = self.osm.find_node_id(coordinate) {
            return id;
        }

        let id = self.osm.max_id() + 1;
        let meta = Meta { tags, version: None, author: None };
        self.osm.add_node(Node { id, coordinate, meta });
        id
    }

    /// The next id to hand out: `max_id` plus one. The element inserted
    /// under it raises the watermark.
    fn next_id(&self) -> (id: i64)
        requires
            self.wf(),
            self.spec_max_id() < i64::MAX,
        ensures
            id == self.spec_max_id() + 1,
    {
        self.osm.max_id() + 1
    }
}

/// The shape of a way the builder appends for one polygon ring: one
/// reference per ring coordinate and no tags of its own.
pub open spec fn ring_way_shape(way: Way, ring_len: int) -> bool {
    &&& way.refs@.len() == ring_len
    &&& way.meta.tags@.len() == 0
    &&& way.meta.version is None
    &&& way.meta.author is None
}

/// The shape of a multipolygon relation built over `ring_count` rings
/// that were appended to `ways` starting at `ways0`: one way member per
/// ring, the first ring last in the member list with role `outer`, the
/// rest before it in order with role `inner`, and the given tags.
pub open spec fn multipolygon_relation_shape(
    rel: Relation,
    ways: Seq<Way>,
    ways0: int,
    ring_count: int,
    tags: Seq<Tag>,
) -> bool {
    &&& rel.meta.tags@.len() == tags.len() + 1
    &&& rel.meta.tags@.take(tags.len() as int) == tags
    &&& rel.meta.tags@.last().key@ == "type"@
    &&& rel.meta.tags@.last().value@ == "multipolygon"@
    &&& rel.meta.version is None
    &&& rel.meta.author is None
    &&& rel.members@.len() == ring_count
    &&& (rel.members@.last() matches RelationMember::Way(w, role) && w == ways[ways0].id && role@
        == "outer"@)
    &&& (forall|j: int|
        0 <= j < ring_count - 1 ==> ((#[trigger] rel.members@[j]) matches RelationMember::Way(
            w,
            role,
        ) && w == ways[ways0 + 1 + j].id && role@ == "inner"@))
}

/// The coordinates a list of polygon parts holds in all.
pub open spec fn total_len(parts: Seq<Vec<Coordinate>>) -> int
    decreases parts.len(),
{
    if parts.len() == 0 {
        0
    } else {
        parts[0]@.len() + total_len(parts.skip(1))
    }
}

/// A non-empty list's total splits off its first part.
proof fn lemma_total_len_parts(parts: Seq<Vec<Coordinate>>)
    requires
        parts.len() >= 1,
    ensures
        total_len(parts) == parts[0]@.len() + total_len(parts.skip(1)),
        total_len(parts) >= 0,
    decreases parts.len(),
{
    lemma_total_len_nonneg(parts.skip(1));
}

/// A total over parts is never negative.
proof fn lemma_total_len_nonneg(parts: Seq<Vec<Coordinate>>)
    ensures
        total_len(parts) >= 0,
    decreases parts.len(),
{
    if parts.len() > 0 {
        lemma_total_len_nonneg(parts.skip(1));
    }
}

impl Default for OsmBuilder {
    /// A builder over a fresh map.
    fn default() -> (b: Self)
        ensures
            b.wf(),
            b.spec_max_id() == 0,
    {
        OsmBuilder { osm: Osm::default() }
    }
}

} // verus!
