//! Speed extraction and result aggregation.
//!
//! For every directed edge in the fetched tiles, the requested speed source
//! yields at most one candidate speed: the live reading where one exists, or
//! the day/night stored speed where it is non-zero (zero means "no data", not
//! "stopped"). An edge with a zero nominal speed is likewise skipped rather
//! than divided into. Each candidate is normalized into a jam factor and the
//! `(geometry, jam factor)` pairs are collected into a mapping deduplicated
//! by geometry, the later observation overwriting the earlier.

use crate::jam::{jam_factor, jam_factor_of};
use crate::speed::SpeedSource;
use vstd::prelude::*;

verus! {

/// One direction of travel along a road segment, with its encoded geometry
/// and the stored speed fields the extraction policy reads. The geometry is
/// opaque: only its equality matters, and equal bytes mean equal geometry.
/// All speeds share one unit; the live reading is absent where the store
/// holds none.
pub struct DirectedEdge {
    pub shape: Vec<u8>,
    pub nominal_speed: u32,
    pub constrained_flow_speed: u32,
    pub free_flow_speed: u32,
    pub live_speed: Option<u32>,
}

/// The edges of one decoded graph tile.
pub struct TileData {
    pub edges: Vec<DirectedEdge>,
}

/// The candidate speed an edge yields under the requested source, if any.
pub open spec fn extracted_speed(source: SpeedSource, edge: DirectedEdge) -> Option<u32> {
    match source {
        SpeedSource::Live => edge.live_speed,
        SpeedSource::Day => if edge.constrained_flow_speed == 0 {
            None
        } else {
            Some(edge.constrained_flow_speed)
        },
        SpeedSource::Night => if edge.free_flow_speed == 0 {
            None
        } else {
            Some(edge.free_flow_speed)
        },
    }
}

/// Whether the edge reaches the results: it yields a candidate speed and its
/// nominal speed is non-zero, so that normalization never divides by zero.
pub open spec fn edge_contributes(source: SpeedSource, edge: DirectedEdge) -> bool {
    extracted_speed(source, edge) is Some && edge.nominal_speed > 0
}

/// The jam factor a contributing edge maps to.
pub open spec fn edge_jam_factor(source: SpeedSource, edge: DirectedEdge) -> int
    recommends
        edge_contributes(source, edge),
{
    jam_factor_of(extracted_speed(source, edge).unwrap() as int, edge.nominal_speed as int)
}

/// Applies the extraction policy to one edge.
pub fn extract_speed(source: SpeedSource, edge: &DirectedEdge) -> (r: Option<u32>)
    ensures
        r == extracted_speed(source, *edge),
{
    match source {
        SpeedSource::Live => edge.live_speed,
        SpeedSource::Day => {
            let s = edge.constrained_flow_speed;
            if s == 0 {
                None
            } else {
                Some(s)
            }
        },
        SpeedSource::Night => {
            let s = edge.free_flow_speed;
            if s == 0 {
                None
            } else {
                Some(s)
            }
        },
    }
}

/// The mapping a list of `(geometry, jam factor)` entries stands for, the
/// later entries overwriting the earlier.
pub open spec fn entries_map(entries: Seq<(Vec<u8>, u8)>) -> Map<Seq<u8>, int>
    decreases entries.len(),
{
    if entries.len() == 0 {
        Map::empty()
    } else {
        entries_map(entries.drop_last()).insert(entries.last().0@, entries.last().1 as int)
    }
}

/// No two entries share a geometry.
pub open spec fn distinct_shapes(entries: Seq<(Vec<u8>, u8)>) -> bool {
    forall|i: int, j: int| 0 <= i < j < entries.len() ==> entries[i].0@ != entries[j].0@
}

proof fn lemma_entries_map_contains(entries: Seq<(Vec<u8>, u8)>, k: Seq<u8>)
    ensures
        entries_map(entries).contains_key(k) <==> exists|i: int|
            0 <= i < entries.len() && entries[i].0@ == k,
    decreases entries.len(),
{
    if entries.len() > 0 {
        let prefix = entries.drop_last();
        lemma_entries_map_contains(prefix, k);
        if entries.last().0@ == k {
            assert(entries[entries.len() - 1].0@ == k);
        } else if entries_map(prefix).contains_key(k) {
            let i = choose|i: int| 0 <= i < prefix.len() && prefix[i].0@ == k;
            assert(entries[i].0@ == k);
        } else {
            assert forall|i: int| 0 <= i < entries.len() implies entries[i].0@ != k by {
                if i < entries.len() - 1 {
                    assert(prefix[i].0@ != k);
                }
            }
        }
    }
}

proof fn lemma_entries_map_value(entries: Seq<(Vec<u8>, u8)>, i: int)
    requires
        distinct_shapes(entries),
        0 <= i < entries.len(),
    ensures
        entries_map(entries).contains_key(entries[i].0@),
        entries_map(entries)[entries[i].0@] == entries[i].1 as int,
    decreases entries.len(),
{
    if i < entries.len() - 1 {
        let prefix = entries.drop_last();
        assert(distinct_shapes(prefix)) by {
            assert(forall|a: int, b: int|
                0 <= a < b < prefix.len() ==> prefix[a].0@ == entries[a].0@ && prefix[b].0@
                    == entries[b].0@);
        }
        lemma_entries_map_value(prefix, i);
        assert(entries.last().0@ != entries[i].0@);
    }
}

proof fn lemma_entries_map_len(entries: Seq<(Vec<u8>, u8)>)
    requires
        distinct_shapes(entries),
    ensures
        entries_map(entries).dom().finite(),
        entries_map(entries).dom().len() == entries.len(),
    decreases entries.len(),
{
    if entries.len() > 0 {
        let prefix = entries.drop_last();
        assert(distinct_shapes(prefix)) by {
            assert(forall|a: int, b: int|
                0 <= a < b < prefix.len() ==> prefix[a].0@ == entries[a].0@ && prefix[b].0@
                    == entries[b].0@);
        }
        lemma_entries_map_len(prefix);
        lemma_entries_map_contains(prefix, entries.last().0@);
    }
}

proof fn lemma_entries_map_update(entries: Seq<(Vec<u8>, u8)>, i: int, entry: (
    Vec<u8>,
    u8,
))
    requires
        distinct_shapes(entries),
        0 <= i < entries.len(),
        entries[i].0@ == entry.0@,
    ensures
        entries_map(entries.update(i, entry)) == entries_map(entries).insert(
            entry.0@,
            entry.1 as int,
        ),
    decreases entries.len(),
{
    let upd = entries.update(i, entry);
    let prefix = entries.drop_last();
    if i == entries.len() - 1 {
        assert(upd.drop_last() =~= prefix);
        assert(upd.last() == entry);
        assert(entries_map(prefix).insert(entries.last().0@, entries.last().1 as int).insert(
            entry.0@,
            entry.1 as int,
        ) =~= entries_map(prefix).insert(entry.0@, entry.1 as int));
    } else {
        assert(distinct_shapes(prefix)) by {
            assert(forall|a: int, b: int|
                0 <= a < b < prefix.len() ==> prefix[a].0@ == entries[a].0@ && prefix[b].0@
                    == entries[b].0@);
        }
        lemma_entries_map_update(prefix, i, entry);
        assert(upd.drop_last() =~= prefix.update(i, entry));
        assert(upd.last() == entries.last());
        // the overwritten key differs from the last entry's, so the two
        // inserts commute
        assert(entries.last().0@ != entry.0@);
        assert(entries_map(prefix).insert(entry.0@, entry.1 as int).insert(
            entries.last().0@,
            entries.last().1 as int,
        ) =~= entries_map(prefix).insert(entries.last().0@, entries.last().1 as int).insert(
            entry.0@,
            entry.1 as int,
        ));
    }
}

fn shapes_equal(a: &Vec<u8>, b: &Vec<u8>) -> (r: bool)
    ensures
        r == (a@ == b@),
{
    if a.len() != b.len() {
        return false;
    }
    let mut i: usize = 0;
    while i < a.len()
        invariant
            a@.len() == b@.len(),
            0 <= i <= a@.len(),
            forall|j: int| 0 <= j < i ==> a@[j] == b@[j],
        decreases a@.len() - i,
    {
        if a[i] != b[i] {
            return false;
        }
        i += 1;
    }
    proof {
        assert(a@ =~= b@);
    }
    true
}

fn clone_shape(shape: &Vec<u8>) -> (r: Vec<u8>)
    ensures
        r@ == shape@,
{
    let mut out: Vec<u8> = Vec::new();
    let mut i: usize = 0;
    while i < shape.len()
        invariant
            0 <= i <= shape@.len(),
            out@ == shape@.subrange(0, i as int),
        decreases shape@.len() - i,
    {
        out.push(shape[i]);
        assert(out@ =~= shape@.subrange(0, i + 1));
        i += 1;
    }
    proof {
        assert(out@ =~= shape@);
    }
    out
}

/// The aggregated response: road geometries mapped to jam factors. The
/// mapping is kept as a list of entries with pairwise distinct geometries.
pub struct TrafficResult {
    pub entries: Vec<(Vec<u8>, u8)>,
}

impl View for TrafficResult {
    type V = Map<Seq<u8>, int>;

    open spec fn view(&self) -> Map<Seq<u8>, int> {
        entries_map(self.entries@)
    }
}

impl TrafficResult {
    /// The entries hold each geometry at most once.
    pub open spec fn wf(self) -> bool {
        distinct_shapes(self.entries@)
    }

    pub fn new() -> (r: Self)
        ensures
            r.wf(),
            r@ == Map::<Seq<u8>, int>::empty(),
    {
        TrafficResult { entries: Vec::new() }
    }

    fn find_shape(&self, shape: &Vec<u8>) -> (r: Option<usize>)
        ensures
            match r {
                Some(i) => i < self.entries@.len() && self.entries@[i as int].0@ == shape@,
                None => forall|i: int| 0 <= i < self.entries@.len() ==> self.entries@[i].0@ != shape@,
            },
    {
        let mut i: usize = 0;
        while i < self.entries.len()
            invariant
                0 <= i <= self.entries@.len(),
                forall|j: int| 0 <= j < i ==> self.entries@[j].0@ != shape@,
            decreases self.entries@.len() - i,
        {
            if shapes_equal(&self.entries[i].0, shape) {
                return Some(i);
            }
            i += 1;
        }
        None
    }

    /// Records one `(geometry, jam factor)` observation, the later one
    /// overwriting an earlier one with the same geometry.
    pub fn insert_entry(&mut self, shape: Vec<u8>, jam: u8)
        requires
            old(self).wf(),
        ensures
            final(self).wf(),
            final(self)@ == old(self)@.insert(shape@, jam as int),
    {
        match self.find_shape(&shape) {
            Some(i) => {
                proof {
                    lemma_entries_map_update(self.entries@, i as int, (shape, jam));
                    assert(forall|a: int, b: int|
                        0 <= a < b < self.entries@.len() ==> self.entries@.update(
                            i as int,
                            (shape, jam),
                        )[a].0@ == self.entries@[a].0@ && self.entries@.update(
                            i as int,
                            (shape, jam),
                        )[b].0@ == self.entries@[b].0@);
                }
                self.entries.set(i, (shape, jam));
            },
            None => {
                let ghost before = self.entries@;
                self.entries.push((shape, jam));
                proof {
                    assert(self.entries@.drop_last() =~= before);
                    assert(self.entries@.last() == (shape, jam));
                    assert(forall|a: int, b: int|
                        0 <= a < b < before.len() ==> self.entries@[a].0@ == before[a].0@
                            && self.entries@[b].0@ == before[b].0@);
                    assert(self.entries@[self.entries@.len() - 1].0@ == shape@);
                }
            },
        }
    }

    /// How many geometries the mapping holds.
    pub fn len(&self) -> (n: usize)
        requires
            self.wf(),
        ensures
            n == self@.dom().len(),
    {
        proof {
            lemma_entries_map_len(self.entries@);
        }
        self.entries.len()
    }

    /// The jam factor recorded for a geometry, if any.
    pub fn get(&self, shape: &Vec<u8>) -> (r: Option<u8>)
        requires
            self.wf(),
        ensures
            match r {
                Some(j) => self@.contains_key(shape@) && self@[shape@] == j as int,
                None => !self@.contains_key(shape@),
            },
    {
        match self.find_shape(shape) {
            Some(i) => {
                proof {
                    lemma_entries_map_value(self.entries@, i as int);
                }
                Some(self.entries[i].1)
            },
            None => {
                proof {
                    lemma_entries_map_contains(self.entries@, shape@);
                }
                None
            },
        }
    }
}

/// The mapping after folding one tile's edges, front to back, into `acc`.
pub open spec fn edges_traffic(
    source: SpeedSource,
    edges: Seq<DirectedEdge>,
    acc: Map<Seq<u8>, int>,
) -> Map<Seq<u8>, int>
    decreases edges.len(),
{
    if edges.len() == 0 {
        acc
    } else {
        let next = if edge_contributes(source, edges[0]) {
            acc.insert(edges[0].shape@, edge_jam_factor(source, edges[0]))
        } else {
            acc
        };
        edges_traffic(source, edges.drop_first(), next)
    }
}

/// The mapping after folding whole tiles, front to back, into `acc`.
pub open spec fn tiles_traffic(
    source: SpeedSource,
    tiles: Seq<TileData>,
    acc: Map<Seq<u8>, int>,
) -> Map<Seq<u8>, int>
    decreases tiles.len(),
{
    if tiles.len() == 0 {
        acc
    } else {
        tiles_traffic(source, tiles.drop_first(), edges_traffic(source, tiles[0].edges@, acc))
    }
}

/// The traffic response for the fetched tiles under the requested source.
pub open spec fn traffic_map(source: SpeedSource, tiles: Seq<TileData>) -> Map<
    Seq<u8>,
    int,
> {
    tiles_traffic(source, tiles, Map::empty())
}

/// Identical requests see identical results: the traffic mapping is a
/// function of the speed source and the tile contents alone, so recomputing
/// it over unchanged tile data changes nothing.
pub proof fn lemma_traffic_idempotent(
    source: SpeedSource,
    tiles: Seq<TileData>,
    first: Map<Seq<u8>, int>,
    second: Map<Seq<u8>, int>,
)
    requires
        first == traffic_map(source, tiles),
        second == traffic_map(source, tiles),
    ensures
        first == second,
{
}

/// Folds every edge of every fetched tile into the response mapping.
pub fn traffic_from_tiles(source: SpeedSource, tiles: &Vec<TileData>) -> (r: TrafficResult)
    ensures
        r.wf(),
        r@ == traffic_map(source, tiles@),
{
    let mut result = TrafficResult::new();
    proof {
        assert(tiles@.skip(0) =~= tiles@);
    }
    let mut t: usize = 0;
    while t < tiles.len()
        invariant
            0 <= t <= tiles@.len(),
            result.wf(),
            traffic_map(source, tiles@) == tiles_traffic(source, tiles@.skip(t as int), result@),
        decreases tiles@.len() - t,
    {
        let edges = &tiles[t].edges;
        proof {
            assert(tiles@.skip(t as int)[0] == tiles@[t as int]);
            assert(tiles@.skip(t as int).drop_first() =~= tiles@.skip(t + 1));
            assert(edges@.skip(0) =~= edges@);
        }
        let mut e: usize = 0;
        while e < edges.len()
            invariant
                0 <= e <= edges@.len(),
                result.wf(),
                edges@ == tiles@[t as int].edges@,
                t < tiles@.len(),
                traffic_map(source, tiles@) == tiles_traffic(
                    source,
                    tiles@.skip(t + 1),
                    edges_traffic(source, edges@.skip(e as int), result@),
                ),
            decreases edges@.len() - e,
        {
            proof {
                assert(edges@.skip(e as int)[0] == edges@[e as int]);
                assert(edges@.skip(e as int).drop_first() =~= edges@.skip(e + 1));
            }
            let edge = &edges[e];
            match extract_speed(source, edge) {
                Some(speed) => {
                    if edge.nominal_speed > 0 {
                        let jam = jam_factor(speed, edge.nominal_speed);
                        let shape = clone_shape(&edge.shape);
                        result.insert_entry(shape, jam);
                    }
                },
                None => {},
            }
            e += 1;
        }
        proof {
            assert(edges@.skip(edges@.len() as int) =~= Seq::empty());
        }
        t += 1;
    }
    proof {
        assert(tiles@.skip(tiles@.len() as int) =~= Seq::empty());
    }
    result
}

} // verus!
