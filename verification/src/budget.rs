//! Tile budgeting.
//!
//! A dense bounding box could demand scanning thousands of graph tiles. To
//! bound worst-case request cost, the per-level tile lists (ordered from the
//! most important road class down) are flattened into one fetch list with a
//! hard ceiling: a level is included in full only while the cumulative tile
//! count after adding it stays under the ceiling, and the first level that
//! would reach it ends the scan — later levels are dropped even if they would
//! fit on their own.

use vstd::prelude::*;

verus! {

/// Ceiling on the cumulative number of tiles one request may scan.
pub const TILE_SCAN_LIMIT: usize = 20;

/// Identifier of a graph tile, as a plain 64-bit handle. Its interpretation
/// is the tile source's business; it is only carried through.
#[derive(PartialEq, Eq, Structural, Debug, Clone, Copy)]
pub struct TileId {
    pub value: u64,
}

/// A tile resolution tier of the routing graph, partitioning it by road
/// importance.
#[derive(PartialEq, Eq, Structural, Debug, Clone, Copy)]
pub enum RoadClassLevel {
    Highway,
    Arterial,
    Local,
}

/// The fixed order in which the levels are scanned: more important road
/// classes first, so that under the tile budget they are preferentially
/// included.
pub fn level_scan_order() -> (r: Vec<RoadClassLevel>)
    ensures
        r@ == seq![RoadClassLevel::Highway, RoadClassLevel::Arterial, RoadClassLevel::Local],
{
    let mut order: Vec<RoadClassLevel> = Vec::new();
    order.push(RoadClassLevel::Highway);
    order.push(RoadClassLevel::Arterial);
    order.push(RoadClassLevel::Local);
    proof {
        assert(order@ =~= seq![
            RoadClassLevel::Highway,
            RoadClassLevel::Arterial,
            RoadClassLevel::Local,
        ]);
    }
    order
}

/// The tiles the budget lets through, scanning levels front to back with
/// `used` tiles already counted: each level is taken whole while the running
/// count after it stays under the ceiling, and the first level that would
/// reach the ceiling stops the scan for good.
pub open spec fn budgeted_tiles(levels: Seq<Seq<TileId>>, used: int) -> Seq<TileId>
    decreases levels.len(),
{
    if levels.len() == 0 {
        Seq::empty()
    } else if used + levels[0].len() < TILE_SCAN_LIMIT {
        levels[0] + budgeted_tiles(levels.drop_first(), used + levels[0].len())
    } else {
        Seq::empty()
    }
}

/// The views of the per-level tile lists.
pub open spec fn level_views(levels: Seq<Vec<TileId>>) -> Seq<Seq<TileId>> {
    levels.map_values(|level: Vec<TileId>| level@)
}

/// The ceiling is hard: a budgeted scan never reaches it.
pub proof fn lemma_budget_bounded(levels: Seq<Seq<TileId>>, used: int)
    requires
        0 <= used,
    ensures
        budgeted_tiles(levels, used).len() == 0 || used + budgeted_tiles(levels, used).len()
            < TILE_SCAN_LIMIT,
    decreases levels.len(),
{
    if levels.len() != 0 && used + levels[0].len() < TILE_SCAN_LIMIT {
        lemma_budget_bounded(levels.drop_first(), used + levels[0].len());
    }
}

/// Flattens the per-level tile lists into the fetch list the budget allows.
pub fn budget_tiles(levels: &Vec<Vec<TileId>>) -> (r: Vec<TileId>)
    ensures
        r@ == budgeted_tiles(level_views(levels@), 0),
        r@.len() < TILE_SCAN_LIMIT,
{
    let ghost all = level_views(levels@);
    let mut out: Vec<TileId> = Vec::new();
    let mut used: usize = 0;
    let mut li: usize = 0;
    proof {
        assert(all.skip(0) =~= all);
        assert(out@ + budgeted_tiles(all, 0) =~= budgeted_tiles(all, 0));
    }
    while li < levels.len() && levels[li].len() < TILE_SCAN_LIMIT - used
        invariant
            0 <= li <= levels.len(),
            used < TILE_SCAN_LIMIT,
            used == out.len(),
            all == level_views(levels@),
            budgeted_tiles(all, 0) == out@ + budgeted_tiles(all.skip(li as int), used as int),
        decreases levels.len() - li,
    {
        let level = &levels[li];
        let mut ti: usize = 0;
        let ghost out_before = out@;
        while ti < level.len()
            invariant
                0 <= ti <= level.len(),
                level@ == all[li as int],
                li < levels.len(),
                all == level_views(levels@),
                out@ == out_before + level@.subrange(0, ti as int),
            decreases level.len() - ti,
        {
            out.push(level[ti]);
            assert(out@ == out_before + level@.subrange(0, ti + 1));
            ti += 1;
        }
        assert(out@ == out_before + all[li as int]);
        proof {
            assert(all.skip(li as int).drop_first() =~= all.skip(li + 1));
            assert(budgeted_tiles(all.skip(li as int), used as int) == all[li as int]
                + budgeted_tiles(all.skip(li + 1), used + all[li as int].len()));
            assert(budgeted_tiles(all, 0) == out@ + budgeted_tiles(
                all.skip(li + 1),
                used + all[li as int].len(),
            ));
        }
        used += level.len();
        li += 1;
    }
    proof {
        if li == levels.len() {
            assert(all.skip(li as int) =~= Seq::empty());
        }
        assert(budgeted_tiles(all.skip(li as int), used as int) =~= Seq::empty());
        assert(budgeted_tiles(all, 0) =~= out@);
        lemma_budget_bounded(all, 0);
    }
    out
}

} // verus!
