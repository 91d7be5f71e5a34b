//! Per-region state: the three id-sets (players, NPCs, ground items) and the
//! positional grid that indexes every resident entity at its current tile.
//!
//! The governing invariant is `consistent`: an id is registered in one of a
//! region's id-sets exactly when the region's grid indexes it, and the grid
//! never indexes an id twice. Set and grid always move together in the
//! public flows, so the invariant survives every add/remove sequence.

use vstd::prelude::*;

use crate::gametypes::{GlobalKey, MapPosition, Position};

verus! {

broadcast use vstd::seq_lib::group_seq_properties;

/// One grid slot: an entity indexed at a tile of this region.
#[derive(Clone, Copy, Debug, PartialEq, Eq, Structural)]
pub struct GridEntry {
    pub id: GlobalKey,
    pub x: i32,
    pub y: i32,
}

/// No id occurs at two indices of a grid sequence.
pub open spec fn grid_unique(g: Seq<GridEntry>) -> bool {
    forall|i: int, j: int| 0 <= i < j < g.len() ==> g[i].id != g[j].id
}

/// No key occurs at two indices of an id sequence.
pub open spec fn ids_unique(s: Seq<GlobalKey>) -> bool {
    forall|i: int, j: int| 0 <= i < j < s.len() ==> s[i] != s[j]
}

/// True when some index of `v` holds `id`.
pub fn ids_contain(v: &Vec<GlobalKey>, id: GlobalKey) -> (r: bool)
    ensures
        r == v@.contains(id),
{
    let mut i: usize = 0;
    while i < v.len()
        invariant
            i <= v@.len(),
            forall|j: int| 0 <= j < i ==> v@[j] != id,
        decreases v@.len() - i,
    {
        if v[i] == id {
            return true;
        }
        i += 1;
    }
    false
}

/// Adds `id` unless present; the sequence stays duplicate-free.
pub fn ids_insert(v: &mut Vec<GlobalKey>, id: GlobalKey)
    requires
        ids_unique(old(v)@),
    ensures
        ids_unique(final(v)@),
        final(v)@ == (if old(v)@.contains(id) {
            old(v)@
        } else {
            old(v)@.push(id)
        }),
        forall|x: GlobalKey| final(v)@.contains(x) <==> (old(v)@.contains(x) || x == id),
{
    if !ids_contain(v, id) {
        v.push(id);
    }
}

/// Removes `id` if present; everything else stays.
pub fn ids_remove(v: &mut Vec<GlobalKey>, id: GlobalKey)
    requires
        ids_unique(old(v)@),
    ensures
        ids_unique(final(v)@),
        forall|x: GlobalKey| final(v)@.contains(x) <==> (old(v)@.contains(x) && x != id),
{
    let ghost orig = v@;
    let mut i: usize = 0;
    while i < v.len()
        invariant
            v@ == orig,
            orig == old(v)@,
            ids_unique(orig),
            i <= v@.len(),
            forall|j: int| 0 <= j < i ==> v@[j] != id,
        decreases v@.len() - i,
    {
        if v[i] == id {
            v.remove(i);
            proof {
                let t = v@;
                orig.remove_ensures(i as int);
                assert(orig[i as int] == id);
                assert forall|x: GlobalKey| t.contains(x) implies (orig.contains(x) && x != id) by {
                    let j = choose|j: int| 0 <= j < t.len() && t[j] == x;
                    if j < i {
                        assert(orig.remove(i as int)[j] == orig[j]);
                    } else {
                        assert(orig.remove(i as int)[j] == orig[j + 1]);
                        assert(orig[j + 1] != id);
                    }
                }
                assert forall|x: GlobalKey| (orig.contains(x) && x != id) implies t.contains(x) by {
                    let j = choose|j: int| 0 <= j < orig.len() && orig[j] == x;
                    assert(j != i);
                    if j < i {
                        assert(orig.remove(i as int)[j] == orig[j]);
                        assert(t[j] == x);
                    } else {
                        assert(orig.remove(i as int)[j - 1] == orig[j]);
                        assert(t[j - 1] == x);
                    }
                }
                assert forall|p: int, q: int| 0 <= p < q < t.len() implies t[p] != t[q] by {
                    let p0: int = if p < i { p } else { p + 1 };
                    let q0: int = if q < i { q } else { q + 1 };
                    assert(orig.remove(i as int)[p] == orig[p0]);
                    assert(orig.remove(i as int)[q] == orig[q0]);
                }
            }
            return ;
        }
        i += 1;
    }
    proof {
        assert forall|x: GlobalKey| v@.contains(x) implies x != id by {
            let j = choose|j: int| 0 <= j < v@.len() && v@[j] == x;
        }
    }
}

/// The index of `id` in the grid, if it is indexed.
fn grid_find(g: &Vec<GridEntry>, id: GlobalKey) -> (r: Option<usize>)
    ensures
        match r {
            Some(i) => i < g@.len() && g@[i as int].id == id,
            None => forall|j: int| 0 <= j < g@.len() ==> g@[j].id != id,
        },
{
    let mut i: usize = 0;
    while i < g.len()
        invariant
            i <= g@.len(),
            forall|j: int| 0 <= j < i ==> g@[j].id != id,
        decreases g@.len() - i,
    {
        if g[i].id == id {
            return Some(i);
        }
        i += 1;
    }
    None
}

/// Unindexes `id`, wherever it stands; all other entries stay.
fn grid_remove(g: &mut Vec<GridEntry>, id: GlobalKey)
    requires
        grid_unique(old(g)@),
    ensures
        grid_unique(final(g)@),
        forall|e: GridEntry| final(g)@.contains(e) <==> (old(g)@.contains(e) && e.id != id),
{
    let ghost orig = g@;
    if let Some(i) = grid_find(g, id) {
        g.remove(i);
        proof {
            let t = g@;
            orig.remove_ensures(i as int);
            assert forall|e: GridEntry| t.contains(e) implies (orig.contains(e) && e.id != id) by {
                let j = choose|j: int| 0 <= j < t.len() && t[j] == e;
                if j < i {
                    assert(orig[j] == e);
                    assert(j != i);
                } else {
                    assert(orig[j + 1] == e);
                    assert(orig[j + 1].id != id);
                }
            }
            assert forall|e: GridEntry| (orig.contains(e) && e.id != id) implies t.contains(e) by {
                let j = choose|j: int| 0 <= j < orig.len() && orig[j] == e;
                assert(j != i);
                if j < i {
                    assert(t[j] == e);
                } else {
                    assert(t[j - 1] == e);
                }
            }
            assert forall|p: int, q: int| 0 <= p < q < t.len() implies t[p].id != t[q].id by {
                let p0: int = if p < i as int { p } else { p + 1 };
                let q0: int = if q < i as int { q } else { q + 1 };
                assert(t[p] == orig[p0] && t[q] == orig[q0]);
            }
        }
    } else {
        proof {
            assert forall|e: GridEntry| g@.contains(e) implies e.id != id by {
                let j = choose|j: int| 0 <= j < g@.len() && g@[j] == e;
            }
        }
    }
}

/// A logical world region: id-sets per category and the occupancy grid.
#[derive(Debug)]
pub struct GameMap {
    pub players: Vec<GlobalKey>,
    pub npcs: Vec<GlobalKey>,
    pub itemids: Vec<GlobalKey>,
    pub grid: Vec<GridEntry>,
}

impl GameMap {
    /// The structural invariant: no duplicate ids anywhere.
    pub open spec fn wf(self) -> bool {
        &&& ids_unique(self.players@)
        &&& ids_unique(self.npcs@)
        &&& ids_unique(self.itemids@)
        &&& grid_unique(self.grid@)
    }

    pub open spec fn has_player(self, id: GlobalKey) -> bool {
        self.players@.contains(id)
    }

    pub open spec fn has_npc(self, id: GlobalKey) -> bool {
        self.npcs@.contains(id)
    }

    pub open spec fn has_item(self, id: GlobalKey) -> bool {
        self.itemids@.contains(id)
    }

    /// Registered in any of the region's id-sets.
    pub open spec fn in_sets(self, id: GlobalKey) -> bool {
        self.has_player(id) || self.has_npc(id) || self.has_item(id)
    }

    /// Indexed somewhere on the grid.
    pub open spec fn grid_has(self, id: GlobalKey) -> bool {
        exists|i: int| 0 <= i < self.grid@.len() && self.grid@[i].id == id
    }

    /// Indexed on the grid at the given tile.
    pub open spec fn grid_has_at(self, id: GlobalKey, x: i32, y: i32) -> bool {
        self.grid@.contains(GridEntry { id, x, y })
    }

    /// Set/grid consistency: an id is in the region's id-sets exactly when
    /// the grid indexes it.
    pub open spec fn consistent(self) -> bool {
        forall|id: GlobalKey| #[trigger] self.in_sets(id) <==> self.grid_has(id)
    }

    /// An empty region.
    pub fn new() -> (r: GameMap)
        ensures
            r.wf(),
            r.consistent(),
            r.players@.len() == 0,
            r.npcs@.len() == 0,
            r.itemids@.len() == 0,
            r.grid@.len() == 0,
    {
        GameMap { players: Vec::new(), npcs: Vec::new(), itemids: Vec::new(), grid: Vec::new() }
    }

    /// Registers a player id in this region's player set.
    pub fn add_player(&mut self, id: GlobalKey)
        requires
            old(self).wf(),
        ensures
            final(self).wf(),
            forall|x: GlobalKey|
                final(self).has_player(x) <==> (old(self).has_player(x) || x == id),
            final(self).npcs == old(self).npcs,
            final(self).itemids == old(self).itemids,
            final(self).grid == old(self).grid,
    {
        ids_insert(&mut self.players, id);
    }

    /// Drops a player id from this region's player set.
    pub fn remove_player(&mut self, id: GlobalKey)
        requires
            old(self).wf(),
        ensures
            final(self).wf(),
            forall|x: GlobalKey|
                final(self).has_player(x) <==> (old(self).has_player(x) && x != id),
            final(self).npcs == old(self).npcs,
            final(self).itemids == old(self).itemids,
            final(self).grid == old(self).grid,
    {
        ids_remove(&mut self.players, id);
    }

    /// Registers an NPC id in this region's NPC set.
    pub fn add_npc(&mut self, id: GlobalKey)
        requires
            old(self).wf(),
        ensures
            final(self).wf(),
            forall|x: GlobalKey| final(self).has_npc(x) <==> (old(self).has_npc(x) || x == id),
            final(self).players == old(self).players,
            final(self).itemids == old(self).itemids,
            final(self).grid == old(self).grid,
    {
        ids_insert(&mut self.npcs, id);
    }

    /// Drops an NPC id from this region's NPC set.
    pub fn remove_npc(&mut self, id: GlobalKey)
        requires
            old(self).wf(),
        ensures
            final(self).wf(),
            forall|x: GlobalKey| final(self).has_npc(x) <==> (old(self).has_npc(x) && x != id),
            final(self).players == old(self).players,
            final(self).itemids == old(self).itemids,
            final(self).grid == old(self).grid,
    {
        ids_remove(&mut self.npcs, id);
    }

    /// Registers a ground-item id in this region's item set.
    pub fn add_item(&mut self, id: GlobalKey)
        requires
            old(self).wf(),
        ensures
            final(self).wf(),
            forall|x: GlobalKey| final(self).has_item(x) <==> (old(self).has_item(x) || x == id),
            final(self).players == old(self).players,
            final(self).npcs == old(self).npcs,
            final(self).grid == old(self).grid,
    {
        ids_insert(&mut self.itemids, id);
    }

    /// Drops a ground-item id from this region's item set.
    pub fn remove_item(&mut self, id: GlobalKey)
        requires
            old(self).wf(),
        ensures
            final(self).wf(),
            forall|x: GlobalKey| final(self).has_item(x) <==> (old(self).has_item(x) && x != id),
            final(self).players == old(self).players,
            final(self).npcs == old(self).npcs,
            final(self).grid == old(self).grid,
    {
        ids_remove(&mut self.itemids, id);
    }

    /// Indexes `id` at the tile of `pos`; any earlier slot of `id` is
    /// dropped first, so the id is never indexed twice.
    pub fn add_entity_to_grid(&mut self, id: GlobalKey, pos: Position)
        requires
            old(self).wf(),
        ensures
            final(self).wf(),
            forall|e: GridEntry|
                final(self).grid@.contains(e) <==> ((old(self).grid@.contains(e) && e.id != id)
                    || e == (GridEntry { id, x: pos.x, y: pos.y })),
            forall|x: GlobalKey| final(self).grid_has(x) <==> (old(self).grid_has(x) || x == id),
            final(self).grid_has_at(id, pos.x, pos.y),
            final(self).players == old(self).players,
            final(self).npcs == old(self).npcs,
            final(self).itemids == old(self).itemids,
    {
        grid_remove(&mut self.grid, id);
        let ghost mid = self.grid@;
        let entry = GridEntry { id, x: pos.x, y: pos.y };
        self.grid.push(entry);
        proof {
            let t = self.grid@;
            assert(t.last() == entry);
            assert(t.drop_last() =~= mid);
            assert forall|p: int, q: int| 0 <= p < q < t.len() implies t[p].id != t[q].id by {
                if q == t.len() - 1 {
                    assert(t[p] == mid[p]);
                    assert(mid.contains(mid[p]));
                }
            }
            assert forall|x: GlobalKey| self.grid_has(x) implies (old(self).grid_has(x) || x
                == id) by {
                let i = choose|i: int| 0 <= i < t.len() && t[i].id == x;
                if i < t.len() - 1 {
                    assert(t.drop_last().contains(t[i]));
                    let e = t[i];
                    assert(old(self).grid@.contains(e));
                    let j = choose|j: int|
                        0 <= j < old(self).grid@.len() && old(self).grid@[j] == e;
                }
            }
            assert forall|x: GlobalKey| (old(self).grid_has(x) || x == id) implies self.grid_has(
                x,
            ) by {
                if x == id {
                    assert(t[t.len() - 1].id == id);
                } else {
                    let i = choose|i: int|
                        0 <= i < old(self).grid@.len() && old(self).grid@[i].id == x;
                    let e = old(self).grid@[i];
                    assert(t.contains(e));
                    let j = choose|j: int| 0 <= j < t.len() && t[j] == e;
                }
            }
        }
    }

    /// Unindexes `id` from the grid; every other id keeps its tile.
    pub fn remove_entity_from_grid(&mut self, id: GlobalKey)
        requires
            old(self).wf(),
        ensures
            final(self).wf(),
            forall|e: GridEntry|
                final(self).grid@.contains(e) <==> (old(self).grid@.contains(e) && e.id != id),
            forall|x: GlobalKey| final(self).grid_has(x) <==> (old(self).grid_has(x) && x != id),
            final(self).players == old(self).players,
            final(self).npcs == old(self).npcs,
            final(self).itemids == old(self).itemids,
    {
        grid_remove(&mut self.grid, id);
        proof {
            let t = self.grid@;
            assert forall|x: GlobalKey| self.grid_has(x) implies (old(self).grid_has(x) && x
                != id) by {
                let i = choose|i: int| 0 <= i < t.len() && t[i].id == x;
                let e = t[i];
                assert(old(self).grid@.contains(e));
                let j = choose|j: int| 0 <= j < old(self).grid@.len() && old(self).grid@[j] == e;
            }
            assert forall|x: GlobalKey| (old(self).grid_has(x) && x != id) implies self.grid_has(
                x,
            ) by {
                let i = choose|i: int| 0 <= i < old(self).grid@.len() && old(self).grid@[i].id == x;
                let e = old(self).grid@[i];
                assert(t.contains(e));
                let j = choose|j: int| 0 <= j < t.len() && t[j] == e;
            }
        }
    }
}

/// The deterministic surrounding set of a region: the region itself (first,
/// when included) followed by its eight neighbours in row-major order.
pub open spec fn surrounding_spec(map: MapPosition, include_self: bool) -> Seq<MapPosition> {
    let neighbours = seq![
        MapPosition { x: (map.x - 1) as i32, y: (map.y - 1) as i32, group: map.group },
        MapPosition { x: map.x, y: (map.y - 1) as i32, group: map.group },
        MapPosition { x: (map.x + 1) as i32, y: (map.y - 1) as i32, group: map.group },
        MapPosition { x: (map.x - 1) as i32, y: map.y, group: map.group },
        MapPosition { x: (map.x + 1) as i32, y: map.y, group: map.group },
        MapPosition { x: (map.x - 1) as i32, y: (map.y + 1) as i32, group: map.group },
        MapPosition { x: map.x, y: (map.y + 1) as i32, group: map.group },
        MapPosition { x: (map.x + 1) as i32, y: (map.y + 1) as i32, group: map.group },
    ];
    if include_self {
        seq![map] + neighbours
    } else {
        neighbours
    }
}

/// The region plus its configured neighbours; the region itself comes first
/// so its own contents always load before any neighbour's.
pub fn get_surrounding(map: MapPosition, include_self: bool) -> (r: Vec<MapPosition>)
    requires
        i32::MIN < map.x < i32::MAX,
        i32::MIN < map.y < i32::MAX,
    ensures
        r@ == surrounding_spec(map, include_self),
{
    let mut r: Vec<MapPosition> = Vec::new();
    if include_self {
        r.push(map);
    }
    r.push(MapPosition { x: map.x - 1, y: map.y - 1, group: map.group });
    r.push(MapPosition { x: map.x, y: map.y - 1, group: map.group });
    r.push(MapPosition { x: map.x + 1, y: map.y - 1, group: map.group });
    r.push(MapPosition { x: map.x - 1, y: map.y, group: map.group });
    r.push(MapPosition { x: map.x + 1, y: map.y, group: map.group });
    r.push(MapPosition { x: map.x - 1, y: map.y + 1, group: map.group });
    r.push(MapPosition { x: map.x, y: map.y + 1, group: map.group });
    r.push(MapPosition { x: map.x + 1, y: map.y + 1, group: map.group });
    proof {
        assert(r@ =~= surrounding_spec(map, include_self));
    }
    r
}

} // verus!
