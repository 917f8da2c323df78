//! Grid positions, sparse chunked terrain maps and cardinal directions.
use vstd::prelude::*;
use std::collections::BTreeMap;
use vstd::std_specs::iter::IteratorSpec;

verus! {

broadcast use vstd::std_specs::btree::group_btree_axioms;

pub const CHUNK_SIZE_XY: i32 = 32;
pub const CHUNK_SIZE_Z: i32 = 8;

#[derive(Clone, Copy, Debug, Default, PartialEq, Eq, Structural, PartialOrd, Ord)]
pub struct MapId(pub u32);

#[derive(Clone, Copy, Debug, Default, PartialEq, Eq, Structural, PartialOrd, Ord)]
pub struct GridPos {
    pub x: i32,
    pub y: i32,
    pub z: i16,
}

impl GridPos {
    pub fn new(x: i32, y: i32, z: i16) -> (p: Self)
        ensures
            p == (GridPos { x, y, z }),
    {
        GridPos { x, y, z }
    }

    /// The position displaced by the given amounts on each axis.
    pub fn offset(self, dx: i32, dy: i32, dz: i16) -> (p: Self)
        requires
            i32::MIN <= self.x + dx <= i32::MAX,
            i32::MIN <= self.y + dy <= i32::MAX,
            i16::MIN <= self.z + dz <= i16::MAX,
        ensures
            p.x == self.x + dx,
            p.y == self.y + dy,
            p.z == self.z + dz,
    {
        GridPos { x: self.x + dx, y: self.y + dy, z: self.z + dz }
    }
}

#[derive(Clone, Copy, Debug, Default, PartialEq, Eq, Structural, PartialOrd, Ord)]
pub struct WorldPosition {
    pub map: MapId,
    pub grid: GridPos,
}

#[derive(Clone, Copy, Debug, PartialEq, Eq, Structural, PartialOrd, Ord)]
pub struct ChunkCoord {
    pub x: i32,
    pub y: i32,
    pub z: i32,
}

#[derive(Clone, Copy, Debug, PartialEq, Eq, Structural, PartialOrd, Ord)]
pub struct LocalPos {
    pub x: u8,
    pub y: u8,
    pub z: u8,
}

/// The chunk holding a position (Euclidean division on each axis).
pub open spec fn chunk_of(p: GridPos) -> ChunkCoord {
    ChunkCoord {
        x: (p.x as int / 32) as i32,
        y: (p.y as int / 32) as i32,
        z: (p.z as int / 8) as i32,
    }
}

/// The position inside its chunk (Euclidean remainder on each axis).
pub open spec fn local_of(p: GridPos) -> LocalPos {
    LocalPos { x: (p.x as int % 32) as u8, y: (p.y as int % 32) as u8, z: (p.z as int % 8) as u8 }
}

/// The absolute coordinates of a local position inside a chunk, before narrowing.
pub open spec fn resolved_x(chunk: ChunkCoord, local: LocalPos) -> int {
    chunk.x * 32 + local.x
}

pub open spec fn resolved_y(chunk: ChunkCoord, local: LocalPos) -> int {
    chunk.y * 32 + local.y
}

pub open spec fn resolved_z(chunk: ChunkCoord, local: LocalPos) -> int {
    chunk.z * 8 + local.z
}

/// Whether resolving `local` inside `chunk` stays within the coordinate types.
pub open spec fn resolvable(chunk: ChunkCoord, local: LocalPos) -> bool {
    &&& i32::MIN <= chunk.x * 32 <= i32::MAX
    &&& i32::MIN <= chunk.y * 32 <= i32::MAX
    &&& i32::MIN <= chunk.z * 8 <= i32::MAX
    &&& i32::MIN <= resolved_x(chunk, local) <= i32::MAX
    &&& i32::MIN <= resolved_y(chunk, local) <= i32::MAX
    &&& i32::MIN <= resolved_z(chunk, local) <= i32::MAX
}

impl ChunkCoord {
    /// Splits a position into the chunk that holds it and its offset inside that chunk.
    pub fn containing(position: GridPos) -> (r: (Self, LocalPos))
        ensures
            r.0 == chunk_of(position),
            r.1 == local_of(position),
    {
        let z = position.z as i32;
        let cx = position.x.checked_div_euclid(CHUNK_SIZE_XY).unwrap();
        let cy = position.y.checked_div_euclid(CHUNK_SIZE_XY).unwrap();
        let cz = z.checked_div_euclid(CHUNK_SIZE_Z).unwrap();
        let lx = position.x.checked_rem_euclid(CHUNK_SIZE_XY).unwrap();
        let ly = position.y.checked_rem_euclid(CHUNK_SIZE_XY).unwrap();
        let lz = z.checked_rem_euclid(CHUNK_SIZE_Z).unwrap();
        (ChunkCoord { x: cx, y: cy, z: cz }, LocalPos { x: lx as u8, y: ly as u8, z: lz as u8 })
    }

    /// The absolute position of `local` inside this chunk.
    pub fn resolve(self, local: LocalPos) -> (p: GridPos)
        requires
            resolvable(self, local),
        ensures
            p.x == resolved_x(self, local),
            p.y == resolved_y(self, local),
            p.z == resolved_z(self, local) as i16,
    {
        GridPos {
            x: self.x * CHUNK_SIZE_XY + local.x as i32,
            y: self.y * CHUNK_SIZE_XY + local.y as i32,
            z: (self.z * CHUNK_SIZE_Z + local.z as i32) as i16,
        }
    }
}

/// Splitting a position into chunk and local offset loses nothing: resolving
/// the parts gives the position back, for every position, negative ones too.
pub proof fn lemma_chunk_round_trip(p: GridPos)
    ensures
        resolvable(chunk_of(p), local_of(p)),
        resolved_x(chunk_of(p), local_of(p)) == p.x,
        resolved_y(chunk_of(p), local_of(p)) == p.y,
        resolved_z(chunk_of(p), local_of(p)) == p.z,
        resolved_z(chunk_of(p), local_of(p)) as i16 == p.z,
{
    vstd::arithmetic::div_mod::lemma_fundamental_div_mod(p.x as int, 32);
    vstd::arithmetic::div_mod::lemma_fundamental_div_mod(p.y as int, 32);
    vstd::arithmetic::div_mod::lemma_fundamental_div_mod(p.z as int, 8);
    assert(i32::MIN <= (p.x as int / 32) * 32 <= i32::MAX) by (nonlinear_arith)
        requires
            p.x as int == 32 * (p.x as int / 32) + p.x as int % 32,
            0 <= p.x as int % 32 < 32,
            i32::MIN <= p.x <= i32::MAX,
    ;
    assert(i32::MIN <= (p.y as int / 32) * 32 <= i32::MAX) by (nonlinear_arith)
        requires
            p.y as int == 32 * (p.y as int / 32) + p.y as int % 32,
            0 <= p.y as int % 32 < 32,
            i32::MIN <= p.y <= i32::MAX,
    ;
    assert(i16::MIN - 7 <= (p.z as int / 8) * 8 <= i16::MAX) by (nonlinear_arith)
        requires
            p.z as int == 8 * (p.z as int / 8) + p.z as int % 8,
            0 <= p.z as int % 8 < 8,
            i16::MIN <= p.z <= i16::MAX,
    ;
}

/// Different positions never share both chunk and local offset.
pub proof fn lemma_chunk_split_injective(p: GridPos, q: GridPos)
    requires
        chunk_of(p) == chunk_of(q),
        local_of(p) == local_of(q),
    ensures
        p == q,
{
    lemma_chunk_round_trip(p);
    lemma_chunk_round_trip(q);
}

#[derive(Clone, Copy, Debug, Default, PartialEq, Eq, Structural, PartialOrd, Ord)]
pub enum TerrainKind {
    #[default]
    Grass,
    Forest,
    Hills,
    Mountain,
    Sand,
    Snow,
    Swamp,
    Dirt,
    Road,
    Ocean,
    Water,
    Bridge,
    StoneFloor,
    Wall,
    Farmland,
    Rubble,
    StairsUp,
    StairsDown,
}

#[derive(Clone, Copy, Debug, Default, PartialEq, Eq, Structural)]
pub struct TerrainCell {
    pub terrain: TerrainKind,
    pub movement_blocked: bool,
    pub sight_blocked: bool,
}

/// Terrain that nothing can walk onto.
pub open spec fn terrain_blocks_movement(terrain: TerrainKind) -> bool {
    terrain == TerrainKind::Ocean || terrain == TerrainKind::Water || terrain
        == TerrainKind::Mountain || terrain == TerrainKind::Wall
}

/// Terrain that stops a line of sight.
pub open spec fn terrain_blocks_sight(terrain: TerrainKind) -> bool {
    terrain == TerrainKind::Wall
}

impl TerrainCell {
    pub fn new(terrain: TerrainKind) -> (cell: Self)
        ensures
            cell.terrain == terrain,
            cell.movement_blocked == terrain_blocks_movement(terrain),
            cell.sight_blocked == terrain_blocks_sight(terrain),
    {
        let movement_blocked = match terrain {
            TerrainKind::Ocean | TerrainKind::Water | TerrainKind::Mountain | TerrainKind::Wall => true,
            _ => false,
        };
        let sight_blocked = match terrain {
            TerrainKind::Wall => true,
            _ => false,
        };
        TerrainCell { terrain, movement_blocked, sight_blocked }
    }
}

/// The key under which a chunk stores a local position.
pub open spec fn local_key(p: LocalPos) -> (u8, u8, u8) {
    (p.x, p.y, p.z)
}

/// The key under which a map stores a chunk.
pub open spec fn chunk_key(c: ChunkCoord) -> (i32, i32, i32) {
    (c.x, c.y, c.z)
}

/// A 32x32x8 block of sparse terrain.
#[derive(Clone, Debug, Default, PartialEq, Eq)]
pub struct Chunk {
    cells: BTreeMap<(u8, u8, u8), TerrainCell>,
}

impl Chunk {
    /// The terrain stored at a local position, if any.
    pub closed spec fn cell_at(self, p: LocalPos) -> Option<TerrainCell> {
        if self.cells@.contains_key(local_key(p)) {
            Some(self.cells@[local_key(p)])
        } else {
            None
        }
    }

    /// Number of cells stored.
    pub closed spec fn cell_count(self) -> nat {
        self.cells@.len()
    }

    pub fn empty() -> (chunk: Self)
        ensures
            forall|p: LocalPos| #[trigger] chunk.cell_at(p).is_none(),
    {
        Chunk { cells: BTreeMap::new() }
    }

    pub fn cell(&self, position: LocalPos) -> (cell: Option<&TerrainCell>)
        ensures
            match self.cell_at(position) {
                Some(c) => cell == Some(&c),
                None => cell.is_none(),
            },
    {
        self.cells.get(&(position.x, position.y, position.z))
    }

    pub fn set_cell(&mut self, position: LocalPos, cell: TerrainCell)
        ensures
            final(self).cell_at(position) == Some(cell),
            forall|q: LocalPos| q != position ==> #[trigger] final(self).cell_at(q) == old(self).cell_at(q),
    {
        self.cells.insert((position.x, position.y, position.z), cell);
        assert forall|q: LocalPos| q != position implies #[trigger] self.cell_at(q) == old(self).cell_at(q) by {
            assert(local_key(q) != local_key(position));
        }
    }
}

/// A sparse terrain map made of chunks.
#[derive(Clone, Debug, PartialEq, Eq)]
pub struct WorldMap {
    pub id: MapId,
    pub chunks: BTreeMap<(i32, i32, i32), Chunk>,
}

impl WorldMap {
    /// The terrain at a position, if the map holds any there.
    pub open spec fn cell_at(self, p: GridPos) -> Option<TerrainCell> {
        let key = chunk_key(chunk_of(p));
        if self.chunks@.contains_key(key) {
            self.chunks@[key].cell_at(local_of(p))
        } else {
            None
        }
    }

    /// Number of chunks the map has allocated.
    pub open spec fn chunk_total(self) -> nat {
        self.chunks@.len()
    }

    pub fn new(id: MapId) -> (map: Self)
        ensures
            map.id == id,
            map.chunk_total() == 0,
            forall|p: GridPos| #[trigger] map.cell_at(p).is_none(),
            map.stored_where_placed(),
    {
        WorldMap { id, chunks: BTreeMap::new() }
    }

    pub fn cell(&self, position: GridPos) -> (cell: Option<&TerrainCell>)
        ensures
            match self.cell_at(position) {
                Some(c) => cell == Some(&c),
                None => cell.is_none(),
            },
    {
        let (chunk, local) = ChunkCoord::containing(position);
        match self.chunks.get(&(chunk.x, chunk.y, chunk.z)) {
            Some(c) => c.cell(local),
            None => None,
        }
    }

    /// Stores terrain at a position, allocating its chunk when needed. Every
    /// other position keeps its terrain.
    pub fn set_cell(&mut self, position: GridPos, cell: TerrainCell)
        ensures
            final(self).id == old(self).id,
            final(self).cell_at(position) == Some(cell),
            forall|q: GridPos| q != position ==> #[trigger] final(self).cell_at(q) == old(self).cell_at(q),
            final(self).chunk_total() == old(self).chunk_total() + if old(self).chunks@.contains_key(
                chunk_key(chunk_of(position)),
            ) {
                0int
            } else {
                1int
            },
            final(self).chunks@.dom() == old(self).chunks@.dom().insert(chunk_key(chunk_of(position))),
            old(self).stored_where_placed() ==> final(self).stored_where_placed(),
            old(self).stored_where_placed() ==> final(self).chunk_total() == old(self).chunk_total() + if old(
                self,
            ).chunk_in_use(position) {
                0int
            } else {
                1int
            },
    {
        let (chunk, local) = ChunkCoord::containing(position);
        let key = (chunk.x, chunk.y, chunk.z);
        let mut target = match self.chunks.get(&key) {
            Some(c) => c.clone_chunk(),
            None => Chunk::empty(),
        };
        target.set_cell(local, cell);
        let ghost before = *old(self);
        self.chunks.insert(key, target);
        proof {
            assert(self.chunks@.dom() =~= before.chunks@.dom().insert(key));
            assert(before.chunks@.dom().finite());
        }
        assert forall|q: GridPos| q != position implies #[trigger] self.cell_at(q) == before.cell_at(q) by {
            if chunk_key(chunk_of(q)) == key {
                if local_of(q) == local {
                    lemma_chunk_split_injective(q, position);
                }
            }
        }
        proof {
            if before.stored_where_placed() {
                assert forall|k: (i32, i32, i32), l: LocalPos|
                    self.chunks@.contains_key(k) && #[trigger] self.chunks@[k].cell_at(l) is Some implies exists|p: GridPos|
                        chunk_key(chunk_of(p)) == k && local_of(p) == l by {
                    if k == key {
                        if l == local {
                            assert(chunk_key(chunk_of(position)) == k && local_of(position) == l);
                        } else {
                            assert(before.chunks@.contains_key(k));
                            assert(before.chunks@[k].cell_at(l) is Some);
                        }
                    } else {
                        assert(before.chunks@[k] == self.chunks@[k]);
                    }
                }
                assert forall|k: (i32, i32, i32)| #[trigger] self.chunks@.contains_key(k) implies exists|l: LocalPos|
                    self.chunks@[k].cell_at(l) is Some by {
                    if k == key {
                        assert(self.chunks@[k].cell_at(local) is Some);
                    } else {
                        assert(before.chunks@.contains_key(k));
                        assert(before.chunks@[k] == self.chunks@[k]);
                        let l = choose|l: LocalPos| before.chunks@[k].cell_at(l) is Some;
                        assert(self.chunks@[k].cell_at(l) is Some);
                    }
                }
                if before.chunks@.contains_key(key) {
                    let l = choose|l: LocalPos| before.chunks@[key].cell_at(l) is Some;
                    assert(before.chunks@[key].cell_at(l) is Some);
                    let p = choose|p: GridPos| chunk_key(chunk_of(p)) == key && local_of(p) == l;
                    assert(chunk_of(p) == chunk_of(position));
                    assert(before.cell_at(p) is Some);
                    assert(before.chunk_in_use(position));
                } else {
                    assert(!before.chunk_in_use(position)) by {
                        if before.chunk_in_use(position) {
                            let q = choose|q: GridPos| chunk_of(q) == chunk_of(position) && #[trigger] before.cell_at(q) is Some;
                            assert(chunk_key(chunk_of(q)) == key);
                        }
                    }
                }
            }
        }
    }

    pub fn chunk_count(&self) -> (count: usize)
        ensures
            count == self.chunk_total(),
    {
        self.chunks.len()
    }
}

impl Chunk {
    fn clone_chunk(&self) -> (c: Self)
        ensures
            forall|p: LocalPos| #[trigger] c.cell_at(p) == self.cell_at(p),
    {
        Chunk { cells: self.cells.clone() }
    }
}

impl Chunk {
    /// The local positions at which the chunk stores terrain, each once.
    fn local_keys(&self) -> (keys: Vec<(u8, u8, u8)>)
        ensures
            keys@.no_duplicates(),
            keys@.to_set() == self.cells@.dom(),
    {
        let mut keys: Vec<(u8, u8, u8)> = Vec::new();
        for k in it: self.cells.keys()
            invariant
                it.seq() == vstd::std_specs::btree::spec_keys_iter(&self.cells).remaining(),
                keys@ == it.seq().take(it.index() as int).map_values(|r: &(u8, u8, u8)| *r),
        {
            keys.push(*k);
            proof {
                assert(keys@ =~= it.seq().take(it.index() + 1).map_values(|r: &(u8, u8, u8)| *r));
            }
        }
        proof {
            let rem = vstd::std_specs::btree::spec_keys_iter(&self.cells).remaining();
            assert(keys@ =~= rem.map_values(|r: &(u8, u8, u8)| *r));
            assert(keys@ =~= rem.unref());
        }
        keys
    }

    /// Every local position the chunk stores, with its terrain, each position once.
    pub fn cells(&self) -> (cells: Vec<(LocalPos, TerrainCell)>)
        ensures
            cells@.len() == self.cell_count(),
            forall|i: int| 0 <= i < cells@.len() ==> self.cell_at((#[trigger] cells@[i]).0) == Some(cells@[i].1),
            forall|p: LocalPos| #[trigger] self.cell_at(p) is Some ==> exists|i: int| 0 <= i < cells@.len() && cells@[i].0 == p,
            forall|i: int, j: int| 0 <= i < j < cells@.len() ==> (#[trigger] cells@[i]).0 != (#[trigger] cells@[j]).0,
    {
        let keys = self.local_keys();
        let mut cells: Vec<(LocalPos, TerrainCell)> = Vec::new();
        let mut i: usize = 0;
        while i < keys.len()
            invariant
                i <= keys@.len(),
                keys@.no_duplicates(),
                keys@.to_set() == self.cells@.dom(),
                cells@.len() == i,
                forall|j: int|
                    0 <= j < i ==> local_key((#[trigger] cells@[j]).0) == keys@[j] && self.cells@.contains_key(keys@[j])
                        && cells@[j].1 == self.cells@[keys@[j]],
            decreases keys@.len() - i,
        {
            let k = keys[i];
            proof {
                assert(keys@.to_set().contains(k));
            }
            match self.cells.get(&k) {
                Some(c) => {
                    cells.push((LocalPos { x: k.0, y: k.1, z: k.2 }, *c));
                },
                None => {
                    proof {
                        assert(false);
                    }
                },
            }
            i = i + 1;
        }
        proof {
            keys@.unique_seq_to_set();
            assert forall|p: LocalPos| #[trigger] self.cell_at(p) is Some implies exists|i: int|
                0 <= i < cells@.len() && cells@[i].0 == p by {
                assert(keys@.to_set().contains(local_key(p)));
                let j = choose|j: int| 0 <= j < keys@.len() && keys@[j] == local_key(p);
                assert(local_key(cells@[j].0) == local_key(p));
            }
            assert forall|a: int, b: int| 0 <= a < b < cells@.len() implies (#[trigger] cells@[a]).0 != (#[trigger] cells@[b]).0 by {
                assert(local_key(cells@[a].0) == keys@[a]);
                assert(local_key(cells@[b].0) == keys@[b]);
            }
        }
        cells
    }
}

impl WorldMap {
    /// Every chunk stores terrain only at local positions that some position
    /// splits into, under the key of that position's chunk, and holds at least
    /// one cell: how `set_cell` fills a map.
    pub open spec fn stored_where_placed(self) -> bool {
        &&& forall|k: (i32, i32, i32), l: LocalPos|
            #![trigger self.chunks@[k].cell_at(l)]
            self.chunks@.contains_key(k) && self.chunks@[k].cell_at(l) is Some ==> exists|p: GridPos|
                chunk_key(chunk_of(p)) == k && local_of(p) == l
        &&& forall|k: (i32, i32, i32)|
            #[trigger] self.chunks@.contains_key(k) ==> exists|l: LocalPos| self.chunks@[k].cell_at(l) is Some
    }

    /// Some position of `position`'s chunk already holds terrain.
    pub open spec fn chunk_in_use(self, position: GridPos) -> bool {
        exists|q: GridPos| chunk_of(q) == chunk_of(position) && #[trigger] self.cell_at(q) is Some
    }

    /// The keys of the chunks the map holds, each once.
    fn chunk_key_list(&self) -> (keys: Vec<(i32, i32, i32)>)
        ensures
            keys@.no_duplicates(),
            keys@.to_set() == self.chunks@.dom(),
    {
        let mut keys: Vec<(i32, i32, i32)> = Vec::new();
        for k in it: self.chunks.keys()
            invariant
                it.seq() == vstd::std_specs::btree::spec_keys_iter(&self.chunks).remaining(),
                keys@ == it.seq().take(it.index() as int).map_values(|r: &(i32, i32, i32)| *r),
        {
            keys.push(*k);
            proof {
                assert(keys@ =~= it.seq().take(it.index() + 1).map_values(|r: &(i32, i32, i32)| *r));
            }
        }
        proof {
            let rem = vstd::std_specs::btree::spec_keys_iter(&self.chunks).remaining();
            assert(keys@ =~= rem.map_values(|r: &(i32, i32, i32)| *r));
            assert(keys@ =~= rem.unref());
        }
        keys
    }

    /// Every position where the map stores terrain, with that terrain, each
    /// position once.
    pub fn cells(&self) -> (cells: Vec<(GridPos, TerrainCell)>)
        requires
            self.stored_where_placed(),
        ensures
            forall|i: int| 0 <= i < cells@.len() ==> self.cell_at((#[trigger] cells@[i]).0) == Some(cells@[i].1),
            forall|p: GridPos| #[trigger] self.cell_at(p) is Some ==> exists|i: int| 0 <= i < cells@.len() && cells@[i].0 == p,
            forall|i: int, j: int| 0 <= i < j < cells@.len() ==> (#[trigger] cells@[i]).0 != (#[trigger] cells@[j]).0,
    {
        let keys = self.chunk_key_list();
        let mut cells: Vec<(GridPos, TerrainCell)> = Vec::new();
        let mut i: usize = 0;
        while i < keys.len()
            invariant
                i <= keys@.len(),
                self.stored_where_placed(),
                keys@.no_duplicates(),
                keys@.to_set() == self.chunks@.dom(),
                forall|j: int| 0 <= j < cells@.len() ==> self.cell_at((#[trigger] cells@[j]).0) == Some(cells@[j].1),
                forall|j: int| 0 <= j < cells@.len() ==> keys@.take(i as int).contains(chunk_key(chunk_of((#[trigger] cells@[j]).0))),
                forall|p: GridPos|
                    #[trigger] self.cell_at(p) is Some && keys@.take(i as int).contains(chunk_key(chunk_of(p))) ==> exists|j: int|
                        0 <= j < cells@.len() && cells@[j].0 == p,
                forall|a: int, b: int| 0 <= a < b < cells@.len() ==> (#[trigger] cells@[a]).0 != (#[trigger] cells@[b]).0,
            decreases keys@.len() - i,
        {
            let key = keys[i];
            proof {
                assert(keys@.to_set().contains(key));
            }
            let chunk = match self.chunks.get(&key) {
                Some(c) => c,
                None => {
                    proof {
                        assert(false);
                    }
                    i = i + 1;
                    continue;
                },
            };
            let coord = ChunkCoord { x: key.0, y: key.1, z: key.2 };
            let local = chunk.cells();
            let ghost before = cells@;
            let ghost done = keys@.take(i as int);
            proof {
                assert(!done.contains(key)) by {
                    if done.contains(key) {
                        let j = choose|j: int| 0 <= j < done.len() && done[j] == key;
                        assert(keys@[j] == keys@[i as int]);
                    }
                }
            }
            let mut n: usize = 0;
            while n < local.len()
                invariant
                    n <= local@.len(),
                    i < keys@.len(),
                    key == keys@[i as int],
                    done == keys@.take(i as int),
                    !done.contains(key),
                    coord == (ChunkCoord { x: key.0, y: key.1, z: key.2 }),
                    self.stored_where_placed(),
                    self.chunks@.contains_key(key),
                    *chunk == self.chunks@[key],
                    forall|m: int| 0 <= m < local@.len() ==> chunk.cell_at((#[trigger] local@[m]).0) == Some(local@[m].1),
                    forall|a: int, b: int| 0 <= a < b < local@.len() ==> (#[trigger] local@[a]).0 != (#[trigger] local@[b]).0,
                    cells@.len() == before.len() + n,
                    forall|j: int| 0 <= j < before.len() ==> cells@[j] == before[j],
                    forall|j: int| 0 <= j < before.len() ==> done.contains(chunk_key(chunk_of((#[trigger] before[j]).0))),
                    forall|j: int| before.len() <= j < cells@.len() ==> chunk_of((#[trigger] cells@[j]).0) == coord,
                    forall|m: int|
                        0 <= m < n ==> local_of(cells@[before.len() + m].0) == (#[trigger] local@[m]).0 && cells@[before.len()
                            + m].1 == local@[m].1,
                    forall|j: int| 0 <= j < before.len() ==> self.cell_at((#[trigger] before[j]).0) == Some(before[j].1),
                    forall|a: int, b: int| 0 <= a < b < before.len() ==> (#[trigger] before[a]).0 != (#[trigger] before[b]).0,
                decreases local@.len() - n,
            {
                let (l, c) = local[n];
                proof {
                    assert(chunk.cell_at(local@[n as int].0) is Some);
                    assert(self.chunks@[key].cell_at(l) is Some);
                    let p = choose|p: GridPos| chunk_key(chunk_of(p)) == key && local_of(p) == l;
                    lemma_chunk_round_trip(p);
                    assert(chunk_of(p) == coord);
                }
                let at = coord.resolve(l);
                proof {
                    let p = choose|p: GridPos| chunk_key(chunk_of(p)) == key && local_of(p) == l;
                    lemma_chunk_round_trip(p);
                    assert(at == p);
                    assert(chunk_key(chunk_of(at)) == key && local_of(at) == l);
                }
                let ghost pushed_before = cells@;
                cells.push((at, c));
                let ghost old_n = n;
                n = n + 1;
                proof {
                    assert(cells@[before.len() + old_n] == (at, c));
                    assert(local@[old_n as int] == (l, c));
                    assert(chunk_of(at) == coord);
                    assert forall|j: int| before.len() <= j < cells@.len() implies chunk_of((#[trigger] cells@[j]).0) == coord by {
                        if j < cells@.len() - 1 {
                            assert(cells@[j] == pushed_before[j]);
                        }
                    }
                    assert forall|m: int| 0 <= m < n implies local_of(cells@[before.len() + m].0) == (#[trigger] local@[m]).0
                        && cells@[before.len() + m].1 == local@[m].1 by {
                        if m < old_n {
                            assert(cells@[before.len() + m] == pushed_before[before.len() + m]);
                            assert(local_of(pushed_before[before.len() + m].0) == local@[m].0);
                        } else {
                            assert(cells@[before.len() + m] == (at, c));
                        }
                    }
                }
            }
            proof {
                let added = cells@.len() - before.len();
                assert forall|j: int| 0 <= j < cells@.len() implies self.cell_at((#[trigger] cells@[j]).0) == Some(cells@[j].1) by {
                    if j >= before.len() {
                        let m = j - before.len();
                        assert(cells@[before.len() + m] == cells@[j]);
                        assert(chunk.cell_at(local@[m].0) == Some(local@[m].1));
                    } else {
                        assert(cells@[j] == before[j]);
                    }
                }
                assert forall|j: int| 0 <= j < cells@.len() implies keys@.take(i + 1).contains(chunk_key(chunk_of((#[trigger] cells@[j]).0))) by {
                    if j >= before.len() {
                        let m = j - before.len();
                        assert(cells@[before.len() + m] == cells@[j]);
                        assert(local_of(cells@[before.len() + m].0) == local@[m].0);
                        assert(chunk_of(cells@[before.len() + m].0) == coord);
                        assert(keys@.take(i + 1)[i as int] == key);
                    } else {
                        assert(cells@[j] == before[j]);
                        let q = choose|q: int| 0 <= q < done.len() && done[q] == chunk_key(chunk_of(before[j].0));
                        assert(keys@.take(i + 1)[q] == done[q]);
                    }
                }
                assert forall|p: GridPos|
                    #[trigger] self.cell_at(p) is Some && keys@.take(i + 1).contains(chunk_key(chunk_of(p))) implies exists|j: int|
                        0 <= j < cells@.len() && cells@[j].0 == p by {
                    let q = choose|q: int| 0 <= q < i + 1 && #[trigger] keys@.take(i + 1)[q] == chunk_key(chunk_of(p));
                    if q < i {
                        assert(done[q] == chunk_key(chunk_of(p)));
                        assert(done.contains(chunk_key(chunk_of(p))));
                        let j = choose|j: int| 0 <= j < before.len() && before[j].0 == p;
                        assert(cells@[j] == before[j]);
                    } else {
                        assert(chunk_key(chunk_of(p)) == key);
                        assert(chunk.cell_at(local_of(p)) is Some);
                        let m = choose|m: int| 0 <= m < local@.len() && local@[m].0 == local_of(p);
                        let r = cells@[before.len() + m].0;
                        assert(chunk_of(r) == coord);
                        assert(chunk_of(r) == chunk_of(p));
                        lemma_chunk_split_injective(r, p);
                    }
                }
                assert forall|a: int, b: int| 0 <= a < b < cells@.len() implies (#[trigger] cells@[a]).0 != (#[trigger] cells@[b]).0 by {
                    if b >= before.len() {
                        let mb = b - before.len();
                        assert(cells@[before.len() + mb] == cells@[b]);
                        if a >= before.len() {
                            let ma = a - before.len();
                            assert(cells@[before.len() + ma] == cells@[a]);
                            assert(local@[ma].0 != local@[mb].0);
                        } else {
                            assert(cells@[a] == before[a]);
                            assert(done.contains(chunk_key(chunk_of(before[a].0))));
                            assert(local_of(cells@[before.len() + mb].0) == local@[mb].0);
                            assert(chunk_of(cells@[before.len() + mb].0) == coord);
                        }
                    } else {
                        assert(cells@[a] == before[a]);
                        assert(cells@[b] == before[b]);
                    }
                }
            }
            i = i + 1;
        }
        proof {
            assert(keys@.take(keys@.len() as int) =~= keys@);
            assert forall|p: GridPos| #[trigger] self.cell_at(p) is Some implies exists|i: int| 0 <= i < cells@.len() && cells@[i].0 == p by {
                assert(keys@.to_set().contains(chunk_key(chunk_of(p))));
            }
        }
        cells
    }
}

#[derive(Clone, Copy, Debug, Default, PartialEq, Eq, Structural)]
pub enum Direction {
    North,
    East,
    #[default]
    South,
    West,
}

/// The grid step taken when moving in a direction (y grows southward).
pub open spec fn direction_delta(direction: Direction) -> (int, int) {
    match direction {
        Direction::North => (0, -1),
        Direction::East => (1, 0),
        Direction::South => (0, 1),
        Direction::West => (-1, 0),
    }
}

impl Direction {
    pub const ALL: [Direction; 4] = [Direction::North, Direction::East, Direction::South, Direction::West];

    pub fn delta(self) -> (d: (i32, i32))
        ensures
            d.0 == direction_delta(self).0,
            d.1 == direction_delta(self).1,
    {
        match self {
            Direction::North => (0, -1),
            Direction::East => (1, 0),
            Direction::South => (0, 1),
            Direction::West => (-1, 0),
        }
    }
}

} // verus!

verus! {

pub open spec fn abs_int(v: int) -> int {
    if v < 0 {
        -v
    } else {
        v
    }
}

/// Chebyshev (king-move) distance between two positions on the same layer.
pub open spec fn chebyshev_distance(first: GridPos, second: GridPos) -> int {
    let dx = abs_int(first.x - second.x);
    let dy = abs_int(first.y - second.y);
    if dx >= dy {
        dx
    } else {
        dy
    }
}

/// Manhattan (four-step) distance between two positions on the same layer.
pub open spec fn taxicab_distance(first: GridPos, second: GridPos) -> int {
    abs_int(first.x - second.x) + abs_int(first.y - second.y)
}

/// The axis differences between two positions stay within `i32`.
pub open spec fn distance_fits(first: GridPos, second: GridPos) -> bool {
    &&& abs_int(first.x - second.x) <= i32::MAX
    &&& abs_int(first.y - second.y) <= i32::MAX
}

/// Both axis differences and their sum stay within `i32`.
pub open spec fn taxicab_fits(first: GridPos, second: GridPos) -> bool {
    distance_fits(first, second) && taxicab_distance(first, second) <= i32::MAX
}

fn abs_diff_i32(a: i32, b: i32) -> (d: i32)
    requires
        abs_int(a - b) <= i32::MAX,
    ensures
        d == abs_int(a - b),
{
    if a >= b {
        (a as i64 - b as i64) as i32
    } else {
        (b as i64 - a as i64) as i32
    }
}

/// Chebyshev distance: the larger of the two axis differences.
pub fn ranged_distance(first: GridPos, second: GridPos) -> (d: i32)
    requires
        distance_fits(first, second),
    ensures
        d == chebyshev_distance(first, second),
{
    let dx = abs_diff_i32(first.x, second.x);
    let dy = abs_diff_i32(first.y, second.y);
    if dx >= dy {
        dx
    } else {
        dy
    }
}

/// Manhattan distance: the sum of the two axis differences.
pub fn grid_distance(first: GridPos, second: GridPos) -> (d: i32)
    requires
        taxicab_fits(first, second),
    ensures
        d == taxicab_distance(first, second),
{
    abs_diff_i32(first.x, second.x) + abs_diff_i32(first.y, second.y)
}


/// A position lies inside the chunk that holds it: within 32 cells of the
/// chunk's corner on each horizontal axis and 8 on the vertical one.
pub proof fn lemma_chunk_bounds(p: GridPos)
    ensures
        chunk_of(p).x * 32 <= p.x < chunk_of(p).x * 32 + 32,
        chunk_of(p).y * 32 <= p.y < chunk_of(p).y * 32 + 32,
        chunk_of(p).z * 8 <= p.z < chunk_of(p).z * 8 + 8,
{
    lemma_chunk_round_trip(p);
    vstd::arithmetic::div_mod::lemma_fundamental_div_mod(p.x as int, 32);
    vstd::arithmetic::div_mod::lemma_fundamental_div_mod(p.y as int, 32);
    vstd::arithmetic::div_mod::lemma_fundamental_div_mod(p.z as int, 8);
    vstd::arithmetic::div_mod::lemma_mod_bound(p.x as int, 32);
    vstd::arithmetic::div_mod::lemma_mod_bound(p.y as int, 32);
    vstd::arithmetic::div_mod::lemma_mod_bound(p.z as int, 8);
}

/// Ground that can be walked on: stored, and not blocking movement.
pub open spec fn open_ground(map: WorldMap, p: GridPos) -> bool {
    map.cell_at(p) is Some && !map.cell_at(p).unwrap().movement_blocked
}

impl WorldMap {
    /// The keys of the chunks the map holds.
    fn chunk_keys(&self) -> (keys: Vec<(i32, i32, i32)>)
        ensures
            forall|k: (i32, i32, i32)| self.chunks@.contains_key(k) ==> #[trigger] keys@.contains(k),
    {
        let mut keys: Vec<(i32, i32, i32)> = Vec::new();
        for k in it: self.chunks.keys()
            invariant
                it.seq() == vstd::std_specs::btree::spec_keys_iter(&self.chunks).remaining(),
                keys@ == it.seq().take(it.index() as int).map_values(|r: &(i32, i32, i32)| *r),
        {
            keys.push(*k);
            proof {
                assert(keys@ =~= it.seq().take(it.index() + 1).map_values(|r: &(i32, i32, i32)| *r));
            }
        }
        proof {
            let rem = vstd::std_specs::btree::spec_keys_iter(&self.chunks).remaining();
            assert(keys@ =~= rem.map_values(|r: &(i32, i32, i32)| *r));
            assert forall|k: (i32, i32, i32)| self.chunks@.contains_key(k) implies #[trigger] keys@.contains(k) by {
                assert(rem.unref().to_set().contains(k));
                let i = choose|i: int| 0 <= i < rem.unref().len() && rem.unref()[i] == k;
                assert(keys@[i] == k);
            }
        }
        keys
    }

    /// Every position on layer `z` where the map stores open ground; a
    /// position may be listed more than once.
    pub fn open_cells(&self, z: i16) -> (cells: Vec<GridPos>)
        ensures
            forall|p: GridPos| p.z == z && open_ground(*self, p) ==> #[trigger] cells@.contains(p),
            forall|i: int| 0 <= i < cells@.len() ==> cells@[i].z == z && open_ground(*self, #[trigger] cells@[i]),
    {
        let keys = self.chunk_keys();
        let mut cells: Vec<GridPos> = Vec::new();
        let mut i: usize = 0;
        while i < keys.len()
            invariant
                i <= keys@.len(),
                forall|k: (i32, i32, i32)| self.chunks@.contains_key(k) ==> #[trigger] keys@.contains(k),
                forall|j: int| 0 <= j < cells@.len() ==> cells@[j].z == z && open_ground(*self, #[trigger] cells@[j]),
                forall|p: GridPos|
                    p.z == z && open_ground(*self, p) && keys@.take(i as int).contains(chunk_key(chunk_of(p)))
                        ==> #[trigger] cells@.contains(p),
            decreases keys@.len() - i,
        {
            let key = keys[i];
            let ghost done = keys@.take(i as int);
            if (key.2 as i64) * 8 <= z as i64 && (z as i64) < (key.2 as i64) * 8 + 8 {
                let mut lx: i64 = 0;
                while lx < 32
                    invariant
                        0 <= lx <= 32,
                        i < keys@.len(),
                        key == keys@[i as int],
                        done == keys@.take(i as int),
                        forall|j: int| 0 <= j < cells@.len() ==> cells@[j].z == z && open_ground(*self, #[trigger] cells@[j]),
                        forall|p: GridPos|
                            p.z == z && open_ground(*self, p) && done.contains(chunk_key(chunk_of(p)))
                                ==> #[trigger] cells@.contains(p),
                        forall|p: GridPos|
                            p.z == z && open_ground(*self, p) && chunk_key(chunk_of(p)) == key && p.x - key.0 * 32 < lx
                                ==> #[trigger] cells@.contains(p),
                    decreases 32 - lx,
                {
                    let mut ly: i64 = 0;
                    while ly < 32
                        invariant
                            0 <= lx < 32,
                            0 <= ly <= 32,
                            i < keys@.len(),
                            key == keys@[i as int],
                            done == keys@.take(i as int),
                            forall|j: int| 0 <= j < cells@.len() ==> cells@[j].z == z && open_ground(*self, #[trigger] cells@[j]),
                            forall|p: GridPos|
                                p.z == z && open_ground(*self, p) && done.contains(chunk_key(chunk_of(p)))
                                    ==> #[trigger] cells@.contains(p),
                            forall|p: GridPos|
                                p.z == z && open_ground(*self, p) && chunk_key(chunk_of(p)) == key && p.x - key.0 * 32 < lx
                                    ==> #[trigger] cells@.contains(p),
                            forall|p: GridPos|
                                p.z == z && open_ground(*self, p) && chunk_key(chunk_of(p)) == key && p.x - key.0 * 32 == lx
                                    && p.y - key.1 * 32 < ly ==> #[trigger] cells@.contains(p),
                        decreases 32 - ly,
                    {
                        let x = key.0 as i64 * 32 + lx;
                        let y = key.1 as i64 * 32 + ly;
                        let ghost before = cells@;
                        if i32::MIN as i64 <= x && x <= i32::MAX as i64 && i32::MIN as i64 <= y && y <= i32::MAX as i64 {
                            let p = GridPos { x: x as i32, y: y as i32, z };
                            let open = match self.cell(p) {
                                None => false,
                                Some(cell) => !cell.movement_blocked,
                            };
                            if open {
                                cells.push(p);
                                proof {
                                    assert(cells@[cells@.len() - 1] == p);
                                }
                            }
                        }
                        proof {
                            assert forall|q: GridPos| before.contains(q) implies #[trigger] cells@.contains(q) by {
                                let k = choose|k: int| 0 <= k < before.len() && before[k] == q;
                                assert(cells@[k] == q);
                            }
                            assert forall|q: GridPos|
                                q.z == z && open_ground(*self, q) && chunk_key(chunk_of(q)) == key && q.x - key.0 * 32
                                    == lx && q.y - key.1 * 32 < ly + 1 implies #[trigger] cells@.contains(q) by {
                                if q.y - key.1 * 32 == ly {
                                    assert(q.x == x && q.y == y);
                                    assert(cells@[cells@.len() - 1] == q);
                                } else {
                                    assert(before.contains(q));
                                }
                            }
                        }
                        ly = ly + 1;
                    }
                    proof {
                        assert forall|q: GridPos|
                            q.z == z && open_ground(*self, q) && chunk_key(chunk_of(q)) == key && q.x - key.0 * 32 < lx + 1
                                implies #[trigger] cells@.contains(q) by {
                            lemma_chunk_bounds(q);
                        }
                    }
                    lx = lx + 1;
                }
            }
            proof {
                assert forall|p: GridPos|
                    p.z == z && open_ground(*self, p) && keys@.take(i + 1).contains(chunk_key(chunk_of(p)))
                        implies #[trigger] cells@.contains(p) by {
                    lemma_chunk_bounds(p);
                    let j = choose|j: int| 0 <= j < i + 1 && #[trigger] keys@.take(i + 1)[j] == chunk_key(chunk_of(p));
                    if j < i {
                        assert(done[j] == chunk_key(chunk_of(p)));
                        assert(done.contains(chunk_key(chunk_of(p))));
                    } else {
                        assert(chunk_key(chunk_of(p)) == key);
                    }
                }
            }
            i = i + 1;
        }
        proof {
            assert(keys@.take(keys@.len() as int) =~= keys@);
        }
        cells
    }
}

} // verus!
