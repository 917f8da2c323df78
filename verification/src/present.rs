//! Semantic, player-visible presentation state.
//!
//! Presentation snapshots contain no atlas coordinates, filenames, GPU handles
//! or projection-specific coordinates.
use vstd::prelude::*;

use crate::geometry::{Direction, GridPos, MapId, TerrainKind, WorldMap};
use crate::model::{Entity, EntityId, EntityKind, Landmark, LandmarkKind};
use crate::simulation::{still_standing, Simulation};

verus! {

#[derive(Clone, Copy, Debug, PartialEq, Eq, Structural)]
pub struct ViewportRequest {
    pub map: MapId,
    pub center: GridPos,
    pub half_width: i32,
    pub half_height: i32,
    pub z: i16,
}

#[derive(Clone, Copy, Debug, PartialEq, Eq, Structural)]
pub struct VisibleTerrain {
    pub position: GridPos,
    pub kind: TerrainKind,
}

#[derive(Clone, Copy, Debug, PartialEq, Eq, Structural)]
pub enum CharacterAppearance {
    Player,
    Villager,
}

#[derive(Clone, Copy, Debug, PartialEq, Eq, Structural)]
pub enum Appearance {
    Character(CharacterAppearance),
    Creature,
    Item,
}

#[derive(Clone, Copy, Debug, Default, PartialEq, Eq, Structural)]
pub enum VisualState {
    #[default]
    Idle,
    Moving,
    Acting,
}

#[derive(Clone, Copy, Debug, PartialEq, Eq, Structural)]
pub struct VisibleEntity {
    pub id: EntityId,
    pub position: GridPos,
    pub facing: Direction,
    pub appearance: Appearance,
    pub state: VisualState,
}

#[derive(Clone, Debug, PartialEq, Eq)]
pub struct VisibleLandmark {
    pub name: String,
    pub kind: LandmarkKind,
    pub position: GridPos,
}

#[derive(Clone, Debug, PartialEq, Eq)]
pub struct PresentationSnapshot {
    pub tick: u64,
    pub paused: bool,
    pub map: MapId,
    pub camera_center: GridPos,
    pub terrain: Vec<VisibleTerrain>,
    pub entities: Vec<VisibleEntity>,
    pub landmarks: Vec<VisibleLandmark>,
}

} // verus!

verus! {

/// Whether a position on `map` lies inside the requested viewport.
pub open spec fn in_viewport(request: ViewportRequest, map: MapId, p: GridPos) -> bool {
    &&& map == request.map
    &&& p.z == request.z
    &&& request.center.x - request.half_width <= p.x <= request.center.x + request.half_width
    &&& request.center.y - request.half_height <= p.y <= request.center.y + request.half_height
}

/// How an entity kind looks on screen.
pub open spec fn appearance_of(kind: EntityKind) -> Appearance {
    match kind {
        EntityKind::Player => Appearance::Character(CharacterAppearance::Player),
        EntityKind::Character => Appearance::Character(CharacterAppearance::Villager),
        EntityKind::Creature => Appearance::Creature,
        EntityKind::Item => Appearance::Item,
    }
}

/// What the player sees of an entity.
pub open spec fn visible_entity(e: Entity) -> VisibleEntity {
    VisibleEntity {
        id: e.id,
        position: e.position.grid,
        facing: e.facing,
        appearance: appearance_of(e.kind),
        state: VisualState::Idle,
    }
}

/// Row-major order: earlier rows first, then smaller columns.
pub open spec fn before_in_rows(a: GridPos, b: GridPos) -> bool {
    a.y < b.y || (a.y == b.y && a.x < b.x)
}

/// The map holds terrain at `p`, inside the viewport.
pub open spec fn shows_cell(map: WorldMap, request: ViewportRequest, p: GridPos) -> bool {
    in_viewport(request, request.map, p) && map.cell_at(p) is Some
}

/// An entity stands inside the viewport.
pub open spec fn shows_entity(request: ViewportRequest, e: Entity) -> bool {
    in_viewport(request, e.position.map, e.position.grid)
}

/// A landmark lies inside the viewport.
pub open spec fn shows_landmark(request: ViewportRequest, l: Landmark) -> bool {
    in_viewport(request, l.position.map, l.position.grid)
}

/// What the viewport shows of each landmark inside it, in the landmarks' order:
/// its name, kind and cell.
pub open spec fn landmarks_in_view(request: ViewportRequest, marks: Seq<Landmark>) -> Seq<(Seq<char>, LandmarkKind, GridPos)>
    decreases marks.len(),
{
    if marks.len() == 0 {
        Seq::empty()
    } else {
        let rest = landmarks_in_view(request, marks.drop_last());
        let l = marks.last();
        if shows_landmark(request, l) {
            rest.push((l.name@, l.kind, l.position.grid))
        } else {
            rest
        }
    }
}

/// The terrain the map holds inside a viewport, row by row.
#[verifier::rlimit(60)]
fn terrain_in_view(map: &WorldMap, request: ViewportRequest) -> (terrain: Vec<VisibleTerrain>)
    ensures
        forall|i: int|
            #![trigger terrain@[i]]
            0 <= i < terrain@.len() ==> {
                let t = terrain@[i];
                &&& in_viewport(request, request.map, t.position)
                &&& map.cell_at(t.position) is Some
                &&& map.cell_at(t.position).unwrap().terrain == t.kind
            },
        forall|i: int, j: int|
            0 <= i < j < terrain@.len() ==> before_in_rows(#[trigger] terrain@[i].position, #[trigger] terrain@[j].position),
        forall|p: GridPos| #[trigger] shows_cell(*map, request, p) ==> exists|i: int|
            0 <= i < terrain@.len() && terrain@[i].position == p,
        {
    let min_x = request.center.x as i64 - request.half_width as i64;
    let max_x = request.center.x as i64 + request.half_width as i64;
    let min_y = request.center.y as i64 - request.half_height as i64;
    let max_y = request.center.y as i64 + request.half_height as i64;
    let mut terrain: Vec<VisibleTerrain> = Vec::new();
    let lo_y = if min_y < i32::MIN as i64 {
        i32::MIN as i64
    } else {
        min_y
    };
    let hi_y = if max_y > i32::MAX as i64 {
        i32::MAX as i64
    } else {
        max_y
    };
    let lo_x = if min_x < i32::MIN as i64 {
        i32::MIN as i64
    } else {
        min_x
    };
    let hi_x = if max_x > i32::MAX as i64 {
        i32::MAX as i64
    } else {
        max_x
    };
    let mut y = lo_y;
    while y <= hi_y
        invariant
            lo_y <= y <= hi_y + 1 || (y == lo_y && lo_y > hi_y),
            i32::MIN <= lo_y,
            hi_y <= i32::MAX,
            i32::MIN <= lo_x,
            hi_x <= i32::MAX,
            lo_x == if min_x < i32::MIN { i32::MIN as i64 } else { min_x },
            hi_x == if max_x > i32::MAX { i32::MAX as i64 } else { max_x },
            lo_y == if min_y < i32::MIN { i32::MIN as i64 } else { min_y },
            hi_y == if max_y > i32::MAX { i32::MAX as i64 } else { max_y },
            min_x == request.center.x - request.half_width,
            max_x == request.center.x + request.half_width,
            min_y == request.center.y - request.half_height,
            max_y == request.center.y + request.half_height,
            forall|i: int|
                #![trigger terrain@[i]]
                0 <= i < terrain@.len() ==> {
                    let t = terrain@[i];
                    &&& in_viewport(request, request.map, t.position)
                    &&& t.position.y < y
                    &&& map.cell_at(t.position) is Some
                    &&& map.cell_at(t.position).unwrap().terrain == t.kind
                },
            forall|i: int, j: int|
                0 <= i < j < terrain@.len() ==> before_in_rows(
                    #[trigger] terrain@[i].position,
                    #[trigger] terrain@[j].position,
                ),
            forall|p: GridPos|
                #[trigger] shows_cell(*map, request, p) && p.y < y ==> exists|i: int|
                    0 <= i < terrain@.len() && terrain@[i].position == p,
        decreases hi_y + 1 - y,
    {
        let mut x = lo_x;
        while x <= hi_x
            invariant
                lo_y <= y <= hi_y,
                lo_x <= x <= hi_x + 1 || (x == lo_x && lo_x > hi_x),
                i32::MIN <= lo_y,
                hi_y <= i32::MAX,
                i32::MIN <= lo_x,
                hi_x <= i32::MAX,
                lo_x == if min_x < i32::MIN { i32::MIN as i64 } else { min_x },
                hi_x == if max_x > i32::MAX { i32::MAX as i64 } else { max_x },
                lo_y == if min_y < i32::MIN { i32::MIN as i64 } else { min_y },
            hi_y == if max_y > i32::MAX { i32::MAX as i64 } else { max_y },
                min_x == request.center.x - request.half_width,
                max_x == request.center.x + request.half_width,
                min_y == request.center.y - request.half_height,
                max_y == request.center.y + request.half_height,
                forall|i: int|
                    #![trigger terrain@[i]]
                    0 <= i < terrain@.len() ==> {
                        let t = terrain@[i];
                        &&& in_viewport(request, request.map, t.position)
                        &&& (t.position.y < y || (t.position.y == y && t.position.x < x))
                        &&& map.cell_at(t.position) is Some
                        &&& map.cell_at(t.position).unwrap().terrain == t.kind
                    },
                forall|i: int, j: int|
                    0 <= i < j < terrain@.len() ==> before_in_rows(
                        #[trigger] terrain@[i].position,
                        #[trigger] terrain@[j].position,
                    ),
                forall|p: GridPos|
                    #[trigger] shows_cell(*map, request, p) && (p.y < y || (p.y == y && p.x < x)) ==> exists|i: int|
                        0 <= i < terrain@.len() && terrain@[i].position == p,
            decreases hi_x + 1 - x,
        {
            let here = GridPos { x: x as i32, y: y as i32, z: request.z };
            match map.cell(here) {
                None => {
                    proof {
                        assert forall|p: GridPos|
                            #[trigger] shows_cell(*map, request, p) && (p.y < y || (p.y == y && p.x < x + 1)) implies exists|i: int|
                            0 <= i < terrain@.len() && terrain@[i].position == p by {
                            if p.y == y && p.x == x {
                                assert(p == here);
                            }
                        }
                    }
                },
                Some(cell) => {
                    let ghost before = terrain@;
                    terrain.push(VisibleTerrain { position: here, kind: cell.terrain });
                    proof {
                        let last = terrain@.len() - 1;
                        assert(in_viewport(request, request.map, here));
                        assert(map.cell_at(here) is Some);
                        assert forall|i: int| #![trigger terrain@[i]] 0 <= i < last implies terrain@[i] == before[i] by {}
                        assert forall|p: GridPos|
                            #[trigger] shows_cell(*map, request, p) && (p.y < y || (p.y == y && p.x < x + 1)) implies exists|i: int|
                            0 <= i < terrain@.len() && terrain@[i].position == p by {
                            if p.y == y && p.x == x {
                                assert(p == here);
                                assert(terrain@[last].position == p);
                            } else {
                                let i = choose|i: int| 0 <= i < before.len() && before[i].position == p;
                                assert(terrain@[i] == before[i]);
                            }
                        }
                    }
                },
            }
            x = x + 1;
        }
        y = y + 1;
    }
    terrain
}


fn appearance(kind: EntityKind) -> (a: Appearance)
    ensures
        a == appearance_of(kind),
{
    match kind {
        EntityKind::Player => Appearance::Character(CharacterAppearance::Player),
        EntityKind::Character => Appearance::Character(CharacterAppearance::Villager),
        EntityKind::Creature => Appearance::Creature,
        EntityKind::Item => Appearance::Item,
    }
}

fn in_view_exec(request: ViewportRequest, map: MapId, p: GridPos) -> (inside: bool)
    ensures
        inside == in_viewport(request, map, p),
{
    map == request.map && p.z == request.z && request.center.x as i64 - request.half_width as i64 <= p.x as i64
        && p.x as i64 <= request.center.x as i64 + request.half_width as i64 && request.center.y as i64
        - request.half_height as i64 <= p.y as i64 && p.y as i64 <= request.center.y as i64
        + request.half_height as i64
}

impl PresentationSnapshot {
    /// The player-facing view of a viewport: the terrain cells the map holds
    /// there (row by row), the entities standing there (by identity) and the
    /// landmarks there (in their order), with the clock and pause state.
    /// Hidden facts, such as who owns what, never appear in it.
    #[verifier::rlimit(60)]
    pub fn from_simulation(simulation: &Simulation, request: ViewportRequest) -> (snapshot: Self)
        requires
            simulation.wf(),
        ensures
            snapshot.tick == simulation@.tick,
            snapshot.paused == simulation@.paused,
            snapshot.map == request.map,
            snapshot.camera_center == request.center,
            forall|i: int|
                #![trigger snapshot.terrain@[i]]
                0 <= i < snapshot.terrain@.len() ==> {
                    let t = snapshot.terrain@[i];
                    &&& in_viewport(request, request.map, t.position)
                    &&& simulation@.maps.contains_key(request.map.0)
                    &&& simulation@.maps[request.map.0].cell_at(t.position) is Some
                    &&& simulation@.maps[request.map.0].cell_at(t.position).unwrap().terrain == t.kind
                },
            forall|i: int, j: int|
                0 <= i < j < snapshot.terrain@.len() ==> before_in_rows(
                    #[trigger] snapshot.terrain@[i].position,
                    #[trigger] snapshot.terrain@[j].position,
                ),
            forall|i: int|
                #![trigger snapshot.entities@[i]]
                0 <= i < snapshot.entities@.len() ==> {
                    let k = snapshot.entities@[i].id.0;
                    &&& simulation@.entities.contains_key(k)
                    &&& in_viewport(request, simulation@.entities[k].position.map, simulation@.entities[k].position.grid)
                    &&& snapshot.entities@[i] == visible_entity(simulation@.entities[k])
                },
            forall|i: int, j: int|
                0 <= i < j < snapshot.entities@.len() ==> (#[trigger] snapshot.entities@[i]).id.0
                    < (#[trigger] snapshot.entities@[j]).id.0,
            forall|i: int|
                #![trigger snapshot.landmarks@[i]]
                0 <= i < snapshot.landmarks@.len() ==> exists|j: int|
                    0 <= j < simulation@.landmarks.len() && in_viewport(
                        request,
                        simulation@.landmarks[j].position.map,
                        simulation@.landmarks[j].position.grid,
                    ) && snapshot.landmarks@[i].name@ == simulation@.landmarks[j].name@
                        && snapshot.landmarks@[i].kind == simulation@.landmarks[j].kind
                        && snapshot.landmarks@[i].position == simulation@.landmarks[j].position.grid,
            simulation@.maps.contains_key(request.map.0) ==> forall|p: GridPos|
                #[trigger] shows_cell(simulation@.maps[request.map.0], request, p) ==> exists|i: int|
                    0 <= i < snapshot.terrain@.len() && snapshot.terrain@[i].position == p,
            forall|k: u64|
                simulation@.entities.contains_key(k) && still_standing(simulation@, k) && #[trigger] shows_entity(
                    request,
                    simulation@.entities[k],
                ) ==> exists|n: int| 0 <= n < snapshot.entities@.len() && snapshot.entities@[n] == visible_entity(simulation@.entities[k]),
            snapshot.landmarks@.len() == landmarks_in_view(request, simulation@.landmarks).len(),
            forall|n: int|
                0 <= n < snapshot.landmarks@.len() ==> landmarks_in_view(request, simulation@.landmarks)[n] == (
                    (#[trigger] snapshot.landmarks@[n]).name@,
                    snapshot.landmarks@[n].kind,
                    snapshot.landmarks@[n].position,
                ),
            forall|j: int|
                0 <= j < simulation@.landmarks.len() && #[trigger] shows_landmark(request, simulation@.landmarks[j]) ==> exists|n: int|
                    0 <= n < snapshot.landmarks@.len() && snapshot.landmarks@[n].name@ == simulation@.landmarks[j].name@
                        && snapshot.landmarks@[n].kind == simulation@.landmarks[j].kind && snapshot.landmarks@[n].position
                        == simulation@.landmarks[j].position.grid,
    {
        let terrain = match simulation.map(request.map) {
            None => Vec::new(),
            Some(map) => terrain_in_view(map, request),
        };
        let all = simulation.entities();
        let mut entities: Vec<VisibleEntity> = Vec::new();
        let mut i: usize = 0;
        while i < all.len()
            invariant
                i <= all@.len(),
                forall|j: int|
                    0 <= j < all@.len() ==> #[trigger] simulation@.entities.contains_key(all@[j].id.0)
                        && *all@[j] == simulation@.entities[all@[j].id.0],
                forall|j: int, l: int| 0 <= j < l < all@.len() ==> (#[trigger] all@[j]).id.0 < (#[trigger] all@[l]).id.0,
                forall|n: int|
                    #![trigger entities@[n]]
                    0 <= n < entities@.len() ==> {
                        let k = entities@[n].id.0;
                        &&& simulation@.entities.contains_key(k)
                        &&& in_viewport(request, simulation@.entities[k].position.map, simulation@.entities[k].position.grid)
                        &&& entities@[n] == visible_entity(simulation@.entities[k])
                    },
                forall|n: int| 0 <= n < entities@.len() ==> exists|j: int| 0 <= j < i && (#[trigger] entities@[n]).id == all@[j].id,
                forall|n: int, l: int|
                    0 <= n < l < entities@.len() ==> (#[trigger] entities@[n]).id.0 < (#[trigger] entities@[l]).id.0,
                forall|j: int|
                    0 <= j < i && #[trigger] shows_entity(request, *all@[j]) ==> exists|n: int|
                        0 <= n < entities@.len() && entities@[n] == visible_entity(*all@[j]),
            decreases all@.len() - i,
        {
            let e = all[i];
            proof {
                assert(simulation@.entities.contains_key(all@[i as int].id.0));
            }
            if in_view_exec(request, e.position.map, e.position.grid) {
                let ghost before = entities@;
                entities.push(
                    VisibleEntity {
                        id: e.id,
                        position: e.position.grid,
                        facing: e.facing,
                        appearance: appearance(e.kind),
                        state: VisualState::Idle,
                    },
                );
                proof {
                    let last = entities@.len() - 1;
                    assert forall|n: int| 0 <= n < last implies (#[trigger] entities@[n]).id.0 < entities@[last].id.0 by {
                        assert(entities@[n] == before[n]);
                        let j = choose|j: int| 0 <= j < i && before[n].id == all@[j].id;
                        assert(all@[j].id.0 < all@[i as int].id.0);
                    }
                    assert forall|n: int| 0 <= n < entities@.len() implies exists|j: int|
                        0 <= j < i + 1 && (#[trigger] entities@[n]).id == all@[j].id by {
                        if n < last {
                            assert(entities@[n] == before[n]);
                            let j = choose|j: int| 0 <= j < i && before[n].id == all@[j].id;
                        } else {
                            assert(entities@[n].id == all@[i as int].id);
                        }
                    }
                    assert forall|j: int|
                        0 <= j < i + 1 && #[trigger] shows_entity(request, *all@[j]) implies exists|n: int|
                        0 <= n < entities@.len() && entities@[n] == visible_entity(*all@[j]) by {
                        if j < i {
                            let n = choose|n: int| 0 <= n < before.len() && before[n] == visible_entity(*all@[j]);
                            assert(entities@[n] == before[n]);
                        } else {
                            assert(entities@[last] == visible_entity(*all@[j]));
                        }
                    }
                }
            }
            i = i + 1;
        }
        let marks = simulation.landmarks();
        let mut landmarks: Vec<VisibleLandmark> = Vec::new();
        let mut m: usize = 0;
        while m < marks.len()
            invariant
                m <= marks@.len(),
                marks@ == simulation@.landmarks,
                forall|n: int|
                    #![trigger landmarks@[n]]
                    0 <= n < landmarks@.len() ==> exists|j: int|
                        0 <= j < marks@.len() && in_viewport(request, marks@[j].position.map, marks@[j].position.grid)
                            && landmarks@[n].name@ == marks@[j].name@ && landmarks@[n].kind == marks@[j].kind
                            && landmarks@[n].position == marks@[j].position.grid,
                landmarks@.len() == landmarks_in_view(request, marks@.take(m as int)).len(),
                forall|n: int|
                    0 <= n < landmarks@.len() ==> landmarks_in_view(request, marks@.take(m as int))[n] == (
                        (#[trigger] landmarks@[n]).name@,
                        landmarks@[n].kind,
                        landmarks@[n].position,
                    ),
                forall|j: int|
                    0 <= j < m && #[trigger] shows_landmark(request, marks@[j]) ==> exists|n: int|
                        0 <= n < landmarks@.len() && landmarks@[n].name@ == marks@[j].name@ && landmarks@[n].kind
                            == marks@[j].kind && landmarks@[n].position == marks@[j].position.grid,
            decreases marks@.len() - m,
        {
            let mark = &marks[m];
            let ghost shown_before = landmarks@;
            proof {
                assert(marks@.take(m + 1).drop_last() =~= marks@.take(m as int));
                assert(marks@.take(m + 1).last() == marks@[m as int]);
            }
            if in_view_exec(request, mark.position.map, mark.position.grid) {
                let ghost before = landmarks@;
                landmarks.push(
                    VisibleLandmark { name: mark.name.clone(), kind: mark.kind, position: mark.position.grid },
                );
                proof {
                    let last = landmarks@.len() - 1;
                    assert(landmarks@[last].name@ == marks@[m as int].name@);
                    assert forall|n: int|
                        #![trigger landmarks@[n]]
                        0 <= n < landmarks@.len() implies exists|j: int|
                            0 <= j < marks@.len() && in_viewport(request, marks@[j].position.map, marks@[j].position.grid)
                                && landmarks@[n].name@ == marks@[j].name@ && landmarks@[n].kind == marks@[j].kind
                                && landmarks@[n].position == marks@[j].position.grid by {
                        if n < last {
                            assert(landmarks@[n] == before[n]);
                        }
                    }
                    assert forall|j: int|
                        0 <= j < m + 1 && #[trigger] shows_landmark(request, marks@[j]) implies exists|n: int|
                        0 <= n < landmarks@.len() && landmarks@[n].name@ == marks@[j].name@ && landmarks@[n].kind
                            == marks@[j].kind && landmarks@[n].position == marks@[j].position.grid by {
                        if j < m {
                            let n = choose|n: int|
                                0 <= n < before.len() && before[n].name@ == marks@[j].name@ && before[n].kind
                                    == marks@[j].kind && before[n].position == marks@[j].position.grid;
                            assert(landmarks@[n] == before[n]);
                        } else {
                            assert(landmarks@[last].name@ == marks@[j].name@);
                        }
                    }
                }
            }
            proof {
                assert forall|n: int|
                    0 <= n < landmarks@.len() implies landmarks_in_view(request, marks@.take(m + 1))[n] == (
                        (#[trigger] landmarks@[n]).name@,
                        landmarks@[n].kind,
                        landmarks@[n].position,
                    ) by {
                    if n < shown_before.len() {
                        assert(landmarks@[n] == shown_before[n]);
                    }
                }
            }
            m = m + 1;
        }
        proof {
            assert forall|n: int|
                #![trigger landmarks@[n]]
                0 <= n < landmarks@.len() implies exists|j: int|
                    0 <= j < simulation@.landmarks.len() && in_viewport(
                        request,
                        simulation@.landmarks[j].position.map,
                        simulation@.landmarks[j].position.grid,
                    ) && landmarks@[n].name@ == simulation@.landmarks[j].name@ && landmarks@[n].kind
                        == simulation@.landmarks[j].kind && landmarks@[n].position
                        == simulation@.landmarks[j].position.grid by {
                let j = choose|j: int|
                    0 <= j < marks@.len() && in_viewport(request, marks@[j].position.map, marks@[j].position.grid)
                        && landmarks@[n].name@ == marks@[j].name@ && landmarks@[n].kind == marks@[j].kind
                        && landmarks@[n].position == marks@[j].position.grid;
                assert(simulation@.landmarks[j] == marks@[j]);
            }
        }
        let ghost shown = landmarks@;
        let snapshot = PresentationSnapshot {
            tick: simulation.tick(),
            paused: simulation.paused(),
            map: request.map,
            camera_center: request.center,
            terrain,
            entities,
            landmarks,
        };
        proof {
            assert(marks@.take(marks@.len() as int) =~= marks@);
            assert forall|n: int| 0 <= n < snapshot.landmarks@.len() implies landmarks_in_view(request, simulation@.landmarks)[n]
                == ((#[trigger] snapshot.landmarks@[n]).name@, snapshot.landmarks@[n].kind, snapshot.landmarks@[n].position) by {
                assert(snapshot.landmarks@[n] == shown[n]);
            }
            assert forall|j: int|
                0 <= j < simulation@.landmarks.len() && #[trigger] shows_landmark(request, simulation@.landmarks[j]) implies exists|n: int|
                0 <= n < snapshot.landmarks@.len() && snapshot.landmarks@[n].name@ == simulation@.landmarks[j].name@
                    && snapshot.landmarks@[n].kind == simulation@.landmarks[j].kind && snapshot.landmarks@[n].position
                    == simulation@.landmarks[j].position.grid by {
                assert(marks@[j] == simulation@.landmarks[j]);
                assert(shows_landmark(request, marks@[j]));
                let n = choose|n: int|
                    0 <= n < shown.len() && shown[n].name@ == marks@[j].name@ && shown[n].kind == marks@[j].kind
                        && shown[n].position == marks@[j].position.grid;
                assert(snapshot.landmarks@[n] == shown[n]);
            }
        }
        snapshot
    }
}

} // verus!
