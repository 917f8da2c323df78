use ultimate_fate::geometry::{Direction, GridPos};
use ultimate_fate::lab::{
    path_to_landmark, path_to_position, path_to_unvisited, viewport_ascii, ExperienceTracker,
};
use ultimate_fate::simulation::Simulation;

fn walk(simulation: &Simulation, path: &[Direction]) -> GridPos {
    let start = simulation.player().position;
    let map = simulation.map(start.map).expect("player map");
    let mut at = start.grid;
    for direction in path {
        let (dx, dy) = match direction {
            Direction::North => (0, -1),
            Direction::East => (1, 0),
            Direction::South => (0, 1),
            Direction::West => (-1, 0),
        };
        at = GridPos { x: at.x + dx, y: at.y + dy, z: at.z };
        let cell = map.cell(at).expect("a stored cell");
        assert!(!cell.movement_blocked);
    }
    at
}

#[test]
fn standing_on_the_target_needs_no_steps() {
    let simulation = Simulation::demo(3);
    let here = simulation.player().position.grid;
    assert_eq!(path_to_position(&simulation, here), Some(Vec::new()));
}

#[test]
fn a_path_to_a_landmark_walks_open_cells_to_it() {
    let simulation = Simulation::demo(3);
    let path = path_to_landmark(&simulation, "MARKET").expect("market square is reachable");
    assert_eq!(walk(&simulation, &path), GridPos { x: 0, y: 0, z: 0 });
    let again = path_to_position(&simulation, GridPos { x: 0, y: 0, z: 0 }).expect("reachable");
    assert_eq!(again.len(), path.len());
}

#[test]
fn unreachable_or_unnamed_places_have_no_path() {
    let simulation = Simulation::demo(3);
    assert_eq!(path_to_landmark(&simulation, "no such place"), None);
    assert_eq!(path_to_position(&simulation, GridPos { x: 5000, y: 5000, z: 0 }), None);
}

#[test]
fn exploration_heads_for_something_new() {
    let simulation = Simulation::demo(3);
    let tracker = ExperienceTracker::new(&simulation, 0);
    let path = path_to_unvisited(&simulation, &tracker);
    assert!(!path.is_empty());
    let end = walk(&simulation, &path);
    let landmark_cells: Vec<GridPos> = simulation.landmarks().iter().map(|l| l.position.grid).collect();
    assert!(landmark_cells.contains(&end));
}

#[test]
fn the_viewport_centres_the_player() {
    let simulation = Simulation::demo(3);
    let picture = viewport_ascii(&simulation, 2);
    let rows: Vec<&str> = picture.split('\n').collect();
    assert_eq!(rows.len(), 5);
    assert!(rows.iter().all(|row| row.chars().count() == 5));
    assert_eq!(rows[2].chars().nth(2), Some('@'));
    assert_eq!(viewport_ascii(&simulation, -1), "");
    assert_eq!(viewport_ascii(&simulation, 0), "@");
}

#[test]
fn a_path_along_the_road_takes_the_fewest_steps() {
    let simulation = Simulation::demo(3);
    assert_eq!(simulation.player().position.grid, GridPos { x: -20, y: 0, z: 0 });
    let square = path_to_position(&simulation, GridPos { x: 0, y: 0, z: 0 }).expect("reachable");
    assert_eq!(square.len(), 20);
    let road = path_to_position(&simulation, GridPos { x: 6, y: 0, z: 0 }).expect("the road runs east");
    assert_eq!(road.len(), 26);
    assert_eq!(walk(&simulation, &road), GridPos { x: 6, y: 0, z: 0 });
}
