use ultimate_fate::present::{Appearance, CharacterAppearance, PresentationSnapshot, ViewportRequest};
use ultimate_fate::simulation::Simulation;

#[test]
fn snapshot_is_semantic_and_deterministic() {
    let simulation = Simulation::demo(123);
    let request = ViewportRequest {
        map: simulation.player().position.map,
        center: simulation.player().position.grid,
        half_width: 8,
        half_height: 6,
        z: 0,
    };

    let first = PresentationSnapshot::from_simulation(&simulation, request);
    let second = PresentationSnapshot::from_simulation(&simulation, request);

    assert_eq!(first, second);
    assert!(!first.terrain.is_empty());
    assert!(first
        .entities
        .iter()
        .any(|entity| entity.appearance == Appearance::Character(CharacterAppearance::Player)));
    assert!(first
        .entities
        .iter()
        .any(|entity| entity.appearance == Appearance::Character(CharacterAppearance::Villager)));
    assert!(first.landmarks.iter().any(|landmark| landmark.name == "Trading House"));
}

#[test]
fn snapshot_shows_every_stored_cell_in_view() {
    let simulation = Simulation::demo(123);
    let request = ViewportRequest {
        map: simulation.player().position.map,
        center: simulation.player().position.grid,
        half_width: 8,
        half_height: 6,
        z: 0,
    };
    let snapshot = PresentationSnapshot::from_simulation(&simulation, request);
    assert_eq!(snapshot.terrain.len(), 17 * 13);
    let first = snapshot.terrain[0].position;
    assert_eq!((first.x, first.y), (request.center.x - 8, request.center.y - 6));
}
