use bimap::BiMap;
use flat_replay::replay::{ActorUpdate, NewActor};
use flat_replay::spatial::{ObjectData, Position, Rotation};
use flat_replay::tracking::{apply_despawns, apply_spawns, fold};
use flat_replay::RLObject;
use std::collections::HashMap;

fn objects() -> BiMap<i32, RLObject> {
    let mut objects = BiMap::new();
    objects.insert(0, RLObject::Ball);
    objects.insert(1, RLObject::Car);
    objects
}

fn pairs(actor_map: &BiMap<i32, i32>) -> Vec<(i32, i32)> {
    let mut pairs: Vec<(i32, i32)> = actor_map.iter().map(|(l, r)| (*l, *r)).collect();
    pairs.sort();
    pairs
}

fn spawn(object_id: i32, actor_id: i32) -> NewActor {
    NewActor { actor_id, object_id }
}

fn point(x: u32) -> Position {
    Position { x, y: 0, z: 0 }
}

fn turn(w: u32) -> Rotation {
    Rotation { x: 0, y: 0, z: 0, w }
}

#[test]
fn a_spawn_binds_the_object_to_the_actor() {
    let mut actor_map = BiMap::new();
    apply_spawns(&objects(), &mut actor_map, &vec![spawn(0, 10), spawn(1, 11)]);
    assert_eq!(pairs(&actor_map), vec![(0, 10), (1, 11)]);
}

#[test]
fn no_spawn_changes_nothing() {
    let mut actor_map = BiMap::new();
    actor_map.insert(0, 10);
    apply_spawns(&objects(), &mut actor_map, &vec![]);
    assert_eq!(pairs(&actor_map), vec![(0, 10)]);
}

#[test]
fn a_spawn_of_an_untracked_object_is_passed_over() {
    let mut actor_map = BiMap::new();
    actor_map.insert(0, 10);
    apply_spawns(&objects(), &mut actor_map, &vec![spawn(2, 10), spawn(-1, 12), spawn(2, 13)]);
    assert_eq!(pairs(&actor_map), vec![(0, 10)]);
}

#[test]
fn the_last_spawn_of_an_object_wins() {
    let mut actor_map = BiMap::new();
    apply_spawns(&objects(), &mut actor_map, &vec![spawn(0, 10), spawn(0, 11)]);
    assert_eq!(pairs(&actor_map), vec![(0, 11)]);
}

#[test]
fn a_spawn_takes_the_actor_from_the_object_that_had_it() {
    let mut actor_map = BiMap::new();
    apply_spawns(&objects(), &mut actor_map, &vec![spawn(0, 10), spawn(1, 10)]);
    assert_eq!(pairs(&actor_map), vec![(1, 10)]);

    let mut actor_map = BiMap::new();
    apply_spawns(&objects(), &mut actor_map, &vec![spawn(0, 10), spawn(1, 11), spawn(0, 11)]);
    assert_eq!(pairs(&actor_map), vec![(0, 11)]);
}

#[test]
fn a_deletion_unbinds_the_actor() {
    let mut actor_map = BiMap::new();
    actor_map.insert(0, 10);
    actor_map.insert(1, 11);
    apply_despawns(&mut actor_map, &vec![10]);
    assert_eq!(pairs(&actor_map), vec![(1, 11)]);
    apply_despawns(&mut actor_map, &vec![]);
    assert_eq!(pairs(&actor_map), vec![(1, 11)]);
}

#[test]
fn a_deletion_of_an_unbound_actor_is_passed_over() {
    let mut actor_map = BiMap::new();
    actor_map.insert(0, 10);
    actor_map.insert(1, 11);
    apply_despawns(&mut actor_map, &vec![0, 1, 12, 11, 11]);
    assert_eq!(pairs(&actor_map), vec![(0, 10)]);
}

#[test]
fn an_actor_spawned_and_deleted_in_one_frame_ends_unbound() {
    let mut actor_map = BiMap::new();
    apply_spawns(&objects(), &mut actor_map, &vec![spawn(0, 10)]);
    apply_despawns(&mut actor_map, &vec![10]);
    assert!(actor_map.is_empty());
}

#[test]
fn fold_merges_an_update_into_the_object_of_its_actor() {
    let mut actor_map = BiMap::new();
    actor_map.insert(0, 10);
    actor_map.insert(1, 11);
    let mut object_map = HashMap::new();
    object_map.insert(0, ObjectData::default());
    object_map.insert(1, ObjectData { position: Some(point(1)), rotation: Some(turn(1)) });
    fold(
        &actor_map,
        &mut object_map,
        &vec![
            ActorUpdate { actor_id: 11, position: None, rotation: Some(turn(2)) },
            ActorUpdate { actor_id: 10, position: Some(point(3)), rotation: None },
            ActorUpdate { actor_id: 0, position: Some(point(9)), rotation: Some(turn(9)) },
        ],
    );
    assert_eq!(object_map.len(), 2);
    assert_eq!(object_map[&0], ObjectData { position: Some(point(3)), rotation: None });
    assert_eq!(object_map[&1], ObjectData { position: Some(point(1)), rotation: Some(turn(2)) });
}

#[test]
fn fold_passes_over_an_unbound_actor() {
    let mut actor_map = BiMap::new();
    actor_map.insert(0, 10);
    let mut object_map = HashMap::new();
    object_map.insert(0, ObjectData { position: Some(point(1)), rotation: None });
    fold(
        &actor_map,
        &mut object_map,
        &vec![ActorUpdate { actor_id: 99, position: Some(point(5)), rotation: Some(turn(5)) }],
    );
    assert_eq!(object_map.len(), 1);
    assert_eq!(object_map[&0], ObjectData { position: Some(point(1)), rotation: None });
}

#[test]
fn fold_starts_an_object_that_the_map_lacks_from_nothing_seen() {
    let mut actor_map = BiMap::new();
    actor_map.insert(4, 10);
    let mut object_map = HashMap::new();
    fold(
        &actor_map,
        &mut object_map,
        &vec![ActorUpdate { actor_id: 10, position: None, rotation: Some(turn(7)) }],
    );
    assert_eq!(object_map.len(), 1);
    assert_eq!(object_map[&4], ObjectData { position: None, rotation: Some(turn(7)) });
}

#[test]
fn merge_takes_what_is_brought_and_keeps_the_rest() {
    let mut data = ObjectData::default();
    assert_eq!(data, ObjectData { position: None, rotation: None });
    data.merge(Some(point(1)), None);
    assert_eq!(data, ObjectData { position: Some(point(1)), rotation: None });
    data.merge(None, Some(turn(2)));
    assert_eq!(data, ObjectData { position: Some(point(1)), rotation: Some(turn(2)) });
    data.merge(None, None);
    assert_eq!(data, ObjectData { position: Some(point(1)), rotation: Some(turn(2)) });
    data.merge(Some(point(3)), Some(turn(4)));
    assert_eq!(data, ObjectData { position: Some(point(3)), rotation: Some(turn(4)) });
}
