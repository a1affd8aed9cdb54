use bimap::BiMap;
use flat_replay::replay::{ActorUpdate, NetworkFrame, NewActor, ReplayData};
use flat_replay::spatial::{ObjectData, Position, Rotation};
use flat_replay::{BuildError, FlatReplay, Frame, RLObject};

const BALL: i32 = 0;
const CAR: i32 = 1;

fn position(x: f32, y: f32, z: f32) -> Position {
    Position { x: x.to_bits(), y: y.to_bits(), z: z.to_bits() }
}

fn rotation(x: f32, y: f32, z: f32, w: f32) -> Rotation {
    Rotation { x: x.to_bits(), y: y.to_bits(), z: z.to_bits(), w: w.to_bits() }
}

fn unseen() -> ObjectData {
    ObjectData { position: None, rotation: None }
}

fn at(position: Position) -> ObjectData {
    ObjectData { position: Some(position), rotation: None }
}

fn spawn(object_id: i32, actor_id: i32) -> NewActor {
    NewActor { actor_id, object_id }
}

fn moved(actor_id: i32, to: Position) -> ActorUpdate {
    ActorUpdate { actor_id, position: Some(to), rotation: None }
}

fn turned(actor_id: i32, to: Rotation) -> ActorUpdate {
    ActorUpdate { actor_id, position: None, rotation: Some(to) }
}

fn frame(spawns: Vec<NewActor>, updates: Vec<ActorUpdate>, deleted: Vec<i32>) -> NetworkFrame {
    NetworkFrame {
        delta: 33.0f32.to_bits(),
        new_actors: spawns,
        updated_actors: updates,
        deleted_actors: deleted,
    }
}

fn quiet() -> NetworkFrame {
    frame(vec![], vec![], vec![])
}

fn table(names: &[&str]) -> Vec<String> {
    names.iter().map(|name| String::from(*name)).collect()
}

fn replay_of(objects: Vec<String>, frames: Vec<NetworkFrame>) -> ReplayData {
    ReplayData {
        game_type: String::from("TAGame.Replay_Soccar_TA"),
        properties: vec![],
        objects,
        network_frames: Some(frames),
    }
}

fn ball_and_car(frames: Vec<NetworkFrame>) -> ReplayData {
    replay_of(table(&["Archetypes.Ball.Ball_Default", "Archetypes.Car.Car_Default"]), frames)
}

fn snapshots(flat: &FlatReplay) -> Vec<(u32, Vec<(i32, ObjectData)>)> {
    flat.frames
        .iter()
        .map(|frame| {
            let mut objects: Vec<(i32, ObjectData)> =
                frame.objects.iter().map(|(id, data)| (*id, *data)).collect();
            objects.sort_by_key(|(id, _)| *id);
            (frame.delta, objects)
        })
        .collect()
}

fn tracked_objects() -> BiMap<i32, RLObject> {
    let mut objects = BiMap::new();
    objects.insert(BALL, RLObject::Ball);
    objects.insert(CAR, RLObject::Car);
    objects
}

#[test]
fn first_frame_shows_the_updated_ball_and_the_unseen_car() {
    let replay = ball_and_car(vec![NetworkFrame {
        delta: 0.0f32.to_bits(),
        new_actors: vec![spawn(0, 5)],
        updated_actors: vec![moved(5, position(1.0, 2.0, 3.0))],
        deleted_actors: vec![],
    }]);
    let flat = FlatReplay::from(&replay).unwrap();
    assert!(flat.is_built());
    assert_eq!(flat.frames.len(), 1);
    assert_eq!(flat.objects.len(), 2);
    assert_eq!(flat.objects.get_by_right(&RLObject::Ball), Some(&0));
    assert_eq!(flat.objects.get_by_right(&RLObject::Car), Some(&1));
    let first = &flat.frames[0];
    assert_eq!(first.delta, 0.0f32.to_bits());
    assert_eq!(first.objects.len(), 2);
    assert_eq!(
        first.objects[&0],
        ObjectData { position: Some(position(1.0, 2.0, 3.0)), rotation: None }
    );
    assert_eq!(first.objects[&1], ObjectData { position: None, rotation: None });
}

#[test]
fn one_flattened_frame_for_each_network_frame() {
    for count in [0usize, 1, 2, 7] {
        let frames = (0..count).map(|_| quiet()).collect();
        let flat = FlatReplay::from(&ball_and_car(frames)).unwrap();
        assert_eq!(flat.frames.len(), count);
    }
}

#[test]
fn every_frame_holds_every_tracked_object() {
    let replay = replay_of(
        table(&["Core.Object", "Archetypes.Car.Car_Default", "Archetypes.Ball.Ball_Default"]),
        vec![
            quiet(),
            frame(vec![spawn(2, 9)], vec![moved(9, position(0.5, 0.0, 0.0))], vec![]),
            quiet(),
        ],
    );
    let flat = FlatReplay::from(&replay).unwrap();
    assert_eq!(flat.objects.get_by_left(&1), Some(&RLObject::Car));
    assert_eq!(flat.objects.get_by_left(&2), Some(&RLObject::Ball));
    assert_eq!(flat.objects.get_by_left(&0), None);
    for flattened in &flat.frames {
        let mut ids: Vec<i32> = flattened.objects.keys().copied().collect();
        ids.sort();
        assert_eq!(ids, vec![1, 2]);
        assert_eq!(flattened.objects[&1], unseen());
    }
    assert_eq!(flat.frames[0].objects[&2], unseen());
    assert_eq!(flat.frames[1].objects[&2], at(position(0.5, 0.0, 0.0)));
}

#[test]
fn a_frame_without_an_update_carries_the_position_forward() {
    let p = position(10.0, -20.0, 30.5);
    let replay = ball_and_car(vec![
        frame(vec![spawn(BALL, 3)], vec![moved(3, p)], vec![]),
        quiet(),
        frame(vec![spawn(CAR, 4)], vec![turned(4, rotation(0.0, 0.0, 0.0, 1.0))], vec![]),
    ]);
    let flat = FlatReplay::from(&replay).unwrap();
    assert_eq!(flat.frames[0].objects[&BALL], at(p));
    assert_eq!(flat.frames[1].objects[&BALL], at(p));
    assert_eq!(flat.frames[2].objects[&BALL], at(p));
    assert_eq!(flat.frames[1].objects[&CAR], unseen());
    assert_eq!(
        flat.frames[2].objects[&CAR],
        ObjectData { position: None, rotation: Some(rotation(0.0, 0.0, 0.0, 1.0)) }
    );
}

#[test]
fn an_update_keeps_the_field_that_it_does_not_bring() {
    let p = position(1.0, 1.0, 1.0);
    let q = position(2.0, 2.0, 2.0);
    let r = rotation(0.5, 0.5, 0.5, 0.5);
    let replay = ball_and_car(vec![
        frame(vec![spawn(BALL, 3)], vec![moved(3, p)], vec![]),
        frame(vec![], vec![turned(3, r)], vec![]),
        frame(vec![], vec![moved(3, q)], vec![]),
        frame(vec![], vec![ActorUpdate { actor_id: 3, position: None, rotation: None }], vec![]),
    ]);
    let flat = FlatReplay::from(&replay).unwrap();
    assert_eq!(flat.frames[1].objects[&BALL], ObjectData { position: Some(p), rotation: Some(r) });
    assert_eq!(flat.frames[2].objects[&BALL], ObjectData { position: Some(q), rotation: Some(r) });
    assert_eq!(flat.frames[3].objects[&BALL], ObjectData { position: Some(q), rotation: Some(r) });
}

#[test]
fn the_last_update_of_a_frame_wins() {
    let replay = ball_and_car(vec![frame(
        vec![spawn(BALL, 3)],
        vec![
            moved(3, position(1.0, 0.0, 0.0)),
            turned(3, rotation(1.0, 0.0, 0.0, 0.0)),
            moved(3, position(2.0, 0.0, 0.0)),
        ],
        vec![],
    )]);
    let flat = FlatReplay::from(&replay).unwrap();
    assert_eq!(
        flat.frames[0].objects[&BALL],
        ObjectData {
            position: Some(position(2.0, 0.0, 0.0)),
            rotation: Some(rotation(1.0, 0.0, 0.0, 0.0)),
        }
    );
}

#[test]
fn a_reused_actor_id_updates_the_object_it_is_bound_to_now() {
    let a = position(1.0, 0.0, 0.0);
    let b = position(0.0, 1.0, 0.0);
    let c = position(0.0, 0.0, 1.0);
    let replay = ball_and_car(vec![
        frame(vec![spawn(BALL, 7)], vec![moved(7, a)], vec![]),
        frame(vec![], vec![moved(7, b)], vec![]),
        frame(vec![], vec![], vec![7]),
        frame(vec![spawn(CAR, 7)], vec![], vec![]),
        frame(vec![], vec![moved(7, c)], vec![]),
    ]);
    let flat = FlatReplay::from(&replay).unwrap();
    assert_eq!(flat.frames.len(), 5);
    assert_eq!(flat.frames[0].objects[&BALL], at(a));
    assert_eq!(flat.frames[1].objects[&BALL], at(b));
    assert_eq!(flat.frames[2].objects[&BALL], at(b));
    assert_eq!(flat.frames[3].objects[&BALL], at(b));
    assert_eq!(flat.frames[4].objects[&BALL], at(b));
    for n in 0..4 {
        assert_eq!(flat.frames[n].objects[&CAR], unseen());
    }
    assert_eq!(flat.frames[4].objects[&CAR], at(c));
}

#[test]
fn an_actor_deleted_in_a_frame_is_still_updated_in_that_frame() {
    let p = position(4.0, 5.0, 6.0);
    let q = position(7.0, 8.0, 9.0);
    let replay = ball_and_car(vec![
        frame(vec![spawn(BALL, 2)], vec![moved(2, p)], vec![2]),
        frame(vec![], vec![moved(2, q)], vec![]),
    ]);
    let flat = FlatReplay::from(&replay).unwrap();
    assert_eq!(flat.frames[0].objects[&BALL], at(p));
    assert_eq!(flat.frames[1].objects[&BALL], at(p));
}

#[test]
fn events_of_untracked_objects_change_nothing() {
    let p = position(1.5, 2.5, 3.5);
    let q = position(-1.0, -2.0, -3.0);
    let plain = vec![
        frame(vec![spawn(BALL, 1)], vec![moved(1, p)], vec![]),
        frame(vec![spawn(CAR, 2)], vec![moved(2, q), moved(1, q)], vec![1]),
        frame(vec![], vec![turned(2, rotation(0.0, 1.0, 0.0, 0.0))], vec![]),
    ];
    let noisy = vec![
        frame(
            vec![spawn(17, 30), spawn(BALL, 1), spawn(-4, 31)],
            vec![moved(30, q), moved(1, p), moved(31, q)],
            vec![],
        ),
        frame(
            vec![spawn(CAR, 2), spawn(99, 32)],
            vec![moved(2, q), moved(32, p), moved(1, q), turned(30, rotation(1.0, 0.0, 0.0, 0.0))],
            vec![1],
        ),
        frame(
            vec![spawn(2, 1)],
            vec![moved(1, p), turned(2, rotation(0.0, 1.0, 0.0, 0.0))],
            vec![],
        ),
    ];
    let expected = FlatReplay::from(&ball_and_car(plain)).unwrap();
    let found = FlatReplay::from(&ball_and_car(noisy)).unwrap();
    assert_eq!(snapshots(&found), snapshots(&expected));
    assert_eq!(found.objects, expected.objects);
}

#[test]
fn a_replay_without_network_frames_is_refused() {
    let mut replay = ball_and_car(vec![]);
    replay.network_frames = None;
    let refused = FlatReplay::from(&replay);
    assert_eq!(refused.err(), Some(BuildError::MissingNetworkFrames));

    let mut flat = FlatReplay::default();
    assert_eq!(flat.build(&replay), Err(BuildError::MissingNetworkFrames));
    assert!(!flat.is_built());
    assert!(flat.frames.is_empty());
    assert!(flat.objects.is_empty());
    assert_eq!(
        BuildError::MissingNetworkFrames.message(),
        "Replay should contain network frames."
    );
}

#[test]
fn a_fresh_replay_is_empty_and_building_marks_it_built() {
    let mut flat = FlatReplay::default();
    assert!(!flat.is_built());
    assert!(flat.frames.is_empty());
    assert!(flat.objects.is_empty());
    assert_eq!(flat.header.date, None);
    assert_eq!(flat.header.game_type, None);
    assert_eq!(flat.header.map, None);
    assert_eq!(flat.header.name, None);

    assert_eq!(flat.build(&ball_and_car(vec![quiet(), quiet()])), Ok(()));
    assert!(flat.is_built());
    assert_eq!(flat.frames.len(), 2);
    assert_eq!(flat.header.game_type, None);
}

#[test]
fn building_appends_to_the_frames_that_are_there() {
    let mut flat = FlatReplay::default();
    flat.frames.push(Frame::new(1.0f32.to_bits()));
    flat.objects.insert(40, RLObject::Car);
    let p = position(3.0, 3.0, 3.0);
    let replay = replay_of(
        table(&["Archetypes.Ball.Ball_Default"]),
        vec![frame(vec![spawn(0, 6), spawn(40, 8)], vec![moved(6, p), moved(8, p)], vec![])],
    );
    assert_eq!(flat.build(&replay), Ok(()));
    assert_eq!(flat.frames.len(), 2);
    assert_eq!(flat.frames[0].delta, 1.0f32.to_bits());
    assert!(flat.frames[0].objects.is_empty());
    assert_eq!(flat.objects.get_by_left(&0), Some(&RLObject::Ball));
    assert_eq!(flat.objects.get_by_left(&40), Some(&RLObject::Car));
    assert_eq!(flat.frames[1].objects.len(), 2);
    assert_eq!(flat.frames[1].objects[&0], at(p));
    assert_eq!(flat.frames[1].objects[&40], at(p));
}

#[test]
fn the_later_index_of_a_name_listed_twice_stays() {
    let mut flat = FlatReplay::default();
    flat.objects.insert(1, RLObject::Ball);
    flat.objects.insert(50, RLObject::Car);
    let replay = replay_of(
        table(&[
            "Archetypes.Car.Car_Default",
            "Engine.Actor",
            "Archetypes.Car.Car_Default",
            "Archetypes.Car.Car_Defaul",
        ]),
        vec![],
    );
    flat.map_objects(&replay);
    assert_eq!(flat.objects.len(), 2);
    assert_eq!(flat.objects.get_by_right(&RLObject::Car), Some(&2));
    assert_eq!(flat.objects.get_by_right(&RLObject::Ball), Some(&1));
    assert!(!flat.is_built());

    let flat = FlatReplay::from(&replay).unwrap();
    assert_eq!(flat.objects.len(), 1);
    assert_eq!(flat.objects.get_by_right(&RLObject::Car), Some(&2));
}

#[test]
fn a_name_at_the_index_of_a_known_pair_replaces_it() {
    let mut flat = FlatReplay::default();
    flat.objects.insert(0, RLObject::Car);
    flat.map_objects(&replay_of(table(&["Archetypes.Ball.Ball_Default"]), vec![]));
    assert_eq!(flat.objects.len(), 1);
    assert_eq!(flat.objects.get_by_left(&0), Some(&RLObject::Ball));
}

#[test]
fn the_initial_object_map_holds_each_tracked_object_unseen() {
    let mut flat = FlatReplay::default();
    assert!(flat.get_inital_object_map().is_empty());
    flat.objects = tracked_objects();
    flat.objects.insert(12, RLObject::Car);
    let object_map = flat.get_inital_object_map();
    let mut ids: Vec<i32> = object_map.keys().copied().collect();
    ids.sort();
    assert_eq!(ids, vec![0, 12]);
    assert_eq!(object_map[&0], unseen());
    assert_eq!(object_map[&12], ObjectData::default());
}

#[test]
fn a_new_frame_holds_its_delta_and_no_object() {
    let made = Frame::new(16.5f32.to_bits());
    assert_eq!(made.delta, 16.5f32.to_bits());
    assert_eq!(f32::from_bits(made.delta), 16.5);
    assert!(made.objects.is_empty());
}

#[test]
fn update_actor_map_binds_tracked_objects_only() {
    let mut flat = FlatReplay::default();
    flat.objects = tracked_objects();
    let mut actor_map: BiMap<i32, i32> = BiMap::new();
    flat.update_actor_map(&mut actor_map, &vec![spawn(BALL, 5), spawn(8, 6), spawn(CAR, 7)]);
    assert_eq!(actor_map.len(), 2);
    assert_eq!(actor_map.get_by_left(&BALL), Some(&5));
    assert_eq!(actor_map.get_by_left(&CAR), Some(&7));
    assert_eq!(actor_map.get_by_right(&6), None);
}

#[test]
fn the_getters_hand_out_the_fields() {
    let p = position(1.0, 2.0, 3.0);
    let mut replay = ball_and_car(vec![frame(vec![spawn(CAR, 3)], vec![moved(3, p)], vec![])]);
    replay.properties.push(flat_replay::replay::Property {
        name: String::from("ReplayName"),
        text: Some(String::from("Kickoff")),
    });
    let flat = FlatReplay::from(&replay).unwrap();
    assert_eq!(flat.header().name.as_deref(), Some("Kickoff"));
    assert_eq!(flat.frames().len(), 1);
    assert_eq!(flat.frames()[0].objects[&CAR], at(p));
    assert_eq!(flat.objects(), &tracked_objects());
}
