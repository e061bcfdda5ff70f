use kanono::entity::Entity;
use kanono::fixed::FP_ONE;
use kanono::net::Connection;
use kanono::protocol::ClientboundPacket;
use kanono::simulation::{leaderboard_packet, push_impulse, Arena};
use kanono::util::test_circular_collision;
use tokio::sync::mpsc::{unbounded_channel, UnboundedReceiver};
use warp::ws::Message;

fn channel() -> (Connection, UnboundedReceiver<Message>) {
    unbounded_channel()
}

fn tank_of(e: &Entity) -> &kanono::tank::Tank {
    match e {
        Entity::Tank(t) => t,
    }
}

#[test]
fn identifiers_start_at_four() {
    let mut arena = Arena::new(4000, 4000);
    let (tx, _rx) = channel();
    let id = arena.new_connection(tx);
    assert_eq!(id, 4);
    let (tx2, _rx2) = channel();
    assert_eq!(arena.new_connection(tx2), 5);
}

#[test]
fn census_count_equals_population() {
    let mut arena = Arena::new(4000, 4000);
    let mut receivers = Vec::new();
    for n in 0..5usize {
        match arena.build_census() {
            ClientboundPacket::Census { entities } => assert_eq!(entities.len(), n),
            other => panic!("not a census: {:?}", other),
        }
        let (tx, rx) = channel();
        let id = arena.new_connection(tx);
        receivers.push(rx);
        assert!(arena.player_spawn(id, format!("p{}", n).into_bytes()));
    }
    match arena.build_census() {
        ClientboundPacket::Census { entities } => assert_eq!(entities.len(), 5),
        other => panic!("not a census: {:?}", other),
    }
}

#[test]
fn kick_unregistered_is_failure_without_mutation() {
    let mut arena = Arena::new(4000, 4000);
    let (tx, _rx) = channel();
    let id = arena.new_connection(tx);
    assert!(arena.player_spawn(id, b"Ace".to_vec()));
    let entities_before = arena.entities.len();
    let conns_before = arena.registered_connections.len();

    assert!(!arena.kick_connection(999));

    assert_eq!(arena.entities.len(), entities_before);
    assert_eq!(arena.registered_connections.len(), conns_before);
}

#[test]
fn kick_registered_removes_both_registries() {
    let mut arena = Arena::new(4000, 4000);
    let (tx, _rx) = channel();
    let id = arena.new_connection(tx);
    assert!(arena.player_spawn(id, b"Ace".to_vec()));

    assert!(arena.kick_connection(id));
    assert_eq!(arena.entities.len(), 0);
    assert_eq!(arena.registered_connections.len(), 0);
    // idempotent: the identifier is gone now
    assert!(!arena.kick_connection(id));
}

#[test]
fn spawn_unregistered_is_rejected() {
    let mut arena = Arena::new(4000, 4000);
    assert!(!arena.player_spawn(4, b"Ace".to_vec()));
    assert_eq!(arena.entities.len(), 0);
}

#[test]
fn spawn_twice_is_rejected() {
    let mut arena = Arena::new(4000, 4000);
    let (tx, _rx) = channel();
    let id = arena.new_connection(tx);
    assert!(arena.player_spawn(id, b"Ace".to_vec()));
    assert!(!arena.player_spawn(id, b"Ace".to_vec()));
    assert_eq!(arena.entities.len(), 1);
}

#[test]
fn level_score_mapping() {
    let mut arena = Arena::new(4000, 4000);
    let (tx, _rx) = channel();
    let id = arena.new_connection(tx);
    assert!(arena.player_spawn(id, b"Ace".to_vec()));
    match &mut arena.entities[0] {
        Entity::Tank(t) => {
            t.set_level(7);
            assert_eq!(t.get_score(), 4200);
            assert_eq!(t.get_level(), 7);
            t.set_score(1399);
            assert_eq!(t.get_level(), 2);
            t.set_score(599);
            assert_eq!(t.get_level(), 0);
        }
    }
}

#[test]
fn circular_collision_is_exact() {
    let px = |v: i64| v * FP_ONE;
    // centers 3px-4px apart: distance five; radius sum six overlaps
    assert!(test_circular_collision(0, 0, px(3), px(3), px(4), px(3)));
    // radius sum four does not reach distance five
    assert!(!test_circular_collision(0, 0, px(2), px(3), px(4), px(2)));
    // touching exactly is not an overlap (strict comparison)
    assert!(!test_circular_collision(0, 0, px(2), px(5), px(0), px(3)));
}

#[test]
fn overlapping_tanks_push_each_other_apart() {
    let mut arena = Arena::new(4000, 4000);
    let (tx1, _rx1) = channel();
    let id1 = arena.new_connection(tx1);
    assert!(arena.player_spawn(id1, b"one".to_vec()));

    // a second tank 50 pixels to the right: well within the sum of the
    // two 100-pixel radii
    let (tx2, _rx2) = channel();
    let id2 = arena.new_connection(tx2);
    let (tank_tx, _tank_rx) = channel();
    let tank2 = kanono::tank::Tank::new_player(
        id2,
        b"two".to_vec(),
        50 * FP_ONE,
        0,
        0,
        0,
        100 * FP_ONE,
        FP_ONE,
        tank_tx,
    );
    arena.add_entity(Entity::Tank(tank2));

    arena.update(33, 0);

    let (x1, v1) = {
        let t = tank_of(&arena.entities[0]);
        assert_eq!(t.get_id(), id1);
        (t.get_x(), t.get_velocity())
    };
    let (x2, v2) = {
        let t = tank_of(&arena.entities[1]);
        assert_eq!(t.get_id(), id2);
        (t.get_x(), t.get_velocity())
    };
    // each accrued a velocity component directed away from the other:
    // the dot product of the velocity delta with the vector from the
    // other's center is positive
    let from_2_to_1 = (x1 - x2) as i128;
    let from_1_to_2 = (x2 - x1) as i128;
    assert!(v1.0 as i128 * from_2_to_1 > 0, "tank one not pushed away: {:?}", v1);
    assert!(v2.0 as i128 * from_1_to_2 > 0, "tank two not pushed away: {:?}", v2);
}

#[test]
fn push_impulse_points_away() {
    // neighbor to the right: the impulse points left
    let (px, py) = push_impulse(10 * FP_ONE, 0);
    assert!(px < 0);
    assert_eq!(py, 0);
    // neighbor above and to the left: the impulse points down-right
    let (px, py) = push_impulse(-3 * FP_ONE, -4 * FP_ONE);
    assert!(px > 0 && py > 0);
    // coincident centers: the degenerate push is half a unit along the
    // negative horizontal axis
    assert_eq!(push_impulse(0, 0), (-0x8000, 0));
}

#[test]
fn leaderboard_rows_carry_clock_and_tick() {
    match leaderboard_packet(1234, 7) {
        ClientboundPacket::LeaderBoard { leaderboard } => {
            assert_eq!(leaderboard.len(), 2);
            assert_eq!(leaderboard[0].name.as_slice(), b"UNIX_TIME: 1234");
            assert_eq!(leaderboard[1].name.as_slice(), b"TICK: 7");
            assert_eq!(leaderboard[0].id, 1);
            assert_eq!(leaderboard[1].id, 2);
        }
        other => panic!("not a leaderboard: {:?}", other),
    }
    match leaderboard_packet(u64::MAX, 0) {
        ClientboundPacket::LeaderBoard { leaderboard } => {
            assert_eq!(
                leaderboard[0].name.as_slice(),
                format!("UNIX_TIME: {}", u64::MAX).as_bytes()
            );
            assert_eq!(leaderboard[1].name.as_slice(), b"TICK: 0");
        }
        other => panic!("not a leaderboard: {:?}", other),
    }
}

#[test]
fn end_to_end_session() {
    let mut arena = Arena::new(4000, 4000);

    // spawn while unregistered: failure, no entity
    assert!(!arena.player_spawn(4, b"Ace".to_vec()));
    assert_eq!(arena.entities.len(), 0);

    // connect: identifier four is assigned
    let (tx, mut rx) = channel();
    let id = arena.new_connection(tx);
    assert_eq!(id, 4);

    // spawn: entity four appears at the origin
    assert!(arena.player_spawn(id, b"Ace".to_vec()));
    assert_eq!(arena.entities.len(), 1);
    {
        let t = tank_of(&arena.entities[0]);
        assert_eq!(t.get_id(), 4);
        assert_eq!(t.get_position(), (0, 0));
        assert_eq!(t.get_name().as_slice(), b"Ace");
    }
    // the joining notice went out on the channel
    assert!(rx.try_recv().is_ok());

    // hold right for several ticks: x strictly increases
    let mut last_x: i64 = 0;
    for _ in 0..5 {
        arena.input(id, false, true, false, false, 0, false, 0, 0, false);
        arena.update(33, 0);
        let x = tank_of(&arena.entities[0]).get_x();
        assert!(x > last_x, "x did not increase: {} -> {}", last_x, x);
        last_x = x;
    }

    // close the transport: both registry entries go
    drop(rx);
    arena.update(33, 0);
    assert_eq!(arena.entities.len(), 0);
    assert_eq!(arena.registered_connections.len(), 0);

    // subsequent input for the identifier is a no-op
    arena.input(id, true, true, true, true, 0, true, 1, 1, true);
    assert_eq!(arena.entities.len(), 0);
}

#[test]
fn decode_error_tears_connection_down() {
    let mut arena = Arena::new(4000, 4000);
    let (tx, _rx) = channel();
    let id = arena.new_connection(tx);
    assert!(arena.player_spawn(id, b"Ace".to_vec()));

    let keep = arena.handle_client_frame(id, &[0xFF, 0x00]);
    assert!(!keep);
    assert_eq!(arena.registered_connections.len(), 0);
    assert_eq!(arena.entities.len(), 0);
}

#[test]
fn frames_dispatch_spawn_and_input() {
    let mut arena = Arena::new(4000, 4000);
    let (tx, _rx) = channel();
    let id = arena.new_connection(tx);

    // a spawn frame: tag, length prefix, name
    let keep = arena.handle_client_frame(id, &[0x01, 0x00, 0x03, b'A', b'c', b'e']);
    assert!(keep);
    assert_eq!(arena.entities.len(), 1);
    assert_eq!(tank_of(&arena.entities[0]).get_name().as_slice(), b"Ace");

    // a ping frame is acknowledged by doing nothing
    assert!(arena.handle_client_frame(id, &[0x04]));

    // an input frame holding right
    let input_frame = vec![
        0x00, 0x00, 0x01, 0x00, 0x00, 0x00, 0x00, 0x00, 0x00, 0x00, 0x00, 0x00, 0x00, 0x00, 0x00,
    ];
    assert!(arena.handle_client_frame(id, &input_frame));
    assert!(tank_of(&arena.entities[0]).input.right);
    assert!(!tank_of(&arena.entities[0]).input.left);
}

#[test]
fn tick_advances_held_direction() {
    let mut arena = Arena::new(4000, 4000);
    let (tx, _rx) = channel();
    let id = arena.new_connection(tx);
    assert!(arena.player_spawn(id, b"Ace".to_vec()));
    arena.input(id, false, false, false, true, 0, false, 0, 0, false);
    arena.update(33, 0);
    let t = tank_of(&arena.entities[0]);
    // at the nominal rate dt is exactly one: one unit of velocity moves
    // the tank one pixel, then drag keeps nine tenths
    assert_eq!(t.get_y(), FP_ONE);
    assert_eq!(t.get_velocity().1, FP_ONE * 9 / 10);
    assert_eq!(arena.frame, 1);
}
