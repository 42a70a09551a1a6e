use thanatos::codec::{decode_bundle, decode_serverbound, encode_bundle, encode_serverbound};
use thanatos::interp::Positions;
use thanatos::protocol::{
    ClientId, Clientbound, ClientboundBundle, Serverbound, Tick, Vec3, INTERP_DELAY_MS,
    MAX_DATAGRAM, TICKS_PER_SECOND, TICK_INTERVAL_MS,
};
use thanatos::reconcile::Reconciler;
use thanatos::session::Session;

fn v(x: i32, y: i32, z: i32) -> Vec3 {
    Vec3 { x, y, z }
}

#[test]
fn constants_are_consistent() {
    assert_eq!(TICKS_PER_SECOND * TICK_INTERVAL_MS, 1000);
    assert_eq!(INTERP_DELAY_MS, 2 * TICK_INTERVAL_MS);
    assert_eq!(MAX_DATAGRAM, 4096);
}

#[test]
fn tick_increments() {
    let mut t = Tick(5);
    t.inc();
    assert_eq!(t, Tick(6));
}

#[test]
fn empty_buffer_yields_nothing() {
    let mut buf = Positions::new();
    assert_eq!(buf.get(0), None);
    assert_eq!(buf.get(12345), None);
}

#[test]
fn single_sample_yields_nothing() {
    let mut buf = Positions::new();
    buf.push(0, v(3, 4, 5));
    assert_eq!(buf.get(50), None);
    assert_eq!(buf.get(1000), None);
}

#[test]
fn midpoint_interpolates_halfway() {
    // Two samples 100 ms apart; sampling at the midpoint in time yields the
    // midpoint in space.
    let mut buf = Positions::new();
    buf.push(0, v(0, 0, 0)); // deadline 100
    buf.push(100, v(10, 0, 0)); // deadline 200
    assert_eq!(buf.get(150), Some(v(5, 0, 0)));
}

#[test]
fn interpolation_endpoints() {
    let mut buf = Positions::new();
    buf.push(0, v(0, 0, 0)); // deadline 100
    buf.push(100, v(10, 20, -30)); // deadline 200
    // Query before the first deadline clamps to the first sample.
    assert_eq!(buf.get(40), Some(v(0, 0, 0)));
    // Query exactly at the second deadline yields the second sample.
    assert_eq!(buf.get(200), Some(v(10, 20, -30)));
}

#[test]
fn interpolation_handles_negative_spans() {
    let mut buf = Positions::new();
    buf.push(0, v(10, -10, 0)); // deadline 100
    buf.push(100, v(-10, 10, 0)); // deadline 200
    assert_eq!(buf.get(150), Some(v(0, 0, 0)));
    assert_eq!(buf.get(175), Some(v(-5, 5, 0)));
}

#[test]
fn stale_samples_are_walked_past() {
    let mut buf = Positions::new();
    buf.push(0, v(0, 0, 0)); // deadline 100
    buf.push(100, v(10, 0, 0)); // deadline 200
    buf.push(200, v(20, 0, 0)); // deadline 300
    // At 250 the second sample's deadline has passed: the first is dropped
    // and the interpolation runs between the newer pair.
    assert_eq!(buf.get(250), Some(v(15, 0, 0)));
    assert_eq!(buf.len(), 2);
}

#[test]
fn session_takes_tick_and_first_identity() {
    let mut session = Session::new();
    assert_eq!(session.id, None);
    assert_eq!(session.tick, Tick(0));
    let bundle = ClientboundBundle {
        tick: Tick(42),
        messages: vec![
            Clientbound::AuthSuccess(ClientId(1)),
            Clientbound::Spawn(ClientId(2), v(1, 2, 3)),
            Clientbound::AuthSuccess(ClientId(3)),
            Clientbound::Move(ClientId(2), v(4, 5, 6), Tick(41)),
        ],
    };
    let events = session.receive_bundle(&bundle);
    assert_eq!(session.tick, Tick(42));
    assert_eq!(session.id, Some(ClientId(1)));
    assert_eq!(
        events,
        vec![
            Clientbound::Spawn(ClientId(2), v(1, 2, 3)),
            Clientbound::Move(ClientId(2), v(4, 5, 6), Tick(41)),
        ]
    );
}

#[test]
fn session_identity_never_reverts() {
    let mut session = Session::new();
    let first = ClientboundBundle {
        tick: Tick(1),
        messages: vec![Clientbound::AuthSuccess(ClientId(9))],
    };
    session.receive_bundle(&first);
    let second = ClientboundBundle {
        tick: Tick(2),
        messages: vec![Clientbound::AuthSuccess(ClientId(10))],
    };
    session.receive_bundle(&second);
    assert_eq!(session.id, Some(ClientId(9)));
    assert_eq!(session.tick, Tick(2));
}

#[test]
fn empty_bundle_still_updates_tick() {
    let mut session = Session::new();
    let bundle = ClientboundBundle { tick: Tick(7), messages: vec![] };
    let events = session.receive_bundle(&bundle);
    assert_eq!(session.tick, Tick(7));
    assert_eq!(session.id, None);
    assert!(events.is_empty());
}

#[test]
fn respawn_keeps_second_position() {
    let mut world = Reconciler::new();
    world.spawn(ClientId(4), v(1, 1, 1));
    world.despawn(ClientId(4));
    world.spawn(ClientId(4), v(2, 2, 2));
    assert_eq!(world.entity_count(), 1);
    assert_eq!(world.entity_position(ClientId(4)), Some(v(2, 2, 2)));
}

#[test]
fn duplicate_spawn_is_tolerated() {
    let mut world = Reconciler::new();
    world.spawn(ClientId(4), v(1, 1, 1));
    world.spawn(ClientId(4), v(9, 9, 9));
    assert_eq!(world.entity_count(), 1);
    assert_eq!(world.entity_position(ClientId(4)), Some(v(1, 1, 1)));
}

#[test]
fn unknown_remote_move_is_dropped() {
    let mut world = Reconciler::new();
    let local = Some(ClientId(7));
    world.handle_event(local, &Clientbound::Move(ClientId(9), v(5, 5, 5), Tick(3)), 0);
    assert_eq!(world.entity_count(), 0);
    assert!(!world.has_entity(ClientId(9)));
}

#[test]
fn despawn_of_unknown_id_is_tolerated() {
    let mut world = Reconciler::new();
    world.spawn(ClientId(1), v(0, 0, 0));
    world.despawn(ClientId(2));
    assert_eq!(world.entity_count(), 1);
}

#[test]
fn matching_echo_applies_no_correction() {
    let mut world = Reconciler::new();
    let local = ClientId(7);
    world.set_local_position(v(1, 0, 0));
    let sent = world.report_position(Some(local), Tick(5));
    assert_eq!(sent, Some(Serverbound::Move(v(1, 0, 0), Tick(5))));
    assert_eq!(world.pending_position(Tick(5)), Some(v(1, 0, 0)));

    // The server echoes the predicted value: nothing visible changes, and a
    // second identical echo changes nothing either.
    let echo = Clientbound::Move(local, v(1, 0, 0), Tick(5));
    world.handle_event(Some(local), &echo, 0);
    assert_eq!(world.local_position(), v(1, 0, 0));
    assert_eq!(world.pending_position(Tick(5)), Some(v(1, 0, 0)));
    world.handle_event(Some(local), &echo, 0);
    assert_eq!(world.local_position(), v(1, 0, 0));
    assert_eq!(world.pending_position(Tick(5)), Some(v(1, 0, 0)));
}

#[test]
fn mismatched_echo_snaps_local_position() {
    let mut world = Reconciler::new();
    let local = ClientId(7);
    world.set_local_position(v(1, 0, 0));
    world.report_position(Some(local), Tick(5));

    let echo = Clientbound::Move(local, v(2, 0, 0), Tick(5));
    world.handle_event(Some(local), &echo, 0);
    assert_eq!(world.local_position(), v(2, 0, 0));
    // The reconciled record is pruned once corrected.
    assert_eq!(world.pending_position(Tick(5)), None);
}

#[test]
fn echo_without_record_snaps() {
    let mut world = Reconciler::new();
    let local = ClientId(7);
    world.set_local_position(v(1, 0, 0));
    let echo = Clientbound::Move(local, v(3, 0, 0), Tick(8));
    world.handle_event(Some(local), &echo, 0);
    assert_eq!(world.local_position(), v(3, 0, 0));
}

#[test]
fn no_report_before_authentication() {
    let mut world = Reconciler::new();
    world.set_local_position(v(1, 2, 3));
    assert_eq!(world.report_position(None, Tick(5)), None);
    assert_eq!(world.pending_position(Tick(5)), None);
}

#[test]
fn bundle_events_fan_out_in_order() {
    let mut session = Session::new();
    let mut world = Reconciler::new();
    let bundle = ClientboundBundle {
        tick: Tick(3),
        messages: vec![
            Clientbound::AuthSuccess(ClientId(7)),
            Clientbound::Spawn(ClientId(2), v(1, 1, 1)),
            Clientbound::Despawn(ClientId(2)),
            Clientbound::Spawn(ClientId(2), v(2, 2, 2)),
        ],
    };
    let events = session.receive_bundle(&bundle);
    world.apply_events(session.id, &events, 0);
    assert_eq!(session.id, Some(ClientId(7)));
    assert_eq!(world.entity_count(), 1);
    assert_eq!(world.entity_position(ClientId(2)), Some(v(2, 2, 2)));
}

#[test]
fn housekeeping_moves_remote_entities() {
    let mut world = Reconciler::new();
    let local = Some(ClientId(7));
    world.handle_event(local, &Clientbound::Spawn(ClientId(2), v(0, 0, 0)), 0);
    world.handle_event(local, &Clientbound::Move(ClientId(2), v(0, 0, 0), Tick(1)), 0);
    world.handle_event(local, &Clientbound::Move(ClientId(2), v(10, 0, 0), Tick(2)), 100);
    // Deadlines sit at 100 and 200; halfway between them the entity has
    // covered half the distance.
    world.update_positions(150);
    assert_eq!(world.entity_position(ClientId(2)), Some(v(5, 0, 0)));
}

#[test]
fn housekeeping_without_samples_keeps_position() {
    let mut world = Reconciler::new();
    world.spawn(ClientId(2), v(4, 4, 4));
    world.update_positions(500);
    assert_eq!(world.entity_position(ClientId(2)), Some(v(4, 4, 4)));
}

#[test]
fn serverbound_round_trips() {
    let messages = [
        Serverbound::AuthRequest,
        Serverbound::Move(v(1, -2, 3), Tick(77)),
        Serverbound::Disconnect,
    ];
    for m in messages {
        let mut bytes = encode_serverbound(&m);
        // The receive buffer is zero padded; the format is self-delimiting.
        bytes.resize(MAX_DATAGRAM, 0);
        assert_eq!(decode_serverbound(&bytes), Some(m));
    }
}

#[test]
fn serverbound_exact_bytes() {
    assert_eq!(encode_serverbound(&Serverbound::AuthRequest), vec![0]);
    assert_eq!(encode_serverbound(&Serverbound::Disconnect), vec![2]);
    let bytes = encode_serverbound(&Serverbound::Move(v(1, 2, -1), Tick(5)));
    assert_eq!(
        bytes,
        vec![
            1, // tag
            1, 0, 0, 0, // x
            2, 0, 0, 0, // y
            0xff, 0xff, 0xff, 0xff, // z = -1
            5, 0, 0, 0, 0, 0, 0, 0, // tick
        ]
    );
}

#[test]
fn bundle_round_trips_through_padded_buffer() {
    let bundle = ClientboundBundle {
        tick: Tick(42),
        messages: vec![
            Clientbound::AuthSuccess(ClientId(1)),
            Clientbound::Spawn(ClientId(2), v(1, 2, 3)),
            Clientbound::Despawn(ClientId(3)),
            Clientbound::Move(ClientId(2), v(-4, 5, -6), Tick(41)),
        ],
    };
    let mut bytes = encode_bundle(&bundle);
    assert!(bytes.len() <= MAX_DATAGRAM);
    bytes.resize(MAX_DATAGRAM, 0);
    let decoded = decode_bundle(&bytes).expect("a padded encoding must decode");
    assert_eq!(decoded.tick, Tick(42));
    assert_eq!(decoded.messages, bundle.messages);
}

#[test]
fn empty_bundle_round_trips() {
    let bundle = ClientboundBundle { tick: Tick(9), messages: vec![] };
    let mut bytes = encode_bundle(&bundle);
    bytes.resize(MAX_DATAGRAM, 0);
    let decoded = decode_bundle(&bytes).expect("an empty envelope still decodes");
    assert_eq!(decoded.tick, Tick(9));
    assert!(decoded.messages.is_empty());
}

#[test]
fn malformed_datagrams_are_rejected() {
    // Too short for an envelope header.
    assert_eq!(decode_bundle(&[1, 2, 3]).map(|b| b.tick), None);
    // Header promises one event but no bytes follow.
    let mut bytes = vec![0u8; 12];
    bytes[8] = 1;
    assert!(decode_bundle(&bytes).is_none());
    // Unknown event tag.
    let mut bytes = vec![0u8; 13];
    bytes[8] = 1;
    bytes[12] = 99;
    assert!(decode_bundle(&bytes).is_none());
    // Unknown serverbound tag.
    assert_eq!(decode_serverbound(&[99, 0, 0]), None);
    assert_eq!(decode_serverbound(&[]), None);
}
