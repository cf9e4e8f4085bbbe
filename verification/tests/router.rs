use dante_babelbox::bridge::channel_scheme;
use dante_babelbox::bridge::router::{Mapping, Router};
use dante_babelbox::float32::Float32;
use dante_babelbox::oca::object::{OcaAddress, OcaEvent, OcaObject};
use dante_babelbox::oca::ono::Ono;
use dante_babelbox::oca::value::{OcaClass, OcaValue};

fn gain_event_at(address: &OcaAddress, gain_db: f32) -> OcaEvent {
    OcaEvent {
        address: address.clone(),
        object: OcaObject {
            ono: address.ono,
            class: OcaClass::Gain,
            role: "Gain".into(),
            settable: true,
            value: OcaValue::F32(Float32::from_bits(gain_db.to_bits())),
        },
    }
}

fn gain_event(device_id: &str, ono: u32, gain_db: f32) -> OcaEvent {
    gain_event_at(&OcaAddress::new(device_id, Ono(ono)), gain_db)
}

fn link(from: (&str, u32), to: (&str, u32), bidirectional: bool) -> Mapping {
    Mapping {
        from: OcaAddress::new(from.0, Ono(from.1)),
        to: OcaAddress::new(to.0, Ono(to.1)),
        bidirectional,
    }
}

#[test]
fn propagates_bidirectionally_and_suppresses_echo() {
    let mut router = Router::new(vec![link(("a", 1), ("b", 5), true)]);
    router.register_device("a");
    router.register_device("b");

    assert_eq!(router.handle_event(&gain_event("a", 1, 12.5)), vec![OcaAddress::new("b", Ono(5))]);

    // 'b' confirms the value the Router just pushed to it - this must
    // be suppressed rather than bounced back to 'a'.
    assert!(router.handle_event(&gain_event("b", 5, 12.5)).is_empty());
}

#[test]
fn update_mappings_takes_effect_on_a_running_router() {
    let mut router = Router::new(vec![link(("a", 1), ("b", 5), false)]);
    router.register_device("a");
    router.register_device("b");
    router.register_device("c");

    assert_eq!(router.handle_event(&gain_event("a", 1, 1.0)), vec![OcaAddress::new("b", Ono(5))]);

    // Re-point the mapping from b to c entirely, as a config hot-reload would.
    router.update_mappings(vec![link(("a", 1), ("c", 9), false)]);

    assert_eq!(router.handle_event(&gain_event("a", 1, 2.0)), vec![OcaAddress::new("c", Ono(9))]);
    // Nothing flows against a one-way mapping.
    assert!(router.handle_event(&gain_event("c", 9, 3.0)).is_empty());
}

#[test]
fn add_and_remove_mapping_are_single_item_edits() {
    let mut router = Router::new(vec![link(("a", 1), ("b", 1), true)]);

    router.add_mapping(link(("a", 2), ("b", 2), false));
    assert_eq!(router.mappings().len(), 2);

    let removed =
        router.remove_mapping(&OcaAddress::new("a", Ono(1)), &OcaAddress::new("b", Ono(1)));
    assert!(removed);
    let remaining = router.mappings();
    assert_eq!(remaining.len(), 1);
    assert_eq!(remaining[0].from, OcaAddress::new("a", Ono(2)));

    // Removing a pair that was never added, or already removed, is a
    // no-op reported via the return value, not a panic.
    assert!(!router.remove_mapping(&OcaAddress::new("a", Ono(1)), &OcaAddress::new("b", Ono(1))));
}

#[test]
fn deregister_device_stops_propagation_and_calls_disconnect() {
    let mut router = Router::new(vec![link(("a", 1), ("b", 1), false)]);
    router.register_device("a");
    router.register_device("b");

    // The caller disconnects the device that was removed.
    assert!(router.deregister_device("b"), "disconnect() must be called on removal");
    assert!(
        router.handle_event(&gain_event("a", 1, 1.0)).is_empty(),
        "removed device must not receive further events"
    );
    assert!(!router.deregister_device("b"), "removing an already-removed device is a no-op");
}

#[test]
fn re_registering_a_device_id_replaces_the_old_listener() {
    let mut router = Router::new(vec![link(("a", 1), ("b", 1), false)]);
    router.register_device("a");
    router.register_device("b");
    router.register_device("a");

    assert_eq!(router.handle_event(&gain_event("a", 1, 5.0)), vec![OcaAddress::new("b", Ono(1))]);
    // The id stands for one device: one removal removes it.
    assert!(router.deregister_device("a"));
    assert!(!router.deregister_device("a"));
}

/// Two connections to one physical console, linked to each other. The desk reports each write
/// more than once: its reply to the connection that wrote, and the broadcast that every
/// connection hears.
#[test]
fn shared_broadcast_domain_converges_in_one_round_instead_of_amplifying() {
    let a_addr = OcaAddress::new("dm3-a", channel_scheme::gain_ono(11));
    let b_addr = OcaAddress::new("dm3-b", channel_scheme::gain_ono(12));
    let report_copies = 2;
    let emit_cap = 64;

    let mut router = Router::new(vec![Mapping {
        from: a_addr.clone(),
        to: b_addr.clone(),
        bidirectional: true,
    }]);
    router.register_device("dm3-a");
    router.register_device("dm3-b");

    let mut act = |first: &OcaAddress, gain: f32| {
        let mut applied: Vec<(String, f32)> = Vec::new();
        let mut waiting = vec![gain_event_at(first, gain)];
        let mut emissions = 0;
        while !waiting.is_empty() {
            let event = waiting.remove(0);
            for target in router.handle_event(&event) {
                applied.push((target.device_id.clone(), gain));
                for _ in 0..report_copies {
                    if emissions < emit_cap {
                        emissions += 1;
                        waiting.push(gain_event_at(&target, gain));
                    }
                }
            }
        }
        applied
    };

    // User action 1: move ch11 to 22. The Router should pull ch12 to match in one write.
    let applied = act(&a_addr, 22.0);
    assert!(
        applied.iter().any(|(d, v)| d == "dm3-b" && *v == 22.0),
        "ch11->ch12 never propagated: {applied:?}",
    );
    assert!(applied.len() <= 2, "echo storm not contained: {applied:?}");

    // User action 2: move ch12 to 33 - the other direction, and a value neither side holds.
    let applied = act(&b_addr, 33.0);
    assert!(
        applied.iter().any(|(d, v)| d == "dm3-a" && *v == 33.0),
        "ch12->ch11 never propagated - suppression is eating a legitimate change: {applied:?}",
    );
    assert!(applied.len() <= 2, "echo storm not contained: {applied:?}");
}

#[test]
fn a_report_reaches_every_linked_peer_once() {
    let mut router = Router::new(vec![
        link(("a", 1), ("b", 1), false),
        link(("c", 1), ("a", 1), true),
        link(("a", 1), ("b", 1), true),
    ]);
    for id in ["a", "b", "c"] {
        router.register_device(id);
    }
    assert_eq!(
        router.handle_event(&gain_event("a", 1, 4.0)),
        vec![OcaAddress::new("b", Ono(1)), OcaAddress::new("c", Ono(1))]
    );
    // The same report again asks for nothing more.
    assert!(router.handle_event(&gain_event("a", 1, 4.0)).is_empty());
}

#[test]
fn a_device_that_is_not_registered_is_never_set() {
    let mut router = Router::new(vec![link(("a", 1), ("b", 1), false)]);
    router.register_device("a");
    assert!(router.handle_event(&gain_event("a", 1, 4.0)).is_empty());
    // Once it is there, the next report reaches it.
    router.register_device("b");
    assert_eq!(router.handle_event(&gain_event("a", 1, 4.0)), vec![OcaAddress::new("b", Ono(1))]);
}
