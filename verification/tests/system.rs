use elfo::addr::Addr;
use elfo::envelope::{Envelope, MessageKind};
use elfo::errors::{RequestError, RouterError, TryRecvError, TrySendError};
use elfo::routers::Outcome;
use elfo::system::System;
use elfo::topology::Topology;

fn system() -> (System<u32>, Addr, Addr, Addr) {
    let mut topology = Topology::empty();
    let producers = topology.local("producers").unwrap();
    let aggregators = topology.local("aggregators").unwrap();
    let reporters = topology.local("reporters").unwrap();
    producers.route_all_to(&aggregators, &mut topology);
    reporters.route_all_to(&aggregators, &mut topology);
    (System::new(topology, 2), producers.addr(), aggregators.addr(), reporters.addr())
}

#[test]
fn messages_follow_the_routes() {
    let (system, producers, aggregators, reporters) = system();
    assert_eq!(system.destinations(producers), Ok(vec![aggregators]));
    assert_eq!(system.destinations(reporters), Ok(vec![aggregators]));
    assert_eq!(system.destinations(Addr::from_parts(1, 3, 9)), Ok(vec![aggregators]));
    assert_eq!(system.topology().connections().len(), 2);
}

#[test]
fn a_group_without_routes_has_no_destinations() {
    let (system, _, aggregators, _) = system();
    assert_eq!(system.destinations(aggregators), Err(RouterError::NoDestinations));
    assert_eq!(system.destinations(Addr::null()), Err(RouterError::NoDestinations));
    assert_eq!(system.destinations(Addr::from_parts(9, 0, 0)), Err(RouterError::NoDestinations));
}

#[test]
fn routed_send_spawns_and_delivers() {
    let (mut system, producers, aggregators, _) = system();
    let kind = MessageKind::Regular { sender: producers };
    let sent = system.try_send(aggregators, &Outcome::Unicast(7), &41, kind, 3).unwrap();
    let child = Addr::from_parts(2, 1, 0);
    assert_eq!(sent.targets, vec![child]);
    assert_eq!(sent.spawned, vec![child]);
    assert!(sent.results[0].is_ok());
    assert!(system.is_live(child));
    assert_eq!(system.group(aggregators).unwrap().child(7), Some(child));
    let envelope = system.try_recv(child, 4).unwrap().unwrap();
    assert_eq!(envelope.message, 41);
    assert_eq!(envelope.kind, kind);
    assert_eq!(envelope.created_at, 3);
    assert!(matches!(system.try_recv(child, 4), Some(Err(TryRecvError::Empty))));
}

#[test]
fn sending_outside_every_group() {
    let (mut system, producers, _, _) = system();
    let nowhere = Addr::from_parts(9, 1, 0);
    let kind = MessageKind::Regular { sender: producers };
    assert!(system.try_send(nowhere, &Outcome::Unicast(7), &1, kind, 0).is_none());
    assert!(system.group(nowhere).is_none());
    assert!(!system.is_live(nowhere));
    assert!(system.try_recv(nowhere, 0).is_none());
    match system.try_send_to(nowhere, Envelope::new(5, kind, 0)) {
        Err(TrySendError::Closed(envelope)) => assert_eq!(envelope.message, 5),
        other => panic!("expected Closed, got {:?}", other),
    }
    assert!(matches!(
        system.try_send_to(Addr::null(), Envelope::new(5, kind, 0)),
        Err(TrySendError::Closed(_))
    ));
}

#[test]
fn request_across_groups() {
    let (mut system, producers, aggregators, reporters) = system();
    let regular = MessageKind::Regular { sender: producers };
    system.try_send(aggregators, &Outcome::Multicast(vec![0, 1]), &0, regular, 0).unwrap();
    let reporter = system.try_send(reporters, &Outcome::Unicast(0), &0, regular, 0).unwrap().targets[0];
    let zero = Addr::from_parts(2, 1, 0);
    let one = Addr::from_parts(2, 1, 1);
    let gone = Addr::from_parts(2, 1, 2);

    let mut fanout = system.request(reporter, &vec![zero, gone, one], &100, 5);
    assert_eq!(fanout.expected(), 3);
    assert!(system.poll_all(reporter, &mut fanout).is_none());

    for (addr, sum) in [(one, 11), (zero, 10)] {
        system.try_recv(addr, 6).unwrap().unwrap();
        let envelope = system.try_recv(addr, 6).unwrap().unwrap();
        assert_eq!(envelope.message, 100);
        assert_eq!(envelope.sender(), reporter);
        let (_, token) = envelope.unpack();
        let token = token.unwrap();
        let kind = MessageKind::Response { sender: addr, correlation_id: token.correlation_id() };
        assert_eq!(system.respond(token, Envelope::new(sum, kind, 7)), Ok(()));
    }
    let outcomes = system.poll_all(reporter, &mut fanout).unwrap();
    assert_eq!(outcomes.len(), 3);
    assert!(matches!(outcomes[0], Err(RequestError::Closed)));
    assert_eq!(outcomes[1].as_ref().unwrap().message, 10);
    assert_eq!(outcomes[2].as_ref().unwrap().message, 11);
}

#[test]
fn request_of_nobody_fails_for_every_target() {
    let (mut system, _, _, _) = system();
    let nobody = Addr::from_parts(3, 1, 0);
    let mut fanout = system.request(nobody, &vec![Addr::from_parts(2, 1, 0)], &1, 0);
    assert_eq!(fanout.expected(), 1);
    assert!(fanout.is_complete());
    let outcomes = system.poll_all(nobody, &mut fanout).unwrap();
    assert_eq!(outcomes.len(), 1);
    assert!(matches!(outcomes[0], Err(RequestError::Closed)));
    assert_eq!(system.allocate_request(nobody), None);
    assert!(!system.cancel_request(nobody, 0));
}

#[test]
fn a_full_mailbox_refuses_a_request() {
    let (mut system, producers, aggregators, reporters) = system();
    let regular = MessageKind::Regular { sender: producers };
    let reporter = system.try_send(reporters, &Outcome::Unicast(0), &0, regular, 0).unwrap().targets[0];
    let sent = system.try_send(aggregators, &Outcome::Multicast(vec![0, 0, 0]), &0, regular, 0).unwrap();
    assert!(matches!(sent.results[2], Err(TrySendError::Full(_))));
    let fanout = system.request(reporter, &vec![sent.targets[0]], &1, 0);
    assert!(fanout.is_complete());
    assert_eq!(system.group(reporters).unwrap().actor(reporter).unwrap().request_table().len(), 0);
}

#[test]
fn shutdown_closes_every_mailbox() {
    let (mut system, producers, aggregators, _) = system();
    let regular = MessageKind::Regular { sender: producers };
    let child = system.try_send(aggregators, &Outcome::Unicast(1), &5, regular, 0).unwrap().targets[0];
    system.close_all();
    assert!(system.is_live(child));
    assert!(matches!(
        system.try_send_to(child, Envelope::new(6, regular, 0)),
        Err(TrySendError::Closed(_))
    ));
    assert_eq!(system.try_recv(child, 0).unwrap().unwrap().message, 5);
    assert!(matches!(system.try_recv(child, 0), Some(Err(TryRecvError::Closed))));
    assert_eq!(system.group(aggregators).unwrap().key_of(child), Some(1));
    assert_eq!(system.group(aggregators).unwrap().key_of(Addr::from_parts(2, 5, 0)), None);
}

#[test]
fn a_requester_that_is_gone_gets_one_outcome_per_destination() {
    let (mut system, producers, aggregators, reporters) = system();
    let regular = MessageKind::Regular { sender: producers };
    let reporter = system.ensure(reporters, 0).addr.unwrap();
    let targets = system.try_send(aggregators, &Outcome::Multicast(vec![0, 1]), &0, regular, 0).unwrap().targets;
    let mut fanout = system.request(reporter, &targets, &7, 1);
    assert!(system.poll_all(reporter, &mut fanout).is_none());
    system.exit(reporter, false, 2, 0);
    let outcomes = system.poll_all(reporter, &mut fanout).unwrap();
    assert_eq!(outcomes.len(), 2);
    assert!(matches!(outcomes[0], Err(RequestError::Closed)));
    assert!(matches!(outcomes[1], Err(RequestError::Closed)));
}

#[test]
fn request_registers_one_slot_and_sends_one_envelope_per_target() {
    let (mut system, producers, aggregators, reporters) = system();
    let regular = MessageKind::Regular { sender: producers };
    let reporter = system.ensure(reporters, 0).addr.unwrap();
    let targets = system.try_send(aggregators, &Outcome::Multicast(vec![0, 1]), &0, regular, 0).unwrap().targets;
    for target in &targets {
        system.try_recv(*target, 0).unwrap().unwrap();
    }
    let fanout = system.request(reporter, &targets, &7, 9);
    assert_eq!(fanout.expected(), 2);
    assert!(!fanout.is_complete());
    assert_eq!(system.group(reporters).unwrap().actor(reporter).unwrap().request_table().len(), 2);
    for (id, target) in targets.iter().enumerate() {
        let envelope = system.try_recv(*target, 9).unwrap().unwrap();
        assert_eq!(envelope.message, 7);
        assert_eq!(envelope.created_at, 9);
        assert_eq!(
            envelope.kind,
            MessageKind::Request { sender: reporter, correlation_id: id as u64 }
        );
    }
}

#[test]
fn supervision_through_the_system() {
    let (mut system, _, aggregators, _) = system();
    let first = system.ensure(aggregators, 3).addr.unwrap();
    assert!(!system.ensure(aggregators, 3).spawned);
    assert_eq!(
        system.set_status(first, elfo::actor::ActorStatus::normal(), 0),
        Some(elfo::actor::Severity::Info)
    );
    match system.exit(first, true, 100, 10) {
        elfo::group::Exit::Restarting { restart_at, .. } => assert_eq!(restart_at, 150),
        other => panic!("expected a restart, got {:?}", other),
    }
    assert!(!system.is_live(first));
    assert_eq!(system.restart(aggregators, 3, 149), None);
    let second = system.restart(aggregators, 3, 150).unwrap();
    assert_ne!(second, first);
    assert!(system.is_live(second));
    assert!(system.ensure(Addr::from_parts(9, 0, 0), 1).addr.is_none());
}
