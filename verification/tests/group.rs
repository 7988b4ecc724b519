use elfo::actor::{ActorStatus, ActorStatusKind, Severity};
use elfo::addr::Addr;
use elfo::envelope::{Envelope, MessageKind};
use elfo::errors::{RequestError, TryRecvError, TrySendError};
use elfo::group::{Exit, Group};
use elfo::request::Fanout;
use elfo::request_table::RequestPoll;
use elfo::routers::{Fallback, MapRouter, Outcome};

#[derive(Clone, Debug, PartialEq)]
enum Msg {
    AddNum { group: u64, num: u32 },
    Summarize { group_filter: Option<u64> },
    Summary { group: u64, sum: u32 },
}

fn route(envelope: &Envelope<Msg>) -> Outcome {
    match &envelope.message {
        Msg::AddNum { group, .. } => Outcome::Unicast(*group),
        Msg::Summarize { group_filter } => match group_filter {
            Some(group) => Outcome::Unicast(*group),
            None => Outcome::Broadcast,
        },
        _ => Outcome::Default,
    }
}

fn regular(message: Msg) -> Envelope<Msg> {
    Envelope::new(message, MessageKind::Regular { sender: Addr::from_parts(1, 1, 0) }, 0)
}

/// Runs the aggregator for every queued envelope of the child at `addr`.
fn aggregate(aggregators: &mut Group<Msg>, reporters: &mut Group<Msg>, addr: Addr, key: u64, sum: &mut u32) {
    while let Some(Ok(envelope)) = aggregators.try_recv(addr, 0) {
        let (message, token) = envelope.unpack();
        match (message, token) {
            (Msg::AddNum { num, .. }, _) => *sum += num,
            (Msg::Summarize { .. }, Some(token)) => {
                let response = Envelope::new(
                    Msg::Summary { group: key, sum: *sum },
                    MessageKind::Response { sender: addr, correlation_id: token.correlation_id() },
                    0,
                );
                reporters.respond(token, response).unwrap();
            },
            _ => {},
        }
    }
}

#[test]
fn unicast_spawns_once_per_key() {
    let mut group: Group<Msg> = Group::new(2, 10, Fallback::Discard);
    let first = group.ensure(7);
    assert!(first.spawned);
    let addr = first.addr.unwrap();
    assert_eq!(addr, Addr::from_parts(2, 1, 0));
    let second = group.ensure(7);
    assert!(!second.spawned);
    assert_eq!(second.addr, Some(addr));
    assert_eq!(group.slot_count(), 1);
    let other = group.ensure(8);
    assert!(other.spawned);
    assert_eq!(other.addr, Some(Addr::from_parts(2, 1, 1)));
    assert_eq!(group.child(7), Some(addr));
    assert_eq!(group.child(9), None);
    assert_eq!(group.find(8), Some(1));
    assert_eq!(group.find(9), None);
}

#[test]
fn spawned_child_is_initializing_with_the_group_capacity() {
    let mut group: Group<Msg> = Group::new(2, 3, Fallback::Discard);
    let addr = group.ensure(1).addr.unwrap();
    let actor = group.actor(addr).unwrap();
    assert_eq!(actor.addr(), addr);
    assert!(actor.is_initializing());
    assert_eq!(actor.mailbox().capacity(), 3);
    assert!(actor.mailbox().is_empty());
    assert!(group.is_live(addr));
    assert!(!group.is_live(Addr::from_parts(2, 2, 0)));
    assert!(!group.is_live(Addr::from_parts(3, 1, 0)));
    assert!(!group.is_live(Addr::from_parts(2, 1, 1)));
    assert_eq!(group.addr(), Addr::from_parts(2, 0, 0));
    assert_eq!(group.group_no(), 2);
}

#[test]
fn routing_outcomes() {
    let mut group: Group<Msg> = Group::new(1, 10, Fallback::Discard);
    let routed = group.route(&Outcome::Multicast(vec![5, 6, 5]));
    let five = Addr::from_parts(1, 1, 0);
    let six = Addr::from_parts(1, 1, 1);
    assert_eq!(routed.targets, vec![five, six, five]);
    assert_eq!(routed.spawned, vec![five, six]);

    let routed = group.route(&Outcome::Broadcast);
    assert_eq!(routed.targets, vec![five, six]);
    assert!(routed.spawned.is_empty());

    let routed = group.route(&Outcome::Discard);
    assert!(routed.targets.is_empty() && routed.spawned.is_empty());
    let routed = group.route(&Outcome::Default);
    assert!(routed.targets.is_empty() && routed.spawned.is_empty());

    let routed = group.route(&Outcome::Unicast(6));
    assert_eq!(routed.targets, vec![six]);
    assert!(routed.spawned.is_empty());
    assert_eq!(group.slot_count(), 2);
}

#[test]
fn default_follows_the_fallback_of_the_group() {
    let mut group: Group<Msg> = Group::new(1, 10, Fallback::Broadcast);
    assert!(group.route(&Outcome::Default).targets.is_empty());
    let addr = group.ensure(3).addr.unwrap();
    assert_eq!(group.route(&Outcome::Default).targets, vec![addr]);
}

#[test]
fn broadcast_spawns_nobody() {
    let mut group: Group<Msg> = Group::new(1, 10, Fallback::Discard);
    let routed = group.route(&Outcome::Broadcast);
    assert!(routed.targets.is_empty());
    assert_eq!(group.slot_count(), 0);
}

#[test]
fn producer_to_aggregator() {
    let router = MapRouter::new(route);
    let mut aggregators: Group<Msg> = Group::new(2, 100, Fallback::Discard);
    let mut reporters: Group<Msg> = Group::new(3, 100, Fallback::Discard);
    let reporter = reporters.ensure(0).addr.unwrap();

    for num in 1..=10 {
        let envelope = regular(Msg::AddNum { group: 0, num });
        let outcome = router.route(&envelope);
        let sent = aggregators.try_send(&outcome, &envelope.message, envelope.kind, 0);
        assert_eq!(sent.targets.len(), 1);
        assert!(sent.results[0].is_ok());
        assert_eq!(sent.spawned.len(), if num == 1 { 1 } else { 0 });
    }
    let aggregator = aggregators.child(0).unwrap();
    assert_eq!(aggregators.actor(aggregator).unwrap().mailbox().len(), 10);

    let message = Msg::Summarize { group_filter: Some(0) };
    let outcome = router.route(&regular(message.clone()));
    let targets = aggregators.route(&outcome).targets;
    assert_eq!(targets, vec![aggregator]);
    let mut fanout = Fanout::new();
    for target in targets {
        let id = reporters.allocate_request(reporter).unwrap();
        let kind = MessageKind::Request { sender: reporter, correlation_id: id };
        match aggregators.try_send_to(target, Envelope::new(message.clone(), kind, 0)) {
            Ok(()) => fanout.expect(id),
            Err(_) => {
                reporters.cancel_request(reporter, id);
                fanout.fail(RequestError::Closed);
            },
        }
    }
    assert!(reporters.poll_all(reporter, &mut fanout).is_none());

    let mut sum = 0;
    aggregate(&mut aggregators, &mut reporters, aggregator, 0, &mut sum);

    let outcomes = reporters.poll_all(reporter, &mut fanout).unwrap();
    assert_eq!(outcomes.len(), 1);
    assert_eq!(outcomes[0].as_ref().unwrap().message, Msg::Summary { group: 0, sum: 55 });
    assert_eq!(
        aggregators.actor(aggregator).unwrap().status().kind(),
        ActorStatusKind::Normal
    );
}

#[test]
fn broadcast_summarize() {
    let router = MapRouter::new(route);
    let mut aggregators: Group<Msg> = Group::new(2, 100, Fallback::Discard);
    let mut reporters: Group<Msg> = Group::new(3, 100, Fallback::Discard);
    let reporter = reporters.ensure(0).addr.unwrap();
    for (group, num) in [(0, 10), (1, 20), (2, 30)] {
        let envelope = regular(Msg::AddNum { group, num });
        let outcome = router.route(&envelope);
        aggregators.try_send(&outcome, &envelope.message, envelope.kind, 0);
    }

    let message = Msg::Summarize { group_filter: None };
    let outcome = router.route(&regular(message.clone()));
    let targets = aggregators.route(&outcome).targets;
    assert_eq!(targets.len(), 3);
    let mut fanout = Fanout::new();
    for target in &targets {
        let id = reporters.allocate_request(reporter).unwrap();
        let kind = MessageKind::Request { sender: reporter, correlation_id: id };
        aggregators.try_send_to(*target, Envelope::new(message.clone(), kind, 0)).unwrap();
        fanout.expect(id);
    }
    for key in [2u64, 0, 1] {
        let addr = aggregators.child(key).unwrap();
        let mut sum = 0;
        aggregate(&mut aggregators, &mut reporters, addr, key, &mut sum);
    }
    let outcomes = reporters.poll_all(reporter, &mut fanout).unwrap();
    let mut summaries: Vec<(u64, u32)> = outcomes
        .into_iter()
        .map(|outcome| match outcome.unwrap().message {
            Msg::Summary { group, sum } => (group, sum),
            other => panic!("unexpected {:?}", other),
        })
        .collect();
    summaries.sort();
    assert_eq!(summaries, vec![(0, 10), (1, 20), (2, 30)]);
}

#[test]
fn ignored_request() {
    let mut aggregators: Group<Msg> = Group::new(2, 100, Fallback::Discard);
    let mut reporters: Group<Msg> = Group::new(3, 100, Fallback::Discard);
    let reporter = reporters.ensure(0).addr.unwrap();
    let aggregator = aggregators.ensure(0).addr.unwrap();
    let id = reporters.allocate_request(reporter).unwrap();
    let kind = MessageKind::Request { sender: reporter, correlation_id: id };
    let message = Msg::Summarize { group_filter: Some(0) };
    aggregators.try_send_to(aggregator, Envelope::new(message, kind, 0)).unwrap();
    let mut fanout = Fanout::new();
    fanout.expect(id);

    let envelope = aggregators.try_recv(aggregator, 0).unwrap().unwrap();
    let (_, token) = envelope.unpack();
    assert!(reporters.drop_token(token.unwrap()));

    let outcomes = reporters.poll_all(reporter, &mut fanout).unwrap();
    assert_eq!(outcomes.len(), 1);
    assert!(matches!(outcomes[0], Err(RequestError::Ignored)));
}

#[test]
fn respond_to_a_requester_that_is_gone() {
    let mut reporters: Group<Msg> = Group::new(3, 100, Fallback::Discard);
    let reporter = reporters.ensure(0).addr.unwrap();
    let id = reporters.allocate_request(reporter).unwrap();
    let kind = MessageKind::Request { sender: reporter, correlation_id: id };
    let (_, token) = Envelope::new(Msg::Summarize { group_filter: None }, kind, 0).unpack();
    reporters.exit(reporter, false, 0, 0);
    let response = regular(Msg::Summary { group: 0, sum: 0 });
    assert_eq!(reporters.respond(token.unwrap(), response), Err(RequestError::Closed));
    assert!(matches!(reporters.poll_request(reporter, id), RequestPoll::Unknown));
    assert_eq!(reporters.allocate_request(reporter), None);
    assert!(!reporters.cancel_request(reporter, id));
}

#[test]
fn respond_twice() {
    let mut reporters: Group<Msg> = Group::new(3, 100, Fallback::Discard);
    let reporter = reporters.ensure(0).addr.unwrap();
    let id = reporters.allocate_request(reporter).unwrap();
    let kind = MessageKind::Request { sender: reporter, correlation_id: id };
    let (_, first) = Envelope::new(Msg::Summarize { group_filter: None }, kind, 0).unpack();
    let (_, second) = Envelope::new(Msg::Summarize { group_filter: None }, kind, 0).unpack();
    assert_eq!(
        reporters.respond(first.unwrap(), regular(Msg::Summary { group: 0, sum: 1 })),
        Ok(())
    );
    assert_eq!(
        reporters.respond(second.unwrap(), regular(Msg::Summary { group: 0, sum: 2 })),
        Err(RequestError::Ignored)
    );
    match reporters.poll_request(reporter, id) {
        RequestPoll::Ready(Ok(envelope)) => {
            assert_eq!(envelope.message, Msg::Summary { group: 0, sum: 1 })
        },
        other => panic!("expected the first response, got {:?}", other),
    }
}

#[test]
fn restart_after_failure() {
    let mut group: Group<Msg> = Group::new(2, 10, Fallback::Discard);
    let first = group.ensure(4).addr.unwrap();
    group.try_send_to(first, regular(Msg::AddNum { group: 4, num: 1 })).unwrap();

    let restart_at = match group.exit(first, true, 1_000, 10) {
        Exit::Restarting { actor, restart_at } => {
            assert_eq!(actor.status().kind(), ActorStatusKind::Failed);
            assert!(actor.is_closed());
            assert_eq!(actor.mailbox().len(), 1);
            restart_at
        },
        other => panic!("expected a restart, got {:?}", other),
    };
    assert_eq!(restart_at, 1_050);
    assert!(restart_at - 1_000 >= 50 && restart_at - 1_000 < 200);

    assert!(!group.is_live(first));
    assert!(group.actor(first).is_none());
    assert_eq!(group.child(4), None);
    match group.try_send_to(first, regular(Msg::AddNum { group: 4, num: 2 })) {
        Err(TrySendError::Closed(envelope)) => {
            assert_eq!(envelope.message, Msg::AddNum { group: 4, num: 2 })
        },
        other => panic!("expected Closed, got {:?}", other),
    }
    let waiting = group.ensure(4);
    assert!(!waiting.spawned);
    assert_eq!(waiting.addr, None);

    assert_eq!(group.due(1_049), None);
    assert_eq!(group.restart(4, 1_049), None);
    assert_eq!(group.due(1_050), Some(4));
    let second = group.restart(4, 1_050).unwrap();
    assert_eq!(second, Addr::from_parts(2, 2, 0));
    assert_ne!(second, first);
    assert_eq!(second.generation(), first.generation() + 1);
    assert!(group.actor(second).unwrap().is_initializing());
    assert!(group.actor(second).unwrap().mailbox().is_empty());
    assert!(!group.is_live(first));
    assert_eq!(group.child(4), Some(second));
    assert_eq!(group.restart(4, 2_000), None);
    assert_eq!(group.due(2_000), None);
    assert!(matches!(
        group.try_send_to(first, regular(Msg::AddNum { group: 4, num: 3 })),
        Err(TrySendError::Closed(_))
    ));
}

#[test]
fn second_failure_waits_twice_as_long() {
    let mut group: Group<Msg> = Group::new(2, 10, Fallback::Discard);
    let first = group.ensure(4).addr.unwrap();
    group.exit(first, true, 0, 10);
    let second = group.restart(4, 50).unwrap();
    match group.exit(second, true, 60, 20) {
        Exit::Restarting { restart_at, .. } => assert_eq!(restart_at, 160),
        other => panic!("expected a restart, got {:?}", other),
    }
}

#[test]
fn clean_exit_removes_the_child() {
    let mut group: Group<Msg> = Group::new(2, 10, Fallback::Discard);
    let first = group.ensure(4).addr.unwrap();
    match group.exit(first, false, 0, 0) {
        Exit::Removed { actor } => {
            assert_eq!(actor.status().kind(), ActorStatusKind::Terminated);
            assert!(actor.is_closed());
        },
        other => panic!("expected a removal, got {:?}", other),
    }
    assert!(!group.is_live(first));
    assert_eq!(group.due(u64::MAX), None);
    assert_eq!(group.restart(4, u64::MAX), None);
    assert!(matches!(group.exit(first, false, 0, 0), Exit::Unknown));

    let again = group.ensure(4);
    assert!(again.spawned);
    assert_eq!(again.addr, Some(Addr::from_parts(2, 2, 0)));
    assert!(!group.is_live(first));
    assert_eq!(group.slot_count(), 1);
}

#[test]
fn a_free_slot_is_used_again_with_a_new_generation() {
    let mut group: Group<Msg> = Group::new(1, 10, Fallback::Discard);
    let a = group.ensure(1).addr.unwrap();
    let b = group.ensure(2).addr.unwrap();
    group.exit(a, false, 0, 0);
    let c = group.ensure(3).addr.unwrap();
    assert_eq!(c, Addr::from_parts(1, 2, 0));
    assert!(group.is_live(b));
    assert!(!group.is_live(a));
    assert_eq!(group.route(&Outcome::Broadcast).targets, vec![c, b]);
}

#[test]
fn status_through_the_group() {
    let mut group: Group<Msg> = Group::new(1, 10, Fallback::Discard);
    let addr = group.ensure(1).addr.unwrap();
    assert_eq!(group.set_status(addr, ActorStatus::failed(), 0), None);
    assert_eq!(group.set_status(addr, ActorStatus::terminated(), 0), None);
    assert!(group.is_live(addr));
    assert_eq!(group.set_status(addr, ActorStatus::normal(), 0), Some(Severity::Info));
    assert_eq!(
        group.set_status(addr, ActorStatus::alarming().with_details("hot"), 0),
        Some(Severity::Error)
    );
    assert_eq!(group.actor(addr).unwrap().status().details(), Some("hot"));
    assert_eq!(group.set_status(Addr::from_parts(1, 9, 0), ActorStatus::normal(), 0), None);
    assert!(matches!(group.try_recv(addr, 0), Some(Err(TryRecvError::Empty))));
    assert!(group.try_recv(Addr::from_parts(1, 9, 0), 0).is_none());
}

#[test]
fn a_stable_child_restarts_quickly_again() {
    let mut group: Group<Msg> = Group::new(2, 10, Fallback::Discard);
    let first = group.ensure(4).addr.unwrap();
    group.exit(first, true, 0, 10);
    let second = group.restart(4, 50).unwrap();
    group.try_send_to(second, regular(Msg::AddNum { group: 4, num: 1 })).unwrap();
    assert!(group.try_recv(second, 100).unwrap().is_ok());
    match group.exit(second, true, 30_100, 10) {
        Exit::Restarting { restart_at, .. } => assert_eq!(restart_at, 30_150),
        other => panic!("expected a restart, got {:?}", other),
    }
}

#[test]
fn close_all_keeps_the_children_alive_to_drain() {
    let mut group: Group<Msg> = Group::new(1, 10, Fallback::Discard);
    let a = group.ensure(1).addr.unwrap();
    let b = group.ensure(2).addr.unwrap();
    group.try_send_to(a, regular(Msg::AddNum { group: 1, num: 1 })).unwrap();
    group.close_all();
    assert!(group.is_live(a) && group.is_live(b));
    assert!(matches!(
        group.try_send_to(a, regular(Msg::AddNum { group: 1, num: 2 })),
        Err(TrySendError::Closed(_))
    ));
    assert!(matches!(group.try_recv(a, 0), Some(Ok(_))));
    assert!(matches!(group.try_recv(a, 0), Some(Err(TryRecvError::Closed))));
    assert!(matches!(group.try_recv(b, 0), Some(Err(TryRecvError::Closed))));
}

#[test]
fn full_mailbox_of_a_child() {
    let mut group: Group<Msg> = Group::new(1, 1, Fallback::Discard);
    let envelope = regular(Msg::AddNum { group: 1, num: 1 });
    let sent = group.try_send(&Outcome::Multicast(vec![1, 1, 2]), &envelope.message, envelope.kind, 5);
    assert_eq!(sent.targets.len(), 3);
    assert!(sent.results[0].is_ok());
    assert!(matches!(sent.results[1], Err(TrySendError::Full(_))));
    assert!(sent.results[2].is_ok());
    let received = group.try_recv(sent.targets[0], 5).unwrap().unwrap();
    assert_eq!(received.message, Msg::AddNum { group: 1, num: 1 });
    assert_eq!(received.created_at, 5);
    assert_eq!(received.kind, envelope.kind);
}
