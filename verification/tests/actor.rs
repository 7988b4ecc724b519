use elfo::actor::ActorStatusKind::{Alarming, Failed, Initializing, Normal, Terminated};
use elfo::actor::{Actor, ActorStatus, ActorStatusKind, Severity};
use elfo::addr::Addr;
use elfo::envelope::{Envelope, MessageKind};
use elfo::errors::{RequestError, TryRecvError, TrySendError};
use elfo::request_table::RequestPoll;

fn here() -> Addr {
    Addr::from_parts(1, 1, 0)
}

fn note(text: &'static str) -> Envelope<&'static str> {
    Envelope::new(text, MessageKind::Regular { sender: Addr::null() }, 0)
}

#[test]
fn with_details_keeps_the_kind_and_sets_the_details() {
    let status = ActorStatus::alarming().with_details("disk is full");
    assert_eq!(status.kind(), ActorStatusKind::Alarming);
    assert_eq!(status.details(), Some("disk is full"));
    let again = status.with_details("disk is fuller");
    assert_eq!(again.kind(), ActorStatusKind::Alarming);
    assert_eq!(again.details(), Some("disk is fuller"));
}

#[test]
fn status_without_details() {
    let status = ActorStatus::new(ActorStatusKind::Normal);
    assert_eq!(status.kind(), ActorStatusKind::Normal);
    assert_eq!(status.details(), None);
    assert!(!status.is_failed());
    assert!(ActorStatus::failed().is_failed());
}

#[test]
fn status_text() {
    assert_eq!(ActorStatus::normal().to_text(), "Normal");
    assert_eq!(ActorStatus::initializing().to_text(), "Initializing");
    assert_eq!(ActorStatus::terminated().to_text(), "Terminated");
    assert_eq!(ActorStatus::failed().with_details("boom").to_text(), "Failed: boom");
    assert_eq!(ActorStatus::alarming().with_details("").to_text(), "Alarming: ");
}

#[test]
fn transition_table() {
    let all = [Normal, Initializing, Alarming, Failed, Terminated];
    for from in all {
        for to in all {
            let expected = from == to
                || matches!(
                    (from, to),
                    (Initializing, Normal)
                        | (Normal, Alarming)
                        | (Alarming, Normal)
                        | (Normal, Failed)
                        | (Normal, Terminated)
                        | (Initializing, Failed)
                        | (Initializing, Terminated)
                        | (Alarming, Failed)
                        | (Alarming, Terminated)
                );
            assert_eq!(from.allows(to), expected, "{:?} -> {:?}", from, to);
        }
    }
}

#[test]
fn severities() {
    assert_eq!(ActorStatusKind::Normal.severity(), Severity::Info);
    assert_eq!(ActorStatusKind::Initializing.severity(), Severity::Info);
    assert_eq!(ActorStatusKind::Terminated.severity(), Severity::Info);
    assert_eq!(ActorStatusKind::Alarming.severity(), Severity::Error);
    assert_eq!(ActorStatusKind::Failed.severity(), Severity::Error);
}

#[test]
fn new_actor_is_initializing() {
    let actor: Actor<&'static str> = Actor::new(here());
    assert_eq!(actor.addr(), here());
    assert!(actor.is_initializing());
    assert!(!actor.is_closed());
    assert_eq!(actor.mailbox().capacity(), 100);
    assert_eq!(actor.request_table().len(), 0);
}

#[test]
fn first_received_envelope_makes_the_actor_normal() {
    let mut actor = Actor::new(here());
    assert!(matches!(actor.try_recv(), Err(TryRecvError::Empty)));
    assert!(actor.is_initializing());
    actor.try_send(note("hello")).unwrap();
    assert_eq!(actor.try_recv().unwrap().message, "hello");
    assert_eq!(actor.status().kind(), ActorStatusKind::Normal);
}

#[test]
fn alarming_and_back() {
    let mut actor = Actor::new(here());
    assert_eq!(actor.set_status(ActorStatus::alarming().with_details("early")), None);
    assert!(actor.is_initializing());
    actor.try_send(note("x")).unwrap();
    actor.try_recv().unwrap();
    assert_eq!(
        actor.set_status(ActorStatus::alarming().with_details("hot")),
        Some(Severity::Error)
    );
    assert_eq!(actor.status().kind(), ActorStatusKind::Alarming);
    assert_eq!(actor.status().details(), Some("hot"));
    assert_eq!(actor.set_status(ActorStatus::normal()), Some(Severity::Info));
    assert_eq!(actor.status().kind(), ActorStatusKind::Normal);
    assert_eq!(actor.status().details(), None);
}

#[test]
fn setting_the_same_status_twice_is_setting_it_once() {
    let mut once = Actor::<&'static str>::with_capacity(here(), 4);
    let mut twice = Actor::<&'static str>::with_capacity(here(), 4);
    let status = ActorStatus::initializing().with_details("loading");
    once.set_status(status.clone());
    twice.set_status(status.clone());
    assert_eq!(twice.set_status(status), Some(Severity::Info));
    assert_eq!(once.status().kind(), twice.status().kind());
    assert_eq!(once.status().details(), twice.status().details());
    assert_eq!(once.is_closed(), twice.is_closed());
}

#[test]
fn details_replace() {
    let mut actor = Actor::<&'static str>::new(here());
    actor.set_status(ActorStatus::initializing().with_details("first"));
    actor.set_status(ActorStatus::initializing().with_details("second"));
    assert_eq!(actor.status().details(), Some("second"));
    actor.set_status(ActorStatus::initializing());
    assert_eq!(actor.status().details(), None);
}

#[test]
fn failed_is_absorbing_and_closes_the_mailbox() {
    let mut actor = Actor::new(here());
    actor.try_send(note("queued")).unwrap();
    assert_eq!(actor.set_status(ActorStatus::failed()), Some(Severity::Error));
    assert!(actor.is_closed());
    assert!(actor.mailbox().is_closed());
    for status in [
        ActorStatus::normal(),
        ActorStatus::initializing(),
        ActorStatus::alarming(),
        ActorStatus::terminated(),
    ] {
        assert_eq!(actor.set_status(status), None);
        assert_eq!(actor.status().kind(), ActorStatusKind::Failed);
    }
    match actor.try_send(note("late")) {
        Err(TrySendError::Closed(envelope)) => assert_eq!(envelope.message, "late"),
        other => panic!("expected Closed, got {:?}", other),
    }
    assert_eq!(actor.try_recv().unwrap().message, "queued");
    assert_eq!(actor.status().kind(), ActorStatusKind::Failed);
    assert!(matches!(actor.try_recv(), Err(TryRecvError::Closed)));
}

#[test]
fn terminated_is_absorbing() {
    let mut actor = Actor::<&'static str>::new(here());
    assert_eq!(actor.set_status(ActorStatus::terminated()), Some(Severity::Info));
    assert_eq!(actor.set_status(ActorStatus::failed()), None);
    assert_eq!(actor.set_status(ActorStatus::normal()), None);
    assert_eq!(actor.status().kind(), ActorStatusKind::Terminated);
    assert!(actor.is_closed());
}

#[test]
fn closing_keeps_the_status() {
    let mut actor = Actor::<&'static str>::new(here());
    assert!(actor.close());
    assert!(!actor.close());
    assert!(!actor.is_closed());
    assert!(actor.refuses_sends());
    assert!(actor.mailbox().is_closed());
    assert!(actor.is_initializing());
    assert!(matches!(actor.try_send(note("late")), Err(TrySendError::Closed(_))));
}

#[test]
fn only_failed_and_terminated_are_closed() {
    let mut actor = Actor::new(here());
    assert!(!actor.is_closed());
    actor.try_send(note("x")).unwrap();
    actor.try_recv().unwrap();
    assert!(!actor.is_closed());
    actor.set_status(ActorStatus::alarming());
    assert!(!actor.is_closed());
    assert!(!actor.refuses_sends());
    assert!(actor.try_send(note("y")).is_ok());
    actor.set_status(ActorStatus::terminated());
    assert!(actor.is_closed());
    assert!(actor.refuses_sends());
    let mut failed = Actor::<&'static str>::new(here());
    failed.set_status(ActorStatus::failed());
    assert!(failed.is_closed());
}

#[test]
fn request_of_a_closed_actor_ends_closed() {
    let mut actor = Actor::<&'static str>::new(here());
    let id = actor.allocate_request().unwrap();
    assert!(matches!(actor.poll_request(id), RequestPoll::Pending));
    actor.close();
    assert!(matches!(actor.poll_request(id), RequestPoll::Ready(Err(RequestError::Closed))));
    assert!(matches!(actor.poll_request(id), RequestPoll::Unknown));
}

#[test]
fn actor_requests_settle_once() {
    let mut actor = Actor::new(here());
    let id = actor.allocate_request().unwrap();
    assert_eq!(id, 0);
    assert_eq!(actor.fulfill(id, note("answer")), Ok(()));
    assert_eq!(actor.fulfill(id, note("again")), Err(RequestError::Ignored));
    assert!(!actor.drop_token(id));
    match actor.poll_request(id) {
        RequestPoll::Ready(Ok(envelope)) => assert_eq!(envelope.message, "answer"),
        other => panic!("expected the answer, got {:?}", other),
    }
    assert!(!actor.cancel_request(id));
}
