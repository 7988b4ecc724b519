use elfo::actor::Actor;
use elfo::addr::Addr;
use elfo::context::Attached;
use elfo::envelope::{Envelope, MessageKind};
use elfo::mailbox::RecvPoll;
use elfo::source::{Source, SourcePoll};
use elfo::time::timer::Timer;

/// A source that yields its name a given number of times and then finishes.
struct Countdown {
    name: &'static str,
    left: u32,
}

impl Source<&'static str> for Countdown {
    fn poll_recv(&mut self, now: u64) -> SourcePoll<&'static str> {
        if self.left == 0 {
            SourcePoll::Finished
        } else {
            self.left -= 1;
            let kind = MessageKind::Regular { sender: Addr::null() };
            SourcePoll::Ready(Envelope::new(self.name, kind, now))
        }
    }
}

fn note(text: &'static str) -> Envelope<&'static str> {
    Envelope::new(text, MessageKind::Regular { sender: Addr::from_parts(1, 1, 1) }, 0)
}

fn message(poll: RecvPoll<&'static str>) -> &'static str {
    match poll {
        RecvPoll::Ready(envelope) => envelope.message,
        other => panic!("expected an envelope, got {:?}", other),
    }
}

#[test]
fn without_sources_the_mailbox_is_asked() {
    let mut actor = Actor::new(Addr::from_parts(1, 1, 0));
    let mut attached: Attached<Countdown> = Attached::new();
    let received = attached.poll_recv(&mut actor, 0);
    assert!(matches!(received.poll, RecvPoll::Pending));
    assert_eq!(received.source, None);
    actor.try_send(note("mail")).unwrap();
    let received = attached.poll_recv(&mut actor, 0);
    assert_eq!(received.source, None);
    assert_eq!(message(received.poll), "mail");
    actor.close();
    assert!(matches!(attached.poll_recv(&mut actor, 0).poll, RecvPoll::Finished));
}

#[test]
fn a_ready_source_goes_before_the_mailbox() {
    let mut actor = Actor::new(Addr::from_parts(1, 1, 0));
    actor.try_send(note("mail")).unwrap();
    let mut attached = Attached::new();
    attached.attach(Countdown { name: "source", left: 1 });
    let received = attached.poll_recv(&mut actor, 3);
    assert_eq!(received.source, Some(0));
    assert_eq!(message(received.poll), "source");
    assert_eq!(actor.mailbox().len(), 1);
    assert!(actor.is_initializing());
    let received = attached.poll_recv(&mut actor, 3);
    assert_eq!(received.source, None);
    assert_eq!(message(received.poll), "mail");
    assert_eq!(attached.len(), 0);
}

#[test]
fn ready_sources_take_turns() {
    let mut actor: Actor<&'static str> = Actor::new(Addr::from_parts(1, 1, 0));
    let mut attached = Attached::new();
    attached.attach(Countdown { name: "a", left: 3 });
    attached.attach(Countdown { name: "b", left: 3 });
    attached.attach(Countdown { name: "c", left: 3 });
    let mut seen = Vec::new();
    for _ in 0..9 {
        seen.push(message(attached.poll_recv(&mut actor, 0).poll));
    }
    assert_eq!(seen, vec!["a", "b", "c", "a", "b", "c", "a", "b", "c"]);
    assert_eq!(attached.len(), 3);
    assert!(matches!(attached.poll_recv(&mut actor, 0).poll, RecvPoll::Pending));
    assert_eq!(attached.len(), 0);
}

#[test]
fn a_finished_source_is_detached() {
    let mut actor: Actor<&'static str> = Actor::new(Addr::from_parts(1, 1, 0));
    let mut attached = Attached::new();
    attached.attach(Countdown { name: "short", left: 0 });
    attached.attach(Countdown { name: "long", left: 2 });
    let received = attached.poll_recv(&mut actor, 0);
    assert_eq!(received.source, Some(1));
    assert_eq!(message(received.poll), "long");
    assert_eq!(attached.len(), 1);
    assert_eq!(message(attached.poll_recv(&mut actor, 0).poll), "long");
}

#[test]
fn a_timer_is_a_source() {
    let mut actor: Actor<&'static str> = Actor::new(Addr::from_parts(1, 1, 0));
    let mut timer = Timer::new(|| "tick");
    timer.reset(10);
    let mut attached = Attached::new();
    attached.attach(timer);
    assert!(matches!(attached.poll_recv(&mut actor, 9).poll, RecvPoll::Pending));
    assert_eq!(message(attached.poll_recv(&mut actor, 10).poll), "tick");
    assert!(matches!(attached.poll_recv(&mut actor, 11).poll, RecvPoll::Pending));
    assert_eq!(attached.len(), 1);
}

#[test]
fn sources_behind_the_one_that_delivered_are_not_asked() {
    let mut actor: Actor<&'static str> = Actor::new(Addr::from_parts(1, 1, 0));
    let mut attached = Attached::new();
    attached.attach(Countdown { name: "a", left: 1 });
    attached.attach(Countdown { name: "b", left: 0 });
    let received = attached.poll_recv(&mut actor, 0);
    assert_eq!(received.source, Some(0));
    assert_eq!(attached.len(), 2);
    let received = attached.poll_recv(&mut actor, 0);
    assert_eq!(received.source, None);
    assert!(matches!(received.poll, RecvPoll::Pending));
    assert_eq!(attached.len(), 0);
}
