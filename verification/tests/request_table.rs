use elfo::addr::Addr;
use elfo::envelope::{Envelope, MessageKind};
use elfo::errors::RequestError;
use elfo::request::Fanout;
use elfo::request_table::{RequestPoll, RequestTable};

fn owner() -> Addr {
    Addr::from_parts(2, 1, 5)
}

fn response(id: u64, text: &'static str) -> Envelope<&'static str> {
    Envelope::new(text, MessageKind::Response { sender: Addr::from_parts(3, 1, 0), correlation_id: id }, 0)
}

#[test]
fn identifiers_count_up_from_zero() {
    let mut table: RequestTable<&'static str> = RequestTable::new(owner());
    assert_eq!(table.owner(), owner());
    assert_eq!(table.allocate(), Some(0));
    assert_eq!(table.allocate(), Some(1));
    assert_eq!(table.allocate(), Some(2));
    assert_eq!(table.len(), 3);
}

#[test]
fn request_kind_names_owner_and_slot() {
    let table: RequestTable<&'static str> = RequestTable::new(owner());
    assert_eq!(
        table.request_kind(9),
        MessageKind::Request { sender: owner(), correlation_id: 9 }
    );
}

#[test]
fn open_slot_is_pending() {
    let mut table: RequestTable<&'static str> = RequestTable::new(owner());
    let id = table.allocate().unwrap();
    assert!(matches!(table.poll(id, false), RequestPoll::Pending));
    assert_eq!(table.len(), 1);
}

#[test]
fn fulfilled_slot_yields_the_response_once() {
    let mut table = RequestTable::new(owner());
    let id = table.allocate().unwrap();
    assert_eq!(table.fulfill(id, response(id, "summary")), Ok(()));
    match table.poll(id, false) {
        RequestPoll::Ready(Ok(envelope)) => assert_eq!(envelope.message, "summary"),
        other => panic!("expected the response, got {:?}", other),
    }
    assert!(matches!(table.poll(id, false), RequestPoll::Unknown));
    assert_eq!(table.len(), 0);
}

#[test]
fn second_response_is_ignored() {
    let mut table = RequestTable::new(owner());
    let id = table.allocate().unwrap();
    assert_eq!(table.fulfill(id, response(id, "first")), Ok(()));
    assert_eq!(table.fulfill(id, response(id, "second")), Err(RequestError::Ignored));
    match table.poll(id, false) {
        RequestPoll::Ready(Ok(envelope)) => assert_eq!(envelope.message, "first"),
        other => panic!("expected the first response, got {:?}", other),
    }
}

#[test]
fn dropped_token_yields_ignored() {
    let mut table: RequestTable<&'static str> = RequestTable::new(owner());
    let id = table.allocate().unwrap();
    assert!(table.drop_token(id));
    assert!(!table.drop_token(id));
    assert_eq!(table.fulfill(id, response(id, "late")), Err(RequestError::Ignored));
    assert!(matches!(table.poll(id, false), RequestPoll::Ready(Err(RequestError::Ignored))));
}

#[test]
fn response_after_drop_does_not_replace_ignored() {
    let mut table = RequestTable::new(owner());
    let id = table.allocate().unwrap();
    table.fulfill(id, response(id, "kept")).unwrap();
    assert!(!table.drop_token(id));
    assert!(matches!(table.poll(id, false), RequestPoll::Ready(Ok(_))));
}

#[test]
fn cancelled_request_is_gone() {
    let mut table = RequestTable::new(owner());
    let id = table.allocate().unwrap();
    assert!(table.cancel(id));
    assert!(!table.cancel(id));
    assert_eq!(table.fulfill(id, response(id, "late")), Err(RequestError::Ignored));
    assert!(matches!(table.poll(id, false), RequestPoll::Unknown));
}

#[test]
fn unknown_slot() {
    let mut table: RequestTable<&'static str> = RequestTable::new(owner());
    assert!(matches!(table.poll(77, false), RequestPoll::Unknown));
    assert!(!table.drop_token(77));
    assert_eq!(table.fulfill(77, response(77, "x")), Err(RequestError::Ignored));
}

#[test]
fn closed_requester_ends_open_requests() {
    let mut table: RequestTable<&'static str> = RequestTable::new(owner());
    let id = table.allocate().unwrap();
    assert!(matches!(table.poll(id, true), RequestPoll::Ready(Err(RequestError::Closed))));
    assert_eq!(table.len(), 0);
}

#[test]
fn all_yields_one_outcome_per_destination() {
    let mut table = RequestTable::new(owner());
    let mut fanout = Fanout::new();
    let a = table.allocate().unwrap();
    let b = table.allocate().unwrap();
    let c = table.allocate().unwrap();
    fanout.expect(a);
    fanout.expect(b);
    fanout.fail(RequestError::Closed);
    fanout.expect(c);
    assert_eq!(fanout.expected(), 4);
    assert!(!fanout.is_complete());

    table.fulfill(b, response(b, "from b")).unwrap();
    assert!(fanout.poll_all(&mut table, false).is_none());
    table.drop_token(c);
    assert!(fanout.poll_all(&mut table, false).is_none());
    table.fulfill(a, response(a, "from a")).unwrap();
    let outcomes = fanout.poll_all(&mut table, false).expect("all destinations resolved");

    assert_eq!(outcomes.len(), 4);
    assert!(matches!(outcomes[0], Err(RequestError::Closed)));
    assert_eq!(outcomes[1].as_ref().unwrap().message, "from b");
    assert!(matches!(outcomes[2], Err(RequestError::Ignored)));
    assert_eq!(outcomes[3].as_ref().unwrap().message, "from a");
    assert_eq!(table.len(), 0);
    assert_eq!(fanout.expected(), 0);
}

#[test]
fn all_with_a_dropped_token_yields_ignored() {
    let mut table: RequestTable<&'static str> = RequestTable::new(owner());
    let mut fanout = Fanout::new();
    let id = table.allocate().unwrap();
    fanout.expect(id);
    assert!(table.drop_token(id));
    let outcomes = fanout.poll_all(&mut table, false).unwrap();
    assert_eq!(outcomes.len(), 1);
    assert!(matches!(outcomes[0], Err(RequestError::Ignored)));
}

#[test]
fn all_without_destinations_is_empty() {
    let mut table: RequestTable<&'static str> = RequestTable::new(owner());
    let mut fanout: Fanout<&'static str> = Fanout::new();
    assert!(fanout.is_complete());
    assert_eq!(fanout.poll_all(&mut table, false).unwrap().len(), 0);
}

#[test]
fn all_ends_when_the_requester_closes() {
    let mut table: RequestTable<&'static str> = RequestTable::new(owner());
    let mut fanout = Fanout::new();
    let a = table.allocate().unwrap();
    let b = table.allocate().unwrap();
    fanout.expect(a);
    fanout.expect(b);
    table.fulfill(b, response(b, "in time")).unwrap();
    let outcomes = fanout.poll_all(&mut table, true).unwrap();
    assert_eq!(outcomes.len(), 2);
    assert!(matches!(outcomes[0], Err(RequestError::Closed)));
    assert_eq!(outcomes[1].as_ref().unwrap().message, "in time");
}

#[test]
fn any_yields_the_first_response_and_gives_up_the_rest() {
    let mut table = RequestTable::new(owner());
    let mut fanout = Fanout::new();
    let a = table.allocate().unwrap();
    let b = table.allocate().unwrap();
    let c = table.allocate().unwrap();
    fanout.expect(a);
    fanout.expect(b);
    fanout.expect(c);
    table.drop_token(a);
    assert!(fanout.poll_any(&mut table, false).is_none());
    table.fulfill(c, response(c, "winner")).unwrap();
    match fanout.poll_any(&mut table, false) {
        Some(Ok(envelope)) => assert_eq!(envelope.message, "winner"),
        other => panic!("expected the winner, got {:?}", other),
    }
    assert_eq!(table.len(), 0);
    assert_eq!(table.fulfill(b, response(b, "late")), Err(RequestError::Ignored));
}

#[test]
fn any_without_a_response_yields_the_first_failure() {
    let mut table: RequestTable<&'static str> = RequestTable::new(owner());
    let mut fanout = Fanout::new();
    let a = table.allocate().unwrap();
    fanout.fail(RequestError::Closed);
    fanout.expect(a);
    table.drop_token(a);
    assert!(matches!(fanout.poll_any(&mut table, false), Some(Err(RequestError::Closed))));
}

#[test]
fn any_without_destinations_is_closed() {
    let mut table: RequestTable<&'static str> = RequestTable::new(owner());
    let mut fanout: Fanout<&'static str> = Fanout::new();
    assert!(matches!(fanout.poll_any(&mut table, false), Some(Err(RequestError::Closed))));
}
