use elfo::addr::Addr;
use elfo::envelope::{Envelope, MessageKind};

#[test]
fn regular_envelope_has_no_token() {
    let sender = Addr::from_parts(1, 1, 1);
    let envelope = Envelope::new(5u32, MessageKind::Regular { sender }, 17);
    assert_eq!(envelope.sender(), sender);
    assert_eq!(envelope.created_at, 17);
    assert_eq!(*envelope.message(), 5);
    assert!(!envelope.is_request());
    let (message, token) = envelope.unpack();
    assert_eq!(message, 5);
    assert!(token.is_none());
}

#[test]
fn request_envelope_yields_its_token() {
    let sender = Addr::from_parts(4, 2, 9);
    let envelope = Envelope::new("ask", MessageKind::Request { sender, correlation_id: 12 }, 0);
    assert!(envelope.is_request());
    let (message, token) = envelope.unpack();
    let token = token.expect("a request carries a token");
    assert_eq!(message, "ask");
    assert_eq!(token.sender(), sender);
    assert_eq!(token.correlation_id(), 12);
}

#[test]
fn response_envelope_has_no_token() {
    let sender = Addr::from_parts(4, 2, 9);
    let kind = MessageKind::Response { sender, correlation_id: 12 };
    assert_eq!(kind.sender(), sender);
    let (_, token) = Envelope::new((), kind, 0).unpack();
    assert!(token.is_none());
}
