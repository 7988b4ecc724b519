use elfo::addr::Addr;
use elfo::inspector;
use elfo::inspector::api::{Update, UpdateKey, UpdateResult};
use elfo::inspector::channel::Channel;
use elfo::inspector::protocol::{
    heartbeat_period_default, parallel_requests_max_default, Config, Request, RequestBody,
    RequestId, Token, CHANNEL_SIZE,
};
use elfo::inspector::values::errors::{InspectorError, UpdateError};
use elfo::inspector::values::listener::{canonical, Listener, ListenerKey, ListenerMap};
use elfo::inspector::values::topology::{TopologyActorGroup, TopologyConnection};
use elfo::inspector::values::uid::{Uid, UidGenerator};
use elfo::inspector::{Inspector, InspectorEvent, Report};
use elfo::time::interval::Interval;
use elfo::topology::{ActorGroup, Connection, Topology};
use tokio::sync::mpsc::error::TryRecvError;
use tokio::sync::mpsc::{channel, Receiver};

fn config(heartbeat_period: u64) -> Config {
    Config {
        ip: "127.0.0.1".to_string(),
        port: 9042,
        auth_tokens: Vec::new(),
        heartbeat_period,
        update_period: 1_000,
        parallel_requests_max: parallel_requests_max_default(),
    }
}

fn topology() -> Topology {
    let mut topology = Topology::empty();
    let producers = topology.local("producers").unwrap();
    let aggregators = topology.local("aggregators").unwrap();
    producers.route_all_to(&aggregators, &mut topology);
    topology
}

fn inspector(heartbeat_period: u64) -> Inspector {
    Inspector::new(&config(heartbeat_period), topology())
}

fn no_tick() {}

fn stopped() -> Interval<fn()> {
    Interval::new(no_tick as fn())
}

fn subscribe(
    inspector: &mut Inspector,
    key: UpdateKey,
    tx: tokio::sync::mpsc::Sender<UpdateResult>,
    now: u64,
) -> Result<ListenerKey, InspectorError> {
    let mut interval = stopped();
    let result = inspector.subscribe(key, tx, now, &mut interval);
    assert_eq!(interval.period(), 0);
    assert_eq!(interval.deadline(), None);
    result
}

fn handle(inspector: &mut Inspector, event: InspectorEvent, now: u64) -> Vec<Report> {
    let mut interval = stopped();
    let reports = inspector.handle(event, now, &mut interval);
    assert_eq!(interval.period(), 0);
    reports
}

fn is_heartbeat(rx: &mut Receiver<UpdateResult>) -> bool {
    matches!(rx.try_recv(), Ok(Ok(Update::Heartbeat)))
}

fn is_silent(rx: &mut Receiver<UpdateResult>) -> bool {
    matches!(rx.try_recv(), Err(TryRecvError::Empty))
}

#[test]
fn defaults() {
    assert_eq!(heartbeat_period_default(), 2_000);
    assert_eq!(parallel_requests_max_default(), 1024);
    assert_eq!(CHANNEL_SIZE, 1024);
    assert_eq!(RequestId::default(), RequestId(1));
}

#[test]
fn token_needs_eight_bytes() {
    let error = Token::from_str("1234567").err().unwrap();
    assert_eq!(error.message(), "the string is too short to be a token");
    assert!(Token::from_str("").is_err());
    assert_eq!(Token::from_str("12345678").ok().unwrap().expose(), "12345678");
    assert_eq!(Token::from_str("a much longer token").ok().unwrap().expose(), "a much longer token");
}

#[test]
fn token_length_counts_bytes() {
    assert!(Token::from_str("éééé").is_ok());
    assert!(Token::from_str("ééé").is_err());
}

#[test]
fn inspector_error_keeps_its_message() {
    assert_eq!(InspectorError::new("there's no such listener").message(), "there's no such listener");
}

#[test]
fn update_error_from_json_error() {
    let json = serde_json::from_str::<u32>("x").unwrap_err();
    let text = json.to_string();
    assert!(!text.is_empty());
    let error = UpdateError::from(json);
    assert!(matches!(error, UpdateError::Other { .. }));
    assert_eq!(error.to_text(), text);
    assert_eq!(UpdateError::TooManyRequests.to_text(), "TooManyRequests");
}

#[test]
fn uids_count_up_from_zero() {
    let mut generator = UidGenerator::default();
    assert_eq!(generator.next(), Uid(0));
    assert_eq!(generator.next(), Uid(1));
    assert_eq!(generator.next(), Uid(2));
}

#[test]
fn update_keys() {
    assert_eq!(Update::Heartbeat.key(), UpdateKey::Heartbeat);
    let update = Update::TopologyUpdated { groups: Vec::new(), connections: Vec::new() };
    assert_eq!(update.key(), UpdateKey::TopologyUpdated);
    assert_eq!(UpdateKey::Heartbeat.code(), 0);
    assert_eq!(UpdateKey::TopologyUpdated.code(), 1);
}

#[test]
fn topology_values() {
    let group = ActorGroup {
        addr: Addr::from_parts(2, 0, 0),
        name: "aggregators".to_string(),
        is_entrypoint: false,
        is_mounted: true,
    };
    let seen = TopologyActorGroup::from(group);
    assert_eq!(seen.addr, 0x0002_0000_0000_0000);
    assert_eq!(seen.name, "aggregators");
    let connection = Connection { from: Addr::from_parts(1, 0, 0), to: Addr::from_parts(2, 0, 0) };
    assert_eq!(
        TopologyConnection::from(connection),
        TopologyConnection { from: 0x0001_0000_0000_0000, to: 0x0002_0000_0000_0000 }
    );
}

#[test]
fn update_from_topology() {
    match Update::from(&topology()) {
        Update::TopologyUpdated { groups, connections } => {
            assert_eq!(groups.len(), 2);
            assert_eq!(groups[0].name, "producers");
            assert_eq!(groups[0].addr, Addr::from_parts(1, 0, 0).into_bits());
            assert_eq!(groups[1].name, "aggregators");
            assert_eq!(groups[1].addr, Addr::from_parts(2, 0, 0).into_bits());
            assert_eq!(
                connections,
                vec![TopologyConnection {
                    from: Addr::from_parts(1, 0, 0).into_bits(),
                    to: Addr::from_parts(2, 0, 0).into_bits(),
                }]
            );
        },
        other => panic!("expected the topology, got {:?}", other),
    }
}

#[test]
fn request_has_a_channel_of_the_documented_size() {
    let token = Token::from_str("12345678").ok().unwrap();
    let (request, mut rx) = Request::new(token, RequestBody::GetTopology);
    assert_eq!(request.body(), RequestBody::GetTopology);
    assert_eq!(request.token().expose(), "12345678");
    for _ in 0..CHANNEL_SIZE {
        assert!(request.tx().try_send(Ok(Update::Heartbeat)).is_ok());
    }
    assert!(request.tx().try_send(Ok(Update::Heartbeat)).is_err());
    assert!(is_heartbeat(&mut rx));
    let (_, tx, body) = request.into_parts();
    assert_eq!(body, RequestBody::GetTopology);
    assert!(tx.try_send(Ok(Update::Heartbeat)).is_ok());
}

#[test]
fn listener_heartbeat_is_due_one_period_later() {
    let (tx, _rx) = channel::<UpdateResult>(1);
    let mut listener = Listener::new(tx, 100, 30, Uid(4));
    assert_eq!(listener.heartbeat_at, 130);
    assert_eq!(listener.heartbeat_uid, Uid(4));
    listener.postpone_heartbeat(200, 30);
    assert_eq!(listener.heartbeat_at, 230);
    assert_eq!(listener.heartbeat_uid, Uid(4));
    listener.postpone_heartbeat(u64::MAX, 30);
    assert_eq!(listener.heartbeat_at, u64::MAX);
}

#[test]
fn channel_keeps_keys_as_the_slot_map_reads_them() {
    let mut subscribers = Channel::new(10);
    assert!(subscribers.is_empty());
    subscribers.subscribe(5);
    subscribers.subscribe(5 | (1 << 32));
    subscribers.subscribe(7 | (3 << 32));
    assert_eq!(subscribers.len(), 2);
    assert_eq!(subscribers.subscribers(), vec![5 | (1 << 32), 7 | (3 << 32)]);
    assert_eq!(canonical(5), 5 | (1 << 32));
    assert_eq!(canonical(7 | (2 << 32)), 7 | (3 << 32));
}

#[test]
fn new_inspector_is_idle() {
    let inspector = inspector(100);
    assert!(inspector.is_idle());
    assert_eq!(inspector.listener_count(), 0);
    assert_eq!(inspector.scheduled_count(), 0);
    assert_eq!(inspector.subscriber_count(UpdateKey::TopologyUpdated), 0);
}

#[test]
fn schema_starts_inspectors() {
    let schema = inspector::new(topology());
    let mut first = schema.start(&config(100));
    let second = schema.start(&config(200));
    assert!(first.is_idle() && second.is_idle());
    let (tx, mut rx) = channel::<UpdateResult>(4);
    let key = subscribe(&mut first, UpdateKey::TopologyUpdated, tx, 0).ok().unwrap();
    assert!(first.send(key, Update::Heartbeat, 10).is_ok());
    assert!(is_heartbeat(&mut rx));
    assert!(second.is_idle());
}

#[test]
fn subscribing_makes_a_listener_with_a_scheduled_heartbeat() {
    let mut inspector = inspector(100);
    let (tx, mut rx) = channel::<UpdateResult>(4);
    let key = subscribe(&mut inspector, UpdateKey::TopologyUpdated, tx, 1_000).ok().unwrap();
    assert_eq!(key, canonical(key));
    assert!(!inspector.is_idle());
    assert_eq!(inspector.listener_count(), 1);
    assert_eq!(inspector.scheduled_count(), 1);
    assert_eq!(inspector.subscriber_count(UpdateKey::TopologyUpdated), 1);
    assert_eq!(inspector.subscriber_count(UpdateKey::Heartbeat), 0);
    assert!(is_silent(&mut rx));

    let (other_tx, _other_rx) = channel::<UpdateResult>(4);
    let other = subscribe(&mut inspector, UpdateKey::TopologyUpdated, other_tx, 1_000).ok().unwrap();
    assert_ne!(other, key);
    assert_eq!(inspector.listener_count(), 2);
    assert_eq!(inspector.subscriber_count(UpdateKey::TopologyUpdated), 2);
}

#[test]
fn send_reaches_the_listener_and_puts_the_heartbeat_off() {
    let mut inspector = inspector(100);
    let (tx, mut rx) = channel::<UpdateResult>(4);
    let key = subscribe(&mut inspector, UpdateKey::TopologyUpdated, tx, 0).ok().unwrap();
    assert!(inspector.send(key, Update::from(&topology()), 50).is_ok());
    assert!(matches!(rx.try_recv(), Ok(Ok(Update::TopologyUpdated { .. }))));
    assert_eq!(inspector.scheduled_count(), 1);

    inspector.heartbeat_tick(149);
    assert!(is_silent(&mut rx));
    inspector.heartbeat_tick(150);
    assert!(is_heartbeat(&mut rx));
    assert!(is_silent(&mut rx));
}

#[test]
fn a_key_is_read_as_the_slot_map_reads_it() {
    let mut inspector = inspector(100);
    let (tx, mut rx) = channel::<UpdateResult>(4);
    let key = subscribe(&mut inspector, UpdateKey::TopologyUpdated, tx, 0).ok().unwrap();
    let odd = key & !(1u64 << 32);
    assert_ne!(odd, key);
    assert!(inspector.send(odd, Update::Heartbeat, 0).is_ok());
    assert!(is_heartbeat(&mut rx));
}

#[test]
fn send_to_an_unknown_listener() {
    let mut inspector = inspector(100);
    let error = inspector.send(12, Update::Heartbeat, 0).err().unwrap();
    assert_eq!(error.message(), "there's no such listener");
    let error = inspector.postpone_heartbeat(12, 0).err().unwrap();
    assert_eq!(error.message(), "there's no such listener");
    let error = inspector.schedule_heartbeat(12).err().unwrap();
    assert_eq!(error.message(), "there's no such listener");
    let error = inspector.settle_delivery(12, true, 0).err().unwrap();
    assert_eq!(error.message(), "there's no such listener");
    assert_eq!(inspector.scheduled_count(), 0);
}

#[test]
fn a_listener_that_does_not_receive_is_dropped() {
    let mut inspector = inspector(100);
    let (tx, rx) = channel::<UpdateResult>(4);
    let key = subscribe(&mut inspector, UpdateKey::TopologyUpdated, tx, 0).ok().unwrap();
    drop(rx);
    let error = inspector.send(key, Update::Heartbeat, 0).err().unwrap();
    assert_eq!(error.message(), "listener doesn't receive");
    assert_eq!(inspector.listener_count(), 0);
    let error = inspector.send(key, Update::Heartbeat, 0).err().unwrap();
    assert_eq!(error.message(), "there's no such listener");
}

#[test]
fn a_listener_with_a_full_channel_is_dropped() {
    let mut inspector = inspector(100);
    let (tx, mut rx) = channel::<UpdateResult>(1);
    let key = subscribe(&mut inspector, UpdateKey::TopologyUpdated, tx, 0).ok().unwrap();
    assert!(inspector.send(key, Update::Heartbeat, 0).is_ok());
    assert!(inspector.send(key, Update::Heartbeat, 0).is_err());
    assert!(inspector.is_idle());
    assert!(is_heartbeat(&mut rx));
}

#[test]
fn settle_delivery_does_what_follows_an_offer() {
    let mut inspector = inspector(100);
    let (tx, _rx) = channel::<UpdateResult>(1);
    let key = subscribe(&mut inspector, UpdateKey::TopologyUpdated, tx, 0).ok().unwrap();
    assert!(inspector.settle_delivery(key, true, 10).is_ok());
    assert_eq!(inspector.listener_count(), 1);
    assert_eq!(inspector.scheduled_count(), 1);
    let error = inspector.settle_delivery(key, false, 20).err().unwrap();
    assert_eq!(error.message(), "listener doesn't receive");
    assert_eq!(inspector.listener_count(), 0);
}

#[test]
fn heartbeats_go_out_in_the_order_they_are_due() {
    let mut inspector = inspector(100);
    let (first_tx, mut first_rx) = channel::<UpdateResult>(8);
    let (second_tx, mut second_rx) = channel::<UpdateResult>(8);
    subscribe(&mut inspector, UpdateKey::TopologyUpdated, first_tx, 0).ok().unwrap();
    subscribe(&mut inspector, UpdateKey::TopologyUpdated, second_tx, 50).ok().unwrap();

    inspector.heartbeat_tick(99);
    assert!(is_silent(&mut first_rx) && is_silent(&mut second_rx));
    inspector.heartbeat_tick(100);
    assert!(is_heartbeat(&mut first_rx));
    assert!(is_silent(&mut second_rx));
    inspector.heartbeat_tick(150);
    assert!(is_silent(&mut first_rx));
    assert!(is_heartbeat(&mut second_rx));
    inspector.heartbeat_tick(260);
    assert!(is_heartbeat(&mut first_rx));
    assert!(is_heartbeat(&mut second_rx));
    assert!(is_silent(&mut first_rx) && is_silent(&mut second_rx));
    assert_eq!(inspector.scheduled_count(), 2);
}

#[test]
fn a_tick_sends_each_listener_one_heartbeat_at_most() {
    let mut inspector = inspector(0);
    let (tx, mut rx) = channel::<UpdateResult>(8);
    subscribe(&mut inspector, UpdateKey::TopologyUpdated, tx, 0).ok().unwrap();
    inspector.heartbeat_tick(10);
    assert!(is_heartbeat(&mut rx));
    assert!(is_silent(&mut rx));
}

#[test]
fn a_tick_clears_heartbeats_of_listeners_that_are_gone() {
    let mut inspector = inspector(100);
    let (gone_tx, gone_rx) = channel::<UpdateResult>(8);
    let (tx, mut rx) = channel::<UpdateResult>(8);
    let gone = subscribe(&mut inspector, UpdateKey::TopologyUpdated, gone_tx, 0).ok().unwrap();
    subscribe(&mut inspector, UpdateKey::TopologyUpdated, tx, 0).ok().unwrap();
    drop(gone_rx);
    assert!(inspector.send(gone, Update::Heartbeat, 0).is_err());
    assert_eq!(inspector.scheduled_count(), 2);
    inspector.heartbeat_tick(100);
    assert_eq!(inspector.scheduled_count(), 1);
    assert_eq!(inspector.listener_count(), 1);
    assert!(is_heartbeat(&mut rx));
}

#[test]
fn a_tick_drops_listeners_that_do_not_take_the_heartbeat() {
    let mut inspector = inspector(100);
    let (tx, rx) = channel::<UpdateResult>(8);
    subscribe(&mut inspector, UpdateKey::TopologyUpdated, tx, 0).ok().unwrap();
    drop(rx);
    inspector.heartbeat_tick(100);
    assert!(inspector.is_idle());
    assert_eq!(inspector.scheduled_count(), 0);
}

#[test]
fn send_to_channel_without_a_channel() {
    let mut inspector = inspector(100);
    let error = inspector.send_to_channel(Update::Heartbeat, 0).err().unwrap();
    assert_eq!(error.message(), "there're no listeners for such updates");
}

#[test]
fn send_to_channel_reaches_every_subscriber() {
    let mut inspector = inspector(100);
    let (first_tx, mut first_rx) = channel::<UpdateResult>(8);
    let (second_tx, mut second_rx) = channel::<UpdateResult>(8);
    let (other_tx, mut other_rx) = channel::<UpdateResult>(8);
    subscribe(&mut inspector, UpdateKey::TopologyUpdated, first_tx, 0).ok().unwrap();
    subscribe(&mut inspector, UpdateKey::TopologyUpdated, second_tx, 0).ok().unwrap();
    subscribe(&mut inspector, UpdateKey::Heartbeat, other_tx, 0).ok().unwrap();
    assert!(inspector.send_to_channel(Update::from(&topology()), 10).is_ok());
    assert!(matches!(first_rx.try_recv(), Ok(Ok(Update::TopologyUpdated { .. }))));
    assert!(matches!(second_rx.try_recv(), Ok(Ok(Update::TopologyUpdated { .. }))));
    assert!(is_silent(&mut other_rx));
    assert_eq!(inspector.subscriber_count(UpdateKey::TopologyUpdated), 2);
}

#[test]
fn send_to_channel_drops_subscribers_that_do_not_receive() {
    let mut inspector = inspector(100);
    let (first_tx, first_rx) = channel::<UpdateResult>(8);
    let (second_tx, mut second_rx) = channel::<UpdateResult>(8);
    subscribe(&mut inspector, UpdateKey::TopologyUpdated, first_tx, 0).ok().unwrap();
    subscribe(&mut inspector, UpdateKey::TopologyUpdated, second_tx, 0).ok().unwrap();
    drop(first_rx);
    assert!(inspector.send_to_channel(Update::from(&topology()), 10).is_ok());
    assert_eq!(inspector.subscriber_count(UpdateKey::TopologyUpdated), 1);
    assert_eq!(inspector.listener_count(), 1);
    assert!(matches!(second_rx.try_recv(), Ok(Ok(Update::TopologyUpdated { .. }))));

    drop(second_rx);
    let error = inspector.send_to_channel(Update::from(&topology()), 20).err().unwrap();
    assert_eq!(error.message(), "there're no listeners for such updates");
    assert_eq!(inspector.subscriber_count(UpdateKey::TopologyUpdated), 0);
    assert!(inspector.is_idle());
    let error = inspector.send_to_channel(Update::from(&topology()), 30).err().unwrap();
    assert_eq!(error.message(), "there're no listeners for such updates");
}

#[test]
fn a_sent_update_puts_only_the_due_time_off_in_a_channel() {
    let mut inspector = inspector(100);
    let (tx, mut rx) = channel::<UpdateResult>(8);
    subscribe(&mut inspector, UpdateKey::TopologyUpdated, tx, 0).ok().unwrap();
    assert!(inspector.send_to_channel(Update::from(&topology()), 60).is_ok());
    assert!(rx.try_recv().is_ok());
    inspector.heartbeat_tick(159);
    assert!(is_silent(&mut rx));
    inspector.heartbeat_tick(160);
    assert!(is_heartbeat(&mut rx));
}

#[test]
fn a_request_for_the_topology_subscribes_and_sends_a_snapshot() {
    let mut inspector = inspector(100);
    let token = Token::from_str("12345678").ok().unwrap();
    let (request, mut rx) = Request::new(token, RequestBody::GetTopology);
    assert!(handle(&mut inspector, InspectorEvent::Request(request), 0).is_empty());
    match rx.try_recv() {
        Ok(Ok(Update::TopologyUpdated { groups, connections })) => {
            assert_eq!(groups.len(), 2);
            assert_eq!(connections.len(), 1);
        },
        other => panic!("expected the topology, got {:?}", other),
    }
    assert_eq!(inspector.subscriber_count(UpdateKey::TopologyUpdated), 1);

    assert!(handle(&mut inspector, InspectorEvent::TopologyUpdated, 10).is_empty());
    assert!(matches!(rx.try_recv(), Ok(Ok(Update::TopologyUpdated { .. }))));
    assert!(handle(&mut inspector, InspectorEvent::HeartbeatTick, 110).is_empty());
    assert!(is_heartbeat(&mut rx));
    assert!(handle(&mut inspector, InspectorEvent::Other, 500).is_empty());
    assert!(is_silent(&mut rx));
}

#[test]
fn a_request_of_a_client_that_is_gone_is_reported() {
    let mut inspector = inspector(100);
    let token = Token::from_str("12345678").ok().unwrap();
    let (request, rx) = Request::new(token, RequestBody::GetTopology);
    drop(rx);
    let reports = handle(&mut inspector, InspectorEvent::Request(request), 0);
    assert_eq!(reports.len(), 1);
    assert_eq!(reports[0].what, "can't send the snapshot to the listener");
    assert_eq!(reports[0].error.message(), "listener doesn't receive");
    assert!(inspector.is_idle());
}

#[test]
fn update_error_with_a_message() {
    let error = UpdateError::other("no such thing".to_string());
    assert!(matches!(error, UpdateError::Other { .. }));
    assert_eq!(error.to_text(), "no such thing");
}

#[test]
fn a_tick_returns_what_each_offer_came_to() {
    let mut inspector = inspector(100);
    let (gone_tx, gone_rx) = channel::<UpdateResult>(8);
    let (tx, mut rx) = channel::<UpdateResult>(8);
    let (late_tx, mut late_rx) = channel::<UpdateResult>(8);
    subscribe(&mut inspector, UpdateKey::TopologyUpdated, gone_tx, 0).ok().unwrap();
    subscribe(&mut inspector, UpdateKey::TopologyUpdated, tx, 0).ok().unwrap();
    subscribe(&mut inspector, UpdateKey::TopologyUpdated, late_tx, 50).ok().unwrap();
    drop(gone_rx);
    assert!(inspector.heartbeat_tick(99).is_empty());
    let offers = inspector.heartbeat_tick(100);
    assert_eq!(offers.len(), 2);
    assert_eq!(offers[0].as_ref().err().unwrap().message(), "listener doesn't receive");
    assert!(offers[1].is_ok());
    assert!(is_heartbeat(&mut rx));
    assert!(is_silent(&mut late_rx));
    assert_eq!(inspector.listener_count(), 2);
}

#[test]
fn a_heartbeat_that_is_not_taken_is_reported() {
    let mut inspector = inspector(100);
    let (gone_tx, gone_rx) = channel::<UpdateResult>(8);
    let (tx, mut rx) = channel::<UpdateResult>(8);
    subscribe(&mut inspector, UpdateKey::TopologyUpdated, gone_tx, 0).ok().unwrap();
    subscribe(&mut inspector, UpdateKey::TopologyUpdated, tx, 0).ok().unwrap();
    drop(gone_rx);
    let reports = handle(&mut inspector, InspectorEvent::HeartbeatTick, 100);
    assert_eq!(reports.len(), 1);
    assert_eq!(reports[0].what, "can't send heartbeat");
    assert_eq!(reports[0].error.message(), "listener doesn't receive");
    assert!(is_heartbeat(&mut rx));
}

#[test]
fn subscribing_leaves_the_heartbeat_interval_as_it_is() {
    let mut inspector = inspector(100);
    let mut interval = stopped();
    interval.set_period(0, 30);
    let (tx, _rx) = channel::<UpdateResult>(8);
    inspector.subscribe(UpdateKey::TopologyUpdated, tx, 10, &mut interval).ok().unwrap();
    assert_eq!(interval.period(), 30);
    assert_eq!(interval.deadline(), Some(30));
}

#[test]
fn channel_send_with_one_dead_and_one_live_client() {
    let mut listeners = ListenerMap::new();
    let (tx1, rx1) = channel::<UpdateResult>(1);
    drop(rx1);
    let (tx2, mut rx2) = channel::<UpdateResult>(1);
    let k1 = listeners.insert(Listener::new(tx1, 0, 2_000, Uid(0))).ok().unwrap();
    let k2 = listeners.insert(Listener::new(tx2, 0, 2_000, Uid(1))).ok().unwrap();
    let mut subscribers = Channel::new(2_000);
    subscribers.subscribe(k1);
    subscribers.subscribe(k2);

    assert!(subscribers.send(&Update::Heartbeat, &mut listeners, 500).is_ok());
    assert!(is_heartbeat(&mut rx2));
    assert!(is_silent(&mut rx2));
    assert_eq!(listeners.len(), 1);
    assert!(listeners.get(k1).is_none());
    let kept = listeners.get(k2).unwrap();
    assert_eq!(kept.heartbeat_at, 2_500);
    assert_eq!(kept.heartbeat_uid, Uid(1));
    assert_eq!(subscribers.subscribers(), vec![k2]);
}

#[test]
fn channel_send_to_nobody_fails() {
    let mut listeners = ListenerMap::new();
    let mut subscribers = Channel::new(10);
    let error = subscribers.send(&Update::Heartbeat, &mut listeners, 0).err().unwrap();
    assert_eq!(error.message(), "there're no listeners for such updates");
    subscribers.subscribe(77);
    assert!(subscribers.send(&Update::Heartbeat, &mut listeners, 0).is_err());
    assert!(subscribers.is_empty());
}

#[test]
fn channel_settle_keeps_who_took_the_offer() {
    let mut listeners = ListenerMap::new();
    let (tx, _rx) = channel::<UpdateResult>(1);
    let key = listeners.insert(Listener::new(tx, 0, 100, Uid(3))).ok().unwrap();
    let mut subscribers = Channel::new(100);
    subscribers.subscribe(key);
    assert!(subscribers.settle(key, true, &mut listeners, 40));
    assert_eq!(listeners.get(key).unwrap().heartbeat_at, 140);
    assert_eq!(subscribers.len(), 1);
    assert!(!subscribers.settle(key, false, &mut listeners, 50));
    assert!(listeners.get(key).is_none());
    assert!(subscribers.is_empty());
    assert!(!subscribers.settle(key, true, &mut listeners, 60));
}
