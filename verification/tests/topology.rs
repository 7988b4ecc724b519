use elfo::addr::Addr;
use elfo::topology::{Connection, Topology};

#[test]
fn empty_topology() {
    let topology = Topology::empty();
    assert!(topology.actor_groups().is_empty());
    assert!(topology.connections().is_empty());
    assert!(topology.entrypoints().is_empty());
}

#[test]
fn groups_are_numbered_from_one() {
    let mut topology = Topology::empty();
    let producers = topology.local("producers").unwrap();
    let aggregators = topology.local("aggregators").unwrap();
    assert_eq!(producers.addr(), Addr::from_parts(1, 0, 0));
    assert_eq!(aggregators.addr(), Addr::from_parts(2, 0, 0));
    let groups = topology.actor_groups();
    assert_eq!(groups.len(), 2);
    assert_eq!(groups[0].name, "producers");
    assert_eq!(groups[0].addr, producers.addr());
    assert_eq!(groups[1].name, "aggregators");
    assert!(!groups[0].is_entrypoint && !groups[0].is_mounted);
    assert!(topology.has_group(producers.addr()));
    assert!(!topology.has_group(Addr::from_parts(3, 0, 0)));
    assert!(!topology.has_group(Addr::null()));
}

#[test]
fn the_example_system() {
    let mut topology = Topology::empty();
    let producers = topology.local("producers").unwrap();
    let aggregators = topology.local("aggregators").unwrap();
    let reporters = topology.local("reporters").unwrap();
    let configurers = topology.local("system.configurers").unwrap().entrypoint(&mut topology);
    assert!(producers.route_all_to(&aggregators, &mut topology));
    assert!(reporters.route_all_to(&aggregators, &mut topology));
    producers.mount(&mut topology);

    assert_eq!(
        topology.connections(),
        vec![
            Connection { from: producers.addr(), to: aggregators.addr() },
            Connection { from: reporters.addr(), to: aggregators.addr() },
        ]
    );
    assert_eq!(topology.destinations(producers.addr()), vec![aggregators.addr()]);
    assert!(topology.destinations(aggregators.addr()).is_empty());
    assert_eq!(topology.entrypoints(), vec![configurers.addr()]);
    assert!(topology.is_entrypoint(configurers.addr()));
    assert!(!topology.is_entrypoint(producers.addr()));
    assert!(topology.has_inbound(aggregators.addr()));
    assert!(!topology.has_inbound(producers.addr()));
    let groups = topology.actor_groups();
    assert!(groups[0].is_mounted);
    assert!(!groups[1].is_mounted);
    assert!(groups[3].is_entrypoint);
}

#[test]
fn a_route_is_recorded_once() {
    let mut topology = Topology::empty();
    let a = topology.local("a").unwrap();
    let b = topology.local("b").unwrap();
    assert!(a.route_all_to(&b, &mut topology));
    assert!(a.route_all_to(&b, &mut topology));
    assert_eq!(topology.connections().len(), 1);
    assert!(b.route_all_to(&a, &mut topology));
    assert!(a.route_all_to(&a, &mut topology));
    assert_eq!(topology.connections().len(), 3);
    assert_eq!(topology.destinations(a.addr()), vec![b.addr(), a.addr()]);
}

#[test]
fn no_route_leads_to_an_entrypoint() {
    let mut topology = Topology::empty();
    let a = topology.local("a").unwrap();
    let entry = topology.local("entry").unwrap().entrypoint(&mut topology);
    assert!(!a.route_all_to(&entry, &mut topology));
    assert!(topology.connections().is_empty());
    assert!(entry.route_all_to(&a, &mut topology));
}

#[test]
fn a_group_with_inbound_routes_is_no_entrypoint() {
    let mut topology = Topology::empty();
    let a = topology.local("a").unwrap();
    let b = topology.local("b").unwrap();
    a.route_all_to(&b, &mut topology);
    let b = b.entrypoint(&mut topology);
    assert!(!topology.is_entrypoint(b.addr()));
    assert!(topology.entrypoints().is_empty());
}

#[test]
fn handles_of_another_topology_are_refused() {
    let mut big = Topology::empty();
    big.local("one").unwrap();
    let foreign = big.local("two").unwrap();
    let mut small = Topology::empty();
    let own = small.local("one").unwrap();
    assert!(!own.route_all_to(&foreign, &mut small));
    assert!(!foreign.route_all_to(&own, &mut small));
    foreign.mount(&mut small);
    assert!(!small.actor_groups()[0].is_mounted);
}

#[test]
fn duplicate_is_equal() {
    let mut topology = Topology::empty();
    let a = topology.local("a").unwrap().entrypoint(&mut topology);
    let b = topology.local("b").unwrap();
    a.route_all_to(&b, &mut topology);
    let copy = topology.duplicate();
    assert_eq!(copy.connections(), topology.connections());
    assert_eq!(copy.entrypoints(), topology.entrypoints());
    assert_eq!(copy.actor_groups()[1].name, "b");
}
