use tracesum::sets::{CountableSetSpecifier, NetworkPort, PortRange, SetSpecifier};
use tracesum::systemd::{SocketFamily, SocketProtocol};

fn port(p: u16) -> NetworkPort {
    NetworkPort::new(p).unwrap()
}

fn pr(first: u16, last: u16) -> PortRange {
    PortRange { first: port(first), last: port(last) }
}

#[test]
fn test_set_ranges() {
    let set = CountableSetSpecifier::NoneOf;
    assert_eq!(set.ranges(), vec![]);

    for v in [1, 1234, u16::MAX] {
        let set = CountableSetSpecifier::One(port(v));
        assert_eq!(set.ranges(), vec![pr(v, v)]);
    }

    for v in [1, 1234, u16::MAX] {
        let set = CountableSetSpecifier::SomeOf(vec![port(v)]);
        assert_eq!(set.ranges(), vec![pr(v, v)]);
    }

    let set = CountableSetSpecifier::SomeOf(vec![port(1234), port(5678)]);
    assert_eq!(set.ranges(), vec![pr(1234, 1234), pr(5678, 5678)]);

    let set = CountableSetSpecifier::AllExcept(vec![port(1)]);
    assert_eq!(set.ranges(), vec![pr(2, u16::MAX)]);

    let set = CountableSetSpecifier::AllExcept(vec![port(u16::MAX)]);
    assert_eq!(set.ranges(), vec![pr(1, u16::MAX - 1)]);

    let set = CountableSetSpecifier::AllExcept(vec![port(1), port(u16::MAX)]);
    assert_eq!(set.ranges(), vec![pr(2, u16::MAX - 1)]);

    let set = CountableSetSpecifier::AllExcept(vec![port(1234), port(5678)]);
    assert_eq!(set.ranges(), vec![pr(1, 1233), pr(1235, 5677), pr(5679, 65535)]);

    let set = CountableSetSpecifier::AllExcept(vec![
        port(1),
        port(1234),
        port(5678),
        port(u16::MAX),
    ]);
    assert_eq!(set.ranges(), vec![pr(2, 1233), pr(1235, 5677), pr(5679, 65534)]);

    let set = CountableSetSpecifier::All;
    assert_eq!(set.ranges(), vec![pr(1, u16::MAX)]);
}

#[test]
fn port_removal_intervals() {
    // removing the ends of the universe leaves one inner interval
    let mut set = CountableSetSpecifier::All;
    set.remove(&port(1));
    set.remove(&port(u16::MAX));
    assert_eq!(set.ranges(), vec![pr(2, u16::MAX - 1)]);
}

#[test]
fn remove_clears_membership_only_for_the_removed_port() {
    let mut set = CountableSetSpecifier::All;
    set.remove(&port(80));
    assert!(!set.contains_one(&port(80)));
    assert!(set.contains_one(&port(79)));
    assert!(set.contains_one(&port(81)));
    assert_eq!(set, CountableSetSpecifier::AllExcept(vec![port(80)]));

    let mut set = CountableSetSpecifier::SomeOf(vec![port(22), port(80), port(443)]);
    set.remove(&port(80));
    assert!(!set.contains_one(&port(80)));
    assert!(set.contains_one(&port(22)));
    assert!(set.contains_one(&port(443)));
    assert_eq!(set, CountableSetSpecifier::SomeOf(vec![port(22), port(443)]));

    let mut set = CountableSetSpecifier::One(port(80));
    set.remove(&port(80));
    assert!(!set.contains_one(&port(80)));
    assert_eq!(set, CountableSetSpecifier::NoneOf);

    let mut set = CountableSetSpecifier::AllExcept(vec![port(100)]);
    set.remove(&port(99));
    assert_eq!(set, CountableSetSpecifier::AllExcept(vec![port(99), port(100)]));
}

#[test]
fn countable_intersects_is_exact_and_symmetric() {
    let a = CountableSetSpecifier::AllExcept(vec![port(1)]);
    let b = CountableSetSpecifier::AllExcept(vec![port(1)]);
    // both sets still hold every port above 1, so they do intersect
    assert!(a.intersects(&b));
    assert!(b.intersects(&a));

    let one = CountableSetSpecifier::One(port(80));
    let other = CountableSetSpecifier::SomeOf(vec![port(22), port(443)]);
    assert!(!one.intersects(&other));
    assert!(!other.intersects(&one));

    let all = CountableSetSpecifier::All;
    let none = CountableSetSpecifier::NoneOf;
    assert!(!all.intersects(&none));
    assert!(!none.intersects(&all));
    assert!(all.intersects(&one));
    assert!(one.intersects(&all));
}

#[test]
fn set_specifier_intersects_is_symmetric() {
    let a: SetSpecifier<SocketFamily> = SetSpecifier::SomeOf(vec![
        SocketFamily::Inet,
        SocketFamily::Inet6,
    ]);
    let b: SetSpecifier<SocketFamily> = SetSpecifier::One(SocketFamily::Inet);
    assert!(a.intersects(&b));
    assert!(b.intersects(&a));

    let c: SetSpecifier<SocketFamily> = SetSpecifier::One(SocketFamily::Unix);
    assert!(!a.intersects(&c));
    assert!(!c.intersects(&a));

    let all: SetSpecifier<SocketProtocol> = SetSpecifier::All;
    let none: SetSpecifier<SocketProtocol> = SetSpecifier::NoneOf;
    assert!(!all.intersects(&none));
    assert!(!none.intersects(&all));
    assert!(all.intersects(&all));

    let empty: SetSpecifier<SocketProtocol> = SetSpecifier::SomeOf(vec![]);
    assert!(!all.intersects(&empty));
    assert!(!empty.intersects(&all));
}

#[test]
fn set_specifier_membership_and_elements() {
    let s: SetSpecifier<SocketProtocol> = SetSpecifier::SomeOf(vec![SocketProtocol::Tcp]);
    assert!(s.contains_one(&SocketProtocol::Tcp));
    assert!(!s.contains_one(&SocketProtocol::Udp));
    assert_eq!(s.elements(), vec![SocketProtocol::Tcp]);

    let one: SetSpecifier<SocketProtocol> = SetSpecifier::One(SocketProtocol::Udp);
    assert_eq!(one.elements(), vec![SocketProtocol::Udp]);

    let none: SetSpecifier<SocketProtocol> = SetSpecifier::NoneOf;
    assert_eq!(none.elements(), vec![]);
}

#[test]
fn interval_union_matches_membership() {
    // the canonical decomposition of an exclusion set covers exactly the
    // remaining ports
    let set = CountableSetSpecifier::AllExcept(vec![port(10), port(11), port(50)]);
    let ranges = set.ranges();
    assert_eq!(ranges, vec![pr(1, 9), pr(12, 49), pr(51, 65535)]);
    for v in [1u16, 9, 12, 49, 51, 65535] {
        assert!(set.contains_one(&port(v)));
        assert!(ranges.iter().any(|r| r.first.0 <= v && v <= r.last.0));
    }
    for v in [10u16, 11, 50] {
        assert!(!set.contains_one(&port(v)));
        assert!(!ranges.iter().any(|r| r.first.0 <= v && v <= r.last.0));
    }
}
