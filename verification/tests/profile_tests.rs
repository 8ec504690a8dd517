use tracesum::sets::{CountableSetSpecifier, NetworkPort, SetSpecifier};
use tracesum::profile::{deserialize_actions, serialize_actions};
use tracesum::summarize::{NetworkActivity, NetworkActivityKind, ProgramAction};
use tracesum::systemd::{SocketFamily, SocketProtocol};

fn sample_actions() -> Vec<ProgramAction> {
    vec![
        ProgramAction::Read(b"/etc/hosts".to_vec()),
        ProgramAction::Write(b"/var/log/app".to_vec()),
        ProgramAction::Create(b"/tmp/out".to_vec()),
        ProgramAction::NetworkActivity(NetworkActivity {
            af: SetSpecifier::SomeOf(vec![SocketFamily::Inet, SocketFamily::Inet6]),
            proto: SetSpecifier::One(SocketProtocol::Udp),
            kind: SetSpecifier::All,
            local_port: CountableSetSpecifier::AllExcept(vec![
                NetworkPort::new(53).unwrap(),
                NetworkPort::new(5353).unwrap(),
            ]),
        }),
        ProgramAction::WriteExecuteMemoryMapping,
        ProgramAction::SetRealtimeScheduler,
        ProgramAction::Wakeup,
        ProgramAction::MknodSpecial,
        ProgramAction::SetAlarm,
        ProgramAction::Syscalls(vec!["openat".to_owned(), "read".to_owned()]),
    ]
}

#[test]
fn profile_round_trip() {
    let actions = sample_actions();
    let bytes = serialize_actions(&actions);
    let back = deserialize_actions(&bytes).unwrap();
    assert_eq!(back, actions);
}

#[test]
fn empty_profile_round_trip() {
    let actions: Vec<ProgramAction> = vec![];
    let bytes = serialize_actions(&actions);
    assert_eq!(deserialize_actions(&bytes), Some(vec![]));
}

#[test]
fn damaged_profiles_are_refused() {
    let actions = sample_actions();
    let bytes = serialize_actions(&actions);

    // a wrong header
    let mut bad_magic = bytes.clone();
    bad_magic[0] = 0;
    assert_eq!(deserialize_actions(&bad_magic), None);

    // a truncated container
    let truncated: Vec<u8> = bytes[..bytes.len() - 1].to_vec();
    assert_eq!(deserialize_actions(&truncated), None);

    // trailing garbage
    let mut trailing = bytes.clone();
    trailing.push(0);
    assert_eq!(deserialize_actions(&trailing), None);

    // an empty input
    assert_eq!(deserialize_actions(&Vec::new()), None);
}

#[test]
fn profiles_survive_port_heavy_activities() {
    let actions = vec![ProgramAction::NetworkActivity(NetworkActivity {
        af: SetSpecifier::NoneOf,
        proto: SetSpecifier::SomeOf(vec![]),
        kind: SetSpecifier::One(NetworkActivityKind::Bind),
        local_port: CountableSetSpecifier::SomeOf(vec![
            NetworkPort::new(1).unwrap(),
            NetworkPort::new(65535).unwrap(),
        ]),
    })];
    let bytes = serialize_actions(&actions);
    assert_eq!(deserialize_actions(&bytes), Some(actions));
}

fn le64(n: u64) -> Vec<u8> {
    let mut out = Vec::new();
    let mut x = n;
    for _ in 0..8 {
        out.push((x % 256) as u8);
        x /= 256;
    }
    out
}

#[test]
fn malformed_port_sets_are_refused() {
    // hand-assembled container: one network action whose port list breaks the
    // representation invariant (unsorted), which the decoder must refuse
    let mut bytes: Vec<u8> = vec![84, 83, 80, 49];
    bytes.extend(le64(1)); // one action
    bytes.push(3); // a network activity
    bytes.push(0); // family set: none
    bytes.push(0); // protocol set: none
    bytes.push(0); // kind set: none
    bytes.push(2); // port set: a list
    bytes.extend(le64(2)); // of two ports
    bytes.extend([80, 0]); // port 80
    bytes.extend([79, 0]); // then port 79: out of order
    assert_eq!(deserialize_actions(&bytes), None);

    // the same container with the ports in order decodes
    let mut good: Vec<u8> = vec![84, 83, 80, 49];
    good.extend(le64(1));
    good.push(3);
    good.push(0);
    good.push(0);
    good.push(0);
    good.push(2);
    good.extend(le64(2));
    good.extend([79, 0]);
    good.extend([80, 0]);
    assert_eq!(
        deserialize_actions(&good),
        Some(vec![ProgramAction::NetworkActivity(NetworkActivity {
            af: SetSpecifier::NoneOf,
            proto: SetSpecifier::NoneOf,
            kind: SetSpecifier::NoneOf,
            local_port: CountableSetSpecifier::SomeOf(vec![
                NetworkPort::new(79).unwrap(),
                NetworkPort::new(80).unwrap(),
            ]),
        })])
    );

    // a zero port is refused too
    let mut zero: Vec<u8> = vec![84, 83, 80, 49];
    zero.extend(le64(1));
    zero.push(3);
    zero.push(0);
    zero.push(0);
    zero.push(0);
    zero.push(1); // a single port
    zero.extend([0, 0]); // which is zero
    assert_eq!(deserialize_actions(&zero), None);
}
