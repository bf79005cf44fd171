use rustscan::address::{IpAddress, SocketTarget};
use rustscan::aggregate::PortsByHost;
use rustscan::digest::ErrorDigest;

#[test]
fn ports_are_grouped_in_the_order_found() {
    let first = IpAddress::V4(0x0a00_0001);
    let second = IpAddress::V6(1);
    let open = vec![
        SocketTarget::new(first, 443),
        SocketTarget::new(second, 22),
        SocketTarget::new(first, 80),
        SocketTarget::new(first, 8080),
        SocketTarget::new(second, 21),
    ];
    let by_host = PortsByHost::group(&open);
    assert_eq!(by_host.len(), 2);
    assert_eq!(by_host.get(first), Some(&vec![443, 80, 8080]));
    assert_eq!(by_host.get(second), Some(&vec![22, 21]));
    assert_eq!(by_host.get(IpAddress::V4(1)), None);
    assert!(by_host.contains_key(first));
    assert!(!by_host.contains_key(IpAddress::V6(0x0a00_0001)));
    let hosts = by_host.hosts();
    assert_eq!(hosts[0].ip, first);
    assert_eq!(hosts[0].ports, vec![443, 80, 8080]);
    assert_eq!(hosts[1].ip, second);
    assert_eq!(hosts[1].ports, vec![22, 21]);
}

#[test]
fn nothing_open_gives_no_host() {
    let by_host = PortsByHost::group(&Vec::new());
    assert_eq!(by_host.len(), 0);
    assert_eq!(by_host.get(IpAddress::V4(1)), None);
}

#[test]
fn hosts_without_ports_are_named() {
    let addrs = vec![IpAddress::V4(1), IpAddress::V4(2), IpAddress::V4(3), IpAddress::V4(2)];
    let open = vec![SocketTarget::new(addrs[2], 80), SocketTarget::new(addrs[0], 80)];
    let by_host = PortsByHost::group(&open);
    assert_eq!(by_host.missing(&addrs), vec![IpAddress::V4(2), IpAddress::V4(2)]);
    assert_eq!(PortsByHost::group(&Vec::new()).missing(&addrs), addrs);
}

#[test]
fn digest_keeps_distinct_texts() {
    let mut digest = ErrorDigest::new(1);
    assert!(digest.insert("refused 10.0.0.1".to_string()));
    assert!(!digest.insert("refused 10.0.0.1".to_string()));
    assert!(digest.insert("timed out 10.0.0.1".to_string()));
    assert_eq!(digest.len(), 2);
    assert!(digest.contains(&"timed out 10.0.0.1".to_string()));
    assert!(!digest.contains(&"timed out".to_string()));
    assert_eq!(
        digest.into_entries(),
        vec!["refused 10.0.0.1".to_string(), "timed out 10.0.0.1".to_string()]
    );
}

#[test]
fn digest_of_no_hosts_takes_nothing() {
    let mut digest = ErrorDigest::new(0);
    assert!(!digest.insert("refused".to_string()));
    assert_eq!(digest.len(), 0);
}

#[test]
fn digest_stops_at_a_thousand_per_host() {
    let mut digest = ErrorDigest::new(2);
    let mut taken: usize = 0;
    for k in 0..2_500 {
        if digest.insert(format!("error {k}")) {
            taken += 1;
        }
    }
    assert_eq!(taken, 2_000);
    assert_eq!(digest.len(), 2_000);
    assert!(digest.contains(&"error 1999".to_string()));
    assert!(!digest.contains(&"error 2000".to_string()));
}

#[test]
fn hosts_stand_in_the_order_found() {
    let open = vec![
        SocketTarget::new(IpAddress::V4(3), 80),
        SocketTarget::new(IpAddress::V4(1), 80),
        SocketTarget::new(IpAddress::V4(3), 22),
        SocketTarget::new(IpAddress::V6(2), 443),
        SocketTarget::new(IpAddress::V4(1), 8080),
    ];
    let by_host = PortsByHost::group(&open);
    let order: Vec<IpAddress> = by_host.hosts().iter().map(|host| host.ip).collect();
    assert_eq!(order, vec![IpAddress::V4(3), IpAddress::V4(1), IpAddress::V6(2)]);
    assert_eq!(by_host.hosts()[0].ports, vec![80, 22]);
    assert_eq!(by_host.hosts()[1].ports, vec![80, 8080]);
    assert_eq!(by_host.hosts()[2].ports, vec![443]);
}
