use rustscan::address::{IpAddress, SocketTarget};
use rustscan::socket_iterator::SocketIterator;

fn localhost() -> IpAddress {
    IpAddress::V4(0x7f00_0001)
}

#[test]
fn goes_through_every_ip_port_combination() {
    let addrs = vec![localhost(), IpAddress::V4(0xc0a8_0001)];
    let ports: Vec<u16> = vec![22, 80, 443];
    let mut it = SocketIterator::new(&addrs, &ports);

    assert_eq!(Some(SocketTarget::new(addrs[0], ports[0])), it.next());
    assert_eq!(Some(SocketTarget::new(addrs[1], ports[0])), it.next());
    assert_eq!(Some(SocketTarget::new(addrs[0], ports[1])), it.next());
    assert_eq!(Some(SocketTarget::new(addrs[1], ports[1])), it.next());
    assert_eq!(Some(SocketTarget::new(addrs[0], ports[2])), it.next());
    assert_eq!(Some(SocketTarget::new(addrs[1], ports[2])), it.next());
    assert_eq!(None, it.next());
    assert_eq!(None, it.next());
}

#[test]
fn position_splits_into_address_and_port() {
    let addrs = vec![
        IpAddress::V4(1),
        IpAddress::V4(2),
        IpAddress::V6(3),
        IpAddress::V4(4),
        IpAddress::V6(5),
    ];
    let ports: Vec<u16> = vec![1, 65535, 8080, 443, 22, 21, 9000];
    let mut it = SocketIterator::new(&addrs, &ports);
    let mut k: usize = 0;
    while k < addrs.len() * ports.len() {
        assert!(!it.is_exhausted());
        let target = it.next().expect("a target for every position");
        assert_eq!(target.ip, addrs[k % addrs.len()]);
        assert_eq!(target.port, ports[k / addrs.len()]);
        k += 1;
    }
    assert!(it.is_exhausted());
    assert_eq!(it.next(), None);
}

#[test]
fn no_addresses_no_targets() {
    let addrs: Vec<IpAddress> = Vec::new();
    let ports: Vec<u16> = vec![80, 443];
    let mut it = SocketIterator::new(&addrs, &ports);
    assert!(it.is_exhausted());
    assert_eq!(it.next(), None);
}

#[test]
fn no_ports_no_targets() {
    let addrs = vec![localhost()];
    let ports: Vec<u16> = Vec::new();
    let mut it = SocketIterator::new(&addrs, &ports);
    assert!(it.is_exhausted());
    assert_eq!(it.next(), None);
}

#[test]
fn repeated_addresses_are_visited_as_often() {
    let addrs = vec![localhost(), localhost()];
    let ports: Vec<u16> = vec![80];
    let mut it = SocketIterator::new(&addrs, &ports);
    assert_eq!(it.next(), Some(SocketTarget::new(localhost(), 80)));
    assert_eq!(it.next(), Some(SocketTarget::new(localhost(), 80)));
    assert_eq!(it.next(), None);
}
