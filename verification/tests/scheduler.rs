use rustscan::address::{IpAddress, SocketTarget};
use rustscan::port_strategy::{PortRange, PortStrategy, ScanOrder};
use rustscan::probe::{AttemptResult, Probe, ProbeOutcome, ProbeStep};
use rustscan::scanner::Scanner;
use rustscan::scheduler::{Action, Launch, Scheduler};
use std::time::Duration;

fn host_text(ip: IpAddress) -> String {
    match ip {
        IpAddress::V4(bits) => format!(
            "{}.{}.{}.{}",
            bits >> 24,
            (bits >> 16) & 255,
            (bits >> 8) & 255,
            bits & 255
        ),
        IpAddress::V6(bits) => format!("{bits:x}"),
    }
}

fn refused() -> AttemptResult {
    AttemptResult::Failed("Connection refused (os error 111)".to_string())
}

struct Trace {
    attempted: Vec<SocketTarget>,
    open: Vec<SocketTarget>,
    distinct_errors: usize,
    most_in_flight: usize,
    connections: usize,
}

fn scan(scanner: &Scanner, accepts: fn(SocketTarget) -> bool, seed: u64) -> Trace {
    let (mut scheduler, launches) = scanner.begin();
    let mut trace = Trace {
        attempted: Vec::new(),
        open: Vec::new(),
        distinct_errors: 0,
        most_in_flight: 0,
        connections: 0,
    };
    let mut pool: Vec<Launch> = Vec::new();
    for launch in launches {
        trace.attempted.push(launch.target);
        pool.push(launch);
    }
    let mut state: u64 = seed;
    while !pool.is_empty() {
        assert_eq!(scheduler.in_flight(), pool.len());
        assert!(!scheduler.is_drained());
        trace.most_in_flight = trace.most_in_flight.max(pool.len());
        state = state.wrapping_mul(6364136223846793005).wrapping_add(1442695040888963407);
        let pick = ((state >> 33) as usize) % pool.len();
        let launch = pool.swap_remove(pick);
        assert_eq!(scheduler.target_in(launch.slot), Some(launch.target));
        let mut probe = Probe::new(launch.target, scanner.tries());
        let outcome = loop {
            trace.connections += 1;
            let result = if accepts(launch.target) {
                AttemptResult::Connected
            } else {
                refused()
            };
            match probe.attempt(result, &host_text(launch.target.ip)) {
                ProbeStep::Retry(next) => probe = next,
                ProbeStep::Done(outcome) => break outcome,
            }
        };
        assert!(scheduler.accepts(launch.slot, &outcome));
        match scheduler.complete(launch.slot, outcome) {
            Action::Launch(next) => {
                assert_eq!(next.slot, launch.slot);
                trace.attempted.push(next.target);
                pool.push(next);
            }
            Action::Wait => {}
            Action::Abort(reason) => panic!("no fatal error was reported: {reason}"),
        }
    }
    assert!(scheduler.is_drained());
    assert!(!scheduler.is_aborted());
    assert_eq!(scheduler.in_flight(), 0);
    trace.distinct_errors = scheduler.errors().len();
    assert!(trace.distinct_errors <= scanner.ips().len() * 1000);
    let lent: Vec<SocketTarget> = scheduler.open_sockets().clone();
    trace.open = scheduler.into_open_sockets();
    assert_eq!(trace.open, lent);
    trace
}

fn every_hundredth(target: SocketTarget) -> bool {
    target.port % 100 == 0
}

fn nothing(_target: SocketTarget) -> bool {
    false
}

fn everything(_target: SocketTarget) -> bool {
    true
}

fn range_scanner(ip: IpAddress, start: u16, end: u16, order: ScanOrder) -> Scanner {
    let addrs = vec![ip];
    let range = PortRange { start, end };
    let strategy = PortStrategy::pick(&Some(range), None, order).unwrap();
    Scanner::new(&addrs, 10, Duration::from_millis(100), 1, true, strategy, true, vec![9000])
}

fn sorted(mut targets: Vec<SocketTarget>) -> Vec<(u16, IpAddress)> {
    targets.sort_by_key(|target| (target.port, host_text(target.ip)));
    targets.into_iter().map(|target| (target.port, target.ip)).collect()
}

#[test]
fn loopback_scan_attempts_every_port_once() {
    let localhost = IpAddress::V4(0x7f00_0001);
    let scanner = range_scanner(localhost, 1, 1_000, ScanOrder::Random);
    let trace = scan(&scanner, every_hundredth, 7);
    assert_eq!(trace.attempted.len(), 1_000);
    let expected: Vec<(u16, IpAddress)> = (1..=1_000).map(|port| (port, localhost)).collect();
    assert_eq!(sorted(trace.attempted), expected);
    assert_eq!(trace.connections, 1_000);
    assert_eq!(trace.most_in_flight, 10);
    let found: Vec<(u16, IpAddress)> = (1..=10).map(|k| (k * 100, localhost)).collect();
    assert_eq!(sorted(trace.open.clone()), found);
    for socket in trace.open {
        assert_eq!(socket.ip, localhost);
        assert!(socket.port >= 1 && socket.port <= 1_000);
        assert_ne!(socket.port, 9000);
    }
    assert_eq!(trace.distinct_errors, 1);
}

#[test]
fn ipv6_scan_attempts_every_port_once() {
    let localhost = IpAddress::V6(1);
    let scanner = range_scanner(localhost, 1, 1_000, ScanOrder::Random);
    let trace = scan(&scanner, every_hundredth, 11);
    assert_eq!(trace.attempted.len(), 1_000);
    assert_eq!(trace.open.len(), 10);
    for socket in trace.open {
        assert_eq!(socket.ip, localhost);
        assert!(socket.port >= 1 && socket.port <= 1_000);
        assert_ne!(socket.port, 9000);
    }
}

#[test]
fn quad_zero_scan_reports_no_socket_twice() {
    let scanner = range_scanner(IpAddress::V4(0), 1, 1_000, ScanOrder::Random);
    let trace = scan(&scanner, everything, 13);
    assert_eq!(trace.open.len(), 1_000);
    let mut ports: Vec<u16> = trace.open.iter().map(|socket| socket.port).collect();
    ports.sort_unstable();
    ports.dedup();
    assert_eq!(ports.len(), 1_000);
    let empty = scan(&scanner, nothing, 13);
    assert!(empty.open.is_empty());
}

#[test]
fn short_range_drains() {
    let scanner = range_scanner(IpAddress::V4(0x0808_0808), 400, 445, ScanOrder::Random);
    let trace = scan(&scanner, nothing, 17);
    assert_eq!(trace.attempted.len(), 46);
    assert_eq!(trace.most_in_flight, 10);
    assert!(trace.open.is_empty());
    let wider = range_scanner(IpAddress::V4(0x0808_0808), 400, 600, ScanOrder::Random);
    assert_eq!(scan(&wider, nothing, 17).attempted.len(), 201);
}

#[test]
fn same_configuration_gives_the_same_open_set() {
    let scanner = range_scanner(IpAddress::V4(0x7f00_0001), 1, 1_000, ScanOrder::Random);
    let first = scan(&scanner, every_hundredth, 1);
    let second = scan(&scanner, every_hundredth, 2);
    assert_eq!(sorted(first.open), sorted(second.open));
}

#[test]
fn excluded_ports_are_never_attempted() {
    let addrs = vec![IpAddress::V4(0x0a00_0001), IpAddress::V4(0x0a00_0002)];
    let range = PortRange { start: 1, end: 100 };
    let strategy = PortStrategy::pick(&Some(range), None, ScanOrder::Serial).unwrap();
    let scanner = Scanner::new(
        &addrs,
        7,
        Duration::from_millis(100),
        1,
        true,
        strategy,
        true,
        vec![22, 80, 100, 9000],
    );
    let trace = scan(&scanner, everything, 3);
    assert_eq!(trace.attempted.len(), 2 * 97);
    assert_eq!(trace.open.len(), 2 * 97);
    for socket in trace.open {
        assert!(addrs.contains(&socket.ip));
        assert!(socket.port >= 1 && socket.port <= 100);
        assert!(![22, 80, 100, 9000].contains(&socket.port));
    }
    let mut expected: Vec<SocketTarget> = Vec::new();
    for port in 1..=100 {
        if ![22, 80, 100].contains(&port) {
            expected.push(SocketTarget::new(addrs[0], port));
            expected.push(SocketTarget::new(addrs[1], port));
        }
    }
    assert_eq!(trace.attempted, expected);
}

#[test]
fn every_try_is_made_before_a_target_is_closed() {
    let addrs = vec![IpAddress::V4(0x0a00_0001)];
    let strategy = PortStrategy::pick(&None, Some(vec![80, 443, 8080]), ScanOrder::Serial).unwrap();
    let scanner =
        Scanner::new(&addrs, 2, Duration::from_millis(100), 3, true, strategy, true, Vec::new());
    let trace = scan(&scanner, nothing, 5);
    assert_eq!(trace.attempted.len(), 3);
    assert_eq!(trace.connections, 9);
    assert_eq!(trace.most_in_flight, 2);
}

#[test]
fn first_batch_spans_the_hosts() {
    let addrs = vec![
        IpAddress::V4(0x0a00_0001),
        IpAddress::V4(0x0a00_0002),
        IpAddress::V4(0x0a00_0003),
    ];
    let ports: Vec<u16> = vec![80, 443];
    let (scheduler, launches) = Scheduler::start(&addrs, &ports, 4);
    assert_eq!(
        launches,
        vec![
            Launch { slot: 0, target: SocketTarget::new(addrs[0], 80) },
            Launch { slot: 1, target: SocketTarget::new(addrs[1], 80) },
            Launch { slot: 2, target: SocketTarget::new(addrs[2], 80) },
            Launch { slot: 3, target: SocketTarget::new(addrs[0], 443) },
        ]
    );
    assert_eq!(scheduler.in_flight(), 4);
    assert_eq!(scheduler.target_in(3), Some(SocketTarget::new(addrs[0], 443)));
    assert_eq!(scheduler.target_in(4), None);
}

#[test]
fn pool_is_refilled_in_scan_order() {
    let addrs = vec![IpAddress::V4(1), IpAddress::V4(2)];
    let ports: Vec<u16> = vec![80, 443];
    let (mut scheduler, launches) = Scheduler::start(&addrs, &ports, 2);
    assert_eq!(launches.len(), 2);
    let action = scheduler.complete(1, ProbeOutcome::Open(SocketTarget::new(addrs[1], 80)));
    match action {
        Action::Launch(next) => {
            assert_eq!(next, Launch { slot: 1, target: SocketTarget::new(addrs[0], 443) })
        }
        other => panic!("unexpected action {other:?}"),
    }
    let action = scheduler.complete(1, ProbeOutcome::Open(SocketTarget::new(addrs[0], 443)));
    match action {
        Action::Launch(next) => {
            assert_eq!(next, Launch { slot: 1, target: SocketTarget::new(addrs[1], 443) })
        }
        other => panic!("unexpected action {other:?}"),
    }
    assert_eq!(scheduler.in_flight(), 2);
    let action = scheduler.complete(0, ProbeOutcome::Closed("refused 0.0.0.1".to_string()));
    assert!(matches!(action, Action::Wait));
    assert_eq!(scheduler.in_flight(), 1);
    assert!(!scheduler.is_drained());
    let action = scheduler.complete(1, ProbeOutcome::Open(SocketTarget::new(addrs[1], 443)));
    assert!(matches!(action, Action::Wait));
    assert!(scheduler.is_drained());
    assert_eq!(
        scheduler.into_open_sockets(),
        vec![
            SocketTarget::new(addrs[1], 80),
            SocketTarget::new(addrs[0], 443),
            SocketTarget::new(addrs[1], 443),
        ]
    );
}

#[test]
fn batch_larger_than_the_scan_starts_everything() {
    let addrs = vec![IpAddress::V4(1)];
    let ports: Vec<u16> = vec![80, 443];
    let (mut scheduler, launches) = Scheduler::start(&addrs, &ports, 65535);
    assert_eq!(launches.len(), 2);
    assert_eq!(scheduler.in_flight(), 2);
    assert!(matches!(
        scheduler.complete(0, ProbeOutcome::Closed("refused".to_string())),
        Action::Wait
    ));
    assert!(matches!(
        scheduler.complete(1, ProbeOutcome::Closed("refused".to_string())),
        Action::Wait
    ));
    assert!(scheduler.is_drained());
}

#[test]
fn empty_batch_starts_nothing() {
    let addrs = vec![IpAddress::V4(1)];
    let ports: Vec<u16> = vec![80, 443];
    let (scheduler, launches) = Scheduler::start(&addrs, &ports, 0);
    assert!(launches.is_empty());
    assert!(scheduler.is_drained());
    assert!(scheduler.into_open_sockets().is_empty());
}

#[test]
fn scan_without_targets_is_over_at_once() {
    let addrs: Vec<IpAddress> = Vec::new();
    let ports: Vec<u16> = vec![80, 443];
    let (scheduler, launches) = Scheduler::start(&addrs, &ports, 10);
    assert!(launches.is_empty());
    assert!(scheduler.is_drained());
}

#[test]
fn fatal_outcome_aborts_the_scan() {
    let addrs = vec![IpAddress::V4(1)];
    let ports: Vec<u16> = vec![80, 443, 8080];
    let (mut scheduler, _launches) = Scheduler::start(&addrs, &ports, 2);
    let action = scheduler.complete(
        0,
        ProbeOutcome::Fatal("Too many open files (os error 24)".to_string()),
    );
    match action {
        Action::Abort(reason) => assert_eq!(reason, "Too many open files (os error 24)"),
        other => panic!("unexpected action {other:?}"),
    }
    assert!(scheduler.is_aborted());
    assert_eq!(scheduler.in_flight(), 1);
    assert_eq!(scheduler.target_in(0), None);
    assert!(!scheduler.accepts(1, &ProbeOutcome::Closed("refused".to_string())));
    assert!(scheduler.open_sockets().is_empty());
}

#[test]
fn only_outcomes_of_probes_in_flight_are_accepted() {
    let addrs = vec![IpAddress::V4(1)];
    let ports: Vec<u16> = vec![80];
    let (mut scheduler, launches) = Scheduler::start(&addrs, &ports, 4);
    assert_eq!(launches.len(), 1);
    let held = SocketTarget::new(addrs[0], 80);
    assert!(scheduler.accepts(0, &ProbeOutcome::Open(held)));
    assert!(scheduler.accepts(0, &ProbeOutcome::Closed("refused".to_string())));
    assert!(scheduler.accepts(0, &ProbeOutcome::Fatal("too many open files".to_string())));
    assert!(!scheduler.accepts(0, &ProbeOutcome::Open(SocketTarget::new(addrs[0], 81))));
    assert!(!scheduler.accepts(1, &ProbeOutcome::Open(held)));
    assert!(!scheduler.accepts(usize::MAX, &ProbeOutcome::Closed("refused".to_string())));
    assert!(matches!(scheduler.complete(0, ProbeOutcome::Open(held)), Action::Wait));
    assert!(!scheduler.accepts(0, &ProbeOutcome::Open(held)));
}

#[test]
fn descriptions_are_kept_once_and_up_to_the_limit() {
    let addrs = vec![IpAddress::V4(1)];
    let ports: Vec<u16> = (1..=1_500).collect();
    let (mut scheduler, launches) = Scheduler::start(&addrs, &ports, 1);
    let mut pending: Option<Launch> = launches.first().copied();
    let mut reported: usize = 0;
    while let Some(launch) = pending {
        let text = if reported < 10 {
            "Connection refused (os error 111) 0.0.0.1".to_string()
        } else {
            format!("error {reported} 0.0.0.1")
        };
        reported += 1;
        pending = match scheduler.complete(launch.slot, ProbeOutcome::Closed(text)) {
            Action::Launch(next) => Some(next),
            _ => None,
        };
        let expected: usize = if reported <= 10 { 1 } else { (reported - 9).min(1_000) };
        assert_eq!(scheduler.errors().len(), expected);
    }
    assert_eq!(reported, 1_500);
    assert_eq!(scheduler.errors().len(), 1_000);
    assert!(scheduler
        .errors()
        .contains(&"Connection refused (os error 111) 0.0.0.1".to_string()));
    assert!(scheduler.errors().contains(&"error 1008 0.0.0.1".to_string()));
    assert!(!scheduler.errors().contains(&"error 1009 0.0.0.1".to_string()));
}
