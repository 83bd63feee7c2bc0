use neohtop::ports::{collect_ports_by_pid, should_index_socket, Protocol, SocketEntry, SocketState};
use std::collections::HashMap;

#[test]
fn skips_unspecified_port() {
    assert!(!should_index_socket(Protocol::TCP, SocketState::Listen, 0));
    assert!(!should_index_socket(Protocol::UDP, SocketState::Unknown, 0));
}

#[test]
fn indexes_tcp_listen_only() {
    assert!(should_index_socket(
        Protocol::TCP,
        SocketState::Listen,
        3000
    ));
    assert!(!should_index_socket(
        Protocol::TCP,
        SocketState::Established,
        3000
    ));
}

#[test]
fn indexes_udp_with_real_port() {
    assert!(should_index_socket(Protocol::UDP, SocketState::Unknown, 53));
}

fn socket(pid: u32, port: u16, protocol: Protocol, state: SocketState) -> SocketEntry {
    SocketEntry { pid, port, protocol, state }
}

#[test]
fn ports_are_grouped_sorted_and_unique() {
    let sockets = vec![
        socket(10, 8080, Protocol::TCP, SocketState::Listen),
        socket(10, 443, Protocol::TCP, SocketState::Listen),
        socket(10, 8080, Protocol::TCP, SocketState::Listen),
        socket(10, 5353, Protocol::UDP, SocketState::Unknown),
        socket(10, 9000, Protocol::TCP, SocketState::Established),
        socket(20, 0, Protocol::UDP, SocketState::Unknown),
        socket(30, 22, Protocol::TCP, SocketState::TimeWait),
        socket(40, 53, Protocol::UDP, SocketState::Unknown),
    ];
    let expected = HashMap::from([(10u32, vec![443u16, 5353, 8080]), (40, vec![53])]);
    assert_eq!(collect_ports_by_pid(&sockets), expected);
    assert!(collect_ports_by_pid(&Vec::new()).is_empty());
}
