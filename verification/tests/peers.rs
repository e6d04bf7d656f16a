use mindns::peers::{
    detect_listen_count, is_idle, listen_count, Inbound, PeerAddr, UdpPeer, BUFF_MAX_SIZE,
    SOCKET_BUFFER_SIZE,
};
use mindns::udp_serv::{UdpContext, UdpServer};

fn addr(last: u8, port: u16) -> PeerAddr {
    PeerAddr { v6: false, ip: 0x0A00_0000 + last as u128, port }
}

#[test]
fn sizes_of_the_buffers() {
    assert_eq!(BUFF_MAX_SIZE, 4096);
    assert_eq!(SOCKET_BUFFER_SIZE, 1784 * 10000);
}

#[test]
fn peer_hands_out_its_items_in_the_order_of_arrival() {
    let peer = UdpPeer::new(3, addr(1, 5353), 1000);
    assert_eq!(peer.get_addr(), addr(1, 5353));
    assert_eq!(peer.socket_id(), 3);
    assert_eq!(peer.get_last_recv_sec(), 1000);
    let peer = peer.push_data(vec![1]);
    let peer = peer.push_data(vec![2, 2]);
    let peer = peer.push_data_and_update_instant(vec![3, 3, 3], 1005);
    assert_eq!(peer.get_last_recv_sec(), 1005);
    let (peer, item) = peer.recv();
    assert_eq!(item, Some(Inbound::Data(vec![1])));
    let peer = peer.push_data(vec![4]);
    let (peer, item) = peer.recv();
    assert_eq!(item, Some(Inbound::Data(vec![2, 2])));
    let (peer, item) = peer.recv();
    assert_eq!(item, Some(Inbound::Data(vec![3, 3, 3])));
    let (peer, item) = peer.recv();
    assert_eq!(item, Some(Inbound::Data(vec![4])));
    let (peer, item) = peer.recv();
    assert_eq!(item, None);
    assert_eq!(peer.get_last_recv_sec(), 1005);
}

#[test]
fn close_puts_the_notice_behind_what_waits() {
    let peer = UdpPeer::new(0, addr(1, 1), 0).push_data(vec![9]).close();
    let (peer, first) = peer.recv();
    let (peer, second) = peer.recv();
    let (_, third) = peer.recv();
    assert_eq!(first, Some(Inbound::Data(vec![9])));
    assert_eq!(second, Some(Inbound::TimedOut));
    assert_eq!(third, None);
}

#[test]
fn idle_is_more_than_the_timeout() {
    assert!(!is_idle(100, 100, 20));
    assert!(!is_idle(100, 120, 20));
    assert!(is_idle(100, 121, 20));
    assert!(is_idle(100, 122, 20));
    assert!(!is_idle(100, 50, 20));
    assert!(is_idle(i64::MIN, i64::MAX, u64::MAX >> 1));
    assert!(!is_idle(i64::MAX, i64::MIN, 0));
    assert!(is_idle(0, 1, 0));
}

#[test]
fn first_datagram_of_an_address_makes_a_peer() {
    let mut context = UdpContext::new(2);
    assert_eq!(context.id(), 2);
    assert_eq!(context.len(), 0);
    assert!(context.on_datagram_at(addr(1, 1000), &[1], 50, true));
    assert!(!context.on_datagram_at(addr(1, 1000), &[2], 51, true));
    assert!(context.on_datagram_at(addr(1, 1001), &[3], 52, true));
    assert!(context.on_datagram_at(addr(2, 1000), &[4], 53, true));
    assert_eq!(context.len(), 3);
    assert!(context.contains(addr(1, 1000)));
    assert!(!context.contains(addr(3, 1000)));
    let v6 = PeerAddr { v6: true, ..addr(1, 1000) };
    assert!(!context.contains(v6));
}

#[test]
fn two_queries_of_one_peer_are_handed_out_in_request_order() {
    let mut context = UdpContext::new(0);
    let remote = addr(7, 4000);
    let other = addr(8, 4000);
    context.on_datagram_at(remote, b"first", 10, false);
    context.on_datagram_at(other, b"foreign", 10, false);
    context.on_datagram_at(remote, b"second", 10, false);
    assert_eq!(context.recv(remote), Some(Inbound::Data(b"first".to_vec())));
    assert_eq!(context.recv(remote), Some(Inbound::Data(b"second".to_vec())));
    assert_eq!(context.recv(remote), None);
    assert_eq!(context.recv(other), Some(Inbound::Data(b"foreign".to_vec())));
    assert_eq!(context.recv(addr(9, 1)), None);
}

#[test]
fn idle_check_closes_peers_after_the_timeout() {
    let mut context = UdpContext::new(0);
    let quiet = addr(1, 1);
    let busy = addr(2, 2);
    context.on_datagram_at(quiet, &[1], 100, true);
    context.on_datagram_at(busy, &[2], 100, true);
    assert_eq!(context.check_idle_at(120, 20), 0);
    context.on_datagram_at(busy, &[3], 120, true);
    // One second after the timeout ran out the quiet peer is closed.
    assert_eq!(context.check_idle_at(121, 20), 1);
    assert_eq!(context.recv(quiet), Some(Inbound::Data(vec![1])));
    assert_eq!(context.recv(quiet), Some(Inbound::TimedOut));
    assert_eq!(context.recv(quiet), None);
    assert_eq!(context.recv(busy), Some(Inbound::Data(vec![2])));
    assert_eq!(context.recv(busy), Some(Inbound::Data(vec![3])));
    assert_eq!(context.recv(busy), None);
    // The handler of the quiet peer is done, and the peer is taken away.
    assert!(context.remove(quiet));
    assert!(!context.remove(quiet));
    assert_eq!(context.len(), 1);
    assert_eq!(context.check_idle_at(141, 20), 1);
    assert_eq!(context.recv(busy), Some(Inbound::TimedOut));
}

#[test]
fn without_tracking_the_first_second_stays() {
    let mut context = UdpContext::new(0);
    let remote = addr(1, 1);
    context.on_datagram_at(remote, &[1], 100, false);
    context.on_datagram_at(remote, &[2], 500, false);
    assert_eq!(context.check_idle_at(121, 20), 1);
}

#[test]
fn peer_that_comes_back_after_removal_is_new() {
    let mut context = UdpContext::new(0);
    let remote = addr(1, 1);
    assert!(context.on_datagram_at(remote, &[1], 1, true));
    assert!(context.remove(remote));
    assert!(context.on_datagram_at(remote, &[2], 2, true));
    assert_eq!(context.recv(remote), Some(Inbound::Data(vec![2])));
}

#[test]
fn datagram_by_the_clock_is_stamped_with_a_time_of_this_century() {
    let mut context = UdpContext::new(0);
    let remote = addr(1, 1);
    assert!(context.on_datagram(remote, &[1], true));
    // The clock is far past the year 2001, so no check before that finds idleness,
    // and one a minute into the future with a timeout of zero does.
    assert_eq!(context.check_idle_at(1_000_000_000, 0), 0);
    assert_eq!(context.check_idle_at(i64::MAX, 0), 1);
    assert_eq!(context.check_idle(1_000_000), 0);
    assert_eq!(context.recv(remote), Some(Inbound::Data(vec![1])));
    assert_eq!(context.recv(remote), Some(Inbound::TimedOut));
}

#[test]
fn one_socket_per_processor_where_ports_are_shared() {
    assert_eq!(listen_count(8, true), 8);
    assert_eq!(listen_count(8, false), 1);
    assert_eq!(listen_count(1, true), 1);
    assert_eq!(detect_listen_count(false), 1);
    assert!(detect_listen_count(true) >= 1);
}

#[test]
fn server_plan_numbers_its_contexts_from_zero() {
    let server = UdpServer::new(4, true);
    assert_eq!(server.sockets, 4);
    assert_eq!(server.clean_sec, None);
    assert!(!server.need_check_timeout());
    let server = server.set_peer_timeout_sec(20);
    assert_eq!(server.clean_sec, Some(20));
    assert_eq!(server.sockets, 4);
    assert!(server.need_check_timeout());
    let contexts = server.contexts();
    assert_eq!(contexts.len(), 4);
    for (i, context) in contexts.iter().enumerate() {
        assert_eq!(context.id(), i);
        assert_eq!(context.len(), 0);
    }
    assert_eq!(UdpServer::new(16, false).sockets, 1);
}
