use sockets_api::api::fd::io_fd::{read_message, MAXLINE};
use sockets_api::api::fd::socket_fd::{accept_outcome, bind_outcome, listen_outcome, new_socket_outcome};
use sockets_api::api::fd::{FdSet, FdWrapper, FD_SETSIZE};
use sockets_api::api::addr::safamily::SAFamily;
use sockets_api::api::addr::SockAddrBase;
use sockets_api::api::sock::{Socket, State};

fn socket_on(fd: i32) -> Box<Socket> {
    Socket::new(new_socket_outcome(fd).ok().unwrap())
}

#[test]
fn fd_set_starts_empty() {
    let s = FdSet::new();
    assert_eq!(s.max(), 0);
    for fd in 0..FD_SETSIZE {
        assert!(!s.contains(fd));
    }
}

#[test]
fn fd_set_set_raises_bound() {
    let mut s = FdSet::new();
    let a = socket_on(5);
    let b = socket_on(3);
    s.set(a.as_ref());
    assert!(s.is_set(a.as_ref()));
    assert!(!s.is_set(b.as_ref()));
    assert_eq!(s.max(), 6);
    s.set(b.as_ref());
    assert!(s.is_set(b.as_ref()));
    assert_eq!(s.max(), 6);
    assert!(s.contains(3) && s.contains(5) && !s.contains(4));
}

#[test]
fn fd_set_edges_of_range() {
    let mut s = FdSet::new();
    s.set(socket_on(0).as_ref());
    assert_eq!(s.max(), 1);
    s.set(socket_on(1023).as_ref());
    assert_eq!(s.max(), 1024);
    assert!(s.contains(0) && s.contains(1023));
}

#[test]
fn fd_set_insert_keeps_bound() {
    let mut s = FdSet::new();
    s.insert(9);
    assert!(s.contains(9));
    assert_eq!(s.max(), 0);
}

#[test]
fn fd_set_keep_only_intersects() {
    let mut s = FdSet::new();
    s.set(socket_on(3).as_ref());
    s.set(socket_on(7).as_ref());
    let mut ready = FdSet::new();
    ready.insert(7);
    ready.insert(8);
    s.keep_only(&ready);
    assert!(!s.contains(3) && s.contains(7) && !s.contains(8));
    assert_eq!(s.max(), 8);
}

#[test]
fn fd_set_clone_is_equal() {
    let mut s = FdSet::new();
    s.set(socket_on(12).as_ref());
    let c = s.clone();
    assert!(c.contains(12) && !c.contains(11));
    assert_eq!(c.max(), 13);
}

#[test]
fn select_nfds_takes_highest_bound() {
    let mut r = FdSet::new();
    r.set(socket_on(4).as_ref());
    let mut w = FdSet::new();
    w.set(socket_on(9).as_ref());
    let e = FdSet::new();
    assert_eq!(FdSet::select_nfds(None, None, None), 0);
    assert_eq!(FdSet::select_nfds(Some(&r), None, None), 5);
    assert_eq!(FdSet::select_nfds(Some(&r), Some(&w), Some(&e)), 10);
    assert_eq!(FdSet::select_nfds(None, None, Some(&e)), 0);
    assert_eq!(FdSet::select_nfds(Some(&w), Some(&r), None), 10);
}

#[test]
fn read_message_none_when_closed() {
    let buf = [0u8; MAXLINE];
    assert_eq!(read_message(&buf, 0), None);
}

#[test]
fn read_message_drops_zero_bytes() {
    let mut buf = [0u8; MAXLINE];
    buf[..6].copy_from_slice(b"hi\0yo\n");
    assert_eq!(read_message(&buf, 6), Some("hiyo\n".to_string()));
}

#[test]
fn read_message_maps_bytes_to_chars() {
    let mut buf = [0u8; 8];
    buf[0] = 0xe9;
    buf[1] = b'a';
    assert_eq!(read_message(&buf, 2), Some("\u{e9}a".to_string()));
}

#[test]
fn read_message_on_error_count_still_reads_buffer() {
    let mut buf = [0u8; 4];
    buf[0] = b'x';
    assert_eq!(read_message(&buf, -1), Some("x".to_string()));
}

#[test]
fn socket_call_outcomes() {
    assert_eq!(new_socket_outcome(-1).err().unwrap().to_string(), "Failed to create a new socket.");
    assert_eq!(new_socket_outcome(4).ok().unwrap().raw_fd(), 4);
    assert_eq!(bind_outcome(-1).err().unwrap().to_string(), "Failed to bind the socket.");
    assert!(bind_outcome(0).is_ok());
    assert_eq!(listen_outcome(-1).err().unwrap().to_string(), "Failed to make the socket listen.");
    assert!(listen_outcome(0).is_ok());
}

#[test]
fn accept_outcome_failure() {
    assert_eq!(accept_outcome(-1, &[0, 0, 0, 0]).err().unwrap().to_string(), "Failed to accept.");
}

#[test]
fn accept_outcome_peer_from_head_bytes() {
    let (fd, cli) = accept_outcome(7, &[16, 2, 0xc3, 0x50]).ok().unwrap();
    assert_eq!(fd.raw_fd(), 7);
    assert_eq!(cli.ip(), Some("16.2.195.80".to_string()));
    assert_eq!(cli.port(), Some(0));
    let raw = cli.raw();
    assert_eq!(raw.sin_family, Some(SAFamily::AfInet));
    assert_eq!(raw.sin_addr, [16, 2, 0xc3, 0x50]);
    assert_eq!(raw.sin_port, [0, 0]);
}

#[test]
fn socket_life_bind_then_listen() {
    let s = socket_on(3);
    assert!(s.needs_bind());
    assert!(!s.needs_listen());
    let s = s.bind();
    assert!(matches!(s.current_state(), State::Bound));
    assert!(!s.needs_bind());
    assert!(s.needs_listen());
    let s = s.bind();
    assert!(matches!(s.current_state(), State::Bound));
    let s = s.listen().ok().unwrap();
    assert!(matches!(s.current_state(), State::Listen));
    let s = s.listen().ok().unwrap();
    assert!(matches!(s.current_state(), State::Listen));
    assert_eq!(s.fd().unwrap().raw_fd(), 3);
}

#[test]
fn socket_listen_before_bind_is_refused() {
    let s = socket_on(3);
    let e = s.listen().err().unwrap();
    assert_eq!(e.to_string(), "Need to bind the socket before making it listening.");
}

#[test]
fn socket_accept_makes_connection_socket() {
    let listener = socket_on(3).bind().listen().ok().unwrap();
    let (conn, cli) = accept_outcome(8, &[2, 0, 1, 1]).ok().unwrap();
    let c = listener.accept(conn, cli);
    assert_eq!(c.fd().unwrap().raw_fd(), 8);
    match c.current_state() {
        State::Accept(a) => assert_eq!(a.ip(), Some("2.0.1.1".to_string())),
        _ => panic!("not accepted"),
    }
}

#[test]
fn socket_take_and_set_fd() {
    let mut s = socket_on(6);
    let fd = s.take_fd().unwrap();
    assert!(s.fd().is_none());
    assert!(s.take_fd().is_none());
    s.set_fd(fd);
    assert_eq!(s.fd().unwrap().raw_fd(), 6);
    assert!(s.needs_bind());
}

#[test]
fn fd_set_holds_what_was_set_through_clones() {
    let mut s = FdSet::new();
    s.set(socket_on(3).as_ref());
    let mut c = s.clone();
    c.set(socket_on(7).as_ref());
    let c = c.clone();
    for fd in 0..FD_SETSIZE {
        assert_eq!(c.contains(fd), fd == 3 || fd == 7);
        assert_eq!(s.contains(fd), fd == 3);
    }
    assert!(c.is_set(socket_on(7).as_ref()));
    assert!(!c.is_set(socket_on(4).as_ref()));
    assert_eq!(c.max(), 8);
    assert_eq!(s.max(), 4);
}
