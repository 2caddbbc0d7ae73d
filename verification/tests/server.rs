use std::rc::Rc;

use sockets_api::api::addr::safamily::SAFamily;
use sockets_api::api::addr::SockAddrBase;
use sockets_api::api::fd::socket_fd::{accept_outcome, bind_outcome, listen_outcome, new_socket_outcome};
use sockets_api::api::fd::{Fd, FdSet};
use sockets_api::server::mux::{IoMuxServer, MuxAction, MuxEvent, StopReason, BACKLOG, PORT};

fn fd(n: i32) -> Rc<Fd> {
    new_socket_outcome(n).ok().unwrap()
}

fn ready(fds: &[i32]) -> FdSet {
    let mut s = FdSet::new();
    for &f in fds {
        s.insert(f);
    }
    s
}

fn listening_server() -> IoMuxServer {
    let mut srv = IoMuxServer::new(fd(3));
    assert!(matches!(srv.step(MuxEvent::Launch), MuxAction::Bind(3)));
    assert!(matches!(srv.step(MuxEvent::Bound(Ok(()))), MuxAction::Listen(3, BACKLOG)));
    assert!(matches!(srv.step(MuxEvent::Listened(Ok(()))), MuxAction::Select(4)));
    srv
}

fn accept_client(srv: &mut IoMuxServer, n: i32) -> MuxAction {
    assert!(matches!(srv.step(MuxEvent::Selected(1, ready(&[3]))), MuxAction::Accept(3)));
    let (conn, cli) = accept_outcome(n, &[2, 0, 0, 1]).ok().unwrap();
    srv.step(MuxEvent::Accepted(Ok((conn, cli))))
}

#[test]
fn server_listens_on_any_address() {
    let srv = IoMuxServer::new(fd(3));
    let addr = srv.addr();
    assert_eq!(addr.ip(), Some("*".to_string()));
    assert_eq!(addr.port(), Some(PORT));
    assert_eq!(addr.raw().sin_family, Some(SAFamily::AfInet));
    assert_eq!(addr.raw().sin_port, PORT.to_be_bytes());
    assert_eq!(addr.raw().sin_addr, [0, 0, 0, 0]);
    assert!(!srv.is_stopped());
}

#[test]
fn server_starts_by_watching_listener() {
    let srv = listening_server();
    let rs = srv.read_set();
    assert!(rs.contains(3));
    assert!(!rs.contains(4));
    assert_eq!(rs.max(), 4);
}

#[test]
fn server_accepts_then_selects_again() {
    let mut srv = listening_server();
    let act = accept_client(&mut srv, 5);
    assert!(matches!(act, MuxAction::Select(6)));
    assert!(srv.read_set().contains(3) && srv.read_set().contains(5));
}

#[test]
fn server_echoes_what_a_client_sent() {
    let mut srv = listening_server();
    accept_client(&mut srv, 5);
    assert!(matches!(srv.step(MuxEvent::Selected(1, ready(&[5]))), MuxAction::Read(5)));
    match srv.step(MuxEvent::Received(Some("hello\n".to_string()))) {
        MuxAction::Write(5, msg) => assert_eq!(msg, "hello\n"),
        _ => panic!("expected a write"),
    }
    assert!(matches!(srv.step(MuxEvent::Done), MuxAction::Select(6)));
}

#[test]
fn server_closes_a_client_that_left() {
    let mut srv = listening_server();
    accept_client(&mut srv, 5);
    assert!(matches!(srv.step(MuxEvent::Selected(1, ready(&[5]))), MuxAction::Read(5)));
    assert!(matches!(srv.step(MuxEvent::Received(None)), MuxAction::Close(5)));
    assert!(matches!(srv.step(MuxEvent::Done), MuxAction::Select(6)));
    // The closed descriptor stays watched.
    assert!(srv.read_set().contains(5));
    // Nothing more is read from it.
    assert!(matches!(srv.step(MuxEvent::Selected(1, ready(&[5]))), MuxAction::Select(6)));
}

#[test]
fn server_serves_ready_clients_in_turn() {
    let mut srv = listening_server();
    assert!(matches!(accept_client(&mut srv, 5), MuxAction::Select(6)));
    assert!(matches!(accept_client(&mut srv, 6), MuxAction::Select(7)));
    assert!(matches!(accept_client(&mut srv, 7), MuxAction::Select(8)));
    assert!(matches!(srv.step(MuxEvent::Selected(2, ready(&[5, 7]))), MuxAction::Read(5)));
    assert!(matches!(srv.step(MuxEvent::Received(Some("a".to_string()))), MuxAction::Write(5, _)));
    assert!(matches!(srv.step(MuxEvent::Done), MuxAction::Read(7)));
    assert!(matches!(srv.step(MuxEvent::Received(Some("b".to_string()))), MuxAction::Write(7, _)));
    assert!(matches!(srv.step(MuxEvent::Done), MuxAction::Select(8)));
}

#[test]
fn server_reads_new_client_in_same_round() {
    let mut srv = listening_server();
    accept_client(&mut srv, 5);
    // The listener and the client are readable: accept first, then read.
    assert!(matches!(srv.step(MuxEvent::Selected(2, ready(&[3, 5]))), MuxAction::Accept(3)));
    let (conn, cli) = accept_outcome(6, &[2, 0, 0, 2]).ok().unwrap();
    assert!(matches!(srv.step(MuxEvent::Accepted(Ok((conn, cli)))), MuxAction::Read(5)));
}

#[test]
fn server_stops_when_bind_fails() {
    let mut srv = IoMuxServer::new(fd(3));
    srv.step(MuxEvent::Launch);
    match srv.step(MuxEvent::Bound(bind_outcome(-1))) {
        MuxAction::Stop(StopReason::Failed(m)) => assert_eq!(m, "Failed to bind the socket."),
        _ => panic!("expected a stop"),
    }
    assert!(srv.is_stopped());
}

#[test]
fn server_stops_when_listen_fails() {
    let mut srv = IoMuxServer::new(fd(3));
    srv.step(MuxEvent::Launch);
    srv.step(MuxEvent::Bound(Ok(())));
    match srv.step(MuxEvent::Listened(listen_outcome(-1))) {
        MuxAction::Stop(StopReason::Failed(m)) => assert_eq!(m, "Failed to make the socket listen."),
        _ => panic!("expected a stop"),
    }
}

#[test]
fn server_stops_when_select_fails() {
    let mut srv = listening_server();
    assert!(matches!(srv.step(MuxEvent::Selected(-1, FdSet::new())), MuxAction::Stop(StopReason::SelectFailed)));
    assert!(srv.is_stopped());
}

#[test]
fn server_stops_when_accept_fails() {
    let mut srv = listening_server();
    assert!(matches!(srv.step(MuxEvent::Selected(1, ready(&[3]))), MuxAction::Accept(3)));
    let res = accept_outcome(-1, &[0, 0, 0, 0]).map(|(f, a)| (f, a));
    match srv.step(MuxEvent::Accepted(res)) {
        MuxAction::Stop(StopReason::Failed(m)) => assert_eq!(m, "Failed to accept."),
        _ => panic!("expected a stop"),
    }
}

#[test]
fn server_stops_on_descriptor_out_of_range() {
    let mut srv = listening_server();
    assert!(matches!(srv.step(MuxEvent::Selected(1, ready(&[3]))), MuxAction::Accept(3)));
    let (conn, cli) = accept_outcome(FD_OUT, &[2, 0, 0, 1]).ok().unwrap();
    assert!(matches!(srv.step(MuxEvent::Accepted(Ok((conn, cli)))), MuxAction::Stop(StopReason::FdOutOfRange(FD_OUT))));
}

const FD_OUT: i32 = 1024;

#[test]
fn server_stops_when_listener_out_of_range() {
    let mut srv = IoMuxServer::new(fd(4096));
    srv.step(MuxEvent::Launch);
    srv.step(MuxEvent::Bound(Ok(())));
    assert!(matches!(srv.step(MuxEvent::Listened(Ok(()))), MuxAction::Stop(StopReason::FdOutOfRange(4096))));
}

#[test]
fn server_quiet_round_keeps_client_order() {
    let mut srv = listening_server();
    accept_client(&mut srv, 5);
    accept_client(&mut srv, 6);
    accept_client(&mut srv, 7);
    assert!(matches!(srv.step(MuxEvent::Selected(0, ready(&[]))), MuxAction::Select(8)));
    assert!(matches!(srv.step(MuxEvent::Selected(2, ready(&[7, 5]))), MuxAction::Read(5)));
    assert!(matches!(srv.step(MuxEvent::Received(Some("x".to_string()))), MuxAction::Write(5, _)));
    assert!(matches!(srv.step(MuxEvent::Done), MuxAction::Read(7)));
}
