use sockets_api::addr::sockaddr_in::SockAddrIn as BareSockAddrIn;
use sockets_api::addr::{IpV4Addr, IpV4AddrSvc};
use sockets_api::api::addr::safamily::SAFamily;
use sockets_api::api::addr::sockaddr_in::{self, RawSockAddrIn};
use sockets_api::api::addr::{SockAddr, SockAddrBase};

fn family(raw: &RawSockAddrIn) -> Option<SAFamily> {
    raw.sin_family
}

#[test]
fn ipv4_addr_starts_inet_and_zero() {
    let a = IpV4Addr::new();
    let raw = a.raw();
    assert_eq!(family(&raw), Some(SAFamily::AfInet));
    assert_eq!(raw.sin_port, [0, 0]);
    assert_eq!(raw.sin_addr, [0, 0, 0, 0]);
}

#[test]
fn ipv4_addr_stores_values_as_given() {
    let mut a = IpV4Addr::new();
    a.set(0x0102_0304, 9877);
    let raw = a.raw();
    assert_eq!(raw.sin_addr, 0x0102_0304u32.to_ne_bytes());
    assert_eq!(raw.sin_port, 9877u16.to_ne_bytes());
    assert_eq!(family(&raw), Some(SAFamily::AfInet));
}

#[test]
fn ipv4_addr_pton_gives_native_number() {
    assert_eq!(IpV4Addr::inet_pton("127.0.0.1"), u32::from_ne_bytes([127, 0, 0, 1]));
    let expected = if u32::from_ne_bytes([1, 0, 0, 0]) == 1 { 16777343 } else { 2130706433 };
    assert_eq!(IpV4Addr::inet_pton("127.0.0.1"), expected);
    assert_eq!(IpV4Addr::inet_pton("not an address"), 0);
}

#[test]
fn ipv4_addr_set_of_pton_stores_the_address() {
    let mut a = IpV4Addr::new();
    a.set(IpV4Addr::inet_pton("192.168.1.20"), 80);
    assert_eq!(a.raw().sin_addr, [192, 168, 1, 20]);
}

#[test]
fn ipv4_addr_ntop_pads_with_nul() {
    let s = IpV4Addr::inet_ntop(&[0, 2, 38, 149]);
    assert_eq!(s, "0.2.38.149\0\0\0\0\0");
    assert_eq!(s.chars().count(), 15);
    assert_eq!(IpV4Addr::inet_ntop(&[127, 0, 0, 1]), "127.0.0.1\0\0\0\0\0\0");
}

#[test]
fn ipv4_addr_size() {
    assert_eq!(IpV4Addr::size(), 16);
}

#[test]
fn bare_sockaddr_in_sets_family_only() {
    let mut a = BareSockAddrIn::new();
    assert_eq!(a.raw().sin_family, None);
    a.set_af(SAFamily::AfInet6);
    assert_eq!(a.raw().sin_family, Some(SAFamily::AfInet6));
}

#[test]
fn sockaddr_in_starts_empty() {
    let a = sockaddr_in::new();
    assert_eq!(a.ip(), None);
    assert_eq!(a.port(), None);
    let raw = a.raw();
    assert_eq!(family(&raw), None);
    assert_eq!(raw.sin_port, [0, 0]);
    assert_eq!(raw.sin_addr, [0, 0, 0, 0]);
    assert_eq!(a.size(), 16);
}

#[test]
fn sockaddr_in_set_with_text() {
    let mut a = sockaddr_in::new();
    a.set(SAFamily::AfInet, Some("10.0.0.7"), 80);
    assert_eq!(a.ip(), Some("10.0.0.7".to_string()));
    assert_eq!(a.port(), Some(80));
    let raw = a.raw();
    assert_eq!(family(&raw), Some(SAFamily::AfInet));
    assert_eq!(raw.sin_port, [0, 80]);
    assert_eq!(raw.sin_addr, [10, 0, 0, 7]);
}

#[test]
fn sockaddr_in_set_without_text_is_any_address() {
    let mut a = sockaddr_in::new();
    a.set(SAFamily::AfInet, Some("1.2.3.4"), 1);
    a.set(SAFamily::AfInet, None, 9877);
    assert_eq!(a.ip(), Some("*".to_string()));
    assert_eq!(a.port(), Some(9877));
    assert_eq!(a.raw().sin_port, [0x26, 0x95]);
    assert_eq!(a.raw().sin_addr, [0, 0, 0, 0]);
}

#[test]
fn sockaddr_in_set_with_bad_text_keeps_address() {
    let mut a = sockaddr_in::new();
    a.set(SAFamily::AfInet, Some("8.8.4.4"), 53);
    a.set(SAFamily::AfInet, Some("localhost"), 54);
    assert_eq!(a.ip(), Some("localhost".to_string()));
    assert_eq!(a.port(), Some(54));
    assert_eq!(a.raw().sin_addr, [8, 8, 4, 4]);
    assert_eq!(a.raw().sin_port, [0, 54]);
}

#[test]
fn sockaddr_in_family_without_text() {
    let mut a = sockaddr_in::new();
    a.set(SAFamily::AfLocal, None, 0);
    assert_eq!(family(&a.raw()), Some(SAFamily::AfLocal));
}

#[test]
fn sockaddr_in_shows_fixed_text() {
    let mut a = sockaddr_in::new();
    assert_eq!(a.to_string(), "self.ip:self.port");
    a.set(SAFamily::AfInet, Some("1.1.1.1"), 443);
    assert_eq!(a.to_string(), "self.ip:self.port");
}

#[test]
fn sockaddr_in_set_inet6_text_keeps_text_and_address() {
    let mut a = sockaddr_in::new();
    a.set(SAFamily::AfInet, Some("9.9.9.9"), 1);
    a.set(SAFamily::AfInet6, Some("1.2.3.4"), 2);
    assert_eq!(family(&a.raw()), Some(SAFamily::AfInet6));
    assert_eq!(a.ip(), Some("1.2.3.4".to_string()));
    assert_eq!(a.port(), Some(2));
    assert_eq!(a.raw().sin_port, [0, 2]);
    assert_eq!(a.raw().sin_addr, [9, 9, 9, 9]);
}
