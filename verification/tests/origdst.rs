use kirblasnoop::endpoint::{Address, Endpoint};
use kirblasnoop::origdst::{
    answer, decode, decode_family, first_level, original_dst, same_endpoint, second_level, AF_INET,
    AF_INET6, SOL_IP, SOL_IPV6,
};

const V6: [u8; 16] = [0x20, 0x01, 0x0d, 0xb8, 0, 0, 0, 0, 0, 0, 0, 0, 0, 0, 0, 1];

fn v4(octets: [u8; 4], port: u16) -> Endpoint {
    Endpoint::new(Address::V4(octets), port)
}

fn v6(octets: [u8; 16], port: u16) -> Endpoint {
    Endpoint::new(Address::V6(octets), port)
}

#[test]
fn decodes_sockaddr_in() {
    let mut b = [0u8; 16];
    b[0..2].copy_from_slice(&AF_INET.to_ne_bytes());
    b[2..4].copy_from_slice(&443u16.to_be_bytes());
    b[4..8].copy_from_slice(&[192, 0, 2, 1]);
    assert_eq!(decode(&b).unwrap(), v4([192, 0, 2, 1], 443));
}

#[test]
fn decodes_sockaddr_in6() {
    let mut b = [0u8; 28];
    b[0..2].copy_from_slice(&AF_INET6.to_ne_bytes());
    b[2..4].copy_from_slice(&8883u16.to_be_bytes());
    b[8..24].copy_from_slice(&[0x20, 0x01, 0x0d, 0xb8, 0, 0, 0, 0, 0, 0, 0, 0, 0, 0, 0, 1]);
    assert_eq!(decode(&b).unwrap(), v6(V6, 8883));
}

#[test]
fn unspecified_listener_swallows_any_address_on_its_port() {
    let orig = v4([10, 0, 0, 5], 9999);
    let local = v4([0, 0, 0, 0], 9999);
    assert!(same_endpoint(&orig, &local));

    let elsewhere = v4([10, 0, 0, 5], 443);
    assert!(!same_endpoint(&elsewhere, &local));
}

#[test]
fn truncated_input_is_rejected_not_panicked() {
    assert!(decode(&[]).is_none());
    assert!(decode(&[2, 0]).is_none());
    let mut short = [0u8; 6];
    short[0..2].copy_from_slice(&AF_INET.to_ne_bytes());
    assert!(decode(&short).is_none());
}

#[test]
fn a_family_decides_where_the_octets_are() {
    let b: Vec<u8> = (0..28).collect();
    assert_eq!(
        decode_family(AF_INET, &b).unwrap(),
        v4([4, 5, 6, 7], 0x0203)
    );
    let mut octets = [0u8; 16];
    octets.copy_from_slice(&b[8..24]);
    assert_eq!(decode_family(AF_INET6, &b).unwrap(), v6(octets, 0x0203));
    assert!(decode_family(3, &b).is_none());
    assert!(decode_family(AF_INET6, &b[..23]).is_none());
}

#[test]
fn the_kernel_says_how_much_it_wrote() {
    let mut b = [0u8; 28];
    b[0..2].copy_from_slice(&AF_INET.to_ne_bytes());
    b[2..4].copy_from_slice(&80u16.to_be_bytes());
    b[4..8].copy_from_slice(&[192, 0, 2, 9]);
    assert_eq!(answer(&b, 16).unwrap(), v4([192, 0, 2, 9], 80));
    assert_eq!(answer(&b, 99).unwrap(), v4([192, 0, 2, 9], 80));
    assert!(answer(&b, 7).is_none());
}

#[test]
fn a_direct_connection_has_no_other_destination() {
    let local = v4([192, 0, 2, 7], 80);
    let other = v4([192, 0, 2, 8], 80);
    assert_eq!(first_level(&local), SOL_IP);
    assert_eq!(second_level(&local, &None), None);
    assert_eq!(original_dst(&local, Some(local), None), None);
    assert_eq!(original_dst(&local, Some(other), None), Some(other));
    assert_eq!(original_dst(&local, None, Some(other)), None);
}

#[test]
fn a_newer_socket_is_asked_at_both_levels() {
    let local = v6([0; 16], 9999);
    let other = v4([192, 0, 2, 8], 443);
    assert_eq!(first_level(&local), SOL_IPV6);
    assert_eq!(second_level(&local, &None), Some(SOL_IP));
    assert_eq!(second_level(&local, &Some(other)), None);
    assert_eq!(original_dst(&local, None, Some(other)), Some(other));
    assert_eq!(original_dst(&local, Some(v6(V6, 9999)), None), None);
    assert_eq!(original_dst(&local, None, None), None);
}

#[test]
fn loopback_is_told_from_other_addresses() {
    assert!(Address::V4([127, 8, 9, 10]).is_loopback());
    assert!(!Address::V4([128, 0, 0, 1]).is_loopback());
    let mut one = [0u8; 16];
    one[15] = 1;
    assert!(Address::V6(one).is_loopback());
    assert!(!Address::V6([0; 16]).is_loopback());
    assert!(!Address::V6(V6).is_loopback());
    assert!(Address::V6([0; 16]).is_unspecified());
    assert!(!Address::V4([0; 4]).is_same(&Address::V6([0; 16])));
}
