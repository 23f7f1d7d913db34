use yoroi::addr::is_socket_addr;
use yoroi::utils::{i64_to_dec, socketaddr_to_url, u16_to_dec, u16_to_hex, IpAddress, SocketAddress};

#[test]
fn accepts_dotted_quad_with_port() {
    assert!(is_socket_addr("127.0.0.1:9100"));
    assert!(is_socket_addr("0.0.0.0:0"));
    assert!(is_socket_addr("255.255.255.255:65535"));
    assert!(is_socket_addr("93.184.216.34:443"));
}

#[test]
fn rejects_malformed_dotted_quads() {
    assert!(!is_socket_addr(""));
    assert!(!is_socket_addr("127.0.0.1"));
    assert!(!is_socket_addr("localhost:80"));
    assert!(!is_socket_addr("example.com:443"));
    assert!(!is_socket_addr("256.0.0.1:80"));
    assert!(!is_socket_addr("01.2.3.4:80"));
    assert!(!is_socket_addr("1.2.3:80"));
    assert!(!is_socket_addr("1.2.3.4.5:80"));
    assert!(!is_socket_addr("1.2.3.4:"));
    assert!(!is_socket_addr("1.2.3.4:65536"));
    assert!(!is_socket_addr("1.2.3.4:123456"));
    assert!(!is_socket_addr(":80"));
    assert!(!is_socket_addr("not an address"));
}

#[test]
fn accepts_bracketed_ipv6_with_port() {
    assert!(is_socket_addr("[::1]:50051"));
    assert!(is_socket_addr("[::]:80"));
    assert!(is_socket_addr("[1:2:3:4:5:6:7:8]:80"));
    assert!(is_socket_addr("[2001:db8::1]:443"));
    assert!(is_socket_addr("[fe80::]:1"));
    assert!(is_socket_addr("[abcd:ef01::CDEF]:9"));
}

#[test]
fn accepts_ipv6_with_embedded_dotted_quad() {
    assert!(is_socket_addr("[::ffff:1.2.3.4]:80"));
    assert!(is_socket_addr("[::1.2.3.4]:80"));
    assert!(is_socket_addr("[1:2:3:4:5:6:1.2.3.4]:80"));
    assert!(is_socket_addr("[1::2:1.2.3.4]:443"));
}

#[test]
fn rejects_malformed_embedded_dotted_quads() {
    assert!(!is_socket_addr("[1.2.3.4]:80"));
    assert!(!is_socket_addr("[::ffff:1.2.300.4]:80"));
    assert!(!is_socket_addr("[1:2:3:4:5:6:7:1.2.3.4]:80"));
    assert!(!is_socket_addr("[1.2.3.4::1]:80"));
    assert!(!is_socket_addr("[::ffff:1.2.3]:80"));
}

#[test]
fn rejects_malformed_ipv6_forms() {
    assert!(!is_socket_addr("[::1]"));
    assert!(!is_socket_addr("::1:50051"));
    assert!(!is_socket_addr("[1:2:3]:80"));
    assert!(!is_socket_addr("[1:2:3:4:5:6:7:8:9]:80"));
    assert!(!is_socket_addr("[1::2::3]:80"));
    assert!(!is_socket_addr("[:::1]:80"));
    assert!(!is_socket_addr("[12345::1]:80"));
    assert!(!is_socket_addr("[1:2:3:4:5:6:7:8]:"));
    assert!(!is_socket_addr("[g::1]:80"));
    assert!(!is_socket_addr("[]:80"));
}

#[test]
fn decimal_rendering_is_exact() {
    assert_eq!(u16_to_dec(0), "0");
    assert_eq!(u16_to_dec(7), "7");
    assert_eq!(u16_to_dec(9100), "9100");
    assert_eq!(u16_to_dec(65535), "65535");
    assert_eq!(i64_to_dec(0), "0");
    assert_eq!(i64_to_dec(-5), "-5");
    assert_eq!(i64_to_dec(i64::MAX), "9223372036854775807");
    assert_eq!(i64_to_dec(i64::MIN), "-9223372036854775808");
}

#[test]
fn hex_rendering_is_exact() {
    assert_eq!(u16_to_hex(0), "0");
    assert_eq!(u16_to_hex(10), "a");
    assert_eq!(u16_to_hex(255), "ff");
    assert_eq!(u16_to_hex(0x2f1), "2f1");
    assert_eq!(u16_to_hex(0xffff), "ffff");
}

#[test]
fn v4_address_renders_as_plain_url() {
    let sa = SocketAddress {
        ip: IpAddress::V4 { a: 127, b: 0, c: 0, d: 1 },
        port: 9100,
    };
    assert_eq!(socketaddr_to_url(&sa), "http://127.0.0.1:9100");
}

#[test]
fn v6_loopback_renders_as_localhost() {
    let sa = SocketAddress {
        ip: IpAddress::V6 { groups: [0, 0, 0, 0, 0, 0, 0, 1] },
        port: 50051,
    };
    assert_eq!(socketaddr_to_url(&sa), "http://localhost:50051");
}

#[test]
fn other_v6_renders_bracketed_and_compressed() {
    let sa = SocketAddress {
        ip: IpAddress::V6 { groups: [0x2001, 0xdb8, 0, 0, 0, 0, 0, 2] },
        port: 80,
    };
    assert_eq!(socketaddr_to_url(&sa), "http://[2001:db8::2]:80");

    let sa = SocketAddress { ip: IpAddress::V6 { groups: [0, 0, 0, 0, 0, 0, 0, 2] }, port: 8 };
    assert_eq!(socketaddr_to_url(&sa), "http://[::2]:8");

    let sa = SocketAddress { ip: IpAddress::V6 { groups: [0; 8] }, port: 80 };
    assert_eq!(socketaddr_to_url(&sa), "http://[::]:80");

    let sa = SocketAddress { ip: IpAddress::V6 { groups: [1, 0, 0, 0, 0, 0, 0, 0] }, port: 80 };
    assert_eq!(socketaddr_to_url(&sa), "http://[1::]:80");

    // a single zero group is not compressed
    let sa = SocketAddress {
        ip: IpAddress::V6 { groups: [1, 2, 3, 0, 5, 6, 7, 8] },
        port: 80,
    };
    assert_eq!(socketaddr_to_url(&sa), "http://[1:2:3:0:5:6:7:8]:80");

    // on a tie of run lengths the leftmost run is compressed
    let sa = SocketAddress {
        ip: IpAddress::V6 { groups: [0, 0, 1, 0, 0, 1, 2, 3] },
        port: 80,
    };
    assert_eq!(socketaddr_to_url(&sa), "http://[::1:0:0:1:2:3]:80");

    // the longer (rightmost) run wins over a shorter earlier one
    let sa = SocketAddress {
        ip: IpAddress::V6 { groups: [0, 0, 1, 0, 0, 0, 2, 3] },
        port: 80,
    };
    assert_eq!(socketaddr_to_url(&sa), "http://[0:0:1::2:3]:80");
}

#[test]
fn v4_mapped_v6_renders_in_dotted_form() {
    let sa = SocketAddress {
        ip: IpAddress::V6 { groups: [0, 0, 0, 0, 0, 0xffff, 0x102, 0x304] },
        port: 80,
    };
    assert_eq!(socketaddr_to_url(&sa), "http://[::ffff:1.2.3.4]:80");

    let sa = SocketAddress {
        ip: IpAddress::V6 { groups: [0, 0, 0, 0, 0, 0xffff, 0xc0a8, 1] },
        port: 443,
    };
    assert_eq!(socketaddr_to_url(&sa), "http://[::ffff:192.168.0.1]:443");

    let sa = SocketAddress {
        ip: IpAddress::V6 { groups: [0, 0, 0, 0, 0, 0xffff, 0, 0] },
        port: 1,
    };
    assert_eq!(socketaddr_to_url(&sa), "http://[::ffff:0.0.0.0]:1");
}

#[test]
fn rejects_hosts_with_characters_outside_the_grammar() {
    assert!(!is_socket_addr("αβ:80"));
    assert!(!is_socket_addr("[α::1]:80"));
    assert!(!is_socket_addr("1.2.3.4:8β"));
}
