//! Address values and URL formatting. A socket address is modeled as
//! plain numeric fields (an IPv4 dotted quad or eight IPv6 groups, plus a
//! port); `socketaddr_to_url` renders the base URL the gateway's
//! collaborators dial, mapping the IPv6 loopback to `localhost`. Any
//! other IPv6 host is rendered as the standard text form: an IPv4-mapped
//! address as `::ffff:a.b.c.d`, and otherwise lowercase hex groups
//! without leading zeros, with the longest run of two or more zero
//! groups (leftmost on a tie) compressed to `::`.

use vstd::prelude::*;
use vstd::string::StringExecFns;

verus! {

/// An IP address as plain values.
pub enum IpAddress {
    V4 { a: u8, b: u8, c: u8, d: u8 },
    V6 { groups: [u16; 8] },
}

/// A socket address as plain values.
pub struct SocketAddress {
    pub ip: IpAddress,
    pub port: u16,
}

/// The character of one decimal digit.
pub open spec fn digit_char(d: int) -> char {
    if d == 0 {
        '0'
    } else if d == 1 {
        '1'
    } else if d == 2 {
        '2'
    } else if d == 3 {
        '3'
    } else if d == 4 {
        '4'
    } else if d == 5 {
        '5'
    } else if d == 6 {
        '6'
    } else if d == 7 {
        '7'
    } else if d == 8 {
        '8'
    } else {
        '9'
    }
}

/// The character of one hex digit (lowercase).
pub open spec fn hex_char(d: int) -> char {
    if d < 10 {
        digit_char(d)
    } else if d == 10 {
        'a'
    } else if d == 11 {
        'b'
    } else if d == 12 {
        'c'
    } else if d == 13 {
        'd'
    } else if d == 14 {
        'e'
    } else {
        'f'
    }
}

/// Decimal digits of a positive number (empty for zero and below).
pub open spec fn dec_str_rec(n: int) -> Seq<char>
    decreases n,
{
    if n <= 0 {
        Seq::empty()
    } else {
        dec_str_rec(n / 10).push(digit_char(n % 10))
    }
}

/// Decimal rendering of a non-negative number.
pub open spec fn dec_str(n: int) -> Seq<char> {
    if n == 0 {
        seq!['0']
    } else {
        dec_str_rec(n)
    }
}

/// Hex digits of a positive number (empty for zero and below).
pub open spec fn hex_str_rec(n: int) -> Seq<char>
    decreases n,
{
    if n <= 0 {
        Seq::empty()
    } else {
        hex_str_rec(n / 16).push(hex_char(n % 16))
    }
}

/// Hex rendering of a non-negative number, lowercase, no leading zeros.
pub open spec fn hex_str(n: int) -> Seq<char> {
    if n == 0 {
        seq!['0']
    } else {
        hex_str_rec(n)
    }
}

/// The IPv6 loopback: seven zero groups then one.
pub open spec fn is_v6_loopback(g: Seq<u16>) -> bool {
    &&& g.len() == 8
    &&& g[0] == 0 && g[1] == 0 && g[2] == 0 && g[3] == 0
    &&& g[4] == 0 && g[5] == 0 && g[6] == 0 && g[7] == 1
}

/// Length of the run of zero groups starting at `i`.
pub open spec fn zero_run_at(g: Seq<u16>, i: int) -> int
    decreases g.len() - i,
{
    if 0 <= i < g.len() && g[i] == 0 {
        1 + zero_run_at(g, i + 1)
    } else {
        0
    }
}

/// The leftmost longest run of zero groups at or after `i`: its start
/// and its length (length zero when there is none).
pub open spec fn best_zero_run(g: Seq<u16>, i: int) -> (int, int)
    decreases g.len() - i,
{
    if i < 0 || i >= g.len() {
        (0, 0)
    } else {
        let r = zero_run_at(g, i);
        let rest = best_zero_run(g, i + 1);
        if r >= rest.1 {
            (i, r)
        } else {
            rest
        }
    }
}

/// The groups `g[from..to]` in hex, joined by colons.
pub open spec fn groups_str(g: Seq<u16>, from: int, to: int) -> Seq<char>
    decreases to - from,
{
    if from >= to {
        Seq::empty()
    } else if from + 1 == to {
        hex_str(g[from] as int)
    } else {
        hex_str(g[from] as int) + seq![':'] + groups_str(g, from + 1, to)
    }
}

/// An IPv4-mapped address: five zero groups, then `ffff`, then the four
/// bytes of an IPv4 address in the last two groups.
pub open spec fn is_v4_mapped(g: Seq<u16>) -> bool {
    &&& g.len() == 8
    &&& g[0] == 0 && g[1] == 0 && g[2] == 0 && g[3] == 0 && g[4] == 0
    &&& g[5] == 0xffff
}

/// An IPv6 host as the standard text form renders it: an IPv4-mapped
/// address as `::ffff:a.b.c.d`; otherwise hex groups without leading
/// zeros, the longest run of two or more zero groups (leftmost on a tie)
/// compressed to `::`.
pub open spec fn v6_host_str(g: Seq<u16>) -> Seq<char> {
    if is_v4_mapped(g) {
        "::ffff:"@ + dec_str(g[6] as int / 256) + seq!['.'] + dec_str(g[6] as int % 256)
            + seq!['.'] + dec_str(g[7] as int / 256) + seq!['.'] + dec_str(g[7] as int % 256)
    } else {
        let (s, l) = best_zero_run(g, 0);
        if l >= 2 {
            groups_str(g, 0, s) + seq![':', ':'] + groups_str(g, s + l, g.len() as int)
        } else {
            groups_str(g, 0, g.len() as int)
        }
    }
}

/// The base URL a socket address denotes.
pub open spec fn url_of(sa: SocketAddress) -> Seq<char> {
    match sa.ip {
        IpAddress::V4 { a, b, c, d } => "http://"@ + dec_str(a as int) + seq!['.'] + dec_str(
            b as int,
        ) + seq!['.'] + dec_str(c as int) + seq!['.'] + dec_str(d as int) + seq![':'] + dec_str(
            sa.port as int,
        ),
        IpAddress::V6 { groups } => {
            if is_v6_loopback(groups@) {
                "http://localhost:"@ + dec_str(sa.port as int)
            } else {
                "http://["@ + v6_host_str(groups@) + "]:"@ + dec_str(sa.port as int)
            }
        },
    }
}

/// One decimal digit as a string slice.
fn digit_str(d: u16) -> (r: &'static str)
    requires
        d < 10,
    ensures
        r@ == seq![digit_char(d as int)],
{
    proof {
        reveal_strlit("0");
        reveal_strlit("1");
        reveal_strlit("2");
        reveal_strlit("3");
        reveal_strlit("4");
        reveal_strlit("5");
        reveal_strlit("6");
        reveal_strlit("7");
        reveal_strlit("8");
        reveal_strlit("9");
        assert("0"@ =~= seq![digit_char(0)]);
        assert("1"@ =~= seq![digit_char(1)]);
        assert("2"@ =~= seq![digit_char(2)]);
        assert("3"@ =~= seq![digit_char(3)]);
        assert("4"@ =~= seq![digit_char(4)]);
        assert("5"@ =~= seq![digit_char(5)]);
        assert("6"@ =~= seq![digit_char(6)]);
        assert("7"@ =~= seq![digit_char(7)]);
        assert("8"@ =~= seq![digit_char(8)]);
        assert("9"@ =~= seq![digit_char(9)]);
    }
    match d {
        0 => "0",
        1 => "1",
        2 => "2",
        3 => "3",
        4 => "4",
        5 => "5",
        6 => "6",
        7 => "7",
        8 => "8",
        _ => "9",
    }
}

/// One hex digit as a string slice.
fn hex_digit_str(d: u16) -> (r: &'static str)
    requires
        d < 16,
    ensures
        r@ == seq![hex_char(d as int)],
{
    if d < 10 {
        digit_str(d)
    } else {
        proof {
            reveal_strlit("a");
            reveal_strlit("b");
            reveal_strlit("c");
            reveal_strlit("d");
            reveal_strlit("e");
            reveal_strlit("f");
            assert("a"@ =~= seq![hex_char(10)]);
            assert("b"@ =~= seq![hex_char(11)]);
            assert("c"@ =~= seq![hex_char(12)]);
            assert("d"@ =~= seq![hex_char(13)]);
            assert("e"@ =~= seq![hex_char(14)]);
            assert("f"@ =~= seq![hex_char(15)]);
        }
        match d {
            10 => "a",
            11 => "b",
            12 => "c",
            13 => "d",
            14 => "e",
            _ => "f",
        }
    }
}

fn dec_rec(x: u64) -> (r: String)
    requires
        x > 0,
    ensures
        r@ == dec_str_rec(x as int),
    decreases x,
{
    let d = (x % 10) as u16;
    let q = x / 10;
    if q == 0 {
        let r = digit_str(d).to_owned();
        proof {
            assert(dec_str_rec(0) == Seq::<char>::empty());
            assert(dec_str_rec(x as int) =~= seq![digit_char(d as int)]);
        }
        r
    } else {
        let mut s = dec_rec(q);
        s.append(digit_str(d));
        proof {
            assert(dec_str_rec(x as int) =~= dec_str_rec(q as int) + seq![digit_char(d as int)]);
        }
        s
    }
}

/// Decimal rendering of a 64-bit number.
pub fn u64_to_dec(x: u64) -> (r: String)
    ensures
        r@ == dec_str(x as int),
{
    if x == 0 {
        let r = "0".to_owned();
        proof {
            reveal_strlit("0");
            assert("0"@ =~= seq!['0']);
        }
        r
    } else {
        dec_rec(x)
    }
}

/// Decimal rendering of a 16-bit number.
pub fn u16_to_dec(x: u16) -> (r: String)
    ensures
        r@ == dec_str(x as int),
{
    u64_to_dec(x as u64)
}

/// Decimal rendering of a signed number: a minus sign before the
/// magnitude when negative.
pub open spec fn int_dec_str(n: int) -> Seq<char> {
    if n < 0 {
        seq!['-'] + dec_str(-n)
    } else {
        dec_str(n)
    }
}

/// Decimal rendering of a signed 64-bit number.
pub fn i64_to_dec(x: i64) -> (r: String)
    ensures
        r@ == int_dec_str(x as int),
{
    if x >= 0 {
        u64_to_dec(x as u64)
    } else {
        let mag: u64 = ((-(x + 1)) as u64) + 1;
        proof {
            assert(mag as int == -(x as int));
        }
        let mut s = "-".to_owned();
        s.append(u64_to_dec(mag).as_str());
        proof {
            reveal_strlit("-");
            assert("-"@ =~= seq!['-']);
        }
        s
    }
}

fn hex_rec(x: u16) -> (r: String)
    requires
        x > 0,
    ensures
        r@ == hex_str_rec(x as int),
    decreases x,
{
    let d = x % 16;
    let q = x / 16;
    if q == 0 {
        let r = hex_digit_str(d).to_owned();
        proof {
            assert(hex_str_rec(0) == Seq::<char>::empty());
            assert(hex_str_rec(x as int) =~= seq![hex_char(d as int)]);
        }
        r
    } else {
        let mut s = hex_rec(q);
        s.append(hex_digit_str(d));
        proof {
            assert(hex_str_rec(x as int) =~= hex_str_rec(q as int) + seq![hex_char(d as int)]);
        }
        s
    }
}

/// Hex rendering of a 16-bit number, lowercase, no leading zeros.
pub fn u16_to_hex(x: u16) -> (r: String)
    ensures
        r@ == hex_str(x as int),
{
    if x == 0 {
        let r = "0".to_owned();
        proof {
            reveal_strlit("0");
            assert("0"@ =~= seq!['0']);
        }
        r
    } else {
        hex_rec(x)
    }
}

fn zero_run_from(g: &[u16; 8], i: usize) -> (r: usize)
    requires
        i <= 8,
    ensures
        r == zero_run_at(g@, i as int),
        i + r <= 8,
    decreases 8 - i,
{
    if i < 8 && g[i] == 0 {
        1 + zero_run_from(g, i + 1)
    } else {
        0
    }
}

fn best_run_from(g: &[u16; 8], i: usize) -> (r: (usize, usize))
    requires
        i <= 8,
    ensures
        (r.0 as int, r.1 as int) == best_zero_run(g@, i as int),
        r.0 + r.1 <= 8,
    decreases 8 - i,
{
    if i >= 8 {
        (0, 0)
    } else {
        let run = zero_run_from(g, i);
        let rest = best_run_from(g, i + 1);
        if run >= rest.1 {
            (i, run)
        } else {
            rest
        }
    }
}

fn groups_join(g: &[u16; 8], from: usize, to: usize) -> (r: String)
    requires
        from <= to <= 8,
    ensures
        r@ == groups_str(g@, from as int, to as int),
    decreases to - from,
{
    if from >= to {
        let r = String::new();
        r
    } else if from + 1 == to {
        u16_to_hex(g[from])
    } else {
        let mut s = u16_to_hex(g[from]);
        s.append(":");
        let rest = groups_join(g, from + 1, to);
        s.append(rest.as_str());
        proof {
            reveal_strlit(":");
            assert(":"@ =~= seq![':']);
        }
        s
    }
}

/// Render an IPv6 host in the standard text form.
fn v6_host(g: &[u16; 8]) -> (r: String)
    ensures
        r@ == v6_host_str(g@),
{
    let mapped = g[0] == 0 && g[1] == 0 && g[2] == 0 && g[3] == 0 && g[4] == 0 && g[5] == 0xffff;
    if mapped {
        let mut s = "::ffff:".to_owned();
        s.append(u16_to_dec(g[6] / 256).as_str());
        s.append(".");
        s.append(u16_to_dec(g[6] % 256).as_str());
        s.append(".");
        s.append(u16_to_dec(g[7] / 256).as_str());
        s.append(".");
        s.append(u16_to_dec(g[7] % 256).as_str());
        proof {
            reveal_strlit(".");
            assert("."@ =~= seq!['.']);
        }
        return s;
    }
    let (start, len) = best_run_from(g, 0);
    if len >= 2 {
        let mut s = groups_join(g, 0, start);
        s.append("::");
        let tail = groups_join(g, start + len, 8);
        s.append(tail.as_str());
        proof {
            reveal_strlit("::");
            assert("::"@ =~= seq![':', ':']);
        }
        s
    } else {
        groups_join(g, 0, 8)
    }
}

/// Render the base URL of an address: `http://a.b.c.d:port` for IPv4,
/// `http://localhost:port` for the IPv6 loopback, and
/// `http://[groups]:port` otherwise.
pub fn socketaddr_to_url(addr: &SocketAddress) -> (r: String)
    ensures
        r@ == url_of(*addr),
{
    let port_s = u16_to_dec(addr.port);
    match &addr.ip {
        IpAddress::V4 { a, b, c, d } => {
            let mut s = "http://".to_owned();
            s.append(u16_to_dec(*a as u16).as_str());
            s.append(".");
            s.append(u16_to_dec(*b as u16).as_str());
            s.append(".");
            s.append(u16_to_dec(*c as u16).as_str());
            s.append(".");
            s.append(u16_to_dec(*d as u16).as_str());
            s.append(":");
            s.append(port_s.as_str());
            proof {
                reveal_strlit(".");
                reveal_strlit(":");
                assert("."@ =~= seq!['.']);
                assert(":"@ =~= seq![':']);
            }
            s
        },
        IpAddress::V6 { groups } => {
            let lb = groups[0] == 0 && groups[1] == 0 && groups[2] == 0 && groups[3] == 0
                && groups[4] == 0 && groups[5] == 0 && groups[6] == 0 && groups[7] == 1;
            if lb {
                let mut s = "http://localhost:".to_owned();
                s.append(port_s.as_str());
                s
            } else {
                let mut s = "http://[".to_owned();
                let host = v6_host(groups);
                s.append(host.as_str());
                s.append("]:");
                s.append(port_s.as_str());
                s
            }
        },
    }
}

} // verus!
