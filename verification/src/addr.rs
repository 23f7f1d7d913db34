//! Socket-address syntax. The gateway gates CONNECT requests on whether
//! the request's authority is a valid socket address, and validates its
//! own bind target; this module defines the address grammar at the
//! specification level and decides it executably.
//!
//! The grammar: `ipv4:port` where the host is a dotted quad of decimal
//! octets (no leading zeros), or `[ipv6]:port` where the host is hex
//! groups of one to four digits separated by `:`, either exactly eight
//! groups or at most seven groups with one `::` gap; the groups may be
//! closed by an embedded dotted quad, which counts as two groups. A port
//! is one to five decimal digits valued at most 65535. A zone identifier
//! (a `%` suffix on the host) is not part of this grammar.

use vstd::prelude::*;
use vstd::string::StrSliceExecFns;

verus! {

pub open spec fn is_dec_digit(c: char) -> bool {
    '0' <= c && c <= '9'
}

pub open spec fn is_hex_digit(c: char) -> bool {
    is_dec_digit(c) || ('a' <= c && c <= 'f') || ('A' <= c && c <= 'F')
}

pub open spec fn all_dec_digits(s: Seq<char>) -> bool {
    forall|i: int| 0 <= i < s.len() ==> is_dec_digit(#[trigger] s[i])
}

/// Value of a decimal digit string.
pub open spec fn seq_dec_val(s: Seq<char>) -> int
    decreases s.len(),
{
    if s.len() == 0 {
        0
    } else {
        10 * seq_dec_val(s.drop_last()) + (s.last() as int - '0' as int)
    }
}

pub open spec fn pow10(n: nat) -> int
    decreases n,
{
    if n == 0 {
        1
    } else {
        10 * pow10((n - 1) as nat)
    }
}

/// A port: one to five decimal digits, value at most 65535.
pub open spec fn valid_port(s: Seq<char>) -> bool {
    1 <= s.len() <= 5 && all_dec_digits(s) && seq_dec_val(s) <= 65535
}

/// A decimal octet: one to three digits, value at most 255, and no
/// leading zero.
pub open spec fn valid_dec_octet(s: Seq<char>) -> bool {
    &&& 1 <= s.len() <= 3
    &&& all_dec_digits(s)
    &&& seq_dec_val(s) <= 255
    &&& (s[0] == '0' ==> s.len() == 1)
}

/// A dotted quad: four decimal octets separated by single dots.
pub open spec fn valid_ipv4(s: Seq<char>) -> bool {
    exists|i: int, j: int, k: int|
        {
            &&& 0 < i < j < k < s.len()
            &&& #[trigger] s[i] == '.' && #[trigger] s[j] == '.' && #[trigger] s[k] == '.'
            &&& valid_dec_octet(s.subrange(0, i))
            &&& valid_dec_octet(s.subrange(i + 1, j))
            &&& valid_dec_octet(s.subrange(j + 1, k))
            &&& valid_dec_octet(s.subrange(k + 1, s.len() as int))
        }
}

/// A hex group: one to four hex digits.
pub open spec fn valid_hex_group(s: Seq<char>) -> bool {
    1 <= s.len() <= 4 && forall|i: int| 0 <= i < s.len() ==> is_hex_digit(#[trigger] s[i])
}

/// Exactly `n` hex groups separated by single colons.
pub open spec fn valid_group_list(s: Seq<char>, n: int) -> bool
    decreases s.len(),
{
    if n <= 0 {
        false
    } else if n == 1 {
        valid_hex_group(s)
    } else {
        exists|i: int|
            {
                &&& 0 < i < s.len()
                &&& #[trigger] s[i] == ':'
                &&& valid_hex_group(s.subrange(0, i))
                &&& valid_group_list(s.subrange(i + 1, s.len() as int), n - 1)
            }
    }
}

/// Hex groups closed by an embedded dotted quad: `n` groups in all, the
/// quad counting as two.
pub open spec fn valid_group_list_v4(s: Seq<char>, n: int) -> bool
    decreases s.len(),
{
    if n < 2 {
        false
    } else if n == 2 {
        valid_ipv4(s)
    } else {
        exists|i: int|
            {
                &&& 0 < i < s.len()
                &&& #[trigger] s[i] == ':'
                &&& valid_hex_group(s.subrange(0, i))
                &&& valid_group_list_v4(s.subrange(i + 1, s.len() as int), n - 1)
            }
    }
}

/// What may stand right of a `::` gap: plain hex groups, or hex groups
/// closed by an embedded dotted quad.
pub open spec fn right_side_groups(right: Seq<char>, n: int) -> bool {
    valid_group_list(right, n) || valid_group_list_v4(right, n)
}

/// The two sides of a `::` gap: each side empty or groups (the right
/// side may end in an embedded dotted quad), at most seven groups in all.
pub open spec fn compressed_sides_ok(left: Seq<char>, right: Seq<char>) -> bool {
    if left.len() == 0 && right.len() == 0 {
        true
    } else if left.len() == 0 {
        exists|n2: int| 1 <= n2 <= 7 && #[trigger] right_side_groups(right, n2)
    } else if right.len() == 0 {
        exists|n1: int| 1 <= n1 <= 7 && #[trigger] valid_group_list(left, n1)
    } else {
        exists|n1: int, n2: int|
            1 <= n1 && 1 <= n2 && n1 + n2 <= 7 && #[trigger] valid_group_list(left, n1)
                && #[trigger] right_side_groups(right, n2)
    }
}

/// An IPv6 host: exactly eight groups (hex, or closed by an embedded
/// dotted quad), or one `::` gap beside at most seven groups in all.
pub open spec fn valid_ipv6(s: Seq<char>) -> bool {
    ||| valid_group_list(s, 8)
    ||| valid_group_list_v4(s, 8)
    ||| exists|i: int|
        {
            &&& 0 <= i && i + 2 <= s.len()
            &&& #[trigger] s[i] == ':' && s[i + 1] == ':'
            &&& compressed_sides_ok(s.subrange(0, i), s.subrange(i + 2, s.len() as int))
        }
}

/// A socket address: `ipv4:port` or `[ipv6]:port`.
pub open spec fn valid_socket_addr(s: Seq<char>) -> bool {
    ||| exists|c: int|
        {
            &&& 0 < c < s.len() - 1
            &&& #[trigger] s[c] == ':'
            &&& valid_ipv4(s.subrange(0, c))
            &&& valid_port(s.subrange(c + 1, s.len() as int))
        }
    ||| (s.len() > 0 && s[0] == '[' && exists|c: int|
        {
            &&& 1 < c && c + 2 <= s.len() - 1
            &&& #[trigger] s[c] == ']' && s[c + 1] == ':'
            &&& valid_ipv6(s.subrange(1, c))
            &&& valid_port(s.subrange(c + 2, s.len() as int))
        })
}

/// Every character of a group list is a hex digit or a colon, the list
/// starts and ends with a hex digit, and it holds no two adjacent colons.
proof fn lemma_group_list_chars(s: Seq<char>, n: int)
    requires
        valid_group_list(s, n),
    ensures
        s.len() > 0,
        is_hex_digit(s[0]),
        is_hex_digit(s[s.len() - 1]),
        forall|t: int| 0 <= t < s.len() ==> is_hex_digit(#[trigger] s[t]) || s[t] == ':',
        forall|t: int| 0 <= t < s.len() - 1 ==> !(#[trigger] s[t] == ':' && s[t + 1] == ':'),
    decreases s.len(),
{
    if n == 1 {
        assert(valid_hex_group(s));
    } else if n > 1 {
        let i = choose|i: int|
            {
                &&& 0 < i < s.len()
                &&& #[trigger] s[i] == ':'
                &&& valid_hex_group(s.subrange(0, i))
                &&& valid_group_list(s.subrange(i + 1, s.len() as int), n - 1)
            };
        let rest = s.subrange(i + 1, s.len() as int);
        lemma_group_list_chars(rest, n - 1);
        assert forall|t: int| 0 <= t < s.len() implies is_hex_digit(#[trigger] s[t]) || s[t]
            == ':' by {
            if t < i {
                assert(s.subrange(0, i)[t] == s[t]);
            } else if t > i {
                assert(rest[t - i - 1] == s[t]);
            }
        }
        assert(is_hex_digit(s[0])) by {
            assert(s.subrange(0, i)[0] == s[0]);
        }
        assert(is_hex_digit(s[s.len() - 1])) by {
            assert(rest[rest.len() - 1] == s[s.len() - 1]);
        }
        assert forall|t: int| 0 <= t < s.len() - 1 implies !(#[trigger] s[t] == ':' && s[t + 1]
            == ':') by {
            if t < i {
                assert(s.subrange(0, i)[t] == s[t]);
                if t + 1 < i {
                    assert(s.subrange(0, i)[t + 1] == s[t + 1]);
                }
            } else if t == i {
                assert(rest[0] == s[i + 1]);
            } else {
                assert(rest[t - i - 1] == s[t]);
                assert(rest[t - i] == s[t + 1]);
            }
        }
    }
}

/// The group count of a group list is unique.
proof fn lemma_group_count_unique(s: Seq<char>, n1: int, n2: int)
    requires
        valid_group_list(s, n1),
        valid_group_list(s, n2),
    ensures
        n1 == n2,
    decreases s.len(),
{
    if n1 == 1 && n2 == 1 {
    } else if n1 == 1 {
        let i = choose|i: int|
            {
                &&& 0 < i < s.len()
                &&& #[trigger] s[i] == ':'
                &&& valid_hex_group(s.subrange(0, i))
                &&& valid_group_list(s.subrange(i + 1, s.len() as int), n2 - 1)
            };
        assert(is_hex_digit(s[i]));
        assert(false);
    } else if n2 == 1 {
        let i = choose|i: int|
            {
                &&& 0 < i < s.len()
                &&& #[trigger] s[i] == ':'
                &&& valid_hex_group(s.subrange(0, i))
                &&& valid_group_list(s.subrange(i + 1, s.len() as int), n1 - 1)
            };
        assert(is_hex_digit(s[i]));
        assert(false);
    } else {
        let i1 = choose|i: int|
            {
                &&& 0 < i < s.len()
                &&& #[trigger] s[i] == ':'
                &&& valid_hex_group(s.subrange(0, i))
                &&& valid_group_list(s.subrange(i + 1, s.len() as int), n1 - 1)
            };
        let i2 = choose|i: int|
            {
                &&& 0 < i < s.len()
                &&& #[trigger] s[i] == ':'
                &&& valid_hex_group(s.subrange(0, i))
                &&& valid_group_list(s.subrange(i + 1, s.len() as int), n2 - 1)
            };
        assert(i1 == i2) by {
            if i1 < i2 {
                assert(s.subrange(0, i2)[i1] == s[i1]);
            } else if i2 < i1 {
                assert(s.subrange(0, i1)[i2] == s[i2]);
            }
        }
        lemma_group_count_unique(s.subrange(i1 + 1, s.len() as int), n1 - 1, n2 - 1);
    }
}

/// The characters of a string, as a vector.
pub fn chars_vec(s: &str) -> (v: Vec<char>)
    ensures
        v@ == s@,
{
    let n = s.unicode_len();
    let mut v: Vec<char> = Vec::new();
    let mut i: usize = 0;
    while i < n
        invariant
            n == s@.len(),
            i <= n,
            v@.len() == i,
            forall|j: int| 0 <= j < i ==> v@[j] == s@[j],
        decreases n - i,
    {
        v.push(s.get_char(i));
        i = i + 1;
    }
    proof {
        assert(v@ =~= s@);
    }
    v
}

/// Index of the end of the run of decimal digits starting at `from`.
fn scan_dec(v: &Vec<char>, from: usize, to: usize) -> (e: usize)
    requires
        from <= to <= v@.len(),
    ensures
        from <= e <= to,
        forall|t: int| from <= t < e ==> is_dec_digit(#[trigger] v@[t]),
        e < to ==> !is_dec_digit(v@[e as int]),
{
    let mut e = from;
    while e < to
        invariant
            from <= e <= to <= v@.len(),
            forall|t: int| from <= t < e ==> is_dec_digit(#[trigger] v@[t]),
        decreases to - e,
    {
        let c = v[e];
        if !('0' <= c && c <= '9') {
            return e;
        }
        e = e + 1;
    }
    e
}

/// Index of the end of the run of hex digits starting at `from`.
fn scan_hex(v: &Vec<char>, from: usize, to: usize) -> (e: usize)
    requires
        from <= to <= v@.len(),
    ensures
        from <= e <= to,
        forall|t: int| from <= t < e ==> is_hex_digit(#[trigger] v@[t]),
        e < to ==> !is_hex_digit(v@[e as int]),
{
    let mut e = from;
    while e < to
        invariant
            from <= e <= to <= v@.len(),
            forall|t: int| from <= t < e ==> is_hex_digit(#[trigger] v@[t]),
        decreases to - e,
    {
        let c = v[e];
        if !(('0' <= c && c <= '9') || ('a' <= c && c <= 'f') || ('A' <= c && c <= 'F')) {
            return e;
        }
        e = e + 1;
    }
    e
}

/// Value of the decimal digits `v[from..to]` (at most five of them).
fn dec_value(v: &Vec<char>, from: usize, to: usize) -> (val: u32)
    requires
        from <= to <= v@.len(),
        to - from <= 5,
        forall|t: int| from <= t < to ==> is_dec_digit(#[trigger] v@[t]),
    ensures
        val == seq_dec_val(v@.subrange(from as int, to as int)),
{
    let mut val: u32 = 0;
    let mut i = from;
    proof {
        assert(v@.subrange(from as int, from as int) =~= Seq::<char>::empty());
    }
    while i < to
        invariant
            from <= i <= to <= v@.len(),
            to - from <= 5,
            forall|t: int| from <= t < to ==> is_dec_digit(#[trigger] v@[t]),
            val == seq_dec_val(v@.subrange(from as int, i as int)),
            val < pow10((i - from) as nat),
        decreases to - i,
    {
        let c = v[i];
        proof {
            assert(pow10(0) == 1);
            assert(pow10(1) == 10);
            assert(pow10(2) == 100);
            assert(pow10(3) == 1000);
            assert(pow10(4) == 10000);
            assert(pow10(5) == 100000);
            assert(v@.subrange(from as int, i as int + 1).drop_last() =~= v@.subrange(
                from as int,
                i as int,
            ));
            assert(v@.subrange(from as int, i as int + 1).last() == v@[i as int]);
        }
        val = val * 10 + (c as u32 - 48);
        proof {
            assert('0' as int == 48);
        }
        i = i + 1;
    }
    val
}

/// Decide `valid_dec_octet` on `v[from..to]`.
fn check_octet(v: &Vec<char>, from: usize, to: usize) -> (r: bool)
    requires
        from <= to <= v@.len(),
    ensures
        r == valid_dec_octet(v@.subrange(from as int, to as int)),
{
    let ghost s = v@.subrange(from as int, to as int);
    if to - from < 1 || to - from > 3 {
        return false;
    }
    let e = scan_dec(v, from, to);
    if e < to {
        proof {
            assert(s[e - from] == v@[e as int]);
        }
        return false;
    }
    proof {
        assert forall|t: int| 0 <= t < s.len() implies is_dec_digit(#[trigger] s[t]) by {
            assert(s[t] == v@[from + t]);
        }
    }
    let val = dec_value(v, from, to);
    if val > 255 {
        return false;
    }
    if v[from] == '0' && to - from > 1 {
        proof {
            assert(s[0] == v@[from as int]);
        }
        return false;
    }
    proof {
        assert(s[0] == v@[from as int]);
    }
    true
}

/// Decide `valid_port` on `v[from..to]`.
fn check_port(v: &Vec<char>, from: usize, to: usize) -> (r: bool)
    requires
        from <= to <= v@.len(),
    ensures
        r == valid_port(v@.subrange(from as int, to as int)),
{
    let ghost s = v@.subrange(from as int, to as int);
    if to - from < 1 || to - from > 5 {
        return false;
    }
    let e = scan_dec(v, from, to);
    if e < to {
        proof {
            assert(s[e - from] == v@[e as int]);
        }
        return false;
    }
    proof {
        assert forall|t: int| 0 <= t < s.len() implies is_dec_digit(#[trigger] s[t]) by {
            assert(s[t] == v@[from + t]);
        }
    }
    let val = dec_value(v, from, to);
    val <= 65535
}

/// Witnesses of the three dots of a valid dotted quad.
proof fn ipv4_witnesses(s: Seq<char>) -> (r: (int, int, int))
    requires
        valid_ipv4(s),
    ensures
        ({
            let (i, j, k) = r;
            &&& 0 < i < j < k < s.len()
            &&& s[i] == '.' && s[j] == '.' && s[k] == '.'
            &&& valid_dec_octet(s.subrange(0, i))
            &&& valid_dec_octet(s.subrange(i + 1, j))
            &&& valid_dec_octet(s.subrange(j + 1, k))
            &&& valid_dec_octet(s.subrange(k + 1, s.len() as int))
        }),
{
    choose|i: int, j: int, k: int|
        {
            &&& 0 < i < j < k < s.len()
            &&& #[trigger] s[i] == '.' && #[trigger] s[j] == '.' && #[trigger] s[k] == '.'
            &&& valid_dec_octet(s.subrange(0, i))
            &&& valid_dec_octet(s.subrange(i + 1, j))
            &&& valid_dec_octet(s.subrange(j + 1, k))
            &&& valid_dec_octet(s.subrange(k + 1, s.len() as int))
        }
}

/// Decide `valid_ipv4` on `v[from..to]`.
/// When a valid dotted quad occupies `w[from..to]`, the three digit-run
/// scans stop exactly at its three dots.
#[verifier::rlimit(100)]
proof fn lemma_ipv4_determined(w: Seq<char>, from: int, to: int, e1: int, e2: int, e3: int)
    requires
        0 <= from <= to <= w.len(),
        valid_ipv4(w.subrange(from, to)),
        from <= e1 <= to,
        forall|t: int| from <= t < e1 ==> is_dec_digit(#[trigger] w[t]),
        e1 < to ==> !is_dec_digit(w[e1]),
        e1 < to ==> e1 + 1 <= e2 <= to,
        e1 < to ==> forall|t: int| e1 + 1 <= t < e2 ==> is_dec_digit(#[trigger] w[t]),
        e1 < to && e2 < to ==> !is_dec_digit(w[e2]),
        e1 < to && e2 < to ==> e2 + 1 <= e3 <= to,
        e1 < to && e2 < to ==> forall|t: int| e2 + 1 <= t < e3 ==> is_dec_digit(#[trigger] w[t]),
        e1 < to && e2 < to && e3 < to ==> !is_dec_digit(w[e3]),
    ensures
        e1 < to && w[e1] == '.' && valid_dec_octet(w.subrange(from, e1)),
        e2 < to && w[e2] == '.' && valid_dec_octet(w.subrange(e1 + 1, e2)),
        e3 < to && w[e3] == '.' && valid_dec_octet(w.subrange(e2 + 1, e3)),
        valid_dec_octet(w.subrange(e3 + 1, to)),
{
    let s = w.subrange(from, to);
    let (i, j, k) = ipv4_witnesses(s);
    assert(s.subrange(0, i) =~= w.subrange(from, from + i));
    lemma_scan_matches_octet(w, from, to, e1, from + i);
    assert(w[e1] == '.');
    assert(s.subrange(i + 1, j) =~= w.subrange(from + i + 1, from + j));
    lemma_scan_matches_octet(w, from + i + 1, to, e2, from + j);
    assert(w[e2] == '.');
    assert(s.subrange(j + 1, k) =~= w.subrange(from + j + 1, from + k));
    lemma_scan_matches_octet(w, from + j + 1, to, e3, from + k);
    assert(w[e3] == '.');
    assert(s.subrange(k + 1, s.len() as int) =~= w.subrange(from + k + 1, to));
}

/// Decide `valid_ipv4` on `v[from..to]`.
#[verifier::rlimit(50)]
fn check_ipv4(v: &Vec<char>, from: usize, to: usize) -> (r: bool)
    requires
        from <= to <= v@.len(),
    ensures
        r == valid_ipv4(v@.subrange(from as int, to as int)),
{
    let ghost s = v@.subrange(from as int, to as int);
    let e1 = scan_dec(v, from, to);
    let p1 = if e1 < to {
        e1 + 1
    } else {
        to
    };
    let e2 = scan_dec(v, p1, to);
    let p2 = if e2 < to {
        e2 + 1
    } else {
        to
    };
    let e3 = scan_dec(v, p2, to);
    let p3 = if e3 < to {
        e3 + 1
    } else {
        to
    };
    let ok = e1 < to && v[e1] == '.' && check_octet(v, from, e1) && e2 < to && v[e2] == '.'
        && check_octet(v, p1, e2) && e3 < to && v[e3] == '.' && check_octet(v, p2, e3)
        && check_octet(v, p3, to);
    proof {
        if ok {
            let i = e1 - from;
            let j = e2 - from;
            let k = e3 - from;
            assert(s[i] == '.' && s[j] == '.' && s[k] == '.');
            assert(s.subrange(0, i) =~= v@.subrange(from as int, e1 as int));
            assert(s.subrange(i + 1, j) =~= v@.subrange(e1 + 1, e2 as int));
            assert(s.subrange(j + 1, k) =~= v@.subrange(e2 + 1, e3 as int));
            assert(s.subrange(k + 1, s.len() as int) =~= v@.subrange(e3 + 1, to as int));
            assert(valid_ipv4(s));
        } else {
            if valid_ipv4(s) {
                lemma_ipv4_determined(
                    v@,
                    from as int,
                    to as int,
                    e1 as int,
                    e2 as int,
                    e3 as int,
                );
                assert(s.subrange(0, e1 - from) =~= v@.subrange(from as int, e1 as int));
                assert(s.subrange(e1 - from + 1, e2 - from) =~= v@.subrange(e1 + 1, e2 as int));
                assert(s.subrange(e2 - from + 1, e3 - from) =~= v@.subrange(e2 + 1, e3 as int));
                assert(s.subrange(e3 - from + 1, s.len() as int) =~= v@.subrange(
                    e3 + 1,
                    to as int,
                ));
                assert(false);
            }
        }
    }
    ok
}

/// A scan for the end of a digit run lands exactly on the dot that closes
/// a valid octet.
proof fn lemma_scan_matches_octet(w: Seq<char>, from: int, to: int, e: int, dot: int)
    requires
        0 <= from <= to <= w.len(),
        from <= e <= to,
        forall|t: int| from <= t < e ==> is_dec_digit(#[trigger] w[t]),
        e < to ==> !is_dec_digit(w[e]),
        from < dot < to,
        w[dot] == '.',
        valid_dec_octet(w.subrange(from, dot)),
    ensures
        e == dot,
{
    let oct = w.subrange(from, dot);
    if e < dot {
        assert(is_dec_digit(oct[e - from]));
        assert(oct[e - from] == w[e]);
    } else if e > dot {
        assert(is_dec_digit(w[dot]));
    }
}


/// In a group list, the hex run from the start ends exactly at the first
/// separating colon.
proof fn lemma_split_forced(s: Seq<char>, e: int, n: int)
    requires
        valid_group_list(s, n),
        n >= 2,
        0 <= e <= s.len(),
        forall|t: int| 0 <= t < e ==> is_hex_digit(#[trigger] s[t]),
        e < s.len() ==> !is_hex_digit(s[e]),
    ensures
        e < s.len(),
        s[e] == ':',
        1 <= e <= 4,
        valid_hex_group(s.subrange(0, e)),
        valid_group_list(s.subrange(e + 1, s.len() as int), n - 1),
{
    let i = choose|i: int|
        {
            &&& 0 < i < s.len()
            &&& #[trigger] s[i] == ':'
            &&& valid_hex_group(s.subrange(0, i))
            &&& valid_group_list(s.subrange(i + 1, s.len() as int), n - 1)
        };
    assert(!is_hex_digit(':'));
    if i < e {
        assert(is_hex_digit(s[i]));
        assert(false);
    } else if i > e {
        assert(e < s.len());
        assert(s.subrange(0, i)[e] == s[e]);
        assert(is_hex_digit(s[e]));
        assert(false);
    }
    assert forall|t: int| 0 <= t < e implies is_hex_digit(#[trigger] s.subrange(0, e)[t]) by {
        assert(s.subrange(0, e)[t] == s[t]);
    }
}

/// In a dotted-quad-tailed group list of three or more groups, the hex
/// run from the start ends exactly at the first separating colon.
proof fn lemma_split_forced_v4(s: Seq<char>, e: int, n: int)
    requires
        valid_group_list_v4(s, n),
        n >= 3,
        0 <= e <= s.len(),
        forall|t: int| 0 <= t < e ==> is_hex_digit(#[trigger] s[t]),
        e < s.len() ==> !is_hex_digit(s[e]),
    ensures
        e < s.len(),
        s[e] == ':',
        1 <= e <= 4,
        valid_hex_group(s.subrange(0, e)),
        valid_group_list_v4(s.subrange(e + 1, s.len() as int), n - 1),
{
    let i = choose|i: int|
        {
            &&& 0 < i < s.len()
            &&& #[trigger] s[i] == ':'
            &&& valid_hex_group(s.subrange(0, i))
            &&& valid_group_list_v4(s.subrange(i + 1, s.len() as int), n - 1)
        };
    assert(!is_hex_digit(':'));
    if i < e {
        assert(is_hex_digit(s[i]));
        assert(false);
    } else if i > e {
        assert(e < s.len());
        assert(s.subrange(0, i)[e] == s[e]);
        assert(is_hex_digit(s[e]));
        assert(false);
    }
    assert forall|t: int| 0 <= t < e implies is_hex_digit(#[trigger] s.subrange(0, e)[t]) by {
        assert(s.subrange(0, e)[t] == s[t]);
    }
}

/// A dotted-quad-tailed group list holds a dot.
proof fn lemma_v4_list_has_dot(s: Seq<char>, n: int)
    requires
        valid_group_list_v4(s, n),
    ensures
        exists|t: int| 0 <= t < s.len() && #[trigger] s[t] == '.',
    decreases s.len(),
{
    if n == 2 {
        let (i, j, k) = ipv4_witnesses(s);
        assert(s[i] == '.');
    } else if n >= 3 {
        let i = choose|i: int|
            {
                &&& 0 < i < s.len()
                &&& #[trigger] s[i] == ':'
                &&& valid_hex_group(s.subrange(0, i))
                &&& valid_group_list_v4(s.subrange(i + 1, s.len() as int), n - 1)
            };
        let rest = s.subrange(i + 1, s.len() as int);
        lemma_v4_list_has_dot(rest, n - 1);
        let t = choose|t: int| 0 <= t < rest.len() && #[trigger] rest[t] == '.';
        assert(s[i + 1 + t] == '.');
    }
}

/// Every character of a dotted-quad-tailed group list is a hex digit, a
/// colon or a dot; it starts with a hex digit and holds no two adjacent
/// colons.
proof fn lemma_v4_list_chars(s: Seq<char>, n: int)
    requires
        valid_group_list_v4(s, n),
    ensures
        s.len() > 0,
        is_hex_digit(s[0]),
        forall|t: int|
            0 <= t < s.len() ==> is_hex_digit(#[trigger] s[t]) || s[t] == ':' || s[t] == '.',
        forall|t: int| 0 <= t < s.len() - 1 ==> !(#[trigger] s[t] == ':' && s[t + 1] == ':'),
    decreases s.len(),
{
    if n == 2 {
        lemma_ipv4_chars(s);
        assert(!is_dec_digit(':'));
    } else if n >= 3 {
        let i = choose|i: int|
            {
                &&& 0 < i < s.len()
                &&& #[trigger] s[i] == ':'
                &&& valid_hex_group(s.subrange(0, i))
                &&& valid_group_list_v4(s.subrange(i + 1, s.len() as int), n - 1)
            };
        let rest = s.subrange(i + 1, s.len() as int);
        lemma_v4_list_chars(rest, n - 1);
        assert forall|t: int| 0 <= t < s.len() implies is_hex_digit(#[trigger] s[t]) || s[t]
            == ':' || s[t] == '.' by {
            if t < i {
                assert(s.subrange(0, i)[t] == s[t]);
            } else if t > i {
                assert(rest[t - i - 1] == s[t]);
            }
        }
        assert(is_hex_digit(s[0])) by {
            assert(s.subrange(0, i)[0] == s[0]);
        }
        assert forall|t: int| 0 <= t < s.len() - 1 implies !(#[trigger] s[t] == ':' && s[t + 1]
            == ':') by {
            if t < i {
                assert(s.subrange(0, i)[t] == s[t]);
                if t + 1 < i {
                    assert(s.subrange(0, i)[t + 1] == s[t + 1]);
                }
            } else if t == i {
                assert(rest[0] == s[i + 1]);
            } else {
                assert(rest[t - i - 1] == s[t]);
                assert(rest[t - i] == s[t + 1]);
            }
        }
    }
}

/// A plain group list is never also a dotted-quad-tailed one: the
/// tail's dot has no place in a plain list.
proof fn lemma_kinds_disjoint(s: Seq<char>, n1: int, n2: int)
    requires
        valid_group_list(s, n1),
    ensures
        !valid_group_list_v4(s, n2),
{
    if valid_group_list_v4(s, n2) {
        lemma_group_list_chars(s, n1);
        lemma_v4_list_has_dot(s, n2);
        let t = choose|t: int| 0 <= t < s.len() && #[trigger] s[t] == '.';
        assert(!is_hex_digit('.'));
        assert(is_hex_digit(s[t]) || s[t] == ':');
    }
}

/// The group count of a dotted-quad-tailed list is unique.
proof fn lemma_v4_count_unique(s: Seq<char>, n1: int, n2: int)
    requires
        valid_group_list_v4(s, n1),
        valid_group_list_v4(s, n2),
    ensures
        n1 == n2,
    decreases s.len(),
{
    assert(!is_dec_digit(':'));
    if n1 == 2 && n2 == 2 {
    } else if n1 == 2 {
        let i = choose|i: int|
            {
                &&& 0 < i < s.len()
                &&& #[trigger] s[i] == ':'
                &&& valid_hex_group(s.subrange(0, i))
                &&& valid_group_list_v4(s.subrange(i + 1, s.len() as int), n2 - 1)
            };
        lemma_ipv4_chars(s);
        assert(false);
    } else if n2 == 2 {
        let i = choose|i: int|
            {
                &&& 0 < i < s.len()
                &&& #[trigger] s[i] == ':'
                &&& valid_hex_group(s.subrange(0, i))
                &&& valid_group_list_v4(s.subrange(i + 1, s.len() as int), n1 - 1)
            };
        lemma_ipv4_chars(s);
        assert(false);
    } else {
        let i1 = choose|i: int|
            {
                &&& 0 < i < s.len()
                &&& #[trigger] s[i] == ':'
                &&& valid_hex_group(s.subrange(0, i))
                &&& valid_group_list_v4(s.subrange(i + 1, s.len() as int), n1 - 1)
            };
        let i2 = choose|i: int|
            {
                &&& 0 < i < s.len()
                &&& #[trigger] s[i] == ':'
                &&& valid_hex_group(s.subrange(0, i))
                &&& valid_group_list_v4(s.subrange(i + 1, s.len() as int), n2 - 1)
            };
        assert(i1 == i2) by {
            assert(!is_hex_digit(':'));
            if i1 < i2 {
                assert(s.subrange(0, i2)[i1] == s[i1]);
            } else if i2 < i1 {
                assert(s.subrange(0, i1)[i2] == s[i2]);
            }
        }
        lemma_v4_count_unique(s.subrange(i1 + 1, s.len() as int), n1 - 1, n2 - 1);
    }
}

/// Count the groups of `v[from..to]`: the unique count and whether the
/// list is closed by an embedded dotted quad, or none when the slice is
/// neither kind of group list.
#[verifier::rlimit(100)]
fn count_groups(v: &Vec<char>, from: usize, to: usize) -> (r: Option<(u64, bool)>)
    requires
        from <= to <= v@.len(),
    ensures
        ({
            let s = v@.subrange(from as int, to as int);
            match r {
                Some(p) => {
                    &&& 1 <= p.0 <= to - from
                    &&& (if p.1 {
                        (forall|n: int| valid_group_list_v4(s, n) <==> n == p.0 as int) && (
                        forall|n: int| !valid_group_list(s, n))
                    } else {
                        (forall|n: int| valid_group_list(s, n) <==> n == p.0 as int) && (
                        forall|n: int| !valid_group_list_v4(s, n))
                    })
                },
                None => (forall|n: int| !valid_group_list(s, n)) && (forall|n: int|
                    !valid_group_list_v4(s, n)),
            }
        }),
    decreases to - from,
{
    let ghost s = v@.subrange(from as int, to as int);
    let e = scan_hex(v, from, to);
    proof {
        assert forall|t: int| 0 <= t < e - from implies is_hex_digit(#[trigger] s[t]) by {
            assert(s[t] == v@[from + t]);
        }
        if (e as int) - from < s.len() {
            assert(s[e - from] == v@[e as int]);
        }
        assert(!is_hex_digit(':'));
        assert(!is_hex_digit('.'));
        assert(!is_dec_digit(':'));
    }
    if e == from {
        proof {
            assert forall|n: int| !valid_group_list(s, n) by {
                if valid_group_list(s, n) {
                    if n == 1 {
                        assert(valid_hex_group(s));
                        assert(is_hex_digit(s[0]));
                        assert(false);
                    } else if n >= 2 {
                        lemma_split_forced(s, 0, n);
                        assert(false);
                    }
                }
            }
            assert forall|n: int| !valid_group_list_v4(s, n) by {
                if valid_group_list_v4(s, n) {
                    if n == 2 {
                        lemma_ipv4_chars(s);
                        assert(is_dec_digit(s[0]));
                        assert(false);
                    } else if n >= 3 {
                        lemma_split_forced_v4(s, 0, n);
                        assert(false);
                    }
                }
            }
        }
        return None;
    }
    if e < to && v[e] == '.' {
        let r4 = check_ipv4(v, from, to);
        proof {
            assert forall|n: int| !valid_group_list(s, n) by {
                if valid_group_list(s, n) {
                    if n == 1 {
                        assert(valid_hex_group(s));
                        assert(is_hex_digit(s[e - from]));
                        assert(false);
                    } else if n >= 2 {
                        lemma_split_forced(s, (e - from) as int, n);
                        assert(false);
                    }
                }
            }
            assert forall|n: int| n >= 3 ==> !valid_group_list_v4(s, n) by {
                if n >= 3 && valid_group_list_v4(s, n) {
                    lemma_split_forced_v4(s, (e - from) as int, n);
                    assert(false);
                }
            }
        }
        if r4 {
            proof {
                let (i, j, k) = ipv4_witnesses(s);
                assert(valid_group_list_v4(s, 2));
                assert forall|n: int| valid_group_list_v4(s, n) implies n == 2 by {
                    if n != 2 {
                        assert(!valid_group_list_v4(s, n));
                    }
                }
            }
            return Some((2, true));
        } else {
            proof {
                assert forall|n: int| !valid_group_list_v4(s, n) by {
                    if valid_group_list_v4(s, n) && n == 2 {
                        assert(valid_ipv4(s));
                        assert(false);
                    }
                }
            }
            return None;
        }
    }
    if e - from > 4 {
        proof {
            assert forall|n: int| !valid_group_list(s, n) by {
                if valid_group_list(s, n) {
                    if n == 1 {
                        assert(valid_hex_group(s));
                        assert(false);
                    } else if n >= 2 {
                        lemma_split_forced(s, (e - from) as int, n);
                        assert(false);
                    }
                }
            }
            assert forall|n: int| !valid_group_list_v4(s, n) by {
                if valid_group_list_v4(s, n) {
                    if n == 2 {
                        let (i, j, k) = ipv4_witnesses(s);
                        assert(i <= 3);
                        assert(is_hex_digit(s[i]));
                        assert(false);
                    } else if n >= 3 {
                        lemma_split_forced_v4(s, (e - from) as int, n);
                        assert(false);
                    }
                }
            }
        }
        return None;
    }
    if e == to {
        proof {
            assert(valid_hex_group(s));
            assert(valid_group_list(s, 1));
            assert forall|n: int| valid_group_list(s, n) implies n == 1 by {
                lemma_group_count_unique(s, n, 1);
            }
            assert forall|n: int| !valid_group_list_v4(s, n) by {
                if valid_group_list_v4(s, n) {
                    lemma_kinds_disjoint(s, 1, n);
                }
            }
        }
        return Some((1, false));
    }
    if !(v[e] == ':') {
        proof {
            assert forall|n: int| !valid_group_list(s, n) by {
                if valid_group_list(s, n) {
                    if n == 1 {
                        assert(valid_hex_group(s));
                        assert(is_hex_digit(s[e - from]));
                        assert(false);
                    } else if n >= 2 {
                        lemma_split_forced(s, (e - from) as int, n);
                        assert(false);
                    }
                }
            }
            assert forall|n: int| !valid_group_list_v4(s, n) by {
                if valid_group_list_v4(s, n) {
                    if n == 2 {
                        lemma_ipv4_chars(s);
                        assert(is_dec_digit(s[e - from]) || s[e - from] == '.');
                        assert(false);
                    } else if n >= 3 {
                        lemma_split_forced_v4(s, (e - from) as int, n);
                        assert(false);
                    }
                }
            }
        }
        return None;
    }
    let rest = count_groups(v, e + 1, to);
    proof {
        assert(s.subrange(e - from + 1, s.len() as int) =~= v@.subrange(e + 1, to as int));
        assert forall|t: int| 0 <= t < e - from implies is_hex_digit(
            #[trigger] s.subrange(0, (e - from) as int)[t],
        ) by {
            assert(s.subrange(0, (e - from) as int)[t] == s[t]);
        }
        assert(valid_hex_group(s.subrange(0, (e - from) as int)));
    }
    match rest {
        Some(p) => {
            let (c, tail) = p;
            proof {
                let rsub = s.subrange(e - from + 1, s.len() as int);
                if tail {
                    assert(valid_group_list_v4(s, c as int + 1)) by {
                        assert(valid_group_list_v4(rsub, c as int));
                        assert(s[e - from] == ':');
                    }
                    assert forall|n: int| valid_group_list_v4(s, n) implies n == c as int + 1 by {
                        lemma_v4_count_unique(s, n, c as int + 1);
                    }
                    assert forall|n: int| !valid_group_list(s, n) by {
                        if valid_group_list(s, n) {
                            lemma_kinds_disjoint(s, n, c as int + 1);
                        }
                    }
                } else {
                    assert(valid_group_list(s, c as int + 1)) by {
                        assert(valid_group_list(rsub, c as int));
                        assert(s[e - from] == ':');
                    }
                    assert forall|n: int| valid_group_list(s, n) implies n == c as int + 1 by {
                        lemma_group_count_unique(s, n, c as int + 1);
                    }
                    assert forall|n: int| !valid_group_list_v4(s, n) by {
                        if valid_group_list_v4(s, n) {
                            lemma_kinds_disjoint(s, c as int + 1, n);
                        }
                    }
                }
            }
            Some((c + 1, tail))
        },
        None => {
            proof {
                let rsub = s.subrange(e - from + 1, s.len() as int);
                assert forall|n: int| !valid_group_list(s, n) by {
                    if valid_group_list(s, n) {
                        if n == 1 {
                            assert(valid_hex_group(s));
                            assert(is_hex_digit(s[e - from]));
                            assert(false);
                        } else if n >= 2 {
                            lemma_split_forced(s, (e - from) as int, n);
                            assert(!valid_group_list(rsub, n - 1));
                            assert(false);
                        }
                    }
                }
                assert forall|n: int| !valid_group_list_v4(s, n) by {
                    if valid_group_list_v4(s, n) {
                        if n == 2 {
                            lemma_ipv4_chars(s);
                            assert(is_dec_digit(s[e - from]) || s[e - from] == '.');
                            assert(false);
                        } else if n >= 3 {
                            lemma_split_forced_v4(s, (e - from) as int, n);
                            assert(!valid_group_list_v4(rsub, n - 1));
                            assert(false);
                        }
                    }
                }
            }
            None
        },
    }
}

/// Index of the first occurrence of `c` in `v[from..to]`.
pub(crate) fn find_char(v: &Vec<char>, from: usize, to: usize, c: char) -> (r: Option<usize>)
    requires
        from <= to <= v@.len(),
    ensures
        match r {
            Some(d) => from <= d < to && v@[d as int] == c && forall|t: int|
                from <= t < d ==> v@[t] != c,
            None => forall|t: int| from <= t < to ==> v@[t] != c,
        },
{
    let mut i = from;
    while i < to
        invariant
            from <= i <= to <= v@.len(),
            forall|t: int| from <= t < i ==> v@[t] != c,
        decreases to - i,
    {
        if v[i] == c {
            return Some(i);
        }
        i = i + 1;
    }
    None
}

/// Index of the first `::` in `v[from..to]`.
fn find_dcolon(v: &Vec<char>, from: usize, to: usize) -> (r: Option<usize>)
    requires
        from <= to <= v@.len(),
    ensures
        match r {
            Some(d) => from <= d && d + 2 <= to && v@[d as int] == ':' && v@[d + 1] == ':'
                && forall|t: int| from <= t < d ==> !(#[trigger] v@[t] == ':' && v@[t + 1] == ':'),
            None => forall|t: int|
                from <= t && t + 2 <= to ==> !(#[trigger] v@[t] == ':' && v@[t + 1] == ':'),
        },
{
    if to - from < 2 {
        return None;
    }
    let mut i = from;
    while i < to - 1
        invariant
            from <= i,
            2 <= to <= v@.len(),
            i <= to,
            forall|t: int| from <= t < i ==> !(#[trigger] v@[t] == ':' && v@[t + 1] == ':'),
        decreases to - i,
    {
        if v[i] == ':' && v[i + 1] == ':' {
            return Some(i);
        }
        i = i + 1;
    }
    None
}

/// Every character of a valid IPv6 host is a hex digit, a colon or a
/// dot.
proof fn lemma_ipv6_chars(s: Seq<char>)
    requires
        valid_ipv6(s),
    ensures
        forall|t: int|
            0 <= t < s.len() ==> is_hex_digit(#[trigger] s[t]) || s[t] == ':' || s[t] == '.',
{
    if valid_group_list(s, 8) {
        lemma_group_list_chars(s, 8);
    } else if valid_group_list_v4(s, 8) {
        lemma_v4_list_chars(s, 8);
    } else {
        let i = choose|i: int|
            {
                &&& 0 <= i && i + 2 <= s.len()
                &&& #[trigger] s[i] == ':' && s[i + 1] == ':'
                &&& compressed_sides_ok(s.subrange(0, i), s.subrange(i + 2, s.len() as int))
            };
        let left = s.subrange(0, i);
        let right = s.subrange(i + 2, s.len() as int);
        assert forall|t: int| 0 <= t < s.len() implies is_hex_digit(#[trigger] s[t]) || s[t]
            == ':' || s[t] == '.' by {
            if t < i {
                assert(left[t] == s[t]);
                let n1 = choose|n1: int| 1 <= n1 && #[trigger] valid_group_list(left, n1);
                lemma_group_list_chars(left, n1);
            } else if t >= i + 2 {
                assert(right[t - i - 2] == s[t]);
                let n2 = choose|n2: int| 1 <= n2 && #[trigger] right_side_groups(right, n2);
                if valid_group_list(right, n2) {
                    lemma_group_list_chars(right, n2);
                } else {
                    lemma_v4_list_chars(right, n2);
                }
            }
        }
    }
}

/// Decide `valid_ipv6` on `v[from..to]`.
#[verifier::rlimit(100)]
fn check_ipv6(v: &Vec<char>, from: usize, to: usize) -> (r: bool)
    requires
        from <= to <= v@.len(),
    ensures
        r == valid_ipv6(v@.subrange(from as int, to as int)),
{
    let ghost s = v@.subrange(from as int, to as int);
    match find_dcolon(v, from, to) {
        None => {
            let full = count_groups(v, from, to);
            let r = match full {
                Some(p) => p.0 == 8,
                None => false,
            };
            proof {
                if r {
                    if full matches Some(p) && p.1 {
                        assert(valid_group_list_v4(s, 8));
                    } else {
                        assert(valid_group_list(s, 8));
                    }
                } else if valid_ipv6(s) {
                    if valid_group_list(s, 8) || valid_group_list_v4(s, 8) {
                        assert(false);
                    } else {
                        let i = choose|i: int|
                            {
                                &&& 0 <= i && i + 2 <= s.len()
                                &&& #[trigger] s[i] == ':' && s[i + 1] == ':'
                                &&& compressed_sides_ok(
                                    s.subrange(0, i),
                                    s.subrange(i + 2, s.len() as int),
                                )
                            };
                        assert(v@[from + i] == ':' && v@[from + i + 1] == ':');
                        assert(false);
                    }
                }
            }
            r
        },
        Some(d) => {
            let c1: Option<u64> = if d == from {
                Some(0u64)
            } else {
                match count_groups(v, from, d) {
                    Some(p) => if p.1 {
                        None
                    } else {
                        Some(p.0)
                    },
                    None => None,
                }
            };
            let c2: Option<u64> = if d + 2 == to {
                Some(0u64)
            } else {
                match count_groups(v, d + 2, to) {
                    Some(p) => Some(p.0),
                    None => None,
                }
            };
            let r = match (c1, c2) {
                (Some(a), Some(b)) => a <= 7 && b <= 7 && a + b <= 7,
                _ => false,
            };
            proof {
                let gi = d - from;
                let left = s.subrange(0, gi);
                let right = s.subrange(gi + 2, s.len() as int);
                assert(left =~= v@.subrange(from as int, d as int));
                assert(right =~= v@.subrange(d + 2, to as int));
                assert(s[gi] == ':' && s[gi + 1] == ':');
                if valid_group_list(s, 8) {
                    lemma_group_list_chars(s, 8);
                    assert(false);
                }
                if valid_group_list_v4(s, 8) {
                    lemma_v4_list_chars(s, 8);
                    assert(false);
                }
                if r {
                    assert(compressed_sides_ok(left, right)) by {
                        let a = c1.unwrap();
                        let b = c2.unwrap();
                        if left.len() == 0 && right.len() == 0 {
                        } else if left.len() == 0 {
                            assert(right_side_groups(right, b as int));
                        } else if right.len() == 0 {
                            assert(valid_group_list(left, a as int));
                        } else {
                            assert(valid_group_list(left, a as int));
                            assert(right_side_groups(right, b as int));
                        }
                    }
                    assert(valid_ipv6(s));
                } else if valid_ipv6(s) {
                    let i = choose|i: int|
                        {
                            &&& 0 <= i && i + 2 <= s.len()
                            &&& #[trigger] s[i] == ':' && s[i + 1] == ':'
                            &&& compressed_sides_ok(
                                s.subrange(0, i),
                                s.subrange(i + 2, s.len() as int),
                            )
                        };
                    assert(i == gi) by {
                        if i < gi {
                            assert(v@[from + i] == ':' && v@[from + i + 1] == ':');
                            assert(false);
                        } else if i > gi {
                            let lstar = s.subrange(0, i);
                            assert(lstar.len() > 0);
                            let n1 = choose|n1: int|
                                1 <= n1 && #[trigger] valid_group_list(lstar, n1);
                            lemma_group_list_chars(lstar, n1);
                            if i == gi + 1 {
                                assert(lstar[lstar.len() - 1] == s[gi]);
                                assert(false);
                            } else {
                                assert(lstar[gi] == s[gi]);
                                assert(lstar[gi + 1] == s[gi + 1]);
                                assert(false);
                            }
                        }
                    }
                    let lspec = s.subrange(0, i);
                    let rspec = s.subrange(i + 2, s.len() as int);
                    assert(lspec == left && rspec == right);
                    if left.len() == 0 && right.len() == 0 {
                        assert(c1 == Some(0u64) && c2 == Some(0u64));
                        assert(false);
                    } else if left.len() == 0 {
                        let n2 = choose|n2: int|
                            1 <= n2 <= 7 && #[trigger] right_side_groups(right, n2);
                        assert(c2 is Some && c2.unwrap() as int == n2);
                        assert(false);
                    } else if right.len() == 0 {
                        let n1 = choose|n1: int|
                            1 <= n1 <= 7 && #[trigger] valid_group_list(left, n1);
                        assert(c1 is Some && c1.unwrap() as int == n1);
                        assert(false);
                    } else {
                        let (n1, n2) = choose|n1: int, n2: int|
                            1 <= n1 && 1 <= n2 && n1 + n2 <= 7 && #[trigger] valid_group_list(
                                left,
                                n1,
                            ) && #[trigger] right_side_groups(right, n2);
                        assert(c1 is Some && c1.unwrap() as int == n1);
                        assert(c2 is Some && c2.unwrap() as int == n2);
                        assert(false);
                    }
                }
            }
            r
        },
    }
}

/// The first character of a valid dotted quad is a decimal digit, and
/// every character is a digit or a dot.
proof fn lemma_ipv4_chars(s: Seq<char>)
    requires
        valid_ipv4(s),
    ensures
        s.len() > 0,
        is_dec_digit(s[0]),
        forall|t: int| 0 <= t < s.len() ==> is_dec_digit(#[trigger] s[t]) || s[t] == '.',
{
    let (i, j, k) = ipv4_witnesses(s);
    assert forall|t: int| 0 <= t < s.len() implies is_dec_digit(#[trigger] s[t]) || s[t]
        == '.' by {
        if t < i {
            assert(s.subrange(0, i)[t] == s[t]);
        } else if i < t < j {
            assert(s.subrange(i + 1, j)[t - i - 1] == s[t]);
        } else if j < t < k {
            assert(s.subrange(j + 1, k)[t - j - 1] == s[t]);
        } else if t > k {
            assert(s.subrange(k + 1, s.len() as int)[t - k - 1] == s[t]);
        }
    }
    assert(s.subrange(0, i)[0] == s[0]);
}

/// Decide whether `s` is a valid socket address under this module's
/// grammar: `ipv4:port` or `[ipv6]:port`.
#[verifier::rlimit(100)]
pub fn is_socket_addr(s: &str) -> (r: bool)
    ensures
        r == valid_socket_addr(s@),
{
    let v = chars_vec(s);
    let n = v.len();
    if n == 0 {
        return false;
    }
    if v[0] == '[' {
        proof {
            if valid_socket_addr(s@) {
                if exists|c: int|
                    {
                        &&& 0 < c < s@.len() - 1
                        &&& #[trigger] s@[c] == ':'
                        &&& valid_ipv4(s@.subrange(0, c))
                        &&& valid_port(s@.subrange(c + 1, s@.len() as int))
                    } {
                    let c = choose|c: int|
                        {
                            &&& 0 < c < s@.len() - 1
                            &&& #[trigger] s@[c] == ':'
                            &&& valid_ipv4(s@.subrange(0, c))
                            &&& valid_port(s@.subrange(c + 1, s@.len() as int))
                        };
                    lemma_ipv4_chars(s@.subrange(0, c));
                    assert(s@.subrange(0, c)[0] == s@[0]);
                    assert(false);
                }
            }
        }
        match find_char(&v, 1, n, ']') {
            Some(c) => {
                if !(c > 1 && n - c >= 3) {
                    proof {
                        if valid_socket_addr(s@) {
                            let cs = choose|cs: int|
                                {
                                    &&& 1 < cs && cs + 2 <= s@.len() - 1
                                    &&& #[trigger] s@[cs] == ']' && s@[cs + 1] == ':'
                                    &&& valid_ipv6(s@.subrange(1, cs))
                                    &&& valid_port(s@.subrange(cs + 2, s@.len() as int))
                                };
                            lemma_ipv6_chars(s@.subrange(1, cs));
                            if c < cs {
                                assert(s@.subrange(1, cs)[c - 1] == s@[c as int]);
                                assert(!is_hex_digit(']'));
                                assert(false);
                            }
                            assert(false);
                        }
                    }
                    return false;
                }
                let rv6 = check_ipv6(&v, 1, c);
                let rport = if v[c + 1] == ':' {
                    check_port(&v, c + 2, n)
                } else {
                    false
                };
                let r = rv6 && rport;
                proof {
                    assert(s@.subrange(1, c as int) =~= v@.subrange(1, c as int));
                    assert(s@.subrange(c + 2, s@.len() as int) =~= v@.subrange(c + 2, n as int));
                    if r {
                        assert(valid_socket_addr(s@)) by {
                            assert(s@[c as int] == ']' && s@[c + 1] == ':');
                        }
                    } else if valid_socket_addr(s@) {
                        let cs = choose|cs: int|
                            {
                                &&& 1 < cs && cs + 2 <= s@.len() - 1
                                &&& #[trigger] s@[cs] == ']' && s@[cs + 1] == ':'
                                &&& valid_ipv6(s@.subrange(1, cs))
                                &&& valid_port(s@.subrange(cs + 2, s@.len() as int))
                            };
                        assert(cs == c) by {
                            if c < cs {
                                lemma_ipv6_chars(s@.subrange(1, cs));
                                assert(s@.subrange(1, cs)[c - 1] == s@[c as int]);
                                assert(!is_hex_digit(']'));
                                assert(false);
                            } else if cs < c {
                                assert(v@[cs] != ']');
                                assert(false);
                            }
                        }
                        assert(false);
                    }
                }
                r
            },
            None => {
                proof {
                    if valid_socket_addr(s@) {
                        let cs = choose|cs: int|
                            {
                                &&& 1 < cs && cs + 2 <= s@.len() - 1
                                &&& #[trigger] s@[cs] == ']' && s@[cs + 1] == ':'
                                &&& valid_ipv6(s@.subrange(1, cs))
                                &&& valid_port(s@.subrange(cs + 2, s@.len() as int))
                            };
                        assert(v@[cs] != ']');
                        assert(false);
                    }
                }
                false
            },
        }
    } else {
        proof {
            if valid_socket_addr(s@) && s@[0] == '[' {
                assert(false);
            }
        }
        match find_char(&v, 0, n, ':') {
            Some(c) => {
                if !(c > 0 && n - c >= 2) {
                    proof {
                        if valid_socket_addr(s@) {
                            let cs = choose|cs: int|
                                {
                                    &&& 0 < cs < s@.len() - 1
                                    &&& #[trigger] s@[cs] == ':'
                                    &&& valid_ipv4(s@.subrange(0, cs))
                                    &&& valid_port(s@.subrange(cs + 1, s@.len() as int))
                                };
                            lemma_ipv4_chars(s@.subrange(0, cs));
                            if c < cs {
                                assert(s@.subrange(0, cs)[c as int] == s@[c as int]);
                                assert(!is_dec_digit(':'));
                                assert(false);
                            }
                            assert(false);
                        }
                    }
                    return false;
                }
                let r = check_ipv4(&v, 0, c) && check_port(&v, c + 1, n);
                proof {
                    assert(s@.subrange(0, c as int) =~= v@.subrange(0, c as int));
                    assert(s@.subrange(c + 1, s@.len() as int) =~= v@.subrange(c + 1, n as int));
                    if r {
                        assert(valid_socket_addr(s@)) by {
                            assert(s@[c as int] == ':');
                        }
                    } else if valid_socket_addr(s@) {
                        let cs = choose|cs: int|
                            {
                                &&& 0 < cs < s@.len() - 1
                                &&& #[trigger] s@[cs] == ':'
                                &&& valid_ipv4(s@.subrange(0, cs))
                                &&& valid_port(s@.subrange(cs + 1, s@.len() as int))
                            };
                        assert(cs == c) by {
                            if c < cs {
                                lemma_ipv4_chars(s@.subrange(0, cs));
                                assert(s@.subrange(0, cs)[c as int] == s@[c as int]);
                                assert(!is_dec_digit(':'));
                                assert(false);
                            } else if cs < c {
                                assert(v@[cs] != ':');
                                assert(false);
                            }
                        }
                        assert(false);
                    }
                }
                r
            },
            None => {
                proof {
                    if valid_socket_addr(s@) {
                        let cs = choose|cs: int|
                            {
                                &&& 0 < cs < s@.len() - 1
                                &&& #[trigger] s@[cs] == ':'
                                &&& valid_ipv4(s@.subrange(0, cs))
                                &&& valid_port(s@.subrange(cs + 1, s@.len() as int))
                            };
                        assert(v@[cs] != ':');
                        assert(false);
                    }
                }
                false
            },
        }
    }
}

} // verus!
