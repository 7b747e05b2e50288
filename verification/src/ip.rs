//! Trusted-proxy-aware client address extraction: the admission-control key.
//!
//! Only a request arriving from the single configured reverse proxy may
//! supply the real client address through a forwarded header; any other
//! peer is keyed by its own address, and a forwarded header it sends is
//! ignored. A request whose key cannot be determined is rejected.
//!
//! The boundary layer reads the raw request (peer socket, header values)
//! and hands plain values in; address strings are parsed here. The parser
//! accepts both address families in their usual texts: dotted-quad
//! addresses (octets without leading zeros), optionally with a `:port`
//! suffix; and hexadecimal group addresses with `::` compression, an
//! optional embedded dotted-quad tail, bare or in the bracketed
//! `[address]:port` socket form with an optional numeric `%zone`.

use vstd::prelude::*;
use vstd::string::StringExecFns;

use crate::errors::ConfigError;
use crate::strs::{spec_dec_digits, spec_digit_char, spec_find_char, str_find_char_from,
    str_range_owned, u64_text};

verus! {

/// An admission-control key: a client address as plain values.
#[derive(Debug, Clone, Copy, PartialEq, Eq, Hash, Structural)]
pub enum IpKey {
    /// The four octets of a version-4 address.
    V4(u8, u8, u8, u8),
    /// The eight groups of a version-6 address.
    V6(u16, u16, u16, u16, u16, u16, u16, u16),
}

/// Why no admission key could be extracted.
#[derive(Debug, Clone, Copy, PartialEq, Eq, Structural)]
pub enum AdmissionError {
    /// The proxy path carried no usable forwarded address.
    RealIpUnavailable,
    /// The direct peer address was absent or unusable.
    PeerIpUnavailable,
}

impl AdmissionError {
    /// The message the rejection is reported with.
    pub fn message(&self) -> (r: &'static str)
        ensures
            self is RealIpUnavailable ==> r@ == "Could not extract real IP address from request"@,
            self is PeerIpUnavailable ==> r@ == "Could not extract peer IP address from request"@,
    {
        match self {
            AdmissionError::RealIpUnavailable => "Could not extract real IP address from request",
            AdmissionError::PeerIpUnavailable => "Could not extract peer IP address from request",
        }
    }
}

// ------------------------------------------------------------------
// Address text parsing
// ------------------------------------------------------------------

/// Every character of `t` is a decimal digit.
pub open spec fn spec_all_digits(t: Seq<char>) -> bool {
    forall|j: int| 0 <= j < t.len() ==> '0' <= t[j] && t[j] <= '9'
}

/// The value of a decimal digit string.
pub open spec fn spec_digits_val(t: Seq<char>) -> int
    decreases t.len(),
{
    if t.len() == 0 {
        0
    } else {
        spec_digits_val(t.drop_last()) * 10 + ((t.last() as int) - 48)
    }
}

/// The value of an address octet: one to three digits, no leading zero,
/// at most 255.
pub open spec fn spec_parse_octet(t: Seq<char>) -> Option<int> {
    if t.len() < 1 || t.len() > 3 || !spec_all_digits(t) || (t.len() > 1 && t[0] == '0')
        || spec_digits_val(t) > 255 {
        None
    } else {
        Some(spec_digits_val(t))
    }
}

/// A port suffix is one to five digits valued at most 65535.
pub open spec fn spec_port_ok(t: Seq<char>) -> bool {
    1 <= t.len() <= 5 && spec_all_digits(t) && spec_digits_val(t) <= 65535
}

/// The dotted-quad reading of `s`: exactly four octets.
pub open spec fn spec_parse_ipv4(s: Seq<char>) -> Option<IpKey> {
    match spec_find_char(s, '.', 0) {
        None => None,
        Some(i1) => match spec_find_char(s, '.', i1 + 1) {
            None => None,
            Some(i2) => match spec_find_char(s, '.', i2 + 1) {
                None => None,
                Some(i3) => if spec_find_char(s, '.', i3 + 1) is Some {
                    None
                } else {
                    match (
                        spec_parse_octet(s.subrange(0, i1)),
                        spec_parse_octet(s.subrange(i1 + 1, i2)),
                        spec_parse_octet(s.subrange(i2 + 1, i3)),
                        spec_parse_octet(s.subrange(i3 + 1, s.len() as int)),
                    ) {
                        (Some(a), Some(b), Some(c), Some(d)) => Some(
                            IpKey::V4(a as u8, b as u8, c as u8, d as u8),
                        ),
                        _ => None,
                    }
                },
            },
        },
    }
}

/// A hexadecimal digit, either case.
pub open spec fn spec_is_hex_digit(c: char) -> bool {
    ('0' <= c && c <= '9') || ('a' <= c && c <= 'f') || ('A' <= c && c <= 'F')
}

/// The value of a hexadecimal digit.
pub open spec fn spec_hex_digit_val(c: char) -> int {
    if '0' <= c && c <= '9' {
        (c as int) - 48
    } else if 'a' <= c && c <= 'f' {
        (c as int) - 87
    } else {
        (c as int) - 55
    }
}

/// Every character of `t` is a hexadecimal digit.
pub open spec fn spec_all_hex_digits(t: Seq<char>) -> bool {
    forall|j: int| 0 <= j < t.len() ==> spec_is_hex_digit(t[j])
}

/// The value of a hexadecimal digit string.
pub open spec fn spec_hex_val(t: Seq<char>) -> int
    decreases t.len(),
{
    if t.len() == 0 {
        0
    } else {
        spec_hex_val(t.drop_last()) * 16 + spec_hex_digit_val(t.last())
    }
}

/// The value of one hexadecimal address group: one to four hex digits,
/// leading zeros allowed.
pub open spec fn spec_hex_group(t: Seq<char>) -> Option<int> {
    if 1 <= t.len() <= 4 && spec_all_hex_digits(t) {
        Some(spec_hex_val(t))
    } else {
        None
    }
}

/// The colon-separated parts of `s` from position `i` on, empty parts
/// kept.
pub open spec fn spec_split_colon(s: Seq<char>, i: int) -> Seq<Seq<char>>
    decreases s.len() + 1 - i,
{
    if i < 0 || i > s.len() {
        Seq::empty()
    } else {
        match spec_find_char(s, ':', i) {
            None => seq![s.subrange(i, s.len() as int)],
            Some(j) => if i <= j < s.len() {
                seq![s.subrange(i, j)] + spec_split_colon(s, j + 1)
            } else {
                Seq::empty()
            },
        }
    }
}

/// The group values of a part list: each part one hexadecimal group,
/// except that the last part alone may be a dotted quad standing for the
/// two final groups.
pub open spec fn spec_parse_groups(parts: Seq<Seq<char>>, v4_last: bool) -> Option<Seq<int>>
    decreases parts.len(),
{
    if parts.len() == 0 {
        Some(Seq::empty())
    } else if parts.len() == 1 {
        match spec_hex_group(parts[0]) {
            Some(v) => Some(seq![v]),
            None => if v4_last {
                match spec_parse_ipv4(parts[0]) {
                    Some(IpKey::V4(a, b, c, d)) => Some(
                        seq![(a as int) * 256 + (b as int), (c as int) * 256 + (d as int)],
                    ),
                    _ => None,
                }
            } else {
                None
            },
        }
    } else {
        match (spec_hex_group(parts[0]), spec_parse_groups(parts.drop_first(), v4_last)) {
            (Some(v), Some(rest)) => Some(seq![v] + rest),
            _ => None,
        }
    }
}

/// The first position of a double colon from `i` on.
pub open spec fn spec_find_dd(s: Seq<char>, i: int) -> Option<int>
    decreases s.len() + 1 - i,
{
    if i < 0 || i + 2 > s.len() {
        None
    } else if s[i] == ':' && s[i + 1] == ':' {
        Some(i)
    } else {
        spec_find_dd(s, i + 1)
    }
}

/// `n` zero groups.
pub open spec fn spec_zero_groups(n: int) -> Seq<int> {
    Seq::new(n as nat, |i: int| 0)
}

/// The key of a full list of eight group values.
pub open spec fn spec_groups_key(gs: Seq<int>) -> IpKey {
    IpKey::V6(
        gs[0] as u16,
        gs[1] as u16,
        gs[2] as u16,
        gs[3] as u16,
        gs[4] as u16,
        gs[5] as u16,
        gs[6] as u16,
        gs[7] as u16,
    )
}

/// The hexadecimal-groups reading of `s`: eight groups, or a single `::`
/// standing for the missing zero groups, the last two groups optionally
/// written as a dotted quad.
pub open spec fn spec_parse_ipv6(s: Seq<char>) -> Option<IpKey> {
    match spec_find_dd(s, 0) {
        None => match spec_parse_groups(spec_split_colon(s, 0), true) {
            Some(gs) => if gs.len() == 8 {
                Some(spec_groups_key(gs))
            } else {
                None
            },
            None => None,
        },
        Some(i) => {
            let head = s.subrange(0, i);
            let tail = s.subrange(i + 2, s.len() as int);
            let hg = if head.len() == 0 {
                Some(Seq::<int>::empty())
            } else {
                spec_parse_groups(spec_split_colon(head, 0), false)
            };
            let tg = if tail.len() == 0 {
                Some(Seq::<int>::empty())
            } else {
                spec_parse_groups(spec_split_colon(tail, 0), true)
            };
            match (hg, tg) {
                (Some(h), Some(t)) => if h.len() + t.len() <= 7 {
                    Some(spec_groups_key(h + spec_zero_groups(8 - h.len() - t.len()) + t))
                } else {
                    None
                },
                _ => None,
            }
        },
    }
}

/// A numeric zone suffix: one to ten digits valued within 32 bits.
pub open spec fn spec_scope_ok(t: Seq<char>) -> bool {
    1 <= t.len() <= 10 && spec_all_digits(t) && spec_digits_val(t) <= 4294967295
}

/// The bracketed socket form `[address]:port`, the address optionally
/// carrying a `%zone` suffix that the key ignores.
pub open spec fn spec_parse_v6_socket(s: Seq<char>) -> Option<IpKey> {
    match spec_find_char(s, ']', 0) {
        None => None,
        Some(j) => if j < 1 || j + 1 >= s.len() || s[j + 1] != ':' || !spec_port_ok(
            s.subrange(j + 2, s.len() as int),
        ) {
            None
        } else {
            let inside = s.subrange(1, j);
            match spec_find_char(inside, '%', 0) {
                None => spec_parse_ipv6(inside),
                Some(k) => if spec_scope_ok(inside.subrange(k + 1, inside.len() as int)) {
                    spec_parse_ipv6(inside.subrange(0, k))
                } else {
                    None
                },
            }
        },
    }
}

/// The reading of an address string as the request carries it: a
/// bracketed socket, a dotted quad with or without a `:port` suffix, or a
/// bare hexadecimal-groups address.
pub open spec fn spec_parse_ip_or_socket(s: Seq<char>) -> Option<IpKey> {
    if s.len() > 0 && s[0] == '[' {
        spec_parse_v6_socket(s)
    } else {
        match spec_find_char(s, ':', 0) {
            None => spec_parse_ipv4(s),
            Some(i) => if spec_port_ok(s.subrange(i + 1, s.len() as int)) && spec_parse_ipv4(
                s.subrange(0, i),
            ) is Some {
                spec_parse_ipv4(s.subrange(0, i))
            } else {
                spec_parse_ipv6(s)
            },
        }
    }
}

/// The reading of a bare address without a port: a dotted quad, or
/// hexadecimal groups where a colon occurs.
pub open spec fn spec_parse_ip_text(s: Seq<char>) -> Option<IpKey> {
    if spec_find_char(s, ':', 0) is Some {
        spec_parse_ipv6(s)
    } else {
        spec_parse_ipv4(s)
    }
}

/// Reads the digit range `[from, to)` of `s` as an octet value.
fn parse_octet_range(s: &str, from: usize, to: usize) -> (r: Option<u8>)
    requires
        from <= to <= s@.len(),
    ensures
        (match r {
            Some(b) => spec_parse_octet(s@.subrange(from as int, to as int)) == Some(b as int),
            None => spec_parse_octet(s@.subrange(from as int, to as int)) is None,
        }),
{
    let ghost t = s@.subrange(from as int, to as int);
    let len = to - from;
    if len < 1 || len > 3 {
        return None;
    }
    if len > 1 && s.get_char(from) == '0' {
        assert(t[0] == '0');
        return None;
    }
    let mut acc: u32 = 0;
    let mut k: usize = 0;
    while k < len
        invariant
            k <= len,
            1 <= len <= 3,
            from + len == to,
            to <= s@.len(),
            t == s@.subrange(from as int, to as int),
            acc == spec_digits_val(t.take(k as int)),
            acc <= (if k == 0 {
                0int
            } else if k == 1 {
                9int
            } else if k == 2 {
                99int
            } else {
                999int
            }),
            forall|j: int| 0 <= j < k ==> '0' <= t[j] && t[j] <= '9',
        decreases len - k,
    {
        let c = s.get_char(from + k);
        assert(c == t[k as int]);
        if c < '0' || c > '9' {
            assert(!spec_all_digits(t));
            return None;
        }
        let d: u32 = (c as u32) - 48;
        proof {
            assert(t.take(k + 1).drop_last() =~= t.take(k as int));
            assert(t.take(k + 1).last() == t[k as int]);
        }
        acc = acc * 10 + d;
        k = k + 1;
    }
    proof {
        assert(t.take(len as int) =~= t);
    }
    if acc > 255 {
        return None;
    }
    Some(acc as u8)
}

/// Reads the digit range `[from, to)` of `s` as a port suffix.
fn port_ok_range(s: &str, from: usize, to: usize) -> (r: bool)
    requires
        from <= to <= s@.len(),
    ensures
        r == spec_port_ok(s@.subrange(from as int, to as int)),
{
    let ghost t = s@.subrange(from as int, to as int);
    let len = to - from;
    if len < 1 || len > 5 {
        return false;
    }
    let mut acc: u32 = 0;
    let mut k: usize = 0;
    while k < len
        invariant
            k <= len,
            1 <= len <= 5,
            from + len == to,
            to <= s@.len(),
            t == s@.subrange(from as int, to as int),
            acc == spec_digits_val(t.take(k as int)),
            acc <= (if k == 0 {
                0int
            } else if k == 1 {
                9int
            } else if k == 2 {
                99int
            } else if k == 3 {
                999int
            } else if k == 4 {
                9999int
            } else {
                99999int
            }),
            forall|j: int| 0 <= j < k ==> '0' <= t[j] && t[j] <= '9',
        decreases len - k,
    {
        let c = s.get_char(from + k);
        assert(c == t[k as int]);
        if c < '0' || c > '9' {
            assert(!spec_all_digits(t));
            return false;
        }
        let d: u32 = (c as u32) - 48;
        proof {
            assert(t.take(k + 1).drop_last() =~= t.take(k as int));
            assert(t.take(k + 1).last() == t[k as int]);
        }
        acc = acc * 10 + d;
        k = k + 1;
    }
    proof {
        assert(t.take(len as int) =~= t);
    }
    acc <= 65535
}

/// Parses a dotted-quad address.
pub fn parse_ipv4(s: &str) -> (r: Option<IpKey>)
    ensures
        r == spec_parse_ipv4(s@),
{
    let len = s.unicode_len();
    let i1 = match str_find_char_from(s, '.', 0) {
        Some(i) => i,
        None => {
            return None;
        },
    };
    let i2 = match str_find_char_from(s, '.', i1 + 1) {
        Some(i) => i,
        None => {
            return None;
        },
    };
    let i3 = match str_find_char_from(s, '.', i2 + 1) {
        Some(i) => i,
        None => {
            return None;
        },
    };
    if str_find_char_from(s, '.', i3 + 1).is_some() {
        return None;
    }
    let a = match parse_octet_range(s, 0, i1) {
        Some(v) => v,
        None => {
            return None;
        },
    };
    let b = match parse_octet_range(s, i1 + 1, i2) {
        Some(v) => v,
        None => {
            return None;
        },
    };
    let c = match parse_octet_range(s, i2 + 1, i3) {
        Some(v) => v,
        None => {
            return None;
        },
    };
    let d = match parse_octet_range(s, i3 + 1, len) {
        Some(v) => v,
        None => {
            return None;
        },
    };
    Some(IpKey::V4(a, b, c, d))
}

/// Parses one hexadecimal group.
fn parse_hex_group(part: &str) -> (r: Option<u16>)
    ensures
        (match r {
            Some(v) => spec_hex_group(part@) == Some(v as int),
            None => spec_hex_group(part@) is None,
        }),
{
    let ghost t = part@;
    let len = part.unicode_len();
    if len < 1 || len > 4 {
        return None;
    }
    let mut acc: u32 = 0;
    let mut k: usize = 0;
    while k < len
        invariant
            k <= len,
            1 <= len <= 4,
            len == t.len(),
            t == part@,
            acc == spec_hex_val(t.take(k as int)),
            acc <= (if k == 0 {
                0int
            } else if k == 1 {
                15int
            } else if k == 2 {
                255int
            } else if k == 3 {
                4095int
            } else {
                65535int
            }),
            forall|j: int| 0 <= j < k ==> spec_is_hex_digit(t[j]),
        decreases len - k,
    {
        let c = part.get_char(k);
        assert(c == t[k as int]);
        let d: u32 = if '0' <= c && c <= '9' {
            (c as u32) - 48
        } else if 'a' <= c && c <= 'f' {
            (c as u32) - 87
        } else if 'A' <= c && c <= 'F' {
            (c as u32) - 55
        } else {
            assert(!spec_is_hex_digit(t[k as int]));
            return None;
        };
        proof {
            assert(t.take(k + 1).drop_last() =~= t.take(k as int));
            assert(t.take(k + 1).last() == t[k as int]);
        }
        acc = acc * 16 + d;
        k = k + 1;
    }
    proof {
        assert(t.take(len as int) =~= t);
    }
    Some(acc as u16)
}

/// Splits `s` at every colon, keeping empty parts.
fn split_colon(s: &str) -> (parts: Vec<String>)
    ensures
        parts.deep_view() == spec_split_colon(s@, 0),
{
    let len = s.unicode_len();
    let mut parts: Vec<String> = Vec::new();
    let mut start: usize = 0;
    loop
        invariant
            start <= len,
            len == s@.len(),
            spec_split_colon(s@, 0) == parts.deep_view() + spec_split_colon(s@, start as int),
        decreases len - start,
    {
        let ghost pre = parts.deep_view();
        match str_find_char_from(s, ':', start) {
            Some(j) => {
                let part = str_range_owned(s, start, j);
                let ghost pv = part@;
                parts.push(part);
                proof {
                    assert(parts.deep_view() =~= pre.push(pv));
                    assert(spec_split_colon(s@, start as int) == seq![
                        s@.subrange(start as int, j as int),
                    ] + spec_split_colon(s@, j + 1));
                    assert(spec_split_colon(s@, 0) == parts.deep_view() + spec_split_colon(
                        s@,
                        j + 1,
                    )) by {
                        assert(parts.deep_view() + spec_split_colon(s@, j + 1) =~= pre
                            + spec_split_colon(s@, start as int));
                    }
                }
                start = j + 1;
            },
            None => {
                let part = str_range_owned(s, start, len);
                let ghost pv = part@;
                parts.push(part);
                proof {
                    assert(parts.deep_view() =~= pre.push(pv));
                    assert(spec_split_colon(s@, start as int) == seq![
                        s@.subrange(start as int, len as int),
                    ]);
                    assert(parts.deep_view() =~= pre + spec_split_colon(s@, start as int));
                }
                return parts;
            },
        }
    }
}

/// Parses a part list into group values.
fn parse_groups(parts: &Vec<String>, v4_last: bool) -> (r: Option<Vec<u16>>)
    ensures
        (match r {
            Some(gs) => spec_parse_groups(parts.deep_view(), v4_last) == Some(
                gs@.map_values(|g: u16| g as int),
            ),
            None => spec_parse_groups(parts.deep_view(), v4_last) is None,
        }),
{
    let ghost all = parts.deep_view();
    let n = parts.len();
    let mut gs: Vec<u16> = Vec::new();
    let mut i: usize = 0;
    proof {
        assert(all.skip(0) =~= all);
        if spec_parse_groups(all, v4_last) is Some {
            let whole = spec_parse_groups(all, v4_last)->0;
            assert(gs@.map_values(|g: u16| g as int) + whole =~= whole);
        }
    }
    while i < n
        invariant
            i <= n,
            n == parts.len(),
            all == parts.deep_view(),
            spec_parse_groups(all, v4_last) == (match spec_parse_groups(
                all.skip(i as int),
                v4_last,
            ) {
                Some(rest) => Some(gs@.map_values(|g: u16| g as int) + rest),
                None => None::<Seq<int>>,
            }),
        decreases n - i,
    {
        let ghost pre_map = gs@.map_values(|g: u16| g as int);
        let part = parts[i].as_str();
        proof {
            assert(all[i as int] == parts@[i as int]@);
            assert(all.skip(i as int).drop_first() =~= all.skip(i + 1));
            assert(all.skip(i as int)[0] == all[i as int]);
        }
        match parse_hex_group(part) {
            Some(v) => {
                gs.push(v);
                proof {
                    assert(gs@.map_values(|g: u16| g as int) =~= pre_map.push(v as int));
                    assert(pre_map.push(v as int) =~= pre_map + seq![v as int]);
                    if i + 1 < n {
                        if spec_parse_groups(all.skip(i + 1), v4_last) is Some {
                            let rest = spec_parse_groups(all.skip(i + 1), v4_last)->0;
                            assert(pre_map + (seq![v as int] + rest) =~= (pre_map + seq![
                                v as int,
                            ]) + rest);
                        }
                    } else {
                        assert(all.skip(i as int).len() == 1);
                        assert(all.skip(i + 1) =~= Seq::<Seq<char>>::empty());
                    }
                }
                i = i + 1;
            },
            None => {
                if i + 1 == n && v4_last {
                    proof {
                        assert(all.skip(i as int).len() == 1);
                    }
                    match parse_ipv4(part) {
                        Some(IpKey::V4(a, b, c, d)) => {
                            let g1: u16 = (a as u16) * 256 + (b as u16);
                            let g2: u16 = (c as u16) * 256 + (d as u16);
                            gs.push(g1);
                            gs.push(g2);
                            proof {
                                assert(gs@.map_values(|g: u16| g as int) =~= pre_map + seq![
                                    g1 as int,
                                    g2 as int,
                                ]);
                                assert(g1 as int == (a as int) * 256 + (b as int));
                                assert(g2 as int == (c as int) * 256 + (d as int));
                                assert(all.skip(i + 1) =~= Seq::<Seq<char>>::empty());
                            }
                            i = i + 1;
                        },
                        _ => {
                            return None;
                        },
                    }
                } else {
                    return None;
                }
            },
        }
    }
    proof {
        assert(all.skip(n as int) =~= Seq::<Seq<char>>::empty());
        assert(gs@.map_values(|g: u16| g as int) + Seq::<int>::empty() =~= gs@.map_values(
            |g: u16| g as int,
        ));
    }
    Some(gs)
}

proof fn lemma_find_dd_hit(s: Seq<char>, m: int, i: int)
    requires
        0 <= m <= i,
        i + 2 <= s.len(),
        s[i] == ':' && s[i + 1] == ':',
        forall|j: int| m <= j < i ==> !((#[trigger] s[j]) == ':' && s[j + 1] == ':'),
    ensures
        spec_find_dd(s, m) == Some(i),
    decreases i - m,
{
    if m < i {
        lemma_find_dd_hit(s, m + 1, i);
    }
}

proof fn lemma_find_dd_miss(s: Seq<char>, m: int)
    requires
        0 <= m,
        forall|j: int|
            m <= j && j + 2 <= s.len() ==> !((#[trigger] s[j]) == ':' && s[j + 1] == ':'),
    ensures
        spec_find_dd(s, m) is None,
    decreases s.len() + 1 - m,
{
    if m + 2 <= s.len() {
        lemma_find_dd_miss(s, m + 1);
    }
}

/// The position of the first double colon of `s`.
fn find_double_colon(s: &str) -> (r: Option<usize>)
    ensures
        (match r {
            Some(i) => spec_find_dd(s@, 0) == Some(i as int) && i + 2 <= s@.len(),
            None => spec_find_dd(s@, 0) is None,
        }),
{
    let len = s.unicode_len();
    if len < 2 {
        proof {
            lemma_find_dd_miss(s@, 0);
        }
        return None;
    }
    let mut i: usize = 0;
    while i < len - 1
        invariant
            i <= len,
            2 <= len,
            len == s@.len(),
            forall|j: int| 0 <= j < i ==> !((#[trigger] s@[j]) == ':' && s@[j + 1] == ':'),
        decreases len - i,
    {
        if s.get_char(i) == ':' && s.get_char(i + 1) == ':' {
            proof {
                lemma_find_dd_hit(s@, 0, i as int);
            }
            return Some(i);
        }
        i = i + 1;
    }
    proof {
        lemma_find_dd_miss(s@, 0);
    }
    None
}

/// Reads the digit range `[from, to)` of `s` as a zone value.
fn scope_ok_range(s: &str, from: usize, to: usize) -> (r: bool)
    requires
        from <= to <= s@.len(),
    ensures
        r == spec_scope_ok(s@.subrange(from as int, to as int)),
{
    let ghost t = s@.subrange(from as int, to as int);
    let len = to - from;
    if len < 1 || len > 10 {
        return false;
    }
    let mut acc: u64 = 0;
    let mut k: usize = 0;
    while k < len
        invariant
            k <= len,
            1 <= len <= 10,
            from + len == to,
            to <= s@.len(),
            t == s@.subrange(from as int, to as int),
            acc == spec_digits_val(t.take(k as int)),
            acc <= (if k == 0 {
                0int
            } else if k == 1 {
                9int
            } else if k == 2 {
                99int
            } else if k == 3 {
                999int
            } else if k == 4 {
                9999int
            } else if k == 5 {
                99999int
            } else if k == 6 {
                999999int
            } else if k == 7 {
                9999999int
            } else if k == 8 {
                99999999int
            } else if k == 9 {
                999999999int
            } else {
                9999999999int
            }),
            forall|j: int| 0 <= j < k ==> '0' <= t[j] && t[j] <= '9',
        decreases len - k,
    {
        let c = s.get_char(from + k);
        assert(c == t[k as int]);
        if c < '0' || c > '9' {
            assert(!spec_all_digits(t));
            return false;
        }
        let d: u64 = ((c as u32) - 48) as u64;
        proof {
            assert(t.take(k + 1).drop_last() =~= t.take(k as int));
            assert(t.take(k + 1).last() == t[k as int]);
        }
        acc = acc * 10 + d;
        k = k + 1;
    }
    proof {
        assert(t.take(len as int) =~= t);
    }
    acc <= 4294967295
}

/// Parses a bare hexadecimal-groups address.
pub fn parse_ipv6(s: &str) -> (r: Option<IpKey>)
    ensures
        r == spec_parse_ipv6(s@),
{
    match find_double_colon(s) {
        None => {
            let parts = split_colon(s);
            match parse_groups(&parts, true) {
                Some(gs) => {
                    if gs.len() == 8 {
                        let key = IpKey::V6(
                            gs[0],
                            gs[1],
                            gs[2],
                            gs[3],
                            gs[4],
                            gs[5],
                            gs[6],
                            gs[7],
                        );
                        proof {
                            let m = gs@.map_values(|g: u16| g as int);
                            assert(m[0] == gs@[0] as int);
                            assert(m[1] == gs@[1] as int);
                            assert(m[2] == gs@[2] as int);
                            assert(m[3] == gs@[3] as int);
                            assert(m[4] == gs@[4] as int);
                            assert(m[5] == gs@[5] as int);
                            assert(m[6] == gs@[6] as int);
                            assert(m[7] == gs@[7] as int);
                            assert(key == spec_groups_key(m));
                        }
                        Some(key)
                    } else {
                        None
                    }
                },
                None => None,
            }
        },
        Some(i) => {
            let len = s.unicode_len();
            let head = s.substring_char(0, i);
            let tail = s.substring_char(i + 2, len);
            let h_groups: Option<Vec<u16>> = if head.is_empty() {
                let none_yet: Vec<u16> = Vec::new();
                proof {
                    assert(none_yet@.map_values(|g: u16| g as int) =~= Seq::<int>::empty());
                }
                Some(none_yet)
            } else {
                let hp = split_colon(head);
                parse_groups(&hp, false)
            };
            let t_groups: Option<Vec<u16>> = if tail.is_empty() {
                let none_yet: Vec<u16> = Vec::new();
                proof {
                    assert(none_yet@.map_values(|g: u16| g as int) =~= Seq::<int>::empty());
                }
                Some(none_yet)
            } else {
                let tp = split_colon(tail);
                parse_groups(&tp, true)
            };
            match (h_groups, t_groups) {
                (Some(hv), Some(tv)) => {
                    let hn = hv.len();
                    let tn = tv.len();
                    if hn <= 7 && tn <= 7 - hn {
                        let zn = 8 - hn - tn;
                        let mut gs: Vec<u16> = Vec::new();
                        let mut a: usize = 0;
                        while a < hn
                            invariant
                                a <= hn,
                                hn == hv.len(),
                                gs@ == hv@.take(a as int),
                            decreases hn - a,
                        {
                            gs.push(hv[a]);
                            proof {
                                assert(hv@.take(a + 1) =~= hv@.take(a as int).push(
                                    hv@[a as int],
                                ));
                            }
                            a = a + 1;
                        }
                        proof {
                            assert(hv@.take(hn as int) =~= hv@);
                        }
                        let mut b: usize = 0;
                        while b < zn
                            invariant
                                b <= zn,
                                hn == hv.len(),
                                gs@ == hv@ + Seq::new(b as nat, |x: int| 0u16),
                            decreases zn - b,
                        {
                            gs.push(0u16);
                            proof {
                                assert(gs@ =~= hv@ + Seq::new((b + 1) as nat, |x: int| 0u16));
                            }
                            b = b + 1;
                        }
                        let mut cc: usize = 0;
                        while cc < tn
                            invariant
                                cc <= tn,
                                tn == tv.len(),
                                hn == hv.len(),
                                gs@ == hv@ + Seq::new(zn as nat, |x: int| 0u16) + tv@.take(
                                    cc as int,
                                ),
                            decreases tn - cc,
                        {
                            gs.push(tv[cc]);
                            proof {
                                assert(tv@.take(cc + 1) =~= tv@.take(cc as int).push(
                                    tv@[cc as int],
                                ));
                                assert(gs@ =~= hv@ + Seq::new(zn as nat, |x: int| 0u16)
                                    + tv@.take(cc + 1));
                            }
                            cc = cc + 1;
                        }
                        proof {
                            assert(tv@.take(tn as int) =~= tv@);
                        }
                        assert(gs.len() == 8);
                        let key = IpKey::V6(
                            gs[0],
                            gs[1],
                            gs[2],
                            gs[3],
                            gs[4],
                            gs[5],
                            gs[6],
                            gs[7],
                        );
                        proof {
                            let hm = hv@.map_values(|g: u16| g as int);
                            let tm = tv@.map_values(|g: u16| g as int);
                            let target = hm + spec_zero_groups(8 - hn - tn) + tm;
                            assert(gs@.map_values(|g: u16| g as int) =~= target) by {
                                assert forall|j: int|
                                    0 <= j < 8 implies gs@.map_values(|g: u16| g as int)[j]
                                    == target[j] by {
                                    if j < hn {
                                        assert(gs@[j] == hv@[j]);
                                    } else if j < hn + zn {
                                        assert(gs@[j] == 0u16);
                                    } else {
                                        assert(gs@[j] == tv@[j - hn - zn]);
                                    }
                                }
                            }
                            let m = gs@.map_values(|g: u16| g as int);
                            assert(m[0] == gs@[0] as int);
                            assert(m[1] == gs@[1] as int);
                            assert(m[2] == gs@[2] as int);
                            assert(m[3] == gs@[3] as int);
                            assert(m[4] == gs@[4] as int);
                            assert(m[5] == gs@[5] as int);
                            assert(m[6] == gs@[6] as int);
                            assert(m[7] == gs@[7] as int);
                            assert(key == spec_groups_key(target));
                        }
                        Some(key)
                    } else {
                        None
                    }
                },
                _ => None,
            }
        },
    }
}

/// Parses the bracketed socket form `[address]:port`.
fn parse_v6_socket(s: &str) -> (r: Option<IpKey>)
    ensures
        r == spec_parse_v6_socket(s@),
{
    let len = s.unicode_len();
    match str_find_char_from(s, ']', 0) {
        None => None,
        Some(j) => {
            if j < 1 || j + 1 >= len {
                return None;
            }
            if s.get_char(j + 1) != ':' {
                return None;
            }
            if !port_ok_range(s, j + 2, len) {
                return None;
            }
            let inside = s.substring_char(1, j);
            let in_len = inside.unicode_len();
            match str_find_char_from(inside, '%', 0) {
                None => parse_ipv6(inside),
                Some(k) => {
                    if scope_ok_range(inside, k + 1, in_len) {
                        let addr = inside.substring_char(0, k);
                        parse_ipv6(addr)
                    } else {
                        None
                    }
                },
            }
        },
    }
}

/// Parses an address string as the request carries it: a bracketed
/// socket, a dotted quad with or without a `:port` suffix, or a bare
/// hexadecimal-groups address.
pub fn parse_ip_or_socket(s: &str) -> (r: Option<IpKey>)
    ensures
        r == spec_parse_ip_or_socket(s@),
{
    let len = s.unicode_len();
    if len > 0 && s.get_char(0) == '[' {
        return parse_v6_socket(s);
    }
    match str_find_char_from(s, ':', 0) {
        None => parse_ipv4(s),
        Some(i) => {
            if port_ok_range(s, i + 1, len) {
                let head = s.substring_char(0, i);
                match parse_ipv4(head) {
                    Some(k) => Some(k),
                    None => parse_ipv6(s),
                }
            } else {
                parse_ipv6(s)
            }
        },
    }
}

/// Parses a bare address of either family, as the configuration writes
/// one.
pub fn parse_ip_text(s: &str) -> (r: Option<IpKey>)
    ensures
        r == spec_parse_ip_text(s@),
{
    match str_find_char_from(s, ':', 0) {
        Some(_) => parse_ipv6(s),
        None => parse_ipv4(s),
    }
}

// ------------------------------------------------------------------
// Key extraction
// ------------------------------------------------------------------

/// The admission key of a request whose peer is not the trusted proxy.
pub open spec fn spec_extract_untrusted(peer_text: Option<Seq<char>>) -> Result<
    IpKey,
    AdmissionError,
> {
    match peer_text {
        Some(t) => match spec_parse_ip_or_socket(t) {
            Some(k) => Ok(k),
            None => Err(AdmissionError::PeerIpUnavailable),
        },
        None => Err(AdmissionError::PeerIpUnavailable),
    }
}

/// The admission key of a request: a peer equal to the trusted proxy is
/// keyed by the forwarded address it relays; any other peer is keyed by
/// its own address, and its forwarded header carries no weight.
pub open spec fn spec_extract(
    trusted: IpKey,
    peer: Option<IpKey>,
    forwarded: Option<Seq<char>>,
    peer_text: Option<Seq<char>>,
) -> Result<IpKey, AdmissionError> {
    match peer {
        Some(p) => if p == trusted {
            match forwarded {
                Some(f) => match spec_parse_ip_or_socket(f) {
                    Some(k) => Ok(k),
                    None => Err(AdmissionError::RealIpUnavailable),
                },
                None => Err(AdmissionError::RealIpUnavailable),
            }
        } else {
            spec_extract_untrusted(peer_text)
        },
        None => spec_extract_untrusted(peer_text),
    }
}

/// The admission-control key extractor.
#[derive(Debug, Clone, Copy, PartialEq, Eq, Structural)]
pub struct IpExtractor;

impl IpExtractor {
    /// The extractor's display name.
    pub fn name(&self) -> (r: &'static str)
        ensures
            r@ == "real IP"@,
    {
        "real IP"
    }

    /// Extracts the admission key of one request. `peer` is the direct
    /// peer address, `forwarded` the proxy-supplied forwarded address,
    /// `peer_text` the peer socket address as text; each as far as the
    /// request carries it.
    pub fn extract(
        &self,
        trusted_proxy: &IpKey,
        peer: &Option<IpKey>,
        forwarded: &Option<String>,
        peer_text: &Option<String>,
    ) -> (r: Result<IpKey, AdmissionError>)
        ensures
            r == spec_extract(*trusted_proxy, *peer, forwarded.deep_view(), peer_text.deep_view()),
    {
        let trusted_path = match peer {
            Some(p) => *p == *trusted_proxy,
            None => false,
        };
        if trusted_path {
            match forwarded {
                Some(f) => match parse_ip_or_socket(f.as_str()) {
                    Some(k) => Ok(k),
                    None => Err(AdmissionError::RealIpUnavailable),
                },
                None => Err(AdmissionError::RealIpUnavailable),
            }
        } else {
            match peer_text {
                Some(t) => match parse_ip_or_socket(t.as_str()) {
                    Some(k) => Ok(k),
                    None => Err(AdmissionError::PeerIpUnavailable),
                },
                None => Err(AdmissionError::PeerIpUnavailable),
            }
        }
    }

    /// The fixed, content-free body answered when the rate limit is
    /// exceeded: it names no retry timing.
    pub fn exceed_rate_limit_body(&self) -> (r: &'static str)
        ensures
            r@ == "Too many requests"@,
    {
        "Too many requests"
    }

    /// The textual form of a key, for the request log.
    pub fn key_name(&self, key: &IpKey) -> (r: Option<String>)
        ensures
            (match r {
                Some(t) => t@ == spec_ip_text(*key),
                None => false,
            }),
    {
        Some(ip_text(key))
    }
}

/// Reads the configured trusted-proxy address at startup: a text that
/// does not parse as a bare address of either family is a fatal
/// configuration error, and the process must not start with it.
pub fn trusted_proxy_key(text: &str) -> (r: Result<IpKey, ConfigError>)
    ensures
        (match r {
            Ok(k) => spec_parse_ip_text(text@) == Some(k),
            Err(e) => spec_parse_ip_text(text@) is None && e == ConfigError::BadProxyIp,
        }),
{
    match parse_ip_text(text) {
        Some(k) => Ok(k),
        None => Err(ConfigError::BadProxyIp),
    }
}

/// A forwarded header from a peer other than the trusted proxy is ignored:
/// the extracted key is the same as if the header were absent.
pub proof fn lemma_spoofed_forwarded_ignored(
    trusted: IpKey,
    peer: IpKey,
    forwarded: Option<Seq<char>>,
    peer_text: Option<Seq<char>>,
)
    requires
        peer != trusted,
    ensures
        spec_extract(trusted, Some(peer), forwarded, peer_text) == spec_extract(
            trusted,
            Some(peer),
            None,
            peer_text,
        ),
{
}

// ------------------------------------------------------------------
// Key rendering
// ------------------------------------------------------------------

/// The hexadecimal digits of a non-negative number, most significant
/// first, lower case.
pub open spec fn spec_hex_digits(n: int) -> Seq<char>
    decreases n,
{
    if n < 16 {
        seq![spec_hex_digit_char(n)]
    } else {
        spec_hex_digits(n / 16) + seq![spec_hex_digit_char(n % 16)]
    }
}

/// The hexadecimal digit character for a value below sixteen.
pub open spec fn spec_hex_digit_char(d: int) -> char {
    if d < 10 {
        spec_digit_char(d)
    } else if d == 10 {
        'a'
    } else if d == 11 {
        'b'
    } else if d == 12 {
        'c'
    } else if d == 13 {
        'd'
    } else if d == 14 {
        'e'
    } else {
        'f'
    }
}

/// The textual form of a key: dotted decimal for a version-4 address;
/// eight colon-separated hexadecimal groups, without leading zeros and
/// without `::` compression, for a version-6 address.
pub open spec fn spec_ip_text(k: IpKey) -> Seq<char> {
    match k {
        IpKey::V4(a, b, c, d) => spec_dec_digits(a as int) + "."@ + spec_dec_digits(b as int)
            + "."@ + spec_dec_digits(c as int) + "."@ + spec_dec_digits(d as int),
        IpKey::V6(g0, g1, g2, g3, g4, g5, g6, g7) => spec_hex_digits(g0 as int) + ":"@
            + spec_hex_digits(g1 as int) + ":"@ + spec_hex_digits(g2 as int) + ":"@
            + spec_hex_digits(g3 as int) + ":"@ + spec_hex_digits(g4 as int) + ":"@
            + spec_hex_digits(g5 as int) + ":"@ + spec_hex_digits(g6 as int) + ":"@
            + spec_hex_digits(g7 as int),
    }
}

/// The one-character string of a hexadecimal digit.
fn hex_digit_str(d: u16) -> (r: &'static str)
    requires
        d < 16,
    ensures
        r@ == seq![spec_hex_digit_char(d as int)],
{
    if d == 0 {
        proof {
            reveal_strlit("0");
        }
        assert("0"@ =~= seq![spec_hex_digit_char(0)]);
        "0"
    } else if d == 1 {
        proof {
            reveal_strlit("1");
        }
        assert("1"@ =~= seq![spec_hex_digit_char(1)]);
        "1"
    } else if d == 2 {
        proof {
            reveal_strlit("2");
        }
        assert("2"@ =~= seq![spec_hex_digit_char(2)]);
        "2"
    } else if d == 3 {
        proof {
            reveal_strlit("3");
        }
        assert("3"@ =~= seq![spec_hex_digit_char(3)]);
        "3"
    } else if d == 4 {
        proof {
            reveal_strlit("4");
        }
        assert("4"@ =~= seq![spec_hex_digit_char(4)]);
        "4"
    } else if d == 5 {
        proof {
            reveal_strlit("5");
        }
        assert("5"@ =~= seq![spec_hex_digit_char(5)]);
        "5"
    } else if d == 6 {
        proof {
            reveal_strlit("6");
        }
        assert("6"@ =~= seq![spec_hex_digit_char(6)]);
        "6"
    } else if d == 7 {
        proof {
            reveal_strlit("7");
        }
        assert("7"@ =~= seq![spec_hex_digit_char(7)]);
        "7"
    } else if d == 8 {
        proof {
            reveal_strlit("8");
        }
        assert("8"@ =~= seq![spec_hex_digit_char(8)]);
        "8"
    } else if d == 9 {
        proof {
            reveal_strlit("9");
        }
        assert("9"@ =~= seq![spec_hex_digit_char(9)]);
        "9"
    } else if d == 10 {
        proof {
            reveal_strlit("a");
        }
        assert("a"@ =~= seq![spec_hex_digit_char(10)]);
        "a"
    } else if d == 11 {
        proof {
            reveal_strlit("b");
        }
        assert("b"@ =~= seq![spec_hex_digit_char(11)]);
        "b"
    } else if d == 12 {
        proof {
            reveal_strlit("c");
        }
        assert("c"@ =~= seq![spec_hex_digit_char(12)]);
        "c"
    } else if d == 13 {
        proof {
            reveal_strlit("d");
        }
        assert("d"@ =~= seq![spec_hex_digit_char(13)]);
        "d"
    } else if d == 14 {
        proof {
            reveal_strlit("e");
        }
        assert("e"@ =~= seq![spec_hex_digit_char(14)]);
        "e"
    } else {
        proof {
            reveal_strlit("f");
        }
        assert("f"@ =~= seq![spec_hex_digit_char(15)]);
        "f"
    }
}

/// The hexadecimal rendering of a group value.
fn u16_hex_text(n: u16) -> (r: String)
    ensures
        r@ == spec_hex_digits(n as int),
    decreases n,
{
    if n < 16 {
        hex_digit_str(n).to_owned()
    } else {
        let mut prefix = u16_hex_text(n / 16);
        prefix.append(hex_digit_str(n % 16));
        prefix
    }
}

/// Renders a key as text.
pub fn ip_text(key: &IpKey) -> (r: String)
    ensures
        r@ == spec_ip_text(*key),
{
    match key {
        IpKey::V4(a, b, c, d) => {
            let mut out = u64_text(*a as u64);
            out.append(".");
            out.append(u64_text(*b as u64).as_str());
            out.append(".");
            out.append(u64_text(*c as u64).as_str());
            out.append(".");
            out.append(u64_text(*d as u64).as_str());
            out
        },
        IpKey::V6(g0, g1, g2, g3, g4, g5, g6, g7) => {
            let mut out = u16_hex_text(*g0);
            out.append(":");
            out.append(u16_hex_text(*g1).as_str());
            out.append(":");
            out.append(u16_hex_text(*g2).as_str());
            out.append(":");
            out.append(u16_hex_text(*g3).as_str());
            out.append(":");
            out.append(u16_hex_text(*g4).as_str());
            out.append(":");
            out.append(u16_hex_text(*g5).as_str());
            out.append(":");
            out.append(u16_hex_text(*g6).as_str());
            out.append(":");
            out.append(u16_hex_text(*g7).as_str());
            out
        },
    }
}

} // verus!
