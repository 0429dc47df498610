//! From a request to connect to `host:port` to the target that the transport
//! is asked to open: the host read as an IPv4 address in dotted-quad text,
//! the local end left to the operating system, and no check of the server's
//! certificate.

use crate::protocol::NetworkEvent;
use vstd::prelude::*;
use vstd::string::StrSliceExecFns;

verus! {

/// Whether `c` is one of `0` to `9`.
pub open spec fn is_digit(c: char) -> bool {
    '0' <= c <= '9'
}

/// The number that digit `c` stands for.
pub open spec fn digit_value(c: char) -> int {
    c as int - '0' as int
}

/// The character of the decimal digit `d`.
pub open spec fn digit(d: int) -> char {
    ('0' as int + d) as char
}

/// The decimal text of an octet, without leading zeros.
pub open spec fn octet_text(n: u8) -> Seq<char> {
    if n < 10 {
        seq![digit(n as int)]
    } else if n < 100 {
        seq![digit(n as int / 10), digit(n as int % 10)]
    } else {
        seq![digit(n as int / 100), digit(n as int / 10 % 10), digit(n as int % 10)]
    }
}

/// The dotted-quad text of the IPv4 address `a.b.c.d`.
pub open spec fn dotted_quad(a: u8, b: u8, c: u8, d: u8) -> Seq<char> {
    octet_text(a) + seq!['.'] + octet_text(b) + seq!['.'] + octet_text(c) + seq!['.'] + octet_text(
        d,
    )
}

/// Whether `s` is the dotted-quad text of some IPv4 address.
pub open spec fn is_ipv4_text(s: Seq<char>) -> bool {
    exists|a: u8, b: u8, c: u8, d: u8| dotted_quad(a, b, c, d) == s
}

/// Whether the text of octet `n` stands in `s` from `start` to `end` and no
/// digit follows it.
pub open spec fn octet_at(s: Seq<char>, start: int, n: u8, end: int) -> bool {
    &&& 0 <= start <= end <= s.len()
    &&& s.subrange(start, end) == octet_text(n)
    &&& (end == s.len() || !is_digit(s[end]))
}

/// The text of an octet: one to three digits that spell it, the first of
/// them not `0` unless it is the only one.
proof fn lemma_octet_text(n: u8)
    ensures
        ({
            let t = octet_text(n);
            &&& 1 <= t.len() <= 3
            &&& forall|i: int| 0 <= i < t.len() ==> is_digit(#[trigger] t[i])
            &&& t.len() == 1 ==> n == digit_value(t[0])
            &&& t.len() == 2 ==> t[0] != '0' && n == 10 * digit_value(t[0]) + digit_value(t[1])
            &&& t.len() == 3 ==> t[0] != '0' && n == 100 * digit_value(t[0]) + 10 * digit_value(
                t[1],
            ) + digit_value(t[2])
        }),
{
}

/// At one place of a text at most one octet stands, and it ends at one place.
proof fn lemma_octet_at_unique(s: Seq<char>, start: int, n: u8, end: int, m: u8, end2: int)
    requires
        octet_at(s, start, n, end),
        octet_at(s, start, m, end2),
    ensures
        n == m,
        end == end2,
{
    lemma_octet_text(n);
    lemma_octet_text(m);
    let t = octet_text(n);
    let u = octet_text(m);
    assert(t.len() == end - start);
    assert(u.len() == end2 - start);
    if end < end2 {
        assert(u[end - start] == s.subrange(start, end2)[end - start]);
    }
    if end2 < end {
        assert(t[end2 - start] == s.subrange(start, end)[end2 - start]);
    }
    assert(t =~= u);
    assert(forall|i: int| 0 <= i < t.len() ==> t[i] == u[i]);
}

/// Where the parts of a dotted quad stand in its text.
proof fn lemma_dotted_quad_layout(a: u8, b: u8, c: u8, d: u8)
    ensures
        ({
            let s = dotted_quad(a, b, c, d);
            let p1 = octet_text(a).len() as int;
            let p2 = p1 + 1 + octet_text(b).len();
            let p3 = p2 + 1 + octet_text(c).len();
            &&& s.len() == p3 + 1 + octet_text(d).len()
            &&& s.len() <= 15
            &&& octet_at(s, 0, a, p1)
            &&& s[p1] == '.'
            &&& octet_at(s, p1 + 1, b, p2)
            &&& s[p2] == '.'
            &&& octet_at(s, p2 + 1, c, p3)
            &&& s[p3] == '.'
            &&& octet_at(s, p3 + 1, d, s.len() as int)
        }),
{
    lemma_octet_text(a);
    lemma_octet_text(b);
    lemma_octet_text(c);
    lemma_octet_text(d);
    let s = dotted_quad(a, b, c, d);
    let p1 = octet_text(a).len() as int;
    let p2 = p1 + 1 + octet_text(b).len();
    let p3 = p2 + 1 + octet_text(c).len();
    assert(s.subrange(0, p1) =~= octet_text(a));
    assert(s.subrange(p1 + 1, p2) =~= octet_text(b));
    assert(s.subrange(p2 + 1, p3) =~= octet_text(c));
    assert(s.subrange(p3 + 1, s.len() as int) =~= octet_text(d));
}

/// No two addresses have the same dotted-quad text.
pub proof fn lemma_dotted_quad_injective(
    a: u8,
    b: u8,
    c: u8,
    d: u8,
    a2: u8,
    b2: u8,
    c2: u8,
    d2: u8,
)
    requires
        dotted_quad(a, b, c, d) == dotted_quad(a2, b2, c2, d2),
    ensures
        a == a2 && b == b2 && c == c2 && d == d2,
{
    let s = dotted_quad(a, b, c, d);
    lemma_dotted_quad_layout(a, b, c, d);
    lemma_dotted_quad_layout(a2, b2, c2, d2);
    let p1 = octet_text(a).len() as int;
    let q1 = octet_text(a2).len() as int;
    lemma_octet_at_unique(s, 0, a, p1, a2, q1);
    let p2 = p1 + 1 + octet_text(b).len();
    let q2 = q1 + 1 + octet_text(b2).len();
    lemma_octet_at_unique(s, p1 + 1, b, p2, b2, q2);
    let p3 = p2 + 1 + octet_text(c).len();
    let q3 = q2 + 1 + octet_text(c2).len();
    lemma_octet_at_unique(s, p2 + 1, c, p3, c2, q3);
    lemma_octet_at_unique(s, p3 + 1, d, s.len() as int, d2, s.len() as int);
}

/// The value of the digit that stands in `host` at `i`, if one does.
fn digit_at(host: &str, i: usize) -> (r: Option<u8>)
    requires
        i < host@.len(),
    ensures
        match r {
            Some(v) => is_digit(host@[i as int]) && v == digit_value(host@[i as int]),
            None => !is_digit(host@[i as int]),
        },
{
    let c = host.get_char(i);
    if '0' <= c && c <= '9' {
        Some((c as u32 - '0' as u32) as u8)
    } else {
        None
    }
}

/// Reads the octet that stands in `host` at `start`: its value and the place
/// where its text ends, or `None` where no octet stands there.
fn read_octet(host: &str, len: usize, start: usize) -> (r: Option<(u8, usize)>)
    requires
        len == host@.len(),
        start <= len,
        len <= 15,
    ensures
        match r {
            Some((n, end)) => octet_at(host@, start as int, n, end as int),
            None => forall|n: u8, end: int| !octet_at(host@, start as int, n, end),
        },
{
    let ghost s = host@;
    let mut value: u32 = 0;
    let mut count: usize = 0;
    let mut leading_zero = false;
    while start + count < len && count < 4
        invariant
            s == host@,
            len == s.len(),
            start <= len <= 15,
            count <= 4,
            start + count <= len,
            forall|i: int| start <= i < start + count ==> is_digit(#[trigger] s[i]),
            count == 0 ==> value == 0,
            count == 1 ==> value == digit_value(s[start as int]),
            count == 2 ==> value == 10 * digit_value(s[start as int]) + digit_value(
                s[start + 1],
            ),
            count >= 3 ==> value == 100 * digit_value(s[start as int]) + 10 * digit_value(
                s[start + 1],
            ) + digit_value(s[start + 2]),
            leading_zero == (count >= 1 && s[start as int] == '0'),
        ensures
            start + count == len || count == 4 || !is_digit(s[start + count]),
        decreases 4 - count,
    {
        match digit_at(host, start + count) {
            Some(v) => {
                if count == 0 {
                    leading_zero = v == 0;
                }
                if count < 3 {
                    value = value * 10 + v as u32;
                }
                count = count + 1;
            },
            None => {
                break;
            },
        }
    }
    let ghost end = (start + count) as int;
    if count == 0 || count == 4 || (leading_zero && count > 1) || value > 255 {
        proof {
            assert forall|n: u8, e: int| !octet_at(s, start as int, n, e) by {
                if octet_at(s, start as int, n, e) {
                    lemma_octet_text(n);
                    let t = octet_text(n);
                    assert(t.len() == e - start);
                    assert(forall|i: int|
                        0 <= i < t.len() ==> t[i] == s.subrange(start as int, e)[i]);
                    assert(t[0] == s[start as int]);
                    if e < end {
                        assert(is_digit(s[e]));
                    }
                    if e > end {
                        assert(t[end - start] == s[end]);
                    }
                    if count >= 2 {
                        assert(t[1] == s[start + 1]);
                    }
                    if count >= 3 {
                        assert(t[2] == s[start + 2]);
                    }
                }
            }
        }
        None
    } else {
        let n = value as u8;
        proof {
            lemma_octet_text(n);
            assert(s.subrange(start as int, end) =~= octet_text(n));
        }
        Some((n, start + count))
    }
}

/// Whether `host` has a `.` at `i`.
fn dot_at(host: &str, len: usize, i: usize) -> (r: bool)
    requires
        len == host@.len(),
    ensures
        r == (i < len && host@[i as int] == '.'),
{
    i < len && host.get_char(i) == '.'
}

/// Reads `host` as an IPv4 address in dotted-quad text: four decimal octets
/// without leading zeros, with a `.` between them and nothing else.
pub fn parse_ipv4(host: &str) -> (r: Option<[u8; 4]>)
    ensures
        match r {
            Some(o) => dotted_quad(o[0], o[1], o[2], o[3]) == host@,
            None => !is_ipv4_text(host@),
        },
{
    let ghost s = host@;
    let len = host.unicode_len();
    if len > 15 {
        proof {
            assert forall|a: u8, b: u8, c: u8, d: u8| dotted_quad(a, b, c, d) != s by {
                lemma_dotted_quad_layout(a, b, c, d);
            }
        }
        return None;
    }
    let first = read_octet(host, len, 0);
    proof {
        assert forall|a: u8, b: u8, c: u8, d: u8| dotted_quad(a, b, c, d) == s implies (
        first matches Some((n, e)) && n == a && e == octet_text(a).len() && e < len) by {
            lemma_dotted_quad_layout(a, b, c, d);
            if let Some((n, e)) = first {
                lemma_octet_at_unique(s, 0, n, e as int, a, octet_text(a).len() as int);
            }
        }
    }
    let (a, e1) = match first {
        Some(p) => p,
        None => {
            return None;
        },
    };
    if !dot_at(host, len, e1) {
        proof {
            assert forall|a2: u8, b: u8, c: u8, d: u8| dotted_quad(a2, b, c, d) != s by {
                lemma_dotted_quad_layout(a2, b, c, d);
            }
        }
        return None;
    }
    let second = read_octet(host, len, e1 + 1);
    proof {
        assert forall|a2: u8, b: u8, c: u8, d: u8| dotted_quad(a2, b, c, d) == s implies (
        second matches Some((n, e)) && n == b && e == e1 + 1 + octet_text(b).len() && e < len) by {
            lemma_dotted_quad_layout(a2, b, c, d);
            if let Some((n, e)) = second {
                lemma_octet_at_unique(
                    s,
                    e1 + 1,
                    n,
                    e as int,
                    b,
                    e1 + 1 + octet_text(b).len() as int,
                );
            }
        }
    }
    let (b, e2) = match second {
        Some(p) => p,
        None => {
            return None;
        },
    };
    if !dot_at(host, len, e2) {
        proof {
            assert forall|a2: u8, b2: u8, c: u8, d: u8| dotted_quad(a2, b2, c, d) != s by {
                lemma_dotted_quad_layout(a2, b2, c, d);
            }
        }
        return None;
    }
    let third = read_octet(host, len, e2 + 1);
    proof {
        assert forall|a2: u8, b2: u8, c: u8, d: u8| dotted_quad(a2, b2, c, d) == s implies (
        third matches Some((n, e)) && n == c && e == e2 + 1 + octet_text(c).len() && e < len) by {
            lemma_dotted_quad_layout(a2, b2, c, d);
            if let Some((n, e)) = third {
                lemma_octet_at_unique(
                    s,
                    e2 + 1,
                    n,
                    e as int,
                    c,
                    e2 + 1 + octet_text(c).len() as int,
                );
            }
        }
    }
    let (c, e3) = match third {
        Some(p) => p,
        None => {
            return None;
        },
    };
    if !dot_at(host, len, e3) {
        proof {
            assert forall|a2: u8, b2: u8, c2: u8, d: u8| dotted_quad(a2, b2, c2, d) != s by {
                lemma_dotted_quad_layout(a2, b2, c2, d);
            }
        }
        return None;
    }
    let fourth = read_octet(host, len, e3 + 1);
    proof {
        assert forall|a2: u8, b2: u8, c2: u8, d: u8| dotted_quad(a2, b2, c2, d) == s implies (
        fourth matches Some((n, e)) && n == d && e == len) by {
            lemma_dotted_quad_layout(a2, b2, c2, d);
            if let Some((n, e)) = fourth {
                lemma_octet_at_unique(s, e3 + 1, n, e as int, d, len as int);
            }
        }
    }
    let (d, e4) = match fourth {
        Some(p) => p,
        None => {
            return None;
        },
    };
    if e4 != len {
        return None;
    }
    proof {
        assert(s =~= dotted_quad(a, b, c, d)) by {
            lemma_octet_text(a);
            lemma_octet_text(b);
            lemma_octet_text(c);
            lemma_octet_text(d);
            let t = dotted_quad(a, b, c, d);
            assert(octet_text(a).len() == e1);
            assert(octet_text(b).len() == e2 - e1 - 1);
            assert(octet_text(c).len() == e3 - e2 - 1);
            assert(octet_text(d).len() == e4 - e3 - 1);
            assert(t.len() == s.len());
            assert forall|i: int| 0 <= i < s.len() implies s[i] == t[i] by {
                if i < e1 {
                    assert(s[i] == s.subrange(0, e1 as int)[i]);
                } else if e1 < i < e2 {
                    assert(s[i] == s.subrange(e1 + 1, e2 as int)[i - e1 - 1]);
                } else if e2 < i < e3 {
                    assert(s[i] == s.subrange(e2 + 1, e3 as int)[i - e2 - 1]);
                } else if e3 < i {
                    assert(s[i] == s.subrange(e3 + 1, e4 as int)[i - e3 - 1]);
                }
            }
        }
    }
    Some([a, b, c, d])
}

/// Why a connection request cannot be turned into a target.
#[derive(Debug, Clone, Copy, PartialEq, Eq, Structural)]
pub enum ConnectError {
    /// The host is not an IPv4 address in dotted-quad text.
    MalformedHost,
    /// The transport could not open the connection.
    OpenFailed,
}

/// What the transport is asked to open.
#[derive(Debug, Clone, Copy, PartialEq, Eq)]
pub struct ConnectionTarget {
    /// The server's IPv4 address, octet by octet.
    pub server_ip: [u8; 4],
    pub server_port: u16,
    /// The local address to bind: unspecified, so that the system chooses.
    pub local_ip: [u8; 4],
    /// The local port to bind: 0, so that the system chooses.
    pub local_port: u16,
    /// Whether the server's certificate is checked: it is not.
    pub verify_certificate: bool,
}

/// Whether `t` is the target of a request to connect to `host:port`: the
/// server's address is the one that `host` spells, the port is `port`, the
/// local end is `0.0.0.0:0` and the server's certificate is not checked.
pub open spec fn is_target_of(t: ConnectionTarget, host: Seq<char>, port: u16) -> bool {
    &&& dotted_quad(t.server_ip[0], t.server_ip[1], t.server_ip[2], t.server_ip[3]) == host
    &&& t.server_port == port
    &&& t.local_ip@ == seq![0u8, 0u8, 0u8, 0u8]
    &&& t.local_port == 0
    &&& !t.verify_certificate
}

/// Whether `r` is the answer that the request `event` is owed: its target
/// where the host is an IPv4 address in dotted-quad text, and the error
/// `MalformedHost` where it is not.
pub open spec fn answers(event: NetworkEvent, r: Result<ConnectionTarget, ConnectError>) -> bool {
    match (event, r) {
        (NetworkEvent::ClientConnect(host, port), Ok(t)) => is_target_of(t, host@, port),
        (NetworkEvent::ClientConnect(host, port), Err(e)) => {
            &&& e == ConnectError::MalformedHost
            &&& !is_ipv4_text(host@)
        },
    }
}

/// The target of a connection request, or the reason why it has none.
///
/// The host must be an IPv4 address in dotted-quad text; no other reading of
/// it is tried.
pub fn connection_target(event: &NetworkEvent) -> (r: Result<ConnectionTarget, ConnectError>)
    ensures
        answers(*event, r),
{
    match event {
        NetworkEvent::ClientConnect(host, port) => {
            match parse_ipv4(host.as_str()) {
                Some(server_ip) => Ok(
                    ConnectionTarget {
                        server_ip,
                        server_port: *port,
                        local_ip: [0, 0, 0, 0],
                        local_port: 0,
                        verify_certificate: false,
                    },
                ),
                None => Err(ConnectError::MalformedHost),
            }
        },
    }
}

} // verus!
