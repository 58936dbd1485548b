//! IPv4 socket addresses: their text form and a parser for it.

use vstd::prelude::*;
use crate::text::{
    all_digits, chars_of, decimal, digit_char, digit_value, digits_value, is_digit, lemma_decimal,
    push_decimal, string_of,
};

verus! {

/// An IPv4 socket address: the four octets of the IP address, most
/// significant first, and a port.
#[derive(Clone, Copy, Debug, PartialEq, Eq, Structural)]
pub struct PeerAddr {
    pub a: u8,
    pub b: u8,
    pub c: u8,
    pub d: u8,
    pub port: u16,
}

/// The text of an address, `a.b.c.d:port`, as `SocketAddrV4` displays it.
pub open spec fn addr_text(x: PeerAddr) -> Seq<char> {
    decimal(x.a as nat) + seq!['.'] + decimal(x.b as nat) + seq!['.'] + decimal(x.c as nat)
        + seq!['.'] + decimal(x.d as nat) + seq![':'] + decimal(x.port as nat)
}

/// The first index at or after `i` that does not hold a decimal digit
/// (`s.len()` when there is none).
pub open spec fn digit_end(s: Seq<char>, i: int) -> int
    decreases s.len() - i,
{
    if 0 <= i < s.len() && is_digit(s[i]) {
        digit_end(s, i + 1)
    } else {
        i
    }
}

/// The text of one octet of an IPv4 address: one to three digits, no
/// leading zero, at most 255.
pub open spec fn octet_text_ok(g: Seq<char>) -> bool {
    &&& 1 <= g.len() <= 3
    &&& all_digits(g)
    &&& g.len() > 1 ==> g[0] != '0'
    &&& digits_value(g) <= 255
}

/// The text of a port: at least one digit, leading zeros allowed, at most
/// 65535.
pub open spec fn port_text_ok(g: Seq<char>) -> bool {
    &&& 1 <= g.len()
    &&& all_digits(g)
    &&& digits_value(g) <= 65535
}

/// The octet whose digits start at `i`, with the index that follows them.
pub open spec fn octet_field(s: Seq<char>, i: int) -> Option<(u8, int)> {
    let e = digit_end(s, i);
    if octet_text_ok(s.subrange(i, e)) {
        Some((digits_value(s.subrange(i, e)) as u8, e))
    } else {
        None
    }
}

/// A `.` at `i` followed by an octet.
pub open spec fn dotted_octet(s: Seq<char>, i: int) -> Option<(u8, int)> {
    if 0 <= i < s.len() && s[i] == '.' {
        octet_field(s, i + 1)
    } else {
        None
    }
}

/// A `:` at `i` followed by a port that runs to the end of `s`.
pub open spec fn port_field(s: Seq<char>, i: int) -> Option<u16> {
    if 0 <= i < s.len() && s[i] == ':' {
        let e = digit_end(s, i + 1);
        if e == s.len() && port_text_ok(s.subrange(i + 1, e)) {
            Some(digits_value(s.subrange(i + 1, e)) as u16)
        } else {
            None
        }
    } else {
        None
    }
}

/// The address that `s` denotes, in the syntax that `SocketAddrV4`'s
/// `FromStr` accepts: four dot-separated octets, a colon and a port, and
/// nothing else.
pub open spec fn parse_addr(s: Seq<char>) -> Option<PeerAddr> {
    match octet_field(s, 0) {
        None => None,
        Some((a, e1)) => match dotted_octet(s, e1) {
            None => None,
            Some((b, e2)) => match dotted_octet(s, e2) {
                None => None,
                Some((c, e3)) => match dotted_octet(s, e3) {
                    None => None,
                    Some((d, e4)) => match port_field(s, e4) {
                        None => None,
                        Some(port) => Some(PeerAddr { a, b, c, d, port }),
                    },
                },
            },
        },
    }
}

/// `digit_end` stays within `i ..= s.len()`, passes only digits and stops
/// on a non-digit.
pub proof fn lemma_digit_end(s: Seq<char>, i: int)
    requires
        0 <= i <= s.len(),
    ensures
        i <= digit_end(s, i) <= s.len(),
        digit_end(s, i) < s.len() ==> !is_digit(s[digit_end(s, i)]),
        forall|j: int| i <= j < digit_end(s, i) ==> is_digit(#[trigger] s[j]),
    decreases s.len() - i,
{
    if i < s.len() && is_digit(s[i]) {
        lemma_digit_end(s, i + 1);
    }
}

/// A run of digits from `i` to `j` that a non-digit (or the end) follows
/// ends at `j`.
pub proof fn lemma_digit_end_at(s: Seq<char>, i: int, j: int)
    requires
        0 <= i <= j <= s.len(),
        forall|k: int| i <= k < j ==> is_digit(#[trigger] s[k]),
        j < s.len() ==> !is_digit(s[j]),
    ensures
        digit_end(s, i) == j,
    decreases j - i,
{
    if i < j {
        lemma_digit_end_at(s, i + 1, j);
    }
}

/// A prefix of a digit string is worth no more than the whole string.
pub proof fn lemma_digits_value_prefix(g: Seq<char>, k: int)
    requires
        0 <= k <= g.len(),
    ensures
        digits_value(g.take(k)) <= digits_value(g),
    decreases g.len(),
{
    if k < g.len() {
        assert(g.drop_last().take(k) =~= g.take(k));
        lemma_digits_value_prefix(g.drop_last(), k);
    } else {
        assert(g.take(k) =~= g);
    }
}

/// The index `digit_end(v, i)`.
fn scan_digits(v: &Vec<char>, i: usize) -> (e: usize)
    requires
        i <= v@.len(),
    ensures
        e == digit_end(v@, i as int),
{
    let mut j = i;
    while j < v.len() && '0' <= v[j] && v[j] <= '9'
        invariant
            i <= j <= v@.len(),
            digit_end(v@, i as int) == digit_end(v@, j as int),
        decreases v@.len() - j,
    {
        j = j + 1;
    }
    j
}

/// The value of the digits `v[i..e]`, which are at most three.
fn small_value(v: &Vec<char>, i: usize, e: usize) -> (r: u32)
    requires
        i <= e <= v@.len(),
        e - i <= 3,
        forall|k: int| i <= k < e ==> is_digit(#[trigger] v@[k]),
    ensures
        r == digits_value(v@.subrange(i as int, e as int)),
{
    let mut val: u32 = 0;
    let mut k = i;
    assert(v@.subrange(i as int, i as int) =~= Seq::<char>::empty());
    while k < e
        invariant
            i <= k <= e <= v@.len(),
            e - i <= 3,
            forall|m: int| i <= m < e ==> is_digit(#[trigger] v@[m]),
            val == digits_value(v@.subrange(i as int, k as int)),
            k - i <= 1 ==> val < 10,
            k - i <= 2 ==> val < 100,
            val < 1000,
        decreases e - k,
    {
        assert(v@.subrange(i as int, k + 1).drop_last() =~= v@.subrange(i as int, k as int));
        assert(is_digit(v@[k as int]));
        let dig = (v[k] as u32) - 48;
        val = val * 10 + dig;
        k = k + 1;
    }
    val
}

/// The octet whose digits start at `i`, with the index that follows them.
fn read_octet(v: &Vec<char>, i: usize) -> (r: Option<(u8, usize)>)
    requires
        i <= v@.len(),
    ensures
        match r {
            None => octet_field(v@, i as int) is None,
            Some((x, e)) => octet_field(v@, i as int) == Some((x, e as int)) && i <= e <= v@.len(),
        },
{
    let e = scan_digits(v, i);
    proof {
        lemma_digit_end(v@, i as int);
    }
    let ghost g = v@.subrange(i as int, e as int);
    if e == i || e - i > 3 {
        return None;
    }
    if e - i > 1 && v[i] == '0' {
        assert(g[0] == '0');
        return None;
    }
    let val = small_value(v, i, e);
    if val > 255 {
        None
    } else {
        Some((val as u8, e))
    }
}

/// The port after a `:` at `i`, which must run to the end of `v`.
fn read_port(v: &Vec<char>, i: usize) -> (r: Option<u16>)
    requires
        i <= v@.len(),
    ensures
        r == port_field(v@, i as int),
{
    if i >= v.len() || v[i] != ':' {
        return None;
    }
    let start = i + 1;
    let e = scan_digits(v, start);
    proof {
        lemma_digit_end(v@, start as int);
    }
    let ghost g = v@.subrange(start as int, e as int);
    if e != v.len() || e == start {
        return None;
    }
    let mut val: u32 = 0;
    let mut k = start;
    assert(v@.subrange(start as int, start as int) =~= Seq::<char>::empty());
    while k < e
        invariant
            start <= k <= e <= v@.len(),
            start == i + 1,
            i < v@.len(),
            v@[i as int] == ':',
            e == digit_end(v@, start as int),
            e == v@.len(),
            g == v@.subrange(start as int, e as int),
            forall|m: int| start <= m < e ==> is_digit(#[trigger] v@[m]),
            val == digits_value(v@.subrange(start as int, k as int)),
            val <= 65535,
        decreases e - k,
    {
        assert(v@.subrange(start as int, k + 1).drop_last() =~= v@.subrange(
            start as int,
            k as int,
        ));
        assert(is_digit(v@[k as int]));
        let dig = (v[k] as u32) - 48;
        val = val * 10 + dig;
        k = k + 1;
        assert(val == digits_value(v@.subrange(start as int, k as int)));
        if val > 65535 {
            proof {
                assert(g.take(k - start) =~= v@.subrange(start as int, k as int));
                lemma_digits_value_prefix(g, k - start);
            }
            return None;
        }
    }
    Some(val as u16)
}

/// Parses `a.b.c.d:port` the way `SocketAddrV4`'s `FromStr` does.
pub fn parse_socket_addr(s: &str) -> (r: Option<PeerAddr>)
    ensures
        r == parse_addr(s@),
{
    let v = chars_of(s);
    let (a, e1) = match read_octet(&v, 0) {
        None => return None,
        Some(x) => x,
    };
    if e1 >= v.len() || v[e1] != '.' {
        return None;
    }
    let (b, e2) = match read_octet(&v, e1 + 1) {
        None => return None,
        Some(x) => x,
    };
    if e2 >= v.len() || v[e2] != '.' {
        return None;
    }
    let (c, e3) = match read_octet(&v, e2 + 1) {
        None => return None,
        Some(x) => x,
    };
    if e3 >= v.len() || v[e3] != '.' {
        return None;
    }
    let (d, e4) = match read_octet(&v, e3 + 1) {
        None => return None,
        Some(x) => x,
    };
    match read_port(&v, e4) {
        None => None,
        Some(port) => Some(PeerAddr { a, b, c, d, port }),
    }
}

/// Appends the text of `x` to `v`.
pub fn push_addr(v: &mut Vec<char>, x: PeerAddr)
    ensures
        final(v)@ == old(v)@ + addr_text(x),
{
    let ghost v0 = v@;
    push_decimal(v, x.a as u64);
    v.push('.');
    push_decimal(v, x.b as u64);
    v.push('.');
    push_decimal(v, x.c as u64);
    v.push('.');
    push_decimal(v, x.d as u64);
    v.push(':');
    push_decimal(v, x.port as u64);
    assert(v@ =~= v0 + addr_text(x));
}

impl PeerAddr {
    /// The same IP address with another port, as `SocketAddr::set_port`
    /// leaves it.
    pub fn with_port(self, port: u16) -> (r: PeerAddr)
        ensures
            r == (PeerAddr { port, ..self }),
    {
        PeerAddr { port, ..self }
    }

    /// The text `a.b.c.d:port`.
    pub fn to_text(&self) -> (r: String)
        ensures
            r@ == addr_text(*self),
    {
        let mut v: Vec<char> = Vec::new();
        push_addr(&mut v, *self);
        assert(v@ =~= addr_text(*self));
        string_of(&v)
    }
}

/// The octet text that `decimal` gives for a byte is read back as that byte.
proof fn lemma_octet_text(s: Seq<char>, i: int, n: u8)
    requires
        0 <= i,
        i + decimal(n as nat).len() <= s.len(),
        s.subrange(i, i + decimal(n as nat).len()) == decimal(n as nat),
        i + decimal(n as nat).len() < s.len() ==> !is_digit(s[i + decimal(n as nat).len()]),
    ensures
        octet_field(s, i) == Some((n, i + decimal(n as nat).len())),
{
    let g = decimal(n as nat);
    let j = i + g.len();
    lemma_decimal(n as nat);
    assert forall|k: int| i <= k < j implies is_digit(#[trigger] s[k]) by {
        assert(s[k] == g[k - i]);
    }
    lemma_digit_end_at(s, i, j);
    if g.len() > 1 {
        assert(g[0] != '0');
    }
}

/// Reading back the text of an address gives the address: parsing inverts
/// `to_text`.
pub proof fn lemma_parse_addr_text(x: PeerAddr)
    ensures
        parse_addr(addr_text(x)) == Some(x),
{
    let da = decimal(x.a as nat);
    let db = decimal(x.b as nat);
    let dc = decimal(x.c as nat);
    let dd = decimal(x.d as nat);
    let dp = decimal(x.port as nat);
    lemma_decimal(x.a as nat);
    lemma_decimal(x.b as nat);
    lemma_decimal(x.c as nat);
    lemma_decimal(x.d as nat);
    lemma_decimal(x.port as nat);
    let t = addr_text(x);
    let e1 = da.len() as int;
    let e2 = e1 + 1 + db.len();
    let e3 = e2 + 1 + dc.len();
    let e4 = e3 + 1 + dd.len();
    assert(t.len() == e4 + 1 + dp.len());
    assert(t[e1] == '.');
    assert(t[e2] == '.');
    assert(t[e3] == '.');
    assert(t[e4] == ':');
    assert(t.subrange(0, e1) =~= da);
    assert(t.subrange(e1 + 1, e2) =~= db);
    assert(t.subrange(e2 + 1, e3) =~= dc);
    assert(t.subrange(e3 + 1, e4) =~= dd);
    assert(t.subrange(e4 + 1, t.len() as int) =~= dp);
    lemma_octet_text(t, 0, x.a);
    lemma_octet_text(t, e1 + 1, x.b);
    lemma_octet_text(t, e2 + 1, x.c);
    lemma_octet_text(t, e3 + 1, x.d);
    assert forall|k: int| e4 + 1 <= k < t.len() implies is_digit(#[trigger] t[k]) by {
        assert(t[k] == dp[k - e4 - 1]);
    }
    lemma_digit_end_at(t, e4 + 1, t.len() as int);
}


/// Digits with no leading zero (or a lone `0`) are exactly the decimal text
/// of their value.
pub proof fn lemma_canonical_digits(g: Seq<char>)
    requires
        g.len() >= 1,
        all_digits(g),
        g.len() > 1 ==> g[0] != '0',
    ensures
        decimal(digits_value(g)) == g,
        g[0] != '0' ==> digits_value(g) >= 1,
        g.len() > 1 ==> digits_value(g) >= 10,
    decreases g.len(),
{
    let v = digits_value(g);
    let c = g.last();
    assert(is_digit(c));
    let d = digit_value(c);
    assert(d < 10);
    assert(digit_char(d) == c);
    if g.len() == 1 {
        assert(g.drop_last() =~= Seq::<char>::empty());
        assert(digits_value(Seq::<char>::empty()) == 0);
        assert(v == d);
        assert(decimal(v) =~= g);
    } else {
        let h = g.drop_last();
        assert(h[0] == g[0]);
        assert forall|i: int| 0 <= i < h.len() implies is_digit(#[trigger] h[i]) by {
            assert(h[i] == g[i]);
        }
        lemma_canonical_digits(h);
        assert(digits_value(h) >= 1);
        assert(v == digits_value(h) * 10 + d);
        assert(v / 10 == digits_value(h));
        assert(v % 10 == d);
        assert(decimal(v) == decimal(v / 10).push(digit_char(v % 10)));
        assert(decimal(v) =~= g);
    }
}

/// The text of `x` up to its port: `a.b.c.d:`.
pub open spec fn addr_prefix(x: PeerAddr) -> Seq<char> {
    decimal(x.a as nat) + seq!['.'] + decimal(x.b as nat) + seq!['.'] + decimal(x.c as nat)
        + seq!['.'] + decimal(x.d as nat) + seq![':']
}

/// An octet read from `s` at `i` is the decimal text of its value, at most
/// 255, running from `i` to the index that follows it.
proof fn lemma_octet_field_text(s: Seq<char>, i: int)
    requires
        0 <= i <= s.len(),
        octet_field(s, i) is Some,
    ensures
        ({
            let (x, e) = octet_field(s, i)->Some_0;
            &&& i < e <= s.len()
            &&& s.subrange(i, e) == decimal(x as nat)
            &&& e < s.len() ==> !is_digit(s[e])
        }),
{
    lemma_digit_end(s, i);
    let e = digit_end(s, i);
    let g = s.subrange(i, e);
    lemma_canonical_digits(g);
}

/// Only the text of an address parses, and it parses as that address: each
/// octet is written as its decimal value with no leading zero, and the port
/// is written as digits (leading zeros allowed) whose value is the port.
pub proof fn lemma_parsed_addr_is_its_text(s: Seq<char>, x: PeerAddr)
    requires
        parse_addr(s) == Some(x),
    ensures
        exists|p: Seq<char>|
            #![trigger addr_prefix(x) + p]
            port_text_ok(p) && digits_value(p) == x.port && s == addr_prefix(x) + p,
{
    lemma_octet_field_text(s, 0);
    let (a, e1) = octet_field(s, 0)->Some_0;
    assert(s[e1] == '.');
    lemma_octet_field_text(s, e1 + 1);
    let (b, e2) = octet_field(s, e1 + 1)->Some_0;
    assert(s[e2] == '.');
    lemma_octet_field_text(s, e2 + 1);
    let (c, e3) = octet_field(s, e2 + 1)->Some_0;
    assert(s[e3] == '.');
    lemma_octet_field_text(s, e3 + 1);
    let (d, e4) = octet_field(s, e3 + 1)->Some_0;
    assert(s[e4] == ':');
    lemma_digit_end(s, e4 + 1);
    let p = s.subrange(e4 + 1, s.len() as int);
    assert(x == PeerAddr { a, b, c, d, port: digits_value(p) as u16 });
    assert(s =~= s.subrange(0, e1) + seq!['.'] + s.subrange(e1 + 1, e2) + seq!['.'] + s.subrange(
        e2 + 1,
        e3,
    ) + seq!['.'] + s.subrange(e3 + 1, e4) + seq![':'] + p);
    assert(s =~= addr_prefix(x) + p);
}

} // verus!
