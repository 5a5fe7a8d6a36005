//! IP addresses in text form, and the choice of a caller's public address
//! from `X-Forwarded-For`.
//!
//! The textual forms are those of Rust's `IpAddr` (`FromStr` and
//! `Display`): dotted-quad IPv4 without leading zeros, and IPv6 groups of 1
//! to 4 hex digits with at most one `::` and an optional trailing dotted
//! quad; IPv6 is displayed lowercase with the first longest run of two or
//! more zero groups compressed, and IPv4-mapped addresses as
//! `::ffff:a.b.c.d`.

use vstd::prelude::*;
use crate::numeric::{decimal, push_decimal};
use crate::text::{
    chars_of, lemma_split_concat, lemma_split_nonempty, slice_chars, split_at, split_chars,
    string_of, texts, trim_chars, trimmed,
};

verus! {

/// An IP address: four octets or eight 16-bit groups.
pub enum IpAddress {
    V4([u8; 4]),
    V6([u16; 8]),
}

// ---------------------------------------------------------------------------
// Reading

pub open spec fn is_digit(c: char) -> bool {
    '0' <= c && c <= '9'
}

pub open spec fn hex_value(c: char) -> int {
    if '0' <= c && c <= '9' {
        (c as int) - ('0' as int)
    } else if 'a' <= c && c <= 'f' {
        (c as int) - ('a' as int) + 10
    } else {
        (c as int) - ('A' as int) + 10
    }
}

pub open spec fn is_hex(c: char) -> bool {
    ('0' <= c && c <= '9') || ('a' <= c && c <= 'f') || ('A' <= c && c <= 'F')
}

/// The value of a run of decimal digits.
pub open spec fn dec_value(t: Seq<char>) -> nat
    decreases t.len(),
{
    if t.len() == 0 {
        0
    } else {
        dec_value(t.drop_last()) * 10 + ((t.last() as int) - ('0' as int)) as nat
    }
}

/// The value of a run of hex digits.
pub open spec fn hex_run_value(t: Seq<char>) -> nat
    decreases t.len(),
{
    if t.len() == 0 {
        0
    } else {
        hex_run_value(t.drop_last()) * 16 + hex_value(t.last()) as nat
    }
}

/// One decimal octet: 1 to 3 digits, no leading zero, at most 255.
pub open spec fn dec_octet(t: Seq<char>) -> Option<u8> {
    if 1 <= t.len() <= 3 && (forall|i: int| 0 <= i < t.len() ==> is_digit(#[trigger] t[i])) && !(
    t.len() > 1 && t[0] == '0') && dec_value(t) <= 255 {
        Some(dec_value(t) as u8)
    } else {
        None
    }
}

/// One IPv6 group: 1 to 4 hex digits.
pub open spec fn hex_group(t: Seq<char>) -> Option<u16> {
    if 1 <= t.len() <= 4 && (forall|i: int| 0 <= i < t.len() ==> is_hex(#[trigger] t[i])) {
        Some(hex_run_value(t) as u16)
    } else {
        None
    }
}

/// A dotted-quad IPv4 address.
pub open spec fn ipv4_parse(s: Seq<char>) -> Option<Seq<u8>> {
    let p = split_at(s, '.');
    if p.len() == 4 && dec_octet(p[0]) is Some && dec_octet(p[1]) is Some && dec_octet(p[2]) is Some
        && dec_octet(p[3]) is Some {
        Some(
            seq![
                dec_octet(p[0])->0,
                dec_octet(p[1])->0,
                dec_octet(p[2])->0,
                dec_octet(p[3])->0,
            ],
        )
    } else {
        None
    }
}

/// The groups spelled by pieces that must all be hex groups.
pub open spec fn hex_groups(p: Seq<Seq<char>>) -> Option<Seq<u16>>
    decreases p.len(),
{
    if p.len() == 0 {
        Some(seq![])
    } else {
        match (hex_groups(p.drop_last()), hex_group(p.last())) {
            (Some(a), Some(g)) => Some(a.push(g)),
            _ => None,
        }
    }
}

/// The two groups that carry an embedded IPv4 address.
pub open spec fn v4_groups(o: Seq<u8>) -> Seq<u16> {
    seq![(o[0] as int * 256 + o[1] as int) as u16, (o[2] as int * 256 + o[3] as int) as u16]
}

/// The groups spelled by pieces of which the last may be a dotted quad.
pub open spec fn tail_groups(p: Seq<Seq<char>>) -> Option<Seq<u16>> {
    if p.len() > 0 && ipv4_parse(p.last()) is Some {
        match hex_groups(p.drop_last()) {
            Some(a) => Some(a + v4_groups(ipv4_parse(p.last())->0)),
            None => None,
        }
    } else {
        hex_groups(p)
    }
}

/// The pieces of one side of a `::`: none for an empty side.
pub open spec fn side_pieces(t: Seq<char>) -> Seq<Seq<char>> {
    if t.len() == 0 {
        seq![]
    } else {
        split_at(t, ':')
    }
}

/// Position of the first `::`, or -1.
pub open spec fn first_double_colon(s: Seq<char>) -> int
    decreases s.len(),
{
    if s.len() < 2 {
        -1
    } else if s[0] == ':' && s[1] == ':' {
        0
    } else {
        let k = first_double_colon(s.drop_first());
        if k < 0 {
            -1
        } else {
            k + 1
        }
    }
}

/// `n` zero groups.
pub open spec fn zero_groups(n: nat) -> Seq<u16> {
    Seq::new(n, |i: int| 0u16)
}

/// An IPv6 address in text.
pub open spec fn ipv6_parse(s: Seq<char>) -> Option<Seq<u16>> {
    let d = first_double_colon(s);
    if d < 0 {
        match tail_groups(split_at(s, ':')) {
            Some(g) => if g.len() == 8 {
                Some(g)
            } else {
                None
            },
            None => None,
        }
    } else {
        match (
            hex_groups(side_pieces(s.take(d))),
            tail_groups(side_pieces(s.skip(d + 2))),
        ) {
            (Some(l), Some(r)) => if l.len() + r.len() <= 7 {
                Some(l + zero_groups((8 - l.len() - r.len()) as nat) + r)
            } else {
                None
            },
            _ => None,
        }
    }
}

/// The view of an address: its octets or groups.
pub open spec fn ip_view(a: IpAddress) -> (bool, Seq<int>) {
    match a {
        IpAddress::V4(o) => (true, Seq::new(4, |i: int| o@[i] as int)),
        IpAddress::V6(g) => (false, Seq::new(8, |i: int| g@[i] as int)),
    }
}

/// What `IpAddr::from_str` reads from `s`: IPv4 first, then IPv6.
pub open spec fn ip_parse(s: Seq<char>) -> Option<(bool, Seq<int>)> {
    match ipv4_parse(s) {
        Some(o) => Some((true, Seq::new(4, |i: int| o[i] as int))),
        None => match ipv6_parse(s) {
            Some(g) => Some((false, Seq::new(8, |i: int| g[i] as int))),
            None => None,
        },
    }
}

fn digit_value(c: char) -> (v: u32)
    requires
        is_digit(c),
    ensures
        v == (c as int) - ('0' as int),
        v < 10,
{
    (c as u32) - 48
}

fn hex_digit_value(c: char) -> (v: u32)
    requires
        is_hex(c),
    ensures
        v == hex_value(c),
        v < 16,
{
    if '0' <= c && c <= '9' {
        (c as u32) - 48
    } else if 'a' <= c && c <= 'f' {
        (c as u32) - 97 + 10
    } else {
        (c as u32) - 65 + 10
    }
}

/// Reads one decimal octet.
pub fn read_dec_octet(t: &Vec<char>) -> (r: Option<u8>)
    ensures
        r == dec_octet(t@),
{
    let n = t.len();
    if n < 1 || n > 3 {
        return None;
    }
    let mut v: u32 = 0;
    let mut i: usize = 0;
    while i < n
        invariant
            i <= n,
            n == t.len(),
            n <= 3,
            forall|k: int| 0 <= k < i ==> is_digit(#[trigger] t@[k]),
            v == dec_value(t@.take(i as int)),
            v < 1000,
            i == 0 ==> v == 0,
            i == 1 ==> v < 10,
            i == 2 ==> v < 100,
        decreases n - i,
    {
        if !('0' <= t[i] && t[i] <= '9') {
            return None;
        }
        assert(t@.take(i + 1).drop_last() =~= t@.take(i as int));
        v = v * 10 + digit_value(t[i]);
        i += 1;
    }
    assert(t@.take(n as int) =~= t@);
    if n > 1 && t[0] == '0' {
        return None;
    }
    if v > 255 {
        return None;
    }
    Some(v as u8)
}

proof fn lemma_hex_run_bound(t: Seq<char>)
    requires
        forall|i: int| 0 <= i < t.len() ==> is_hex(#[trigger] t[i]),
    ensures
        t.len() <= 4 ==> hex_run_value(t) < 65536,
        t.len() <= 3 ==> hex_run_value(t) < 4096,
        t.len() <= 2 ==> hex_run_value(t) < 256,
        t.len() <= 1 ==> hex_run_value(t) < 16,
        t.len() == 0 ==> hex_run_value(t) == 0,
    decreases t.len(),
{
    if t.len() > 0 {
        lemma_hex_run_bound(t.drop_last());
        assert(is_hex(t[t.len() - 1]));
    }
}

/// Reads one IPv6 group.
pub fn read_hex_group(t: &Vec<char>) -> (r: Option<u16>)
    ensures
        r == hex_group(t@),
{
    let n = t.len();
    if n < 1 || n > 4 {
        return None;
    }
    let mut v: u32 = 0;
    let mut i: usize = 0;
    while i < n
        invariant
            i <= n,
            n == t.len(),
            n <= 4,
            forall|k: int| 0 <= k < i ==> is_hex(#[trigger] t@[k]),
            v == hex_run_value(t@.take(i as int)),
            v < 65536,
        decreases n - i,
    {
        let c = t[i];
        if !(('0' <= c && c <= '9') || ('a' <= c && c <= 'f') || ('A' <= c && c <= 'F')) {
            return None;
        }
        assert(t@.take(i + 1).drop_last() =~= t@.take(i as int));
        proof {
            assert forall|k: int| 0 <= k < i + 1 implies is_hex(#[trigger] t@.take(i + 1)[k]) by {}
            lemma_hex_run_bound(t@.take(i + 1));
        }
        v = v * 16 + hex_digit_value(c);
        i += 1;
    }
    assert(t@.take(n as int) =~= t@);
    Some(v as u16)
}

/// Reads a dotted-quad IPv4 address.
pub fn read_ipv4(s: &Vec<char>) -> (r: Option<[u8; 4]>)
    ensures
        match ipv4_parse(s@) {
            Some(o) => r matches Some(a) && a@ == o,
            None => r is None,
        },
{
    let p = split_chars(s, '.');
    if p.len() != 4 {
        return None;
    }
    assert(texts(p@)[0] == p@[0]@);
    assert(texts(p@)[1] == p@[1]@);
    assert(texts(p@)[2] == p@[2]@);
    assert(texts(p@)[3] == p@[3]@);
    let a = read_dec_octet(&p[0]);
    let b = read_dec_octet(&p[1]);
    let c = read_dec_octet(&p[2]);
    let d = read_dec_octet(&p[3]);
    match (a, b, c, d) {
        (Some(a), Some(b), Some(c), Some(d)) => {
            let r = [a, b, c, d];
            assert(r@ =~= ipv4_parse(s@)->0);
            Some(r)
        },
        _ => None,
    }
}

/// Reads pieces that must all be hex groups.
fn read_hex_groups(p: &Vec<Vec<char>>, from: usize, to: usize) -> (r: Option<Vec<u16>>)
    requires
        from <= to <= p.len(),
    ensures
        match hex_groups(texts(p@).subrange(from as int, to as int)) {
            Some(g) => r matches Some(v) && v@ == g,
            None => r is None,
        },
{
    let mut out: Vec<u16> = Vec::new();
    let mut i: usize = from;
    assert(texts(p@).subrange(from as int, from as int) =~= Seq::<Seq<char>>::empty());
    while i < to
        invariant
            from <= i <= to,
            to <= p.len(),
            hex_groups(texts(p@).subrange(from as int, i as int)) == Some(out@),
        decreases to - i,
    {
        let ghost pre = texts(p@).subrange(from as int, i as int);
        let ghost next = texts(p@).subrange(from as int, i + 1);
        assert(next.drop_last() =~= pre);
        assert(next.last() == p@[i as int]@);
        match read_hex_group(&p[i]) {
            Some(g) => {
                out.push(g);
            },
            None => {
                proof {
                    lemma_hex_groups_extend_none(texts(p@), from as int, i as int, to as int);
                }
                return None;
            },
        }
        i += 1;
    }
    Some(out)
}

proof fn lemma_hex_groups_prefix(p: Seq<Seq<char>>, k: int)
    requires
        0 <= k <= p.len(),
        hex_groups(p.take(k)) is None,
    ensures
        hex_groups(p) is None,
    decreases p.len() - k,
{
    if k < p.len() {
        assert(p.take(k + 1).drop_last() =~= p.take(k));
        lemma_hex_groups_prefix(p, k + 1);
    } else {
        assert(p.take(k) =~= p);
    }
}

proof fn lemma_hex_groups_extend_none(p: Seq<Seq<char>>, from: int, i: int, to: int)
    requires
        0 <= from <= i < to <= p.len(),
        hex_group(p[i]) is None,
    ensures
        hex_groups(p.subrange(from, to)) is None,
{
    let q = p.subrange(from, to);
    assert(q.take(i - from + 1).last() == p[i]);
    lemma_hex_groups_prefix(q, i - from + 1);
}

/// Reads pieces of which the last may be a dotted quad.
fn read_tail_groups(p: &Vec<Vec<char>>, from: usize, to: usize) -> (r: Option<Vec<u16>>)
    requires
        from <= to <= p.len(),
    ensures
        match tail_groups(texts(p@).subrange(from as int, to as int)) {
            Some(g) => r matches Some(v) && v@ == g,
            None => r is None,
        },
{
    let ghost q = texts(p@).subrange(from as int, to as int);
    if to > from {
        assert(q.last() == p@[to - 1]@);
        match read_ipv4(&p[to - 1]) {
            Some(o) => {
                assert(q.drop_last() =~= texts(p@).subrange(from as int, to - 1));
                match read_hex_groups(p, from, to - 1) {
                    Some(mut head) => {
                        let hi: u16 = (o[0] as u16) * 256 + (o[1] as u16);
                        let lo: u16 = (o[2] as u16) * 256 + (o[3] as u16);
                        head.push(hi);
                        head.push(lo);
                        assert(head@ =~= tail_groups(q)->0);
                        return Some(head);
                    },
                    None => {
                        return None;
                    },
                }
            },
            None => {},
        }
    }
    read_hex_groups(p, from, to)
}

/// Position of the first `::`.
fn find_double_colon(s: &Vec<char>) -> (r: Option<usize>)
    ensures
        match r {
            Some(d) => d as int == first_double_colon(s@) && d + 1 < s@.len(),
            None => first_double_colon(s@) < 0,
        },
{
    let n = s.len();
    let mut i: usize = 0;
    assert(s@.skip(0) =~= s@);
    while i + 1 < n
        invariant
            i <= n,
            n == s.len(),
            i + 1 <= n || n == 0,
            first_double_colon(s@) == if first_double_colon(s@.skip(i as int)) < 0 {
                -1
            } else {
                first_double_colon(s@.skip(i as int)) + i
            },
        decreases n - i,
    {
        assert(s@.skip(i as int).drop_first() =~= s@.skip(i + 1));
        if s[i] == ':' && s[i + 1] == ':' {
            return Some(i);
        }
        i += 1;
    }
    None
}

/// Reads an IPv6 address.
pub fn read_ipv6(s: &Vec<char>) -> (r: Option<[u16; 8]>)
    ensures
        match ipv6_parse(s@) {
            Some(g) => r matches Some(a) && a@ == g,
            None => r is None,
        },
{
    let n = s.len();
    match find_double_colon(s) {
        None => {
            let p = split_chars(s, ':');
            assert(texts(p@).subrange(0, p.len() as int) =~= texts(p@));
            match read_tail_groups(&p, 0, p.len()) {
                Some(g) => {
                    if g.len() == 8 {
                        let a = [g[0], g[1], g[2], g[3], g[4], g[5], g[6], g[7]];
                        assert(a@ =~= g@);
                        Some(a)
                    } else {
                        None
                    }
                },
                None => None,
            }
        },
        Some(d) => {
            let left = slice_chars(s, 0, d);
            let right = slice_chars(s, d + 2, n);
            assert(left@ =~= s@.take(d as int));
            assert(right@ =~= s@.skip(d + 2));
            let lg = if left.len() == 0 {
                Some(Vec::new())
            } else {
                let lp = split_chars(&left, ':');
                assert(texts(lp@).subrange(0, lp.len() as int) =~= texts(lp@));
                read_hex_groups(&lp, 0, lp.len())
            };
            let rg = if right.len() == 0 {
                Some(Vec::new())
            } else {
                let rp = split_chars(&right, ':');
                assert(texts(rp@).subrange(0, rp.len() as int) =~= texts(rp@));
                read_tail_groups(&rp, 0, rp.len())
            };
            match (lg, rg) {
                (Some(l), Some(r)) => {
                    if l.len() > 7 || r.len() > 7 - l.len() {
                        return None;
                    }
                    let mut a: [u16; 8] = [0u16; 8];
                    let mut k: usize = 0;
                    let gap = 8 - l.len() - r.len();
                    let ghost want = l@ + zero_groups(gap as nat) + r@;
                    assert(want.len() == 8);
                    while k < 8
                        invariant
                            k <= 8,
                            l.len() + r.len() <= 7,
                            gap == 8 - l.len() - r.len(),
                            want == l@ + zero_groups(gap as nat) + r@,
                            forall|j: int| 0 <= j < k ==> a@[j] == want[j],
                        decreases 8 - k,
                    {
                        let v: u16 = if k < l.len() {
                            l[k]
                        } else if k < l.len() + gap {
                            0
                        } else {
                            r[k - l.len() - gap]
                        };
                        a[k] = v;
                        k += 1;
                    }
                    assert(a@ =~= want);
                    Some(a)
                },
                _ => None,
            }
        },
    }
}

/// Reads an IP address as `IpAddr::from_str` does: IPv4 first, then IPv6.
pub fn read_ip(s: &Vec<char>) -> (r: Option<IpAddress>)
    ensures
        match ip_parse(s@) {
            Some(v) => r matches Some(a) && ip_view(a) == v,
            None => r is None,
        },
{
    match read_ipv4(s) {
        Some(o) => {
            let a = IpAddress::V4(o);
            assert(ip_view(a).1 =~= Seq::new(4, |i: int| ipv4_parse(s@)->0[i] as int));
            Some(a)
        },
        None => match read_ipv6(s) {
            Some(g) => {
                let a = IpAddress::V6(g);
                assert(ip_view(a).1 =~= Seq::new(8, |i: int| ipv6_parse(s@)->0[i] as int));
                Some(a)
            },
            None => None,
        },
    }
}

// ---------------------------------------------------------------------------
// Writing

/// The lowercase hex digits of `v`, without leading zeros.
pub open spec fn hex_text(v: nat) -> Seq<char>
    decreases v,
{
    if v < 16 {
        seq![crate::codec::hex_digit(v as int)]
    } else {
        hex_text(v / 16) + seq![crate::codec::hex_digit((v % 16) as int)]
    }
}

/// Groups written in hex, separated by colons.
pub open spec fn groups_text(g: Seq<int>) -> Seq<char>
    decreases g.len(),
{
    if g.len() == 0 {
        seq![]
    } else if g.len() == 1 {
        hex_text(g[0] as nat)
    } else {
        groups_text(g.drop_last()) + seq![':'] + hex_text(g.last() as nat)
    }
}

/// A dotted quad.
pub open spec fn ipv4_text(o: Seq<int>) -> Seq<char> {
    decimal(o[0] as nat) + seq!['.'] + decimal(o[1] as nat) + seq!['.'] + decimal(o[2] as nat)
        + seq!['.'] + decimal(o[3] as nat)
}

/// Number of consecutive zero groups starting at `i`.
pub open spec fn zeros_from(g: Seq<int>, i: int) -> nat
    decreases g.len() - i,
{
    if i < 0 || i >= g.len() || g[i] != 0 {
        0
    } else {
        1 + zeros_from(g, i + 1)
    }
}

/// The earliest position, at or after `i`, where a longest run of zero
/// groups starts.
pub open spec fn best_zero_run(g: Seq<int>, i: int) -> int
    decreases g.len() - i,
{
    if i >= g.len() - 1 {
        i
    } else {
        let b = best_zero_run(g, i + 1);
        if zeros_from(g, i) >= zeros_from(g, b) {
            i
        } else {
            b
        }
    }
}

/// An IPv4-mapped IPv6 address: `::ffff:a.b.c.d`.
pub open spec fn v4_mapped(g: Seq<int>) -> bool {
    g[0] == 0 && g[1] == 0 && g[2] == 0 && g[3] == 0 && g[4] == 0 && g[5] == 0xffff
}

/// The text of an IPv6 address.
pub open spec fn ipv6_text(g: Seq<int>) -> Seq<char> {
    if v4_mapped(g) {
        seq![':', ':', 'f', 'f', 'f', 'f', ':'] + ipv4_text(
            seq![g[6] / 256, g[6] % 256, g[7] / 256, g[7] % 256],
        )
    } else {
        let b = best_zero_run(g, 0);
        let z = zeros_from(g, b);
        if z > 1 {
            groups_text(g.take(b)) + seq![':', ':'] + groups_text(g.skip(b + z))
        } else {
            groups_text(g)
        }
    }
}

/// The text of an address, as `IpAddr`'s `Display` writes it.
pub open spec fn addr_text(v: (bool, Seq<int>)) -> Seq<char> {
    if v.0 {
        ipv4_text(v.1)
    } else {
        ipv6_text(v.1)
    }
}

fn push_hex(v: u64, out: &mut Vec<char>)
    ensures
        final(out)@ == old(out)@ + hex_text(v as nat),
    decreases v,
{
    if v < 16 {
        out.push(hex_char(v));
    } else {
        push_hex(v / 16, out);
        out.push(hex_char(v % 16));
    }
}

fn hex_char(d: u64) -> (c: char)
    requires
        d < 16,
    ensures
        c == crate::codec::hex_digit(d as int),
{
    if d < 10 {
        let b: u8 = 48 + d as u8;
        b as char
    } else {
        let b: u8 = 87 + d as u8;
        b as char
    }
}

/// The values of a group array, as integers.
pub open spec fn group_ints(g: Seq<u16>) -> Seq<int> {
    Seq::new(g.len(), |i: int| g[i] as int)
}

fn push_groups(g: &[u16; 8], from: usize, to: usize, out: &mut Vec<char>)
    requires
        from <= to <= 8,
    ensures
        final(out)@ == old(out)@ + groups_text(group_ints(g@).subrange(from as int, to as int)),
{
    let ghost start = old(out)@;
    let ghost gi = group_ints(g@);
    let mut k: usize = from;
    assert(gi.subrange(from as int, from as int) =~= Seq::<int>::empty());
    while k < to
        invariant
            from <= k <= to,
            to <= 8,
            gi == group_ints(g@),
            out@ == start + groups_text(gi.subrange(from as int, k as int)),
        decreases to - k,
    {
        let ghost sub = gi.subrange(from as int, k + 1);
        assert(sub.drop_last() =~= gi.subrange(from as int, k as int));
        assert(sub.last() == g@[k as int] as int);
        if k > from {
            out.push(':');
        }
        push_hex(g[k] as u64, out);
        assert(out@ =~= start + groups_text(sub));
        k += 1;
    }
}

fn push_ipv4(o: [u8; 4], out: &mut Vec<char>)
    ensures
        final(out)@ == old(out)@ + ipv4_text(Seq::new(4, |i: int| o@[i] as int)),
{
    let ghost start = old(out)@;
    push_decimal(o[0] as u64, out);
    out.push('.');
    push_decimal(o[1] as u64, out);
    out.push('.');
    push_decimal(o[2] as u64, out);
    out.push('.');
    push_decimal(o[3] as u64, out);
    assert(out@ =~= start + ipv4_text(Seq::new(4, |i: int| o@[i] as int)));
}

fn zeros_at(g: &[u16; 8], i: usize) -> (n: usize)
    requires
        i <= 8,
    ensures
        n == zeros_from(group_ints(g@), i as int),
        i + n <= 8,
{
    let ghost gi = group_ints(g@);
    let mut j: usize = i;
    while j < 8 && g[j] == 0
        invariant
            i <= j <= 8,
            gi == group_ints(g@),
            zeros_from(gi, i as int) == (j - i) + zeros_from(gi, j as int),
        decreases 8 - j,
    {
        j += 1;
    }
    j - i
}

fn best_run(g: &[u16; 8]) -> (b: usize)
    ensures
        b as int == best_zero_run(group_ints(g@), 0),
        b < 8,
{
    let ghost gi = group_ints(g@);
    let mut b: usize = 7;
    let mut i: usize = 7;
    while i > 0
        invariant
            0 <= i <= 7,
            b < 8,
            gi == group_ints(g@),
            b as int == best_zero_run(gi, i as int),
        decreases i,
    {
        i -= 1;
        if zeros_at(g, i) >= zeros_at(g, b) {
            b = i;
        }
    }
    b
}

/// The text of an address, as `IpAddr`'s `Display` writes it.
pub fn ip_text(a: &IpAddress) -> (s: String)
    ensures
        s@ == addr_text(ip_view(*a)),
{
    let mut out: Vec<char> = Vec::new();
    match a {
        IpAddress::V4(o) => {
            push_ipv4(*o, &mut out);
            assert(ip_view(*a).1 =~= Seq::new(4, |i: int| o@[i] as int));
        },
        IpAddress::V6(g) => {
            let ghost gi = group_ints(g@);
            assert(ip_view(*a).1 =~= gi);
            if g[0] == 0 && g[1] == 0 && g[2] == 0 && g[3] == 0 && g[4] == 0 && g[5] == 0xffff {
                out.push(':');
                out.push(':');
                out.push('f');
                out.push('f');
                out.push('f');
                out.push('f');
                out.push(':');
                let o = [(g[6] / 256) as u8, (g[6] % 256) as u8, (g[7] / 256) as u8, (g[7] % 256) as u8];
                push_ipv4(o, &mut out);
                assert(Seq::new(4, |i: int| o@[i] as int) =~= seq![
                    gi[6] / 256,
                    gi[6] % 256,
                    gi[7] / 256,
                    gi[7] % 256,
                ]);
                assert(out@ =~= ipv6_text(gi));
            } else {
                let b = best_run(g);
                let z = zeros_at(g, b);
                if z > 1 {
                    push_groups(g, 0, b, &mut out);
                    out.push(':');
                    out.push(':');
                    push_groups(g, b + z, 8, &mut out);
                    assert(gi.subrange(0, b as int) =~= gi.take(b as int));
                    assert(gi.subrange(b + z, 8) =~= gi.skip(b + z));
                } else {
                    push_groups(g, 0, 8, &mut out);
                    assert(gi.subrange(0, 8) =~= gi);
                }
                assert(out@ =~= ipv6_text(gi));
            }
        },
    }
    string_of(&out)
}

// ---------------------------------------------------------------------------
// Choosing the caller's address

/// Addresses that belong to the serving infrastructure rather than to a
/// caller: IPv4 private (10/8, 172.16/12, 192.168/16), loopback (127/8),
/// link-local (169.254/16) and the Google Front End ranges 130.211.0.0/22
/// and 35.191.0.0/16; IPv6 loopback and unique-local (fc00::/7).
pub open spec fn addr_infra(v: (bool, Seq<int>)) -> bool {
    let o = v.1;
    if v.0 {
        ||| o[0] == 10
        ||| o[0] == 172 && 16 <= o[1] <= 31
        ||| o[0] == 192 && o[1] == 168
        ||| o[0] == 127
        ||| o[0] == 169 && o[1] == 254
        ||| o[0] == 130 && o[1] == 211 && o[2] < 4
        ||| o[0] == 35 && o[1] == 191
    } else {
        ||| (o[0] == 0 && o[1] == 0 && o[2] == 0 && o[3] == 0 && o[4] == 0 && o[5] == 0 && o[6] == 0
            && o[7] == 1)
        ||| o[0] / 512 == 126
    }
}

/// The octets of an IPv4 address read as one 32-bit number.
pub open spec fn v4_number(o: Seq<int>) -> int {
    o[0] * 16777216 + o[1] * 65536 + o[2] * 256 + o[3]
}

/// `o` lies in the CIDR block that starts at `net` and spans `size`
/// addresses (a power of two): both agree above the block's low bits.
pub open spec fn in_v4_block(o: Seq<int>, net: Seq<int>, size: int) -> bool {
    v4_number(o) / size == v4_number(net) / size
}

/// An IPv4 address is infrastructure exactly when it lies in one of the
/// blocks 10.0.0.0/8, 172.16.0.0/12, 192.168.0.0/16, 127.0.0.0/8,
/// 169.254.0.0/16, 130.211.0.0/22 or 35.191.0.0/16; any other address,
/// such as 192.30.255.112, is a caller's.
pub proof fn law_v4_infrastructure_blocks(a: [u8; 4])
    ensures
        ({
            let o = ip_view(IpAddress::V4(a)).1;
            addr_infra(ip_view(IpAddress::V4(a))) <==> (in_v4_block(o, seq![10, 0, 0, 0], 0x1000000)
                || in_v4_block(o, seq![172, 16, 0, 0], 0x100000) || in_v4_block(
                o,
                seq![192, 168, 0, 0],
                0x10000,
            ) || in_v4_block(o, seq![127, 0, 0, 0], 0x1000000) || in_v4_block(
                o,
                seq![169, 254, 0, 0],
                0x10000,
            ) || in_v4_block(o, seq![130, 211, 0, 0], 0x400) || in_v4_block(
                o,
                seq![35, 191, 0, 0],
                0x10000,
            ))
        }),
{
    let o = ip_view(IpAddress::V4(a)).1;
    let (o0, o1, o2, o3) = (o[0], o[1], o[2], o[3]);
    assert(0 <= o0 < 256 && 0 <= o1 < 256 && 0 <= o2 < 256 && 0 <= o3 < 256);
    let x = v4_number(o);
    vstd::arithmetic::div_mod::lemma_fundamental_div_mod_converse(
        x,
        0x1000000,
        o0,
        o1 * 65536 + o2 * 256 + o3,
    );
    vstd::arithmetic::div_mod::lemma_fundamental_div_mod_converse(
        x,
        0x10000,
        o0 * 256 + o1,
        o2 * 256 + o3,
    );
    let q1 = o1 / 16;
    let r1 = o1 % 16;
    vstd::arithmetic::div_mod::lemma_fundamental_div_mod_converse(o1, 16, o1 / 16, o1 % 16);
    vstd::arithmetic::div_mod::lemma_fundamental_div_mod(o1, 16);
    vstd::arithmetic::div_mod::lemma_fundamental_div_mod_converse(
        x,
        0x100000,
        o0 * 16 + q1,
        r1 * 65536 + o2 * 256 + o3,
    );
    let q2 = o2 / 4;
    let r2 = o2 % 4;
    vstd::arithmetic::div_mod::lemma_fundamental_div_mod(o2, 4);
    vstd::arithmetic::div_mod::lemma_fundamental_div_mod_converse(
        x,
        0x400,
        o0 * 16384 + o1 * 64 + q2,
        r2 * 256 + o3,
    );
    assert(v4_number(seq![10, 0, 0, 0]) / 0x1000000 == 10);
    assert(v4_number(seq![127, 0, 0, 0]) / 0x1000000 == 127);
    assert(v4_number(seq![172, 16, 0, 0]) / 0x100000 == 2753);
    assert(v4_number(seq![192, 168, 0, 0]) / 0x10000 == 49320);
    assert(v4_number(seq![169, 254, 0, 0]) / 0x10000 == 43518);
    assert(v4_number(seq![35, 191, 0, 0]) / 0x10000 == 9151);
    assert(v4_number(seq![130, 211, 0, 0]) / 0x400 == 2143424);
}

/// Whether an address is infrastructure (see `addr_infra`).
pub fn is_infrastructure(a: &IpAddress) -> (b: bool)
    ensures
        b == addr_infra(ip_view(*a)),
{
    match a {
        IpAddress::V4(o) => {
            o[0] == 10 || (o[0] == 172 && 16 <= o[1] && o[1] <= 31) || (o[0] == 192 && o[1]
                == 168) || o[0] == 127 || (o[0] == 169 && o[1] == 254) || (o[0] == 130 && o[1]
                == 211 && o[2] < 4) || (o[0] == 35 && o[1] == 191)
        },
        IpAddress::V6(g) => {
            (g[0] == 0 && g[1] == 0 && g[2] == 0 && g[3] == 0 && g[4] == 0 && g[5] == 0 && g[6]
                == 0 && g[7] == 1) || g[0] / 512 == 126
        },
    }
}

/// `t` is one of the comma-separated (and trimmed) entries of `lb`.
pub open spec fn lb_listed(lb: Seq<char>, t: Seq<char>) -> bool {
    exists|i: int|
        0 <= i < split_at(lb, ',').len() && #[trigger] trimmed(split_at(lb, ',')[i]) == t
}

/// What one `X-Forwarded-For` entry contributes: its address's text, when
/// it parses as an address that is neither infrastructure nor one of the
/// load balancer's own public addresses.
pub open spec fn entry_choice(entry: Seq<char>, lb: Seq<char>) -> Option<Seq<char>> {
    match ip_parse(trimmed(entry)) {
        Some(v) => if !addr_infra(v) && !lb_listed(lb, addr_text(v)) {
            Some(addr_text(v))
        } else {
            None
        },
        None => None,
    }
}

/// The rightmost entry that contributes an address.
pub open spec fn pick_from_right(entries: Seq<Seq<char>>, lb: Seq<char>) -> Option<Seq<char>>
    decreases entries.len(),
{
    if entries.len() == 0 {
        None
    } else {
        match entry_choice(entries.last(), lb) {
            Some(t) => Some(t),
            None => pick_from_right(entries.drop_last(), lb),
        }
    }
}

/// The caller's public address: the rightmost `X-Forwarded-For` entry that
/// is a caller's address, else the socket peer's address.
pub open spec fn client_ip_text(
    xff: Option<Seq<char>>,
    peer: Option<(bool, Seq<int>)>,
    lb: Seq<char>,
) -> Option<Seq<char>> {
    let from_header = match xff {
        Some(x) => pick_from_right(split_at(x, ','), lb),
        None => None,
    };
    match from_header {
        Some(t) => Some(t),
        None => match peer {
            Some(v) => Some(addr_text(v)),
            None => None,
        },
    }
}

fn listed(lb: &Vec<Vec<char>>, t: &Vec<char>) -> (b: bool)
    ensures
        b == exists|i: int| 0 <= i < lb.len() && #[trigger] trimmed(lb@[i]@) == t@,
{
    let mut i: usize = 0;
    while i < lb.len()
        invariant
            i <= lb.len(),
            forall|k: int| 0 <= k < i ==> #[trigger] trimmed(lb@[k]@) != t@,
        decreases lb.len() - i,
    {
        let e = trim_chars(&lb[i]);
        if crate::text::chars_eq(&e, t) {
            return true;
        }
        i += 1;
    }
    false
}

/// The caller's public address, resistant to spoofing: `X-Forwarded-For`
/// is scanned from the right (the entries the serving infrastructure
/// appended), skipping infrastructure addresses and the load balancer's own
/// public addresses (`lb_ips`, comma-separated); whatever a client planted
/// further left is never reached first. Without such an entry, the socket
/// peer's address.
pub fn client_ip(xff: Option<&str>, peer: Option<&IpAddress>, lb_ips: &str) -> (r: Option<String>)
    ensures
        match client_ip_text(
            match xff {
                Some(x) => Some(x@),
                None => None,
            },
            match peer {
                Some(p) => Some(ip_view(*p)),
                None => None,
            },
            lb_ips@,
        ) {
            Some(t) => r matches Some(s) && s@ == t,
            None => r is None,
        },
{
    let lbv = chars_of(lb_ips);
    let lb = split_chars(&lbv, ',');
    if let Some(x) = xff {
        let xv = chars_of(x);
        let parts = split_chars(&xv, ',');
        let ghost entries = texts(parts@);
        let mut k: usize = parts.len();
        assert(entries.take(k as int) =~= entries);
        while k > 0
            invariant
                k <= parts.len(),
                xff == Some(x),
                entries == texts(parts@),
                entries == split_at(x@, ','),
                texts(lb@) == split_at(lb_ips@, ','),
                pick_from_right(entries, lb_ips@) == pick_from_right(entries.take(k as int), lb_ips@),
            decreases k,
        {
            let ghost pre = entries.take(k as int);
            assert(pre.last() == parts@[k - 1]@);
            assert(pre.drop_last() =~= entries.take(k - 1));
            let t = trim_chars(&parts[k - 1]);
            match read_ip(&t) {
                Some(a) => {
                    if !is_infrastructure(&a) {
                        let text = ip_text(&a);
                        let tv = chars_of(text.as_str());
                        let hit = listed(&lb, &tv);
                        proof {
                            if hit {
                                let i = choose|i: int| 0 <= i < lb.len() && #[trigger] trimmed(lb@[i]@) == tv@;
                                assert(trimmed(split_at(lb_ips@, ',')[i]) == tv@);
                            } else {
                                assert forall|i: int| 0 <= i < split_at(lb_ips@, ',').len() implies #[trigger] trimmed(split_at(lb_ips@, ',')[i]) != tv@ by {
                                    assert(split_at(lb_ips@, ',')[i] == lb@[i]@);
                                }
                                assert(!lb_listed(lb_ips@, tv@));
                                assert(entry_choice(pre.last(), lb_ips@) == Some(text@));
                                assert(pick_from_right(pre, lb_ips@) == Some(text@));
                            }
                        }
                        if !hit {
                            assert(pick_from_right(entries, lb_ips@) == Some(text@));
                            assert(xff == Some(x));
                            return Some(text);
                        }
                    }
                },
                None => {},
            }
            k -= 1;
        }
        assert(entries.take(0) =~= Seq::<Seq<char>>::empty());
    }
    match peer {
        Some(p) => Some(ip_text(p)),
        None => None,
    }
}

proof fn lemma_pick_concat(a: Seq<Seq<char>>, b: Seq<Seq<char>>, lb: Seq<char>)
    requires
        pick_from_right(b, lb) is Some,
    ensures
        pick_from_right(a + b, lb) == pick_from_right(b, lb),
    decreases b.len(),
{
    assert((a + b).last() == b.last());
    assert((a + b).drop_last() =~= a + b.drop_last());
    if entry_choice(b.last(), lb) is None {
        lemma_pick_concat(a, b.drop_last(), lb);
    }
}

/// Entries planted to the left of an honest `X-Forwarded-For` value never
/// change the chosen address: whatever a client prepends, the address
/// taken from the entries the infrastructure appended stays the same.
pub proof fn law_planted_entries_ignored(planted: Seq<char>, honest: Seq<char>, lb: Seq<char>)
    requires
        pick_from_right(split_at(honest, ','), lb) is Some,
    ensures
        pick_from_right(split_at(planted + seq![','] + honest, ','), lb) == pick_from_right(
            split_at(honest, ','),
            lb,
        ),
{
    lemma_split_concat(planted, ',', honest);
    lemma_pick_concat(split_at(planted, ','), split_at(honest, ','), lb);
}

/// The load balancer's own public forwarding address(es) unless
/// `LB_PUBLIC_IPS` names others (comma-separated).
pub fn load_balancer_ips(setting: Option<String>) -> (s: String)
    ensures
        match setting {
            Some(t) => s@ == t@,
            None => s@ == "8.233.242.102"@,
        },
{
    match setting {
        Some(t) => t,
        None => crate::text::owned("8.233.242.102"),
    }
}

} // verus!
