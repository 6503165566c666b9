//! IP addresses as plain values, and their canonical text form.

use vstd::prelude::*;
use crate::text::{decimal, hex_lower, push_decimal, push_hex};

verus! {

/// An IPv4 address (four octets) or an IPv6 address (eight 16-bit groups).
#[derive(Debug, Clone, Copy, PartialEq, Eq, Hash)]
pub enum IpAddress {
    V4([u8; 4]),
    V6([u16; 8]),
}

/// Dotted-quad text of four octets: "a.b.c.d".
pub open spec fn ipv4_text(o: Seq<u8>) -> Seq<char>
    recommends
        o.len() == 4,
{
    decimal(o[0] as nat) + seq!['.'] + decimal(o[1] as nat) + seq!['.'] + decimal(o[2] as nat)
        + seq!['.'] + decimal(o[3] as nat)
}

/// Groups written in hexadecimal and separated by colons.
pub open spec fn groups_text(g: Seq<u16>) -> Seq<char>
    decreases g.len(),
{
    if g.len() == 0 {
        Seq::empty()
    } else if g.len() == 1 {
        hex_lower(g[0] as nat)
    } else {
        groups_text(g.drop_last()) + seq![':'] + hex_lower(g.last() as nat)
    }
}

/// `len` groups starting at `start` are all zero.
pub open spec fn is_zero_run(g: Seq<u16>, start: int, len: int) -> bool {
    &&& 0 <= start
    &&& 0 <= len
    &&& start + len <= g.len()
    &&& forall|i: int| start <= i < start + len ==> g[i] == 0
}

/// The longest run of zero groups, the leftmost one among runs of that length.
pub open spec fn is_longest_zero_run(g: Seq<u16>, start: int, len: int) -> bool {
    &&& is_zero_run(g, start, len)
    &&& forall|s: int, l: int| #[trigger] is_zero_run(g, s, l) ==> l <= len
    &&& forall|s: int| 0 <= s < start ==> !#[trigger] is_zero_run(g, s, len)
}

/// The groups of an IPv4-mapped address `::ffff:a.b.c.d`.
pub open spec fn is_ipv4_mapped(g: Seq<u16>) -> bool {
    &&& g[0] == 0
    &&& g[1] == 0
    &&& g[2] == 0
    &&& g[3] == 0
    &&& g[4] == 0
    &&& g[5] == 0xffff
}

/// The four octets carried in the last two groups.
pub open spec fn mapped_octets(g: Seq<u16>) -> Seq<u8> {
    seq![(g[6] / 256) as u8, (g[6] % 256) as u8, (g[7] / 256) as u8, (g[7] % 256) as u8]
}

/// Text of an IPv6 address: an IPv4-mapped address is written `::ffff:a.b.c.d`;
/// otherwise the longest run of two or more zero groups (the leftmost of equals)
/// is written `::`, and every other group in lower-case hexadecimal.
pub open spec fn ipv6_text(g: Seq<u16>) -> Seq<char>
    recommends
        g.len() == 8,
{
    if is_ipv4_mapped(g) {
        seq![':', ':', 'f', 'f', 'f', 'f', ':'] + ipv4_text(mapped_octets(g))
    } else {
        let run = choose|r: (int, int)| is_longest_zero_run(g, r.0, r.1);
        if run.1 > 1 {
            groups_text(g.subrange(0, run.0)) + seq![':', ':'] + groups_text(
                g.subrange(run.0 + run.1, g.len() as int),
            )
        } else {
            groups_text(g)
        }
    }
}

/// Canonical text of an address.
pub open spec fn ip_text(ip: IpAddress) -> Seq<char> {
    match ip {
        IpAddress::V4(o) => ipv4_text(o@),
        IpAddress::V6(g) => ipv6_text(g@),
    }
}

fn push_ipv4(s: &mut String, o: [u8; 4])
    ensures
        final(s)@ == old(s)@ + ipv4_text(o@),
{
    let ghost start = s@;
    push_decimal(s, o[0] as u64);
    s.push('.');
    push_decimal(s, o[1] as u64);
    s.push('.');
    push_decimal(s, o[2] as u64);
    s.push('.');
    push_decimal(s, o[3] as u64);
    assert(s@ =~= start + ipv4_text(o@));
}

/// Appends groups `from..to`, colon-separated.
fn push_groups(s: &mut String, g: &[u16; 8], from: usize, to: usize)
    requires
        from <= to <= 8,
    ensures
        final(s)@ == old(s)@ + groups_text(g@.subrange(from as int, to as int)),
{
    let ghost start = s@;
    let mut i = from;
    assert(g@.subrange(from as int, from as int) =~= Seq::<u16>::empty());
    while i < to
        invariant
            from <= i <= to <= 8,
            s@ == start + groups_text(g@.subrange(from as int, i as int)),
        decreases to - i,
    {
        if i > from {
            s.push(':');
        }
        push_hex(s, g[i] as u64);
        let ghost next = g@.subrange(from as int, i + 1);
        assert(next.drop_last() =~= g@.subrange(from as int, i as int));
        if i == from {
            assert(next.len() == 1);
        }
        assert(s@ =~= start + groups_text(next));
        i = i + 1;
    }
}

/// Finds the leftmost longest run of zero groups.
fn longest_zero_run(g: &[u16; 8]) -> (r: (usize, usize))
    ensures
        is_longest_zero_run(g@, r.0 as int, r.1 as int),
{
    let mut best_start: usize = 0;
    let mut best_len: usize = 0;
    let mut cur_start: usize = 0;
    let mut cur_len: usize = 0;
    let mut i: usize = 0;
    while i < 8
        invariant
            i <= 8,
            g@.len() == 8,
            cur_start + cur_len == i,
            is_zero_run(g@, cur_start as int, cur_len as int),
            cur_start > 0 ==> g@[cur_start - 1] != 0,
            cur_len == 0 ==> cur_start == i,
            is_zero_run(g@, best_start as int, best_len as int),
            best_start + best_len <= i || (best_len == 0 && best_start == 0),
            forall|s: int, l: int|
                #[trigger] is_zero_run(g@, s, l) && s + l <= i ==> l <= best_len,
            forall|s: int|
                0 <= s < best_start && s + best_len <= i ==> !#[trigger] is_zero_run(
                    g@,
                    s,
                    best_len as int,
                ),
        decreases 8 - i,
    {
        if g[i] == 0 {
            if cur_len == 0 {
                cur_start = i;
            }
            cur_len = cur_len + 1;
            assert(is_zero_run(g@, cur_start as int, cur_len as int));
            assert forall|s: int, l: int|
                #[trigger] is_zero_run(g@, s, l) && s + l == i + 1 && l > 0 implies s
                >= cur_start by {
                if s < cur_start {
                    assert(g@[cur_start - 1] == 0);
                }
            }
            if cur_len > best_len {
                best_start = cur_start;
                best_len = cur_len;
            }
        } else {
            assert forall|s: int, l: int|
                #[trigger] is_zero_run(g@, s, l) && s + l == i + 1 implies l == 0 by {
                if l > 0 {
                    assert(g@[i as int] == 0);
                }
            }
            cur_start = i + 1;
            cur_len = 0;
        }
        i = i + 1;
    }
    assert forall|s: int, l: int| #[trigger] is_zero_run(g@, s, l) implies l <= best_len by {}
    (best_start, best_len)
}

fn push_ipv6(s: &mut String, g: &[u16; 8])
    ensures
        final(s)@ == old(s)@ + ipv6_text(g@),
{
    let ghost start = s@;
    if g[0] == 0 && g[1] == 0 && g[2] == 0 && g[3] == 0 && g[4] == 0 && g[5] == 0xffff {
        s.push(':');
        s.push(':');
        s.push('f');
        s.push('f');
        s.push('f');
        s.push('f');
        s.push(':');
        let o: [u8; 4] = [(g[6] / 256) as u8, (g[6] % 256) as u8, (g[7] / 256) as u8, (g[7] % 256) as u8];
        assert(o@ =~= mapped_octets(g@));
        push_ipv4(s, o);
        assert(s@ =~= start + ipv6_text(g@));
    } else {
        let (zs, zl) = longest_zero_run(g);
        proof {
            let run = choose|r: (int, int)| is_longest_zero_run(g@, r.0, r.1);
            assert(is_longest_zero_run(g@, zs as int, zl as int));
            assert(is_longest_zero_run(g@, run.0, run.1));
            assert(run.1 <= zl as int);
            assert(zl as int <= run.1);
            if run.0 < zs as int {
                assert(!is_zero_run(g@, run.0, zl as int));
            }
            if zs < run.0 {
                assert(!is_zero_run(g@, zs as int, run.1));
            }
            assert(run == (zs as int, zl as int));
        }
        if zl > 1 {
            push_groups(s, g, 0, zs);
            s.push(':');
            s.push(':');
            push_groups(s, g, zs + zl, 8);
            assert(g@.subrange(zs + zl, g@.len() as int) =~= g@.subrange(zs + zl, 8));
        } else {
            push_groups(s, g, 0, 8);
            assert(g@.subrange(0, 8) =~= g@);
        }
        assert(s@ =~= start + ipv6_text(g@));
    }
}

impl IpAddress {
    /// Canonical text: dotted quad for IPv4, compressed hexadecimal for IPv6.
    pub fn to_string(&self) -> (s: String)
        ensures
            s@ == ip_text(*self),
    {
        let mut s = String::new();
        match self {
            IpAddress::V4(o) => push_ipv4(&mut s, *o),
            IpAddress::V6(g) => push_ipv6(&mut s, g),
        }
        assert(s@ =~= ip_text(*self));
        s
    }
}

} // verus!
