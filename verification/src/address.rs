use vstd::prelude::*;

use crate::models::IpAddress;
use crate::text::{decimal, lower_hex, push_char, push_radix};

verus! {

/// Dotted decimal notation of four octets, as `Ipv4Addr` displays them.
pub open spec fn ipv4_text(o: Seq<u8>) -> Seq<char> {
    decimal(o[0] as nat) + seq!['.'] + decimal(o[1] as nat) + seq!['.'] + decimal(o[2] as nat)
        + seq!['.'] + decimal(o[3] as nat)
}

/// Number of zero segments in a row starting at `i`.
pub open spec fn zero_run(s: Seq<u16>, i: int) -> nat
    decreases s.len() - i,
{
    if 0 <= i < s.len() && s[i] == 0 {
        1 + zero_run(s, i + 1)
    } else {
        0
    }
}

/// Start and length of the longest run of zero segments starting at `i` or
/// later; of runs of equal length the first. Length 0 when there is none.
pub open spec fn longest_zero_run(s: Seq<u16>, i: int) -> (int, nat)
    decreases s.len() - i,
{
    if i < 0 || i >= s.len() {
        (0, 0)
    } else {
        let later = longest_zero_run(s, i + 1);
        let here = zero_run(s, i);
        if here > 0 && here >= later.1 {
            (i, here)
        } else {
            later
        }
    }
}

/// Segments in lower-case hexadecimal without leading zeros, separated by
/// colons.
pub open spec fn hex_groups(s: Seq<u16>) -> Seq<char>
    decreases s.len(),
{
    if s.len() == 0 {
        Seq::empty()
    } else if s.len() == 1 {
        lower_hex(s[0] as nat)
    } else {
        hex_groups(s.drop_last()) + seq![':'] + lower_hex(s.last() as nat)
    }
}

/// Whether eight segments hold an IPv4-mapped address `::ffff:a.b.c.d`.
pub open spec fn is_ipv4_mapped(s: Seq<u16>) -> bool {
    &&& s[0] == 0
    &&& s[1] == 0
    &&& s[2] == 0
    &&& s[3] == 0
    &&& s[4] == 0
    &&& s[5] == 0xffff
}

/// The octets that the last two segments carry.
pub open spec fn embedded_octets(s: Seq<u16>) -> Seq<u8> {
    seq![(s[6] / 256) as u8, (s[6] % 256) as u8, (s[7] / 256) as u8, (s[7] % 256) as u8]
}

/// Text of eight segments as `Ipv6Addr` displays them (RFC 5952): an
/// IPv4-mapped address as `::ffff:` and dotted decimal; otherwise the
/// segments in hexadecimal, the first longest run of two or more zero
/// segments written as `::`.
pub open spec fn ipv6_text(s: Seq<u16>) -> Seq<char> {
    if is_ipv4_mapped(s) {
        seq![':', ':', 'f', 'f', 'f', 'f', ':'] + ipv4_text(embedded_octets(s))
    } else {
        let run = longest_zero_run(s, 0);
        if run.1 > 1 {
            hex_groups(s.subrange(0, run.0)) + seq![':', ':'] + hex_groups(
                s.subrange(run.0 + run.1, s.len() as int),
            )
        } else {
            hex_groups(s)
        }
    }
}

/// Text of an address as `IpAddr` displays it.
pub open spec fn ip_text(ip: IpAddress) -> Seq<char> {
    match ip {
        IpAddress::V4(o) => ipv4_text(o@),
        IpAddress::V6(s) => ipv6_text(s@),
    }
}

/// Appends dotted decimal notation of four octets.
fn push_ipv4(s: &mut String, o: [u8; 4])
    ensures
        final(s)@ == old(s)@ + ipv4_text(o@),
{
    push_radix(s, o[0] as u64, 10);
    push_char(s, '.');
    push_radix(s, o[1] as u64, 10);
    push_char(s, '.');
    push_radix(s, o[2] as u64, 10);
    push_char(s, '.');
    push_radix(s, o[3] as u64, 10);
    assert(final(s)@ =~= old(s)@ + ipv4_text(o@));
}

/// Appends the segments `lo..hi` as colon-separated hexadecimal groups.
fn push_hex_groups(s: &mut String, segs: &[u16; 8], lo: usize, hi: usize)
    requires
        lo <= hi <= 8,
    ensures
        final(s)@ == old(s)@ + hex_groups(segs@.subrange(lo as int, hi as int)),
{
    let ghost start = s@;
    let mut j: usize = lo;
    assert(hex_groups(segs@.subrange(lo as int, lo as int)) =~= Seq::<char>::empty());
    assert(s@ =~= start + hex_groups(segs@.subrange(lo as int, lo as int)));
    while j < hi
        invariant
            lo <= j <= hi,
            hi <= 8,
            s@ == start + hex_groups(segs@.subrange(lo as int, j as int)),
        decreases hi - j,
    {
        let ghost prev = segs@.subrange(lo as int, j as int);
        let ghost next = segs@.subrange(lo as int, j + 1);
        assert(next.drop_last() =~= prev);
        if j > lo {
            push_char(s, ':');
        }
        push_radix(s, segs[j] as u64, 16);
        proof {
            if j == lo {
                assert(next.len() == 1);
                assert(s@ =~= start + hex_groups(next));
            } else {
                assert(s@ =~= start + hex_groups(next));
            }
        }
        j = j + 1;
    }
}

/// Start and length of the first longest run of zero segments.
fn find_longest_zero_run(segs: &[u16; 8]) -> (r: (usize, usize))
    ensures
        r.0 as int == longest_zero_run(segs@, 0).0,
        r.1 as nat == longest_zero_run(segs@, 0).1,
        r.0 + r.1 <= 8,
{
    let mut i: usize = 8;
    let mut run: usize = 0;
    let mut best_start: usize = 0;
    let mut best_len: usize = 0;
    while i > 0
        invariant
            i <= 8,
            run as nat == zero_run(segs@, i as int),
            run + i <= 8,
            best_start as int == longest_zero_run(segs@, i as int).0,
            best_len as nat == longest_zero_run(segs@, i as int).1,
            best_start + best_len <= 8,
        decreases i,
    {
        i = i - 1;
        if segs[i] == 0 {
            run = run + 1;
        } else {
            run = 0;
        }
        if run > 0 && run >= best_len {
            best_start = i;
            best_len = run;
        }
    }
    (best_start, best_len)
}

/// Text of an address, as `IpAddr` displays it.
pub fn format_ip(ip: &IpAddress) -> (r: String)
    ensures
        r@ == ip_text(*ip),
{
    let mut s = String::new();
    match ip {
        IpAddress::V4(o) => {
            push_ipv4(&mut s, *o);
        },
        IpAddress::V6(segs) => {
            if segs[0] == 0 && segs[1] == 0 && segs[2] == 0 && segs[3] == 0 && segs[4] == 0 && segs[5]
                == 0xffff {
                push_char(&mut s, ':');
                push_char(&mut s, ':');
                push_char(&mut s, 'f');
                push_char(&mut s, 'f');
                push_char(&mut s, 'f');
                push_char(&mut s, 'f');
                push_char(&mut s, ':');
                let o: [u8; 4] = [
                    (segs[6] / 256) as u8,
                    (segs[6] % 256) as u8,
                    (segs[7] / 256) as u8,
                    (segs[7] % 256) as u8,
                ];
                push_ipv4(&mut s, o);
                assert(o@ =~= embedded_octets(segs@));
            } else {
                let (start, len) = find_longest_zero_run(segs);
                if len > 1 {
                    push_hex_groups(&mut s, segs, 0, start);
                    push_char(&mut s, ':');
                    push_char(&mut s, ':');
                    push_hex_groups(&mut s, segs, start + len, 8);
                } else {
                    push_hex_groups(&mut s, segs, 0, 8);
                    assert(segs@.subrange(0, 8) =~= segs@);
                }
            }
        },
    }
    assert(s@ =~= ip_text(*ip));
    s
}

/// The addresses as a comma-separated list.
pub open spec fn ip_list_text(ips: Seq<IpAddress>) -> Seq<char>
    decreases ips.len(),
{
    if ips.len() == 0 {
        Seq::empty()
    } else if ips.len() == 1 {
        ip_text(ips[0])
    } else {
        ip_list_text(ips.drop_last()) + seq![','] + ip_text(ips.last())
    }
}

} // verus!
