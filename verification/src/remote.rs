//! The remote endpoint of a connection, modelled as plain values: four
//! octets and a port for IPv4, eight 16-bit groups and a port for IPv6.
//! Rendering follows the usual textual forms, with one exception taken over
//! from the log format: an IPv4-mapped IPv6 address (ten zero bytes, two
//! `0xff` bytes, then four address bytes) renders as the dotted IPv4
//! address it carries.

use vstd::prelude::*;
use crate::text::control_free;
use crate::text::dec_digits;
use crate::text::hex_digits;
use crate::text::lemma_control_free_concat;
use crate::text::lemma_dec_digits_control_free;
use crate::text::lemma_hex_digits_control_free;
use crate::text::push_dec_u16;
use crate::text::push_hex_u16;

verus! {

broadcast use vstd::array::group_array_axioms;

/// The address and port of the remote endpoint. An IPv6 address holds its
/// eight 16-bit groups by type, so every value is well-formed.
pub enum RemoteAddr {
    V4 { a: u8, b: u8, c: u8, d: u8, port: u16 },
    V6 { groups: [u16; 8], port: u16 },
}

/// The dotted decimal form of four IPv4 octets.
pub open spec fn ipv4_text(a: u8, b: u8, c: u8, d: u8) -> Seq<char> {
    dec_digits(a as nat) + seq!['.'] + dec_digits(b as nat) + seq!['.'] + dec_digits(c as nat)
        + seq!['.'] + dec_digits(d as nat)
}

/// Whether eight groups form an IPv4-mapped IPv6 address.
pub open spec fn is_v4_mapped(g: Seq<u16>) -> bool {
    g.len() == 8 && g[0] == 0 && g[1] == 0 && g[2] == 0 && g[3] == 0 && g[4] == 0 && g[5] == 0xffff
}

/// The groups `g[lo..hi]`, in lowercase hexadecimal, joined by colons.
pub open spec fn groups_join(g: Seq<u16>, lo: int, hi: int) -> Seq<char>
    decreases hi - lo,
{
    if lo >= hi {
        seq![]
    } else if lo == hi - 1 {
        hex_digits(g[lo] as nat)
    } else {
        hex_digits(g[lo] as nat) + seq![':'] + groups_join(g, lo + 1, hi)
    }
}

/// The leftmost longest run of zero groups, scanned left to right: `k` is
/// the next index, the pairs are the current run and the best run so far.
pub open spec fn zero_run_scan(
    g: Seq<u16>,
    k: int,
    cur_start: int,
    cur_len: int,
    best_start: int,
    best_len: int,
) -> (int, int)
    decreases g.len() - k,
{
    if k < 0 || k >= g.len() {
        (best_start, best_len)
    } else if g[k] == 0 {
        let ns = if cur_len == 0 {
            k
        } else {
            cur_start
        };
        let nl = cur_len + 1;
        if nl > best_len {
            zero_run_scan(g, k + 1, ns, nl, ns, nl)
        } else {
            zero_run_scan(g, k + 1, ns, nl, best_start, best_len)
        }
    } else {
        zero_run_scan(g, k + 1, 0, 0, best_start, best_len)
    }
}

/// The native textual form of eight IPv6 groups: lowercase hexadecimal
/// groups joined by colons, with the leftmost longest run of two or more
/// zero groups compressed to `::`.
pub open spec fn ipv6_text(g: Seq<u16>) -> Seq<char>
    recommends
        g.len() == 8,
{
    let (bs, bl) = zero_run_scan(g, 0, 0, 0, 0, 0);
    if bl > 1 {
        groups_join(g, 0, bs) + seq![':', ':'] + groups_join(g, bs + bl, g.len() as int)
    } else {
        groups_join(g, 0, g.len() as int)
    }
}

impl RemoteAddr {
    /// The textual rendering of the remote endpoint: `a.b.c.d:port` for
    /// IPv4 and for IPv4-mapped IPv6 addresses, the native IPv6 form
    /// followed by `:port` otherwise.
    pub open spec fn rendered(&self) -> Seq<char> {
        match self {
            RemoteAddr::V4 { a, b, c, d, port } => ipv4_text(*a, *b, *c, *d) + seq![':']
                + dec_digits(*port as nat),
            RemoteAddr::V6 { groups, port } => {
                if is_v4_mapped(groups@) {
                    ipv4_text(
                        (groups@[6] >> 8) as u8,
                        (groups@[6] & 0xff) as u8,
                        (groups@[7] >> 8) as u8,
                        (groups@[7] & 0xff) as u8,
                    ) + seq![':'] + dec_digits(*port as nat)
                } else {
                    ipv6_text(groups@) + seq![':'] + dec_digits(*port as nat)
                }
            },
        }
    }

    /// Appends the rendering of the endpoint to `out`.
    pub fn push_rendered(&self, out: &mut Vec<char>)
        ensures
            final(out)@ == old(out)@ + self.rendered(),
    {
        match self {
            RemoteAddr::V4 { a, b, c, d, port } => {
                push_ipv4(out, *a, *b, *c, *d);
                out.push(':');
                push_dec_u16(out, *port);
            },
            RemoteAddr::V6 { groups, port } => {
                let g5 = groups[5];
                let mapped = groups[0] == 0 && groups[1] == 0 && groups[2] == 0 && groups[3] == 0
                    && groups[4] == 0 && g5 == 0xffff;
                if mapped {
                    let g6 = groups[6];
                    let g7 = groups[7];
                    push_ipv4(out, (g6 >> 8) as u8, (g6 & 0xff) as u8, (g7 >> 8) as u8, (g7
                        & 0xff) as u8);
                } else {
                    push_ipv6(out, groups);
                }
                out.push(':');
                push_dec_u16(out, *port);
            },
        }
    }
}

proof fn lemma_ipv4_control_free(a: u8, b: u8, c: u8, d: u8)
    ensures
        control_free(ipv4_text(a, b, c, d)),
{
    lemma_dec_digits_control_free(a as nat);
    lemma_dec_digits_control_free(b as nat);
    lemma_dec_digits_control_free(c as nat);
    lemma_dec_digits_control_free(d as nat);
    let t1 = dec_digits(a as nat) + seq!['.'];
    lemma_control_free_concat(dec_digits(a as nat), seq!['.']);
    let t2 = t1 + dec_digits(b as nat);
    lemma_control_free_concat(t1, dec_digits(b as nat));
    let t3 = t2 + seq!['.'];
    lemma_control_free_concat(t2, seq!['.']);
    let t4 = t3 + dec_digits(c as nat);
    lemma_control_free_concat(t3, dec_digits(c as nat));
    let t5 = t4 + seq!['.'];
    lemma_control_free_concat(t4, seq!['.']);
    lemma_control_free_concat(t5, dec_digits(d as nat));
}

proof fn lemma_groups_join_control_free(g: Seq<u16>, lo: int, hi: int)
    ensures
        control_free(groups_join(g, lo, hi)),
    decreases hi - lo,
{
    if lo >= hi {
    } else if lo == hi - 1 {
        lemma_hex_digits_control_free(g[lo] as nat);
    } else {
        lemma_hex_digits_control_free(g[lo] as nat);
        lemma_control_free_concat(hex_digits(g[lo] as nat), seq![':']);
        lemma_groups_join_control_free(g, lo + 1, hi);
        lemma_control_free_concat(hex_digits(g[lo] as nat) + seq![':'], groups_join(g, lo + 1, hi));
    }
}

/// The rendering of a remote endpoint holds no control character: digits,
/// hexadecimal digits, dots and colons only.
pub proof fn lemma_rendered_control_free(r: RemoteAddr)
    ensures
        control_free(r.rendered()),
{
    match r {
        RemoteAddr::V4 { a, b, c, d, port } => {
            lemma_ipv4_control_free(a, b, c, d);
            lemma_dec_digits_control_free(port as nat);
            lemma_control_free_concat(ipv4_text(a, b, c, d), seq![':']);
            lemma_control_free_concat(ipv4_text(a, b, c, d) + seq![':'], dec_digits(port as nat));
        },
        RemoteAddr::V6 { groups, port } => {
            let g = groups@;
            let body = if is_v4_mapped(g) {
                let t = ipv4_text(
                    (g[6] >> 8) as u8,
                    (g[6] & 0xff) as u8,
                    (g[7] >> 8) as u8,
                    (g[7] & 0xff) as u8,
                );
                lemma_ipv4_control_free(
                    (g[6] >> 8) as u8,
                    (g[6] & 0xff) as u8,
                    (g[7] >> 8) as u8,
                    (g[7] & 0xff) as u8,
                );
                t
            } else {
                let (bs, bl) = zero_run_scan(g, 0, 0, 0, 0, 0);
                if bl > 1 {
                    lemma_groups_join_control_free(g, 0, bs);
                    lemma_control_free_concat(groups_join(g, 0, bs), seq![':', ':']);
                    lemma_groups_join_control_free(g, bs + bl, g.len() as int);
                    lemma_control_free_concat(
                        groups_join(g, 0, bs) + seq![':', ':'],
                        groups_join(g, bs + bl, g.len() as int),
                    );
                } else {
                    lemma_groups_join_control_free(g, 0, g.len() as int);
                }
                ipv6_text(g)
            };
            lemma_dec_digits_control_free(port as nat);
            lemma_control_free_concat(body, seq![':']);
            lemma_control_free_concat(body + seq![':'], dec_digits(port as nat));
        },
    }
}

/// Law: an IPv4-mapped IPv6 address renders as the dotted IPv4 address it
/// embeds, followed by the port, exactly as a plain IPv4 endpoint does.
pub proof fn lemma_mapped_renders_as_ipv4(groups: [u16; 8], port: u16)
    requires
        is_v4_mapped(groups@),
    ensures
        (RemoteAddr::V6 { groups, port }).rendered() == (RemoteAddr::V4 {
            a: (groups@[6] >> 8) as u8,
            b: (groups@[6] & 0xff) as u8,
            c: (groups@[7] >> 8) as u8,
            d: (groups@[7] & 0xff) as u8,
            port,
        }).rendered(),
{
}

/// Appends the dotted decimal form of four octets to `out`.
fn push_ipv4(out: &mut Vec<char>, a: u8, b: u8, c: u8, d: u8)
    ensures
        final(out)@ == old(out)@ + ipv4_text(a, b, c, d),
{
    push_dec_u16(out, a as u16);
    out.push('.');
    push_dec_u16(out, b as u16);
    out.push('.');
    push_dec_u16(out, c as u16);
    out.push('.');
    push_dec_u16(out, d as u16);
    proof {
        assert(out@ =~= old(out)@ + ipv4_text(a, b, c, d));
    }
}

/// Appends the native textual form of eight IPv6 groups to `out`.
fn push_ipv6(out: &mut Vec<char>, groups: &[u16; 8])
    ensures
        final(out)@ == old(out)@ + ipv6_text(groups@),
{
    let ghost g = groups@;
    let mut cur_start: usize = 0;
    let mut cur_len: usize = 0;
    let mut best_start: usize = 0;
    let mut best_len: usize = 0;
    let mut k: usize = 0;
    while k < 8
        invariant
            g == groups@,
            g.len() == 8,
            k <= 8,
            cur_start + cur_len <= k,
            best_start + best_len <= 8,
            zero_run_scan(g, k as int, cur_start as int, cur_len as int, best_start as int,
                best_len as int) == zero_run_scan(g, 0, 0, 0, 0, 0),
        decreases 8 - k,
    {
        if groups[k] == 0 {
            if cur_len == 0 {
                cur_start = k;
            }
            cur_len = cur_len + 1;
            if cur_len > best_len {
                best_start = cur_start;
                best_len = cur_len;
            }
        } else {
            cur_start = 0;
            cur_len = 0;
        }
        k = k + 1;
    }
    proof {
        assert(zero_run_scan(g, 8, cur_start as int, cur_len as int, best_start as int,
            best_len as int) == (best_start as int, best_len as int));
    }
    if best_len > 1 {
        push_groups_join(out, groups, 0, best_start);
        out.push(':');
        out.push(':');
        push_groups_join(out, groups, best_start + best_len, 8);
        proof {
            assert(out@ =~= old(out)@ + ipv6_text(g));
        }
    } else {
        push_groups_join(out, groups, 0, 8);
    }
}

/// Appends the groups `groups[lo..hi]` in hexadecimal, joined by colons.
fn push_groups_join(out: &mut Vec<char>, groups: &[u16; 8], lo: usize, hi: usize)
    requires
        lo <= hi <= groups@.len(),
    ensures
        final(out)@ == old(out)@ + groups_join(groups@, lo as int, hi as int),
    decreases hi - lo,
{
    if lo >= hi {
    } else if lo == hi - 1 {
        push_hex_u16(out, groups[lo]);
    } else {
        push_hex_u16(out, groups[lo]);
        out.push(':');
        push_groups_join(out, groups, lo + 1, hi);
        proof {
            assert(out@ =~= old(out)@ + groups_join(groups@, lo as int, hi as int));
        }
    }
}

} // verus!
