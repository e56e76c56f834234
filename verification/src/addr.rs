//! Socket addresses as the tunnel core sees them: plain IPv4 or IPv6
//! endpoints with a port, their textual grammar, and a parser and formatter
//! proved inverse to each other.

use vstd::prelude::*;
use crate::chars::{
    is_dec_digit, is_hex_digit, find_char,
    lemma_find_char, lemma_find_char_at, lemma_find_char_absent,
    find_char_exec, chars_to_string,
};
use crate::num::{
    all_dec, all_hex, dec_value, hex_value, dec_digits, hex_digits,
    lemma_dec_digits_value, lemma_hex_digits_value,
    lemma_dec_digits_len, lemma_hex_digits_len,
    lemma_pow10_vals, lemma_pow16_vals,
    parse_dec5, parse_hex4, push_dec, push_hex,
};

verus! {

/// A socket address: four octets or eight hexadecimal groups, plus a port.
#[derive(Clone, Copy, Debug, PartialEq, Eq, Structural)]
pub enum SockAddr {
    V4 { a: u8, b: u8, c: u8, d: u8, port: u16 },
    V6 {
        g0: u16,
        g1: u16,
        g2: u16,
        g3: u16,
        g4: u16,
        g5: u16,
        g6: u16,
        g7: u16,
        port: u16,
    },
}

/// `s` is a decimal numeral naming a value up to 255.
pub open spec fn spec_parse_octet(s: Seq<char>) -> Option<u8> {
    if 1 <= s.len() <= 3 && all_dec(s) && dec_value(s) <= 255 {
        Some(dec_value(s) as u8)
    } else {
        None
    }
}

/// `s` is a decimal numeral naming a port.
pub open spec fn spec_parse_port(s: Seq<char>) -> Option<u16> {
    if 1 <= s.len() <= 5 && all_dec(s) && dec_value(s) <= 65535 {
        Some(dec_value(s) as u16)
    } else {
        None
    }
}

/// `s` is a hexadecimal numeral of one to four digits.
pub open spec fn spec_parse_group(s: Seq<char>) -> Option<u16> {
    if 1 <= s.len() <= 4 && all_hex(s) {
        Some(hex_value(s) as u16)
    } else {
        None
    }
}

/// Colon-separated hexadecimal groups.
pub open spec fn spec_parse_groups(s: Seq<char>) -> Option<Seq<u16>>
    decreases s.len(),
{
    let i = find_char(s, ':');
    if i < 0 {
        match spec_parse_group(s) {
            Some(g) => Some(seq![g]),
            None => None,
        }
    } else if i >= s.len() {
        None
    } else {
        match (spec_parse_group(s.subrange(0, i)), spec_parse_groups(
            s.subrange(i + 1, s.len() as int),
        )) {
            (Some(g), Some(gs)) => Some(seq![g] + gs),
            _ => None,
        }
    }
}

/// Dotted-quad form: four octets separated by dots.
pub open spec fn spec_parse_quad(s: Seq<char>) -> Option<(u8, u8, u8, u8)> {
    let i1 = find_char(s, '.');
    if i1 < 0 {
        None
    } else {
        let p1 = s.subrange(0, i1);
        let r1 = s.subrange(i1 + 1, s.len() as int);
        let i2 = find_char(r1, '.');
        if i2 < 0 {
            None
        } else {
            let p2 = r1.subrange(0, i2);
            let r2 = r1.subrange(i2 + 1, r1.len() as int);
            let i3 = find_char(r2, '.');
            if i3 < 0 {
                None
            } else {
                let p3 = r2.subrange(0, i3);
                let p4 = r2.subrange(i3 + 1, r2.len() as int);
                if find_char(p4, '.') >= 0 {
                    None
                } else {
                    match (spec_parse_octet(p1), spec_parse_octet(p2), spec_parse_octet(p3),
                    spec_parse_octet(p4)) {
                        (Some(a), Some(b), Some(c), Some(d)) => Some((a, b, c, d)),
                        _ => None,
                    }
                }
            }
        }
    }
}

/// The textual socket-address grammar: either `A.B.C.D:port` or
/// `[G0:G1:G2:G3:G4:G5:G6:G7]:port`.
pub open spec fn spec_parse_addr(s: Seq<char>) -> Option<SockAddr> {
    if s.len() == 0 {
        None
    } else if s[0] == '[' {
        let j = find_char(s, ']');
        if j < 1 {
            None
        } else {
            let inner = s.subrange(1, j);
            let after = s.subrange(j + 1, s.len() as int);
            if after.len() < 2 || after[0] != ':' {
                None
            } else {
                match (spec_parse_groups(inner), spec_parse_port(
                    after.subrange(1, after.len() as int),
                )) {
                    (Some(gs), Some(p)) => if gs.len() == 8 {
                        Some(SockAddr::V6 {
                            g0: gs[0],
                            g1: gs[1],
                            g2: gs[2],
                            g3: gs[3],
                            g4: gs[4],
                            g5: gs[5],
                            g6: gs[6],
                            g7: gs[7],
                            port: p,
                        })
                    } else {
                        None
                    },
                    _ => None,
                }
            }
        }
    } else {
        let i = find_char(s, ':');
        if i < 0 {
            None
        } else {
            let ip = s.subrange(0, i);
            let rest = s.subrange(i + 1, s.len() as int);
            if find_char(rest, ':') >= 0 {
                None
            } else {
                match (spec_parse_quad(ip), spec_parse_port(rest)) {
                    (Some(q), Some(p)) => Some(SockAddr::V4 {
                        a: q.0,
                        b: q.1,
                        c: q.2,
                        d: q.3,
                        port: p,
                    }),
                    _ => None,
                }
            }
        }
    }
}

/// The canonical text of the eight groups of a V6 address.
pub open spec fn spec_fmt_groups(
    g0: u16, g1: u16, g2: u16, g3: u16, g4: u16, g5: u16, g6: u16, g7: u16,
) -> Seq<char> {
    hex_digits(g0 as nat) + seq![':'] + (hex_digits(g1 as nat) + seq![':'] + (hex_digits(
        g2 as nat,
    ) + seq![':'] + (hex_digits(g3 as nat) + seq![':'] + (hex_digits(g4 as nat) + seq![':'] + (
    hex_digits(g5 as nat) + seq![':'] + (hex_digits(g6 as nat) + seq![':'] + hex_digits(
        g7 as nat,
    )))))))
}

/// The canonical text of an address, which `spec_parse_addr` reads back.
pub open spec fn spec_fmt_addr(addr: SockAddr) -> Seq<char> {
    match addr {
        SockAddr::V4 { a, b, c, d, port } => dec_digits(a as nat) + seq!['.'] + dec_digits(
            b as nat,
        ) + seq!['.'] + dec_digits(c as nat) + seq!['.'] + dec_digits(d as nat) + seq![':']
            + dec_digits(port as nat),
        SockAddr::V6 { g0, g1, g2, g3, g4, g5, g6, g7, port } => seq!['['] + spec_fmt_groups(
            g0, g1, g2, g3, g4, g5, g6, g7,
        ) + seq![']'] + seq![':'] + dec_digits(port as nat),
    }
}

/// Parses colon-separated hexadecimal groups.
pub fn parse_groups_exec(s: &[char]) -> (r: Option<Vec<u16>>)
    ensures
        match r {
            Some(v) => spec_parse_groups(s@) == Some(v@),
            None => spec_parse_groups(s@) is None,
        },
    decreases s@.len(),
{
    proof {
        lemma_find_char(s@, ':');
    }
    match find_char_exec(s, ':') {
        None => {
            match parse_hex4(s) {
                Some(g) => {
                    let mut v: Vec<u16> = Vec::new();
                    v.push(g);
                    proof {
                        assert(v@ =~= seq![g]);
                    }
                    Some(v)
                },
                None => None,
            }
        },
        Some(i) => {
            let n = s.len();
            let head = &s[0..i];
            let tail = &s[i + 1..n];
            match parse_hex4(head) {
                Some(g) => {
                    match parse_groups_exec(tail) {
                        Some(rest) => {
                            let mut v: Vec<u16> = Vec::new();
                            v.push(g);
                            let mut k: usize = 0;
                            let n = rest.len();
                            while k < n
                                invariant
                                    0 <= k <= n,
                                    n == rest@.len(),
                                    v@ == seq![g] + rest@.subrange(0, k as int),
                                decreases n - k,
                            {
                                v.push(rest[k]);
                                proof {
                                    assert(v@ =~= seq![g] + rest@.subrange(0, k + 1 as int));
                                }
                                k += 1;
                            }
                            proof {
                                assert(rest@.subrange(0, n as int) =~= rest@);
                            }
                            Some(v)
                        },
                        None => None,
                    }
                },
                None => None,
            }
        },
    }
}

/// Parses the dotted-quad form.
pub fn parse_quad_exec(s: &[char]) -> (r: Option<(u8, u8, u8, u8)>)
    ensures
        r == spec_parse_quad(s@),
{
    proof {
        lemma_find_char(s@, '.');
    }
    let i1 = match find_char_exec(s, '.') {
        None => { return None; },
        Some(i) => i,
    };
    let n = s.len();
    let p1 = &s[0..i1];
    let r1 = &s[i1 + 1..n];
    proof {
        lemma_find_char(r1@, '.');
    }
    let i2 = match find_char_exec(r1, '.') {
        None => { return None; },
        Some(i) => i,
    };
    let n1 = r1.len();
    let p2 = &r1[0..i2];
    let r2 = &r1[i2 + 1..n1];
    proof {
        lemma_find_char(r2@, '.');
    }
    let i3 = match find_char_exec(r2, '.') {
        None => { return None; },
        Some(i) => i,
    };
    let n2 = r2.len();
    let p3 = &r2[0..i3];
    let p4 = &r2[i3 + 1..n2];
    if find_char_exec(p4, '.').is_some() {
        return None;
    }
    let a = match parse_octet_exec(p1) {
        None => { return None; },
        Some(v) => v,
    };
    let b = match parse_octet_exec(p2) {
        None => { return None; },
        Some(v) => v,
    };
    let c = match parse_octet_exec(p3) {
        None => { return None; },
        Some(v) => v,
    };
    let d = match parse_octet_exec(p4) {
        None => { return None; },
        Some(v) => v,
    };
    Some((a, b, c, d))
}

/// Parses one decimal octet.
pub fn parse_octet_exec(s: &[char]) -> (r: Option<u8>)
    ensures
        r == spec_parse_octet(s@),
{
    match parse_dec5(s) {
        Some(v) => {
            if s.len() <= 3 && v <= 255 {
                Some(v as u8)
            } else {
                None
            }
        },
        None => None,
    }
}

/// Parses one decimal port.
pub fn parse_port_exec(s: &[char]) -> (r: Option<u16>)
    ensures
        r == spec_parse_port(s@),
{
    match parse_dec5(s) {
        Some(v) => {
            if v <= 65535 {
                Some(v as u16)
            } else {
                None
            }
        },
        None => None,
    }
}

/// Parses a textual socket address.
pub fn parse_addr_exec(s: &[char]) -> (r: Option<SockAddr>)
    ensures
        r == spec_parse_addr(s@),
{
    if s.len() == 0 {
        return None;
    }
    if s[0] == '[' {
        proof {
            lemma_find_char(s@, ']');
        }
        let j = match find_char_exec(s, ']') {
            None => { return None; },
            Some(j) => j,
        };
        if j < 1 {
            return None;
        }
        let n = s.len();
        let inner = &s[1..j];
        let after = &s[j + 1..n];
        if after.len() < 2 {
            return None;
        }
        if after[0] != ':' {
            return None;
        }
        let port = match parse_port_exec(&after[1..after.len()]) {
            None => { return None; },
            Some(p) => p,
        };
        match parse_groups_exec(inner) {
            Some(gs) => {
                if gs.len() == 8 {
                    Some(SockAddr::V6 {
                        g0: gs[0],
                        g1: gs[1],
                        g2: gs[2],
                        g3: gs[3],
                        g4: gs[4],
                        g5: gs[5],
                        g6: gs[6],
                        g7: gs[7],
                        port,
                    })
                } else {
                    None
                }
            },
            None => None,
        }
    } else {
        proof {
            lemma_find_char(s@, ':');
        }
        let i = match find_char_exec(s, ':') {
            None => { return None; },
            Some(i) => i,
        };
        let n = s.len();
        let ip = &s[0..i];
        let rest = &s[i + 1..n];
        if find_char_exec(rest, ':').is_some() {
            return None;
        }
        let q = match parse_quad_exec(ip) {
            None => { return None; },
            Some(q) => q,
        };
        let port = match parse_port_exec(rest) {
            None => { return None; },
            Some(p) => p,
        };
        Some(SockAddr::V4 { a: q.0, b: q.1, c: q.2, d: q.3, port })
    }
}

/// Appends the canonical text of `addr` to `out`.
#[verifier::rlimit(50)]
pub fn push_addr(addr: &SockAddr, out: &mut Vec<char>)
    ensures
        final(out)@ == old(out)@ + spec_fmt_addr(*addr),
{
    match addr {
        SockAddr::V4 { a, b, c, d, port } => {
            push_dec(*a as u128, out);
            out.push('.');
            push_dec(*b as u128, out);
            out.push('.');
            push_dec(*c as u128, out);
            out.push('.');
            push_dec(*d as u128, out);
            out.push(':');
            push_dec(*port as u128, out);
            proof {
                assert(out@ =~= old(out)@ + spec_fmt_addr(*addr));
            }
        },
        SockAddr::V6 { g0, g1, g2, g3, g4, g5, g6, g7, port } => {
            out.push('[');
            push_hex(*g0, out);
            out.push(':');
            push_hex(*g1, out);
            out.push(':');
            push_hex(*g2, out);
            out.push(':');
            push_hex(*g3, out);
            out.push(':');
            push_hex(*g4, out);
            out.push(':');
            push_hex(*g5, out);
            out.push(':');
            push_hex(*g6, out);
            out.push(':');
            push_hex(*g7, out);
            out.push(']');
            out.push(':');
            push_dec(*port as u128, out);
            proof {
                assert(out@ =~= old(out)@ + spec_fmt_addr(*addr));
            }
        },
    }
}

/// The canonical text of `addr`, as a string.
pub fn format_addr(addr: &SockAddr) -> (r: String)
    ensures
        r@ == spec_fmt_addr(*addr),
{
    let mut out: Vec<char> = Vec::new();
    push_addr(addr, &mut out);
    chars_to_string(&out)
}


/// Concatenation keeps the absence of a character.
pub proof fn lemma_cat_avoid(x: Seq<char>, y: Seq<char>, c: char)
    requires
        forall|j: int| 0 <= j < x.len() ==> x[j] != c,
        forall|j: int| 0 <= j < y.len() ==> y[j] != c,
    ensures
        forall|j: int| 0 <= j < (x + y).len() ==> (x + y)[j] != c,
{
    assert forall|j: int| 0 <= j < (x + y).len() implies (x + y)[j] != c by {
        if j < x.len() {
            assert((x + y)[j] == x[j]);
        } else {
            assert((x + y)[j] == y[j - x.len()]);
        }
    }
}

/// Decimal digits are never separators.
pub proof fn lemma_dec_avoid(s: Seq<char>, c: char)
    requires
        all_dec(s),
        !is_dec_digit(c),
    ensures
        forall|j: int| 0 <= j < s.len() ==> s[j] != c,
{
    assert forall|j: int| 0 <= j < s.len() implies s[j] != c by {
        assert(is_dec_digit(s[j]));
    }
}

/// Hexadecimal digits are never separators.
pub proof fn lemma_hex_avoid(s: Seq<char>, c: char)
    requires
        all_hex(s),
        !is_hex_digit(c),
    ensures
        forall|j: int| 0 <= j < s.len() ==> s[j] != c,
{
    assert forall|j: int| 0 <= j < s.len() implies s[j] != c by {
        assert(is_hex_digit(s[j]));
    }
}

/// The first occurrence of a separator standing right after a clean prefix.
pub proof fn lemma_find_sep(pre: Seq<char>, c: char, post: Seq<char>)
    requires
        forall|j: int| 0 <= j < pre.len() ==> pre[j] != c,
    ensures
        find_char(pre + seq![c] + post, c) == pre.len(),
{
    let s = pre + seq![c] + post;
    assert(s[pre.len() as int] == c);
    assert(forall|j: int| 0 <= j < pre.len() ==> s[j] == pre[j]);
    lemma_find_char_at(s, c, pre.len() as int);
}

/// A one-group numeral parses back to its group.
proof fn lemma_groups_single(g: u16)
    ensures
        spec_parse_groups(hex_digits(g as nat)) == Some(seq![g]),
{
    let h = hex_digits(g as nat);
    lemma_hex_digits_value(g as nat);
    lemma_pow16_vals();
    lemma_hex_digits_len(g as nat, 4);
    lemma_hex_avoid(h, ':');
    lemma_find_char_absent(h, ':');
    assert(spec_parse_group(h) == Some(g));
}

/// Prepending one group and a colon prepends that group.
proof fn lemma_groups_cons(g: u16, rest: Seq<char>, gs: Seq<u16>)
    requires
        spec_parse_groups(rest) == Some(gs),
    ensures
        spec_parse_groups(hex_digits(g as nat) + seq![':'] + rest) == Some(seq![g] + gs),
{
    let h = hex_digits(g as nat);
    let s = h + seq![':'] + rest;
    lemma_hex_digits_value(g as nat);
    lemma_pow16_vals();
    lemma_hex_digits_len(g as nat, 4);
    lemma_hex_avoid(h, ':');
    lemma_find_sep(h, ':', rest);
    let i = h.len() as int;
    assert(find_char(s, ':') == i);
    assert(i < s.len());
    assert(s.subrange(0, i) =~= h);
    assert(s.subrange(i + 1, s.len() as int) =~= rest);
    assert(spec_parse_group(h) == Some(g));
}

/// Formatting then parsing a socket address gives the address back.
#[verifier::rlimit(100)]
pub proof fn lemma_addr_roundtrip(addr: SockAddr)
    ensures
        spec_parse_addr(spec_fmt_addr(addr)) == Some(addr),
{
    let s = spec_fmt_addr(addr);
    match addr {
        SockAddr::V4 { a, b, c, d, port } => {
            let ca = dec_digits(a as nat);
            let cb = dec_digits(b as nat);
            let cc = dec_digits(c as nat);
            let cd = dec_digits(d as nat);
            let cp = dec_digits(port as nat);
            lemma_dec_digits_value(a as nat);
            lemma_dec_digits_value(b as nat);
            lemma_dec_digits_value(c as nat);
            lemma_dec_digits_value(d as nat);
            lemma_dec_digits_value(port as nat);
            lemma_pow10_vals();
            lemma_dec_digits_len(a as nat, 3);
            lemma_dec_digits_len(b as nat, 3);
            lemma_dec_digits_len(c as nat, 3);
            lemma_dec_digits_len(d as nat, 3);
            lemma_dec_digits_len(port as nat, 5);
            let r2 = cc + seq!['.'] + cd;
            let r1 = cb + seq!['.'] + r2;
            let ip = ca + seq!['.'] + r1;
            assert(s =~= ip + seq![':'] + cp);
            // the quad part never holds a colon, the port never holds one either
            lemma_dec_avoid(ca, ':');
            lemma_dec_avoid(cb, ':');
            lemma_dec_avoid(cc, ':');
            lemma_dec_avoid(cd, ':');
            lemma_dec_avoid(cp, ':');
            lemma_dec_avoid(ca, '.');
            lemma_dec_avoid(cb, '.');
            lemma_dec_avoid(cc, '.');
            lemma_dec_avoid(cd, '.');
            lemma_cat_avoid(cc, seq!['.'], ':');
            lemma_cat_avoid(cc + seq!['.'], cd, ':');
            lemma_cat_avoid(cb, seq!['.'], ':');
            lemma_cat_avoid(cb + seq!['.'], r2, ':');
            lemma_cat_avoid(ca, seq!['.'], ':');
            lemma_cat_avoid(ca + seq!['.'], r1, ':');
            assert(forall|j: int| 0 <= j < ip.len() ==> ip[j] != ':') by {
                assert(ip =~= (ca + seq!['.']) + r1);
            }
            assert(s[0] == ca[0]);
            assert(is_dec_digit(s[0]));
            assert(s[0] != '[');
            lemma_find_sep(ip, ':', cp);
            let i = ip.len() as int;
            assert(find_char(s, ':') == i);
            assert(s.subrange(0, i) =~= ip);
            assert(s.subrange(i + 1, s.len() as int) =~= cp);
            lemma_find_char_absent(cp, ':');
            // the quad itself
            lemma_find_sep(ca, '.', r1);
            assert(ip.subrange(0, ca.len() as int) =~= ca);
            assert(ip.subrange(ca.len() as int + 1, ip.len() as int) =~= r1);
            lemma_find_sep(cb, '.', r2);
            assert(r1.subrange(0, cb.len() as int) =~= cb);
            assert(r1.subrange(cb.len() as int + 1, r1.len() as int) =~= r2);
            lemma_find_sep(cc, '.', cd);
            assert(r2.subrange(0, cc.len() as int) =~= cc);
            assert(r2.subrange(cc.len() as int + 1, r2.len() as int) =~= cd);
            lemma_find_char_absent(cd, '.');
            assert(spec_parse_quad(ip) == Some((a, b, c, d)));
            assert(spec_parse_port(cp) == Some(port));
        },
        SockAddr::V6 { g0, g1, g2, g3, g4, g5, g6, g7, port } => {
            lemma_v6_roundtrip(g0, g1, g2, g3, g4, g5, g6, g7, port);
        },
    }
}

/// The last four formatted groups parse back to their values.
#[verifier::rlimit(100)]
proof fn lemma_groups_tail4(g4: u16, g5: u16, g6: u16, g7: u16)
    ensures
        spec_parse_groups(
            hex_digits(g4 as nat) + seq![':'] + (hex_digits(g5 as nat) + seq![':'] + (hex_digits(
                g6 as nat,
            ) + seq![':'] + hex_digits(g7 as nat))),
        ) == Some(seq![g4, g5, g6, g7]),
{
    let t7 = hex_digits(g7 as nat);
    let t6 = hex_digits(g6 as nat) + seq![':'] + t7;
    let t5 = hex_digits(g5 as nat) + seq![':'] + t6;
    lemma_groups_single(g7);
    lemma_groups_cons(g6, t7, seq![g7]);
    lemma_groups_cons(g5, t6, seq![g6] + seq![g7]);
    lemma_groups_cons(g4, t5, seq![g5] + (seq![g6] + seq![g7]));
    assert(seq![g4] + (seq![g5] + (seq![g6] + seq![g7])) =~= seq![g4, g5, g6, g7]);
}

/// The eight formatted groups parse back to the eight group values.
#[verifier::rlimit(100)]
proof fn lemma_groups_eight(
    g0: u16, g1: u16, g2: u16, g3: u16, g4: u16, g5: u16, g6: u16, g7: u16,
)
    ensures
        spec_parse_groups(spec_fmt_groups(g0, g1, g2, g3, g4, g5, g6, g7)) == Some(
            seq![g0, g1, g2, g3, g4, g5, g6, g7],
        ),
{
    let grp = spec_fmt_groups(g0, g1, g2, g3, g4, g5, g6, g7);
    let h0 = hex_digits(g0 as nat);
    let h1 = hex_digits(g1 as nat);
    let h2 = hex_digits(g2 as nat);
    let h3 = hex_digits(g3 as nat);
    let h4 = hex_digits(g4 as nat);
    let h5 = hex_digits(g5 as nat);
    let h6 = hex_digits(g6 as nat);
    let h7 = hex_digits(g7 as nat);
    let t4 = h4 + seq![':'] + (h5 + seq![':'] + (h6 + seq![':'] + h7));
    let t3 = h3 + seq![':'] + t4;
    let t2 = h2 + seq![':'] + t3;
    let t1 = h1 + seq![':'] + t2;
    let t0 = h0 + seq![':'] + t1;
    lemma_groups_tail4(g4, g5, g6, g7);
    lemma_groups_cons(g3, t4, seq![g4, g5, g6, g7]);
    assert(seq![g3] + seq![g4, g5, g6, g7] =~= seq![g3, g4, g5, g6, g7]);
    lemma_groups_cons(g2, t3, seq![g3, g4, g5, g6, g7]);
    assert(seq![g2] + seq![g3, g4, g5, g6, g7] =~= seq![g2, g3, g4, g5, g6, g7]);
    lemma_groups_cons(g1, t2, seq![g2, g3, g4, g5, g6, g7]);
    assert(seq![g1] + seq![g2, g3, g4, g5, g6, g7] =~= seq![g1, g2, g3, g4, g5, g6, g7]);
    lemma_groups_cons(g0, t1, seq![g1, g2, g3, g4, g5, g6, g7]);
    assert(seq![g0] + seq![g1, g2, g3, g4, g5, g6, g7] =~= seq![g0, g1, g2, g3, g4, g5, g6, g7]);
    assert(grp == t0);
}

/// No character of the formatted groups is `c`, for any `c` that is neither
/// a hexadecimal digit nor the group separator.
#[verifier::rlimit(100)]
pub proof fn lemma_groups_avoid(
    g0: u16, g1: u16, g2: u16, g3: u16, g4: u16, g5: u16, g6: u16, g7: u16, c: char,
)
    requires
        !is_hex_digit(c),
        c != ':',
    ensures
        forall|j: int|
            0 <= j < spec_fmt_groups(g0, g1, g2, g3, g4, g5, g6, g7).len() ==> spec_fmt_groups(
                g0, g1, g2, g3, g4, g5, g6, g7,
            )[j] != c,
{
    let h0 = hex_digits(g0 as nat);
    let h1 = hex_digits(g1 as nat);
    let h2 = hex_digits(g2 as nat);
    let h3 = hex_digits(g3 as nat);
    let h4 = hex_digits(g4 as nat);
    let h5 = hex_digits(g5 as nat);
    let h6 = hex_digits(g6 as nat);
    let h7 = hex_digits(g7 as nat);
    lemma_hex_digits_value(g0 as nat);
    lemma_hex_digits_value(g1 as nat);
    lemma_hex_digits_value(g2 as nat);
    lemma_hex_digits_value(g3 as nat);
    lemma_hex_digits_value(g4 as nat);
    lemma_hex_digits_value(g5 as nat);
    lemma_hex_digits_value(g6 as nat);
    lemma_hex_digits_value(g7 as nat);
    lemma_hex_avoid(h0, c);
    lemma_hex_avoid(h1, c);
    lemma_hex_avoid(h2, c);
    lemma_hex_avoid(h3, c);
    lemma_hex_avoid(h4, c);
    lemma_hex_avoid(h5, c);
    lemma_hex_avoid(h6, c);
    lemma_hex_avoid(h7, c);
    let t7 = h7;
    lemma_cat_avoid(h6, seq![':'], c);
    lemma_cat_avoid(h6 + seq![':'], t7, c);
    let t6 = h6 + seq![':'] + t7;
    lemma_cat_avoid(h5, seq![':'], c);
    lemma_cat_avoid(h5 + seq![':'], t6, c);
    let t5 = h5 + seq![':'] + t6;
    lemma_cat_avoid(h4, seq![':'], c);
    lemma_cat_avoid(h4 + seq![':'], t5, c);
    let t4 = h4 + seq![':'] + t5;
    lemma_cat_avoid(h3, seq![':'], c);
    lemma_cat_avoid(h3 + seq![':'], t4, c);
    let t3 = h3 + seq![':'] + t4;
    lemma_cat_avoid(h2, seq![':'], c);
    lemma_cat_avoid(h2 + seq![':'], t3, c);
    let t2 = h2 + seq![':'] + t3;
    lemma_cat_avoid(h1, seq![':'], c);
    lemma_cat_avoid(h1 + seq![':'], t2, c);
    let t1 = h1 + seq![':'] + t2;
    lemma_cat_avoid(h0, seq![':'], c);
    lemma_cat_avoid(h0 + seq![':'], t1, c);
}

/// The V6 case of the round trip.
#[verifier::rlimit(100)]
proof fn lemma_v6_roundtrip(
    g0: u16, g1: u16, g2: u16, g3: u16, g4: u16, g5: u16, g6: u16, g7: u16, port: u16,
)
    ensures
        spec_parse_addr(
            spec_fmt_addr(SockAddr::V6 { g0, g1, g2, g3, g4, g5, g6, g7, port }),
        ) == Some(SockAddr::V6 { g0, g1, g2, g3, g4, g5, g6, g7, port }),
{
    let addr = SockAddr::V6 { g0, g1, g2, g3, g4, g5, g6, g7, port };
    let s = spec_fmt_addr(addr);
    let grp = spec_fmt_groups(g0, g1, g2, g3, g4, g5, g6, g7);
    let cp = dec_digits(port as nat);
    lemma_dec_digits_value(port as nat);
    lemma_pow10_vals();
    lemma_dec_digits_len(port as nat, 5);
    lemma_groups_eight(g0, g1, g2, g3, g4, g5, g6, g7);
    lemma_groups_avoid(g0, g1, g2, g3, g4, g5, g6, g7, ']');
    let gs = seq![g0, g1, g2, g3, g4, g5, g6, g7];
    let pre = seq!['['] + grp;
    assert(forall|j: int| 0 <= j < pre.len() ==> pre[j] != ']') by {
        assert(forall|j: int| 1 <= j < pre.len() ==> pre[j] == grp[j - 1]);
        assert(pre[0] == '[');
    }
    let post = seq![':'] + cp;
    assert(s =~= pre + seq![']'] + post);
    lemma_find_sep(pre, ']', post);
    let j = pre.len() as int;
    assert(s[0] == '[');
    assert(find_char(s, ']') == j);
    assert(j >= 1);
    assert(s.subrange(1, j) =~= grp);
    let after = s.subrange(j + 1, s.len() as int);
    assert(after =~= post);
    assert(after.len() >= 2);
    assert(after[0] == ':');
    assert(after.subrange(1, after.len() as int) =~= cp);
    assert(spec_parse_port(cp) == Some(port));
    assert(gs.len() == 8);
}

} // verus!
