//! The textual endpoint descriptor `HEX64@HOST:PORT`: a 64-digit hexadecimal
//! public key, an `@`, and a socket address. The parser is total — every
//! input yields the parsed endpoint or a typed error — and inverse to the
//! formatter.

use vstd::prelude::*;
use crate::chars::{
    hex_val, hex_char, find_char,
    lemma_find_char, lemma_find_char_absent, lemma_hex_char_val,
    find_char_exec, str_to_chars, chars_to_string, is_hex_digit_exec, hex_val_exec,
    hex_char_exec,
};
use crate::num::all_hex;
use crate::addr::{
    SockAddr, spec_parse_addr, spec_fmt_addr, parse_addr_exec, push_addr,
    lemma_cat_avoid, lemma_hex_avoid, lemma_dec_avoid, lemma_find_sep, lemma_addr_roundtrip,
    spec_fmt_groups, lemma_groups_avoid,
};
use crate::num::{dec_digits, lemma_dec_digits_value};

verus! {

/// Why an endpoint descriptor was rejected.
#[derive(Clone, Copy, Debug, PartialEq, Eq, Structural)]
pub enum EndpointError {
    /// The `@` split does not yield exactly two parts.
    MalformedUrl,
    /// The key part is not 64 hexadecimal digits.
    BadHex,
    /// The host part is not a socket address.
    BadAddr,
}

/// The lowercase hexadecimal text of a byte string, two digits per byte.
pub open spec fn spec_hex_of_bytes(k: Seq<u8>) -> Seq<char>
    decreases k.len(),
{
    if k.len() == 0 {
        Seq::empty()
    } else {
        spec_hex_of_bytes(k.drop_last()) + seq![
            hex_char((k.last() / 16) as nat),
            hex_char((k.last() % 16) as nat),
        ]
    }
}

/// The bytes named by an even-length hexadecimal text.
pub open spec fn spec_bytes_of_hex(s: Seq<char>) -> Seq<u8>
    decreases s.len(),
{
    if s.len() < 2 {
        Seq::empty()
    } else {
        spec_bytes_of_hex(s.subrange(0, s.len() - 2)).push(
            (hex_val(s[s.len() - 2]) * 16 + hex_val(s[s.len() - 1])) as u8,
        )
    }
}

/// The endpoint grammar. Exactly one `@`; 64 hexadecimal digits before it; a
/// socket address after it. Each failure names the first rule broken, in the
/// order: split, key, address.
pub open spec fn spec_parse_endpoint(s: Seq<char>) -> Result<(SockAddr, Seq<u8>), EndpointError> {
    let i = find_char(s, '@');
    if i < 0 || i >= s.len() {
        Err(EndpointError::MalformedUrl)
    } else {
        let left = s.subrange(0, i);
        let right = s.subrange(i + 1, s.len() as int);
        if find_char(right, '@') >= 0 {
            Err(EndpointError::MalformedUrl)
        } else if !(left.len() == 64 && all_hex(left)) {
            Err(EndpointError::BadHex)
        } else {
            match spec_parse_addr(right) {
                Some(a) => Ok((a, spec_bytes_of_hex(left))),
                None => Err(EndpointError::BadAddr),
            }
        }
    }
}

/// The canonical text of an endpoint: the key in lowercase hexadecimal, `@`,
/// then the address.
pub open spec fn spec_fmt_endpoint(k: Seq<u8>, addr: SockAddr) -> Seq<char> {
    spec_hex_of_bytes(k) + seq!['@'] + spec_fmt_addr(addr)
}

/// Parses a `pk@host:port` descriptor into the socket address and the
/// 32-byte public key.
///
/// Total: every input returns `Ok` or one typed error, exactly as
/// `spec_parse_endpoint` reads the input.
pub fn parse_independent_endpoint(endpoint: &str) -> (r: Result<
    (SockAddr, Vec<u8>),
    EndpointError,
>)
    ensures
        match r {
            Ok(p) => spec_parse_endpoint(endpoint@) == Ok::<_, EndpointError>((p.0, p.1@))
                && p.1@.len() == 32,
            Err(e) => spec_parse_endpoint(endpoint@) == Err::<(SockAddr, Seq<u8>), _>(e),
        },
{
    let chars = str_to_chars(endpoint);
    let s = chars.as_slice();
    proof {
        lemma_find_char(s@, '@');
    }
    let i = match find_char_exec(s, '@') {
        None => {
            return Err(EndpointError::MalformedUrl);
        },
        Some(i) => i,
    };
    let n = s.len();
    let left = &s[0..i];
    let right = &s[i + 1..n];
    if find_char_exec(right, '@').is_some() {
        return Err(EndpointError::MalformedUrl);
    }
    let key = match parse_hex_key(left) {
        None => {
            return Err(EndpointError::BadHex);
        },
        Some(k) => k,
    };
    match parse_addr_exec(right) {
        Some(a) => Ok((a, key)),
        None => Err(EndpointError::BadAddr),
    }
}

/// Decodes exactly 64 hexadecimal digits into 32 bytes.
fn parse_hex_key(s: &[char]) -> (r: Option<Vec<u8>>)
    ensures
        match r {
            Some(k) => s@.len() == 64 && all_hex(s@) && k@ == spec_bytes_of_hex(s@)
                && k@.len() == 32,
            None => !(s@.len() == 64 && all_hex(s@)),
        },
{
    if s.len() != 64 {
        return None;
    }
    let mut out: Vec<u8> = Vec::new();
    let mut i: usize = 0;
    while i < 32
        invariant
            0 <= i <= 32,
            s@.len() == 64,
            all_hex(s@.subrange(0, 2 * i as int)),
            out@ == spec_bytes_of_hex(s@.subrange(0, 2 * i as int)),
            out@.len() == i,
        decreases 32 - i,
    {
        let c1 = s[2 * i];
        let c2 = s[2 * i + 1];
        if !is_hex_digit_exec(c1) || !is_hex_digit_exec(c2) {
            proof {
                assert(!all_hex(s@));
            }
            return None;
        }
        let v1 = hex_val_exec(c1);
        let v2 = hex_val_exec(c2);
        let b = v1 * 16 + v2;
        out.push(b);
        proof {
            let pre = s@.subrange(0, 2 * i as int);
            let cur = s@.subrange(0, 2 * i as int + 2);
            assert(cur.subrange(0, cur.len() - 2) =~= pre);
            assert(cur[cur.len() - 2] == s@[2 * i as int]);
            assert(cur[cur.len() - 1] == s@[2 * i as int + 1]);
            assert(all_hex(cur)) by {
                assert(forall|j: int| 0 <= j < cur.len() ==> cur[j] == s@[j]);
            }
            assert(out@ =~= spec_bytes_of_hex(cur));
        }
        i += 1;
    }
    proof {
        assert(s@.subrange(0, 64) =~= s@);
    }
    Some(out)
}

/// The canonical text of a key and an address, which
/// `parse_independent_endpoint` reads back.
pub fn format_endpoint(key: &[u8], addr: &SockAddr) -> (r: String)
    ensures
        r@ == spec_fmt_endpoint(key@, *addr),
{
    let mut out: Vec<char> = Vec::new();
    let n = key.len();
    let mut i: usize = 0;
    while i < n
        invariant
            0 <= i <= n,
            n == key@.len(),
            out@ == spec_hex_of_bytes(key@.subrange(0, i as int)),
        decreases n - i,
    {
        let b = key[i];
        let c1 = hex_char_exec(b / 16);
        let c2 = hex_char_exec(b % 16);
        out.push(c1);
        out.push(c2);
        proof {
            let pre = key@.subrange(0, i as int);
            let cur = key@.subrange(0, i as int + 1);
            assert(cur.drop_last() =~= pre);
            assert(cur.last() == key@[i as int]);
            assert(out@ =~= spec_hex_of_bytes(cur));
        }
        i += 1;
    }
    proof {
        assert(key@.subrange(0, n as int) =~= key@);
    }
    out.push('@');
    push_addr(addr, &mut out);
    proof {
        assert(out@ =~= spec_fmt_endpoint(key@, *addr));
    }
    chars_to_string(&out)
}

/// The hexadecimal text of a byte string is twice as long, hexadecimal
/// throughout, and decodes to the bytes again.
pub proof fn lemma_hex_of_bytes(k: Seq<u8>)
    ensures
        spec_hex_of_bytes(k).len() == 2 * k.len(),
        all_hex(spec_hex_of_bytes(k)),
        spec_bytes_of_hex(spec_hex_of_bytes(k)) == k,
    decreases k.len(),
{
    if k.len() == 0 {
        assert(spec_bytes_of_hex(spec_hex_of_bytes(k)) =~= k);
    } else {
        let pre = k.drop_last();
        lemma_hex_of_bytes(pre);
        let b = k.last();
        lemma_hex_char_val((b / 16) as nat);
        lemma_hex_char_val((b % 16) as nat);
        let h = spec_hex_of_bytes(k);
        let hp = spec_hex_of_bytes(pre);
        let c1 = hex_char((b / 16) as nat);
        let c2 = hex_char((b % 16) as nat);
        assert(h == hp + seq![c1, c2]);
        assert(h.len() == 2 * k.len());
        assert(all_hex(h)) by {
            assert(forall|j: int| 0 <= j < hp.len() ==> h[j] == hp[j]);
            assert(h[h.len() - 2] == c1);
            assert(h[h.len() - 1] == c2);
        }
        assert(h.subrange(0, h.len() - 2) =~= hp);
        assert(h[h.len() - 2] == c1);
        assert(h[h.len() - 1] == c2);
        assert(hex_val(c1) * 16 + hex_val(c2) == (b / 16) * 16 + (b % 16));
        assert((b / 16) * 16 + (b % 16) == b);
        assert(spec_bytes_of_hex(h) =~= pre.push(b));
        assert(pre.push(b) =~= k);
    }
}

/// No character of a formatted V4 address is an `@`.
#[verifier::rlimit(100)]
proof fn lemma_fmt_v4_no_at(a: u8, b: u8, c: u8, d: u8, port: u16)
    ensures
        forall|j: int|
            0 <= j < spec_fmt_addr(SockAddr::V4 { a, b, c, d, port }).len()
                ==> spec_fmt_addr(SockAddr::V4 { a, b, c, d, port })[j] != '@',
{
    let s = spec_fmt_addr(SockAddr::V4 { a, b, c, d, port });
    lemma_dec_digits_value(a as nat);
    lemma_dec_digits_value(b as nat);
    lemma_dec_digits_value(c as nat);
    lemma_dec_digits_value(d as nat);
    lemma_dec_digits_value(port as nat);
    lemma_dec_avoid(dec_digits(a as nat), '@');
    lemma_dec_avoid(dec_digits(b as nat), '@');
    lemma_dec_avoid(dec_digits(c as nat), '@');
    lemma_dec_avoid(dec_digits(d as nat), '@');
    lemma_dec_avoid(dec_digits(port as nat), '@');
    let p1 = dec_digits(a as nat) + seq!['.'];
    lemma_cat_avoid(dec_digits(a as nat), seq!['.'], '@');
    let p2 = p1 + dec_digits(b as nat);
    lemma_cat_avoid(p1, dec_digits(b as nat), '@');
    let p3 = p2 + seq!['.'];
    lemma_cat_avoid(p2, seq!['.'], '@');
    let p4 = p3 + dec_digits(c as nat);
    lemma_cat_avoid(p3, dec_digits(c as nat), '@');
    let p5 = p4 + seq!['.'];
    lemma_cat_avoid(p4, seq!['.'], '@');
    let p6 = p5 + dec_digits(d as nat);
    lemma_cat_avoid(p5, dec_digits(d as nat), '@');
    let p7 = p6 + seq![':'];
    lemma_cat_avoid(p6, seq![':'], '@');
    lemma_cat_avoid(p7, dec_digits(port as nat), '@');
    assert(s =~= p7 + dec_digits(port as nat));
}

/// No character of a formatted V6 address is an `@`.
#[verifier::rlimit(100)]
proof fn lemma_fmt_v6_no_at(
    g0: u16, g1: u16, g2: u16, g3: u16, g4: u16, g5: u16, g6: u16, g7: u16, port: u16,
)
    ensures
        forall|j: int|
            0 <= j < spec_fmt_addr(
                SockAddr::V6 { g0, g1, g2, g3, g4, g5, g6, g7, port },
            ).len() ==> spec_fmt_addr(SockAddr::V6 { g0, g1, g2, g3, g4, g5, g6, g7, port })[j]
                != '@',
{
    let s = spec_fmt_addr(SockAddr::V6 { g0, g1, g2, g3, g4, g5, g6, g7, port });
    let grp = spec_fmt_groups(g0, g1, g2, g3, g4, g5, g6, g7);
    lemma_groups_avoid(g0, g1, g2, g3, g4, g5, g6, g7, '@');
    let q0 = seq!['['];
    lemma_cat_avoid(q0, grp, '@');
    let q1 = q0 + grp;
    lemma_cat_avoid(q1, seq![']'], '@');
    let q2 = q1 + seq![']'];
    lemma_cat_avoid(q2, seq![':'], '@');
    let q3 = q2 + seq![':'];
    lemma_dec_digits_value(port as nat);
    lemma_dec_avoid(dec_digits(port as nat), '@');
    lemma_cat_avoid(q3, dec_digits(port as nat), '@');
    assert(s == q3 + dec_digits(port as nat));
}

/// No character of a formatted socket address is an `@`.
pub proof fn lemma_fmt_addr_no_at(addr: SockAddr)
    ensures
        forall|j: int| 0 <= j < spec_fmt_addr(addr).len() ==> spec_fmt_addr(addr)[j] != '@',
{
    match addr {
        SockAddr::V4 { a, b, c, d, port } => {
            lemma_fmt_v4_no_at(a, b, c, d, port);
        },
        SockAddr::V6 { g0, g1, g2, g3, g4, g5, g6, g7, port } => {
            lemma_fmt_v6_no_at(g0, g1, g2, g3, g4, g5, g6, g7, port);
        },
    }
}

/// Round trip: formatting a 32-byte key with any address and parsing the
/// result gives the address and the key back.
pub proof fn lemma_endpoint_roundtrip(k: Seq<u8>, addr: SockAddr)
    requires
        k.len() == 32,
    ensures
        spec_parse_endpoint(spec_fmt_endpoint(k, addr)) == Ok::<_, EndpointError>((addr, k)),
{
    let s = spec_fmt_endpoint(k, addr);
    let h = spec_hex_of_bytes(k);
    let a = spec_fmt_addr(addr);
    lemma_hex_of_bytes(k);
    lemma_hex_avoid(h, '@');
    lemma_find_sep(h, '@', a);
    assert(s =~= (h + seq!['@']) + a);
    let i = h.len() as int;
    assert(find_char(s, '@') == i);
    assert(i < s.len());
    assert(s.subrange(0, i) =~= h);
    assert(s.subrange(i + 1, s.len() as int) =~= a);
    lemma_fmt_addr_no_at(addr);
    lemma_find_char_absent(a, '@');
    lemma_addr_roundtrip(addr);
}

} // verus!
