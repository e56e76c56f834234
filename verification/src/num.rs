//! Decimal and hexadecimal numerals over character sequences: their values,
//! the canonical digit strings of a number, and executable parsing and
//! formatting proved against them.

use vstd::prelude::*;
use crate::chars::{
    is_dec_digit, is_hex_digit, dec_val, hex_val, dec_char, hex_char,
    lemma_dec_char_val, lemma_hex_char_val,
    is_dec_digit_exec, is_hex_digit_exec, dec_val_exec, hex_val_exec,
    dec_char_exec, hex_char_exec,
};

verus! {

/// Every character of `s` is a decimal digit.
pub open spec fn all_dec(s: Seq<char>) -> bool {
    forall|i: int| 0 <= i < s.len() ==> is_dec_digit(#[trigger] s[i])
}

/// Every character of `s` is a hexadecimal digit.
pub open spec fn all_hex(s: Seq<char>) -> bool {
    forall|i: int| 0 <= i < s.len() ==> is_hex_digit(#[trigger] s[i])
}

/// Value of `s` read as a base-10 numeral (most significant first).
pub open spec fn dec_value(s: Seq<char>) -> nat
    decreases s.len(),
{
    if s.len() == 0 {
        0
    } else {
        dec_value(s.drop_last()) * 10 + dec_val(s.last())
    }
}

/// Value of `s` read as a base-16 numeral (most significant first).
pub open spec fn hex_value(s: Seq<char>) -> nat
    decreases s.len(),
{
    if s.len() == 0 {
        0
    } else {
        hex_value(s.drop_last()) * 16 + hex_val(s.last())
    }
}

/// The canonical decimal digit string of `n`: no leading zeros, at least one
/// digit.
pub open spec fn dec_digits(n: nat) -> Seq<char>
    decreases n,
{
    if n < 10 {
        seq![dec_char(n)]
    } else {
        dec_digits(n / 10).push(dec_char(n % 10))
    }
}

/// The canonical lowercase hexadecimal digit string of `n`.
pub open spec fn hex_digits(n: nat) -> Seq<char>
    decreases n,
{
    if n < 16 {
        seq![hex_char(n)]
    } else {
        hex_digits(n / 16).push(hex_char(n % 16))
    }
}

/// 10 to the `k`.
pub open spec fn pow10(k: nat) -> nat
    decreases k,
{
    if k == 0 { 1 } else { 10 * pow10((k - 1) as nat) }
}

/// 16 to the `k`.
pub open spec fn pow16(k: nat) -> nat
    decreases k,
{
    if k == 0 { 1 } else { 16 * pow16((k - 1) as nat) }
}

/// The canonical decimal string of `n` is made of digits and reads back as
/// `n`.
pub proof fn lemma_dec_digits_value(n: nat)
    ensures
        dec_digits(n).len() >= 1,
        all_dec(dec_digits(n)),
        dec_value(dec_digits(n)) == n,
    decreases n,
{
    if n < 10 {
        lemma_dec_char_val(n);
        let s = dec_digits(n);
        assert(s.drop_last().len() == 0);
        assert(dec_value(s.drop_last()) == 0);
        assert(s.last() == dec_char(n));
    } else {
        lemma_dec_digits_value(n / 10);
        lemma_dec_char_val(n % 10);
        let s = dec_digits(n);
        assert(s.drop_last() =~= dec_digits(n / 10));
        assert(s.last() == dec_char(n % 10));
        assert(dec_value(s) == (n / 10) * 10 + n % 10);
        assert(n == (n / 10) * 10 + n % 10);
        assert(forall|i: int| 0 <= i < s.len() ==> is_dec_digit(#[trigger] s[i])) by {
            assert(forall|i: int| 0 <= i < s.len() - 1 ==> s[i] == dec_digits(n / 10)[i]);
        }
    }
}

/// The canonical hexadecimal string of `n` is made of hex digits and reads
/// back as `n`.
pub proof fn lemma_hex_digits_value(n: nat)
    ensures
        hex_digits(n).len() >= 1,
        all_hex(hex_digits(n)),
        hex_value(hex_digits(n)) == n,
    decreases n,
{
    if n < 16 {
        lemma_hex_char_val(n);
        let s = hex_digits(n);
        assert(s.drop_last().len() == 0);
        assert(hex_value(s.drop_last()) == 0);
        assert(s.last() == hex_char(n));
    } else {
        lemma_hex_digits_value(n / 16);
        lemma_hex_char_val(n % 16);
        let s = hex_digits(n);
        assert(s.drop_last() =~= hex_digits(n / 16));
        assert(s.last() == hex_char(n % 16));
        assert(hex_value(s) == (n / 16) * 16 + n % 16);
        assert(n == (n / 16) * 16 + n % 16);
        assert(forall|i: int| 0 <= i < s.len() ==> is_hex_digit(#[trigger] s[i])) by {
            assert(forall|i: int| 0 <= i < s.len() - 1 ==> s[i] == hex_digits(n / 16)[i]);
        }
    }
}

/// A decimal numeral of `k` digits is below 10^k.
pub proof fn lemma_dec_value_bound(s: Seq<char>)
    requires
        all_dec(s),
    ensures
        dec_value(s) < pow10(s.len()),
    decreases s.len(),
{
    if s.len() == 0 {
    } else {
        let p = s.drop_last();
        assert(all_dec(p)) by {
            assert(forall|i: int| 0 <= i < p.len() ==> p[i] == s[i]);
        }
        lemma_dec_value_bound(p);
        assert(is_dec_digit(s.last()));
        assert(dec_val(s.last()) <= 9);
        let v = dec_value(p);
        assert(v + 1 <= pow10(p.len()));
        assert(v * 10 + 10 <= pow10(p.len()) * 10) by (nonlinear_arith)
            requires v + 1 <= pow10(p.len()),
        {}
        assert(pow10(s.len()) == 10 * pow10(p.len()));
    }
}

/// A hexadecimal numeral of `k` digits is below 16^k.
pub proof fn lemma_hex_value_bound(s: Seq<char>)
    requires
        all_hex(s),
    ensures
        hex_value(s) < pow16(s.len()),
    decreases s.len(),
{
    if s.len() == 0 {
    } else {
        let p = s.drop_last();
        assert(all_hex(p)) by {
            assert(forall|i: int| 0 <= i < p.len() ==> p[i] == s[i]);
        }
        lemma_hex_value_bound(p);
        assert(is_hex_digit(s.last()));
        assert(hex_val(s.last()) <= 15);
        let v = hex_value(p);
        assert(v + 1 <= pow16(p.len()));
        assert(v * 16 + 16 <= pow16(p.len()) * 16) by (nonlinear_arith)
            requires v + 1 <= pow16(p.len()),
        {}
        assert(pow16(s.len()) == 16 * pow16(p.len()));
    }
}

/// A number below 10^k needs at most `k` decimal digits.
pub proof fn lemma_dec_digits_len(n: nat, k: nat)
    requires
        k >= 1,
        n < pow10(k),
    ensures
        dec_digits(n).len() <= k,
    decreases n,
{
    if n < 10 {
    } else {
        assert(pow10(k) == 10 * pow10((k - 1) as nat));
        if k == 1 {
            assert(pow10(1nat) == 10);
            assert(false);
        }
        let p = pow10((k - 1) as nat);
        assert(n / 10 < p) by {
            assert(n == (n / 10) * 10 + n % 10);
            if n / 10 >= p {
                assert((n / 10) * 10 >= p * 10) by (nonlinear_arith)
                    requires n / 10 >= p,
                {}
            }
        }
        lemma_dec_digits_len(n / 10, (k - 1) as nat);
    }
}

/// A number below 16^k needs at most `k` hexadecimal digits.
pub proof fn lemma_hex_digits_len(n: nat, k: nat)
    requires
        k >= 1,
        n < pow16(k),
    ensures
        hex_digits(n).len() <= k,
    decreases n,
{
    if n < 16 {
    } else {
        assert(pow16(k) == 16 * pow16((k - 1) as nat));
        if k == 1 {
            assert(pow16(1nat) == 16);
            assert(false);
        }
        let p = pow16((k - 1) as nat);
        assert(n / 16 < p) by {
            assert(n == (n / 16) * 16 + n % 16);
            if n / 16 >= p {
                assert((n / 16) * 16 >= p * 16) by (nonlinear_arith)
                    requires n / 16 >= p,
                {}
            }
        }
        lemma_hex_digits_len(n / 16, (k - 1) as nat);
    }
}

/// Appends the canonical decimal digits of `n` to `out`.
pub fn push_dec(n: u128, out: &mut Vec<char>)
    ensures
        final(out)@ == old(out)@ + dec_digits(n as nat),
    decreases n,
{
    if n < 10 {
        let c = dec_char_exec(n as u8);
        out.push(c);
        proof {
            assert(out@ =~= old(out)@ + dec_digits(n as nat));
        }
    } else {
        push_dec(n / 10, out);
        let c = dec_char_exec((n % 10) as u8);
        out.push(c);
        proof {
            assert(out@ =~= old(out)@ + dec_digits(n as nat));
        }
    }
}

/// Appends the canonical lowercase hexadecimal digits of `n` to `out`.
pub fn push_hex(n: u16, out: &mut Vec<char>)
    ensures
        final(out)@ == old(out)@ + hex_digits(n as nat),
    decreases n,
{
    if n < 16 {
        let c = hex_char_exec(n as u8);
        out.push(c);
        proof {
            assert(out@ =~= old(out)@ + hex_digits(n as nat));
        }
    } else {
        push_hex(n / 16, out);
        let c = hex_char_exec((n % 16) as u8);
        out.push(c);
        proof {
            assert(out@ =~= old(out)@ + hex_digits(n as nat));
        }
    }
}

/// Parses `s` as a decimal numeral of at most five digits.
///
/// Returns the numeral's value exactly when `s` is one to five decimal
/// digits; the value is then below 100000.
pub fn parse_dec5(s: &[char]) -> (r: Option<u32>)
    ensures
        match r {
            Some(v) => 1 <= s@.len() <= 5 && all_dec(s@) && v == dec_value(s@) && v < 100000,
            None => !(1 <= s@.len() <= 5 && all_dec(s@)),
        },
{
    let n = s.len();
    if n < 1 || n > 5 {
        return None;
    }
    let mut acc: u32 = 0;
    let mut i: usize = 0;
    while i < n
        invariant
            0 <= i <= n,
            1 <= n <= 5,
            n == s@.len(),
            all_dec(s@.subrange(0, i as int)),
            acc == dec_value(s@.subrange(0, i as int)),
            acc < 100000,
        decreases n - i,
    {
        let c = s[i];
        if !is_dec_digit_exec(c) {
            proof {
                assert(!all_dec(s@));
            }
            return None;
        }
        let d = dec_val_exec(c);
        proof {
            let pre = s@.subrange(0, i as int);
            let cur = s@.subrange(0, i + 1 as int);
            assert(cur.drop_last() =~= pre);
            assert(cur.last() == s@[i as int]);
            assert(all_dec(cur)) by {
                assert(forall|j: int| 0 <= j < cur.len() ==> cur[j] == s@[j]);
            }
            lemma_dec_value_bound(pre);
            lemma_pow10_le5(pre.len());
        }
        acc = acc * 10 + (d as u32);
        i += 1;
    }
    proof {
        assert(s@.subrange(0, n as int) =~= s@);
    }
    Some(acc)
}

/// 10^k for k at most 4, spelled out for bounding short numerals.
pub proof fn lemma_pow10_le5(k: nat)
    requires
        k <= 4,
    ensures
        pow10(k) <= 10000,
{
    assert(pow10(0nat) == 1);
    assert(pow10(1nat) == 10);
    assert(pow10(2nat) == 100);
    assert(pow10(3nat) == 1000);
    assert(pow10(4nat) == 10000);
}

/// Parses `s` as a hexadecimal numeral of at most four digits.
pub fn parse_hex4(s: &[char]) -> (r: Option<u16>)
    ensures
        match r {
            Some(v) => 1 <= s@.len() <= 4 && all_hex(s@) && v == hex_value(s@),
            None => !(1 <= s@.len() <= 4 && all_hex(s@)),
        },
{
    let n = s.len();
    if n < 1 || n > 4 {
        return None;
    }
    let mut acc: u32 = 0;
    let mut i: usize = 0;
    while i < n
        invariant
            0 <= i <= n,
            1 <= n <= 4,
            n == s@.len(),
            all_hex(s@.subrange(0, i as int)),
            acc == hex_value(s@.subrange(0, i as int)),
            acc < 65536,
        decreases n - i,
    {
        let c = s[i];
        if !is_hex_digit_exec(c) {
            proof {
                assert(!all_hex(s@));
            }
            return None;
        }
        let d = hex_val_exec(c);
        proof {
            let pre = s@.subrange(0, i as int);
            let cur = s@.subrange(0, i + 1 as int);
            assert(cur.drop_last() =~= pre);
            assert(cur.last() == s@[i as int]);
            assert(all_hex(cur)) by {
                assert(forall|j: int| 0 <= j < cur.len() ==> cur[j] == s@[j]);
            }
            lemma_hex_value_bound(pre);
            lemma_pow16_le4(pre.len());
        }
        acc = acc * 16 + (d as u32);
        i += 1;
    }
    proof {
        assert(s@.subrange(0, n as int) =~= s@);
        lemma_hex_value_bound(s@);
        lemma_pow16_le4_full(s@.len());
    }
    Some(acc as u16)
}

/// 16^k for k at most 3.
pub proof fn lemma_pow16_le4(k: nat)
    requires
        k <= 3,
    ensures
        pow16(k) <= 4096,
{
    assert(pow16(0nat) == 1);
    assert(pow16(1nat) == 16);
    assert(pow16(2nat) == 256);
    assert(pow16(3nat) == 4096);
}

/// 16^k for k at most 4.
pub proof fn lemma_pow16_le4_full(k: nat)
    requires
        k <= 4,
    ensures
        pow16(k) <= 65536,
{
    assert(pow16(0nat) == 1);
    assert(pow16(1nat) == 16);
    assert(pow16(2nat) == 256);
    assert(pow16(3nat) == 4096);
    assert(pow16(4nat) == 65536);
}

/// Small powers of ten, spelled out.
pub proof fn lemma_pow10_vals()
    ensures
        pow10(3nat) == 1000,
        pow10(5nat) == 100000,
{
    assert(pow10(0nat) == 1);
    assert(pow10(1nat) == 10);
    assert(pow10(2nat) == 100);
    assert(pow10(3nat) == 1000);
    assert(pow10(4nat) == 10000);
    assert(pow10(5nat) == 100000);
}

/// 16^4, spelled out.
pub proof fn lemma_pow16_vals()
    ensures
        pow16(4nat) == 65536,
{
    assert(pow16(0nat) == 1);
    assert(pow16(1nat) == 16);
    assert(pow16(2nat) == 256);
    assert(pow16(3nat) == 4096);
    assert(pow16(4nat) == 65536);
}

} // verus!
