//! Character classes and character-level searching used by the endpoint
//! grammar: decimal and hexadecimal digits, their values, and first-occurrence
//! search inside character sequences.

use vstd::prelude::*;
use vstd::string::StrSliceExecFns;

verus! {

/// `c` is an ASCII decimal digit.
pub open spec fn is_dec_digit(c: char) -> bool {
    '0' <= c && c <= '9'
}

/// `c` is an ASCII hexadecimal digit, either case.
pub open spec fn is_hex_digit(c: char) -> bool {
    ('0' <= c && c <= '9') || ('a' <= c && c <= 'f') || ('A' <= c && c <= 'F')
}

/// Numeric value of a decimal digit.
pub open spec fn dec_val(c: char) -> nat {
    (c as int - '0' as int) as nat
}

/// Numeric value of a hexadecimal digit, either case.
pub open spec fn hex_val(c: char) -> nat {
    if '0' <= c && c <= '9' {
        (c as int - '0' as int) as nat
    } else if 'a' <= c && c <= 'f' {
        (c as int - 'a' as int + 10) as nat
    } else {
        (c as int - 'A' as int + 10) as nat
    }
}

/// The decimal digit character for a value below ten.
pub open spec fn dec_char(v: nat) -> char {
    if v == 0 { '0' }
    else if v == 1 { '1' }
    else if v == 2 { '2' }
    else if v == 3 { '3' }
    else if v == 4 { '4' }
    else if v == 5 { '5' }
    else if v == 6 { '6' }
    else if v == 7 { '7' }
    else if v == 8 { '8' }
    else { '9' }
}

/// The lowercase hexadecimal digit character for a value below sixteen.
pub open spec fn hex_char(v: nat) -> char {
    if v < 10 { dec_char(v) }
    else if v == 10 { 'a' }
    else if v == 11 { 'b' }
    else if v == 12 { 'c' }
    else if v == 13 { 'd' }
    else if v == 14 { 'e' }
    else { 'f' }
}

pub proof fn lemma_dec_char_val(v: nat)
    requires
        v < 10,
    ensures
        is_dec_digit(dec_char(v)),
        dec_val(dec_char(v)) == v,
{
}

pub proof fn lemma_hex_char_val(v: nat)
    requires
        v < 16,
    ensures
        is_hex_digit(hex_char(v)),
        hex_val(hex_char(v)) == v,
{
}

/// Index of the first occurrence of `c` in `s`, or -1 when absent.
pub open spec fn find_char(s: Seq<char>, c: char) -> int
    decreases s.len(),
{
    if s.len() == 0 {
        -1
    } else if s[0] == c {
        0
    } else {
        let r = find_char(s.subrange(1, s.len() as int), c);
        if r < 0 { -1 } else { r + 1 }
    }
}

/// `find_char` returns the first occurrence: the index it returns holds `c`,
/// everything before it does not, and -1 means `c` is absent.
pub proof fn lemma_find_char(s: Seq<char>, c: char)
    ensures
        find_char(s, c) >= 0 ==> find_char(s, c) < s.len()
            && s[find_char(s, c)] == c
            && (forall|j: int| 0 <= j < find_char(s, c) ==> s[j] != c),
        find_char(s, c) < 0 ==> find_char(s, c) == -1
            && (forall|j: int| 0 <= j < s.len() ==> s[j] != c),
    decreases s.len(),
{
    if s.len() == 0 {
    } else if s[0] == c {
    } else {
        let tail = s.subrange(1, s.len() as int);
        lemma_find_char(tail, c);
        assert(forall|j: int| 1 <= j < s.len() ==> s[j] == tail[j - 1]);
        let r = find_char(tail, c);
        if r < 0 {
            assert(forall|j: int| 0 <= j < s.len() ==> s[j] != c) by {
                assert(forall|j: int| 1 <= j < s.len() ==> s[j] == tail[j - 1] && tail[j - 1] != c);
            }
        } else {
            assert(s[r + 1] == tail[r]);
            assert(forall|j: int| 1 <= j < r + 1 ==> s[j] == tail[j - 1] && tail[j - 1] != c);
        }
    }
}

/// Converse direction: a witness of the first occurrence pins `find_char` down.
pub proof fn lemma_find_char_at(s: Seq<char>, c: char, i: int)
    requires
        0 <= i < s.len(),
        s[i] == c,
        forall|j: int| 0 <= j < i ==> s[j] != c,
    ensures
        find_char(s, c) == i,
{
    lemma_find_char(s, c);
    let f = find_char(s, c);
    if f < 0 {
        assert(s[i] != c);
    } else if f < i {
        assert(s[f] != c);
    } else if f > i {
        assert(s[i] != c);
    }
}

/// Converse direction: when `c` occurs nowhere, `find_char` is -1.
pub proof fn lemma_find_char_absent(s: Seq<char>, c: char)
    requires
        forall|j: int| 0 <= j < s.len() ==> s[j] != c,
    ensures
        find_char(s, c) == -1,
{
    lemma_find_char(s, c);
    let f = find_char(s, c);
    if f >= 0 {
        assert(s[f] != c);
    }
}

/// Executable decimal-digit test.
pub fn is_dec_digit_exec(c: char) -> (r: bool)
    ensures
        r == is_dec_digit(c),
{
    let u = c as u32;
    48 <= u && u <= 57
}

/// Executable hexadecimal-digit test.
pub fn is_hex_digit_exec(c: char) -> (r: bool)
    ensures
        r == is_hex_digit(c),
{
    let u = c as u32;
    (48 <= u && u <= 57) || (97 <= u && u <= 102) || (65 <= u && u <= 70)
}

/// Executable value of a decimal digit.
pub fn dec_val_exec(c: char) -> (r: u8)
    requires
        is_dec_digit(c),
    ensures
        r == dec_val(c),
{
    (c as u32 - 48) as u8
}

/// Executable value of a hexadecimal digit.
pub fn hex_val_exec(c: char) -> (r: u8)
    requires
        is_hex_digit(c),
    ensures
        r == hex_val(c),
{
    let u = c as u32;
    if 48 <= u && u <= 57 {
        (u - 48) as u8
    } else if 97 <= u && u <= 102 {
        (u - 97 + 10) as u8
    } else {
        (u - 65 + 10) as u8
    }
}

/// Executable decimal digit character.
pub fn dec_char_exec(v: u8) -> (c: char)
    requires
        v < 10,
    ensures
        c == dec_char(v as nat),
{
    if v == 0 { '0' }
    else if v == 1 { '1' }
    else if v == 2 { '2' }
    else if v == 3 { '3' }
    else if v == 4 { '4' }
    else if v == 5 { '5' }
    else if v == 6 { '6' }
    else if v == 7 { '7' }
    else if v == 8 { '8' }
    else { '9' }
}

/// Executable lowercase hexadecimal digit character.
pub fn hex_char_exec(v: u8) -> (c: char)
    requires
        v < 16,
    ensures
        c == hex_char(v as nat),
{
    if v < 10 { dec_char_exec(v) }
    else if v == 10 { 'a' }
    else if v == 11 { 'b' }
    else if v == 12 { 'c' }
    else if v == 13 { 'd' }
    else if v == 14 { 'e' }
    else { 'f' }
}

/// Executable first-occurrence search over a character slice.
pub fn find_char_exec(s: &[char], c: char) -> (r: Option<usize>)
    ensures
        match r {
            Some(i) => i == find_char(s@, c) && i < s@.len(),
            None => find_char(s@, c) == -1,
        },
{
    let n = s.len();
    let mut i: usize = 0;
    while i < n
        invariant
            0 <= i <= n,
            n == s@.len(),
            forall|j: int| 0 <= j < i ==> s@[j] != c,
        decreases n - i,
    {
        if s[i] == c {
            proof {
                lemma_find_char_at(s@, c, i as int);
            }
            return Some(i);
        }
        i += 1;
    }
    proof {
        lemma_find_char_absent(s@, c);
    }
    None
}

/// The characters of `s`, as a vector.
pub fn str_to_chars(s: &str) -> (r: Vec<char>)
    ensures
        r@ == s@,
{
    let n = s.unicode_len();
    let mut r: Vec<char> = Vec::new();
    let mut i: usize = 0;
    while i < n
        invariant
            0 <= i <= n,
            n == s@.len(),
            r@ == s@.subrange(0, i as int),
        decreases n - i,
    {
        let c = s.get_char(i);
        r.push(c);
        proof {
            assert(r@ =~= s@.subrange(0, i + 1 as int));
        }
        i += 1;
    }
    proof {
        assert(r@ =~= s@);
    }
    r
}

/// Relies on `String`'s `FromIterator` implementation (through
/// `Iterator::collect`): the returned string holds exactly the given
/// characters, in order.
#[verifier::external_body]
pub fn chars_to_string(v: &Vec<char>) -> (s: String)
    ensures
        s@ == v@,
{
    v.iter().collect()
}

} // verus!
