//! Base-16 code-point tokens: parsing a hexadecimal token into a value, and
//! formatting a code point as the upper-case `U+XXXX` label used in
//! duplicate-encoding warnings.

use vstd::prelude::*;

verus! {

/// The characters accepted as one base-16 digit.
pub open spec fn is_hex_digit(c: char) -> bool {
    ||| ('0' as u32) <= (c as u32) <= ('9' as u32)
    ||| ('a' as u32) <= (c as u32) <= ('f' as u32)
    ||| ('A' as u32) <= (c as u32) <= ('F' as u32)
}

/// The numeric value of one base-16 digit (zero on anything else).
pub open spec fn hex_digit_value(c: char) -> int {
    if ('0' as u32) <= (c as u32) <= ('9' as u32) {
        c as u32 - '0' as u32
    } else if ('a' as u32) <= (c as u32) <= ('f' as u32) {
        c as u32 - 'a' as u32 + 10
    } else if ('A' as u32) <= (c as u32) <= ('F' as u32) {
        c as u32 - 'A' as u32 + 10
    } else {
        0
    }
}

/// The value of a base-16 token read left to right.
pub open spec fn hex_token_value(s: Seq<char>) -> int
    decreases s.len(),
{
    if s.len() == 0 {
        0
    } else {
        16 * hex_token_value(s.drop_last()) + hex_digit_value(s.last())
    }
}

/// A token parses as base-16 when it is non-empty, made of hex digits alone,
/// and its value fits in 32 bits.
pub open spec fn hex_token_ok(s: Seq<char>) -> bool {
    &&& s.len() > 0
    &&& forall|i: int| 0 <= i < s.len() ==> is_hex_digit(s[i])
    &&& hex_token_value(s) <= u32::MAX
}

pub proof fn lemma_hex_token_value_nonneg(s: Seq<char>)
    ensures
        hex_token_value(s) >= 0,
    decreases s.len(),
{
    if s.len() > 0 {
        lemma_hex_token_value_nonneg(s.drop_last());
    }
}

/// A token's value is at least the value of any of its prefixes.
pub proof fn lemma_hex_token_value_prefix(s: Seq<char>, k: int)
    requires
        0 <= k <= s.len(),
    ensures
        hex_token_value(s) >= hex_token_value(s.take(k)),
    decreases s.len(),
{
    if k < s.len() {
        lemma_hex_token_value_prefix(s.drop_last(), k);
        lemma_hex_token_value_nonneg(s.drop_last());
        lemma_hex_token_value_nonneg(s.take(k));
        assert(s.drop_last().take(k) =~= s.take(k));
    } else {
        assert(s.take(k) =~= s);
    }
}

/// Reads a base-16 token.  Returns its value exactly when the token is
/// non-empty, all hex digits, and within `u32` range; `None` otherwise.
pub fn parse_hex(s: &str) -> (r: Option<u32>)
    ensures
        r is Some <==> hex_token_ok(s@),
        r is Some ==> r->0 == hex_token_value(s@),
{
    let n = s.unicode_len();
    if n == 0 {
        return None;
    }
    let mut v: u32 = 0;
    let mut i: usize = 0;
    proof {
        assert(s@.take(0) =~= Seq::<char>::empty());
    }
    while i < n
        invariant
            0 <= i <= n,
            n == s@.len(),
            forall|j: int| 0 <= j < i ==> is_hex_digit(s@[j]),
            v == hex_token_value(s@.take(i as int)),
        decreases n - i,
    {
        let c = s.get_char(i);
        let cu = c as u32;
        let d: u32;
        if ('0' as u32) <= cu && cu <= ('9' as u32) {
            d = cu - ('0' as u32);
        } else if ('a' as u32) <= cu && cu <= ('f' as u32) {
            d = cu - ('a' as u32) + 10;
        } else if ('A' as u32) <= cu && cu <= ('F' as u32) {
            d = cu - ('A' as u32) + 10;
        } else {
            assert(!is_hex_digit(s@[i as int]));
            return None;
        }
        assert(d == hex_digit_value(s@[i as int]));
        proof {
            assert(s@.take(i + 1).drop_last() =~= s@.take(i as int));
            assert(s@.take(i + 1).last() == s@[i as int]);
        }
        if v > (u32::MAX - d) / 16 {
            proof {
                lemma_hex_token_value_prefix(s@, i + 1);
            }
            return None;
        }
        v = v * 16 + d;
        i = i + 1;
    }
    proof {
        assert(s@.take(n as int) =~= s@);
    }
    Some(v)
}

/// The upper-case hexadecimal digit for a value below sixteen.
pub open spec fn hex_digit_char(v: int) -> char {
    if v == 0 { '0' } else if v == 1 { '1' } else if v == 2 { '2' } else if v == 3 { '3' }
    else if v == 4 { '4' } else if v == 5 { '5' } else if v == 6 { '6' } else if v == 7 { '7' }
    else if v == 8 { '8' } else if v == 9 { '9' } else if v == 10 { 'A' } else if v == 11 { 'B' }
    else if v == 12 { 'C' } else if v == 13 { 'D' } else if v == 14 { 'E' } else { 'F' }
}

/// The upper-case hexadecimal digits of `v`, most significant first, with no
/// leading zeros (a single `0` for zero itself).
pub open spec fn hex_upper(v: nat) -> Seq<char>
    decreases v,
{
    if v < 16 {
        seq![hex_digit_char(v as int)]
    } else {
        hex_upper(v / 16).push(hex_digit_char((v % 16) as int))
    }
}

/// Leading zeros that pad the hexadecimal form of `v` to at least four digits.
pub open spec fn hex_padding(v: nat) -> Seq<char> {
    if v < 0x10 {
        seq!['0', '0', '0']
    } else if v < 0x100 {
        seq!['0', '0']
    } else if v < 0x1000 {
        seq!['0']
    } else {
        Seq::<char>::empty()
    }
}

/// The warning label for a code point: `U+` followed by at least four
/// upper-case hexadecimal digits, e.g. `U+0041`.
pub open spec fn cp_label(c: char) -> Seq<char> {
    seq!['U', '+'] + hex_padding(c as u32 as nat) + hex_upper(c as u32 as nat)
}

/// Relies on `String::push`: appends exactly the given character.
#[verifier::external_body]
fn push_char(s: &mut String, c: char)
    ensures
        final(s)@ == old(s)@.push(c),
{
    s.push(c);
}

fn push_hex_digit(s: &mut String, v: u32)
    requires
        v < 16,
    ensures
        final(s)@ == old(s)@.push(hex_digit_char(v as int)),
{
    let c: char = if v == 0 { '0' } else if v == 1 { '1' } else if v == 2 { '2' }
    else if v == 3 { '3' } else if v == 4 { '4' } else if v == 5 { '5' }
    else if v == 6 { '6' } else if v == 7 { '7' } else if v == 8 { '8' }
    else if v == 9 { '9' } else if v == 10 { 'A' } else if v == 11 { 'B' }
    else if v == 12 { 'C' } else if v == 13 { 'D' } else if v == 14 { 'E' } else { 'F' };
    push_char(s, c);
}

fn push_hex_upper(s: &mut String, v: u32)
    ensures
        final(s)@ == old(s)@ + hex_upper(v as nat),
    decreases v,
{
    if v < 16 {
        push_hex_digit(s, v);
        proof {
            assert(old(s)@.push(hex_digit_char(v as int)) =~= old(s)@ + hex_upper(v as nat));
        }
    } else {
        push_hex_upper(s, v / 16);
        push_hex_digit(s, v % 16);
        proof {
            assert((old(s)@ + hex_upper((v / 16) as nat)).push(hex_digit_char((v % 16) as int))
                =~= old(s)@ + hex_upper(v as nat));
        }
    }
}

/// Formats a code point as its `U+` label, padded to four digits: the exact
/// text of a duplicate-encoding warning.
pub fn codepoint_label(c: char) -> (r: String)
    ensures
        r@ == cp_label(c),
{
    let v = c as u32;
    let mut s = String::new();
    push_char(&mut s, 'U');
    push_char(&mut s, '+');
    if v < 0x10 {
        push_char(&mut s, '0');
        push_char(&mut s, '0');
        push_char(&mut s, '0');
    } else if v < 0x100 {
        push_char(&mut s, '0');
        push_char(&mut s, '0');
    } else if v < 0x1000 {
        push_char(&mut s, '0');
    }
    push_hex_upper(&mut s, v);
    proof {
        assert(s@ =~= cp_label(c));
    }
    s
}

} // verus!
