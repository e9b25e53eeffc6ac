//! Hexadecimal and decimal codepoint arithmetic: strict base-16 and base-10
//! string decoding, and digit-string rendering for records and display.

use vstd::prelude::*;
use vstd::string::StrSliceExecFns;
use crate::text::push_char;

verus! {

pub open spec fn is_hex_digit(c: char) -> bool {
    let u = c as u32;
    (48 <= u && u <= 57) || (97 <= u && u <= 102) || (65 <= u && u <= 70)
}

pub open spec fn hex_digit_value(c: char) -> nat {
    let u = c as u32;
    if 48 <= u && u <= 57 {
        (u - 48) as nat
    } else if 97 <= u && u <= 102 {
        (u - 87) as nat
    } else if 65 <= u && u <= 70 {
        (u - 55) as nat
    } else {
        0
    }
}

pub open spec fn all_hex_digits(s: Seq<char>) -> bool {
    forall|i: int| 0 <= i < s.len() ==> is_hex_digit(s[i])
}

/// The value of a big-endian sequence of hexadecimal digits.
pub open spec fn hex_seq_value(s: Seq<char>) -> nat
    decreases s.len(),
{
    if s.len() == 0 {
        0
    } else {
        hex_seq_value(s.drop_last()) * 16 + hex_digit_value(s.last())
    }
}

/// Strict base-16 decoding: defined exactly on non-empty all-hex-digit
/// strings whose value fits an unsigned 32-bit integer.
pub open spec fn parse_hex_spec(s: Seq<char>) -> Option<u32> {
    if s.len() > 0 && all_hex_digits(s) && hex_seq_value(s) <= u32::MAX {
        Some(hex_seq_value(s) as u32)
    } else {
        None
    }
}

pub open spec fn is_dec_digit(c: char) -> bool {
    48 <= c as u32 && c as u32 <= 57
}

pub open spec fn dec_digit_value(c: char) -> nat {
    if is_dec_digit(c) {
        (c as u32 - 48) as nat
    } else {
        0
    }
}

pub open spec fn all_dec_digits(s: Seq<char>) -> bool {
    forall|i: int| 0 <= i < s.len() ==> is_dec_digit(s[i])
}

/// The value of a big-endian sequence of decimal digits.
pub open spec fn dec_seq_value(s: Seq<char>) -> nat
    decreases s.len(),
{
    if s.len() == 0 {
        0
    } else {
        dec_seq_value(s.drop_last()) * 10 + dec_digit_value(s.last())
    }
}

/// Strict base-10 decoding: defined exactly on non-empty all-digit strings
/// whose value fits an unsigned 32-bit integer.
pub open spec fn parse_dec_spec(s: Seq<char>) -> Option<u32> {
    if s.len() > 0 && all_dec_digits(s) && dec_seq_value(s) <= u32::MAX {
        Some(dec_seq_value(s) as u32)
    } else {
        None
    }
}

/// Digits only ever extend a value: a prefix never exceeds the whole.
pub proof fn lemma_hex_value_prefix(s: Seq<char>, i: int)
    requires
        0 <= i <= s.len(),
    ensures
        hex_seq_value(s.take(i)) <= hex_seq_value(s),
    decreases s.len() - i,
{
    if i == s.len() {
        assert(s.take(i) =~= s);
    } else {
        assert(s.take(i + 1).drop_last() =~= s.take(i));
        assert(hex_seq_value(s.take(i + 1)) == hex_seq_value(s.take(i)) * 16 + hex_digit_value(
            s.take(i + 1).last(),
        ));
        lemma_hex_value_prefix(s, i + 1);
    }
}

pub proof fn lemma_dec_value_prefix(s: Seq<char>, i: int)
    requires
        0 <= i <= s.len(),
    ensures
        dec_seq_value(s.take(i)) <= dec_seq_value(s),
    decreases s.len() - i,
{
    if i == s.len() {
        assert(s.take(i) =~= s);
    } else {
        assert(s.take(i + 1).drop_last() =~= s.take(i));
        assert(dec_seq_value(s.take(i + 1)) == dec_seq_value(s.take(i)) * 10 + dec_digit_value(
            s.take(i + 1).last(),
        ));
        lemma_dec_value_prefix(s, i + 1);
    }
}

fn hex_digit_of_char(c: char) -> (r: Option<u32>)
    ensures
        r is Some <==> is_hex_digit(c),
        r is Some ==> r->0 == hex_digit_value(c) && r->0 < 16,
{
    let u = c as u32;
    if 48 <= u && u <= 57 {
        Some(u - 48)
    } else if 97 <= u && u <= 102 {
        Some(u - 87)
    } else if 65 <= u && u <= 70 {
        Some(u - 55)
    } else {
        None
    }
}

fn dec_digit_of_char(c: char) -> (r: Option<u32>)
    ensures
        r is Some <==> is_dec_digit(c),
        r is Some ==> r->0 == dec_digit_value(c) && r->0 < 10,
{
    let u = c as u32;
    if 48 <= u && u <= 57 {
        Some(u - 48)
    } else {
        None
    }
}

/// Decodes a base-16 string, as every codepoint and case-mapping field
/// demands; `None` on an empty string, a stray character, or overflow.
pub fn parse_hex(s: &str) -> (r: Option<u32>)
    ensures
        r == parse_hex_spec(s@),
{
    let n: usize = s.unicode_len();
    if n == 0 {
        return None;
    }
    let mut acc: u64 = 0;
    let mut i: usize = 0;
    while i < n
        invariant
            i <= n,
            n == s@.len(),
            acc <= u32::MAX as u64,
            acc as nat == hex_seq_value(s@.take(i as int)),
            forall|k: int| 0 <= k < i ==> is_hex_digit(s@[k]),
        decreases n - i,
    {
        let c = s.get_char(i);
        let d = match hex_digit_of_char(c) {
            Some(d) => d,
            None => {
                return None;
            },
        };
        let next: u64 = acc * 16 + d as u64;
        proof {
            assert(s@.take(i + 1).drop_last() =~= s@.take(i as int));
            assert(s@.take(i + 1).last() == s@[i as int]);
        }
        if next > 0xFFFF_FFFFu64 {
            proof {
                lemma_hex_value_prefix(s@, i + 1);
            }
            return None;
        }
        acc = next;
        i = i + 1;
    }
    proof {
        assert(s@.take(n as int) =~= s@);
    }
    Some(acc as u32)
}

/// Decodes a base-10 string; `None` on an empty string, a stray character,
/// or overflow.
pub fn parse_dec(s: &str) -> (r: Option<u32>)
    ensures
        r == parse_dec_spec(s@),
{
    let n: usize = s.unicode_len();
    if n == 0 {
        return None;
    }
    let mut acc: u64 = 0;
    let mut i: usize = 0;
    while i < n
        invariant
            i <= n,
            n == s@.len(),
            acc <= u32::MAX as u64,
            acc as nat == dec_seq_value(s@.take(i as int)),
            forall|k: int| 0 <= k < i ==> is_dec_digit(s@[k]),
        decreases n - i,
    {
        let c = s.get_char(i);
        let d = match dec_digit_of_char(c) {
            Some(d) => d,
            None => {
                return None;
            },
        };
        let next: u64 = acc * 10 + d as u64;
        proof {
            assert(s@.take(i + 1).drop_last() =~= s@.take(i as int));
            assert(s@.take(i + 1).last() == s@[i as int]);
        }
        if next > 0xFFFF_FFFFu64 {
            proof {
                lemma_dec_value_prefix(s@, i + 1);
            }
            return None;
        }
        acc = next;
        i = i + 1;
    }
    proof {
        assert(s@.take(n as int) =~= s@);
    }
    Some(acc as u32)
}

pub open spec fn dec_digit_char(d: int) -> char {
    ((48 + d) as u8) as char
}

pub open spec fn hex_digit_char_lower(d: int) -> char {
    if d < 10 {
        ((48 + d) as u8) as char
    } else {
        ((87 + d) as u8) as char
    }
}

pub open spec fn hex_digit_char_upper(d: int) -> char {
    if d < 10 {
        ((48 + d) as u8) as char
    } else {
        ((55 + d) as u8) as char
    }
}

/// The shortest decimal rendering of `n`.
pub open spec fn dec_digits_of(n: nat) -> Seq<char>
    decreases n,
{
    if n < 10 {
        seq![dec_digit_char(n as int)]
    } else {
        dec_digits_of(n / 10).push(dec_digit_char((n % 10) as int))
    }
}

/// The shortest lower-case hexadecimal rendering of `n`.
pub open spec fn hex_lower_of(n: nat) -> Seq<char>
    decreases n,
{
    if n < 16 {
        seq![hex_digit_char_lower(n as int)]
    } else {
        hex_lower_of(n / 16).push(hex_digit_char_lower((n % 16) as int))
    }
}

/// The shortest upper-case hexadecimal rendering of `n`.
pub open spec fn hex_upper_of(n: nat) -> Seq<char>
    decreases n,
{
    if n < 16 {
        seq![hex_digit_char_upper(n as int)]
    } else {
        hex_upper_of(n / 16).push(hex_digit_char_upper((n % 16) as int))
    }
}

fn dec_char(d: u32) -> (c: char)
    requires
        d < 10,
    ensures
        c == dec_digit_char(d as int),
{
    ((48 + d) as u8) as char
}

fn hex_char_lower(d: u32) -> (c: char)
    requires
        d < 16,
    ensures
        c == hex_digit_char_lower(d as int),
{
    if d < 10 {
        ((48 + d) as u8) as char
    } else {
        ((87 + d) as u8) as char
    }
}

fn hex_char_upper(d: u32) -> (c: char)
    requires
        d < 16,
    ensures
        c == hex_digit_char_upper(d as int),
{
    if d < 10 {
        ((48 + d) as u8) as char
    } else {
        ((55 + d) as u8) as char
    }
}

/// Appends the decimal rendering of `n`.
pub fn push_dec(out: &mut String, n: u64)
    ensures
        final(out)@ == old(out)@ + dec_digits_of(n as nat),
    decreases n,
{
    if n < 10 {
        let c = dec_char(n as u32);
        push_char(out, c);
        proof {
            assert(old(out)@.push(c) =~= old(out)@ + dec_digits_of(n as nat));
        }
    } else {
        proof {
            assert(n / 10 < n) by (nonlinear_arith)
                requires
                    n >= 10,
            ;
        }
        push_dec(out, n / 10);
        let c = dec_char((n % 10) as u32);
        push_char(out, c);
        proof {
            assert((old(out)@ + dec_digits_of((n / 10) as nat)).push(c) =~= old(out)@
                + dec_digits_of(n as nat));
        }
    }
}

/// Appends the lower-case hexadecimal rendering of `n`.
pub fn push_hex_lower(out: &mut String, n: u32)
    ensures
        final(out)@ == old(out)@ + hex_lower_of(n as nat),
    decreases n,
{
    if n < 16 {
        let c = hex_char_lower(n);
        push_char(out, c);
        proof {
            assert(old(out)@.push(c) =~= old(out)@ + hex_lower_of(n as nat));
        }
    } else {
        proof {
            assert(n / 16 < n) by (nonlinear_arith)
                requires
                    n >= 16,
            ;
        }
        push_hex_lower(out, n / 16);
        let c = hex_char_lower(n % 16);
        push_char(out, c);
        proof {
            assert((old(out)@ + hex_lower_of((n / 16) as nat)).push(c) =~= old(out)@ + hex_lower_of(
                n as nat,
            ));
        }
    }
}

/// Appends the upper-case hexadecimal rendering of `n`.
pub fn push_hex_upper(out: &mut String, n: u32)
    ensures
        final(out)@ == old(out)@ + hex_upper_of(n as nat),
    decreases n,
{
    if n < 16 {
        let c = hex_char_upper(n);
        push_char(out, c);
        proof {
            assert(old(out)@.push(c) =~= old(out)@ + hex_upper_of(n as nat));
        }
    } else {
        proof {
            assert(n / 16 < n) by (nonlinear_arith)
                requires
                    n >= 16,
            ;
        }
        push_hex_upper(out, n / 16);
        let c = hex_char_upper(n % 16);
        push_char(out, c);
        proof {
            assert((old(out)@ + hex_upper_of((n / 16) as nat)).push(c) =~= old(out)@ + hex_upper_of(
                n as nat,
            ));
        }
    }
}

/// The lower-case hexadecimal code of a character, as the terminal escape
/// notation prints it between its braces.
pub fn to_hex_code(c: char) -> (r: String)
    ensures
        r@ == hex_lower_of(c as nat),
{
    let mut out = String::new();
    push_hex_lower(&mut out, c as u32);
    proof {
        assert(Seq::<char>::empty() + hex_lower_of(c as nat) =~= hex_lower_of(c as nat));
    }
    out
}

/// The scalar value of a character, the number its hexadecimal code denotes.
pub fn to_decimal_number(c: char) -> (r: u32)
    ensures
        r == c as u32,
{
    c as u32
}

/// The scalar value of every character in turn.
pub fn convert_chars_to_decimals(chars: &Vec<char>) -> (r: Vec<u32>)
    ensures
        r@.len() == chars@.len(),
        forall|i: int| 0 <= i < chars@.len() ==> r@[i] == chars@[i] as u32,
{
    let mut out: Vec<u32> = Vec::new();
    let mut i: usize = 0;
    while i < chars.len()
        invariant
            i <= chars@.len(),
            out@.len() == i,
            forall|k: int| 0 <= k < i ==> out@[k] == chars@[k] as u32,
        decreases chars@.len() - i,
    {
        out.push(to_decimal_number(chars[i]));
        i = i + 1;
    }
    out
}

/// Rendering a codepoint in lower-case hexadecimal and decoding it again
/// gives the codepoint back: the character-code round trip.
pub proof fn lemma_hex_lower_round_trip(n: nat)
    requires
        n <= u32::MAX,
    ensures
        parse_hex_spec(hex_lower_of(n)) == Some(n as u32),
    decreases n,
{
    lemma_hex_lower_digits(n);
    lemma_hex_lower_value(n);
}

/// Every character of the lower-case rendering is a hexadecimal digit.
proof fn lemma_hex_lower_digits(n: nat)
    ensures
        hex_lower_of(n).len() >= 1,
        all_hex_digits(hex_lower_of(n)),
    decreases n,
{
    if n < 16 {
        assert(is_hex_digit(hex_digit_char_lower(n as int)));
    } else {
        assert(n / 16 < n) by (nonlinear_arith)
            requires
                n >= 16,
        ;
        lemma_hex_lower_digits(n / 16);
        assert(is_hex_digit(hex_digit_char_lower((n % 16) as int)));
        assert(forall|i: int|
            0 <= i < hex_lower_of(n).len() - 1 ==> hex_lower_of(n)[i] == hex_lower_of(n / 16)[i]);
    }
}

/// The rendering denotes the rendered value.
proof fn lemma_hex_lower_value(n: nat)
    ensures
        hex_seq_value(hex_lower_of(n)) == n,
    decreases n,
{
    if n < 16 {
        assert(hex_seq_value(Seq::<char>::empty()) == 0);
        assert(hex_lower_of(n).drop_last() =~= Seq::<char>::empty());
        assert(hex_digit_value(hex_digit_char_lower(n as int)) == n);
    } else {
        assert(n / 16 < n) by (nonlinear_arith)
            requires
                n >= 16,
        ;
        lemma_hex_lower_value(n / 16);
        assert(hex_lower_of(n).drop_last() =~= hex_lower_of(n / 16));
        assert(hex_digit_value(hex_digit_char_lower((n % 16) as int)) == n % 16);
        vstd::arithmetic::div_mod::lemma_fundamental_div_mod(n as int, 16);
    }
}

} // verus!
