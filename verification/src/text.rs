//! Building the textual identifiers and checksums that the library reports:
//! fixed-width lowercase hexadecimal and unsigned decimal numbers.

use vstd::prelude::*;

verus! {

/// Appends one character to a string.
///
/// Trusted: `String::push` appends `c` at the end and changes nothing else.
#[verifier::external_body]
pub(crate) fn push_char(s: &mut String, c: char)
    ensures
        final(s)@ == old(s)@.push(c),
{
    s.push(c);
}

/// The lowercase hexadecimal digit of a value below 16.
pub open spec fn hex_digit(v: nat) -> char {
    if v < 10 {
        ((v + 48) as u8) as char
    } else {
        ((v - 10 + 97) as u8) as char
    }
}

/// The decimal digit of a value below 10.
pub open spec fn dec_digit(v: nat) -> char {
    ((v + 48) as u8) as char
}

/// The last `width` hexadecimal digits of `n`, most significant first (zero-padded).
pub open spec fn hex_fixed(n: nat, width: nat) -> Seq<char>
    decreases width,
{
    if width == 0 {
        Seq::empty()
    } else {
        hex_fixed(n / 16, (width - 1) as nat).push(hex_digit(n % 16))
    }
}

/// The decimal representation of `n`, without leading zeros ("0" for zero).
pub open spec fn decimal(n: nat) -> Seq<char>
    decreases n,
{
    if n < 10 {
        seq![dec_digit(n)]
    } else {
        decimal(n / 10).push(dec_digit(n % 10))
    }
}

/// Formats `n` as exactly eight lowercase hexadecimal digits, as `{:08x}` does.
pub fn format_hex8(n: u32) -> (s: String)
    ensures
        s@ == hex_fixed(n as nat, 8),
{
    let mut digits: [u8; 8] = [0u8; 8];
    let mut v: u32 = n;
    let mut k: usize = 0;
    assert(pow16(0) == 1);
    while k < 8
        invariant
            k <= 8,
            v as nat == n as nat / pow16(k as nat),
            forall|j: int| 0 <= j < k ==> #[trigger] digits[j] as nat == (n as nat / pow16(j as nat)) % 16,
        decreases 8 - k,
    {
        proof {
            lemma_pow16_step(n as nat, k as nat);
        }
        digits[k] = (v % 16) as u8;
        v = v / 16;
        k = k + 1;
    }
    let mut s = String::new();
    let mut idx: usize = 8;
    while idx > 0
        invariant
            idx <= 8,
            forall|j: int| 0 <= j < 8 ==> #[trigger] digits[j] as nat == (n as nat / pow16(j as nat)) % 16,
            s@ == hex_fixed(n as nat / pow16(idx as nat), (8 - idx) as nat),
        decreases idx,
    {
        idx = idx - 1;
        let d = digits[idx];
        let c: char = if d < 10 {
            (d + 48) as char
        } else {
            (d - 10 + 97) as char
        };
        proof {
            lemma_pow16_step(n as nat, idx as nat);
            lemma_hex_fixed_split(n as nat / pow16(idx as nat), (8 - idx - 1) as nat);
        }
        push_char(&mut s, c);
    }
    assert(pow16(0) == 1);
    s
}

/// Powers of sixteen.
pub open spec fn pow16(k: nat) -> nat
    decreases k,
{
    if k == 0 {
        1
    } else {
        16 * pow16((k - 1) as nat)
    }
}

/// Powers of sixteen are positive, and dividing by one more power divides once more by 16.
proof fn lemma_pow16_step(n: nat, k: nat)
    ensures
        pow16(k) > 0,
        n / pow16(k + 1) == (n / pow16(k)) / 16,
    decreases k,
{
    if k > 0 {
        lemma_pow16_step(n, (k - 1) as nat);
    }
    let p = pow16(k);
    assert(pow16(k + 1) == 16 * p);
    vstd::arithmetic::div_mod::lemma_div_denominator(n as int, p as int, 16);
    assert(p * 16 == 16 * p) by (nonlinear_arith);
}

/// Peeling one more digit off the high end of a fixed-width rendering.
proof fn lemma_hex_fixed_split(m: nat, w: nat)
    ensures
        hex_fixed(m / 16, w).push(hex_digit(m % 16)) == hex_fixed(m, w + 1),
{
}

/// Formats `n` in decimal, as `{}` does for unsigned integers.
pub fn format_decimal(n: u64) -> (s: String)
    ensures
        s@ == decimal(n as nat),
    decreases n,
{
    if n < 10 {
        let mut s = String::new();
        push_char(&mut s, ((n as u8) + 48) as char);
        s
    } else {
        let mut s = format_decimal(n / 10);
        push_char(&mut s, (((n % 10) as u8) + 48) as char);
        s
    }
}

/// The decimal representation of a signed integer: a minus sign before the digits of a
/// negative one.
pub open spec fn signed_decimal(n: int) -> Seq<char> {
    if n < 0 {
        seq!['-'] + decimal((-n) as nat)
    } else {
        decimal(n as nat)
    }
}

/// Formats `n` in decimal, as `{}` does for signed integers.
pub fn format_signed(n: i64) -> (s: String)
    ensures
        s@ == signed_decimal(n as int),
{
    if n < 0 {
        let magnitude: u64 = if n == i64::MIN {
            9223372036854775808u64
        } else {
            (-n) as u64
        };
        let mut s = String::new();
        push_char(&mut s, '-');
        let digits = format_decimal(magnitude);
        s.concat(digits.as_str())
    } else {
        format_decimal(n as u64)
    }
}

/// The identifier `"{base}_{index}"` given to the pieces of a chunk.
pub open spec fn indexed_id(base: Seq<char>, index: nat) -> Seq<char> {
    base.push('_') + decimal(index)
}

/// Builds `"{base}_{index}"`.
pub fn format_indexed_id(base: &str, index: u64) -> (s: String)
    ensures
        s@ == indexed_id(base@, index as nat),
{
    let mut s = base.to_owned();
    push_char(&mut s, '_');
    let digits = format_decimal(index);
    s = s.concat(digits.as_str());
    s
}

} // verus!
