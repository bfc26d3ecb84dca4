//! Lower-case hexadecimal text, read as numbers.

use vstd::prelude::*;

verus! {

/// The value of one lower-case hexadecimal digit; none for any other byte.
pub open spec fn digit_value(b: u8) -> Option<int> {
    if 48 <= b <= 57 {
        Some(b - 48)
    } else if 97 <= b <= 102 {
        Some(b - 87)
    } else {
        None
    }
}

/// Whether every byte is a lower-case hexadecimal digit.
pub open spec fn is_hex(s: Seq<u8>) -> bool {
    forall|i: int| 0 <= i < s.len() ==> (#[trigger] digit_value(s[i])).is_some()
}

/// The number that a string of digits writes, most significant digit
/// first. A byte that is no digit counts as zero.
pub open spec fn hex_value(s: Seq<u8>) -> int
    decreases s.len(),
{
    if s.len() == 0 {
        0
    } else {
        16 * hex_value(s.drop_last()) + match digit_value(s.last()) {
            Some(d) => d,
            None => 0,
        }
    }
}

/// Sixteen to the power `n`.
pub open spec fn pow16(n: nat) -> int
    decreases n,
{
    if n == 0 {
        1
    } else {
        16 * pow16((n - 1) as nat)
    }
}

/// A string of `n` digits writes a number below sixteen to the `n`.
pub proof fn lemma_hex_value_bound(s: Seq<u8>)
    ensures
        0 <= hex_value(s) < pow16(s.len()),
    decreases s.len(),
{
    if s.len() > 0 {
        lemma_hex_value_bound(s.drop_last());
    }
}

/// Powers of sixteen grow with the exponent.
pub proof fn lemma_pow16_grows(i: nat, j: nat)
    requires
        i <= j,
    ensures
        0 < pow16(i) <= pow16(j),
    decreases j,
{
    if i < j {
        lemma_pow16_grows(i, (j - 1) as nat);
    } else if i > 0 {
        lemma_pow16_grows((i - 1) as nat, (j - 1) as nat);
    }
}

/// Thirty-two digits fill 128 bits exactly.
pub proof fn lemma_pow16_of_32()
    ensures
        pow16(32) == 0x1_0000_0000_0000_0000_0000_0000_0000_0000int,
{
    reveal_with_fuel(pow16, 33);
}

/// The value of one digit, where the byte is one.
pub fn read_digit(b: u8) -> (r: Option<u8>)
    ensures
        match r {
            Some(d) => digit_value(b) == Some(d as int) && d < 16,
            None => digit_value(b).is_none(),
        },
{
    if 48 <= b && b <= 57 {
        Some(b - 48)
    } else if 97 <= b && b <= 102 {
        Some(b - 87)
    } else {
        None
    }
}

/// Whether the text is made of lower-case hexadecimal digits alone.
pub fn all_hex(text: &[u8]) -> (r: bool)
    ensures
        r == is_hex(text@),
{
    let mut i: usize = 0;
    while i < text.len()
        invariant
            i <= text.len(),
            forall|j: int| 0 <= j < i ==> (#[trigger] digit_value(text@[j])).is_some(),
        decreases text.len() - i,
    {
        if read_digit(text[i]).is_none() {
            assert(digit_value(text@[i as int]).is_none());
            return false;
        }
        i += 1;
    }
    true
}

/// Reads the 32 digits that begin at `start` as one 128-bit number.
pub(crate) fn read_u128(text: &[u8], start: usize) -> (r: u128)
    requires
        start + 32 <= text.len(),
        is_hex(text@.subrange(start as int, start + 32)),
    ensures
        r as int == hex_value(text@.subrange(start as int, start + 32)),
{
    let ghost digits = text@.subrange(start as int, start + 32);
    let mut acc: u128 = 0;
    let mut i: usize = 0;
    assert(digits.subrange(0, 0) =~= Seq::<u8>::empty());
    while i < 32
        invariant
            i <= 32,
            start + 32 <= text.len(),
            digits == text@.subrange(start as int, start + 32),
            is_hex(digits),
            acc as int == hex_value(digits.subrange(0, i as int)),
        decreases 32 - i,
    {
        let ghost done = digits.subrange(0, i as int);
        let ghost next = digits.subrange(0, i + 1);
        proof {
            assert(next.drop_last() =~= done);
            assert(next.last() == digits[i as int]);
            assert(digit_value(digits[i as int]).is_some());
            lemma_hex_value_bound(next);
            lemma_pow16_grows((i + 1) as nat, 32);
            lemma_pow16_of_32();
        }
        let d = match read_digit(text[start + i]) {
            Some(d) => d,
            None => 0,
        };
        acc = acc * 16 + d as u128;
        i += 1;
    }
    assert(digits.subrange(0, 32) =~= digits);
    acc
}

/// The digit that writes a value below sixteen.
pub open spec fn digit_of(d: int) -> u8 {
    if d < 10 {
        (48 + d) as u8
    } else {
        (87 + d) as u8
    }
}

/// The last `width` digits of a number, most significant first.
pub open spec fn hex_text(value: nat, width: nat) -> Seq<u8>
    decreases width,
{
    if width == 0 {
        Seq::empty()
    } else {
        hex_text(value / 16, (width - 1) as nat).push(digit_of((value % 16) as int))
    }
}

/// The text of a number is as wide as asked, is made of digits, and writes
/// the number modulo sixteen to the width.
pub proof fn lemma_hex_text(value: nat, width: nat)
    ensures
        hex_text(value, width).len() == width,
        is_hex(hex_text(value, width)),
        hex_value(hex_text(value, width)) == value % (pow16(width) as nat),
    decreases width,
{
    if width > 0 {
        let front = hex_text(value / 16, (width - 1) as nat);
        let text = hex_text(value, width);
        let d = (value % 16) as int;
        lemma_hex_text(value / 16, (width - 1) as nat);
        lemma_pow16_grows(0, (width - 1) as nat);
        assert(text.drop_last() =~= front);
        assert(text.last() == digit_of(d));
        assert(digit_value(digit_of(d)) == Some(d));
        assert forall|i: int| 0 <= i < text.len() implies (#[trigger] digit_value(
            text[i],
        )).is_some() by {
            if i < width - 1 {
                assert(text[i] == front[i]);
            }
        }
        let p = pow16((width - 1) as nat);
        let q = value / 16;
        assert(hex_value(text) == 16 * (q % (p as nat)) + d);
        assert(16 * (q % (p as nat)) + d == value % ((16 * p) as nat)) by {
            vstd::arithmetic::div_mod::lemma_fundamental_div_mod(q as int, p);
            vstd::arithmetic::div_mod::lemma_fundamental_div_mod(value as int, 16);
            let hi = (q as int) / p;
            let lo = (q as int) % p;
            vstd::arithmetic::div_mod::lemma_mod_bound(q as int, p);
            assert(value == (16 * p) * hi + (16 * lo + d)) by (nonlinear_arith)
                requires
                    value == 16 * q + d,
                    q == p * hi + lo,
            ;
            vstd::arithmetic::div_mod::lemma_fundamental_div_mod_converse(
                value as int,
                16 * p,
                hi,
                16 * lo + d,
            );
        }
    } else {
        assert(value % 1 == 0);
    }
}

/// The digit that writes `d`.
pub(crate) fn write_digit(d: u8) -> (b: u8)
    requires
        d < 16,
    ensures
        b == digit_of(d as int),
        digit_value(b) == Some(d as int),
{
    if d < 10 {
        48 + d
    } else {
        87 + d
    }
}

/// Appends the last `width` digits of `value` to `text`.
pub fn write_hex(value: u128, width: usize, text: &mut Vec<u8>)
    ensures
        final(text)@ == old(text)@ + hex_text(value as nat, width as nat),
    decreases width,
{
    if width > 0 {
        let ghost before = text@;
        write_hex(value / 16, width - 1, text);
        text.push(write_digit((value % 16) as u8));
        assert(text@ =~= before + hex_text(value as nat, width as nat));
    } else {
        assert(text@ =~= text@ + hex_text(value as nat, 0));
    }
}

} // verus!
