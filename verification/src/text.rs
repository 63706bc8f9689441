// SPDX-License-Identifier: BSD-3-Clause
//! Building report text: zero-padded hexadecimal and decimal numbers and
//! space padding, each proved against a character-level model.

use vstd::arithmetic::div_mod::{lemma_div_decreases, lemma_fundamental_div_mod};
use vstd::prelude::*;

verus! {

/// `String::push` appends one character.
pub assume_specification[ String::push ](string: &mut String, ch: char)
    ensures
        final(string)@ == old(string)@.push(ch),
;

/// The character of a digit value: `0`–`9`, then `A`–`Z`.
pub open spec fn digit_char(d: int) -> char {
    if d < 10 {
        (d + 48) as char
    } else {
        (d + 55) as char
    }
}

/// The digits of `n` in base `radix`, most significant first, with leading
/// zeros up to at least `width` digits (and at least one digit).
pub open spec fn radix_digits(n: nat, radix: nat, width: nat) -> Seq<char>
    decreases n + width,
{
    if radix < 2 || (n < radix && width <= 1) {
        seq![digit_char(n as int)]
    } else {
        proof {
            if n >= radix {
                lemma_div_decreases(n as int, radix as int);
            }
        }
        radix_digits(
            n / radix,
            radix,
            if width > 0 {
                (width - 1) as nat
            } else {
                0
            },
        ) + seq![digit_char((n % radix) as int)]
    }
}

/// The value of a digit character: `0`–`9` are 0–9, `A`–`Z` are 10–35.
pub open spec fn char_value(c: char) -> int {
    if '0' <= c && c <= '9' {
        c as int - '0' as int
    } else if 'A' <= c && c <= 'Z' {
        c as int - 'A' as int + 10
    } else {
        -1
    }
}

/// The number that the digit string `s` writes in base `radix`, most
/// significant digit first.
pub open spec fn digits_value(s: Seq<char>, radix: nat) -> int
    decreases s.len(),
{
    if s.len() == 0 {
        0
    } else {
        digits_value(s.drop_last(), radix) * radix + char_value(s.last())
    }
}

/// The digits of `n` in base `radix` read back as `n`; each is a digit
/// below the base; there are at least `width` of them and at least one;
/// and beyond `width` there is no leading zero.
pub proof fn lemma_radix_digits_value(n: nat, radix: nat, width: nat)
    requires
        2 <= radix <= 36,
    ensures
        digits_value(radix_digits(n, radix, width), radix) == n,
        forall|i: int|
            0 <= i < radix_digits(n, radix, width).len() ==> 0 <= char_value(
                #[trigger] radix_digits(n, radix, width)[i],
            ) < radix,
        radix_digits(n, radix, width).len() >= width,
        radix_digits(n, radix, width).len() >= 1,
        radix_digits(n, radix, width).len() > width && radix_digits(n, radix, width).len() > 1
            ==> radix_digits(n, radix, width)[0] != '0',
    decreases n + width,
{
    let s = radix_digits(n, radix, width);
    if n < radix && width <= 1 {
        assert(s.drop_last() =~= Seq::<char>::empty());
        assert(char_value(digit_char(n as int)) == n);
        assert(digits_value(s.drop_last(), radix) == 0);
        assert(s.last() == digit_char(n as int));
        assert(digits_value(s, radix) == 0 * radix + n);
    } else {
        if n >= radix {
            lemma_div_decreases(n as int, radix as int);
        }
        let w: nat = if width > 0 {
            (width - 1) as nat
        } else {
            0
        };
        let q = n / radix;
        let r = n % radix;
        lemma_radix_digits_value(q, radix, w);
        let p = radix_digits(q, radix, w);
        assert(s == p + seq![digit_char(r as int)]);
        assert(digits_value(s, radix) == n) by {
            assert(s.drop_last() =~= p);
            assert(s.last() == digit_char(r as int));
            assert(char_value(digit_char(r as int)) == r);
            lemma_fundamental_div_mod(n as int, radix as int);
            assert(digits_value(p, radix) * radix == radix * q) by (nonlinear_arith)
                requires
                    digits_value(p, radix) == q,
            ;
        }
        assert forall|i: int| 0 <= i < s.len() implies 0 <= char_value(#[trigger] s[i]) < radix by {
            if i < p.len() {
                assert(s[i] == p[i]);
            }
        }
        if s.len() > width && s.len() > 1 {
            assert(s[0] == p[0]);
            assert(p.len() > w);
            if p.len() == 1 {
                assert(n >= radix);
                assert(q >= 1) by (nonlinear_arith)
                    requires
                        n >= radix,
                        radix >= 2,
                        q == n / radix,
                ;
                if !(q < radix && w <= 1) {
                    let pp = radix_digits(q / radix, radix, if w > 0 {
                        (w - 1) as nat
                    } else {
                        0
                    });
                    assert(p == pp + seq![digit_char((q % radix) as int)]);
                }
                assert(p[0] == digit_char(q as int));
                assert(digit_char(q as int) != '0');
            }
        }
    }
}

/// Upper-case hexadecimal, zero-padded to `width` digits (`{:0width$X}`).
pub open spec fn hex_text(n: nat, width: nat) -> Seq<char> {
    radix_digits(n, 16, width)
}

/// Decimal, zero-padded to `width` digits (`{:0width$}`).
pub open spec fn dec_text(n: nat, width: nat) -> Seq<char> {
    radix_digits(n, 10, width)
}

/// `k` spaces.
pub open spec fn spaces(k: nat) -> Seq<char> {
    Seq::new(k, |i: int| ' ')
}

/// `s` left-aligned in a field of `width` characters (`{:<width$}`).
pub open spec fn pad_right(s: Seq<char>, width: nat) -> Seq<char> {
    if s.len() < width {
        s + spaces((width - s.len()) as nat)
    } else {
        s
    }
}

fn digit(d: u64) -> (c: char)
    requires
        d < 36,
    ensures
        c == digit_char(d as int),
{
    if d < 10 {
        ((d as u8) + 48) as char
    } else {
        ((d as u8) + 55) as char
    }
}

/// Append the digits of `n` in base `radix`, zero-padded to `width`.
pub fn push_radix(out: &mut String, n: u64, radix: u64, width: usize)
    requires
        radix == 10 || radix == 16,
    ensures
        final(out)@ == old(out)@ + radix_digits(n as nat, radix as nat, width as nat),
    decreases n + width,
{
    if n < radix && width <= 1 {
        out.push(digit(n));
    } else {
        proof {
            if n >= radix {
                lemma_div_decreases(n as int, radix as int);
            }
        }
        let w = if width > 0 {
            width - 1
        } else {
            0
        };
        push_radix(out, n / radix, radix, w);
        out.push(digit(n % radix));
    }
}

/// Append `n` in upper-case hexadecimal, zero-padded to `width` digits.
pub fn push_hex(out: &mut String, n: u64, width: usize)
    ensures
        final(out)@ == old(out)@ + hex_text(n as nat, width as nat),
{
    push_radix(out, n, 16, width);
}

/// Append `n` in decimal, zero-padded to `width` digits.
pub fn push_dec(out: &mut String, n: u64, width: usize)
    ensures
        final(out)@ == old(out)@ + dec_text(n as nat, width as nat),
{
    push_radix(out, n, 10, width);
}

/// Append `s` left-aligned in a field of `width` characters.
pub fn push_padded(out: &mut String, s: &str, width: usize)
    ensures
        final(out)@ == old(out)@ + pad_right(s@, width as nat),
{
    let ghost start = out@;
    let n = s.unicode_len();
    out.append(s);
    if n < width {
        let mut i = n;
        while i < width
            invariant
                n <= i <= width,
                n == s@.len(),
                out@ == start + s@ + spaces((i - n) as nat),
            decreases width - i,
        {
            out.push(' ');
            i += 1;
            proof {
                assert(spaces((i - n) as nat) =~= spaces((i - 1 - n) as nat).push(' '));
            }
        }
        assert(out@ =~= start + pad_right(s@, width as nat));
    } else {
        assert(out@ =~= start + pad_right(s@, width as nat));
    }
}

} // verus!
