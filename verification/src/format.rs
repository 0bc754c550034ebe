//! Rendering a byte count as a human-readable string: the base unit as a
//! plain integer, larger units with exactly two decimal digits.

use vstd::prelude::*;
use crate::text::ascii_to_string;

verus! {

/// The ASCII byte of the decimal digit `d`, for `d` in 0..10.
pub open spec fn spec_digit(d: int) -> u8 {
    (48 + d) as u8
}

/// The ASCII bytes of `n` in decimal, most significant digit first, with
/// no leading zeros except for `n == 0` itself.
pub open spec fn spec_digits(n: nat) -> Seq<u8>
    decreases n,
{
    if n < 10 {
        seq![spec_digit(n as int)]
    } else {
        spec_digits(n / 10).push(spec_digit((n % 10) as int))
    }
}

/// Which unit a byte count is rendered in: the largest of B, KB, MB, GB,
/// TB whose divisor does not exceed the count.
pub open spec fn spec_unit_index(bytes: nat) -> nat {
    if bytes < 1024 {
        0
    } else if bytes < 1048576 {
        1
    } else if bytes < 1073741824 {
        2
    } else if bytes < 1099511627776 {
        3
    } else {
        4
    }
}

/// The divisor of the unit with the given index: 1024 raised to it.
pub open spec fn spec_unit_divisor(k: nat) -> nat {
    if k == 0 {
        1
    } else if k == 1 {
        1024
    } else if k == 2 {
        1048576
    } else if k == 3 {
        1073741824
    } else {
        1099511627776
    }
}

/// The suffix of the unit with the given index, space included.
pub open spec fn spec_unit_suffix(k: nat) -> Seq<u8> {
    if k == 1 {
        seq![' ' as u8, 'K' as u8, 'B' as u8]
    } else if k == 2 {
        seq![' ' as u8, 'M' as u8, 'B' as u8]
    } else if k == 3 {
        seq![' ' as u8, 'G' as u8, 'B' as u8]
    } else {
        seq![' ' as u8, 'T' as u8, 'B' as u8]
    }
}

/// `bytes * 100 / den`, rounded to the nearest integer, ties to the even
/// neighbour: the count in hundredths of the chosen unit.
pub open spec fn spec_scaled_hundredths(bytes: nat, den: nat) -> nat {
    let num = bytes * 100;
    let q = num / den;
    let r = num % den;
    if 2 * r > den {
        q + 1
    } else if 2 * r < den {
        q
    } else if q % 2 == 0 {
        q
    } else {
        q + 1
    }
}

/// The ASCII rendering of a byte count: under 1024 the plain digits and
/// ` B`; otherwise the count in the chosen unit with exactly two decimal
/// digits and that unit's suffix.
pub open spec fn spec_format_ascii(bytes: nat) -> Seq<u8> {
    let k = spec_unit_index(bytes);
    if k == 0 {
        spec_digits(bytes) + seq![' ' as u8, 'B' as u8]
    } else {
        let q = spec_scaled_hundredths(bytes, spec_unit_divisor(k));
        spec_digits(q / 100) + seq!['.' as u8, spec_digit(((q / 10) % 10) as int), spec_digit(
            (q % 10) as int,
        )] + spec_unit_suffix(k)
    }
}

/// The rendering of a byte count as characters.
pub open spec fn spec_format_bytes(bytes: nat) -> Seq<char> {
    spec_format_ascii(bytes).map_values(|b: u8| b as char)
}

/// Every digit byte lies in the ASCII digit range.
pub proof fn lemma_digits_ascii(n: nat)
    ensures
        spec_digits(n).len() >= 1,
        forall|i: int| 0 <= i < spec_digits(n).len() ==> 48 <= #[trigger] spec_digits(n)[i] < 58,
    decreases n,
{
    if n >= 10 {
        lemma_digits_ascii(n / 10);
    }
}

/// Appends the decimal digits of `n` to `out`.
fn push_digits(out: &mut Vec<u8>, n: u64)
    ensures
        final(out)@ == old(out)@ + spec_digits(n as nat),
    decreases n,
{
    if n < 10 {
        out.push(48 + n as u8);
        proof {
            assert(out@ =~= old(out)@ + spec_digits(n as nat));
        }
    } else {
        push_digits(out, n / 10);
        out.push(48 + (n % 10) as u8);
        proof {
            assert(out@ =~= old(out)@ + spec_digits(n as nat));
        }
    }
}

/// Formats a byte count as a human-readable string, as
/// [`spec_format_bytes`] says: counts under 1024 render as `{bytes} B`
/// with no decimals; larger counts are divided by 1024 for each unit
/// step and rendered with exactly two decimal digits and the unit's
/// suffix, among B, KB, MB, GB and TB.
pub fn format_bytes(bytes: u64) -> (r: String)
    ensures
        r@ == spec_format_bytes(bytes as nat),
{
    let mut out: Vec<u8> = Vec::new();
    if bytes < 1024 {
        push_digits(&mut out, bytes);
        out.push(32);
        out.push(66);
        proof {
            lemma_digits_ascii(bytes as nat);
            assert(out@ =~= spec_format_ascii(bytes as nat));
        }
    } else {
        let (den, unit): (u128, u8) = if bytes < 1048576 {
            (1024, 75)
        } else if bytes < 1073741824 {
            (1048576, 77)
        } else if bytes < 1099511627776 {
            (1073741824, 71)
        } else {
            (1099511627776, 84)
        };
        let ghost k = spec_unit_index(bytes as nat);
        proof {
            assert(den == spec_unit_divisor(k));
        }
        let num: u128 = (bytes as u128) * 100;
        let q0: u128 = num / den;
        let rem: u128 = num % den;
        let q: u128 = if 2 * rem > den {
            q0 + 1
        } else if 2 * rem < den {
            q0
        } else if q0 % 2 == 0 {
            q0
        } else {
            q0 + 1
        };
        proof {
            assert(q == spec_scaled_hundredths(bytes as nat, spec_unit_divisor(k)));
            vstd::arithmetic::div_mod::lemma_fundamental_div_mod(num as int, den as int);
            assert(q0 * den + rem == num) by (nonlinear_arith)
                requires
                    num == den * (num / den) + (num % den),
                    q0 == num / den,
                    rem == num % den,
            ;
            assert(q0 * 1024 <= num) by (nonlinear_arith)
                requires
                    q0 * den + rem == num,
                    den >= 1024,
                    rem >= 0,
                    q0 >= 0,
            ;
            assert(q0 <= 0x4000_0000_0000_0000);
            assert(q <= 0x4000_0000_0000_0001);
        }
        let int_part: u64 = (q / 100) as u64;
        let tens: u8 = ((q / 10) % 10) as u8;
        let ones: u8 = (q % 10) as u8;
        push_digits(&mut out, int_part);
        out.push(46);
        out.push(48 + tens);
        out.push(48 + ones);
        out.push(32);
        out.push(unit);
        out.push(66);
        proof {
            lemma_digits_ascii(int_part as nat);
            assert(out@ =~= spec_format_ascii(bytes as nat));
        }
    }
    proof {
        lemma_digits_ascii(bytes as nat);
        assert(forall|i: int| 0 <= i < out@.len() ==> out@[i] < 128);
    }
    let r = ascii_to_string(out);
    proof {
        assert(r@ =~= spec_format_bytes(bytes as nat));
    }
    r
}

/// A count of zero renders as `0 B`.
pub proof fn lemma_format_bytes_zero()
    ensures
        spec_format_bytes(0) == "0 B"@,
{
    reveal_strlit("0 B");
    assert(spec_digits(0) =~= seq![48u8]);
    assert(spec_format_bytes(0) =~= "0 B"@);
}

/// Any count under 1024 renders as its decimal digits followed by ` B`,
/// with no decimal point.
pub proof fn lemma_format_bytes_small(bytes: nat)
    requires
        bytes < 1024,
    ensures
        spec_format_bytes(bytes) == (spec_digits(bytes) + seq![' ' as u8, 'B' as u8]).map_values(
            |b: u8| b as char,
        ),
{
}

} // verus!
