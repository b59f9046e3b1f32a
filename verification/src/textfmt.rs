//! Decimal and hexadecimal rendering of the integers that appear inside
//! generated path names and text files, pinned down to the exact digit
//! sequences.

use vstd::prelude::*;

verus! {

/// The decimal digit character for `d` (0 through 9).
pub open spec fn dec_digit(d: int) -> char {
    if d == 0 {
        '0'
    } else if d == 1 {
        '1'
    } else if d == 2 {
        '2'
    } else if d == 3 {
        '3'
    } else if d == 4 {
        '4'
    } else if d == 5 {
        '5'
    } else if d == 6 {
        '6'
    } else if d == 7 {
        '7'
    } else if d == 8 {
        '8'
    } else {
        '9'
    }
}

/// The decimal digits of `n`, most significant first, no padding.
pub open spec fn spec_dec(n: int) -> Seq<char>
    decreases n,
{
    if n < 10 {
        seq![dec_digit(n)]
    } else {
        spec_dec(n / 10).push(dec_digit(n % 10))
    }
}

/// The decimal digits of `n`, left-padded with zeros to `width`.
pub open spec fn spec_dec_pad(n: int, width: int) -> Seq<char> {
    if spec_dec(n).len() >= width {
        spec_dec(n)
    } else {
        Seq::new((width - spec_dec(n).len()) as nat, |i: int| '0') + spec_dec(n)
    }
}

/// The upper-case hex digit character for `d` (0 through 15).
pub open spec fn hex_digit_upper(d: int) -> char {
    if d < 10 {
        dec_digit(d)
    } else if d == 10 {
        'A'
    } else if d == 11 {
        'B'
    } else if d == 12 {
        'C'
    } else if d == 13 {
        'D'
    } else if d == 14 {
        'E'
    } else {
        'F'
    }
}

/// The lower-case hex digit character for `d` (0 through 15).
pub open spec fn hex_digit_lower(d: int) -> char {
    if d < 10 {
        dec_digit(d)
    } else if d == 10 {
        'a'
    } else if d == 11 {
        'b'
    } else if d == 12 {
        'c'
    } else if d == 13 {
        'd'
    } else if d == 14 {
        'e'
    } else {
        'f'
    }
}

/// `n` as exactly `width` upper-case hex digits, most significant first.
pub open spec fn spec_hex_upper(n: u128, width: int) -> Seq<char> {
    Seq::new(width as nat, |i: int| hex_digit_upper(((n >> (4 * (width - 1 - i)) as u128) & 0xF) as int))
}

/// `n` as exactly `width` lower-case hex digits, most significant first.
pub open spec fn spec_hex_lower(n: u128, width: int) -> Seq<char> {
    Seq::new(width as nat, |i: int| hex_digit_lower(((n >> (4 * (width - 1 - i)) as u128) & 0xF) as int))
}

/// Append the decimal digit character for `d`.
fn append_dec_digit(out: &mut String, d: u32)
    requires
        d < 10,
    ensures
        final(out)@ == old(out)@ + seq![dec_digit(d as int)],
{
    proof {
        reveal_strlit("0");
        reveal_strlit("1");
        reveal_strlit("2");
        reveal_strlit("3");
        reveal_strlit("4");
        reveal_strlit("5");
        reveal_strlit("6");
        reveal_strlit("7");
        reveal_strlit("8");
        reveal_strlit("9");
    }
    if d == 0 {
        out.append("0");
    } else if d == 1 {
        out.append("1");
    } else if d == 2 {
        out.append("2");
    } else if d == 3 {
        out.append("3");
    } else if d == 4 {
        out.append("4");
    } else if d == 5 {
        out.append("5");
    } else if d == 6 {
        out.append("6");
    } else if d == 7 {
        out.append("7");
    } else if d == 8 {
        out.append("8");
    } else {
        out.append("9");
    }
    assert(final(out)@ =~= old(out)@ + seq![dec_digit(d as int)]);
}

/// Append the hex digit character for `d`, upper case when `upper`.
fn append_hex_digit(out: &mut String, d: u32, upper: bool)
    requires
        d < 16,
    ensures
        final(out)@ == old(out)@ + seq![
            if upper {
                hex_digit_upper(d as int)
            } else {
                hex_digit_lower(d as int)
            },
        ],
{
    if d < 10 {
        append_dec_digit(out, d);
    } else {
        proof {
            reveal_strlit("A");
            reveal_strlit("B");
            reveal_strlit("C");
            reveal_strlit("D");
            reveal_strlit("E");
            reveal_strlit("F");
            reveal_strlit("a");
            reveal_strlit("b");
            reveal_strlit("c");
            reveal_strlit("d");
            reveal_strlit("e");
            reveal_strlit("f");
        }
        if upper {
            if d == 10 {
                out.append("A");
            } else if d == 11 {
                out.append("B");
            } else if d == 12 {
                out.append("C");
            } else if d == 13 {
                out.append("D");
            } else if d == 14 {
                out.append("E");
            } else {
                out.append("F");
            }
        } else {
            if d == 10 {
                out.append("a");
            } else if d == 11 {
                out.append("b");
            } else if d == 12 {
                out.append("c");
            } else if d == 13 {
                out.append("d");
            } else if d == 14 {
                out.append("e");
            } else {
                out.append("f");
            }
        }
    }
    assert(final(out)@ =~= old(out)@ + seq![
        if upper {
            hex_digit_upper(d as int)
        } else {
            hex_digit_lower(d as int)
        },
    ]);
}

/// Append the decimal digits of `n`, most significant first.
pub fn append_dec(out: &mut String, n: u32)
    ensures
        final(out)@ == old(out)@ + spec_dec(n as int),
    decreases n,
{
    if n < 10 {
        append_dec_digit(out, n);
    } else {
        append_dec(out, n / 10);
        append_dec_digit(out, n % 10);
        assert(final(out)@ =~= old(out)@ + spec_dec(n as int));
    }
}

/// `n` in decimal, no padding.
pub fn u32_dec(n: u32) -> (r: String)
    ensures
        r@ == spec_dec(n as int),
{
    let mut r = String::new();
    append_dec(&mut r, n);
    proof {
        assert(r@ =~= spec_dec(n as int));
    }
    r
}

/// How many decimal digits `n` has.
pub proof fn lemma_dec_len(n: int)
    requires
        n >= 0,
    ensures
        spec_dec(n).len() >= 1,
        n < 10 ==> spec_dec(n).len() == 1,
        10 <= n < 100 ==> spec_dec(n).len() == 2,
        100 <= n < 1000 ==> spec_dec(n).len() == 3,
        1000 <= n < 10000 ==> spec_dec(n).len() == 4,
        10000 <= n < 100000 ==> spec_dec(n).len() == 5,
    decreases n,
{
    if n >= 10 {
        lemma_dec_len(n / 10);
    }
}

/// `n` in decimal, left-padded with zeros to `width` (at most 5).
pub fn u32_dec_pad(n: u32, width: usize) -> (r: String)
    requires
        width <= 5,
    ensures
        r@ == spec_dec_pad(n as int, width as int),
{
    proof {
        lemma_dec_len(n as int);
    }
    let digits: usize = if n < 10 {
        1
    } else if n < 100 {
        2
    } else if n < 1000 {
        3
    } else if n < 10000 {
        4
    } else if n < 100000 {
        5
    } else {
        proof {
            lemma_dec_big(n as int);
        }
        6
    };
    let mut r = String::new();
    let mut pad: usize = 0;
    let target: usize = if width > digits {
        width - digits
    } else {
        0
    };
    proof {
        reveal_strlit("0");
    }
    while pad < target
        invariant
            pad <= target,
            target == (if digits >= width {
                0int
            } else {
                width - digits
            }),
            r@ == Seq::new(pad as nat, |i: int| '0'),
            width <= 5,
        decreases target - pad,
    {
        proof {
            reveal_strlit("0");
        }
        r.append("0");
        pad = pad + 1;
        assert(r@ =~= Seq::new(pad as nat, |i: int| '0'));
    }
    append_dec(&mut r, n);
    proof {
        assert(r@ =~= spec_dec_pad(n as int, width as int));
    }
    r
}

/// Six and more digit numbers need no padding at widths up to 5.
proof fn lemma_dec_big(n: int)
    requires
        n >= 100000,
    ensures
        spec_dec(n).len() >= 6,
    decreases n,
{
    lemma_dec_len(n / 10);
    if n >= 1000000 {
        lemma_dec_big(n / 10);
    }
}

/// `n` as exactly `width` hex digits, most significant first.
pub fn u128_hex_pad(n: u128, width: usize, upper: bool) -> (r: String)
    requires
        1 <= width <= 32,
    ensures
        r@ == if upper {
            spec_hex_upper(n, width as int)
        } else {
            spec_hex_lower(n, width as int)
        },
{
    let mut r = String::new();
    let mut i: usize = 0;
    while i < width
        invariant
            i <= width,
            1 <= width <= 32,
            r@ == Seq::new(
                i as nat,
                |j: int| if upper {
                    hex_digit_upper(((n >> (4 * (width - 1 - j)) as u128) & 0xF) as int)
                } else {
                    hex_digit_lower(((n >> (4 * (width - 1 - j)) as u128) & 0xF) as int)
                },
            ),
        decreases width - i,
    {
        let shift: u32 = (4 * (width - 1 - i)) as u32;
        let nibble: u128 = (n >> (shift as u128)) & 0xF;
        proof {
            let s = shift as u128;
            assert((n >> s) & 0xF <= 0xF) by (bit_vector);
            assert(shift as u128 == (4 * (width - 1 - i as int)) as u128);
        }
        let d: u32 = nibble as u32;
        append_hex_digit(&mut r, d, upper);
        i = i + 1;
        assert(r@ =~= Seq::new(
            i as nat,
            |j: int| if upper {
                hex_digit_upper(((n >> (4 * (width - 1 - j)) as u128) & 0xF) as int)
            } else {
                hex_digit_lower(((n >> (4 * (width - 1 - j)) as u128) & 0xF) as int)
            },
        ));
    }
    r
}

/// `n` as exactly eight upper-case hex digits.
pub fn u32_hex8_upper(n: u32) -> (r: String)
    ensures
        r@ == spec_hex_upper(n as u128, 8),
{
    u128_hex_pad(n as u128, 8, true)
}

} // verus!
