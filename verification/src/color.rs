//! Packed-color byte layout and the textual pixel-stream encoding.
//!
//! A pixel leaves the sampler as four 8-bit channels. This module pins down
//! the packed `u32` layout (red in the highest byte, alpha in the lowest),
//! the flat interleaved RGBA byte buffer, and the ASCII pixel-triplet stream
//! that the plain-text image sink writes.

use vstd::prelude::*;

verus! {

use vstd::arithmetic::div_mod::{
    lemma_div_multiples_vanish_fancy,
    lemma_fundamental_div_mod,
    lemma_mod_multiples_vanish,
};
use vstd::string::StringExecFns;

/// The packed `u32` a red, green, blue, alpha quadruple denotes:
/// red occupies the highest byte, alpha the lowest.
pub open spec fn rgba_value(r: u8, g: u8, b: u8, a: u8) -> u32 {
    (r * 0x100_0000 + g * 0x1_0000 + b * 0x100 + a) as u32
}

/// Red channel of a packed color.
pub open spec fn red_of(c: u32) -> u8 {
    (c / 0x100_0000) as u8
}

/// Green channel of a packed color.
pub open spec fn green_of(c: u32) -> u8 {
    ((c / 0x1_0000) % 0x100) as u8
}

/// Blue channel of a packed color.
pub open spec fn blue_of(c: u32) -> u8 {
    ((c / 0x100) % 0x100) as u8
}

/// Alpha channel of a packed color.
pub open spec fn alpha_of(c: u32) -> u8 {
    (c % 0x100) as u8
}

/// Law: packing four channels and reading them back is the identity, and a
/// packed color is exactly the packing of its four channels. The byte layout
/// therefore loses nothing, and no other quadruple packs to the same value.
pub proof fn lemma_rgba_roundtrip(r: u8, g: u8, b: u8, a: u8, c: u32)
    ensures
        red_of(rgba_value(r, g, b, a)) == r,
        green_of(rgba_value(r, g, b, a)) == g,
        blue_of(rgba_value(r, g, b, a)) == b,
        alpha_of(rgba_value(r, g, b, a)) == a,
        rgba_value(red_of(c), green_of(c), blue_of(c), alpha_of(c)) == c,
{
    let v = rgba_value(r, g, b, a) as int;
    lemma_div_multiples_vanish_fancy(r as int, g * 0x1_0000 + b * 0x100 + a, 0x100_0000);
    lemma_div_multiples_vanish_fancy(r * 0x100 + g, b * 0x100 + a, 0x1_0000);
    lemma_mod_multiples_vanish(r as int, g as int, 0x100);
    lemma_div_multiples_vanish_fancy(r * 0x1_0000 + g * 0x100 + b, a as int, 0x100);
    lemma_mod_multiples_vanish(r * 0x100 + g, b as int, 0x100);
    lemma_mod_multiples_vanish(r * 0x1_0000 + g * 0x100 + b, a as int, 0x100);

    lemma_fundamental_div_mod(c as int, 0x100);
    lemma_fundamental_div_mod(c as int / 0x100, 0x100);
    lemma_fundamental_div_mod(c as int / 0x100 / 0x100, 0x100);
    vstd::arithmetic::div_mod::lemma_div_denominator(c as int, 0x100, 0x100);
    vstd::arithmetic::div_mod::lemma_div_denominator(c as int, 0x1_0000, 0x100);
}

/// Packs four channels into one `u32`, red in the highest byte.
pub fn pack_rgba(r: u8, g: u8, b: u8, a: u8) -> (c: u32)
    ensures
        c == rgba_value(r, g, b, a),
        red_of(c) == r,
        green_of(c) == g,
        blue_of(c) == b,
        alpha_of(c) == a,
{
    proof {
        lemma_rgba_roundtrip(r, g, b, a, 0);
    }
    (r as u32) * 0x100_0000 + (g as u32) * 0x1_0000 + (b as u32) * 0x100 + (a as u32)
}

/// Reads the four channels back out of a packed `u32`.
pub fn unpack_rgba(c: u32) -> (channels: (u8, u8, u8, u8))
    ensures
        channels == (red_of(c), green_of(c), blue_of(c), alpha_of(c)),
        rgba_value(channels.0, channels.1, channels.2, channels.3) == c,
{
    proof {
        lemma_rgba_roundtrip(0, 0, 0, 0, c);
    }
    (
        #[verifier::truncate] ((c / 0x100_0000) as u8),
        #[verifier::truncate] (((c / 0x1_0000) % 0x100) as u8),
        #[verifier::truncate] (((c / 0x100) % 0x100) as u8),
        #[verifier::truncate] ((c % 0x100) as u8),
    )
}

/// Spells the flat interleaved byte buffer of a row of packed pixels: four
/// bytes per pixel, red first, in pixel order.
pub open spec fn rgba_bytes_ok(pixels: Seq<u32>, buf: Seq<u8>) -> bool {
    &&& buf.len() == 4 * pixels.len()
    &&& forall|i: int|
        0 <= i < pixels.len() ==> {
            &&& #[trigger] buf[4 * i] == red_of(pixels[i])
            &&& buf[4 * i + 1] == green_of(pixels[i])
            &&& buf[4 * i + 2] == blue_of(pixels[i])
            &&& buf[4 * i + 3] == alpha_of(pixels[i])
        }
}

/// Flattens packed pixels into the interleaved RGBA byte buffer an image
/// sink consumes.
pub fn rgba_buffer(pixels: &Vec<u32>) -> (buf: Vec<u8>)
    ensures
        rgba_bytes_ok(pixels@, buf@),
{
    let mut buf: Vec<u8> = Vec::new();
    let mut k: usize = 0;
    while k < pixels.len()
        invariant
            k <= pixels.len(),
            buf@.len() == 4 * k,
            rgba_bytes_ok(pixels@.take(k as int), buf@),
        decreases pixels.len() - k,
    {
        let (r, g, b, a) = unpack_rgba(pixels[k]);
        let ghost prev = buf@;
        buf.push(r);
        buf.push(g);
        buf.push(b);
        buf.push(a);
        k = k + 1;
        proof {
            let now = pixels@.take(k as int);
            assert forall|i: int| 0 <= i < now.len() implies {
                &&& #[trigger] buf@[4 * i] == red_of(now[i])
                &&& buf@[4 * i + 1] == green_of(now[i])
                &&& buf@[4 * i + 2] == blue_of(now[i])
                &&& buf@[4 * i + 3] == alpha_of(now[i])
            } by {
                if i < k - 1 {
                    let before = pixels@.take(k as int - 1);
                    assert(before[i] == now[i]);
                    assert(prev[4 * i] == red_of(before[i]));
                    assert(buf@[4 * i] == prev[4 * i]);
                    assert(buf@[4 * i + 1] == prev[4 * i + 1]);
                    assert(buf@[4 * i + 2] == prev[4 * i + 2]);
                    assert(buf@[4 * i + 3] == prev[4 * i + 3]);
                } else {
                    assert(now[i] == pixels@[k - 1]);
                    assert(buf@[4 * i] == r);
                    assert(buf@[4 * i + 1] == g);
                    assert(buf@[4 * i + 2] == b);
                    assert(buf@[4 * i + 3] == a);
                }
            }
        }
    }
    proof {
        assert(pixels@.take(pixels@.len() as int) =~= pixels@);
    }
    buf
}

/// The character a decimal digit prints as.
pub open spec fn dec_digit(d: int) -> char {
    if d == 0 {
        '0'
    } else if d == 1 {
        '1'
    } else if d == 2 {
        '2'
    } else if d == 3 {
        '3'
    } else if d == 4 {
        '4'
    } else if d == 5 {
        '5'
    } else if d == 6 {
        '6'
    } else if d == 7 {
        '7'
    } else if d == 8 {
        '8'
    } else {
        '9'
    }
}

/// The decimal spelling of a nonnegative number, most significant digit
/// first, without leading zeros (zero itself prints as one digit).
pub open spec fn dec_rep(n: int) -> Seq<char>
    recommends
        n >= 0,
    decreases n,
{
    if n < 10 {
        seq![dec_digit(n)]
    } else {
        dec_rep(n / 10).push(dec_digit(n % 10))
    }
}

/// One decimal digit as a borrowed string.
fn dec_digit_str(d: u32) -> (s: &'static str)
    requires
        d < 10,
    ensures
        s@ == seq![dec_digit(d as int)],
{
    proof {
        reveal_strlit("0");
        reveal_strlit("1");
        reveal_strlit("2");
        reveal_strlit("3");
        reveal_strlit("4");
        reveal_strlit("5");
        reveal_strlit("6");
        reveal_strlit("7");
        reveal_strlit("8");
        reveal_strlit("9");
        assert(seq![dec_digit(0)] =~= "0"@);
        assert(seq![dec_digit(1)] =~= "1"@);
        assert(seq![dec_digit(2)] =~= "2"@);
        assert(seq![dec_digit(3)] =~= "3"@);
        assert(seq![dec_digit(4)] =~= "4"@);
        assert(seq![dec_digit(5)] =~= "5"@);
        assert(seq![dec_digit(6)] =~= "6"@);
        assert(seq![dec_digit(7)] =~= "7"@);
        assert(seq![dec_digit(8)] =~= "8"@);
        assert(seq![dec_digit(9)] =~= "9"@);
    }
    match d {
        0 => "0",
        1 => "1",
        2 => "2",
        3 => "3",
        4 => "4",
        5 => "5",
        6 => "6",
        7 => "7",
        8 => "8",
        _ => "9",
    }
}

/// Renders a number in decimal.
pub fn u32_to_decimal(n: u32) -> (s: String)
    ensures
        s@ == dec_rep(n as int),
    decreases n,
{
    if n < 10 {
        String::from_str(dec_digit_str(n))
    } else {
        let mut s = u32_to_decimal(n / 10);
        s.append(dec_digit_str(n % 10));
        proof {
            assert(dec_rep(n as int / 10).push(dec_digit(n as int % 10)) =~= dec_rep(n as int / 10)
                + seq![dec_digit(n as int % 10)]);
        }
        s
    }
}

/// What one byte of the buffer contributes to the pixel-triplet stream: the
/// byte at position `i` (counting from 0) prints as its decimal value and a
/// space, except that every fourth byte — the alpha channel — prints as a
/// line break instead.
pub open spec fn ppm_entry(v: u8, i: int) -> Seq<char> {
    if (i + 1) % 4 == 0 {
        seq!['\n']
    } else {
        dec_rep(v as int).push(' ')
    }
}

/// The pixel-triplet stream of a whole RGBA buffer.
pub open spec fn ppm_body(data: Seq<u8>) -> Seq<char>
    decreases data.len(),
{
    if data.len() == 0 {
        Seq::empty()
    } else {
        ppm_body(data.drop_last()) + ppm_entry(data.last(), data.len() - 1)
    }
}

/// The stream's header: the magic word, the image extent and the maximum
/// channel value, each line broken.
pub open spec fn ppm_header(width: u32, height: u32) -> Seq<char> {
    seq!['P', '3', '\n'] + dec_rep(width as int) + seq![' '] + dec_rep(height as int) + seq![
        '\n',
        '2',
        '5',
        '5',
        '\n',
    ]
}

/// Renders an interleaved RGBA buffer as the complete ASCII pixel-triplet
/// stream: header first, then per pixel its red, green and blue values, the
/// alpha byte standing as a line break.
pub fn ppm_text(width: u32, height: u32, data: &Vec<u8>) -> (s: String)
    ensures
        s@ == ppm_header(width, height) + ppm_body(data@),
{
    proof {
        reveal_strlit("P3\n");
        reveal_strlit(" ");
        reveal_strlit("\n255\n");
        reveal_strlit("\n");
        assert("P3\n"@ =~= seq!['P', '3', '\n']);
        assert(" "@ =~= seq![' ']);
        assert("\n255\n"@ =~= seq!['\n', '2', '5', '5', '\n']);
        assert("\n"@ =~= seq!['\n']);
    }
    let mut s = String::from_str("P3\n");
    let w = u32_to_decimal(width);
    s.append(w.as_str());
    s.append(" ");
    let h = u32_to_decimal(height);
    s.append(h.as_str());
    s.append("\n255\n");
    proof {
        assert(s@ =~= ppm_header(width, height));
    }
    let mut i: usize = 0;
    while i < data.len()
        invariant
            i <= data.len(),
            s@ == ppm_header(width, height) + ppm_body(data@.take(i as int)),
        decreases data.len() - i,
    {
        if (i % 4) == 3 {
            s.append("\n");
            proof {
                reveal_strlit("\n");
                assert("\n"@ =~= seq!['\n']);
            }
        } else {
            let d = u32_to_decimal(data[i] as u32);
            s.append(d.as_str());
            s.append(" ");
            proof {
                reveal_strlit(" ");
                assert(" "@ =~= seq![' ']);
            }
        }
        proof {
            let pre = data@.take(i as int);
            let post = data@.take(i as int + 1);
            assert(post.drop_last() =~= pre);
            assert(post.last() == data@[i as int]);
            assert(ppm_entry(data@[i as int], i as int) == if ((i as int) + 1) % 4 == 0 {
                seq!['\n']
            } else {
                dec_rep(data@[i as int] as int).push(' ')
            });
            if (i as int + 1) % 4 != 0 {
                assert(dec_rep(data@[i as int] as int).push(' ') =~= dec_rep(
                    data@[i as int] as int,
                ) + seq![' ']);
            }
            assert(s@ =~= ppm_header(width, height) + ppm_body(post));
        }
        i = i + 1;
    }
    proof {
        assert(data@.take(data@.len() as int) =~= data@);
    }
    s
}

} // verus!
