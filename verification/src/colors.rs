//! sRGB-style RGB888 triple, one `u8` per channel.

use vstd::prelude::*;

verus! {

/// One pixel colour: red, green and blue channels.
#[derive(Clone, Copy, Debug, PartialEq, Eq, Structural)]
pub struct Rgb(pub u8, pub u8, pub u8);

/// The channel of `c` at position `k` (0 red, 1 green, 2 blue).
pub open spec fn channel(c: Rgb, k: int) -> u8 {
    if k == 0 {
        c.0
    } else if k == 1 {
        c.1
    } else {
        c.2
    }
}

/// Red channel of a `0xRRGGBB` value.
pub open spec fn hex_red(hex: u32) -> int {
    (hex as int / 0x10000) % 0x100
}

/// Green channel of a `0xRRGGBB` value.
pub open spec fn hex_green(hex: u32) -> int {
    (hex as int / 0x100) % 0x100
}

/// Blue channel of a `0xRRGGBB` value.
pub open spec fn hex_blue(hex: u32) -> int {
    hex as int % 0x100
}

/// Sum of the three channels: three times the brightness in byte units.
pub open spec fn channel_sum(c: Rgb) -> int {
    c.0 as int + c.1 as int + c.2 as int
}

/// Shade level `ceil(4 * brightness)` where brightness is `channel_sum / 765`.
pub open spec fn shade_level(c: Rgb) -> int {
    (4 * channel_sum(c) + 764) / 765
}

/// The block-element character that stands for colour `c`: a space for black,
/// otherwise `░ ▒ ▓ █` by brightness quarter.
pub open spec fn shade_char(c: Rgb) -> char {
    if channel_sum(c) == 0 {
        ' '
    } else if shade_level(c) == 1 {
        '░'
    } else if shade_level(c) == 2 {
        '▒'
    } else if shade_level(c) == 3 {
        '▓'
    } else {
        '█'
    }
}

impl Rgb {
    /// Black, `(0, 0, 0)`.
    pub fn black() -> (c: Rgb)
        ensures
            c == Rgb(0, 0, 0),
    {
        Rgb(0, 0, 0)
    }

    /// White, `(255, 255, 255)`.
    pub fn white() -> (c: Rgb)
        ensures
            c == Rgb(255, 255, 255),
    {
        Rgb(255, 255, 255)
    }

    /// Pure blue, `(0, 0, 255)`.
    pub fn blue() -> (c: Rgb)
        ensures
            c == Rgb(0, 0, 255),
    {
        Rgb(0, 0, 255)
    }

    /// Pure red, `(255, 0, 0)`.
    pub fn red() -> (c: Rgb)
        ensures
            c == Rgb(255, 0, 0),
    {
        Rgb(255, 0, 0)
    }

    /// sRGB `0xRRGGBB` (for instance `0x156289`) split into its three channels;
    /// bits above the lowest 24 are ignored.
    pub fn from_hex(hex: u32) -> (c: Rgb)
        ensures
            c.0 == hex_red(hex),
            c.1 == hex_green(hex),
            c.2 == hex_blue(hex),
    {
        let r = (hex >> 16) & 0xff;
        let g = (hex >> 8) & 0xff;
        let b = hex & 0xff;
        assert(r == (hex / 0x10000) % 0x100 && r < 256) by (bit_vector)
            requires
                r == (hex >> 16) & 0xff,
        ;
        assert(g == (hex / 0x100) % 0x100 && g < 256) by (bit_vector)
            requires
                g == (hex >> 8) & 0xff,
        ;
        assert(b == hex % 0x100 && b < 256) by (bit_vector)
            requires
                b == hex & 0xff,
        ;
        Rgb(r as u8, g as u8, b as u8)
    }

    /// Shade character used by the framebuffer's text rendering: `' '` for black,
    /// else `░ ▒ ▓ █` for brightness in the first to fourth quarter of `(0, 1]`,
    /// where brightness is the channel mean over 255.
    pub fn ascii_shade(self) -> (ch: char)
        ensures
            ch == shade_char(self),
    {
        let sum: u32 = self.0 as u32 + self.1 as u32 + self.2 as u32;
        if sum == 0 {
            return ' ';
        }
        let level: u32 = (4 * sum + 764) / 765;
        if level == 1 {
            '░'
        } else if level == 2 {
            '▒'
        } else if level == 3 {
            '▓'
        } else {
            '█'
        }
    }
}

/// The three channels put back together give the low 24 bits of the hex
/// value, each channel a byte.
pub proof fn lemma_hex_channels_recompose(hex: u32)
    ensures
        0 <= hex_red(hex) < 256 && 0 <= hex_green(hex) < 256 && 0 <= hex_blue(hex) < 256,
        hex_red(hex) * 0x10000 + hex_green(hex) * 0x100 + hex_blue(hex) == hex as int % 0x100_0000,
{
    let h = hex as int;
    vstd::arithmetic::div_mod::lemma_fundamental_div_mod(h, 0x100);
    vstd::arithmetic::div_mod::lemma_fundamental_div_mod(h / 0x100, 0x100);
    vstd::arithmetic::div_mod::lemma_fundamental_div_mod(h / 0x10000, 0x100);
    vstd::arithmetic::div_mod::lemma_fundamental_div_mod(h, 0x100_0000);
    vstd::arithmetic::div_mod::lemma_div_denominator(h, 0x100, 0x100);
    vstd::arithmetic::div_mod::lemma_mod_bound(h, 0x100);
    vstd::arithmetic::div_mod::lemma_mod_bound(h / 0x100, 0x100);
    vstd::arithmetic::div_mod::lemma_mod_bound(h / 0x10000, 0x100);
    assert(h % 0x100_0000 == hex_red(hex) * 0x10000 + hex_green(hex) * 0x100 + hex_blue(hex)) by (nonlinear_arith)
        requires
            h == (h / 0x100) * 0x100 + h % 0x100,
            h / 0x100 == (h / 0x10000) * 0x100 + (h / 0x100) % 0x100,
            h / 0x10000 == (h / 0x1000000) * 0x100 + (h / 0x10000) % 0x100,
            h == (h / 0x1000000) * 0x1000000 + h % 0x1000000,
            0 <= h % 0x1000000 < 0x1000000,
            hex_red(hex) == (h / 0x10000) % 0x100,
            hex_green(hex) == (h / 0x100) % 0x100,
            hex_blue(hex) == h % 0x100,
    ;
}

/// The shade character says in which quarter of `(0, 1]` the brightness
/// `(r + g + b) / 765` lies, and is a space exactly for black.
pub proof fn lemma_shade_quarters(c: Rgb)
    ensures
        ({
            let s = c.0 as int + c.1 as int + c.2 as int;
            &&& (shade_char(c) == ' ' <==> s == 0)
            &&& (shade_char(c) == '░' <==> 0 < 4 * s <= 765)
            &&& (shade_char(c) == '▒' <==> 765 < 4 * s <= 1530)
            &&& (shade_char(c) == '▓' <==> 1530 < 4 * s <= 2295)
            &&& (shade_char(c) == '█' <==> 2295 < 4 * s)
        }),
{
}

} // verus!
