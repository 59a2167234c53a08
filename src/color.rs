use vstd::prelude::*;
use vstd::string::StringSliceAdditionalSpecFns;

verus! {

/// An 8-bit-per-channel color.
#[derive(Clone, Copy, Debug, PartialEq, Eq, Structural)]
pub struct Rgba {
    pub r: u8,
    pub g: u8,
    pub b: u8,
    pub a: u8,
}

pub open spec fn hex_digit_value(c: u8) -> Option<nat> {
    if 48 <= c <= 57 {
        Some((c - 48) as nat)
    } else if 97 <= c <= 102 {
        Some((c - 87) as nat)
    } else if 65 <= c <= 70 {
        Some((c - 55) as nat)
    } else {
        None
    }
}

/// Two bytes read as a hexadecimal `u8`, as `u8::from_str_radix(_, 16)` reads them (a
/// leading `+` is allowed); 255 where that fails.
pub open spec fn hex_byte(hi: u8, lo: u8) -> u8 {
    match (hex_digit_value(hi), hex_digit_value(lo)) {
        (Some(h), Some(l)) => (h * 16 + l) as u8,
        _ => if hi == 43 {
            match hex_digit_value(lo) {
                Some(l) => l as u8,
                None => 255,
            }
        } else {
            255
        },
    }
}

/// `s` without its leading `#` bytes.
pub open spec fn strip_hashes(s: Seq<u8>) -> Seq<u8>
    decreases s.len(),
{
    if s.len() > 0 && s[0] == 35 {
        strip_hashes(s.drop_first())
    } else {
        s
    }
}

/// `#RRGGBB` takes the animation alpha; `#RRGGBBAA` multiplies its own alpha into it
/// (`base * alpha / 255`); anything else is white with the animation alpha.
pub open spec fn color_value(hex: Seq<u8>, alpha: u8) -> Rgba {
    let h = strip_hashes(hex);
    if h.len() == 6 {
        Rgba { r: hex_byte(h[0], h[1]), g: hex_byte(h[2], h[3]), b: hex_byte(h[4], h[5]), a: alpha }
    } else if h.len() == 8 {
        Rgba {
            r: hex_byte(h[0], h[1]),
            g: hex_byte(h[2], h[3]),
            b: hex_byte(h[4], h[5]),
            a: (hex_byte(h[6], h[7]) as nat * alpha as nat / 255) as u8,
        }
    } else {
        Rgba { r: 255, g: 255, b: 255, a: alpha }
    }
}

fn hex_digit(c: u8) -> (r: Option<u8>)
    ensures
        match hex_digit_value(c) {
            Some(v) => r == Some(v as u8),
            None => r is None,
        },
{
    if 48 <= c && c <= 57 {
        Some(c - 48)
    } else if 97 <= c && c <= 102 {
        Some(c - 87)
    } else if 65 <= c && c <= 70 {
        Some(c - 55)
    } else {
        None
    }
}

fn exec_hex_byte(hi: u8, lo: u8) -> (r: u8)
    ensures
        r == hex_byte(hi, lo),
{
    match (hex_digit(hi), hex_digit(lo)) {
        (Some(h), Some(l)) => h * 16 + l,
        _ => if hi == 43 {
            match hex_digit(lo) {
                Some(l) => l,
                None => 255,
            }
        } else {
            255
        },
    }
}

/// The color of a CSS hex string under an animation alpha.
pub fn parse_color_with_alpha(hex: &str, alpha: u8) -> (r: Rgba)
    ensures
        r == color_value(hex.spec_bytes(), alpha),
{
    let bytes = hex.as_bytes();
    let n = bytes.len();
    let mut i: usize = 0;
    assert(bytes@.skip(0) =~= bytes@);
    while i < n && bytes[i] == 35
        invariant
            i <= n == bytes@.len(),
            strip_hashes(bytes@.skip(i as int)) == strip_hashes(bytes@),
        decreases n - i,
    {
        assert(bytes@.skip(i as int).drop_first() =~= bytes@.skip(i + 1));
        i = i + 1;
    }
    let ghost h = bytes@.skip(i as int);
    assert(strip_hashes(h) == h);
    let len = n - i;
    if len == 6 || len == 8 {
        let r = exec_hex_byte(bytes[i], bytes[i + 1]);
        let g = exec_hex_byte(bytes[i + 2], bytes[i + 3]);
        let b = exec_hex_byte(bytes[i + 4], bytes[i + 5]);
        if len == 6 {
            Rgba { r, g, b, a: alpha }
        } else {
            let base = exec_hex_byte(bytes[i + 6], bytes[i + 7]);
            assert(base as int * alpha as int <= 255 * 255) by (nonlinear_arith)
                requires
                    base <= 255,
                    alpha <= 255,
            ;
            let combined = (base as u16 * alpha as u16) / 255;
            assert(combined <= 255);
            Rgba { r, g, b, a: combined as u8 }
        }
    } else {
        Rgba { r: 255, g: 255, b: 255, a: alpha }
    }
}

} // verus!
