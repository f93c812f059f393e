//! The color value model: tagged 3- and 4-channel colors with checked
//! arithmetic and the legacy packed-integer encodings the target
//! configuration format uses.

use vstd::prelude::*;

use crate::textutil::{ascii_bytes, bytes_eq, dec_u32, hex_byte, spec_dec, spec_hex_byte, str_bytes};

verus! {

#[derive(Debug, PartialEq, Eq, Clone, Structural)]
pub struct RGB(pub u8, pub u8, pub u8);

#[derive(Debug, PartialEq, Eq, Clone, Structural)]
pub struct RGBA(pub u8, pub u8, pub u8, pub u8);

#[derive(Debug, PartialEq, Eq, Clone, Structural)]
pub enum ColorError {
    /// The packed value does not fit in the requested channel count.
    ValueOutOfBounds(u32, u8),
    /// A channel count other than 3 or 4 was requested.
    InvalidChannels(u8),
    /// `negative` is defined for 3-channel colors only.
    NegativeRgba,
    /// Binary arithmetic needs the same channel count on both operands.
    ArithmeticChannelsMismatch,
    /// A channel went above 255.
    ArithmeticOverflow,
    /// A channel went below 0.
    ArithmeticUnderflow,
    /// A blend mode name outside the fixed table.
    UnknownBlendMode,
}

/// Packed value of a 3-channel color in construction byte order: 0xRRGGBB.
pub open spec fn rgb_value(c: RGB) -> int {
    c.0 * 0x10000 + c.1 * 0x100 + c.2
}

/// Packed value of a 3-channel color in reversed byte order: 0xBBGGRR.
pub open spec fn rgb_value_rev(c: RGB) -> int {
    c.2 * 0x10000 + c.1 * 0x100 + c.0
}

/// Packed value of a 4-channel color in construction byte order: 0xRRGGBBAA.
pub open spec fn rgba_value(c: RGBA) -> int {
    c.0 * 0x1000000 + c.1 * 0x10000 + c.2 * 0x100 + c.3
}

/// Packed value of a 4-channel color in reversed byte order: 0xAABBGGRR.
pub open spec fn rgba_value_rev(c: RGBA) -> int {
    c.3 * 0x1000000 + c.2 * 0x10000 + c.1 * 0x100 + c.0
}

/// The 3-channel color a packed value decodes to (the top byte is ignored,
/// as the masked decoding ignores it).
pub open spec fn rgb_of_value(v: int) -> RGB {
    RGB(((v / 0x10000) % 0x100) as u8, ((v / 0x100) % 0x100) as u8, (v % 0x100) as u8)
}

/// The 4-channel color a packed value decodes to.
pub open spec fn rgba_of_value(v: int) -> RGBA {
    RGBA(
        ((v / 0x1000000) % 0x100) as u8,
        ((v / 0x10000) % 0x100) as u8,
        ((v / 0x100) % 0x100) as u8,
        (v % 0x100) as u8,
    )
}

/// Per-channel checked addition: `None` when any channel would leave 0..=255.
pub open spec fn rgb_add(a: RGB, b: RGB) -> Option<RGB> {
    if a.0 + b.0 <= 255 && a.1 + b.1 <= 255 && a.2 + b.2 <= 255 {
        Some(RGB((a.0 + b.0) as u8, (a.1 + b.1) as u8, (a.2 + b.2) as u8))
    } else {
        None
    }
}

pub open spec fn rgb_sub(a: RGB, b: RGB) -> Option<RGB> {
    if a.0 >= b.0 && a.1 >= b.1 && a.2 >= b.2 {
        Some(RGB((a.0 - b.0) as u8, (a.1 - b.1) as u8, (a.2 - b.2) as u8))
    } else {
        None
    }
}

pub open spec fn rgba_add(a: RGBA, b: RGBA) -> Option<RGBA> {
    if a.0 + b.0 <= 255 && a.1 + b.1 <= 255 && a.2 + b.2 <= 255 && a.3 + b.3 <= 255 {
        Some(RGBA((a.0 + b.0) as u8, (a.1 + b.1) as u8, (a.2 + b.2) as u8, (a.3 + b.3) as u8))
    } else {
        None
    }
}

pub open spec fn rgba_sub(a: RGBA, b: RGBA) -> Option<RGBA> {
    if a.0 >= b.0 && a.1 >= b.1 && a.2 >= b.2 && a.3 >= b.3 {
        Some(RGBA((a.0 - b.0) as u8, (a.1 - b.1) as u8, (a.2 - b.2) as u8, (a.3 - b.3) as u8))
    } else {
        None
    }
}

/// Space-separated decimal channels, construction order.
pub open spec fn rgb_arr(c: RGB) -> Seq<u8> {
    spec_dec(c.0 as nat) + seq![0x20u8] + spec_dec(c.1 as nat) + seq![0x20u8] + spec_dec(c.2 as nat)
}

pub open spec fn rgba_arr(c: RGBA) -> Seq<u8> {
    spec_dec(c.0 as nat) + seq![0x20u8] + spec_dec(c.1 as nat) + seq![0x20u8] + spec_dec(c.2 as nat)
        + seq![0x20u8] + spec_dec(c.3 as nat)
}

/// Upper-case hexadecimal channels in reversed byte order, two digits each.
pub open spec fn rgb_hex(c: RGB) -> Seq<u8> {
    spec_hex_byte(c.2) + spec_hex_byte(c.1) + spec_hex_byte(c.0)
}

pub open spec fn rgba_hex(c: RGBA) -> Seq<u8> {
    spec_hex_byte(c.3) + spec_hex_byte(c.2) + spec_hex_byte(c.1) + spec_hex_byte(c.0)
}

impl RGB {
    /// Decode the low three bytes of a packed 0xRRGGBB value.
    pub fn from_value(value: u32) -> (r: Self)
        ensures
            r == rgb_of_value(value as int),
    {
        RGB(((value / 0x10000) % 0x100) as u8, ((value / 0x100) % 0x100) as u8, (value % 0x100) as u8)
    }

    pub fn value(&self) -> (r: u32)
        ensures
            r == rgb_value(*self),
    {
        (self.0 as u32) * 0x10000 + (self.1 as u32) * 0x100 + (self.2 as u32)
    }

    pub fn value_rev(&self) -> (r: u32)
        ensures
            r == rgb_value_rev(*self),
    {
        (self.2 as u32) * 0x10000 + (self.1 as u32) * 0x100 + (self.0 as u32)
    }

    pub fn arr(&self) -> (r: Vec<u8>)
        ensures
            r@ == rgb_arr(*self),
    {
        let mut v = dec_u32(self.0 as u32);
        v.push(0x20);
        let mut g = dec_u32(self.1 as u32);
        v.append(&mut g);
        v.push(0x20);
        let mut b = dec_u32(self.2 as u32);
        v.append(&mut b);
        assert(v@ =~= rgb_arr(*self));
        v
    }

    pub fn with_alpha(&self, alpha: u8) -> (r: RGBA)
        ensures
            r == RGBA(self.0, self.1, self.2, alpha),
    {
        RGBA(self.0, self.1, self.2, alpha)
    }

    pub fn add(&self, other: &Self) -> (r: Result<Self, ColorError>)
        ensures
            r == match rgb_add(*self, *other) {
                Some(c) => Result::<Self, ColorError>::Ok(c),
                None => Result::<Self, ColorError>::Err(ColorError::ArithmeticOverflow),
            },
    {
        match (self.0.checked_add(other.0), self.1.checked_add(other.1), self.2.checked_add(other.2)) {
            (Some(a), Some(b), Some(c)) => Ok(RGB(a, b, c)),
            _ => Err(ColorError::ArithmeticOverflow),
        }
    }

    pub fn sub(&self, other: &Self) -> (r: Result<Self, ColorError>)
        ensures
            r == match rgb_sub(*self, *other) {
                Some(c) => Result::<Self, ColorError>::Ok(c),
                None => Result::<Self, ColorError>::Err(ColorError::ArithmeticUnderflow),
            },
    {
        match (self.0.checked_sub(other.0), self.1.checked_sub(other.1), self.2.checked_sub(other.2)) {
            (Some(a), Some(b), Some(c)) => Ok(RGB(a, b, c)),
            _ => Err(ColorError::ArithmeticUnderflow),
        }
    }

    /// The reversed packed value shifted down by 0x1000000: the legacy
    /// encoding of a color with a toggle state.
    pub fn negative(&self) -> (r: i64)
        ensures
            r == rgb_value_rev(*self) - 0x1000000,
    {
        (self.value_rev() as i64) - 0x1000000
    }

    pub fn hex(&self) -> (r: Vec<u8>)
        ensures
            r@ == rgb_hex(*self),
    {
        let mut v = hex_byte(self.2);
        let mut m = hex_byte(self.1);
        v.append(&mut m);
        let mut l = hex_byte(self.0);
        v.append(&mut l);
        assert(v@ =~= rgb_hex(*self));
        v
    }
}

impl RGBA {
    /// Decode a packed 0xRRGGBBAA value.
    pub fn from_value(value: u32) -> (r: Self)
        ensures
            r == rgba_of_value(value as int),
    {
        RGBA(
            ((value / 0x1000000) % 0x100) as u8,
            ((value / 0x10000) % 0x100) as u8,
            ((value / 0x100) % 0x100) as u8,
            (value % 0x100) as u8,
        )
    }

    pub fn value(&self) -> (r: u32)
        ensures
            r == rgba_value(*self),
    {
        (self.0 as u32) * 0x1000000 + (self.1 as u32) * 0x10000 + (self.2 as u32) * 0x100
            + (self.3 as u32)
    }

    pub fn value_rev(&self) -> (r: u32)
        ensures
            r == rgba_value_rev(*self),
    {
        (self.3 as u32) * 0x1000000 + (self.2 as u32) * 0x10000 + (self.1 as u32) * 0x100
            + (self.0 as u32)
    }

    pub fn arr(&self) -> (r: Vec<u8>)
        ensures
            r@ == rgba_arr(*self),
    {
        let mut v = dec_u32(self.0 as u32);
        v.push(0x20);
        let mut g = dec_u32(self.1 as u32);
        v.append(&mut g);
        v.push(0x20);
        let mut b = dec_u32(self.2 as u32);
        v.append(&mut b);
        v.push(0x20);
        let mut a = dec_u32(self.3 as u32);
        v.append(&mut a);
        assert(v@ =~= rgba_arr(*self));
        v
    }

    pub fn with_alpha(&self, alpha: u8) -> (r: RGBA)
        ensures
            r == RGBA(self.0, self.1, self.2, alpha),
    {
        RGBA(self.0, self.1, self.2, alpha)
    }

    pub fn add(&self, other: &Self) -> (r: Result<Self, ColorError>)
        ensures
            r == match rgba_add(*self, *other) {
                Some(c) => Result::<Self, ColorError>::Ok(c),
                None => Result::<Self, ColorError>::Err(ColorError::ArithmeticOverflow),
            },
    {
        match (
            self.0.checked_add(other.0),
            self.1.checked_add(other.1),
            self.2.checked_add(other.2),
            self.3.checked_add(other.3),
        ) {
            (Some(a), Some(b), Some(c), Some(d)) => Ok(RGBA(a, b, c, d)),
            _ => Err(ColorError::ArithmeticOverflow),
        }
    }

    pub fn sub(&self, other: &Self) -> (r: Result<Self, ColorError>)
        ensures
            r == match rgba_sub(*self, *other) {
                Some(c) => Result::<Self, ColorError>::Ok(c),
                None => Result::<Self, ColorError>::Err(ColorError::ArithmeticUnderflow),
            },
    {
        match (
            self.0.checked_sub(other.0),
            self.1.checked_sub(other.1),
            self.2.checked_sub(other.2),
            self.3.checked_sub(other.3),
        ) {
            (Some(a), Some(b), Some(c), Some(d)) => Ok(RGBA(a, b, c, d)),
            _ => Err(ColorError::ArithmeticUnderflow),
        }
    }

    pub fn to_rgb(&self) -> (r: RGB)
        ensures
            r == RGB(self.0, self.1, self.2),
    {
        RGB(self.0, self.1, self.2)
    }

    pub fn hex(&self) -> (r: Vec<u8>)
        ensures
            r@ == rgba_hex(*self),
    {
        let mut v = hex_byte(self.3);
        let mut m = hex_byte(self.2);
        v.append(&mut m);
        let mut l = hex_byte(self.1);
        v.append(&mut l);
        let mut k = hex_byte(self.0);
        v.append(&mut k);
        assert(v@ =~= rgba_hex(*self));
        v
    }
}

#[derive(Debug, PartialEq, Eq, Clone, Structural)]
pub enum Color {
    RGB(RGB),
    RGBA(RGBA),
}

impl Color {
    /// A packed value at most 0xFFFFFF decodes as three channels, a larger
    /// one as four.
    pub fn from_value(value: u32) -> (r: Result<Self, ColorError>)
        ensures
            value <= 0xffffff ==> r == Result::<Self, ColorError>::Ok(
                Color::RGB(rgb_of_value(value as int)),
            ),
            value > 0xffffff ==> r == Result::<Self, ColorError>::Ok(
                Color::RGBA(rgba_of_value(value as int)),
            ),
    {
        if value <= 0xffffff {
            Self::new_with_channels(value, 3)
        } else {
            Self::new_with_channels(value, 4)
        }
    }

    /// Decode a packed value with an explicit channel count. Three channels
    /// refuse a value above 0xFFFFFF; counts outside 3 and 4 are invalid.
    pub fn new_with_channels(value: u32, channels: u8) -> (r: Result<Self, ColorError>)
        ensures
            r == if channels == 3 {
                if value <= 0xffffff {
                    Result::<Self, ColorError>::Ok(Color::RGB(rgb_of_value(value as int)))
                } else {
                    Result::<Self, ColorError>::Err(ColorError::ValueOutOfBounds(value, 3))
                }
            } else if channels == 4 {
                Result::<Self, ColorError>::Ok(Color::RGBA(rgba_of_value(value as int)))
            } else {
                Result::<Self, ColorError>::Err(ColorError::InvalidChannels(channels))
            },
    {
        match channels {
            3 => {
                if value <= 0xffffff {
                    Ok(Color::RGB(RGB::from_value(value)))
                } else {
                    Err(ColorError::ValueOutOfBounds(value, 3))
                }
            }
            4 => Ok(Color::RGBA(RGBA::from_value(value))),
            x => Err(ColorError::InvalidChannels(x)),
        }
    }

    /// `negative` of the 3-channel variant; an error on a 4-channel color.
    pub fn negative(&self) -> (r: Result<i64, ColorError>)
        ensures
            r == match *self {
                Color::RGB(c) => Result::<i64, ColorError>::Ok(
                    (rgb_value_rev(c) - 0x1000000) as i64,
                ),
                Color::RGBA(_) => Result::<i64, ColorError>::Err(ColorError::NegativeRgba),
            },
    {
        match self {
            Color::RGB(c) => Ok(c.negative()),
            Color::RGBA(_) => Err(ColorError::NegativeRgba),
        }
    }
}

pub open spec fn kw_normal() -> Seq<u8> {
    ascii_bytes("normal"@)
}

pub open spec fn kw_add() -> Seq<u8> {
    ascii_bytes("add"@)
}

pub open spec fn kw_dodge() -> Seq<u8> {
    ascii_bytes("dodge"@)
}

pub open spec fn kw_multiply() -> Seq<u8> {
    ascii_bytes("multiply"@)
}

pub open spec fn kw_overlay() -> Seq<u8> {
    ascii_bytes("overlay"@)
}

pub open spec fn kw_hsv() -> Seq<u8> {
    ascii_bytes("hsv"@)
}

fn kw_normal_vec() -> (r: Vec<u8>)
    ensures
        r@ == kw_normal(),
{
    proof {
        reveal_strlit("normal");
        assert(vstd::utf8::is_ascii_chars("normal"@));
    }
    str_bytes("normal")
}

fn kw_add_vec() -> (r: Vec<u8>)
    ensures
        r@ == kw_add(),
{
    proof {
        reveal_strlit("add");
        assert(vstd::utf8::is_ascii_chars("add"@));
    }
    str_bytes("add")
}

fn kw_dodge_vec() -> (r: Vec<u8>)
    ensures
        r@ == kw_dodge(),
{
    proof {
        reveal_strlit("dodge");
        assert(vstd::utf8::is_ascii_chars("dodge"@));
    }
    str_bytes("dodge")
}

fn kw_multiply_vec() -> (r: Vec<u8>)
    ensures
        r@ == kw_multiply(),
{
    proof {
        reveal_strlit("multiply");
        assert(vstd::utf8::is_ascii_chars("multiply"@));
    }
    str_bytes("multiply")
}

fn kw_overlay_vec() -> (r: Vec<u8>)
    ensures
        r@ == kw_overlay(),
{
    proof {
        reveal_strlit("overlay");
        assert(vstd::utf8::is_ascii_chars("overlay"@));
    }
    str_bytes("overlay")
}

fn kw_hsv_vec() -> (r: Vec<u8>)
    ensures
        r@ == kw_hsv(),
{
    proof {
        reveal_strlit("hsv");
        assert(vstd::utf8::is_ascii_chars("hsv"@));
    }
    str_bytes("hsv")
}

/// The fixed blend-mode table: the low byte of the packed bitfield.
pub open spec fn spec_blend_mode_code(mode: Seq<u8>) -> Option<u32> {
    if mode == kw_normal() {
        Some(0x00u32)
    } else if mode == kw_add() {
        Some(0x01u32)
    } else if mode == kw_dodge() {
        Some(0x02u32)
    } else if mode == kw_multiply() {
        Some(0x03u32)
    } else if mode == kw_overlay() {
        Some(0x04u32)
    } else if mode == kw_hsv() {
        Some(0xfeu32)
    } else {
        None
    }
}

/// The 18-bit blend bitfield: top bit set, the 8-bit fraction numerator in
/// the middle, the mode code in the low byte. The numerator is the fraction
/// quantized to x/256, so it is at most 256.
pub open spec fn spec_blend(mode: Seq<u8>, numerator: u32) -> Option<u32> {
    match spec_blend_mode_code(mode) {
        Some(code) => Some((0x20000 + numerator * 0x100 + code) as u32),
        None => None,
    }
}

/// Packs the blend bitfield from a mode name and a quantized fraction
/// numerator. An unknown mode is an error; the caller reports the list of
/// valid names.
pub fn blend_code(mode: &[u8], numerator: u32) -> (r: Result<u32, ColorError>)
    requires
        numerator <= 256,
    ensures
        r == match spec_blend(mode@, numerator) {
            Some(v) => Result::<u32, ColorError>::Ok(v),
            None => Result::<u32, ColorError>::Err(ColorError::UnknownBlendMode),
        },
{
    let k_normal = kw_normal_vec();
    let k_add = kw_add_vec();
    let k_dodge = kw_dodge_vec();
    let k_multiply = kw_multiply_vec();
    let k_overlay = kw_overlay_vec();
    let k_hsv = kw_hsv_vec();
    let code: u32 = if bytes_eq(mode, k_normal.as_slice()) {
        0x00
    } else if bytes_eq(mode, k_add.as_slice()) {
        0x01
    } else if bytes_eq(mode, k_dodge.as_slice()) {
        0x02
    } else if bytes_eq(mode, k_multiply.as_slice()) {
        0x03
    } else if bytes_eq(mode, k_overlay.as_slice()) {
        0x04
    } else if bytes_eq(mode, k_hsv.as_slice()) {
        0xfe
    } else {
        return Err(ColorError::UnknownBlendMode);
    };
    Ok(0x20000 + numerator * 0x100 + code)
}

/// For colors of equal channel count whose sum does not overflow,
/// subtracting one operand from the sum gives the other back.
pub proof fn lemma_rgb_add_sub(a: RGB, b: RGB)
    ensures
        rgb_add(a, b) matches Some(s) ==> rgb_sub(s, b) == Some(a),
{
}

/// The 4-channel form of the round-trip law for checked color arithmetic.
pub proof fn lemma_rgba_add_sub(a: RGBA, b: RGBA)
    ensures
        rgba_add(a, b) matches Some(s) ==> rgba_sub(s, b) == Some(a),
{
}

} // verus!

