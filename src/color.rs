//! Colors as fixed-point RGB triples, and their packed 24-bit form
//! `0xRRGGBB`.
use vstd::prelude::*;

use crate::fixed::{clamp_i64, clamp_spec, ONE};

verus! {

/// An RGB color; each channel is a fixed-point value where `ONE` is full
/// intensity. Channels outside `[0, ONE]` are allowed and are clamped when
/// the color is packed.
#[derive(Debug, Clone, Copy, PartialEq, Eq, Structural)]
pub struct Color {
    pub r: i64,
    pub g: i64,
    pub b: i64,
}

pub fn black() -> (c: Color)
    ensures
        c == (Color { r: 0, g: 0, b: 0 }),
{
    Color { r: 0, g: 0, b: 0 }
}

pub fn white() -> (c: Color)
    ensures
        c == (Color { r: ONE, g: ONE, b: ONE }),
{
    Color { r: ONE, g: ONE, b: ONE }
}

pub fn red() -> (c: Color)
    ensures
        c == (Color { r: ONE, g: 0, b: 0 }),
{
    Color { r: ONE, g: 0, b: 0 }
}

pub fn green() -> (c: Color)
    ensures
        c == (Color { r: 0, g: ONE, b: 0 }),
{
    Color { r: 0, g: ONE, b: 0 }
}

pub fn blue() -> (c: Color)
    ensures
        c == (Color { r: 0, g: 0, b: ONE }),
{
    Color { r: 0, g: 0, b: ONE }
}

/// The 8-bit value of a channel: `round(clamp(c, 0, 1) * 255)`.
pub open spec fn channel_to_byte(c: int) -> int {
    (clamp_spec(c, 0, ONE as int) * 255 + ONE / 2) / (ONE as int)
}

/// The channel value of an 8-bit value: `round(k / 255)` in fixed point.
pub open spec fn byte_to_channel(k: int) -> int {
    (k * ONE + 127) / 255
}

/// `(r << 16) | (g << 8) | b` for bytes `r`, `g`, `b`.
pub open spec fn pack(r: int, g: int, b: int) -> int {
    r * 65536 + g * 256 + b
}

pub open spec fn red_byte(raw: int) -> int {
    (raw / 65536) % 256
}

pub open spec fn green_byte(raw: int) -> int {
    (raw / 256) % 256
}

pub open spec fn blue_byte(raw: int) -> int {
    raw % 256
}

/// The packed form of `c`.
pub open spec fn to_raw_spec(c: Color) -> int {
    pack(channel_to_byte(c.r as int), channel_to_byte(c.g as int), channel_to_byte(c.b as int))
}

/// The color of a packed value; bits above the lowest 24 are ignored.
pub open spec fn from_raw_spec(raw: int) -> Color {
    Color {
        r: byte_to_channel(red_byte(raw)) as i64,
        g: byte_to_channel(green_byte(raw)) as i64,
        b: byte_to_channel(blue_byte(raw)) as i64,
    }
}

proof fn lemma_channel_to_byte_range(c: int)
    ensures
        0 <= channel_to_byte(c) <= 255,
{
    let k = clamp_spec(c, 0, ONE as int);
    assert(0 <= (k * 255 + 32768) / 65536 <= 255);
}

fn channel_to_byte_exec(c: i64) -> (r: u32)
    ensures
        r == channel_to_byte(c as int),
        r <= 255,
{
    proof {
        lemma_channel_to_byte_range(c as int);
    }
    let k = clamp_i64(c, 0, ONE);
    ((k * 255 + ONE / 2) / ONE) as u32
}

fn byte_to_channel_exec(k: u32) -> (r: i64)
    requires
        k <= 255,
    ensures
        r == byte_to_channel(k as int),
        0 <= r <= ONE,
{
    ((k as i64) * ONE + 127) / 255
}

/// Packs `color` into `0xRRGGBB`, each channel rounded from its clamped value.
pub fn to_raw_color(color: Color) -> (r: u32)
    ensures
        r == to_raw_spec(color),
        r < 0x1000000,
{
    let r = channel_to_byte_exec(color.r);
    let g = channel_to_byte_exec(color.g);
    let b = channel_to_byte_exec(color.b);
    r * 65536 + g * 256 + b
}

/// Unpacks `0xRRGGBB` (the top byte is ignored) into a color whose channels
/// lie in `[0, ONE]`.
pub fn from_raw_color(raw: u32) -> (r: Color)
    ensures
        r == from_raw_spec(raw as int),
        0 <= r.r <= ONE,
        0 <= r.g <= ONE,
        0 <= r.b <= ONE,
{
    Color {
        r: byte_to_channel_exec((raw / 65536) % 256),
        g: byte_to_channel_exec((raw / 256) % 256),
        b: byte_to_channel_exec(raw % 256),
    }
}

proof fn lemma_byte_round_trip(k: int)
    requires
        0 <= k <= 255,
    ensures
        channel_to_byte(byte_to_channel(k)) == k,
{
    let c = byte_to_channel(k);
    assert(0 <= c <= ONE) by (nonlinear_arith)
        requires c == (k * 65536 + 127) / 255, 0 <= k <= 255;
    assert((c * 255 + 32768) / 65536 == k) by (nonlinear_arith)
        requires c == (k * 65536 + 127) / 255, 0 <= k <= 255;
}

/// Packing the color of a packed value gives that value back.
pub proof fn lemma_raw_round_trip(raw: int)
    requires
        0 <= raw < 0x1000000,
    ensures
        to_raw_spec(from_raw_spec(raw)) == raw,
{
    let c = from_raw_spec(raw);
    lemma_byte_round_trip(red_byte(raw));
    lemma_byte_round_trip(green_byte(raw));
    lemma_byte_round_trip(blue_byte(raw));
    assert(red_byte(raw) * 65536 + green_byte(raw) * 256 + blue_byte(raw) == raw);
}

/// A color whose channels are each either 0 or `ONE` comes back unchanged
/// from its packed form.
pub proof fn lemma_pure_color_round_trip(c: Color)
    requires
        c.r == 0 || c.r == ONE,
        c.g == 0 || c.g == ONE,
        c.b == 0 || c.b == ONE,
    ensures
        from_raw_spec(to_raw_spec(c)) == c,
{
}

/// Unpacking a packed color moves each channel by at most one quantization
/// step (`ONE / 255`) from its clamped value.
pub proof fn lemma_color_round_trip_error(c: Color)
    ensures
        (from_raw_spec(to_raw_spec(c)).r - clamp_spec(c.r as int, 0, ONE as int)) * 255 <= ONE,
        (clamp_spec(c.r as int, 0, ONE as int) - from_raw_spec(to_raw_spec(c)).r) * 255 <= ONE,
        (from_raw_spec(to_raw_spec(c)).g - clamp_spec(c.g as int, 0, ONE as int)) * 255 <= ONE,
        (clamp_spec(c.g as int, 0, ONE as int) - from_raw_spec(to_raw_spec(c)).g) * 255 <= ONE,
        (from_raw_spec(to_raw_spec(c)).b - clamp_spec(c.b as int, 0, ONE as int)) * 255 <= ONE,
        (clamp_spec(c.b as int, 0, ONE as int) - from_raw_spec(to_raw_spec(c)).b) * 255 <= ONE,
{
    lemma_channel_error(c.r as int);
    lemma_channel_error(c.g as int);
    lemma_channel_error(c.b as int);
    let rr = channel_to_byte(c.r as int);
    let gg = channel_to_byte(c.g as int);
    let bb = channel_to_byte(c.b as int);
    lemma_channel_to_byte_range(c.r as int);
    lemma_channel_to_byte_range(c.g as int);
    lemma_channel_to_byte_range(c.b as int);
    let raw = pack(rr, gg, bb);
    assert(red_byte(raw) == rr);
    assert(green_byte(raw) == gg);
    assert(blue_byte(raw) == bb);
}

proof fn lemma_channel_error(c: int)
    ensures
        (byte_to_channel(channel_to_byte(c)) - clamp_spec(c, 0, ONE as int)) * 255 <= ONE,
        (clamp_spec(c, 0, ONE as int) - byte_to_channel(channel_to_byte(c))) * 255 <= ONE,
{
    let x = clamp_spec(c, 0, ONE as int);
    let k = channel_to_byte(c);
    let y = byte_to_channel(k);
    assert((y - x) * 255 <= 65536 && (x - y) * 255 <= 65536) by (nonlinear_arith)
        requires
            0 <= x <= 65536,
            k == (x * 255 + 32768) / 65536,
            y == (k * 65536 + 127) / 255;
}

} // verus!
