use rasterization_in_a_weekend::color::{black, blue, green, red, white, Color};
use rasterization_in_a_weekend::fixed::ONE;
use rasterization_in_a_weekend::image::Image;
use rasterization_in_a_weekend::sampler::{AddressMode, Filter, Sampler};
use rasterization_in_a_weekend::vector::vec2;

/// 2 by 2: white, red / green, blue.
fn checker() -> Image {
    Image::from_buffer(vec![0xFFFFFF, 0xFF0000, 0x00FF00, 0x0000FF], 2, 2)
}

#[test]
fn repeat_wraps_modulo_the_size() {
    let m = AddressMode::Repeat;
    assert_eq!(m.convert(0, 4), 0);
    assert_eq!(m.convert(3, 4), 3);
    assert_eq!(m.convert(4, 4), 0);
    assert_eq!(m.convert(9, 4), 1);
    assert_eq!(m.convert(-1, 4), 3);
    assert_eq!(m.convert(-4, 4), 0);
    assert_eq!(m.convert(-5, 4), 3);
}

#[test]
fn clamp_saturates_at_the_edges() {
    let m = AddressMode::Clamp;
    assert_eq!(m.convert(-1, 4), 0);
    assert_eq!(m.convert(-100, 4), 0);
    assert_eq!(m.convert(2, 4), 2);
    assert_eq!(m.convert(4, 4), 3);
    assert_eq!(m.convert(100, 4), 3);
}

#[test]
fn nearest_picks_the_texel_under_the_point() {
    let image = checker();
    let s = Sampler::new(AddressMode::Clamp, AddressMode::Clamp, Filter::Nearest);
    let z = vec2(0, 0);
    assert_eq!(s.sample(&image, vec2(ONE / 4, ONE / 4), z, z), white());
    assert_eq!(s.sample(&image, vec2(3 * ONE / 4, ONE / 4), z, z), red());
    assert_eq!(s.sample(&image, vec2(ONE / 4, 3 * ONE / 4), z, z), green());
    assert_eq!(s.sample(&image, vec2(3 * ONE / 4, 3 * ONE / 4), z, z), blue());
    // outside [0, 1): clamped to the last texel
    assert_eq!(s.sample(&image, vec2(2 * ONE, -ONE), z, z), red());
}

#[test]
fn nearest_with_repeat_wraps() {
    let image = checker();
    let s = Sampler::new(AddressMode::Repeat, AddressMode::Repeat, Filter::Nearest);
    let z = vec2(0, 0);
    // u = 1.25 wraps to texel 0, v = -0.25 wraps to texel 1
    assert_eq!(s.sample(&image, vec2(5 * ONE / 4, -ONE / 4), z, z), green());
}

#[test]
fn bilinear_blends_the_four_neighbours() {
    let image = checker();
    let s = Sampler::new(AddressMode::Clamp, AddressMode::Clamp, Filter::Linear);
    let z = vec2(0, 0);
    // at a texel center the texel itself comes back
    assert_eq!(s.sample(&image, vec2(ONE / 4, ONE / 4), z, z), white());
    // at the middle, an equal blend of all four
    let c = s.sample(&image, vec2(ONE / 2, ONE / 2), z, z);
    assert_eq!(c, Color { r: ONE / 2, g: ONE / 2, b: ONE / 2 });
    // half way between white and red
    let c = s.sample(&image, vec2(ONE / 2, ONE / 4), z, z);
    assert_eq!(c, Color { r: ONE, g: ONE / 2, b: ONE / 2 });
}

#[test]
fn anisotropic_averages_a_grid_over_the_footprint() {
    let image = Image::from_buffer(vec![0xFFFFFF, 0x000000, 0xFFFFFF, 0x000000], 4, 1);
    let s = Sampler::new(AddressMode::Repeat, AddressMode::Clamp, Filter::Anisotropic(4));
    let uv = vec2(ONE / 8, ONE / 2);
    // no footprint: a single bilinear sample at the point
    let z = vec2(0, 0);
    assert_eq!(s.sample(&image, uv, z, z), white());
    // two texels wide along x: samples at texel 0 and texel 1 centers
    let c = s.sample(&image, uv, vec2(ONE / 2, 0), z);
    assert_eq!(c, Color { r: ONE / 2, g: ONE / 2, b: ONE / 2 });
}

#[test]
fn anisotropic_footprint_is_capped_by_the_level() {
    let image = Image::from_buffer(vec![0xFFFFFF, 0x000000, 0x000000, 0x000000], 4, 1);
    let uv = vec2(ONE / 8, ONE / 2);
    // level 0: one texel wide, a single bilinear sample half way between
    // texel 3 (wrapped) and texel 0
    let s = Sampler::new(AddressMode::Repeat, AddressMode::Clamp, Filter::Anisotropic(0));
    let c = s.sample(&image, uv, vec2(ONE, 0), vec2(0, 0));
    assert_eq!(c, Color { r: ONE / 2, g: ONE / 2, b: ONE / 2 });
    // level 4: the full four texels of the footprint
    let s = Sampler::new(AddressMode::Repeat, AddressMode::Clamp, Filter::Anisotropic(4));
    let c = s.sample(&image, uv, vec2(ONE, 0), vec2(0, 0));
    assert_eq!(c, Color { r: ONE / 4, g: ONE / 4, b: ONE / 4 });
    let s = Sampler::new(AddressMode::Repeat, AddressMode::Clamp, Filter::Nearest);
    assert_eq!(s.sample(&image, vec2(3 * ONE / 8, 0), vec2(0, 0), vec2(0, 0)), black());
}

#[test]
fn repeat_and_clamp_accept_any_index_and_large_sizes() {
    assert_eq!(AddressMode::Repeat.convert(i64::MIN, 3), (i64::MIN).rem_euclid(3) as usize);
    assert_eq!(AddressMode::Repeat.convert(i64::MAX, 1 << 40), (i64::MAX % (1 << 40)) as usize);
    assert_eq!(AddressMode::Clamp.convert(i64::MIN, 5), 0);
    assert_eq!(AddressMode::Clamp.convert(1 << 50, 1 << 40), (1 << 40) - 1);
    for src in -20i64..20 {
        assert_eq!(AddressMode::Repeat.convert(src + 7 * 4, 4), AddressMode::Repeat.convert(src, 4));
    }
}

#[test]
fn nearest_repeat_is_periodic_in_whole_textures() {
    let image = checker();
    let s = Sampler::new(AddressMode::Repeat, AddressMode::Repeat, Filter::Nearest);
    let z = vec2(0, 0);
    for (u, v) in [(ONE / 4, ONE / 4), (3 * ONE / 4, ONE / 8), (ONE / 3, 5 * ONE / 7)] {
        let base = s.sample(&image, vec2(u, v), z, z);
        assert_eq!(s.sample(&image, vec2(u + 3 * ONE, v - 2 * ONE), z, z), base);
        assert_eq!(s.sample(&image, vec2(u - ONE, v + ONE), z, z), base);
    }
}
