use h3_world_geometry_generator::{quantize, quantize_component, Position, QuantScheme};

fn key_fine(v: f32) -> i64 {
    quantize_component(QuantScheme::Fine, v.to_bits())
}

fn key_coarse(v: f32) -> i64 {
    quantize_component(QuantScheme::Coarse, v.to_bits())
}

#[test]
fn fine_scheme_scales_by_1e9_and_truncates() {
    assert_eq!(key_fine(1.5), 1_500_000_000);
    assert_eq!(key_fine(-2.25), -2_250_000_000);
    assert_eq!(key_fine(10.0), 10_000_000_000);
    // 0.1f32 is exactly 13421773 * 2^-27 = 0.100000001490116...
    assert_eq!(key_fine(0.1), 100_000_001);
}

#[test]
fn coarse_scheme_scales_by_1e6() {
    assert_eq!(key_coarse(1.5), 1_500_000);
    assert_eq!(key_coarse(-2.25), -2_250_000);
    assert_eq!(key_coarse(0.1), 100_000);
}

#[test]
fn zero_and_tiny_values_quantize_to_zero() {
    assert_eq!(key_fine(0.0), 0);
    assert_eq!(key_fine(-0.0), 0);
    assert_eq!(key_fine(1.0e-10), 0);
    assert_eq!(key_fine(f32::from_bits(1)), 0); // smallest subnormal
    assert_eq!(key_coarse(1.0e-7), 0);
}

#[test]
fn out_of_range_values_saturate() {
    assert_eq!(key_fine(3.4e38), i64::MAX);
    assert_eq!(key_fine(-3.4e38), i64::MIN);
    assert_eq!(key_coarse(2200.0), 0x7fff_ffff);
    assert_eq!(key_coarse(-2200.0), -0x8000_0000);
}

#[test]
fn non_finite_values_land_on_the_range_ends() {
    assert_eq!(key_fine(f32::INFINITY), i64::MAX);
    assert_eq!(key_fine(f32::NEG_INFINITY), i64::MIN);
    assert_eq!(key_fine(f32::NAN), i64::MAX);
}

#[test]
fn quantize_is_componentwise() {
    let p = Position { x: 1.5f32.to_bits(), y: (-2.25f32).to_bits(), z: 0.0f32.to_bits() };
    let k = quantize(QuantScheme::Fine, &p);
    assert_eq!(k.x, 1_500_000_000);
    assert_eq!(k.y, -2_250_000_000);
    assert_eq!(k.z, 0);
}
