//! Value types, fixed-point arithmetic, parameter cells and the sink
//! writer.

use mini_graph::bang::Bang;
use mini_graph::buffer::{Buffer, Frame};
use mini_graph::fx::{clamp64, delerp, fx_mul_clamp_unit, fx_mul_unit, lerp, FX_HALF, FX_ONE};
use mini_graph::params::{ParamBool, ParamFx, ParamU32};
use mini_graph::stream::write_data;

#[test]
fn silent_buffer_is_all_zero() {
    let b = Buffer::silent(16);
    assert_eq!(b.len(), 16);
    for i in 0..16 {
        assert_eq!(b.get(i), 0);
    }
}

#[test]
fn silent_frame_is_all_zero() {
    let f = Frame::silent(2, 8);
    assert_eq!(f.num_channels(), 2);
    assert_eq!(f.num_samples(), 8);
    for c in 0..2 {
        for n in 0..8 {
            assert_eq!(f.get(c, n), 0);
        }
    }
}

#[test]
fn buffer_set_get_roundtrip() {
    let mut b = Buffer::silent(4);
    b.set(2, -7);
    assert_eq!(b.get(2), -7);
    assert_eq!(b.get(1), 0);
}

#[test]
fn frame_copy_matches_source() {
    let mut src = Frame::silent(1, 3);
    src.set(0, 0, 5);
    src.set(0, 2, -9);
    let mut dst = Frame::silent(1, 3);
    dst.copy_from(&src);
    assert_eq!(dst.get(0, 0), 5);
    assert_eq!(dst.get(0, 1), 0);
    assert_eq!(dst.get(0, 2), -9);
}

#[test]
fn default_bang_is_empty() {
    let b: Bang = Default::default();
    assert_eq!(b, Bang::Empty);
}

#[test]
fn fixed_point_products() {
    // 0.5 * 0.5 == 0.25
    assert_eq!(fx_mul_unit(FX_HALF, FX_HALF), FX_ONE / 4);
    // 1.0 * x == x
    assert_eq!(fx_mul_unit(FX_ONE, 12345), 12345);
    // truncation toward zero on both signs
    assert_eq!(fx_mul_unit(FX_HALF, 3), 1);
    assert_eq!(fx_mul_unit(FX_HALF, -3), -1);
}

#[test]
fn clamped_product_saturates() {
    // 2.0 * 1.0 clamps to 1.0
    assert_eq!(fx_mul_clamp_unit(2 * FX_ONE, FX_ONE), FX_ONE);
    assert_eq!(fx_mul_clamp_unit(2 * FX_ONE, -FX_ONE), -FX_ONE);
    assert_eq!(fx_mul_clamp_unit(FX_HALF, FX_HALF), FX_ONE / 4);
}

#[test]
fn clamp_limits_both_sides() {
    assert_eq!(clamp64(5, -3, 3), 3);
    assert_eq!(clamp64(-5, -3, 3), -3);
    assert_eq!(clamp64(2, -3, 3), 2);
}

#[test]
fn lerp_interpolates_and_extrapolates() {
    assert_eq!(lerp(0, FX_ONE, FX_HALF), FX_HALF);
    assert_eq!(lerp(FX_ONE, FX_ONE, FX_HALF), FX_ONE);
    assert_eq!(lerp(0, FX_ONE, 0), 0);
    assert_eq!(lerp(0, FX_ONE, FX_ONE), FX_ONE);
    // lerp(1, 0.5, 0.5) == 0.75
    assert_eq!(lerp(FX_ONE, FX_HALF, FX_HALF), FX_ONE - FX_ONE / 4);
    // extrapolation beyond both ends of the unit interval
    assert_eq!(lerp(0, FX_ONE, 2 * FX_ONE), 2 * FX_ONE);
    assert_eq!(lerp(0, FX_ONE, -FX_ONE), -FX_ONE);
    assert_eq!(lerp(FX_HALF, FX_ONE, -2 * FX_ONE), -FX_HALF);
}

#[test]
fn delerp_inverts_lerp() {
    assert_eq!(delerp(0, FX_ONE, FX_HALF), FX_HALF);
    assert_eq!(delerp(FX_ONE, 3 * FX_ONE, 2 * FX_ONE), FX_HALF);
}

#[test]
fn param_bool_store_and_get() {
    let p = ParamBool::new(false);
    assert!(!p.get());
    p.store(true);
    assert!(p.get());
    let q = p.clone();
    q.store(false);
    assert!(!p.get());
}

#[test]
fn param_u32_store_and_get() {
    let p = ParamU32::new(7);
    assert_eq!(p.get(), 7);
    p.store(42);
    assert_eq!(p.get(), 42);
}

#[test]
fn param_fx_store_get_add() {
    let p = ParamFx::new(FX_HALF);
    assert_eq!(p.get(), FX_HALF);
    p.store(-FX_ONE);
    assert_eq!(p.get(), -FX_ONE);
    let updated = p.fetch_add(FX_HALF);
    assert_eq!(updated, -FX_HALF);
    assert_eq!(p.get(), -FX_HALF);
}

#[test]
fn write_data_interleaves_channels() {
    let mut f = Frame::silent(2, 3);
    // channel 0: 1, 2, 3; channel 1: 10, 20, 30
    f.set(0, 0, 1);
    f.set(0, 1, 2);
    f.set(0, 2, 3);
    f.set(1, 0, 10);
    f.set(1, 1, 20);
    f.set(1, 2, 30);
    let mut out = vec![0i64; 6];
    write_data(&f, &mut out);
    assert_eq!(out, vec![1, 10, 2, 20, 3, 30]);
}
