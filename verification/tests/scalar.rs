use caracol::geometry::scalar::{Scalar, ONE_RAW};

fn raw(v: i64) -> Scalar {
    Scalar::from_raw(v)
}

fn fx(v: f64) -> Scalar {
    Scalar::from_raw((v * 4294967296.0).round() as i64)
}

#[test]
fn scalar_constants() {
    assert_eq!(ONE_RAW, 1i64 << 32);
    assert_eq!(Scalar::zero().raw, 0);
    assert_eq!(Scalar::one().raw, 1i64 << 32);
    assert_eq!(Scalar::infinity().raw, i64::MAX);
    assert_eq!(Scalar::neg_infinity().raw, i64::MIN);
}

#[test]
fn scalar_from_int_scales_by_two_to_the_32() {
    assert_eq!(Scalar::from_int(3).raw, 3i64 << 32);
    assert_eq!(Scalar::from_int(-7).raw, -(7i64 << 32));
    assert_eq!(Scalar::from_int(0).raw, 0);
    assert_eq!(Scalar::from_int(i32::MAX).raw, (i32::MAX as i64) << 32);
    assert_eq!(Scalar::from_int(i32::MIN).raw, i64::MIN);
}

#[test]
fn scalar_from_count_saturates() {
    assert_eq!(Scalar::from_count(0).raw, 0);
    assert_eq!(Scalar::from_count(5).raw, 5i64 << 32);
    assert_eq!(Scalar::from_count(0x7fff_ffff).raw, 0x7fff_ffffi64 << 32);
    assert_eq!(Scalar::from_count(0x8000_0000).raw, i64::MAX);
    assert_eq!(Scalar::from_count(usize::MAX).raw, i64::MAX);
}

#[test]
fn scalar_from_ratio_rounds_toward_zero() {
    assert_eq!(Scalar::from_ratio(6, 10).raw, 2576980377);
    assert_eq!(Scalar::from_ratio(-6, 10).raw, -2576980377);
    assert_eq!(Scalar::from_ratio(6, -10).raw, -2576980377);
    assert_eq!(Scalar::from_ratio(-6, -10).raw, 2576980377);
    assert_eq!(Scalar::from_ratio(1, 2).raw, 1i64 << 31);
    assert_eq!(Scalar::from_ratio(0, 5).raw, 0);
}

#[test]
fn scalar_from_ratio_by_zero_saturates_by_sign() {
    assert_eq!(Scalar::from_ratio(1, 0).raw, i64::MAX);
    assert_eq!(Scalar::from_ratio(-1, 0).raw, i64::MIN);
    assert_eq!(Scalar::from_ratio(0, 0).raw, 0);
}

#[test]
fn scalar_from_ratio_saturates() {
    assert_eq!(Scalar::from_ratio(i64::MAX, 1).raw, i64::MAX);
    assert_eq!(Scalar::from_ratio(i64::MIN, 1).raw, i64::MIN);
    assert_eq!(Scalar::from_ratio(i64::MIN, -1).raw, i64::MAX);
    assert_eq!(Scalar::from_ratio(1i64 << 31, 1).raw, i64::MAX);
    assert_eq!(Scalar::from_ratio((1i64 << 31) - 1, 1).raw, ((1i64 << 31) - 1) << 32);
}

#[test]
fn scalar_add_and_sub() {
    assert_eq!(fx(1.5).add(fx(2.25)), fx(3.75));
    assert_eq!(fx(1.5).sub(fx(2.25)), fx(-0.75));
    assert_eq!(raw(i64::MAX).add(raw(1)).raw, i64::MAX);
    assert_eq!(raw(i64::MIN).add(raw(-1)).raw, i64::MIN);
    assert_eq!(raw(i64::MIN).sub(raw(1)).raw, i64::MIN);
    assert_eq!(raw(i64::MAX).sub(raw(-1)).raw, i64::MAX);
    assert_eq!(raw(i64::MAX).sub(raw(i64::MAX)).raw, 0);
}

#[test]
fn scalar_neg_and_abs() {
    assert_eq!(fx(1.5).neg(), fx(-1.5));
    assert_eq!(fx(-1.5).neg(), fx(1.5));
    assert_eq!(raw(i64::MIN).neg().raw, i64::MAX);
    assert_eq!(raw(i64::MAX).neg().raw, -i64::MAX);
    assert_eq!(fx(-2.5).abs(), fx(2.5));
    assert_eq!(fx(2.5).abs(), fx(2.5));
    assert_eq!(raw(i64::MIN).abs().raw, i64::MAX);
}

#[test]
fn scalar_mul_is_exact_on_dyadic_fractions() {
    assert_eq!(fx(1.5).mul(fx(2.5)), fx(3.75));
    assert_eq!(fx(-1.5).mul(fx(2.5)), fx(-3.75));
    assert_eq!(fx(1.5).mul(fx(-2.5)), fx(-3.75));
    assert_eq!(fx(-1.5).mul(fx(-2.5)), fx(3.75));
    assert_eq!(fx(123.0).mul(Scalar::zero()), Scalar::zero());
    assert_eq!(fx(123.25).mul(Scalar::one()), fx(123.25));
}

#[test]
fn scalar_mul_rounds_toward_zero() {
    assert_eq!(raw(1).mul(raw(1)).raw, 0);
    assert_eq!(raw(3).mul(fx(0.5)).raw, 1);
    assert_eq!(raw(-3).mul(fx(0.5)).raw, -1);
    assert_eq!(raw(-1).mul(raw(1)).raw, 0);
}

#[test]
fn scalar_mul_saturates() {
    assert_eq!(fx(65536.0).mul(fx(65536.0)).raw, i64::MAX);
    assert_eq!(fx(-65536.0).mul(fx(65536.0)).raw, i64::MIN);
    assert_eq!(raw(i64::MIN).mul(raw(i64::MIN)).raw, i64::MAX);
    assert_eq!(fx(46340.0).mul(fx(46340.0)), fx(2147395600.0));
}

#[test]
fn scalar_div() {
    assert_eq!(Scalar::one().div(fx(3.0)).raw, 1431655765);
    assert_eq!(Scalar::one().neg().div(fx(3.0)).raw, -1431655765);
    assert_eq!(fx(3.75).div(fx(2.5)), fx(1.5));
    assert_eq!(fx(3.75).div(fx(-2.5)), fx(-1.5));
    assert_eq!(fx(1.0).div(Scalar::zero()).raw, i64::MAX);
    assert_eq!(fx(-1.0).div(Scalar::zero()).raw, i64::MIN);
    assert_eq!(Scalar::zero().div(Scalar::zero()).raw, 0);
    assert_eq!(fx(1000.0).div(raw(1)).raw, i64::MAX);
}

#[test]
fn scalar_sqrt_rounds_down() {
    assert_eq!(fx(4.0).sqrt(), fx(2.0));
    assert_eq!(fx(2.25).sqrt(), fx(1.5));
    assert_eq!(fx(2.0).sqrt().raw, 6074000999);
    assert_eq!(Scalar::one().sqrt(), Scalar::one());
    assert_eq!(Scalar::zero().sqrt(), Scalar::zero());
    assert_eq!(fx(-4.0).sqrt(), Scalar::zero());
    assert_eq!(raw(1).sqrt().raw, 65536);
    assert_eq!(raw(i64::MAX).sqrt().raw, 199032864766430);
}

#[test]
fn scalar_sqrt_brackets_its_argument() {
    let mut v: i64 = 1;
    while v < i64::MAX / 7 {
        let r = Scalar::from_raw(v).sqrt().raw as i128;
        let n = (v as i128) << 32;
        assert!(r * r <= n && n < (r + 1) * (r + 1));
        v = v * 7 + 3;
    }
}

#[test]
fn scalar_min_max_clamp() {
    assert_eq!(fx(1.0).min(fx(2.0)), fx(1.0));
    assert_eq!(fx(1.0).max(fx(2.0)), fx(2.0));
    assert_eq!(fx(-1.0).min(fx(-2.0)), fx(-2.0));
    assert_eq!(fx(0.5).clamp(Scalar::zero(), Scalar::one()), fx(0.5));
    assert_eq!(fx(1.5).clamp(Scalar::zero(), Scalar::one()), Scalar::one());
    assert_eq!(fx(-0.5).clamp(Scalar::zero(), Scalar::one()), Scalar::zero());
}
