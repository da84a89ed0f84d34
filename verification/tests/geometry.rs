use ecosim::geom::clamp;
use ecosim::geom::cos_milli;
use ecosim::geom::damp;
use ecosim::geom::dist2_exec;
use ecosim::geom::isqrt;
use ecosim::geom::mul_div1000;
use ecosim::geom::scale_dir;
use ecosim::geom::sin_milli;
use ecosim::geom::vec_len;
use ecosim::geom::wrap;
use ecosim::geom::PI_MRAD;
use ecosim::geom::QUARTER_MRAD;

#[test]
fn isqrt_exact_values() {
    assert_eq!(isqrt(0), 0);
    assert_eq!(isqrt(1), 1);
    assert_eq!(isqrt(3), 1);
    assert_eq!(isqrt(4), 2);
    assert_eq!(isqrt(99), 9);
    assert_eq!(isqrt(100), 10);
    assert_eq!(isqrt(1_000_000_000_000), 1_000_000);
    assert_eq!(isqrt(i64::MAX), 3_037_000_499);
}

#[test]
fn wrap_into_world() {
    assert_eq!(wrap(-5, 10), 5);
    assert_eq!(wrap(13, 10), 3);
    assert_eq!(wrap(0, 10), 0);
    assert_eq!(wrap(9, 10), 9);
    assert_eq!(wrap(10, 10), 0);
}

#[test]
fn clamp_into_interval() {
    assert_eq!(clamp(-7, -2, 3), -2);
    assert_eq!(clamp(5, -2, 3), 3);
    assert_eq!(clamp(1, -2, 3), 1);
}

#[test]
fn squared_distance() {
    assert_eq!(dist2_exec((3, 4), (0, 0)), 25);
    assert_eq!(dist2_exec((0, 0), (3, 4)), 25);
    assert_eq!(dist2_exec((10, 10), (10, 10)), 0);
    assert_eq!(vec_len(3, 4), 5);
    assert_eq!(vec_len(-3, -4), 5);
    assert_eq!(vec_len(0, 0), 0);
}

#[test]
fn sine_and_cosine_millis() {
    assert_eq!(sin_milli(0), 0);
    assert_eq!(sin_milli(QUARTER_MRAD), 999);
    assert_eq!(sin_milli(PI_MRAD), 0);
    assert_eq!(sin_milli(PI_MRAD + QUARTER_MRAD), -999);
    assert_eq!(cos_milli(0), 999);
    for t in 0..6282 {
        let s = sin_milli(t);
        let c = cos_milli(t);
        assert!((-1000..=1000).contains(&s));
        assert!((-1000..=1000).contains(&c));
    }
}

#[test]
fn damping_and_scaling() {
    assert_eq!(damp(100), 90);
    assert_eq!(damp(-100), -90);
    assert_eq!(damp(0), 0);
    assert_eq!(mul_div1000(999, 400), 399);
    assert_eq!(mul_div1000(-999, 400), -399);
    assert_eq!(scale_dir(-10_000, 200, 10_000), -200);
    assert_eq!(scale_dir(5_000, 200, 10_000), 100);
}
