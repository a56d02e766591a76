use ply_splat::bbox::{
    bounding_box, higher_of, lower_of, BoundingBox, NEGATIVE_INFINITY, POSITIVE_INFINITY,
};

const VALUES: [f32; 16] = [
    0.0,
    -0.0,
    1.0,
    -1.0,
    0.5,
    -0.5,
    1.0e-40,
    -1.0e-40,
    3.4028235e38,
    -3.4028235e38,
    f32::INFINITY,
    f32::NEG_INFINITY,
    255.0,
    127.5,
    -2.5,
    1.17549435e-38,
];

fn bits(values: &[f32]) -> Vec<u32> {
    values.iter().map(|v| v.to_bits()).collect()
}

#[test]
fn infinities_have_their_bits() {
    assert_eq!(POSITIVE_INFINITY, f32::INFINITY.to_bits());
    assert_eq!(NEGATIVE_INFINITY, f32::NEG_INFINITY.to_bits());
}

#[test]
fn lower_and_higher_follow_the_order_of_the_numbers() {
    for a in VALUES {
        for b in VALUES {
            let low = f32::from_bits(lower_of(a.to_bits(), b.to_bits()));
            let high = f32::from_bits(higher_of(a.to_bits(), b.to_bits()));
            assert_eq!(low, a.min(b), "{} {}", a, b);
            assert_eq!(high, a.max(b), "{} {}", a, b);
            assert!(low <= a && low <= b && a <= high && b <= high);
        }
    }
}

#[test]
fn minus_zero_is_below_plus_zero() {
    assert_eq!(lower_of(0.0f32.to_bits(), (-0.0f32).to_bits()), (-0.0f32).to_bits());
    assert_eq!(lower_of((-0.0f32).to_bits(), 0.0f32.to_bits()), (-0.0f32).to_bits());
    assert_eq!(higher_of(0.0f32.to_bits(), (-0.0f32).to_bits()), 0.0f32.to_bits());
    assert_eq!(higher_of((-0.0f32).to_bits(), 0.0f32.to_bits()), 0.0f32.to_bits());
}

#[test]
fn values_that_write_no_number_give_way() {
    let nans = [f32::NAN.to_bits(), 0x7f80_0001, 0xffc0_0000, 0xffff_ffff];
    for n in nans {
        for v in VALUES {
            assert_eq!(lower_of(v.to_bits(), n), v.to_bits());
            assert_eq!(lower_of(n, v.to_bits()), v.to_bits());
            assert_eq!(higher_of(v.to_bits(), n), v.to_bits());
            assert_eq!(higher_of(n, v.to_bits()), v.to_bits());
        }
    }
}

#[test]
fn box_around_no_position() {
    let b = bounding_box(&Vec::new());
    assert_eq!(b, BoundingBox::empty());
    assert_eq!(f32::from_bits(b.min_x), f32::INFINITY);
    assert_eq!(f32::from_bits(b.max_z), f32::NEG_INFINITY);
    assert_eq!(bounding_box(&bits(&[1.0, 2.0])), BoundingBox::empty());
}

#[test]
fn box_around_some_positions() {
    let center = [1.0f32, -2.0, 3.0, -4.0, 5.0, 0.5, 0.25, 0.0, f32::NAN, 9.0];
    let b = bounding_box(&bits(&center));
    assert_eq!(f32::from_bits(b.min_x), -4.0);
    assert_eq!(f32::from_bits(b.min_y), -2.0);
    assert_eq!(f32::from_bits(b.min_z), 0.5);
    assert_eq!(f32::from_bits(b.max_x), 1.0);
    assert_eq!(f32::from_bits(b.max_y), 5.0);
    assert_eq!(f32::from_bits(b.max_z), 3.0);
}

#[test]
fn every_position_lies_in_the_box() {
    let center: Vec<f32> = (0..60).map(|i| ((i * 37 % 23) as f32 - 11.0) * 0.75).collect();
    let b = bounding_box(&bits(&center));
    let min = [f32::from_bits(b.min_x), f32::from_bits(b.min_y), f32::from_bits(b.min_z)];
    let max = [f32::from_bits(b.max_x), f32::from_bits(b.max_y), f32::from_bits(b.max_z)];
    for i in 0..20 {
        for k in 0..3 {
            assert!(min[k] <= center[3 * i + k] && center[3 * i + k] <= max[k]);
        }
    }
    for k in 0..3 {
        assert!(min[k] <= max[k]);
    }
}

#[test]
fn the_box_can_be_folded_in_parts() {
    let center: Vec<f32> = (0..30).map(|i| ((i * 41 % 17) as f32 - 8.0) * 1.5).collect();
    let whole = bounding_box(&bits(&center));
    for cut in [0, 3, 9, 15, 30] {
        let left = bounding_box(&bits(&center[..cut]));
        let right = bounding_box(&bits(&center[cut..]));
        assert_eq!(left.join(right), whole);
        assert_eq!(right.join(left), whole);
    }
    let mut step = BoundingBox::empty();
    for p in center.chunks(3) {
        step = step.grow(p[0].to_bits(), p[1].to_bits(), p[2].to_bits());
    }
    assert_eq!(step, whole);
}
