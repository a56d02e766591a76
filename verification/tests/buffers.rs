use ply_splat::{PlyFormat, SplatPlyBuffersCore, SplatValues};

fn splat(x: f32, y: f32, z: f32, seed: u32) -> SplatValues {
    SplatValues {
        x: x.to_bits(),
        y: y.to_bits(),
        z: z.to_bits(),
        m11: seed,
        m12: seed + 1,
        m13: seed + 2,
        m22: seed + 3,
        m23: seed + 4,
        m33: seed + 5,
        r: 1,
        g: 2,
        b: 3,
        a: seed,
    }
}

fn floats(bits: [u32; 3]) -> [f32; 3] {
    bits.map(f32::from_bits)
}

#[test]
fn buffers_without_a_splat() {
    let out = SplatPlyBuffersCore::new(PlyFormat::Ascii);
    assert_eq!(out.count(), 0);
    assert_eq!(out.format(), PlyFormat::Ascii);
    assert!(out.center().is_empty());
    assert!(out.covariance().is_empty());
    assert!(out.rgba().is_empty());
    assert_eq!(floats(out.bbox_min()), [f32::INFINITY; 3]);
    assert_eq!(floats(out.bbox_max()), [f32::NEG_INFINITY; 3]);
}

#[test]
fn buffers_grow_by_three_six_and_one() {
    let mut out = SplatPlyBuffersCore::new(PlyFormat::BinaryLittleEndian);
    for n in 1..=10u32 {
        out = out.push(splat(n as f32, -(n as f32), 0.5, 10 * n));
        assert_eq!(out.count(), n);
        assert_eq!(out.center().len(), 3 * n as usize);
        assert_eq!(out.covariance().len(), 6 * n as usize);
        assert_eq!(out.rgba().len(), n as usize);
    }
    assert_eq!(out.format(), PlyFormat::BinaryLittleEndian);
    assert_eq!(&out.center()[3..6], &[2.0f32.to_bits(), (-2.0f32).to_bits(), 0.5f32.to_bits()]);
    assert_eq!(&out.covariance()[6..12], &[20, 21, 22, 23, 24, 25]);
    assert_eq!(out.rgba()[1], 0x1403_0201);
}

#[test]
fn the_box_follows_the_positions() {
    let mut out = SplatPlyBuffersCore::new(PlyFormat::Ascii);
    out = out.push(splat(1.0, 2.0, 3.0, 0));
    assert_eq!(floats(out.bbox_min()), [1.0, 2.0, 3.0]);
    assert_eq!(floats(out.bbox_max()), [1.0, 2.0, 3.0]);
    out = out.push(splat(-1.0, 5.0, f32::NAN, 0));
    assert_eq!(floats(out.bbox_min()), [-1.0, 2.0, 3.0]);
    assert_eq!(floats(out.bbox_max()), [1.0, 5.0, 3.0]);
    out = out.push(splat(0.0, 0.0, 0.0, 0));
    assert_eq!(floats(out.bbox_min()), [-1.0, 0.0, 0.0]);
    assert_eq!(floats(out.bbox_max()), [1.0, 5.0, 3.0]);
    let center: Vec<f32> = out.center().iter().map(|b| f32::from_bits(*b)).collect();
    let (min, max) = (floats(out.bbox_min()), floats(out.bbox_max()));
    for i in 0..3 {
        for k in 0..3 {
            let c = center[3 * i + k];
            if !c.is_nan() {
                assert!(min[k] <= c && c <= max[k]);
            }
        }
    }
}
