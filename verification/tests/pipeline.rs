use ply_splat::channel::{clamp255, scales_channels};
use ply_splat::{
    decode_splat_ply, PlyError, RawColor, RawScalar, RawSplat, RawSplats, SplatPlyBuffersCore,
    SplatValues,
};

// The arithmetic on floating values is the caller's part; these tests do it
// the way a caller does, between the decoder and the buffers.

fn value(raw: &RawSplats, field: RawScalar) -> f32 {
    match field {
        RawScalar::Int(v) => v as f64 as f32,
        RawScalar::Single(bits) => f32::from_bits(bits),
        RawScalar::Double(bits) => f64::from_bits(bits) as f32,
        RawScalar::Text(span) => {
            let token: String = raw.text[span.start..span.end].iter().collect();
            token.parse::<f32>().unwrap()
        }
    }
}

fn sigmoid(x: f32) -> f32 {
    if x >= 0.0 {
        1.0 / (1.0 + (-x).exp())
    } else {
        let z = x.exp();
        z / (1.0 + z)
    }
}

fn covariance(q: [f32; 4], s: [f32; 3]) -> [f32; 6] {
    let len = (q[0] * q[0] + q[1] * q[1] + q[2] * q[2] + q[3] * q[3]).sqrt();
    let inv = if len > 0.0 { 1.0 / len } else { 1.0 };
    let (x, y, z, w) = (q[0] * inv, q[1] * inv, q[2] * inv, q[3] * inv);
    let c0 = [1.0 - 2.0 * (y * y + z * z), 2.0 * (x * y + w * z), 2.0 * (x * z - w * y)];
    let c1 = [2.0 * (x * y - w * z), 1.0 - 2.0 * (x * x + z * z), 2.0 * (y * z + w * x)];
    let c2 = [2.0 * (x * z + w * y), 2.0 * (y * z - w * x), 1.0 - 2.0 * (x * x + y * y)];
    let (a, b, c) = (s[0] * s[0], s[1] * s[1], s[2] * s[2]);
    let m = |i: usize, j: usize| a * c0[i] * c0[j] + b * c1[i] * c1[j] + c * c2[i] * c2[j];
    [m(0, 0), m(0, 1), m(0, 2), m(1, 1), m(1, 2), m(2, 2)]
}

fn byte(x: f32) -> u32 {
    clamp255(x.to_bits())
}

fn evaluate(raw: &RawSplats, s: &RawSplat, log_scale: bool, logit_opacity: bool) -> SplatValues {
    let mut scale = [value(raw, s.scale_0), value(raw, s.scale_1), value(raw, s.scale_2)];
    if log_scale {
        scale = scale.map(f32::exp);
    }
    let q = [value(raw, s.quat_x), value(raw, s.quat_y), value(raw, s.quat_z), value(raw, s.quat_w)];
    let cov = covariance(q, scale).map(f32::to_bits);
    let opacity = value(raw, s.opacity);
    let alpha = if logit_opacity { sigmoid(opacity) } else { opacity };
    let (r, g, b) = match s.color {
        RawColor::White => (255, 255, 255),
        RawColor::Rgb { r, g, b, rule } => {
            let (r, g, b) = (value(raw, r), value(raw, g), value(raw, b));
            if scales_channels(rule, r.to_bits(), g.to_bits(), b.to_bits()) {
                (byte(r * 255.0), byte(g * 255.0), byte(b * 255.0))
            } else {
                (byte(r), byte(g), byte(b))
            }
        }
        RawColor::ShDc { c0, c1, c2 } => {
            let channel = |c: RawScalar| byte((0.5 + 0.28209479177387814 * value(raw, c)) * 255.0);
            (channel(c0), channel(c1), channel(c2))
        }
    };
    SplatValues {
        x: value(raw, s.x).to_bits(),
        y: value(raw, s.y).to_bits(),
        z: value(raw, s.z).to_bits(),
        m11: cov[0],
        m12: cov[1],
        m13: cov[2],
        m22: cov[3],
        m23: cov[4],
        m33: cov[5],
        r,
        g,
        b,
        a: byte(alpha * 255.0),
    }
}

fn buffers(bytes: &[u8], log_scale: bool, logit_opacity: bool) -> Result<SplatPlyBuffersCore, PlyError> {
    let raw = decode_splat_ply(bytes)?;
    let mut out = SplatPlyBuffersCore::new(raw.format);
    for s in &raw.splats {
        out = out.push(evaluate(&raw, s, log_scale, logit_opacity));
    }
    Ok(out)
}

fn floats(bits: &[u32]) -> Vec<f32> {
    bits.iter().map(|b| f32::from_bits(*b)).collect()
}

fn binary(names: &[&str], records: &[Vec<f32>]) -> Vec<u8> {
    let mut text = format!("ply\nformat binary_little_endian 1.0\nelement vertex {}\n", records.len());
    for n in names {
        text.push_str(&format!("property float {}\n", n));
    }
    text.push_str("end_header\n");
    let mut bytes = text.into_bytes();
    for r in records {
        for v in r {
            bytes.extend(v.to_le_bytes());
        }
    }
    bytes
}

const XYZW: [&str; 11] = ["x", "y", "z", "scale_0", "scale_1", "scale_2", "qx", "qy", "qz", "qw", "opacity"];
const WXYZ: [&str; 11] = ["x", "y", "z", "scale_0", "scale_1", "scale_2", "rot_0", "rot_1", "rot_2", "rot_3", "opacity"];

#[test]
fn identity_rotation_gives_the_squares_of_the_scales() {
    let records: Vec<Vec<f32>> =
        (0..4).map(|i| vec![i as f32, 0.0, 0.0, 2.0, 3.0, 4.0, 0.0, 0.0, 0.0, 1.0, 0.0]).collect();
    let out = buffers(&binary(&XYZW, &records), false, true).unwrap();
    assert_eq!(out.count(), 4);
    assert_eq!(out.center().len(), 12);
    assert_eq!(out.covariance().len(), 24);
    assert_eq!(out.rgba().len(), 4);
    for cov in floats(out.covariance()).chunks(6) {
        assert_eq!(cov, [4.0, 0.0, 0.0, 9.0, 0.0, 16.0]);
    }
    for pixel in out.rgba() {
        assert_eq!(pixel >> 24, 127);
        assert_eq!(pixel & 0x00ff_ffff, 0x00ff_ffff);
    }
}

#[test]
fn scales_stored_as_logarithms_are_raised() {
    let record = vec![0.0, 0.0, 0.0, 0.0, 0.0, 0.0, 0.0, 0.0, 0.0, 1.0, 0.0];
    let out = buffers(&binary(&XYZW, &[record]), true, true).unwrap();
    assert_eq!(floats(out.covariance()), [1.0, 0.0, 0.0, 1.0, 0.0, 1.0]);
}

#[test]
fn both_rotation_layouts_give_the_same_shape() {
    let (x, y, z, w) = (0.18257419f32, 0.36514837, 0.5477226, 0.73029673);
    let a = binary(&WXYZ, &[vec![1.0, 2.0, 3.0, 0.5, 1.5, 2.5, w, x, y, z, 0.3]]);
    let b = binary(&XYZW, &[vec![1.0, 2.0, 3.0, 0.5, 1.5, 2.5, x, y, z, w, 0.3]]);
    let a = buffers(&a, false, true).unwrap();
    let b = buffers(&b, false, true).unwrap();
    for (p, q) in floats(a.covariance()).iter().zip(floats(b.covariance())) {
        assert!((p - q).abs() <= 1.0e-4);
    }
    assert_eq!(a.covariance(), b.covariance());
    assert_eq!(a.rgba(), b.rgba());
}

#[test]
fn every_position_lies_in_the_bounding_box() {
    let records: Vec<Vec<f32>> = (0..25)
        .map(|i| {
            let t = i as f32;
            vec![(t * 7.0) % 11.0 - 5.0, -t * 0.5, t * t - 40.0, 0.0, 0.0, 0.0, 0.0, 0.0, 0.0, 1.0, 0.0]
        })
        .collect();
    let out = buffers(&binary(&XYZW, &records), true, true).unwrap();
    let center = floats(out.center());
    let min = out.bbox_min().map(f32::from_bits);
    let max = out.bbox_max().map(f32::from_bits);
    for i in 0..25 {
        for k in 0..3 {
            assert!(min[k] <= center[3 * i + k] && center[3 * i + k] <= max[k]);
        }
    }
    for k in 0..3 {
        assert!(min[k] <= max[k]);
    }
    assert_eq!(min, [-5.0, -12.0, -40.0]);
    assert_eq!(max, [5.0, 0.0, 536.0]);
}

#[test]
fn a_rotation_of_length_zero_gives_finite_shapes() {
    let record = vec![0.0, 0.0, 0.0, 0.1, 0.2, 0.3, 0.0, 0.0, 0.0, 0.0, 0.0];
    let out = buffers(&binary(&XYZW, &[record]), true, true).unwrap();
    let cov = floats(out.covariance());
    assert_eq!(cov.len(), 6);
    assert!(cov.iter().all(|v| v.is_finite()));
}

fn ascii_rgb(line: &str) -> u32 {
    let mut text = String::from("ply\nformat ascii 1.0\nelement vertex 1\n");
    for n in XYZW {
        text.push_str(&format!("property float {}\n", n));
    }
    text.push_str("property uchar red\nproperty uchar green\nproperty uchar blue\nend_header\n");
    text.push_str("0 0 0 0 0 0 0 0 0 1 0 ");
    text.push_str(line);
    text.push('\n');
    buffers(text.as_bytes(), true, true).unwrap().rgba()[0]
}

#[test]
fn ascii_channels_up_to_one_are_scaled() {
    assert_eq!(ascii_rgb("0.5 0.5 0.5") & 0x00ff_ffff, 0x007f_7f7f);
    assert_eq!(ascii_rgb("1 1 1") & 0x00ff_ffff, 0x00ff_ffff);
    assert_eq!(ascii_rgb("0 0 0") & 0x00ff_ffff, 0);
}

#[test]
fn ascii_channels_above_one_are_bytes() {
    assert_eq!(ascii_rgb("200 0 0") & 0x00ff_ffff, 200);
    assert_eq!(ascii_rgb("1 2 3") & 0x00ff_ffff, 0x0003_0201);
    assert_eq!(ascii_rgb("0.5 0.5 300") & 0x00ff_ffff, 0x00ff_0000);
}

#[test]
fn harmonic_terms_give_the_colour() {
    let mut names = XYZW.to_vec();
    names.extend_from_slice(&["f_dc_0", "f_dc_1", "f_dc_2"]);
    let record = vec![0.0, 0.0, 0.0, 0.0, 0.0, 0.0, 0.0, 0.0, 0.0, 1.0, 100.0, 0.0, 10.0, -10.0];
    let out = buffers(&binary(&names, &[record]), true, true).unwrap();
    assert_eq!(out.rgba()[0], 0xff00_ff7f);
}

#[test]
fn opacity_can_be_taken_as_it_is() {
    let record = vec![0.0, 0.0, 0.0, 0.0, 0.0, 0.0, 0.0, 0.0, 0.0, 1.0, 0.25];
    let bytes = binary(&XYZW, &[record]);
    assert_eq!(buffers(&bytes, true, false).unwrap().rgba()[0] >> 24, 63);
    assert_eq!(buffers(&bytes, true, true).unwrap().rgba()[0] >> 24, 143);
}

#[test]
fn errors_leave_no_buffers() {
    assert_eq!(buffers(b"", true, true).err(), Some(PlyError::HeaderMalformed));
    let mut bytes = binary(&XYZW, &[vec![0.0; 11]]);
    bytes.pop();
    assert_eq!(buffers(&bytes, true, true).err(), Some(PlyError::Truncated));
}
