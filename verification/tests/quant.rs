use llmpager::quant::{
    check_dims, f16_bits_to_f32, f32_to_f16_bits, q4_assemble, q4_bytes, q4_extract, q4g64_bytes,
    QuantError, GROUP,
};

#[test]
fn f16_helpers() {
    for x in [0.0f32, 1.0, -1.0, 0.5, 65504.0, 1e-8, 3.14159] {
        let y = f32::from_bits(f16_bits_to_f32(f32_to_f16_bits(x.to_bits())));
        assert!((x - y).abs() <= (x.abs() * 0.001).max(1e-7), "{x} -> {y}");
    }
}

#[test]
fn rejects_bad_dims() {
    assert!(check_dims(1, 10, GROUP, 10, 10).is_err());
    assert_eq!(
        check_dims(1, 10, GROUP, 10, 10),
        Err(QuantError::Cols { cols: 10 })
    );
}

#[test]
fn lengths_must_match_the_dimensions() {
    assert_eq!(check_dims(2, 64, GROUP, 127, 68), Err(QuantError::Src { len: 127 }));
    assert_eq!(check_dims(2, 64, GROUP, 128, 67), Err(QuantError::Dst { len: 67 }));
    assert_eq!(check_dims(2, 64, GROUP, 128, 68), Ok(()));
}

#[test]
fn sizes_are_scales_and_nibbles() {
    assert_eq!(q4g64_bytes(8, 256), 8 * 4 * 2 + 8 * 128);
    assert_eq!(q4_bytes(32, 64, 32), 32 * 2 * 2 + 32 * 32);
    assert_eq!(q4_bytes(8, 256, GROUP), q4g64_bytes(8, 256));
}

#[test]
fn every_half_survives_the_way_through_single() {
    for h in 0..=u16::MAX {
        let exp = (h >> 10) & 0x1f;
        let frac = h & 0x3ff;
        let back = f32_to_f16_bits(f16_bits_to_f32(h));
        if exp == 0x1f && frac != 0 {
            // A NaN keeps its sign and becomes the quiet one.
            assert_eq!(back, (h & 0x8000) | 0x7e00);
        } else {
            assert_eq!(back, h);
        }
    }
}

#[test]
fn halves_of_known_values() {
    assert_eq!(f32_to_f16_bits(1.0f32.to_bits()), 0x3c00);
    assert_eq!(f32_to_f16_bits((-2.0f32).to_bits()), 0xc000);
    assert_eq!(f32_to_f16_bits(65504.0f32.to_bits()), 0x7bff);
    // Too large, infinite, too small.
    assert_eq!(f32_to_f16_bits(70000.0f32.to_bits()), 0x7c00);
    assert_eq!(f32_to_f16_bits(f32::NEG_INFINITY.to_bits()), 0xfc00);
    assert_eq!(f32_to_f16_bits(1e-10f32.to_bits()), 0);
    // Rounding carries into the exponent, whether it is odd or even.
    assert_eq!(f32_to_f16_bits(1.9999f32.to_bits()), 0x4000);
    assert_eq!(f32_to_f16_bits(3.9999f32.to_bits()), 0x4400);
    assert_eq!(f32_to_f16_bits(65519.0f32.to_bits()), 0x7bff);
    assert_eq!(f32_to_f16_bits(65520.0f32.to_bits()), 0x7c00);
    // The least subnormal.
    assert_eq!(f16_bits_to_f32(1), (2.0f32).powi(-24).to_bits());
    assert_eq!(f16_bits_to_f32(0x7c00), f32::INFINITY.to_bits());
}

#[test]
fn a_region_gives_back_scales_and_nibbles() {
    let scales = [0x3c00u16, 0x1234];
    let nibbles: Vec<u8> = (0..128).map(|i| (i * 7 % 16) as u8).collect();
    let region = q4_assemble(&scales, &nibbles);
    assert_eq!(region.len(), q4g64_bytes(1, 128));
    assert_eq!(&region[..4], &[0x00, 0x3c, 0x34, 0x12]);
    // Value 0 in the low nibble, value 1 in the high one.
    assert_eq!(region[4], nibbles[0] + 16 * nibbles[1]);
    let (s, n) = q4_extract(&region, 2);
    assert_eq!(s, scales);
    assert_eq!(n, nibbles);
}

fn pseudo(n: usize, seed: u64) -> Vec<f32> {
    let mut s = seed.max(1);
    (0..n)
        .map(|_| {
            s ^= s << 13;
            s ^= s >> 7;
            s ^= s << 17;
            ((s >> 11) as f64 / (1u64 << 53) as f64 * 2.0 - 1.0) as f32 * 0.1
        })
        .collect()
}

/// Quantized through the layout functions, values come back within half a
/// step.
#[test]
fn round_trip_error_bounded() {
    let (rows, cols) = (8usize, 256usize);
    let src = pseudo(rows * cols, 3);
    assert_eq!(check_dims(rows, cols, GROUP, src.len(), q4g64_bytes(rows, cols)), Ok(()));
    let mut scales = Vec::new();
    let mut nibbles = Vec::new();
    let mut max_err = 0.0f32;
    for vals in src.chunks(GROUP) {
        let amax = vals.iter().fold(0.0f32, |m, v| m.max(v.abs()));
        let raw = if amax > 0.0 { amax / 7.0 } else { 1e-8 };
        let half = f32_to_f16_bits(raw.to_bits());
        let scale = f32::from_bits(f16_bits_to_f32(half)).max(1e-7);
        scales.push(f32_to_f16_bits(scale.to_bits()));
        for x in vals {
            let q = (x / scale).round().clamp(-8.0, 7.0) as i32;
            max_err = max_err.max((x - q as f32 * scale).abs());
            nibbles.push((q + 8) as u8);
        }
    }
    let buf = q4_assemble(&scales, &nibbles);
    assert_eq!(buf.len(), q4g64_bytes(rows, cols));
    let (scales, nibbles) = q4_extract(&buf, rows * cols / GROUP);
    let back: Vec<f32> = nibbles
        .iter()
        .enumerate()
        .map(|(i, q)| (*q as i32 - 8) as f32 * f32::from_bits(f16_bits_to_f32(scales[i / GROUP])))
        .collect();
    // 4-bit symmetric: error <= scale/2 ~= amax/14 per group.
    for (a, b) in src.iter().zip(back.iter()) {
        assert!((a - b).abs() <= max_err + 1e-6);
    }
    assert!(max_err < 0.1 / 14.0 * 1.1, "max_err {max_err}");
}

#[test]
fn halves_are_within_one_part_in_2048() {
    let mut b = 0x3880_0000u32;
    while b <= 0x477f_e000 {
        let x = f32::from_bits(b);
        let y = f32::from_bits(f16_bits_to_f32(f32_to_f16_bits(b)));
        assert!((x - y).abs() <= x / 2048.0, "{x} -> {y}");
        b += 997;
    }
}
