use ptouch::printable_image::compress_tiff_group4;

#[test]
fn test_compress_tiff_group4_all_black() {
    // Test case: 70 bytes of 0x00 should compress to bb 00
    let black_data = vec![0x00u8; 70];
    let result = compress_tiff_group4(&black_data).unwrap();

    // Should compress to exactly: bb 00
    assert_eq!(
        result,
        vec![0xbb, 0x00],
        "70 bytes of 0x00 should compress to [bb 00]"
    );
}

#[test]
fn test_compress_tiff_group4_all_white() {
    // Test case: 70 bytes of 0xFF should compress to bb ff
    let white_data = vec![0xFFu8; 70];
    let result = compress_tiff_group4(&white_data).unwrap();

    // Should compress to exactly: bb ff
    assert_eq!(
        result,
        vec![0xbb, 0xff],
        "70 bytes of 0xFF should compress to [bb ff]"
    );
}

#[test]
fn test_compress_tiff_group4_alternating() {
    // Test case: Alternating pattern (should be handled as literal data)
    let mut alt_data = Vec::new();
    for i in 0..70 {
        alt_data.push(if i % 2 == 0 { 0x00 } else { 0xFF });
    }

    let result = compress_tiff_group4(&alt_data).unwrap();

    // Alternating pattern should be treated as literal data
    // First byte should be positive (literal count), followed by raw data
    assert!(!result.is_empty(), "Should produce some output");
    assert!(
        result[0] < 128,
        "First byte should be positive (literal mode)"
    );

    // Should not compress well - likely larger than 70% of original
    let compression_ratio = result.len() as f64 / alt_data.len() as f64;
    assert!(
        compression_ratio > 0.7,
        "Alternating pattern should not compress well"
    );
}

#[test]
fn test_compress_tiff_group4_empty() {
    let empty_data = Vec::new();
    let result = compress_tiff_group4(&empty_data).unwrap();
    assert_eq!(
        result,
        Vec::<u8>::new(),
        "Empty input should produce empty output"
    );
}

#[test]
fn test_compress_tiff_group4_single_byte() {
    let single_data = vec![0x42];
    let result = compress_tiff_group4(&single_data).unwrap();

    // Single byte should be literal: count=0 (1-1), then the byte
    assert_eq!(result, vec![0, 0x42], "Single byte should produce [00 42]");
}

#[test]
fn test_compress_tiff_group4_literal_data() {
    // Test case: Non-consecutive data should be handled as literal
    let literal_data = vec![0x23, 0xBA, 0xBF, 0xA2, 0x22, 0x2B];
    let result = compress_tiff_group4(&literal_data).unwrap();

    // Should be literal data: count=5 (6-1), then all 6 bytes
    let expected = vec![
        5, // count = 6-1 = 5 (positive number for literal)
        0x23, 0xBA, 0xBF, 0xA2, 0x22, 0x2B, // raw data
    ];
    assert_eq!(result, expected, "Non-consecutive data should be literal");
}

#[test]
fn test_compress_tiff_group4_mixed_data() {
    // Test case: Mix of literal and run data
    let mixed_data = vec![0x23, 0xBA, 0xBF, 0xFF, 0xFF, 0xFF, 0xA2, 0x22, 0x2B];
    let result = compress_tiff_group4(&mixed_data).unwrap();

    // Should be: literal [23 BA BF] + run [3x FF] + literal [A2 22 2B]
    let expected = vec![
        2, // literal count = 3-1 = 2
        0x23, 0xBA, 0xBF, // literal data
        0xFE, // run count = -(3-1) = -2 = 254 (two's complement)
        0xFF, // run value
        2,    // literal count = 3-1 = 2
        0xA2, 0x22, 0x2B, // literal data
    ];
    assert_eq!(
        result, expected,
        "Mixed literal and run data should be handled correctly"
    );
}

/// Expands a compressed stream by hand: a control byte of 128 or more
/// repeats the next byte `257 - control` times, a smaller one copies the
/// following `control + 1` bytes.
fn expand(data: &[u8]) -> Vec<u8> {
    let mut out = Vec::new();
    let mut i = 0;
    while i < data.len() {
        let c = data[i];
        if c >= 128 {
            let n = 257 - c as usize;
            for _ in 0..n {
                out.push(data[i + 1]);
            }
            i += 2;
        } else {
            let n = c as usize + 1;
            for j in 0..n {
                out.push(data[i + 1 + j]);
            }
            i += 1 + n;
        }
    }
    out
}

#[test]
fn test_compress_round_trip_patterns() {
    let mut cases: Vec<Vec<u8>> = vec![
        vec![],
        vec![0x42],
        vec![0x00; 70],
        vec![0xFF; 129],
        vec![0x23, 0xBA, 0xBF, 0xFF, 0xFF, 0xFF, 0xA2, 0x22, 0x2B],
        (0..=255u8).collect(),
    ];
    // a deterministic pseudo-random line of raster-like bytes
    let mut x: u32 = 0x12345678;
    let mut noisy = Vec::new();
    for _ in 0..700 {
        x = x.wrapping_mul(1664525).wrapping_add(1013904223);
        noisy.push(if x % 5 < 3 { 0x00 } else { (x >> 16) as u8 });
    }
    cases.push(noisy);
    for case in cases {
        let compressed = compress_tiff_group4(&case).unwrap();
        assert_eq!(expand(&compressed), case, "round trip must reproduce the input");
    }
}

#[test]
fn test_compress_run_at_literal_boundary() {
    // 127 distinct bytes, then a run: the literal record must stop at 127
    let mut data: Vec<u8> = Vec::new();
    for i in 0..127u32 {
        data.push(if i % 2 == 0 { i as u8 } else { 0xF0u8.wrapping_sub(i as u8) });
    }
    data.extend_from_slice(&[9, 9, 9]);
    let result = compress_tiff_group4(&data).unwrap();
    assert_eq!(result[0], 126, "first literal record holds 127 bytes");
    assert_eq!(result[1 + 127], 0xFE, "run of three nines follows");
    assert_eq!(result[1 + 128], 9);
    assert_eq!(expand(&result), data);
}

#[test]
fn test_compress_run_at_255_boundary() {
    // a run record holds at most 255 bytes; the 256th starts a new record
    let data = vec![0x55u8; 255];
    assert_eq!(compress_tiff_group4(&data).unwrap(), vec![0x02, 0x55]);
    let data = vec![0x55u8; 256];
    assert_eq!(
        compress_tiff_group4(&data).unwrap(),
        vec![0x02, 0x55, 0x00, 0x55]
    );
}
