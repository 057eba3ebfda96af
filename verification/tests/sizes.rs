use rom_downloader::browser::format_size;
use rom_downloader::download::format_bytes;

fn reference(bytes: u64) -> String {
    if bytes >= 1_073_741_824 {
        format!("{:.1} GB", bytes as f64 / 1_073_741_824.0)
    } else if bytes >= 1_048_576 {
        format!("{:.1} MB", bytes as f64 / 1_048_576.0)
    } else if bytes >= 1024 {
        format!("{:.0} KB", bytes as f64 / 1024.0)
    } else {
        format!("{} B", bytes)
    }
}

#[test]
fn sizes_have_exact_expected_texts() {
    assert_eq!(format_bytes(0), "0 B");
    assert_eq!(format_bytes(1023), "1023 B");
    assert_eq!(format_bytes(1024), "1 KB");
    assert_eq!(format_bytes(1536), "2 KB");
    assert_eq!(format_bytes(2560), "2 KB");
    assert_eq!(format_bytes(1_048_575), "1024 KB");
    assert_eq!(format_bytes(1_048_576), "1.0 MB");
    assert_eq!(format_bytes(1_310_720), "1.2 MB");
    assert_eq!(format_bytes(1_415_577), "1.3 MB");
    assert_eq!(format_bytes(734_003_200), "700.0 MB");
    assert_eq!(format_bytes(1_073_741_823), "1024.0 MB");
    assert_eq!(format_bytes(1_073_741_824), "1.0 GB");
    assert_eq!(format_bytes(u64::MAX), "17179869184.0 GB");
    assert_eq!(format_size(4_294_967_296), "4.0 GB");
}

#[test]
fn sizes_agree_with_float_formatting() {
    let mut samples: Vec<u64> = vec![
        1, 512, 1023, 1024, 1025, 1535, 1536, 1537, 2559, 2560, 2561, 524_288, 1_048_575, 1_048_576,
        1_153_433, 1_153_434, 1_258_291, 1_310_720, 1_363_148, 1_415_577, 1_048_576 * 999 + 524_287,
        1_073_741_823, 1_073_741_824, 1_181_116_006, 1_181_116_007, 1_288_490_188, 1_342_177_280,
        1_395_864_371, 3_221_225_472, 1 << 53, (1 << 53) + 1, (1 << 54) + 1, (1 << 54) + 2, (1 << 54) + 3,
        (1 << 60) + 12_345, u64::MAX - 1, u64::MAX - 1024, u64::MAX / 3, 9_007_199_254_740_993,
    ];
    let mut x: u64 = 0x9E37_79B9_7F4A_7C15;
    for _ in 0..5000 {
        x ^= x << 13;
        x ^= x >> 7;
        x ^= x << 17;
        let shift = (x % 64) as u32;
        samples.push(x >> shift);
    }
    for k in 0..2048u64 {
        samples.push(1_048_576 + k * 52_429);
        samples.push(1_073_741_824 + k * 53_687_091);
        samples.push(1024 + k * 511);
    }
    for b in samples {
        assert_eq!(format_bytes(b), reference(b), "{b}");
    }
}
