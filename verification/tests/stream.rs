use rustzss::frame::{lzss_get_original_size, lzss_max_compressed_size, lzss_params_valid, LzssContext};
use rustzss::LZSS;

#[test]
fn test_self_referential_copy() {
    // the optimal match here has distance 2 and length far beyond it, so
    // decoding must copy bytes it has only just produced
    let lzss = LZSS::new(4096, 3);
    let data = b"AB".repeat(500);
    let compressed = lzss.compress(&data);
    assert!(compressed.len() < data.len());
    let decompressed = lzss.decompress(&compressed);
    assert_eq!(decompressed, data);
}

#[test]
fn test_header_bytes_scenario() {
    let lzss = LZSS::new(4096, 3);
    let data = b"ABABCBABABCBABABCBABABCBABABCBABABC".to_vec();
    assert_eq!(data.len(), 35);
    let compressed = lzss.compress(&data);
    // the first four bytes carry the original length, little-endian
    assert_eq!(&compressed[0..4], &[0x23, 0x00, 0x00, 0x00]);
    assert_eq!(lzss.decompress(&compressed), data);

    // one period more makes 36 bytes, and the header reads 0x24
    let data36 = b"ABABCB".repeat(6);
    assert_eq!(data36.len(), 36);
    let compressed36 = lzss.compress(&data36);
    assert_eq!(&compressed36[0..4], &[0x24, 0x00, 0x00, 0x00]);
    assert_eq!(lzss.decompress(&compressed36), data36);
}

#[test]
fn test_empty_roundtrip_scenario() {
    let lzss = LZSS::new(4096, 3);
    let empty: Vec<u8> = Vec::new();
    let compressed = lzss.compress(&empty);
    assert_eq!(compressed.len(), 0);
    let decompressed = lzss.decompress(&empty);
    assert_eq!(decompressed.len(), 0);
}

#[test]
fn test_peek_original_size_agrees_with_header() {
    let lzss = LZSS::new(4096, 3);
    let data = b"HelloWorld".repeat(100);
    let compressed = lzss.compress(&data);
    assert_eq!(lzss_get_original_size(&compressed), 1000);
    let word = (compressed[0] as u64)
        + 256 * (compressed[1] as u64)
        + 65536 * (compressed[2] as u64)
        + 16777216 * (compressed[3] as u64);
    assert_eq!(word, 1000);
    // too short for a header
    assert_eq!(lzss_get_original_size(&vec![1, 2, 3]), 0);
}

#[test]
fn test_window_size_monotonic_on_repetitive_input() {
    // with a fixed highly-repetitive input, a wider window can only reach
    // farther back, so the compressed size must not grow
    let data = b"HelloWorld".repeat(2000);
    let mut previous = usize::MAX;
    for &window in &[256usize, 512, 1024, 2048, 4096, 8192, 16384, 32768, 65535] {
        let lzss = LZSS::new(window, 3);
        let size = lzss.compress(&data).len();
        assert!(
            size <= previous,
            "window {} gave {} bytes, more than {}",
            window,
            size,
            previous
        );
        previous = size;
    }
}

#[test]
fn test_max_compressed_size_formula() {
    assert_eq!(lzss_max_compressed_size(1000), 1129);
    assert_eq!(lzss_max_compressed_size(0), 4);
    assert_eq!(lzss_max_compressed_size(1), 4 + 1 + 1);
    assert_eq!(lzss_max_compressed_size(8), 4 + 1 + 8);
}

#[test]
fn test_params_valid_boundary() {
    assert!(lzss_params_valid(1, 1));
    assert!(lzss_params_valid(65535, 3));
    assert!(!lzss_params_valid(0, 3));
    assert!(!lzss_params_valid(4096, 0));
    assert!(!lzss_params_valid(65536, 3));
    assert!(!lzss_params_valid(-1, 3));
    assert!(!lzss_params_valid(4096, -2));
}

#[test]
fn test_context_holds_codec() {
    let context = LzssContext { lzss: LZSS::new(4096, 3) };
    let data = b"contextual".to_vec();
    let compressed = context.lzss.compress(&data);
    assert_eq!(context.lzss.decompress(&compressed), data);
}

#[test]
fn test_truncated_stream_is_padded() {
    // header declares five bytes, but the match token after the control
    // byte is cut off: decoding stops and pads with zeros
    let lzss = LZSS::new(4096, 3);
    let stream = vec![5u8, 0, 0, 0, 0b0000_0001, 9];
    assert_eq!(lzss.decompress(&stream), vec![0u8; 5]);
}

#[test]
fn test_truncated_match_stops_decoding() {
    // the match token is cut off with other bytes still in the stream:
    // decoding stops entirely, so the trailing literal is never read
    let lzss = LZSS::new(4096, 3);
    let stream = vec![3u8, 0, 0, 0, 0b0000_0001, 0, 65];
    assert_eq!(lzss.decompress(&stream), vec![0u8; 3]);
}

#[test]
fn test_size_bound_for_short_min_match() {
    // the worst-case estimate holds for every minimum match length when
    // the window is within the distance range
    let data: Vec<u8> = (0..300u32).map(|x| (x * 89 % 251) as u8).collect();
    for &min_match in &[1usize, 2, 3] {
        let lzss = LZSS::new(4096, min_match);
        let compressed = lzss.compress(&data);
        assert!(compressed.len() <= 4 + (data.len() + 7) / 8 + data.len());
        assert_eq!(lzss.decompress(&compressed), data);
    }
}

#[test]
fn test_out_of_range_reference_is_skipped() {
    // a back-reference farther than anything yet produced is ignored, and
    // decoding carries on with the following literals
    let lzss = LZSS::new(4096, 3);
    let stream = vec![2u8, 0, 0, 0, 0b0000_0001, 5, 0, 0, 65, 66];
    assert_eq!(lzss.decompress(&stream), vec![65, 66]);
}

#[test]
fn test_short_input_decodes_to_nothing() {
    let lzss = LZSS::new(4096, 3);
    assert_eq!(lzss.decompress(&vec![9u8, 0, 0, 0]).len(), 0);
    assert_eq!(lzss.decompress(&Vec::new()).len(), 0);
}

#[test]
fn test_period_shorter_than_min_match() {
    // input whose period is below the minimum match length still round-trips
    let lzss = LZSS::new(4096, 6);
    let data = b"ab".repeat(40);
    let compressed = lzss.compress(&data);
    assert_eq!(lzss.decompress(&compressed), data);
}

#[test]
fn test_window_beyond_distance_range() {
    // a window wider than the two-byte distance field: the only candidate
    // for the final "XYZ" lies farther back than 65535 bytes, so its
    // distance is clamped and the codec falls back to literals there
    let lzss = LZSS::new(100000, 3);
    let mut data = b"XYZ".to_vec();
    data.extend(std::iter::repeat(b'A').take(70000));
    data.extend_from_slice(b"XYZ");
    let compressed = lzss.compress(&data);
    assert_eq!(lzss.decompress(&compressed), data);
}
