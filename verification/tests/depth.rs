use brush::bits::Single;
use brush::depth::bilinear::{resize_bilinear, AxisPoint};
use brush::depth::directory::is_decodable;
use brush::depth::load::{
    check_size, decode_bin_depth, decode_f32_tiff, masked_depth, single_channel, DepthFormat,
    LoadDepth, LoadDepthError, TiffReading, SRC_H, SRC_W,
};
use brush::names::PathName;

fn axis(src: usize, dst: usize) -> Vec<AxisPoint<f32>> {
    let ratio = if dst > 1 { (src - 1) as f32 / (dst - 1) as f32 } else { 0.0 };
    (0..dst)
        .map(|i| {
            let p = i as f32 * ratio;
            let low = p.floor() as usize;
            AxisPoint { low, frac: p - low as f32 }
        })
        .collect()
}

fn bit_axis(src: usize, dst: usize) -> Vec<AxisPoint<Single>> {
    axis(src, dst)
        .into_iter()
        .map(|p| AxisPoint { low: p.low, frac: single(p.frac) })
        .collect()
}

fn single(x: f32) -> Single {
    Single { bits: x.to_bits() }
}

fn float(x: Single) -> f32 {
    f32::from_bits(x.bits)
}

fn mix(a: f32, b: f32, c: f32, d: f32, x: f32, y: f32) -> f32 {
    a * (1.0 - x) * (1.0 - y) + b * x * (1.0 - y) + c * (1.0 - x) * y + d * x * y
}

fn mix_bits(a: Single, b: Single, c: Single, d: Single, x: Single, y: Single) -> Single {
    single(mix(float(a), float(b), float(c), float(d), float(x), float(y)))
}

fn raw_bytes(samples: &[f32]) -> Vec<u8> {
    samples.iter().flat_map(|s| s.to_le_bytes()).collect()
}

fn text_of(e: LoadDepthError) -> String {
    match e {
        LoadDepthError::ReadTiffError(t) => t,
        LoadDepthError::LoadTiffError(e) => panic!("tiff error {e}"),
    }
}

fn gray_tiff(w: u32, h: u32, data: &[f32]) -> Vec<u8> {
    let mut out = std::io::Cursor::new(Vec::new());
    let mut encoder = tiff::encoder::TiffEncoder::new(&mut out).expect("encoder");
    encoder
        .write_image::<tiff::encoder::colortype::Gray32Float>(w, h, data)
        .expect("image");
    drop(encoder);
    out.into_inner()
}

/// A TIFF file with one directory of entries (tag, type, count, value), and the
/// data after it.
fn tiff_file(entries: &[(u16, u16, u32, u32)], data: &[u8]) -> Vec<u8> {
    let mut file = vec![b'I', b'I', 42, 0, 8, 0, 0, 0];
    file.extend((entries.len() as u16).to_le_bytes());
    for (tag, kind, count, value) in entries {
        file.extend(tag.to_le_bytes());
        file.extend(kind.to_le_bytes());
        file.extend(count.to_le_bytes());
        file.extend(value.to_le_bytes());
    }
    file.extend([0; 4]);
    file.extend(data);
    file
}

/// Where the data of a file with `n` entries begins.
fn data_at(n: u32) -> u32 {
    14 + 12 * n
}

/// The entries of a file of two rows of one float32 sample each, in strips.
fn strips() -> Vec<(u16, u16, u32, u32)> {
    vec![
        (256, 3, 1, 1),
        (257, 3, 1, 2),
        (258, 3, 1, 32),
        (259, 3, 1, 1),
        (262, 3, 1, 1),
        (273, 4, 1, data_at(10)),
        (277, 3, 1, 1),
        (278, 3, 1, 2),
        (279, 4, 1, 8),
        (339, 3, 1, 3),
    ]
}

/// The entries of a file of one row of one float32 sample, in a tile of two.
fn tiles(compression: u32, len: u32) -> Vec<(u16, u16, u32, u32)> {
    vec![
        (256, 3, 1, 1),
        (257, 3, 1, 1),
        (258, 3, 1, 32),
        (259, 3, 1, compression),
        (262, 3, 1, 1),
        (277, 3, 1, 1),
        (322, 4, 1, 2),
        (323, 4, 1, 1),
        (324, 4, 1, data_at(11)),
        (325, 4, 1, len),
        (339, 3, 1, 3),
    ]
}

#[test]
fn test_resize_bilinear() {
    let src = vec![1.0, 2.0, 3.0, 4.0];
    let resized = resize_bilinear(&src, 2, 2, &axis(2, 4), &axis(2, 4), mix);
    assert_eq!(resized.len(), 16);
    // Check corners
    assert_eq!(resized[0], 1.0);
    assert_eq!(resized[3], 2.0);
    assert_eq!(resized[12], 3.0);
    assert_eq!(resized[15], 4.0);

    // Check center interpolation at index 5 (which is 1,1 in 4x4)
    assert!((resized[5] - 2.0).abs() < 1e-6);
}

#[test]
fn resize_to_the_same_size_keeps_samples() {
    let src: Vec<f32> = (0..12).map(|i| i as f32).collect();
    let same = resize_bilinear(&src, 4, 3, &axis(4, 4), &axis(3, 3), mix);
    assert_eq!(same, src);
}

#[test]
fn resize_to_one_sample_takes_the_first() {
    let src: Vec<u32> = vec![7, 8, 9, 10];
    let one = vec![AxisPoint { low: 0, frac: 0 }];
    let out = resize_bilinear(&src, 2, 2, &one, &one, |a, b, c, d, x, y| {
        assert_eq!((a, b, c, d, x, y), (7, 8, 9, 10, 0, 0));
        a
    });
    assert_eq!(out, vec![7]);
}

#[test]
fn resize_at_the_border_repeats_the_last_sample() {
    let src: Vec<u32> = vec![1, 2, 3, 4];
    let last = vec![AxisPoint { low: 1, frac: 0 }];
    let out = resize_bilinear(&src, 2, 2, &last, &last, |a, b, c, d, _, _| {
        assert_eq!((a, b, c, d), (4, 4, 4, 4));
        a
    });
    assert_eq!(out, vec![4]);
}

#[test]
fn raw_depth_of_the_wrong_length_is_refused() {
    let columns = bit_axis(SRC_W, 2);
    let rows = bit_axis(SRC_H, 2);
    let e = decode_bin_depth(&[0u8; 5], None, 0, &columns, &rows, mix_bits).unwrap_err();
    assert_eq!(text_of(e), "invalid raw depth binary size 5, expected 196608");
}

#[test]
fn raw_depth_is_masked_and_resized() {
    let mut samples = vec![2.0f32; SRC_W * SRC_H];
    samples[0] = f32::NAN;
    samples[SRC_W - 1] = 5.0;
    samples[SRC_W * SRC_H - 1] = 3.0;
    let mut confidence = vec![2u8; SRC_W * SRC_H];
    confidence[SRC_W - 1] = 1;
    let columns = bit_axis(SRC_W, 2);
    let rows = bit_axis(SRC_H, 2);
    let depth =
        decode_bin_depth(&raw_bytes(&samples), Some(&confidence), 2, &columns, &rows, mix_bits)
            .expect("depth");
    let depth: Vec<f32> = depth.into_iter().map(float).collect();
    assert_eq!(depth, vec![0.0, 0.0, 2.0, 3.0]);
}

#[test]
fn masking_drops_exactly_what_is_unsure() {
    let samples: Vec<f32> = (0..SRC_W * SRC_H).map(|i| i as f32 + 1.0).collect();
    let bytes = raw_bytes(&samples);
    let mut confidence = vec![0u8; SRC_W * SRC_H];
    confidence[5] = 2;
    confidence[6] = 1;
    let low = masked_depth(&bytes, Some(&confidence), 1);
    let high = masked_depth(&bytes, Some(&confidence), 2);
    let all = masked_depth(&bytes, Some(&confidence), 0);
    assert_eq!(float(low[5]), 6.0);
    assert_eq!(float(low[6]), 7.0);
    assert_eq!(float(low[7]), 0.0);
    assert_eq!(float(high[5]), 6.0);
    assert_eq!(float(high[6]), 0.0);
    for (i, s) in all.iter().enumerate() {
        assert_eq!(float(*s), i as f32 + 1.0);
    }
    // Asking for more only drops samples.
    for (h, l) in high.iter().zip(&low) {
        assert!(h == l || h.bits == 0);
    }
}

#[test]
fn confidence_of_another_size_is_not_used() {
    let bytes = raw_bytes(&vec![4.0f32; SRC_W * SRC_H]);
    let depth = masked_depth(&bytes, Some(&[0u8; 10]), 200);
    assert!(depth.iter().all(|s| float(*s) == 4.0));
    let depth = masked_depth(&bytes, None, 200);
    assert!(depth.iter().all(|s| float(*s) == 4.0));
}

#[test]
fn tiff_samples_come_back() {
    let data = [0.5f32, 1.5, -2.0, 3.25, 4.0, 5.0];
    let (depth, w, h) = decode_f32_tiff(&gray_tiff(3, 2, &data)).expect("tiff");
    assert_eq!((w, h), (3, 2));
    let depth: Vec<f32> = depth.into_iter().map(float).collect();
    assert_eq!(depth, data);
}

#[test]
fn tiff_with_several_channels_is_refused() {
    let mut out = std::io::Cursor::new(Vec::new());
    let mut encoder = tiff::encoder::TiffEncoder::new(&mut out).expect("encoder");
    encoder
        .write_image::<tiff::encoder::colortype::RGB32Float>(2, 1, &[1.0f32; 6])
        .expect("image");
    drop(encoder);
    let e = decode_f32_tiff(&out.into_inner()).unwrap_err();
    assert_eq!(text_of(e), "expected only a single channel");
}

#[test]
fn tiff_with_other_samples_is_refused() {
    let mut out = std::io::Cursor::new(Vec::new());
    let mut encoder = tiff::encoder::TiffEncoder::new(&mut out).expect("encoder");
    encoder
        .write_image::<tiff::encoder::colortype::Gray8>(2, 1, &[1u8, 2])
        .expect("image");
    drop(encoder);
    let e = decode_f32_tiff(&out.into_inner()).unwrap_err();
    assert_eq!(text_of(e), "unsupported TIFF sample format (expected float32 depth)");
}

#[test]
fn what_is_no_tiff_is_refused() {
    let e = decode_f32_tiff(b"not a tiff").unwrap_err();
    assert!(matches!(e, LoadDepthError::LoadTiffError(_)));
}

#[test]
fn strips_and_tiles_are_read() {
    let two = raw_bytes(&[1.5, -2.0]);
    let (depth, w, h) = decode_f32_tiff(&tiff_file(&strips(), &two)).expect("strips");
    assert_eq!((float(depth[0]), float(depth[1]), w, h), (1.5, -2.0, 1, 2));
    let (depth, w, h) = decode_f32_tiff(&tiff_file(&tiles(1, 8), &two)).expect("tiles");
    assert_eq!((float(depth[0]), depth.len(), w, h), (1.5, 1, 1, 1));
}

#[test]
fn inverted_samples_are_inverted_back() {
    let mut entries = strips();
    entries[4].3 = 0;
    let bytes = tiff_file(&entries, &raw_bytes(&[0.25, f32::NAN]));
    let (depth, _, _) = decode_f32_tiff(&bytes).expect("inverted");
    assert_eq!(float(depth[0]), 0.75);
    assert!(float(depth[1]).is_nan());
}

#[test]
fn planes_after_the_first_are_not_read() {
    let mut entries = strips();
    entries[5] = (273, 4, 2, data_at(11));
    entries[6].3 = 2;
    entries[8] = (279, 4, 2, data_at(11) + 8);
    entries.insert(9, (284, 3, 1, 2));
    let at = data_at(11) + 16;
    let mut data = Vec::new();
    for word in [at, at + 8, 8, 8] {
        data.extend(u32::to_le_bytes(word));
    }
    data.extend(raw_bytes(&[1.0, 2.0, 3.0, 4.0]));
    let (depth, w, h) = decode_f32_tiff(&tiff_file(&entries, &data)).expect("planes");
    assert_eq!((float(depth[0]), float(depth[1]), w, h), (1.0, 2.0, 1, 2));
}

#[test]
fn a_sample_format_without_a_value_is_left_out() {
    let mut data = raw_bytes(&[1.0, 2.0, 0.0]);
    data.push(b'a');
    for (kind, count, value) in [
        (3, 0, 3),
        (2, 0, 0),
        (2, 1, 0),
        (2, 4, 0),
        // Text in the data that begins with zero.
        (2, 5, data_at(10) + 8),
    ] {
        let mut entries = strips();
        entries[9] = (339, kind, count, value);
        assert!(!is_decodable(&tiff_file(&entries, &data)));
    }
    // Text that goes beyond the file is the decoder's to refuse.
    let mut entries = strips();
    entries[9] = (339, 2, 6, data_at(10) + 8);
    let e = decode_f32_tiff(&tiff_file(&entries, &data)).unwrap_err();
    assert!(matches!(e, LoadDepthError::LoadTiffError(_)));
}

#[test]
fn a_sample_format_may_be_written_as_text() {
    let mut entries = strips();
    entries[9] = (339, 2, 2, 3);
    let bytes = tiff_file(&entries, &raw_bytes(&[1.0, 2.0]));
    assert!(is_decodable(&bytes));
    assert_eq!(float(decode_f32_tiff(&bytes).expect("text").0[1]), 2.0);
}

#[test]
fn the_last_entry_with_a_tag_counts() {
    let mut entries = strips();
    entries[5].3 = data_at(11);
    entries.push((339, 3, 0, 3));
    let bytes = tiff_file(&entries, &raw_bytes(&[1.0, 2.0]));
    assert!(!is_decodable(&bytes));
    entries[10] = (339, 3, 1, 3);
    entries[9] = (339, 3, 0, 3);
    let bytes = tiff_file(&entries, &raw_bytes(&[1.0, 2.0]));
    assert!(is_decodable(&bytes));
    assert!(decode_f32_tiff(&bytes).is_ok());
    // An entry of an unknown type is passed over.
    entries[10] = (339, 14, 0, 0);
    entries[9] = (339, 3, 1, 3);
    let bytes = tiff_file(&entries, &raw_bytes(&[1.0, 2.0]));
    assert!(decode_f32_tiff(&bytes).is_ok());
}

#[test]
fn an_unfinished_directory_is_the_decoders_to_refuse() {
    let mut entries = strips();
    entries[9] = (339, 3, 0, 3);
    let mut bytes = tiff_file(&entries, &[]);
    bytes.truncate(bytes.len() - 1);
    assert!(is_decodable(&bytes));
    let e = decode_f32_tiff(&bytes).unwrap_err();
    assert!(matches!(e, LoadDepthError::LoadTiffError(_)));
}

#[test]
fn too_many_strips_or_tiles_are_left_out() {
    let mut entries = strips();
    entries[1] = (257, 4, 1, 0x1_0001);
    entries[5].3 = data_at(11);
    entries[6].3 = 0xffff;
    entries[7].3 = 1;
    entries.push((284, 3, 1, 2));
    let data = raw_bytes(&[1.0, 2.0]);
    assert!(is_decodable(&tiff_file(&entries, &data)));
    entries[1].3 = 0x1_0002;
    assert!(!is_decodable(&tiff_file(&entries, &data)));

    let mut entries = tiles(1, 8);
    entries[6].3 = 0x1fff_ffff;
    let (depth, w, h) = decode_f32_tiff(&tiff_file(&entries, &data)).expect("wide tile");
    assert_eq!((float(depth[0]), w, h), (1.0, 1, 1));
    entries[6].3 = 0x2000_0000;
    assert!(!is_decodable(&tiff_file(&entries, &data)));
    // No wider than the image.
    entries[0] = (256, 4, 1, 0x2000_0000);
    let e = decode_f32_tiff(&tiff_file(&entries, &data)).unwrap_err();
    assert!(matches!(e, LoadDepthError::LoadTiffError(_)));

    // With the predictor of floating-point samples.
    let mut entries = tiles(1, 8);
    entries.insert(6, (317, 3, 1, 3));
    entries[9].3 = data_at(12);
    entries[7].3 = 0x200_0000;
    assert!(is_decodable(&tiff_file(&entries, &data)));
    entries[7].3 = 0x200_0001;
    assert!(!is_decodable(&tiff_file(&entries, &data)));

    let mut entries = tiles(1, 8);
    entries[0] = (256, 4, 1, u32::MAX);
    entries[1] = (257, 4, 1, u32::MAX);
    entries[5].3 = 0xffff;
    entries[6].3 = 1;
    entries.push((284, 3, 1, 2));
    entries[8].3 = data_at(12);
    assert!(!is_decodable(&tiff_file(&entries, &data)));

    let mut entries = strips();
    for (count, decodable) in
        [(0x80_0000, true), (0x80_0001, false), (0x100_0000, false), (0x100_0001, true)]
    {
        entries[5].2 = count;
        assert_eq!(is_decodable(&tiff_file(&entries, &data)), decodable);
    }
    let e = decode_f32_tiff(&tiff_file(&entries, &data)).unwrap_err();
    assert!(matches!(e, LoadDepthError::LoadTiffError(_)));
    entries[5] = (273, 2, 0x80_0001, data_at(10));
    assert!(is_decodable(&tiff_file(&entries, &data)));
}

/// The 9-bit codes of LZW, one after the other.
fn lzw(codes: &[u64]) -> Vec<u8> {
    assert_eq!(codes.len(), 7);
    let bits = codes.iter().fold(0u64, |bits, code| bits << 9 | code);
    (bits << 1).to_be_bytes().to_vec()
}

#[test]
fn lzw_is_read_where_rows_are_read_together() {
    // Eight zero bytes.
    let zeros = lzw(&[256, 0, 258, 0, 259, 0, 257]);
    let mut entries = tiles(5, 8);
    assert!(!is_decodable(&tiff_file(&entries, &zeros)));
    entries[0].3 = 2;
    let (depth, w, h) = decode_f32_tiff(&tiff_file(&entries, &zeros)).expect("tile");
    assert_eq!((depth[0].bits, depth[1].bits, w, h), (0, 0, 2, 1));
    let mut entries = strips();
    entries[3].3 = 5;
    let (depth, w, h) = decode_f32_tiff(&tiff_file(&entries, &zeros)).expect("strip");
    assert_eq!((depth[0].bits, depth[1].bits, w, h), (0, 0, 1, 2));
}

#[test]
fn wide_and_big_endian_directories_are_read() {
    // A big-endian file with wide offsets, one entry of an unknown type, and a
    // sample format without a value.
    let mut file = vec![b'M', b'M', 0, 43, 0, 8, 0, 0];
    file.extend(16u64.to_be_bytes());
    file.extend(2u64.to_be_bytes());
    file.extend([1, 1, 0, 99]);
    file.extend([0; 8]);
    file.extend([339u16.to_be_bytes(), 3u16.to_be_bytes()].concat());
    file.extend(0u64.to_be_bytes());
    file.extend([0; 8]);
    file.extend([0; 8]);
    assert!(!is_decodable(&file));
    file[47] = 1;
    assert!(is_decodable(&file));
}

#[test]
fn readings_are_checked() {
    let reading = TiffReading { samples: Some(vec![1, 2, 3, 4]), width: 2, height: 2 };
    let (depth, w, h) = single_channel(reading).expect("reading");
    assert_eq!((depth[2].bits, depth.len(), w, h), (3, 4, 2, 2));
    let reading = TiffReading { samples: Some(vec![1, 2, 3]), width: 2, height: 2 };
    assert_eq!(text_of(single_channel(reading).unwrap_err()), "expected only a single channel");
    let reading = TiffReading { samples: None, width: 2, height: 2 };
    assert!(single_channel(reading).is_err());
}

#[test]
fn sizes_are_checked() {
    let depth = vec![single(1.0); 6];
    assert_eq!(check_size((depth.clone(), 3, 2), 2, 3).expect("size").len(), 6);
    let e = check_size((depth, 3, 2), 3, 2).unwrap_err();
    assert_eq!(text_of(e), "invalid depth size 3 x 2, expected 2 x 3");
}

#[test]
fn load_vec_follows_the_format() {
    let columns = bit_axis(SRC_W, 3);
    let rows = bit_axis(SRC_H, 2);
    let tiff = LoadDepth::new(PathName::from_text("a.tiff"), DepthFormat::Tiff);
    let data = [1.0f32, 2.0, 3.0, 4.0, 5.0, 6.0];
    let bytes = gray_tiff(3, 2, &data);
    let depth = tiff.load_vec(&bytes, None, 2, 3, &columns, &rows, mix_bits).expect("depth");
    assert_eq!(depth.into_iter().map(float).collect::<Vec<_>>(), data);

    let square = bit_axis(SRC_W, 2);
    let e = tiff.load_vec(&bytes, None, 2, 2, &square, &rows, mix_bits).unwrap_err();
    assert_eq!(text_of(e), "invalid depth size 3 x 2, expected 2 x 2");

    let bin = LoadDepth::new(
        PathName::from_text("a_depth.bin"),
        DepthFormat::Bin { min_confidence: 1 },
    );
    let raw = raw_bytes(&vec![1.5f32; SRC_W * SRC_H]);
    let depth = bin.load_vec(&raw, None, 2, 3, &columns, &rows, mix_bits).expect("depth");
    assert_eq!(depth.len(), 6);
    assert!(depth.iter().all(|s| (float(*s) - 1.5).abs() < 1e-6));

    let bad = LoadDepth::new(PathName { bytes: vec![0xff, b'a'] }, bin.format);
    for bytes in [&raw[..], &raw[1..]] {
        let e = bad.load_vec(bytes, None, 2, 3, &columns, &rows, mix_bits).unwrap_err();
        assert_eq!(text_of(e), "Invalid non-UTF-8 path");
    }
}

#[test]
fn confidence_maps_are_beside_depth_maps() {
    let format = DepthFormat::Bin { min_confidence: 2 };
    let of = |text: &str| {
        LoadDepth::new(PathName::from_text(text), format)
            .confidence_path()
            .expect("path")
            .expect("confidence")
            .bytes
    };
    assert_eq!(of("scan/x_depth.bin"), b"scan/x_confidence.bin");
    assert_eq!(of("a_depth.bin/b_depth.bin"), b"a_confidence.bin/b_confidence.bin");
    assert_eq!(of("x_depth.bi"), b"x_depth.bi");
    assert_eq!(of("_depth_depth.bin"), b"_depth_confidence.bin");
    assert_eq!(of("ü_depth.bin"), "ü_confidence.bin".as_bytes());

    let tiff = LoadDepth::new(PathName::from_text("x_depth.bin"), DepthFormat::Tiff);
    assert!(tiff.confidence_path().expect("path").is_none());

    let bad = LoadDepth::new(PathName { bytes: vec![0xff, b'a'] }, format);
    assert_eq!(text_of(bad.confidence_path().unwrap_err()), "Invalid non-UTF-8 path");
}

#[test]
fn depth_maps_are_told_apart_by_path_and_format() {
    let a = LoadDepth::new(PathName::from_text("a"), DepthFormat::Tiff);
    let b = LoadDepth::new(PathName::from_text("b"), DepthFormat::Tiff);
    let c = LoadDepth::new(PathName::from_text("a"), DepthFormat::Bin { min_confidence: 0 });
    let d = LoadDepth::new(PathName::from_text("a"), DepthFormat::Bin { min_confidence: 1 });
    assert!(a == a.clone());
    assert!(a != b);
    assert!(a != c);
    assert!(c != d);
    assert_eq!(a.path().bytes, b"a");
    let at = |path: &str| LoadDepth::new(PathName::from_text(path), DepthFormat::Tiff);
    assert!(at("a/b") == at("a//b"));
    assert!(at("a/b") == at("a/./b/"));
    assert!(at("a/b") != at("./a/b"));
    assert!(at("a/b") != at("/a/b"));
}
