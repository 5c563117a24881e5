use brush::bits::{Double, Single};
use brush::dino::chunks::chunks_of;
use brush::dino::device::{pick_device, pick_precision, DeviceChoice, Precision};
use brush::dino::dinov2::{
    attention_chunks, Config, DinoVisionTransformer, PosEmbedSource, ATTN_CHUNK,
};
use brush::dino::fit::{fit_pca, is_comparable};
use brush::dino::images::{find_images, get_img_resolution, to_planes, DirEntry};
use brush::dino::moments::{column_means, covariance};
use brush::dino::npy::write_npy_f32;
use brush::dino::pca::{
    eigen_order, gather_rows, principal_basis, select_fit_rows, COV_CHUNK_ROWS, PCA_MAX_ROWS,
};
use brush::dino::resize::{
    resample_2d, resize_grid_bicubic_torch, resize_image_bicubic_aa, taps_torch_no_aa, CubicPoint,
    Taps, Window, WindowAxis,
};
use brush::names::PathName;

fn singles(data: &[f32]) -> Vec<Single> {
    data.iter().map(|x| Single { bits: x.to_bits() }).collect()
}

fn doubles(data: &[f64]) -> Vec<Double> {
    data.iter().map(|x| Double { bits: x.to_bits() }).collect()
}

fn cubic(x: f32, a: f32) -> f32 {
    let x = x.abs();
    if x < 1.0 {
        (a + 2.0) * x * x * x - (a + 3.0) * x * x + 1.0
    } else if x < 2.0 {
        a * (x * x * x - 5.0 * x * x + 8.0 * x - 4.0)
    } else {
        0.0
    }
}

fn windows(in_len: usize, out_len: usize) -> WindowAxis<f32> {
    let scale = in_len as f32 / out_len as f32;
    let filter_scale = scale.max(1.0);
    let support = 2.0 * filter_scale;
    let windows = (0..out_len)
        .map(|dst| {
            let center = (dst as f32 + 0.5) * scale - 0.5;
            Window {
                lo: (center - support).floor() as i64,
                hi: (center + support).ceil() as i64,
                center,
            }
        })
        .collect();
    WindowAxis { windows, filter_scale }
}

fn points(out_len: usize, scale: f32) -> Vec<CubicPoint<f32>> {
    (0..out_len)
        .map(|dst| {
            let center = (dst as f32 + 0.5) / scale - 0.5;
            let base = center.floor() as i64;
            CubicPoint { base, frac: center - base as f32 }
        })
        .collect()
}

fn resize_aa(src: &Vec<f32>, size: (usize, usize, usize), out: (usize, usize)) -> Vec<f32> {
    resize_image_bicubic_aa(
        src,
        size,
        &windows(size.0, out.0),
        &windows(size.1, out.1),
        0.0,
        &|i: usize, center: f32, scale: f32| cubic((i as f32 - center) / scale, -0.5),
        &|raw: &Vec<f32>| raw.iter().sum::<f32>(),
        &|w: f32, sum: f32| w / sum,
        &|acc: f32, w: f32, s: f32| acc + w * s,
    )
}

#[test]
fn round_trips_shape_and_data() {
    let data: Vec<f32> = (0..24).map(|i| i as f32 * 0.5 - 3.0).collect();
    let bytes = write_npy_f32(&singles(&data), &vec![2, 3, 4]);

    assert_eq!(&bytes[..6], b"\x93NUMPY", "npy magic");
    let header_len = u16::from_le_bytes([bytes[8], bytes[9]]) as usize;
    assert_eq!((10 + header_len) % 64, 0, "header padded to 64");
    let header = std::str::from_utf8(&bytes[10..10 + header_len]).expect("utf8 header");
    assert!(header.contains("'shape': (2, 3, 4)"), "header: {header}");
    let payload = &bytes[10 + header_len..];
    let read: Vec<f32> = payload
        .chunks_exact(4)
        .map(|b| f32::from_le_bytes([b[0], b[1], b[2], b[3]]))
        .collect();
    assert_eq!(read, data, "payload round-trip");
}

#[test]
fn npy_header_is_exact() {
    let header = |shape: Vec<usize>, n: usize| {
        let bytes = write_npy_f32(&singles(&vec![0.0; n]), &shape);
        let len = u16::from_le_bytes([bytes[8], bytes[9]]) as usize;
        assert_eq!(bytes.len(), 10 + len + 4 * n);
        assert_eq!(bytes[6..8], [1, 0]);
        String::from_utf8(bytes[10..10 + len].to_vec()).expect("header")
    };
    let padded = |dict: &str| {
        let unpadded = 10 + dict.len() + 1;
        let spaces = unpadded.div_ceil(64) * 64 - unpadded;
        format!("{dict}{}\n", " ".repeat(spaces))
    };
    assert_eq!(
        header(vec![5], 5),
        padded("{'descr': '<f4', 'fortran_order': False, 'shape': (5,), }")
    );
    assert_eq!(
        header(vec![2, 10], 20),
        padded("{'descr': '<f4', 'fortran_order': False, 'shape': (2, 10), }")
    );
    assert_eq!(
        header(vec![], 1),
        padded("{'descr': '<f4', 'fortran_order': False, 'shape': (), }")
    );
    // Different shapes of the same numbers have different headers.
    assert_ne!(header(vec![1, 11], 11), header(vec![11, 1], 11));
    assert_ne!(header(vec![11], 11), header(vec![1, 11], 11));
}

#[test]
fn identity_resize_is_identity() {
    let src: Vec<f32> = (0..12).map(|i| i as f32).collect();
    let out = resize_aa(&src, (3, 4, 1), (3, 4));
    assert_eq!(out.len(), src.len());
    for (a, b) in out.iter().zip(&src) {
        assert!((a - b).abs() < 1e-5, "identity resize changed values");
    }
}

#[test]
fn constant_grid_stays_constant() {
    let src = vec![0.7f32; 37 * 37 * 2];
    let out = resize_grid_bicubic_torch(
        &src,
        (37, 37, 2),
        &points(67, (67.0 + 0.1) / 37.0),
        &points(90, (90.0 + 0.1) / 37.0),
        0.0,
        &|k: i64, frac: f32| cubic(k as f32 - frac, -0.75),
        &|sum: f32, w: f32| sum + w,
        &|acc: f32, w: f32, s: f32| acc + w * s,
    );
    assert_eq!(out.len(), 67 * 90 * 2, "output shape");
    for v in out {
        assert!((v - 0.7).abs() < 1e-5, "constant not preserved: {v}");
    }
}

#[test]
fn downsampling_a_constant_keeps_it() {
    let out = resize_aa(&vec![0.25f32; 40 * 30 * 3], (40, 30, 3), (7, 5));
    assert_eq!(out.len(), 7 * 5 * 3);
    assert!(out.iter().all(|v| (v - 0.25).abs() < 1e-5));
}

#[test]
fn resampling_takes_rows_before_columns() {
    // Two rows of two samples with two channels; integers make the sums exact.
    let src: Vec<i64> = vec![1, 10, 2, 20, 3, 30, 4, 40];
    let rows = vec![Taps { start: 0, weights: vec![1, 100] }, Taps { start: 1, weights: vec![1] }];
    let cols = vec![Taps { start: 0, weights: vec![1, 1000] }, Taps { start: 2, weights: vec![] }];
    let out = resample_2d(&src, (2, 2, 2), &rows, &cols, 0, &|acc: i64, w: i64, s: i64| {
        acc + w * s
    });
    assert_eq!(out, vec![402301, 4023010, 0, 0, 4003, 40030, 0, 0]);
}

#[test]
fn four_taps_fold_onto_the_border() {
    let weights = |base: i64, len: usize| {
        let points = vec![CubicPoint { base, frac: 0i64 }];
        let taps = taps_torch_no_aa(
            len,
            &points,
            0,
            &|k: i64, _: i64| 10i64.pow((k + 1) as u32),
            &|sum: i64, w: i64| sum + w,
        );
        (taps[0].start, taps[0].weights.clone())
    };
    assert_eq!(weights(3, 10), (2, vec![1, 10, 100, 1000]));
    assert_eq!(weights(0, 10), (0, vec![11, 100, 1000]));
    assert_eq!(weights(-1, 10), (0, vec![111, 1000]));
    assert_eq!(weights(-5, 10), (0, vec![1111]));
    assert_eq!(weights(8, 10), (7, vec![1, 10, 1100]));
    assert_eq!(weights(12, 10), (9, vec![1111]));
    assert_eq!(weights(0, 1), (0, vec![1111]));
}

#[test]
fn recovers_dominant_direction() {
    // Rows spread along (1, 1, 0)/sqrt(2) with small noise elsewhere.
    let n = 1000;
    let mut rows = Vec::with_capacity(n * 3);
    for i in 0..n {
        let t = (i as f32 / n as f32 - 0.5) * 10.0;
        let eps = (i as f32 * 0.7).sin() * 0.01;
        rows.extend_from_slice(&[t, t, eps]);
    }
    let dim = 3;
    let device = candle_core::Device::Cpu;
    let product = |chunk: &Vec<f32>, mean: &Vec<f64>| -> candle_core::Result<Vec<f32>> {
        let mean: Vec<f32> = mean.iter().map(|&m| m as f32).collect();
        let mean = candle_core::Tensor::from_vec(mean, (1, dim), &device)?;
        let x = candle_core::Tensor::from_vec(chunk.clone(), (chunk.len() / dim, dim), &device)?
            .broadcast_sub(&mean)?;
        x.t()?.matmul(&x)?.flatten_all()?.to_vec1::<f32>()
    };
    let eigen = |cov: &Vec<f64>| {
        let eig = nalgebra::SymmetricEigen::new(nalgebra::DMatrix::from_row_slice(dim, dim, cov));
        (doubles(eig.eigenvalues.as_slice()), doubles(eig.eigenvectors.as_slice()))
    };
    let basis = fit_pca(
        rows,
        dim,
        1,
        0.0f64,
        &|sum: f64, v: f32| sum + f64::from(v),
        &|sum: f64, n: usize| sum / n as f64,
        &product,
        &eigen,
        &|entry: Double| f64::from_bits(entry.bits) as f32,
    )
    .expect("pca fit");
    let inv_sqrt2 = 1.0 / 2.0f32.sqrt();
    assert!(
        (basis[0].abs() - inv_sqrt2).abs() < 1e-3
            && (basis[1].abs() - inv_sqrt2).abs() < 1e-3
            && basis[2].abs() < 0.05,
        "principal axis wrong: {basis:?}"
    );
    assert!(basis[0] > 0.0, "sign canonicalization");
}

#[test]
fn a_failed_product_fails_the_fit() {
    let outcome = fit_pca(
        vec![1u32, 2],
        1,
        1,
        0u32,
        &|sum: u32, v: u32| sum + v,
        &|sum: u32, _: usize| sum,
        &|_: &Vec<u32>, means: &Vec<u32>| {
            assert_eq!(means, &vec![3]);
            Err::<Vec<u32>, &str>("no device")
        },
        &|_: &Vec<u32>| (vec![], vec![]),
        &|_: Double| 0u32,
    );
    assert_eq!(outcome, Err("no device"));
}

#[test]
fn means_and_products_are_summed_in_order() {
    let rows: Vec<u32> = vec![1, 2, 3, 4, 5, 6];
    let sums = column_means(&rows, 2, 3, 0u32, &|s: u32, v: u32| s * 10 + v, &|s: u32, n: usize| {
        s * 10 + n as u32
    });
    assert_eq!(sums, vec![1353, 2463]);

    let n = COV_CHUNK_ROWS + 2;
    let cov = covariance(
        &vec![1u32; n],
        1,
        n,
        &vec![0u32],
        0u32,
        &|chunk: &Vec<u32>, _: &Vec<u32>| Ok::<_, ()>(vec![chunk.len() as u32]),
        &|s: u32, v: u32| s * 100_000 + v,
    );
    assert_eq!(cov, Ok(vec![16_384 * 100_000 + 2]));
}

#[test]
fn few_rows_are_all_used() {
    let rows: Vec<u32> = (0..100).collect();
    assert_eq!(select_fit_rows(rows.clone(), 5), rows);
}

#[test]
fn many_rows_are_sampled() {
    let n = PCA_MAX_ROWS + 1000;
    let rows: Vec<u32> = (0..n as u32).collect();
    let fit = select_fit_rows(rows.clone(), 1);
    assert_eq!(fit.len(), PCA_MAX_ROWS);
    assert_ne!(fit[..], rows[..PCA_MAX_ROWS]);
    let mut seen = vec![false; n];
    for r in &fit {
        assert!(!seen[*r as usize], "row drawn twice");
        seen[*r as usize] = true;
    }
}

#[test]
fn rows_are_gathered_whole() {
    let rows: Vec<u32> = vec![1, 2, 3, 4, 5, 6];
    assert_eq!(gather_rows(&rows, 2, &vec![2, 0, 2]), vec![5, 6, 1, 2, 5, 6]);
}

#[test]
fn eigenvectors_come_largest_first_and_upright() {
    let values = doubles(&[1.0, 5.0, -2.0]);
    assert_eq!(eigen_order(&values), vec![1, 0, 2]);
    // Column by column.
    let vectors = doubles(&[0.5, 0.25, 0.125, 0.1, -0.9, 0.2, 3.0, 2.0, 1.0]);
    assert!(is_comparable(&values, &vectors, 2));
    let basis = principal_basis(&values, &vectors, 2);
    assert_eq!(basis, doubles(&[-0.1, 0.5, 0.9, 0.25, -0.2, 0.125]));
    // More columns than there are eigenvectors stay zero.
    let wide = principal_basis(&doubles(&[2.0]), &doubles(&[-1.0]), 3);
    assert_eq!(wide, doubles(&[1.0, 0.0, 0.0]));
    assert!(!is_comparable(&doubles(&[1.0, f64::NAN]), &doubles(&[0.0; 4]), 1));
    assert!(!is_comparable(&doubles(&[2.0, 1.0]), &doubles(&[0.0, f64::NAN, 0.0, 0.0]), 1));
    assert!(is_comparable(&doubles(&[1.0, 2.0]), &doubles(&[0.0, f64::NAN, 0.0, 0.0]), 1));
}

#[test]
fn images_fit_whole_patches() {
    assert_eq!(get_img_resolution(1440, 1920, 1260, 14), (938, 1260));
    assert_eq!(get_img_resolution(1920, 1440, 1260, 14), (1260, 938));
    assert_eq!(get_img_resolution(100, 100, 518, 14), (518, 518));
    assert_eq!(get_img_resolution(3, 4000, 100, 14), (0, 98));
    assert_eq!(get_img_resolution(0, 5, 28, 14), (0, 28));
}

#[test]
fn images_are_found_by_extension() {
    let entry = |name: &str, is_file| DirEntry { name: PathName::from_text(name), is_file };
    let entries = vec![
        entry("b.PNG", true),
        entry("a.jpeg", true),
        entry("c.gif", true),
        entry("d.jpg", false),
        entry("Z.jpg", true),
        entry("png", true),
    ];
    let found: Vec<Vec<u8>> = find_images(&entries).into_iter().map(|n| n.bytes).collect();
    let expected: Vec<&[u8]> = vec![b"Z.jpg", b"a.jpeg", b"b.PNG"];
    assert_eq!(found, expected);
}

#[test]
fn pixels_become_planes() {
    let pixels: Vec<u32> = vec![1, 2, 3, 4, 5, 6];
    let planes = to_planes(&pixels, |c: usize, v: u32| v * 10 + c as u32);
    assert_eq!(planes, vec![10, 40, 21, 51, 32, 62]);
}

#[test]
fn models_are_known_by_name() {
    let c = Config::from_model_name("dinov2_vits14").expect("small");
    assert_eq!((c.embed_dim, c.depth, c.num_heads, c.patch_size), (384, 12, 6, 14));
    assert_eq!(c.hf_repo, "facebook/dinov2-small");
    let c = Config::from_model_name("dinov2_vitb14").expect("base");
    assert_eq!((c.embed_dim, c.depth, c.num_heads, c.patch_size), (768, 12, 12, 14));
    assert_eq!(c.hf_repo, "facebook/dinov2-base");
    let c = Config::from_model_name("dinov2_vitl14").expect("large");
    assert_eq!((c.embed_dim, c.depth, c.num_heads, c.patch_size), (1024, 24, 16, 14));
    assert_eq!(c.hf_repo, "facebook/dinov2-large");
    assert_eq!(
        Config::from_model_name("dinov2_vitg14").unwrap_err().message(),
        "unsupported model 'dinov2_vitg14' (supported: dinov2_vits14, dinov2_vitb14, dinov2_vitl14)"
    );
}

#[test]
fn supported_models_have_heads_of_64_and_a_grid_of_37() {
    for name in ["dinov2_vits14", "dinov2_vitb14", "dinov2_vitl14"] {
        let cfg = Config::from_model_name(name).expect("model");
        let model = DinoVisionTransformer::new(cfg);
        assert_eq!(model.pos_grid_side, 37);
        assert_eq!(model.pos_embed.shape, vec![1, 37 * 37 + 1, cfg.embed_dim]);
        assert_eq!(model.blocks.len(), cfg.depth);
        assert!(model.blocks.iter().all(|b| b.attn.head_dim == 64));
        assert_eq!(model.blocks[10].fc1.path, "encoder.layer.10.mlp.fc1");
        assert_eq!(model.blocks[10].attn.query.path, "encoder.layer.10.attention.attention.query");
        assert_eq!(model.blocks[0].fc1.outputs, 4 * cfg.embed_dim);
    }
}

#[test]
fn positional_embeddings_are_cached_by_grid() {
    let cfg = Config::from_model_name("dinov2_vits14").expect("model");
    let mut model = DinoVisionTransformer::new(cfg);
    let plan = model.forward_features(28, 42);
    assert_eq!(plan.grid, (2, 3));
    assert_eq!(plan.pos_embed, PosEmbedSource::Interpolated);
    assert_eq!(model.forward_features(41, 55).pos_embed, PosEmbedSource::Cached);
    assert_eq!(model.forward_features(518, 518).pos_embed, PosEmbedSource::Native);
    assert_eq!(model.forward_features(518, 518).pos_embed, PosEmbedSource::Cached);
    assert_eq!(model.forward_features(28, 42).pos_embed, PosEmbedSource::Interpolated);
    assert_eq!(model.pos_embed_for(2, 3), PosEmbedSource::Cached);
}

#[test]
fn chunks_cover_rows_once() {
    assert!(chunks_of(0, 4).is_empty());
    for total in [1usize, 3, 4, 5, 8, 9] {
        let mut next = 0;
        for chunk in chunks_of(total, 4) {
            assert_eq!(chunk.start, next);
            assert!(chunk.len >= 1 && chunk.len <= 4);
            next += chunk.len;
        }
        assert_eq!(next, total);
    }
    let chunks = attention_chunks(700);
    assert_eq!(chunks.len(), 2);
    assert_eq!((chunks[0].start, chunks[0].len), (0, ATTN_CHUNK));
    assert_eq!((chunks[1].start, chunks[1].len), (512, 188));
}

#[test]
fn devices_are_picked() {
    assert_eq!(pick_device(Some("cpu"), true, true).expect("cpu"), DeviceChoice::Cpu);
    assert_eq!(pick_device(Some("metal"), false, false).expect("metal"), DeviceChoice::Metal);
    assert_eq!(pick_device(Some("cuda"), false, false).expect("cuda"), DeviceChoice::Cuda);
    assert_eq!(pick_device(None, true, true).expect("best"), DeviceChoice::Metal);
    assert_eq!(pick_device(None, false, true).expect("best"), DeviceChoice::Cuda);
    assert_eq!(pick_device(None, false, false).expect("best"), DeviceChoice::Cpu);
    let e = pick_device(Some("tpu"), true, true).unwrap_err();
    assert_eq!(e.message(), "unknown device 'tpu'");
}

#[test]
fn precisions_are_picked() {
    assert_eq!(pick_precision("f32").expect("f32"), Precision::F32);
    assert_eq!(pick_precision("f16").expect("f16"), Precision::F16);
    assert_eq!(pick_precision("bf16").expect("bf16"), Precision::Bf16);
    assert_eq!(pick_precision("f64").unwrap_err().message(), "unknown dtype 'f64'");
}
