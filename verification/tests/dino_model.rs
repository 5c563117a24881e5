use std::collections::HashMap;

use brush::dino::dinov2::{
    attention_chunks, BlockPlan, Config, DinoVisionTransformer, LinearPlan, NormPlan,
    PosEmbedSource, TensorPlan,
};
use brush::dino::resize::{resize_grid_bicubic_torch, CubicPoint};
use candle_core::{DType, Device, IndexOp, Module, Result, Tensor, D};
use candle_nn::{
    conv2d, layer_norm, linear, ops::softmax_last_dim, Conv2d, Conv2dConfig, LayerNorm,
    LayerNormConfig, Linear, VarBuilder,
};

/// Deterministic pseudo-random values in roughly [-scale, scale].
fn pseudo_rand(n: usize, scale: f32, seed: u32) -> Vec<f32> {
    let mut state = seed.wrapping_mul(2654435761).wrapping_add(1);
    (0..n)
        .map(|_| {
            state = state.wrapping_mul(1664525).wrapping_add(1013904223);
            (state as f32 / u32::MAX as f32 - 0.5) * 2.0 * scale
        })
        .collect()
}

fn rand_tensor(shape: &[usize], scale: f32, seed: u32, device: &Device) -> Tensor {
    let n: usize = shape.iter().product();
    Tensor::from_vec(pseudo_rand(n, scale, seed), shape, device).expect("tensor")
}

fn max_abs_diff(a: &Tensor, b: &Tensor) -> f32 {
    let a = a.flatten_all().unwrap().to_vec1::<f32>().unwrap();
    let b = b.flatten_all().unwrap().to_vec1::<f32>().unwrap();
    a.iter().zip(&b).map(|(x, y)| (x - y).abs()).fold(0.0, f32::max)
}

fn attend_chunked(q: &Tensor, k: &Tensor, v: &Tensor, scale: f64) -> Result<Tensor> {
    let kt = k.transpose(D::Minus2, D::Minus1)?.contiguous()?;
    let mut outs = Vec::new();
    for chunk in attention_chunks(q.dim(2)?) {
        let scores = (q.narrow(2, chunk.start, chunk.len)?.contiguous()?.matmul(&kt)? * scale)?;
        outs.push(softmax_last_dim(&scores)?.matmul(v)?);
    }
    Tensor::cat(&outs, 2)
}

fn attend_naive(q: &Tensor, k: &Tensor, v: &Tensor, scale: f64) -> Result<Tensor> {
    let kt = k.transpose(D::Minus2, D::Minus1)?.contiguous()?;
    let attn = (q.matmul(&kt)? * scale)?;
    softmax_last_dim(&attn)?.matmul(v)
}

/// Spans multiple chunks plus a remainder (700 = 512 + 188).
#[test]
fn chunked_attention_matches_naive() {
    let dev = Device::Cpu;
    let (b, heads, t, hd) = (1, 2, 700, 16);
    let q = rand_tensor(&[b, heads, t, hd], 1.0, 1, &dev);
    let k = rand_tensor(&[b, heads, t, hd], 1.0, 2, &dev);
    let v = rand_tensor(&[b, heads, t, hd], 1.0, 3, &dev);
    let scale = 1.0 / (hd as f64).sqrt();
    let naive = attend_naive(&q, &k, &v, scale).expect("naive");
    let chunked = attend_chunked(&q, &k, &v, scale).expect("chunked");
    let diff = max_abs_diff(&naive, &chunked);
    assert!(diff < 1e-5, "chunked vs naive max abs diff {diff}");
}

/// Random weights under the names of a checkpoint, for a model small enough to
/// run the full forward pass. Norm weights sit near 1 so activations keep a
/// healthy scale.
fn tiny_model_weights(dim: usize, depth: usize, device: &Device) -> HashMap<String, Tensor> {
    let mut seed = 100;
    let mut next = |shape: &[usize], scale: f32, offset: f64| {
        seed += 1;
        rand_tensor(shape, scale, seed, device).affine(1.0, offset).expect("affine")
    };
    let mut entries: Vec<(String, Tensor)> = vec![
        (
            "embeddings.patch_embeddings.projection.weight".to_owned(),
            next(&[dim, 3, 14, 14], 0.05, 0.0),
        ),
        ("embeddings.patch_embeddings.projection.bias".to_owned(), next(&[dim], 0.05, 0.0)),
        ("embeddings.cls_token".to_owned(), next(&[1, 1, dim], 0.05, 0.0)),
        (
            "embeddings.position_embeddings".to_owned(),
            next(&[1, (518 / 14) * (518 / 14) + 1, dim], 0.05, 0.0),
        ),
        ("layernorm.weight".to_owned(), next(&[dim], 0.05, 1.0)),
        ("layernorm.bias".to_owned(), next(&[dim], 0.05, 0.0)),
    ];
    for i in 0..depth {
        let p = format!("encoder.layer.{i}");
        for ln in ["norm1", "norm2"] {
            entries.push((format!("{p}.{ln}.weight"), next(&[dim], 0.05, 1.0)));
            entries.push((format!("{p}.{ln}.bias"), next(&[dim], 0.05, 0.0)));
        }
        for qkv in ["query", "key", "value"] {
            let q = format!("{p}.attention.attention.{qkv}");
            entries.push((format!("{q}.weight"), next(&[dim, dim], 0.1, 0.0)));
            entries.push((format!("{q}.bias"), next(&[dim], 0.05, 0.0)));
        }
        let dense = format!("{p}.attention.output.dense");
        entries.push((format!("{dense}.weight"), next(&[dim, dim], 0.1, 0.0)));
        entries.push((format!("{dense}.bias"), next(&[dim], 0.05, 0.0)));
        entries.push((format!("{p}.layer_scale1.lambda1"), next(&[dim], 0.5, 0.0)));
        entries.push((format!("{p}.layer_scale2.lambda1"), next(&[dim], 0.5, 0.0)));
        entries.push((format!("{p}.mlp.fc1.weight"), next(&[dim * 4, dim], 0.1, 0.0)));
        entries.push((format!("{p}.mlp.fc1.bias"), next(&[dim * 4], 0.05, 0.0)));
        entries.push((format!("{p}.mlp.fc2.weight"), next(&[dim, dim * 4], 0.1, 0.0)));
        entries.push((format!("{p}.mlp.fc2.bias"), next(&[dim], 0.05, 0.0)));
    }
    entries.into_iter().collect()
}

fn load_linear(vb: &VarBuilder, plan: &LinearPlan) -> Linear {
    linear(plan.inputs, plan.outputs, vb.pp(&plan.path)).expect("linear")
}

fn load_norm(vb: &VarBuilder, plan: &NormPlan) -> LayerNorm {
    let config = LayerNormConfig { eps: 1e-6, ..Default::default() };
    layer_norm(plan.dim, config, vb.pp(&plan.path)).expect("norm")
}

fn load_tensor(vb: &VarBuilder, plan: &TensorPlan) -> Tensor {
    vb.get(plan.shape.clone(), &plan.path).expect("tensor")
}

fn cubic(x: f32, a: f32) -> f32 {
    let x = x.abs();
    if x < 1.0 {
        (a + 2.0) * x * x * x - (a + 3.0) * x * x + 1.0
    } else if x < 2.0 {
        a * (x * x * x - 5.0 * x * x + 8.0 * x - 4.0)
    } else {
        0.0
    }
}

fn points(n: usize, m: usize) -> Vec<CubicPoint<f32>> {
    let scale = (n as f32 + 0.1) / m as f32;
    (0..n)
        .map(|dst| {
            let center = (dst as f32 + 0.5) / scale - 0.5;
            let base = center.floor() as i64;
            CubicPoint { base, frac: center - base as f32 }
        })
        .collect()
}

fn run_block(vb: &VarBuilder, plan: &BlockPlan, xs: &Tensor) -> Result<Tensor> {
    let normed = load_norm(vb, &plan.norm1).forward(xs)?;
    let (b, t, d) = normed.dims3()?;
    let heads = plan.attn.num_heads;
    let split = |x: Tensor| x.reshape((b, t, heads, d / heads))?.transpose(1, 2)?.contiguous();
    let q = split(load_linear(vb, &plan.attn.query).forward(&normed)?)?;
    let k = split(load_linear(vb, &plan.attn.key).forward(&normed)?)?;
    let v = split(load_linear(vb, &plan.attn.value).forward(&normed)?)?;
    let scale = 1.0 / (plan.attn.head_dim as f64).sqrt();
    let out = attend_chunked(&q, &k, &v, scale)?.transpose(1, 2)?.reshape((b, t, d))?;
    let out = load_linear(vb, &plan.attn.proj).forward(&out)?;
    let xs = (xs + out.broadcast_mul(&load_tensor(vb, &plan.ls1))?)?;
    let hidden = load_linear(vb, &plan.fc1).forward(&load_norm(vb, &plan.norm2).forward(&xs)?)?;
    let mlp = load_linear(vb, &plan.fc2).forward(&hidden.gelu_erf()?)?;
    &xs + mlp.broadcast_mul(&load_tensor(vb, &plan.ls2))?
}

/// Runs the model that the plan describes.
fn run(vb: &VarBuilder, model: &mut DinoVisionTransformer, img: &Tensor) -> Result<Tensor> {
    let (_, _, h, w) = img.dims4()?;
    let plan = model.forward_features(h, w);
    let (h0, w0) = plan.grid;
    let cls = load_tensor(vb, &model.cls_token);
    let dtype = cls.dtype();
    let conv: Conv2d = conv2d(
        model.patch_proj.inputs,
        model.patch_proj.outputs,
        model.patch_proj.kernel,
        Conv2dConfig { stride: model.patch_proj.kernel, ..Default::default() },
        vb.pp(&model.patch_proj.path),
    )?;
    let patches = conv.forward(&img.to_dtype(dtype)?)?.flatten_from(2)?.transpose(1, 2)?;
    let tokens = Tensor::cat(&[&cls, &patches], 1)?;

    let m = model.pos_grid_side;
    let dim = model.cfg.embed_dim;
    let pos = load_tensor(vb, &model.pos_embed);
    let grid = pos.i((0, 1.., ..))?.contiguous()?.to_dtype(DType::F32)?;
    let grid = grid.flatten_all()?.to_vec1::<f32>()?;
    assert_eq!(plan.pos_embed, PosEmbedSource::Interpolated);
    let patch = resize_grid_bicubic_torch(
        &grid,
        (m, m, dim),
        &points(h0, m),
        &points(w0, m),
        0.0,
        &|k: i64, frac: f32| cubic(k as f32 - frac, -0.75),
        &|sum: f32, w: f32| sum + w,
        &|acc: f32, w: f32, s: f32| acc + w * s,
    );
    let patch = Tensor::from_vec(patch, (1, h0 * w0, dim), img.device())?.to_dtype(dtype)?;
    let pos = Tensor::cat(&[&pos.i((.., ..1, ..))?.contiguous()?, &patch], 1)?;
    let mut tokens = tokens.broadcast_add(&pos)?;
    for block in &model.blocks {
        tokens = run_block(vb, block, &tokens)?;
    }
    let tokens = load_norm(vb, &model.norm).forward(&tokens)?;
    tokens.i((0, 1.., ..))?.to_dtype(DType::F32)?.reshape((h0, w0, dim))
}

fn tiny_forward(dtype: DType, device: &Device) -> Tensor {
    let cfg = Config { embed_dim: 32, depth: 2, num_heads: 2, patch_size: 14, hf_repo: "" };
    let weights = tiny_model_weights(cfg.embed_dim, cfg.depth, device);
    let vb = VarBuilder::from_tensors(weights, dtype, device);
    let mut model = DinoVisionTransformer::new(cfg);
    // 2x3 patch grid; deterministic input shared across dtypes.
    let img = rand_tensor(&[1, 3, 28, 42], 1.0, 7, device);
    run(&vb, &mut model, &img).expect("forward")
}

#[test]
fn f16_forward_close_to_f32() {
    let dev = Device::Cpu;
    let f32_out = tiny_forward(DType::F32, &dev).flatten_all().unwrap().to_vec1::<f32>().unwrap();
    let f16_out = tiny_forward(DType::F16, &dev).flatten_all().unwrap().to_vec1::<f32>().unwrap();
    let dot: f32 = f32_out.iter().zip(&f16_out).map(|(a, b)| a * b).sum();
    let na = f32_out.iter().map(|a| a * a).sum::<f32>().sqrt();
    let nb = f16_out.iter().map(|b| b * b).sum::<f32>().sqrt();
    let cosine = dot / (na * nb);
    assert!(cosine > 0.999, "f16 vs f32 cosine {cosine}");
}

/// The f32 forward itself must be deterministic and finite.
#[test]
fn forward_output_is_finite() {
    let out = tiny_forward(DType::F32, &Device::Cpu);
    assert_eq!(out.dims(), [2, 3, 32]);
    let vals = out.flatten_all().unwrap().to_vec1::<f32>().unwrap();
    assert!(vals.iter().all(|v| v.is_finite()));
}
