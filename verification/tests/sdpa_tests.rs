use candle_core::{DType, Device, Tensor};
use pocket_tts::error::AttentionError;
use pocket_tts::sdpa::{sdpa, sdpa_with_policy, tiles, SdpaPolicy, Strategy};

fn scalar(x: f32) -> Tensor {
    Tensor::new(x, &Device::Cpu).unwrap()
}

fn random(shape: (usize, usize, usize, usize)) -> Tensor {
    Tensor::randn(0f32, 1f32, shape, &Device::Cpu).unwrap()
}

fn flat(t: &Tensor) -> Vec<f32> {
    t.flatten_all().unwrap().to_vec1::<f32>().unwrap()
}

/// Full-matrix masked softmax attention, written out element by element.
fn reference(
    q: &Tensor,
    k: &Tensor,
    v: &Tensor,
    scale: f32,
    causal: bool,
    window: Option<usize>,
) -> Vec<f32> {
    let (b, h, tq, d) = q.dims4().unwrap();
    let tk = k.dims()[2];
    let qv = flat(q);
    let kv = flat(k);
    let vv = flat(v);
    let shift = tk.saturating_sub(tq);
    let mut out = vec![0f32; b * h * tq * d];
    for bh in 0..b * h {
        for i in 0..tq {
            let pos_q = i + shift;
            let mut scores = vec![f32::NEG_INFINITY; tk];
            for j in 0..tk {
                let future = causal && j > pos_q;
                let old = match window {
                    Some(w) => pos_q >= w && j <= pos_q - w,
                    None => false,
                };
                if future || old {
                    continue;
                }
                let mut dot = 0f32;
                for c in 0..d {
                    dot += qv[(bh * tq + i) * d + c] * kv[(bh * tk + j) * d + c];
                }
                scores[j] = dot * scale;
            }
            let max = scores.iter().cloned().fold(f32::NEG_INFINITY, f32::max);
            let exps: Vec<f32> = scores.iter().map(|s| (s - max).exp()).collect();
            let sum: f32 = exps.iter().sum();
            for j in 0..tk {
                let p = exps[j] / sum;
                if p == 0.0 {
                    continue;
                }
                for c in 0..d {
                    out[(bh * tq + i) * d + c] += p * vv[(bh * tk + j) * d + c];
                }
            }
        }
    }
    out
}

fn max_abs_diff(a: &[f32], b: &[f32]) -> f32 {
    assert_eq!(a.len(), b.len());
    a.iter().zip(b.iter()).map(|(x, y)| (x - y).abs()).fold(0f32, f32::max)
}

fn check_against_reference(tq: usize, tk: usize, window: Option<usize>) {
    let (b, h, d) = (1, 2, 8);
    let q = random((b, h, tq, d));
    let k = random((b, h, tk, d));
    let v = random((b, h, tk, d));
    let out = sdpa(&q, &k, &v, &scalar(0.25), true, window).unwrap();
    assert_eq!(out.dims(), &[b, h, tq, d]);
    let want = reference(&q, &k, &v, 0.25, true, window);
    let diff = max_abs_diff(&flat(&out), &want);
    assert!(diff < 1e-4, "tq {tq} tk {tk} window {window:?}: diff {diff}");
}

#[test]
fn sdpa_equivalence_naive_q1() {
    check_against_reference(1, 1, None);
    check_against_reference(1, 40, None);
    check_against_reference(1, 40, Some(16));
}

#[test]
fn sdpa_equivalence_naive_q64() {
    check_against_reference(64, 64, None);
    check_against_reference(64, 128, Some(32));
}

#[test]
fn sdpa_equivalence_naive_q128() {
    check_against_reference(128, 128, None);
    check_against_reference(128, 160, Some(100));
}

#[test]
fn sdpa_equivalence_naive_q256() {
    check_against_reference(256, 256, None);
    check_against_reference(256, 300, Some(100));
}

#[test]
fn sdpa_equivalence_tiled_q600() {
    check_against_reference(600, 600, None);
    check_against_reference(600, 640, Some(100));
}

#[test]
fn sdpa_equivalence_tiled_q1024() {
    check_against_reference(1024, 1024, None);
    check_against_reference(1024, 1024, Some(100));
}

#[test]
fn sdpa_without_mask_is_plain_attention() {
    let q = random((2, 3, 5, 4));
    let k = random((2, 3, 7, 4));
    let v = random((2, 3, 7, 4));
    let out = sdpa(&q, &k, &v, &scalar(0.5), false, None).unwrap();
    let want = reference(&q, &k, &v, 0.5, false, None);
    assert!(max_abs_diff(&flat(&out), &want) < 1e-4);
}

#[test]
fn sdpa_context_window_without_causality() {
    let q = random((1, 2, 6, 4));
    let k = random((1, 2, 9, 4));
    let v = random((1, 2, 9, 4));
    let out = sdpa(&q, &k, &v, &scalar(0.5), false, Some(4)).unwrap();
    let want = reference(&q, &k, &v, 0.5, false, Some(4));
    assert!(max_abs_diff(&flat(&out), &want) < 1e-4);
}

#[test]
fn sdpa_scale_is_applied() {
    let q = random((1, 1, 4, 4));
    let k = random((1, 1, 4, 4));
    let v = random((1, 1, 4, 4));
    let small = sdpa(&q, &k, &v, &scalar(0.01), true, None).unwrap();
    let large = sdpa(&q, &k, &v, &scalar(3.0), true, None).unwrap();
    assert!(max_abs_diff(&flat(&small), &reference(&q, &k, &v, 0.01, true, None)) < 1e-4);
    assert!(max_abs_diff(&flat(&large), &reference(&q, &k, &v, 3.0, true, None)) < 1e-4);
    assert!(max_abs_diff(&flat(&small), &flat(&large)) > 1e-3);
}

#[test]
fn sdpa_causal_output_ignores_future_keys() {
    // Changing keys and values after the query's position changes nothing.
    let q = random((1, 1, 3, 4));
    let k = random((1, 1, 3, 4));
    let v = random((1, 1, 3, 4));
    let first = sdpa(&q, &k, &v, &scalar(0.5), true, None).unwrap();
    let k2 = Tensor::cat(&[k.narrow(2, 0, 1).unwrap(), random((1, 1, 2, 4))], 2).unwrap();
    let v2 = Tensor::cat(&[v.narrow(2, 0, 1).unwrap(), random((1, 1, 2, 4))], 2).unwrap();
    let second = sdpa(&q, &k2, &v2, &scalar(0.5), true, None).unwrap();
    let a = flat(&first.narrow(2, 0, 1).unwrap());
    let b = flat(&second.narrow(2, 0, 1).unwrap());
    assert!(max_abs_diff(&a, &b) < 1e-6);
    // The first query sees only the first key, so it returns the first value.
    let v0 = flat(&v.narrow(2, 0, 1).unwrap());
    assert!(max_abs_diff(&a, &v0) < 1e-6);
}

#[test]
fn sdpa_context_window_drops_old_keys() {
    // Window one: each query sees only its own position.
    let q = random((1, 1, 5, 4));
    let k = random((1, 1, 5, 4));
    let v = random((1, 1, 5, 4));
    let out = sdpa(&q, &k, &v, &scalar(0.5), true, Some(1)).unwrap();
    assert!(max_abs_diff(&flat(&out), &flat(&v)) < 1e-6);
}

#[test]
fn sdpa_tiles_give_what_one_pass_gives() {
    let q = random((1, 2, 50, 8));
    let k = random((1, 2, 70, 8));
    let v = random((1, 2, 70, 8));
    let one_pass = SdpaPolicy::new(usize::MAX, 128).unwrap();
    let whole = sdpa_with_policy(&q, &k, &v, &scalar(0.3), true, Some(20), &one_pass).unwrap();
    for block in [1usize, 7, 37, 50, 128] {
        let tiled = SdpaPolicy::new(0, block).unwrap();
        let parts = sdpa_with_policy(&q, &k, &v, &scalar(0.3), true, Some(20), &tiled).unwrap();
        assert_eq!(parts.dims(), whole.dims());
        assert!(max_abs_diff(&flat(&parts), &flat(&whole)) < 1e-5, "block {block}");
    }
}

#[test]
fn sdpa_has_no_nan() {
    let q = random((1, 2, 600, 4));
    let k = random((1, 2, 600, 4));
    let v = random((1, 2, 600, 4));
    let out = sdpa(&q, &k, &v, &scalar(0.5), true, Some(3)).unwrap();
    assert!(flat(&out).iter().all(|x| x.is_finite()));
}

#[test]
fn sdpa_rejects_wrong_rank() {
    let q = Tensor::zeros((2, 4, 8), DType::F32, &Device::Cpu).unwrap();
    let k = random((1, 2, 4, 8));
    let v = random((1, 2, 4, 8));
    assert!(matches!(sdpa(&q, &k, &v, &scalar(1.0), true, None), Err(AttentionError::Shape)));
    let q = random((1, 2, 4, 8));
    let k3 = Tensor::zeros((2, 4, 8), DType::F32, &Device::Cpu).unwrap();
    assert!(matches!(sdpa(&q, &k3, &v, &scalar(1.0), true, None), Err(AttentionError::Shape)));
    let k1 = Tensor::zeros(8, DType::F32, &Device::Cpu).unwrap();
    assert!(matches!(sdpa(&q, &k1, &v, &scalar(1.0), true, None), Err(AttentionError::Shape)));
}

#[test]
fn sdpa_rejects_mismatched_dims() {
    let q = random((1, 2, 4, 8));
    let k = random((1, 2, 6, 8));
    let v = random((1, 2, 6, 8));
    let s = scalar(1.0);
    assert!(sdpa(&q, &k, &v, &s, true, None).is_ok());
    // head width
    let k_bad = random((1, 2, 6, 4));
    assert!(matches!(sdpa(&q, &k_bad, &v, &s, true, None), Err(AttentionError::Shape)));
    // heads
    let k_bad = random((1, 3, 6, 8));
    assert!(matches!(sdpa(&q, &k_bad, &v, &s, true, None), Err(AttentionError::Shape)));
    // batch
    let v_bad = random((2, 2, 6, 8));
    assert!(matches!(sdpa(&q, &k, &v_bad, &s, true, None), Err(AttentionError::Shape)));
    // keys and values of different length
    let v_bad = random((1, 2, 5, 8));
    assert!(matches!(sdpa(&q, &k, &v_bad, &s, true, None), Err(AttentionError::Shape)));
    // value width
    let v_bad = random((1, 2, 6, 3));
    assert!(matches!(sdpa(&q, &k, &v_bad, &s, true, None), Err(AttentionError::Shape)));
}

#[test]
fn sdpa_rejects_scale_with_axes() {
    let q = random((1, 2, 4, 8));
    let k = random((1, 2, 4, 8));
    let v = random((1, 2, 4, 8));
    let s = Tensor::new(&[0.5f32], &Device::Cpu).unwrap();
    assert!(matches!(sdpa(&q, &k, &v, &s, true, None), Err(AttentionError::Shape)));
}

#[test]
fn sdpa_rejects_empty_tensors() {
    let s = scalar(1.0);
    let q0 = Tensor::zeros((1, 2, 0, 8), DType::F32, &Device::Cpu).unwrap();
    let k = random((1, 2, 4, 8));
    let v = random((1, 2, 4, 8));
    assert!(matches!(sdpa(&q0, &k, &v, &s, true, None), Err(AttentionError::Shape)));
    let q = random((1, 2, 4, 8));
    let k0 = Tensor::zeros((1, 2, 0, 8), DType::F32, &Device::Cpu).unwrap();
    let v0 = Tensor::zeros((1, 2, 0, 8), DType::F32, &Device::Cpu).unwrap();
    assert!(matches!(sdpa(&q, &k0, &v0, &s, false, None), Err(AttentionError::Shape)));
}

#[test]
fn sdpa_reports_blind_rows_as_numeric() {
    let s = scalar(1.0);
    let q = random((1, 1, 3, 4));
    let k = random((1, 1, 3, 4));
    let v = random((1, 1, 3, 4));
    assert!(matches!(sdpa(&q, &k, &v, &s, true, Some(0)), Err(AttentionError::Numeric)));
    // Ten queries but two keys, window one: late queries see nothing.
    let q = random((1, 1, 10, 4));
    let k = random((1, 1, 2, 4));
    let v = random((1, 1, 2, 4));
    assert!(matches!(sdpa(&q, &k, &v, &s, true, Some(1)), Err(AttentionError::Numeric)));
    assert!(sdpa(&q, &k, &v, &s, true, None).is_ok());
}

#[test]
fn sdpa_backend_failure_is_passed_on() {
    // The mask is single precision; half-precision scores cannot take it.
    let q = random((1, 1, 3, 4)).to_dtype(DType::F16).unwrap();
    let k = random((1, 1, 3, 4)).to_dtype(DType::F16).unwrap();
    let v = random((1, 1, 3, 4)).to_dtype(DType::F16).unwrap();
    let s = scalar(1.0).to_dtype(DType::F16).unwrap();
    let r = sdpa(&q, &k, &v, &s, true, None);
    assert!(matches!(r, Err(AttentionError::Backend(_))));
}

#[test]
fn policy_selects_strategy_by_query_length() {
    let policy = SdpaPolicy::default();
    assert_eq!(policy.tiling_threshold(), 512);
    assert_eq!(policy.block_size(), 128);
    assert_eq!(policy.select_strategy(0), Strategy::Naive);
    assert_eq!(policy.select_strategy(511), Strategy::Naive);
    assert_eq!(policy.select_strategy(512), Strategy::Tiled);
    assert_eq!(policy.select_strategy(100_000), Strategy::Tiled);
}

#[test]
fn policy_needs_a_tile_size() {
    assert!(SdpaPolicy::new(10, 0).is_none());
    let p = SdpaPolicy::new(10, 1).unwrap();
    assert_eq!(p.tiling_threshold(), 10);
    assert_eq!(p.block_size(), 1);
    assert_eq!(p.select_strategy(9), Strategy::Naive);
    assert_eq!(p.select_strategy(10), Strategy::Tiled);
}

#[test]
fn sdpa_refuses_integer_queries() {
    let q = Tensor::ones((1, 1, 3, 4), DType::U32, &Device::Cpu).unwrap();
    let k = Tensor::ones((1, 1, 3, 4), DType::U32, &Device::Cpu).unwrap();
    let v = Tensor::ones((1, 1, 3, 4), DType::U32, &Device::Cpu).unwrap();
    let s = Tensor::new(1u32, &Device::Cpu).unwrap();
    assert!(matches!(sdpa(&q, &k, &v, &s, true, None), Err(AttentionError::Shape)));
    let q8 = Tensor::ones((1, 1, 3, 4), DType::U8, &Device::Cpu).unwrap();
    assert!(matches!(sdpa(&q8, &k, &v, &s, false, None), Err(AttentionError::Shape)));
}

#[test]
fn tiles_below_the_threshold_are_one() {
    let policy = SdpaPolicy::default();
    assert_eq!(tiles(&policy, 1), vec![(0, 1)]);
    assert_eq!(tiles(&policy, 511), vec![(0, 511)]);
    assert_eq!(tiles(&policy, 0), vec![(0, 0)]);
}

#[test]
fn tiles_from_the_threshold_on_are_blocks() {
    let policy = SdpaPolicy::default();
    assert_eq!(tiles(&policy, 512), vec![(0, 128), (128, 128), (256, 128), (384, 128)]);
    assert_eq!(
        tiles(&policy, 600),
        vec![(0, 128), (128, 128), (256, 128), (384, 128), (512, 88)]
    );
    let small = SdpaPolicy::new(0, 37).unwrap();
    assert_eq!(tiles(&small, 0), Vec::<(usize, usize)>::new());
    assert_eq!(tiles(&small, 1), vec![(0, 1)]);
    assert_eq!(tiles(&small, 37), vec![(0, 37)]);
    assert_eq!(tiles(&small, 38), vec![(0, 37), (37, 1)]);
    assert_eq!(tiles(&small, 100), vec![(0, 37), (37, 37), (74, 26)]);
    let ones = SdpaPolicy::new(0, 1).unwrap();
    assert_eq!(tiles(&ones, 3), vec![(0, 1), (1, 1), (2, 1)]);
}
