use candle_core::{Device, Tensor};
use pocket_tts::error::AttentionError;
use pocket_tts::mask::{
    generate_mask_chunk, mask_chunk_bits, mask_tensor, rows_attend, tile_mask,
    NEG_INFINITY_BITS, ZERO_BITS,
};

fn tensor_bits(t: &Tensor) -> Vec<u32> {
    t.flatten_all()
        .unwrap()
        .to_vec1::<f32>()
        .unwrap()
        .into_iter()
        .map(|x| x.to_bits())
        .collect()
}

fn expected_entry(
    i_abs: usize,
    j: usize,
    k_len: usize,
    total_q_len: usize,
    causal: bool,
    window: Option<usize>,
) -> u32 {
    let shift = k_len.saturating_sub(total_q_len);
    let pos_q = i_abs + shift;
    let future = causal && j > pos_q;
    let out = match window {
        Some(w) => pos_q >= w && j <= pos_q - w,
        None => false,
    };
    if future || out {
        f32::NEG_INFINITY.to_bits()
    } else {
        0.0f32.to_bits()
    }
}

#[test]
fn mask_constants_are_the_float_bit_patterns() {
    assert_eq!(ZERO_BITS, 0.0f32.to_bits());
    assert_eq!(NEG_INFINITY_BITS, f32::NEG_INFINITY.to_bits());
    assert_eq!(f32::from_bits(NEG_INFINITY_BITS), f32::NEG_INFINITY);
}

#[test]
fn mask_causal_square_is_lower_triangular() {
    let bits = mask_chunk_bits(0, 3, 3, 3, true, None).unwrap();
    let n = NEG_INFINITY_BITS;
    assert_eq!(bits, vec![0, n, n, 0, 0, n, 0, 0, 0]);
}

#[test]
fn mask_with_cache_shifts_queries_to_the_end() {
    // Two new queries behind three cached keys: positions 3 and 4 of five.
    let bits = mask_chunk_bits(0, 2, 5, 2, true, None).unwrap();
    let n = NEG_INFINITY_BITS;
    assert_eq!(bits, vec![0, 0, 0, 0, n, 0, 0, 0, 0, 0]);
}

#[test]
fn mask_context_window_hides_old_keys() {
    // Window of two: a query sees its own position and the one before.
    let bits = mask_chunk_bits(0, 4, 4, 4, true, Some(2)).unwrap();
    let n = NEG_INFINITY_BITS;
    assert_eq!(
        bits,
        vec![
            0, n, n, n, //
            0, 0, n, n, //
            n, 0, 0, n, //
            n, n, 0, 0,
        ]
    );
}

#[test]
fn mask_context_window_without_causality() {
    let bits = mask_chunk_bits(0, 3, 3, 3, false, Some(1)).unwrap();
    let n = NEG_INFINITY_BITS;
    // pos_q >= 1 hides every key up to pos_q - 1; nothing ahead is hidden.
    assert_eq!(bits, vec![0, 0, 0, n, 0, 0, n, n, 0]);
}

#[test]
fn mask_without_rules_is_all_zero() {
    let bits = mask_chunk_bits(0, 2, 3, 2, false, None).unwrap();
    assert_eq!(bits, vec![0; 6]);
}

#[test]
fn mask_fewer_keys_than_queries_has_no_shift() {
    let bits = mask_chunk_bits(1, 2, 2, 4, true, None).unwrap();
    // Queries 1 and 2 of four, two keys: both keys lie at or before them.
    assert_eq!(bits, vec![0, 0, 0, 0]);
}

#[test]
fn mask_empty_ranges() {
    assert_eq!(mask_chunk_bits(0, 0, 5, 0, true, None).unwrap(), Vec::<u32>::new());
    assert_eq!(mask_chunk_bits(0, 5, 0, 5, true, None).unwrap(), Vec::<u32>::new());
}

#[test]
fn mask_too_large_is_refused() {
    assert!(mask_chunk_bits(0, usize::MAX, 2, usize::MAX, true, None).is_none());
    let r = generate_mask_chunk(0, usize::MAX, 2, usize::MAX, true, None, &Device::Cpu);
    assert!(matches!(r, Err(AttentionError::Shape)));
}

#[test]
fn mask_huge_start_does_not_overflow() {
    let bits = mask_chunk_bits(usize::MAX, 1, 2, 1, true, Some(3)).unwrap();
    // The query stands far behind both keys: both are out of its window.
    assert_eq!(bits, vec![NEG_INFINITY_BITS, NEG_INFINITY_BITS]);
    let bits = mask_chunk_bits(usize::MAX, 1, 2, 1, true, None).unwrap();
    assert_eq!(bits, vec![0, 0]);
}

#[test]
fn mask_tensor_has_shape_and_values() {
    let mask = generate_mask_chunk(2, 3, 7, 5, true, Some(3), &Device::Cpu).unwrap();
    assert_eq!(mask.dims(), &[1, 1, 3, 7]);
    assert_eq!(mask.dtype(), candle_core::DType::F32);
    let got = tensor_bits(&mask);
    let mut want = Vec::new();
    for i in 0..3 {
        for j in 0..7 {
            want.push(expected_entry(2 + i, j, 7, 5, true, Some(3)));
        }
    }
    assert_eq!(got, want);
    let values = mask.flatten_all().unwrap().to_vec1::<f32>().unwrap();
    assert!(values.iter().all(|x| *x == 0.0 || *x == f32::NEG_INFINITY));
    assert!(values.iter().any(|x| *x == f32::NEG_INFINITY));
    assert!(values.iter().any(|x| *x == 0.0));
}

#[test]
fn mask_matches_entry_formula_everywhere() {
    for &(k_len, total) in &[(9usize, 9usize), (12, 5), (4, 7)] {
        for &causal in &[true, false] {
            for &window in &[None, Some(0usize), Some(1), Some(3), Some(20)] {
                let bits = mask_chunk_bits(0, total, k_len, total, causal, window).unwrap();
                assert_eq!(bits.len(), total * k_len);
                for i in 0..total {
                    for j in 0..k_len {
                        assert_eq!(
                            bits[i * k_len + j],
                            expected_entry(i, j, k_len, total, causal, window)
                        );
                    }
                }
            }
        }
    }
}

fn tiled(total: usize, k_len: usize, chunk: usize, causal: bool, window: Option<usize>) -> Vec<u32> {
    let mut all = Vec::new();
    let mut start = 0;
    while start < total {
        let len = chunk.min(total - start);
        all.extend(mask_chunk_bits(start, len, k_len, total, causal, window).unwrap());
        start += len;
    }
    all
}

#[test]
fn mask_tile_invariance_chunk_sizes_1_37_128() {
    let total = 300;
    for &k_len in &[300usize, 340] {
        for &window in &[None, Some(50usize)] {
            let full = mask_chunk_bits(0, total, k_len, total, true, window).unwrap();
            for &chunk in &[1usize, 37, 128] {
                assert_eq!(tiled(total, k_len, chunk, true, window), full);
            }
        }
    }
}

#[test]
fn mask_tile_invariance_on_tensors() {
    let total = 10;
    let k_len = 13;
    let full = generate_mask_chunk(0, total, k_len, total, true, Some(4), &Device::Cpu).unwrap();
    let a = generate_mask_chunk(0, 3, k_len, total, true, Some(4), &Device::Cpu).unwrap();
    let b = generate_mask_chunk(3, 7, k_len, total, true, Some(4), &Device::Cpu).unwrap();
    let joined = Tensor::cat(&[a, b], 2).unwrap();
    assert_eq!(joined.dims(), full.dims());
    assert_eq!(tensor_bits(&joined), tensor_bits(&full));
}

#[test]
fn mask_causality_every_future_key_is_masked() {
    let (total, k_len) = (6usize, 10usize);
    let bits = mask_chunk_bits(0, total, k_len, total, true, None).unwrap();
    for i in 0..total {
        let pos_q = i + (k_len - total);
        for j in 0..k_len {
            if j > pos_q {
                assert_eq!(bits[i * k_len + j], NEG_INFINITY_BITS);
            } else {
                assert_eq!(bits[i * k_len + j], ZERO_BITS);
            }
        }
    }
}

#[test]
fn mask_context_window_every_old_key_is_masked() {
    let (total, k_len, w) = (6usize, 10usize, 3usize);
    let bits = mask_chunk_bits(0, total, k_len, total, false, Some(w)).unwrap();
    for i in 0..total {
        let pos_q = i + (k_len - total);
        for j in 0..k_len {
            if pos_q >= w && j <= pos_q - w {
                assert_eq!(bits[i * k_len + j], NEG_INFINITY_BITS);
            } else {
                assert_eq!(bits[i * k_len + j], ZERO_BITS);
            }
        }
    }
}

fn some_row_is_blind(q_len: usize, k_len: usize, causal: bool, window: Option<usize>) -> bool {
    let bits = mask_chunk_bits(0, q_len, k_len, q_len, causal, window).unwrap();
    (0..q_len).any(|i| (0..k_len).all(|j| bits[i * k_len + j] == NEG_INFINITY_BITS))
}

#[test]
fn rows_attend_agrees_with_the_mask() {
    for q_len in 0..6usize {
        for k_len in 0..8usize {
            for &causal in &[true, false] {
                for &window in &[None, Some(0usize), Some(1), Some(2), Some(5)] {
                    assert_eq!(
                        rows_attend(q_len, k_len, causal, window),
                        !some_row_is_blind(q_len, k_len, causal, window),
                        "q_len {q_len} k_len {k_len} causal {causal} window {window:?}"
                    );
                }
            }
        }
    }
}

#[test]
fn rows_attend_named_cases() {
    assert!(rows_attend(5, 5, true, None));
    assert!(rows_attend(1, 6, true, Some(1)));
    assert!(!rows_attend(1, 6, true, Some(0)));
    assert!(!rows_attend(3, 0, false, None));
    assert!(rows_attend(0, 0, true, Some(0)));
    // Ten queries, two keys, window one: the later queries see no key.
    assert!(!rows_attend(10, 2, true, Some(1)));
}

#[test]
fn tile_mask_only_where_a_rule_asks_for_one() {
    assert_eq!(tile_mask(0, 2, 3, 2, false, None), None);
    assert_eq!(tile_mask(0, 2, 3, 2, true, None), mask_chunk_bits(0, 2, 3, 2, true, None));
    assert_eq!(
        tile_mask(1, 2, 4, 3, false, Some(2)),
        mask_chunk_bits(1, 2, 4, 3, false, Some(2))
    );
    let n = NEG_INFINITY_BITS;
    assert_eq!(tile_mask(1, 2, 3, 3, true, None), Some(vec![0, 0, n, 0, 0, 0]));
    assert_eq!(tile_mask(0, usize::MAX, 2, usize::MAX, true, None), None);
}

#[test]
fn mask_tensor_lays_bits_out() {
    let bits = vec![0, NEG_INFINITY_BITS, 0, 0, 0x3F80_0000, 0];
    let t = mask_tensor(&bits, 2, 3, &Device::Cpu).unwrap();
    assert_eq!(t.dims(), &[1, 1, 2, 3]);
    assert_eq!(tensor_bits(&t), bits);
    assert_eq!(t.flatten_all().unwrap().to_vec1::<f32>().unwrap()[4], 1.0);
}
