use candle_core::{DType, Device, Tensor};
use spm_core::cache::Cache;

struct TestConfig {
    hidden_size: usize,
    num_hidden_layers: usize,
    num_attention_heads: usize,
    rope_theta: f32,
    max_seq_len: usize,
}

fn test_config(num_layers: usize, max_seq_len: usize) -> TestConfig {
    TestConfig {
        hidden_size: 32,
        num_hidden_layers: num_layers,
        num_attention_heads: 4,
        rope_theta: 10000.0,
        max_seq_len,
    }
}

/// The rotary tables the model computes for a configuration.
fn rope_tables(cfg: &TestConfig, dtype: DType, device: &Device) -> (Tensor, Tensor) {
    let n_elem = cfg.hidden_size / cfg.num_attention_heads;
    let theta: Vec<f32> = (0..n_elem)
        .step_by(2)
        .map(|i| 1f32 / cfg.rope_theta.powf(i as f32 / n_elem as f32))
        .collect();
    let theta = Tensor::new(theta.as_slice(), device).unwrap();
    let idx_theta = Tensor::arange(0, cfg.max_seq_len as u32, device)
        .unwrap()
        .to_dtype(DType::F32)
        .unwrap()
        .reshape((cfg.max_seq_len, 1))
        .unwrap()
        .matmul(&theta.reshape((1, theta.elem_count())).unwrap())
        .unwrap();
    let cos = idx_theta.cos().unwrap().to_dtype(dtype).unwrap();
    let sin = idx_theta.sin().unwrap().to_dtype(dtype).unwrap();
    (cos, sin)
}

fn new_cache(use_kv: bool, cfg: &TestConfig, device: &Device) -> Cache {
    let (cos, sin) = rope_tables(cfg, DType::F32, device);
    Cache::new(use_kv, cos, sin, cfg.num_hidden_layers, device, cfg.max_seq_len)
}

#[test]
fn process_kv_replaces_on_index_pos_zero() {
    let device = Device::Cpu;
    let cfg = test_config(2, 64);
    let mut cache = new_cache(true, &cfg, &device);

    // A continuation leaves an entry in the cache.
    let k1 = Tensor::zeros((1, 4, 10, 8), DType::F32, &device).unwrap();
    let v1 = Tensor::zeros((1, 4, 10, 8), DType::F32, &device).unwrap();
    let (k, _v) = cache.process_kv(0, 1, k1, v1).unwrap();
    assert_eq!(k.dims()[2], 10);

    // A new prefill should replace instead of append.
    let k2 = Tensor::zeros((1, 4, 7, 8), DType::F32, &device).unwrap();
    let v2 = Tensor::zeros((1, 4, 7, 8), DType::F32, &device).unwrap();
    let (k, _v) = cache.process_kv(0, 0, k2, v2).unwrap();
    assert_eq!(k.dims()[2], 7);
}

#[test]
fn process_kv_appends_on_continuation() {
    let device = Device::Cpu;
    let cfg = test_config(2, 64);
    let mut cache = new_cache(true, &cfg, &device);
    let k1 = Tensor::zeros((1, 4, 10, 8), DType::F32, &device).unwrap();
    let v1 = Tensor::zeros((1, 4, 10, 8), DType::F32, &device).unwrap();
    cache.process_kv(1, 0, k1, v1).unwrap();
    let k2 = Tensor::zeros((1, 4, 1, 8), DType::F32, &device).unwrap();
    let v2 = Tensor::zeros((1, 4, 1, 8), DType::F32, &device).unwrap();
    let (k, v) = cache.process_kv(1, 10, k2, v2).unwrap();
    assert_eq!(k.dims(), &[1, 4, 11, 8]);
    assert_eq!(v.dims(), &[1, 4, 11, 8]);
}

#[test]
fn process_kv_keeps_last_max_positions() {
    let device = Device::Cpu;
    let cfg = test_config(1, 12);
    let mut cache = new_cache(true, &cfg, &device);
    let k1 = Tensor::zeros((1, 4, 10, 8), DType::F32, &device).unwrap();
    let v1 = Tensor::zeros((1, 4, 10, 8), DType::F32, &device).unwrap();
    cache.process_kv(0, 0, k1, v1).unwrap();
    let k2 = Tensor::zeros((1, 4, 5, 8), DType::F32, &device).unwrap();
    let v2 = Tensor::zeros((1, 4, 5, 8), DType::F32, &device).unwrap();
    let (k, v) = cache.process_kv(0, 10, k2, v2).unwrap();
    assert_eq!(k.dims()[2], 12);
    assert_eq!(v.dims()[2], 12);
}

#[test]
fn process_kv_without_cache_passes_through() {
    let device = Device::Cpu;
    let cfg = test_config(1, 64);
    let mut cache = new_cache(false, &cfg, &device);
    assert!(!cache.with_kv_cache());
    let k1 = Tensor::zeros((1, 4, 3, 8), DType::F32, &device).unwrap();
    let v1 = Tensor::zeros((1, 4, 3, 8), DType::F32, &device).unwrap();
    cache.process_kv(0, 5, k1, v1).unwrap();
    let k2 = Tensor::zeros((1, 4, 2, 8), DType::F32, &device).unwrap();
    let v2 = Tensor::zeros((1, 4, 2, 8), DType::F32, &device).unwrap();
    let (k, _v) = cache.process_kv(0, 5, k2, v2).unwrap();
    assert_eq!(k.dims()[2], 2);
}

#[test]
fn clear_and_as_new_forget_the_kv_entries() {
    let device = Device::Cpu;
    let cfg = test_config(1, 64);
    let mut cache = new_cache(true, &cfg, &device);
    let k1 = Tensor::zeros((1, 4, 4, 8), DType::F32, &device).unwrap();
    let v1 = Tensor::zeros((1, 4, 4, 8), DType::F32, &device).unwrap();
    cache.process_kv(0, 0, k1, v1).unwrap();
    let mut copy = cache.as_new();
    let k2 = Tensor::zeros((1, 4, 1, 8), DType::F32, &device).unwrap();
    let v2 = Tensor::zeros((1, 4, 1, 8), DType::F32, &device).unwrap();
    let (k, _) = copy.process_kv(0, 4, k2.clone(), v2.clone()).unwrap();
    assert_eq!(k.dims()[2], 1);
    cache.clear();
    let (k, _) = cache.process_kv(0, 4, k2, v2).unwrap();
    assert_eq!(k.dims()[2], 1);
}

#[test]
fn mask_is_causal_and_reused() {
    let device = Device::Cpu;
    let cfg = test_config(1, 64);
    let mut cache = new_cache(true, &cfg, &device);
    let m = cache.mask(3).unwrap();
    assert_eq!(m.dims(), &[3, 3]);
    let rows = m.to_vec2::<u8>().unwrap();
    assert_eq!(rows, vec![vec![0, 1, 1], vec![0, 0, 1], vec![0, 0, 0]]);
    let again = cache.mask(3).unwrap();
    assert_eq!(again.to_vec2::<u8>().unwrap(), rows);
}

#[test]
fn causal_mask_values_for_two() {
    assert_eq!(spm_core::cache::causal_mask_values(2), vec![0, 1, 0, 0]);
    assert_eq!(spm_core::cache::causal_mask_values(0), Vec::<u8>::new());
}

#[test]
fn cosine_and_sine_rows() {
    let device = Device::Cpu;
    let cfg = test_config(1, 64);
    let cache = new_cache(true, &cfg, &device);
    let c = cache.cosine(5, 3).unwrap();
    assert_eq!(c.dims(), &[3, 4]);
    let s = cache.sine(0, 64).unwrap();
    assert_eq!(s.dims(), &[64, 4]);
    assert!(cache.cosine(62, 3).is_err());
}

#[test]
fn cache_has_one_entry_per_block() {
    let device = Device::Cpu;
    let cfg = test_config(3, 16);
    let cache = new_cache(true, &cfg, &device);
    assert_eq!(cache.num_blocks(), 3);
}

#[test]
fn process_kv_keeps_the_most_recent_positions() {
    let device = Device::Cpu;
    let cfg = test_config(1, 4);
    let mut cache = new_cache(true, &cfg, &device);
    // One head, one feature: position p holds the value p.
    let k1 = Tensor::arange(0f32, 3f32, &device).unwrap().reshape((1, 1, 3, 1)).unwrap();
    cache.process_kv(0, 0, k1.clone(), k1).unwrap();
    let k2 = Tensor::arange(3f32, 6f32, &device).unwrap().reshape((1, 1, 3, 1)).unwrap();
    let (k, v) = cache.process_kv(0, 3, k2.clone(), k2).unwrap();
    let kept: Vec<f32> = k.flatten_all().unwrap().to_vec1().unwrap();
    assert_eq!(kept, vec![2.0, 3.0, 4.0, 5.0]);
    let kept_v: Vec<f32> = v.flatten_all().unwrap().to_vec1().unwrap();
    assert_eq!(kept_v, vec![2.0, 3.0, 4.0, 5.0]);
}

#[test]
fn cosine_rows_start_at_the_position() {
    let device = Device::Cpu;
    let table = Tensor::arange(0f32, 8f32, &device).unwrap().reshape((4, 2)).unwrap();
    let cache = Cache::new(true, table.clone(), table, 1, &device, 4);
    let rows: Vec<f32> = cache.cosine(1, 2).unwrap().flatten_all().unwrap().to_vec1().unwrap();
    assert_eq!(rows, vec![2.0, 3.0, 4.0, 5.0]);
    let rows: Vec<f32> = cache.sine(3, 1).unwrap().flatten_all().unwrap().to_vec1().unwrap();
    assert_eq!(rows, vec![6.0, 7.0]);
    assert!(cache.cosine(3, 2).is_err());
}

#[test]
fn masks_hide_later_positions() {
    let device = Device::Cpu;
    let cfg = test_config(1, 8);
    let mut cache = new_cache(true, &cfg, &device);
    let m: Vec<Vec<u8>> = cache.mask(3).unwrap().to_vec2().unwrap();
    assert_eq!(m, vec![vec![0, 1, 1], vec![0, 0, 1], vec![0, 0, 0]]);
}

#[test]
fn checked_cache_needs_tables_for_every_position() {
    let device = Device::Cpu;
    let table = Tensor::arange(0f32, 8f32, &device).unwrap().reshape((4, 2)).unwrap();
    let cache = Cache::new_checked(true, table.clone(), table.clone(), 2, &device, 4).unwrap();
    assert!(cache.with_kv_cache());
    assert_eq!(cache.num_blocks(), 2);
    let rows: Vec<f32> = cache.cosine(1, 1).unwrap().flatten_all().unwrap().to_vec1().unwrap();
    assert_eq!(rows, vec![2.0, 3.0]);
    assert!(Cache::new_checked(true, table.clone(), table.clone(), 2, &device, 5).is_none());
    let other = Tensor::arange(0f32, 12f32, &device).unwrap().reshape((4, 3)).unwrap();
    assert!(Cache::new_checked(true, table.clone(), other, 2, &device, 4).is_none());
    let flat = Tensor::arange(0f32, 4f32, &device).unwrap();
    assert!(Cache::new_checked(false, flat.clone(), flat, 1, &device, 4).is_none());
}
