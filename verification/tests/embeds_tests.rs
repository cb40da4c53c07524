use candle_core::{DType, Device, Tensor};
use spm_core::embeds::{inject_image_embeddings, spatial_merge, EmbedError};
use spm_core::prompt::ImageSpan;

fn zeros(shape: &[usize]) -> Tensor {
    Tensor::zeros(shape, DType::F32, &Device::Cpu).unwrap()
}

fn ones(shape: &[usize]) -> Tensor {
    Tensor::ones(shape, DType::F32, &Device::Cpu).unwrap()
}

#[test]
fn inject_replaces_placeholder_rows() {
    let x = zeros(&[1, 6, 4]);
    let spans = vec![(ImageSpan { start: 1, end: 3 }, ones(&[2, 4]))];
    let out = inject_image_embeddings(&x, &spans).unwrap();
    assert_eq!(out.dims(), &[1, 6, 4]);
    let rows = out.to_vec3::<f32>().unwrap();
    for (i, row) in rows[0].iter().enumerate() {
        let expected = if (1..3).contains(&i) { 1.0 } else { 0.0 };
        assert!(row.iter().all(|v| *v == expected), "row {i}: {row:?}");
    }
}

#[test]
fn inject_applies_spans_in_order() {
    let x = zeros(&[1, 8, 2]);
    let second = (Tensor::ones(&[3, 2], DType::F32, &Device::Cpu).unwrap() * 2.0).unwrap();
    let spans = vec![
        (ImageSpan { start: 0, end: 2 }, ones(&[2, 2])),
        (ImageSpan { start: 5, end: 8 }, second),
    ];
    let out = inject_image_embeddings(&x, &spans).unwrap();
    let firsts: Vec<f32> = out.to_vec3::<f32>().unwrap()[0].iter().map(|r| r[0]).collect();
    assert_eq!(firsts, vec![1.0, 1.0, 0.0, 0.0, 0.0, 2.0, 2.0, 2.0]);
}

#[test]
fn inject_without_spans_keeps_embeddings() {
    let x = ones(&[1, 3, 5]);
    let out = inject_image_embeddings(&x, &[]).unwrap();
    assert_eq!(out.dims(), &[1, 3, 5]);
}

#[test]
fn inject_rejects_length_mismatch() {
    let x = zeros(&[1, 6, 4]);
    let spans = vec![(ImageSpan { start: 1, end: 3 }, ones(&[3, 4]))];
    match inject_image_embeddings(&x, &spans) {
        Err(EmbedError::LengthMismatch { span, rows }) => {
            assert_eq!(span, ImageSpan { start: 1, end: 3 });
            assert_eq!(rows, 3);
        }
        other => panic!("unexpected {other:?}"),
    }
}

#[test]
fn inject_rejects_span_past_sequence() {
    let x = zeros(&[1, 6, 4]);
    let spans = vec![(ImageSpan { start: 5, end: 8 }, ones(&[3, 4]))];
    match inject_image_embeddings(&x, &spans) {
        Err(EmbedError::SpanOutOfRange { span, seq }) => {
            assert_eq!(span, ImageSpan { start: 5, end: 8 });
            assert_eq!(seq, 6);
        }
        other => panic!("unexpected {other:?}"),
    }
}

#[test]
fn inject_rejects_non_rank3_input() {
    let x = zeros(&[6, 4]);
    let spans = vec![(ImageSpan { start: 1, end: 3 }, ones(&[2, 4]))];
    assert!(matches!(inject_image_embeddings(&x, &spans), Err(EmbedError::Tensor(_))));
}

#[test]
fn spatial_merge_groups_blocks() {
    // A 2 x 4 patch grid of 1-dim features 0..8, merged by 2 x 2 blocks.
    let x = Tensor::arange(0f32, 8f32, &Device::Cpu).unwrap().reshape((1, 8, 1)).unwrap();
    let out = spatial_merge(&x, 2, 4, 2).unwrap();
    assert_eq!(out.dims(), &[1, 2, 4]);
    let v = out.to_vec3::<f32>().unwrap();
    assert_eq!(v[0][0], vec![0.0, 1.0, 4.0, 5.0]);
    assert_eq!(v[0][1], vec![2.0, 3.0, 6.0, 7.0]);
}

#[test]
fn spatial_merge_by_one_is_identity() {
    let x = ones(&[1, 6, 3]);
    let out = spatial_merge(&x, 2, 3, 1).unwrap();
    assert_eq!(out.dims(), &[1, 6, 3]);
}

#[test]
fn spatial_merge_rejects_wrong_grid() {
    let x = ones(&[1, 8, 3]);
    match spatial_merge(&x, 3, 3, 2) {
        Err(EmbedError::GridMismatch { seq, hp, wp }) => assert_eq!((seq, hp, wp), (8, 3, 3)),
        other => panic!("unexpected {other:?}"),
    }
}

#[test]
fn spatial_merge_rejects_indivisible_grid() {
    let x = ones(&[1, 8, 3]);
    match spatial_merge(&x, 1, 8, 2) {
        Err(EmbedError::GridNotDivisible { hp, wp, m }) => assert_eq!((hp, wp, m), (1, 8, 2)),
        other => panic!("unexpected {other:?}"),
    }
}

#[test]
fn spatial_merge_reports_an_oversized_hidden_size() {
    // An empty patch grid whose hidden size times the block size overflows.
    let x = Tensor::zeros((1, 0, usize::MAX / 2), DType::F32, &Device::Cpu).unwrap();
    assert!(matches!(spatial_merge(&x, 0, 0, 2), Err(EmbedError::ShapeOverflow)));
}
