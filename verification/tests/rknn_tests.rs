use spm_core::rknn::{
    check_io_count, nchw_to_nhwc, Dims4, InputPlan, RknnError, RknnTensorAttr, TensorDType, TensorFormat, VisionRknn,
};

fn model(dims: Vec<u32>, format: TensorFormat, dtype: TensorDType) -> VisionRknn {
    VisionRknn {
        input_attr: RknnTensorAttr { dims, format, dtype, num_elements: 0 },
        output_attr: RknnTensorAttr {
            dims: vec![1, 256, 1536],
            format: TensorFormat::Other,
            dtype: TensorDType::Float32,
            num_elements: 256 * 1536,
        },
    }
}

#[test]
fn expected_side_of_square_inputs() {
    assert_eq!(model(vec![1, 3, 448, 448], TensorFormat::Nchw, TensorDType::Float16).expected_side(), Some(448));
    assert_eq!(model(vec![1, 448, 448, 3], TensorFormat::Nhwc, TensorDType::Float16).expected_side(), Some(448));
    assert_eq!(model(vec![1, 3, 448, 224], TensorFormat::Nchw, TensorDType::Float16).expected_side(), None);
    assert_eq!(model(vec![1, 4, 448, 448], TensorFormat::Nchw, TensorDType::Float16).expected_side(), None);
    assert_eq!(model(vec![3, 448, 448], TensorFormat::Nchw, TensorDType::Float16).expected_side(), None);
    assert_eq!(model(vec![1, 3, 448, 448], TensorFormat::Other, TensorDType::Float16).expected_side(), None);
}

#[test]
fn input_shape_checks() {
    let nchw = model(vec![1, 3, 8, 8], TensorFormat::Nchw, TensorDType::Float32);
    assert_eq!(nchw.check_input_shape(1, 3, 8, 8), Ok(()));
    assert_eq!(
        nchw.check_input_shape(1, 3, 8, 4),
        Err(RknnError::ShapeMismatch { expected: Dims4(1, 3, 8, 8), got: Dims4(1, 3, 8, 4) })
    );
    let nhwc = model(vec![1, 8, 8, 3], TensorFormat::Nhwc, TensorDType::Float32);
    assert_eq!(nhwc.check_input_shape(1, 3, 8, 8), Ok(()));
    assert_eq!(
        nhwc.check_input_shape(1, 3, 4, 8),
        Err(RknnError::ShapeMismatch { expected: Dims4(1, 8, 8, 3), got: Dims4(1, 4, 8, 3) })
    );
    let three = model(vec![1, 8, 8], TensorFormat::Nhwc, TensorDType::Float32);
    assert_eq!(three.check_input_shape(1, 3, 8, 8), Err(RknnError::InputNotFourDims));
    let other = model(vec![1, 3, 8, 8], TensorFormat::Other, TensorDType::Float32);
    assert_eq!(other.check_input_shape(1, 3, 8, 8), Err(RknnError::UnsupportedFormat));
}

#[test]
fn input_plans() {
    let m = model(vec![1, 8, 8, 3], TensorFormat::Nhwc, TensorDType::BFloat16);
    assert_eq!(m.plan_input(1, 3, 8, 8), Ok(InputPlan { to_nhwc: true, dtype: TensorDType::BFloat16 }));
    let m = model(vec![1, 3, 8, 8], TensorFormat::Nchw, TensorDType::Float16);
    assert_eq!(m.plan_input(1, 3, 8, 8), Ok(InputPlan { to_nhwc: false, dtype: TensorDType::Float16 }));
    let m = model(vec![1, 3, 8, 8], TensorFormat::Nchw, TensorDType::Other);
    assert_eq!(m.plan_input(1, 3, 8, 8), Err(RknnError::UnsupportedDType));
    assert_eq!(
        m.plan_input(2, 3, 8, 8),
        Err(RknnError::ShapeMismatch { expected: Dims4(1, 3, 8, 8), got: Dims4(2, 3, 8, 8) })
    );
}

#[test]
fn nhwc_reordering() {
    // b=1, c=2, h=2, w=3: value = c*100 + y*10 + x
    let mut input = vec![];
    for c in 0..2u32 {
        for y in 0..2u32 {
            for x in 0..3u32 {
                input.push(c * 100 + y * 10 + x);
            }
        }
    }
    let out = nchw_to_nhwc(&input, 1, 2, 2, 3, 0);
    let mut expected = vec![];
    for y in 0..2u32 {
        for x in 0..3u32 {
            for c in 0..2u32 {
                expected.push(c * 100 + y * 10 + x);
            }
        }
    }
    assert_eq!(out, expected);
    let floats = nchw_to_nhwc(&[0.5f32, 1.5, 2.5], 1, 3, 1, 1, 0.0);
    assert_eq!(floats, vec![0.5, 1.5, 2.5]);
    assert!(nchw_to_nhwc::<u8>(&[], 0, 3, 4, 4, 0).is_empty());
    let longer = nchw_to_nhwc(&[1u8, 2, 3, 4, 9, 9], 1, 2, 1, 2, 0);
    assert_eq!(longer, vec![1, 3, 2, 4, 0, 0]);
}

#[test]
fn summary_text() {
    let m = model(vec![1, 3, 448, 448], TensorFormat::Nchw, TensorDType::Float16);
    assert_eq!(m.input_summary(), "dims=[1, 3, 448, 448] format=NCHW dtype=FLOAT16");
    let e = model(vec![], TensorFormat::Other, TensorDType::Other);
    assert_eq!(e.input_summary(), "dims=[] format=OTHER dtype=OTHER");
    assert_eq!(m.output_dims(), vec![1, 256, 1536]);
}

#[test]
fn io_count_must_be_one_each() {
    assert_eq!(check_io_count(1, 1), Ok(()));
    assert_eq!(check_io_count(2, 1), Err(RknnError::IoCount { inputs: 2, outputs: 1 }));
    assert_eq!(check_io_count(1, 0), Err(RknnError::IoCount { inputs: 1, outputs: 0 }));
}
