use spm_core::vision::{
    aligned_target, fixed_square_side, patch_grid, position_ids, resize_limits,
    resolve_fixed_side, square_side, ResizeLimits, VisionError,
};

#[test]
fn square_sides() {
    assert_eq!(square_side(2304), Some(48));
    assert_eq!(square_side(0), Some(0));
    assert_eq!(square_side(1), Some(1));
    assert_eq!(square_side(10), None);
}

#[test]
fn patch_grids() {
    assert_eq!(patch_grid(28, 29, 2, 2304), Ok((28, 28)));
    assert_eq!(patch_grid(1, 29, 2, 2304), Err(VisionError::ImageTooSmall { merge: 2, hp: 1, wp: 29 }));
    assert_eq!(patch_grid(50, 50, 2, 2304), Err(VisionError::TooManyVisualTokens { tokens: 2500, hp: 50, wp: 50, max: 2304 }));
    assert_eq!(patch_grid(3, 5, 0, 100), Ok((3, 5)));
}

#[test]
fn position_grid_ids() {
    assert_eq!(position_ids(2, 3, 16), Ok(vec![0, 1, 2, 4, 5, 6]));
    assert_eq!(position_ids(2, 3, 15), Err(VisionError::PositionTableNotSquare { num_position_embeddings: 15 }));
    assert_eq!(position_ids(5, 1, 16), Err(VisionError::GridExceedsPositionTable { hp: 5, wp: 1, base: 4 }));
}

#[test]
fn resize_bounds() {
    let l = resize_limits(16, 2, 2304, None).unwrap();
    assert_eq!(l, ResizeLimits { factor: 32, min_pixels: 4096, max_pixels: 589824, max_side_pixels: 768 });
    assert_eq!(resize_limits(16, 2, 2304, Some(512)).unwrap().max_side_pixels, 512);
    assert_eq!(resize_limits(16, 2, 2304, Some(0)).unwrap().max_side_pixels, 768);
    assert_eq!(resize_limits(16, 2, 2304, Some(1000)).unwrap().max_side_pixels, 768);
    assert_eq!(resize_limits(16, 2, 2300, None).unwrap_err(), VisionError::PositionTableNotSquare { num_position_embeddings: 2300 });
}

#[test]
fn aligned_targets() {
    let l = resize_limits(16, 2, 2304, None).unwrap();
    assert_eq!(aligned_target(500, 333, l), (480, 320));
    assert_eq!(aligned_target(10, 10, l), (32, 32));
    let small = ResizeLimits { factor: 32, min_pixels: 4096, max_pixels: 4096, max_side_pixels: 768 };
    assert_eq!(aligned_target(128, 96, small), (64, 32));
}

#[test]
fn fixed_sides() {
    assert_eq!(fixed_square_side(448, 16, 2, 2304), Ok(448));
    assert_eq!(fixed_square_side(450, 16, 2, 2304), Ok(448));
    assert_eq!(fixed_square_side(10, 16, 2, 2304), Ok(32));
    assert_eq!(fixed_square_side(4000, 16, 2, 2304), Ok(768));
    assert_eq!(fixed_square_side(448, 16, 2, 5), Err(VisionError::PositionTableNotSquare { num_position_embeddings: 5 }));
}

#[test]
fn fixed_side_resolution() {
    assert_eq!(resolve_fixed_side(Some(448), None), Ok(Some(448)));
    assert_eq!(resolve_fixed_side(Some(448), Some(448)), Ok(Some(448)));
    assert_eq!(resolve_fixed_side(Some(448), Some(512)), Err(VisionError::FixedSideMismatch { requested: 512, rknn: 448 }));
    assert_eq!(resolve_fixed_side(None, Some(512)), Ok(Some(512)));
    assert_eq!(resolve_fixed_side(None, None), Ok(None));
}

#[test]
fn resized_image_is_encoded_whole() {
    let limits = resize_limits(16, 2, 2304, None).unwrap();
    for (th, tw) in [(700u32, 500u32), (33, 900), (768, 768), (100, 40)] {
        let (h, w) = aligned_target(th, tw, limits);
        let (hp, wp) = ((h / 16) as usize, (w / 16) as usize);
        assert_eq!(patch_grid(hp, wp, 2, 2304), Ok((hp, wp)), "target {h}x{w}");
    }
}

#[test]
fn fixed_side_is_encoded_whole() {
    let s = fixed_square_side(500, 16, 2, 2304).unwrap();
    assert_eq!(s, 480);
    let sp = (s / 16) as usize;
    assert_eq!(patch_grid(sp, sp, 2, 2304), Ok((sp, sp)));
}
