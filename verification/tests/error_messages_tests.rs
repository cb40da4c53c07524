use spm_core::chat::ChatError;
use spm_core::embeds::EmbedError;
use spm_core::prompt::{ImageSpan, PromptError};
use spm_core::rknn::{Dims4, RknnError};
use spm_core::vision::VisionError;
use spm_core::vision_input::ImageError;

#[test]
fn errors_describe_themselves() {
    assert_eq!(
        ChatError::NonTextContent.message(),
        "non-text content (image) is not supported by this model"
    );
    assert_eq!(PromptError::MissingImStart.message(), "tokenizer missing <|im_start|>");
    assert_eq!(PromptError::MissingImEnd.message(), "tokenizer missing <|im_end|>");
    assert_eq!(PromptError::MissingImageTokenCount(3).message(), "missing image_token_count for image #3");
    assert_eq!(ImageError::UnsupportedImageUrl.message(), "image_url is only supported as data URLs in this build");
    assert_eq!(
        ImageError::InvalidBase64("Invalid padding".to_string()).message(),
        "invalid base64 image: Invalid padding"
    );
    assert_eq!(
        ImageError::UndecodableImage("bad header".to_string()).message(),
        "image decode failed: bad header"
    );
    assert_eq!(
        VisionError::PositionTableNotSquare { num_position_embeddings: 2300 }.message(),
        "num_position_embeddings 2300 is not a square"
    );
    assert_eq!(
        VisionError::ImageTooSmall { merge: 2, hp: 1, wp: 29 }.message(),
        "image too small for spatial_merge_size 2: patch grid 1x29 (try larger image)"
    );
    assert_eq!(
        VisionError::TooManyVisualTokens { tokens: 2500, hp: 50, wp: 50, max: 2304 }.message(),
        "too many visual tokens: 2500 (50x50), max is 2304 (try smaller image)"
    );
    assert_eq!(
        VisionError::GridExceedsPositionTable { hp: 5, wp: 1, base: 4 }.message(),
        "patch grid 5x1 exceeds base 4x4 (resize image smaller)"
    );
    assert_eq!(
        VisionError::FixedSideMismatch { requested: 512, rknn: 448 }.message(),
        "vision_fixed_side 512 does not match rknn input side 448"
    );
    assert_eq!(RknnError::IoCount { inputs: 2, outputs: 1 }.message(), "rknn model must have 1 input/1 output, got 2/1");
    assert_eq!(RknnError::IoCount { inputs: 1, outputs: 12 }.message(), "rknn model must have 1 input/1 output, got 1/12");
    assert_eq!(PromptError::MissingImageTokenCount(0).message(), "missing image_token_count for image #0");
    assert_eq!(
        RknnError::ShapeMismatch { expected: Dims4(1, 3, 448, 448), got: Dims4(1, 3, 224, 448) }.message(),
        "rknn input shape mismatch, expected (1, 3, 448, 448) got (1,3,224,448)"
    );
    assert_eq!(EmbedError::ShapeOverflow.message(), "spatial_merge: merged hidden size does not fit");
    assert_eq!(
        EmbedError::GridMismatch { seq: 8, hp: 3, wp: 3 }.message(),
        "spatial_merge: seq 8 != hp*wp 3*3"
    );
    assert_eq!(
        EmbedError::GridNotDivisible { hp: 1, wp: 8, m: 2 }.message(),
        "spatial_merge: patch grid 1x8 not divisible by merge size 2"
    );
    assert_eq!(
        EmbedError::LengthMismatch { span: ImageSpan { start: 3, end: 7 }, rows: 5 }.message(),
        "image embeds length mismatch, span 3..7 expects 4"
    );
}
