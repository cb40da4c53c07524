use std::str::FromStr;

use candle_core::{Device, Tensor};
use spm_core::chat::{ContentPart, Message, MessageContent, MessageRole};
use spm_core::dialog::{dialog_prompt, DialogError};
use spm_core::embeds::inject_image_embeddings;
use spm_core::prompt::{ImageSpan, PromptEncoder, PromptError};

const IMAGE: u32 = 100;
const VSTART: u32 = 101;
const VEND: u32 = 102;

fn tokenizer() -> tokenizers::Tokenizer {
    let json = r#"{
        "version": "1.0",
        "truncation": null,
        "padding": null,
        "added_tokens": [
            {"id": 0, "content": "<|im_start|>", "single_word": false, "lstrip": false, "rstrip": false, "normalized": false, "special": true},
            {"id": 1, "content": "<|im_end|>", "single_word": false, "lstrip": false, "rstrip": false, "normalized": false, "special": true}
        ],
        "normalizer": null,
        "pre_tokenizer": null,
        "post_processor": null,
        "decoder": null,
        "model": {
            "type": "WordLevel",
            "vocab": {"<|im_start|>": 0, "<|im_end|>": 1, "user": 2, "system": 3, "assistant": 4, "\n": 5, "hello": 6, "[UNK]": 7},
            "unk_token": "[UNK]"
        }
    }"#;
    tokenizers::Tokenizer::from_str(json).unwrap()
}

fn encoder() -> PromptEncoder {
    PromptEncoder::from_tokenizer(&tokenizer(), IMAGE, VSTART, VEND).unwrap()
}

fn image_part() -> ContentPart {
    ContentPart::ImageBase64 { media_type: None, data: "AAAA".to_string() }
}

fn history() -> Vec<Message> {
    vec![Message {
        role: MessageRole::User,
        content: MessageContent::Parts(vec![
            image_part(),
            ContentPart::Text { text: "hello".to_string() },
            image_part(),
        ]),
    }]
}

fn embeds(n: usize, hidden: usize, first: f32) -> Tensor {
    let end = first + (n * hidden) as f32;
    Tensor::arange(first, end, &Device::Cpu).unwrap().reshape((1, n, hidden)).unwrap()
}

#[test]
fn dialog_prompt_pairs_spans_with_embeddings() {
    let images = vec![embeds(3, 2, 0.0), embeds(2, 2, 10.0)];
    let (ids, pairs) = dialog_prompt(&encoder(), &tokenizer(), &history(), &images).unwrap();
    assert_eq!(
        ids,
        vec![0, 2, 5, VSTART, IMAGE, IMAGE, IMAGE, VEND, 6, VSTART, IMAGE, IMAGE, VEND, 1, 5, 0, 4, 5]
    );
    assert_eq!(pairs.len(), 2);
    assert_eq!(pairs[0].0, ImageSpan { start: 4, end: 7 });
    assert_eq!(pairs[1].0, ImageSpan { start: 10, end: 12 });
    assert_eq!(pairs[0].1.dims(), &[3, 2]);
    assert_eq!(pairs[1].1.dims(), &[2, 2]);
    let second: Vec<f32> = pairs[1].1.flatten_all().unwrap().to_vec1().unwrap();
    assert_eq!(second, vec![10.0, 11.0, 12.0, 13.0]);
}

#[test]
fn dialog_prompt_without_images() {
    let msgs = vec![Message::user("hello".to_string())];
    let (ids, pairs) = dialog_prompt(&encoder(), &tokenizer(), &msgs, &[]).unwrap();
    assert_eq!(ids, vec![0, 2, 5, 6, 1, 5, 0, 4, 5]);
    assert!(pairs.is_empty());
}

#[test]
fn dialog_prompt_errors() {
    let flat = Tensor::arange(0f32, 4f32, &Device::Cpu).unwrap();
    assert!(matches!(
        dialog_prompt(&encoder(), &tokenizer(), &history(), &[flat]),
        Err(DialogError::Tensor(_))
    ));
    match dialog_prompt(&encoder(), &tokenizer(), &history(), &[embeds(3, 2, 0.0)]) {
        Err(DialogError::Prompt(e)) => assert_eq!(e, PromptError::MissingImageTokenCount(1)),
        _ => panic!("expected a prompt error"),
    }
    let three = vec![embeds(1, 2, 0.0), embeds(1, 2, 0.0), embeds(1, 2, 0.0)];
    match dialog_prompt(&encoder(), &tokenizer(), &history(), &three) {
        Err(e @ DialogError::SpanCountMismatch { .. }) => {
            assert_eq!(e.message(), "internal error: spans 2 != image_embeds 3")
        }
        _ => panic!("expected a span count mismatch"),
    }
}

#[test]
fn dialog_spans_splice_into_the_prompt() {
    let images = vec![embeds(3, 2, 1.0), embeds(2, 2, 10.0)];
    let (ids, pairs) = dialog_prompt(&encoder(), &tokenizer(), &history(), &images).unwrap();
    let x = Tensor::zeros((1, ids.len(), 2), candle_core::DType::F32, &Device::Cpu).unwrap();
    let out = inject_image_embeddings(&x, &pairs).unwrap();
    let rows = out.to_vec3::<f32>().unwrap();
    assert_eq!(rows[0][3], vec![0.0, 0.0]);
    assert_eq!(rows[0][4], vec![1.0, 2.0]);
    assert_eq!(rows[0][6], vec![5.0, 6.0]);
    assert_eq!(rows[0][7], vec![0.0, 0.0]);
    assert_eq!(rows[0][10], vec![10.0, 11.0]);
    assert_eq!(rows[0][11], vec![12.0, 13.0]);
    assert_eq!(rows[0][12], vec![0.0, 0.0]);
}
