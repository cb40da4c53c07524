use std::str::FromStr;

use spm_core::chat::{ContentPart, Message, MessageContent, MessageRole};
use spm_core::prompt::{encodes_deterministically, end_of_stream_token, ImageSpan, PromptEncoder, PromptError, PromptPiece};

const IM_START: u32 = 0;
const IM_END: u32 = 1;
const USER: u32 = 2;
const SYSTEM: u32 = 3;
const ASSISTANT: u32 = 4;
const NL: u32 = 5;
const HELLO: u32 = 6;
const UNK: u32 = 7;
const IMAGE: u32 = 100;
const VSTART: u32 = 101;
const VEND: u32 = 102;

fn tokenizer() -> tokenizers::Tokenizer {
    let json = r#"{
        "version": "1.0",
        "truncation": null,
        "padding": null,
        "added_tokens": [
            {"id": 0, "content": "<|im_start|>", "single_word": false, "lstrip": false, "rstrip": false, "normalized": false, "special": true},
            {"id": 1, "content": "<|im_end|>", "single_word": false, "lstrip": false, "rstrip": false, "normalized": false, "special": true}
        ],
        "normalizer": null,
        "pre_tokenizer": null,
        "post_processor": null,
        "decoder": null,
        "model": {
            "type": "WordLevel",
            "vocab": {"<|im_start|>": 0, "<|im_end|>": 1, "user": 2, "system": 3, "assistant": 4, "\n": 5, "hello": 6, "[UNK]": 7},
            "unk_token": "[UNK]"
        }
    }"#;
    tokenizers::Tokenizer::from_str(json).unwrap()
}

fn encoder() -> PromptEncoder {
    PromptEncoder::from_tokenizer(&tokenizer(), IMAGE, VSTART, VEND).unwrap()
}

fn image_part() -> ContentPart {
    ContentPart::ImageBase64 { media_type: None, data: "AAAA".to_string() }
}

#[test]
fn from_tokenizer_finds_the_chat_markers() {
    let e = encoder();
    assert_eq!(e.im_start_token_id, IM_START);
    assert_eq!(e.im_end_token_id, IM_END);
    assert_eq!(e.image_token_id, IMAGE);
    assert_eq!(e.vision_start_token_id, VSTART);
    assert_eq!(e.vision_end_token_id, VEND);
}

#[test]
fn missing_markers_are_reported() {
    assert_eq!(
        PromptEncoder::from_special_token_ids(1, 2, 3, None, Some(5)).unwrap_err(),
        PromptError::MissingImStart
    );
    assert_eq!(
        PromptEncoder::from_special_token_ids(1, 2, 3, Some(4), None).unwrap_err(),
        PromptError::MissingImEnd
    );
    let e = PromptEncoder::from_special_token_ids(1, 2, 3, Some(4), Some(5)).unwrap();
    assert_eq!(e.im_start_token_id, 4);
    assert_eq!(e.im_end_token_id, 5);
}

#[test]
fn text_prompt_is_chatml() {
    let msgs = vec![Message::user("hello".to_string())];
    let (ids, spans) = encoder().encode(&tokenizer(), &msgs, &[]).unwrap();
    assert_eq!(
        ids,
        vec![IM_START, USER, NL, HELLO, IM_END, NL, IM_START, ASSISTANT, NL]
    );
    assert!(spans.is_empty());
}

#[test]
fn system_and_unknown_words() {
    let msgs = vec![Message::system("hello".to_string()), Message::user("bonjour".to_string())];
    let (ids, _) = encoder().encode(&tokenizer(), &msgs, &[]).unwrap();
    assert_eq!(
        ids,
        vec![
            IM_START, SYSTEM, NL, HELLO, IM_END, NL, IM_START, USER, NL, UNK, IM_END, NL, IM_START,
            ASSISTANT, NL
        ]
    );
}

#[test]
fn image_placeholders_and_spans() {
    let msgs = vec![Message {
        role: MessageRole::User,
        content: MessageContent::Parts(vec![
            image_part(),
            ContentPart::Text { text: "hello".to_string() },
            image_part(),
        ]),
    }];
    let (ids, spans) = encoder().encode(&tokenizer(), &msgs, &[3, 2]).unwrap();
    assert_eq!(
        ids,
        vec![
            IM_START, USER, NL, VSTART, IMAGE, IMAGE, IMAGE, VEND, HELLO, VSTART, IMAGE, IMAGE,
            VEND, IM_END, NL, IM_START, ASSISTANT, NL
        ]
    );
    assert_eq!(spans, vec![ImageSpan { start: 4, end: 7 }, ImageSpan { start: 10, end: 12 }]);
}

#[test]
fn missing_image_count_is_an_error() {
    let msgs = vec![Message {
        role: MessageRole::User,
        content: MessageContent::Parts(vec![image_part(), image_part()]),
    }];
    assert_eq!(
        encoder().encode(&tokenizer(), &msgs, &[4]).unwrap_err(),
        PromptError::MissingImageTokenCount(1)
    );
}

#[test]
fn layout_pieces() {
    let msgs = vec![Message::user("hello".to_string())];
    let pieces = encoder().layout(&msgs, &[]).unwrap();
    assert_eq!(pieces.len(), 9);
    assert!(matches!(pieces[0], PromptPiece::Token(IM_START)));
    assert!(matches!(&pieces[1], PromptPiece::Text(t) if t == "user"));
    assert!(matches!(&pieces[2], PromptPiece::Text(t) if t == "\n"));
    assert!(matches!(&pieces[3], PromptPiece::Text(t) if t == "hello"));
    assert!(matches!(pieces[4], PromptPiece::Token(IM_END)));
    assert!(matches!(&pieces[7], PromptPiece::Text(t) if t == "assistant"));
}

#[test]
fn assemble_uses_the_given_encodings() {
    let e = encoder();
    let pieces = vec![
        PromptPiece::Token(9),
        PromptPiece::Text("x".to_string()),
        PromptPiece::Image(2),
        PromptPiece::Text("y".to_string()),
    ];
    let (ids, spans) = e.assemble(&pieces, &[vec![20, 21], vec![]]);
    assert_eq!(ids, vec![9, 20, 21, VSTART, IMAGE, IMAGE, VEND]);
    assert_eq!(spans, vec![ImageSpan { start: 4, end: 6 }]);
}

/// The same vocabulary without an unknown-word token: the tokenizer fails on
/// any word it does not know.
fn strict_tokenizer() -> tokenizers::Tokenizer {
    let json = r#"{
        "version": "1.0",
        "truncation": null,
        "padding": null,
        "added_tokens": [],
        "normalizer": null,
        "pre_tokenizer": null,
        "post_processor": null,
        "decoder": null,
        "model": {
            "type": "WordLevel",
            "vocab": {"<|im_start|>": 0, "<|im_end|>": 1, "user": 2, "system": 3, "assistant": 4, "\n": 5, "hello": 6},
            "unk_token": "[UNK]"
        }
    }"#;
    tokenizers::Tokenizer::from_str(json).unwrap()
}

fn user_parts(parts: Vec<ContentPart>) -> Message {
    Message { role: MessageRole::User, content: MessageContent::Parts(parts) }
}

#[test]
fn tokenizer_failure_is_reported() {
    let msgs = vec![Message::user("oops".to_string())];
    assert_eq!(encoder().encode(&strict_tokenizer(), &msgs, &[]), Err(PromptError::TokenizerFailure));
}

#[test]
fn failing_text_before_uncounted_image_decides() {
    let msgs = vec![user_parts(vec![ContentPart::Text { text: "oops".to_string() }, image_part()])];
    assert_eq!(encoder().encode(&strict_tokenizer(), &msgs, &[]), Err(PromptError::TokenizerFailure));
}

#[test]
fn uncounted_image_before_failing_text_decides() {
    let msgs = vec![user_parts(vec![image_part(), ContentPart::Text { text: "oops".to_string() }])];
    assert_eq!(
        encoder().encode(&strict_tokenizer(), &msgs, &[]),
        Err(PromptError::MissingImageTokenCount(0))
    );
}

#[test]
fn end_of_stream_token_falls_back_to_the_vocabulary() {
    assert_eq!(end_of_stream_token(Some(42), &tokenizer(), "<|im_end|>"), Some(42));
    assert_eq!(end_of_stream_token(None, &tokenizer(), "<|im_end|>"), Some(IM_END));
    assert_eq!(end_of_stream_token(None, &tokenizer(), "</s>"), None);
}

fn bpe_tokenizer(dropout: &str) -> tokenizers::Tokenizer {
    let json = format!(
        r#"{{
        "version": "1.0",
        "truncation": null,
        "padding": null,
        "added_tokens": [],
        "normalizer": null,
        "pre_tokenizer": null,
        "post_processor": null,
        "decoder": null,
        "model": {{
            "type": "BPE",
            "dropout": {dropout},
            "unk_token": null,
            "continuing_subword_prefix": null,
            "end_of_word_suffix": null,
            "fuse_unk": false,
            "byte_fallback": false,
            "vocab": {{"a": 0, "b": 1, "ab": 2}},
            "merges": ["a b"]
        }}
    }}"#
    );
    tokenizers::Tokenizer::from_str(&json).unwrap()
}

#[test]
fn dropout_makes_encoding_random() {
    assert!(encodes_deterministically(&tokenizer()));
    assert!(encodes_deterministically(&bpe_tokenizer("null")));
    assert!(encodes_deterministically(&bpe_tokenizer("0.0")));
    assert!(!encodes_deterministically(&bpe_tokenizer("0.5")));
}
