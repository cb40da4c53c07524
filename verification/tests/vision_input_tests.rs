use spm_core::chat::{ContentPart, ImageUrl, Message, MessageContent, MessageRole};
use spm_core::client::image_part_from_bytes;
use spm_core::vision_input::{
    collect_images, decode_base64_image, decode_image_part, load_image_rgb, ImageError,
};

#[test]
fn raw_and_data_url_payloads() {
    assert_eq!(decode_base64_image("aGk=").unwrap(), b"hi".to_vec());
    assert_eq!(decode_base64_image("  aGk=\n").unwrap(), b"hi".to_vec());
    assert_eq!(decode_base64_image("data:image/png;base64,aGk=").unwrap(), b"hi".to_vec());
    assert_eq!(decode_base64_image("data:image/png;base64, aGVsbG8= ").unwrap(), b"hello".to_vec());
    let e = decode_base64_image("not base64!").unwrap_err();
    assert!(matches!(e, ImageError::InvalidBase64(_)));
    assert!(e.message().starts_with("invalid base64 image: Invalid"));
}

fn encoded(bytes: &[u8]) -> String {
    match image_part_from_bytes("x.png", bytes) {
        ContentPart::ImageBase64 { data, .. } => data,
        other => panic!("unexpected part {other:?}"),
    }
}

#[test]
fn base64_encoding() {
    assert_eq!(encoded(b"hello"), "aGVsbG8=");
    assert_eq!(encoded(b""), "");
}

#[test]
fn image_url_must_be_a_data_url() {
    let p = ContentPart::ImageUrl { image_url: ImageUrl { url: "https://x/y.png".to_string() } };
    assert_eq!(decode_image_part(&p).unwrap_err(), ImageError::UnsupportedImageUrl);
    let p = ContentPart::ImageUrl { image_url: ImageUrl { url: "data:image/png;base64,aGk=".to_string() } };
    assert_eq!(decode_image_part(&p).unwrap(), Some(b"hi".to_vec()));
    let t = ContentPart::Text { text: "x".to_string() };
    assert_eq!(decode_image_part(&t).unwrap(), None);
}

#[test]
fn images_in_conversation_order() {
    let msgs = vec![
        Message::system("s".to_string()),
        Message {
            role: MessageRole::User,
            content: MessageContent::Parts(vec![
                ContentPart::ImageBase64 { media_type: None, data: "aGk=".to_string() },
                ContentPart::Text { text: "and".to_string() },
                ContentPart::ImageUrl { image_url: ImageUrl { url: "data:;base64,aGVsbG8=".to_string() } },
            ]),
        },
    ];
    assert_eq!(collect_images(&msgs).unwrap(), vec![b"hi".to_vec(), b"hello".to_vec()]);
    let bad = vec![Message {
        role: MessageRole::User,
        content: MessageContent::Parts(vec![ContentPart::ImageBase64 { media_type: None, data: "%%".to_string() }]),
    }];
    assert!(matches!(collect_images(&bad).unwrap_err(), ImageError::InvalidBase64(_)));
}

#[test]
fn images_decode_to_rgb_pixels() {
    // A 2 x 1 BMP (24-bit): a red pixel then a blue one.
    let mut bmp: Vec<u8> = Vec::new();
    bmp.extend_from_slice(b"BM");
    bmp.extend_from_slice(&62u32.to_le_bytes());
    bmp.extend_from_slice(&[0, 0, 0, 0]);
    bmp.extend_from_slice(&54u32.to_le_bytes());
    bmp.extend_from_slice(&40u32.to_le_bytes());
    bmp.extend_from_slice(&2i32.to_le_bytes());
    bmp.extend_from_slice(&1i32.to_le_bytes());
    bmp.extend_from_slice(&1u16.to_le_bytes());
    bmp.extend_from_slice(&24u16.to_le_bytes());
    bmp.extend_from_slice(&0u32.to_le_bytes());
    bmp.extend_from_slice(&8u32.to_le_bytes());
    bmp.extend_from_slice(&[0; 16]);
    bmp.extend_from_slice(&[0, 0, 255, 255, 0, 0, 0, 0]);
    let (pixels, h, w) = load_image_rgb(&bmp).unwrap();
    assert_eq!((h, w), (1, 2));
    assert_eq!(pixels, vec![255, 0, 0, 0, 0, 255]);
    let e = load_image_rgb(b"not an image").unwrap_err();
    assert!(matches!(e, ImageError::UndecodableImage(_)));
    assert!(e.message().starts_with("image decode failed: "));
    assert!(e.message().len() > "image decode failed: ".len());
}
