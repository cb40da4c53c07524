//! Image payloads of chat messages: base64 transport and the decoding of
//! `image_base64` parts and `data:` URLs into image bytes.

use vstd::prelude::*;

use base64::Engine;

use crate::chat::{ContentPart, Message, MessageContent};
use crate::text::{
    chars_of, copy_range, find_first, has_prefix, occurs_at, starts_with_chars, string_from_chars,
    trim, trim_chars,
};

verus! {

/// What `base64::engine::general_purpose::STANDARD.encode` makes of `data`.
pub uninterp spec fn base64_standard_encode(data: Seq<u8>) -> Seq<char>;

/// What `base64::engine::general_purpose::STANDARD.decode` makes of `text`:
/// the bytes, or `None` when it reports an error.
pub uninterp spec fn base64_standard_decode(text: Seq<char>) -> Option<Seq<u8>>;

/// A character of the standard base64 alphabet, or the padding `=`.
pub open spec fn is_base64_char(c: char) -> bool {
    ||| ('A' <= c && c <= 'Z')
    ||| ('a' <= c && c <= 'z')
    ||| ('0' <= c && c <= '9')
    ||| c == '+'
    ||| c == '/'
    ||| c == '='
}

/// `base64::engine::general_purpose::STANDARD.encode(data)`: the standard
/// alphabet with `=` padding. The output consists of alphabet and padding
/// characters only, and the same engine decodes it back to `data`.
/// It panics only when the encoded length overflows `usize`.
#[verifier::external_body]
pub(crate) fn base64_encode(data: &[u8]) -> (s: String)
    requires
        data@.len() / 3 * 4 + 4 <= usize::MAX,
    ensures
        s@ == base64_standard_encode(data@),
        forall|i: int| 0 <= i < s@.len() ==> is_base64_char(#[trigger] s@[i]),
        base64_standard_decode(s@) == Some(data@),
{
    base64::engine::general_purpose::STANDARD.encode(data)
}

/// `base64::engine::general_purpose::STANDARD.decode(text)`; an error
/// comes back as its description (`DecodeError`'s `Display`).
#[verifier::external_body]
fn base64_decode(text: &str) -> (r: Result<Vec<u8>, String>)
    ensures
        r is Ok <==> base64_standard_decode(text@) is Some,
        r matches Ok(v) ==> base64_standard_decode(text@) == Some(v@),
{
    base64::engine::general_purpose::STANDARD.decode(text).map_err(|e| e.to_string())
}

/// Why an image could not be read out of a message.
#[derive(Debug, Clone, Copy, PartialEq, Eq, Structural)]
pub enum ImageFailure {
    /// The payload is not valid base64.
    InvalidBase64,
    /// An `image_url` part that is not a `data:` URL (nothing is fetched).
    UnsupportedImageUrl,
    /// The bytes are not an image the decoder reads.
    UndecodableImage,
}

/// Why an image of a request could not be read, with the decoder's own
/// description where a decoder refused it.
#[derive(Debug, Clone, PartialEq, Eq)]
pub enum ImageError {
    /// The payload is not valid base64.
    InvalidBase64(String),
    /// An `image_url` part that is not a `data:` URL (nothing is fetched).
    UnsupportedImageUrl,
    /// The bytes are not an image the decoder reads.
    UndecodableImage(String),
}

/// The kind of an image error.
pub open spec fn image_failure(e: ImageError) -> ImageFailure {
    match e {
        ImageError::InvalidBase64(_) => ImageFailure::InvalidBase64,
        ImageError::UnsupportedImageUrl => ImageFailure::UnsupportedImageUrl,
        ImageError::UndecodableImage(_) => ImageFailure::UndecodableImage,
    }
}

impl ImageError {
    /// The human-readable description of the error.
    pub fn message(&self) -> (r: String)
        ensures
            r@ == match *self {
                ImageError::InvalidBase64(d) => "invalid base64 image: "@ + d@,
                ImageError::UnsupportedImageUrl => "image_url is only supported as data URLs in this build"@,
                ImageError::UndecodableImage(d) => "image decode failed: "@ + d@,
            },
    {
        match self {
            ImageError::InvalidBase64(d) => "invalid base64 image: ".to_owned().concat(d.as_str()),
            ImageError::UnsupportedImageUrl => "image_url is only supported as data URLs in this build".to_owned(),
            ImageError::UndecodableImage(d) => "image decode failed: ".to_owned().concat(d.as_str()),
        }
    }
}

pub open spec fn base64_marker() -> Seq<char> {
    seq!['b', 'a', 's', 'e', '6', '4', ',']
}

pub open spec fn data_url_prefix() -> Seq<char> {
    seq!['d', 'a', 't', 'a', ':']
}

/// The base64 text of an image payload: what follows the first `base64,`
/// (so data URLs are accepted), or the whole payload, with surrounding
/// whitespace removed.
pub open spec fn payload_base64_text(data: Seq<char>) -> Seq<char> {
    if exists|i: int| occurs_at(data, base64_marker(), i) {
        let i = choose|i: int|
            occurs_at(data, base64_marker(), i) && forall|j: int|
                0 <= j < i ==> !occurs_at(data, base64_marker(), j);
        trim(data.skip(i + 7))
    } else {
        trim(data)
    }
}

/// The image bytes of a payload (raw base64 or a data URL), if it decodes.
pub open spec fn payload_bytes(data: Seq<char>) -> Option<Seq<u8>> {
    base64_standard_decode(payload_base64_text(data))
}

/// What the model side reads out of a content part: `None` for text; for an
/// image, its bytes or the error that stops the request.
pub open spec fn part_image_bytes(p: ContentPart) -> Option<Result<Seq<u8>, ImageFailure>> {
    match p {
        ContentPart::Text { .. } => None,
        ContentPart::ImageBase64 { data, .. } => Some(
            match payload_bytes(data@) {
                Some(b) => Ok(b),
                None => Err(ImageFailure::InvalidBase64),
            },
        ),
        ContentPart::ImageUrl { image_url } => Some(
            if !has_prefix(image_url.url@, data_url_prefix()) {
                Err(ImageFailure::UnsupportedImageUrl)
            } else {
                match payload_bytes(image_url.url@) {
                    Some(b) => Ok(b),
                    None => Err(ImageFailure::InvalidBase64),
                }
            },
        ),
    }
}

fn base64_marker_chars() -> (r: Vec<char>)
    ensures
        r@ == base64_marker(),
{
    let s = "base64,";
    proof {
        reveal_strlit("base64,");
    }
    chars_of(s)
}

fn data_url_prefix_chars() -> (r: Vec<char>)
    ensures
        r@ == data_url_prefix(),
{
    let s = "data:";
    proof {
        reveal_strlit("data:");
    }
    chars_of(s)
}

/// Decodes a base64 image payload; accepts raw base64 or data URLs
/// (`data:image/png;base64,....`): the text after the first `base64,` is
/// decoded, with surrounding whitespace removed.
pub fn decode_base64_image(data: &str) -> (r: Result<Vec<u8>, ImageError>)
    ensures
        match r {
            Ok(v) => payload_bytes(data@) == Some(v@),
            Err(e) => payload_bytes(data@) is None && e is InvalidBase64,
        },
{
    let chars = chars_of(data);
    let marker = base64_marker_chars();
    let payload = match find_first(&chars, &marker) {
        Some(i) => {
            proof {
                assert(occurs_at(chars@, base64_marker(), i as int));
                assert(base64_marker().len() == 7);
                assert(i + base64_marker().len() <= chars@.len());
                let c = choose|c: int|
                    occurs_at(data@, base64_marker(), c) && forall|j: int|
                        0 <= j < c ==> !occurs_at(data@, base64_marker(), j);
                assert(c == i) by {
                    if c < i {
                        assert(!occurs_at(data@, base64_marker(), c));
                    }
                    if i < c {
                        assert(!occurs_at(data@, base64_marker(), i as int));
                    }
                }
            }
            assert(i + 7 <= chars.len());
            copy_range(&chars, i + 7, chars.len())
        },
        None => copy_range(&chars, 0, chars.len()),
    };
    assert(chars@.subrange(0, chars@.len() as int) == chars@);
    let trimmed = trim_chars(&payload);
    let text = string_from_chars(trimmed.as_slice());
    match base64_decode(text.as_str()) {
        Ok(v) => Ok(v),
        Err(d) => Err(ImageError::InvalidBase64(d)),
    }
}

/// The image bytes of a content part: `Ok(None)` for text; for an image
/// part, its decoded bytes. `image_url` parts must be `data:` URLs.
pub fn decode_image_part(part: &ContentPart) -> (r: Result<Option<Vec<u8>>, ImageError>)
    ensures
        match part_image_bytes(*part) {
            None => r == Ok::<Option<Vec<u8>>, ImageError>(None),
            Some(Ok(b)) => r matches Ok(Some(v)) && v@ == b,
            Some(Err(k)) => r matches Err(e) && image_failure(e) == k,
        },
{
    match part {
        ContentPart::Text { .. } => Ok(None),
        ContentPart::ImageBase64 { data, .. } => match decode_base64_image(data.as_str()) {
            Ok(v) => Ok(Some(v)),
            Err(e) => Err(e),
        },
        ContentPart::ImageUrl { image_url } => {
            let url = chars_of(image_url.url.as_str());
            let prefix = data_url_prefix_chars();
            if !starts_with_chars(&url, &prefix) {
                return Err(ImageError::UnsupportedImageUrl);
            }
            match decode_base64_image(image_url.url.as_str()) {
                Ok(v) => Ok(Some(v)),
                Err(e) => Err(e),
            }
        },
    }
}

} // verus!

verus! {

proof fn lemma_trim_identity(s: Seq<char>)
    requires
        forall|i: int| 0 <= i < s.len() ==> !crate::text::is_white_space(#[trigger] s[i]),
    ensures
        trim(s) == s,
{
    assert(crate::text::trim_start(s) == s);
    assert(crate::text::trim_end(s) == s);
}

proof fn lemma_no_marker(s: Seq<char>)
    requires
        forall|i: int| 0 <= i < s.len() ==> is_base64_char(#[trigger] s[i]),
    ensures
        !exists|i: int| occurs_at(s, base64_marker(), i),
{
    assert forall|i: int| !occurs_at(s, base64_marker(), i) by {
        if occurs_at(s, base64_marker(), i) {
            assert(s.subrange(i, i + 7)[6] == ',');
            assert(is_base64_char(s[i + 6]));
        }
    }
}

proof fn lemma_no_white_space(s: Seq<char>)
    requires
        forall|i: int| 0 <= i < s.len() ==> is_base64_char(#[trigger] s[i]),
    ensures
        forall|i: int| 0 <= i < s.len() ==> !crate::text::is_white_space(#[trigger] s[i]),
{
    assert forall|i: int| 0 <= i < s.len() implies !crate::text::is_white_space(#[trigger] s[i]) by {
        assert(is_base64_char(s[i]));
    }
}

/// A payload made only of base64 characters is decoded as it stands: it
/// holds no `base64,` marker and no surrounding whitespace.
pub proof fn lemma_base64_payload_as_is(s: Seq<char>)
    requires
        forall|i: int| 0 <= i < s.len() ==> is_base64_char(#[trigger] s[i]),
    ensures
        payload_base64_text(s) == s,
        payload_bytes(s) == base64_standard_decode(s),
{
    lemma_no_marker(s);
    lemma_no_white_space(s);
    lemma_trim_identity(s);
}

} // verus!

verus! {

/// The image bytes of a list of parts, in order, or the first error.
pub open spec fn parts_images(parts: Seq<ContentPart>) -> Result<Seq<Seq<u8>>, ImageFailure>
    decreases parts.len(),
{
    if parts.len() == 0 {
        Ok(Seq::empty())
    } else {
        match parts_images(parts.drop_last()) {
            Err(e) => Err(e),
            Ok(imgs) => match part_image_bytes(parts.last()) {
                None => Ok(imgs),
                Some(Ok(b)) => Ok(imgs.push(b)),
                Some(Err(e)) => Err(e),
            },
        }
    }
}

/// The image bytes of a conversation, in order, or the first error.
pub open spec fn messages_images(msgs: Seq<Message>) -> Result<Seq<Seq<u8>>, ImageFailure>
    decreases msgs.len(),
{
    if msgs.len() == 0 {
        Ok(Seq::empty())
    } else {
        match messages_images(msgs.drop_last()) {
            Err(e) => Err(e),
            Ok(imgs) => match msgs.last().content {
                MessageContent::Text(_) => Ok(imgs),
                MessageContent::Parts(parts) => match parts_images(parts@) {
                    Err(e) => Err(e),
                    Ok(more) => Ok(imgs + more),
                },
            },
        }
    }
}

pub open spec fn bytes_view(v: Seq<Vec<u8>>) -> Seq<Seq<u8>> {
    v.map_values(|b: Vec<u8>| b@)
}

proof fn lemma_parts_images_err_extends(parts: Seq<ContentPart>, i: int)
    requires
        0 <= i <= parts.len(),
        parts_images(parts.take(i)) is Err,
    ensures
        parts_images(parts) == parts_images(parts.take(i)),
    decreases parts.len() - i,
{
    if i < parts.len() {
        assert(parts.take(i + 1).drop_last() == parts.take(i));
        lemma_parts_images_err_extends(parts, i + 1);
    } else {
        assert(parts.take(i) == parts);
    }
}

proof fn lemma_messages_images_err_extends(msgs: Seq<Message>, i: int)
    requires
        0 <= i <= msgs.len(),
        messages_images(msgs.take(i)) is Err,
    ensures
        messages_images(msgs) == messages_images(msgs.take(i)),
    decreases msgs.len() - i,
{
    if i < msgs.len() {
        assert(msgs.take(i + 1).drop_last() == msgs.take(i));
        lemma_messages_images_err_extends(msgs, i + 1);
    } else {
        assert(msgs.take(i) == msgs);
    }
}

fn append_part_images(parts: &Vec<ContentPart>, out: &mut Vec<Vec<u8>>) -> (r: Result<
    (),
    ImageError,
>)
    ensures
        match parts_images(parts@) {
            Ok(more) => r is Ok && bytes_view(final(out)@) == bytes_view(old(out)@) + more,
            Err(k) => r matches Err(e) && image_failure(e) == k,
        },
{
    let mut j: usize = 0;
    while j < parts.len()
        invariant
            0 <= j <= parts.len(),
            parts_images(parts@.take(j as int)) matches Ok(sofar) && bytes_view(out@)
                == bytes_view(old(out)@) + sofar,
        decreases parts.len() - j,
    {
        assert(parts@.take(j + 1).drop_last() == parts@.take(j as int));
        assert(parts@.take(j + 1).last() == parts@[j as int]);
        let ghost before = bytes_view(out@);
        match decode_image_part(&parts[j]) {
            Ok(Some(b)) => {
                out.push(b);
                assert(bytes_view(out@) =~= before.push(out@.last()@));
            },
            Ok(None) => {},
            Err(e) => {
                proof {
                    lemma_parts_images_err_extends(parts@, j + 1);
                }
                return Err(e);
            },
        }
        j = j + 1;
    }
    assert(parts@.take(parts@.len() as int) == parts@);
    Ok(())
}

/// Decodes the images of a conversation in order (the order in which the
/// prompt places their placeholders); stops at the first image that cannot
/// be decoded.
pub fn collect_images(messages: &[Message]) -> (r: Result<Vec<Vec<u8>>, ImageError>)
    ensures
        match messages_images(messages@) {
            Ok(imgs) => r matches Ok(v) && bytes_view(v@) == imgs,
            Err(k) => r matches Err(e) && image_failure(e) == k,
        },
{
    let mut out: Vec<Vec<u8>> = Vec::new();
    let mut i: usize = 0;
    assert(messages@.take(0) =~= Seq::<Message>::empty());
    assert(bytes_view(out@) =~= Seq::<Seq<u8>>::empty());
    while i < messages.len()
        invariant
            0 <= i <= messages.len(),
            messages_images(messages@.take(i as int)) == Ok::<Seq<Seq<u8>>, ImageFailure>(
                bytes_view(out@),
            ),
        decreases messages.len() - i,
    {
        assert(messages@.take(i + 1).drop_last() == messages@.take(i as int));
        assert(messages@.take(i + 1).last() == messages@[i as int]);
        match &messages[i].content {
            MessageContent::Text(_) => {},
            MessageContent::Parts(parts) => {
                match append_part_images(parts, &mut out) {
                    Ok(()) => {},
                    Err(e) => {
                        proof {
                            lemma_messages_images_err_extends(messages@, i + 1);
                        }
                        return Err(e);
                    },
                }
            },
        }
        i = i + 1;
    }
    assert(messages@.take(messages@.len() as int) == messages@);
    Ok(out)
}

} // verus!

verus! {

proof fn lemma_parts_images_count(parts: Seq<ContentPart>)
    ensures
        parts_images(parts) matches Ok(imgs) ==> imgs.len()
            == crate::prompt::parts_image_count(parts),
    decreases parts.len(),
{
    if parts.len() > 0 {
        lemma_parts_images_count(parts.drop_last());
    }
}

/// Law: decoding a conversation's images yields exactly one image per image
/// part, in the order of the prompt's image spans, so images and spans
/// pair up one to one.
pub proof fn lemma_images_match_spans(msgs: Seq<Message>)
    ensures
        messages_images(msgs) matches Ok(imgs) ==> imgs.len()
            == crate::prompt::messages_image_count(msgs),
    decreases msgs.len(),
{
    if msgs.len() > 0 {
        lemma_images_match_spans(msgs.drop_last());
        if let MessageContent::Parts(parts) = msgs.last().content {
            lemma_parts_images_count(parts@);
        }
    }
}

/// Every character is whitespace.
pub open spec fn all_white_space(w: Seq<char>) -> bool {
    forall|i: int| 0 <= i < w.len() ==> crate::text::is_white_space(#[trigger] w[i])
}

/// Every character is of the base64 alphabet or padding.
pub open spec fn all_base64(s: Seq<char>) -> bool {
    forall|i: int| 0 <= i < s.len() ==> is_base64_char(#[trigger] s[i])
}

proof fn lemma_trim_start_skips_white_space(w: Seq<char>, t: Seq<char>)
    requires
        all_white_space(w),
    ensures
        crate::text::trim_start(w + t) == crate::text::trim_start(t),
    decreases w.len(),
{
    if w.len() > 0 {
        assert((w + t)[0] == w[0]);
        assert((w + t).drop_first() =~= w.drop_first() + t);
        lemma_trim_start_skips_white_space(w.drop_first(), t);
    } else {
        assert(w + t =~= t);
    }
}

proof fn lemma_trim_end_skips_white_space(t: Seq<char>, w: Seq<char>)
    requires
        all_white_space(w),
    ensures
        crate::text::trim_end(t + w) == crate::text::trim_end(t),
    decreases w.len(),
{
    if w.len() > 0 {
        assert((t + w).last() == w.last());
        assert((t + w).drop_last() =~= t + w.drop_last());
        lemma_trim_end_skips_white_space(t, w.drop_last());
    } else {
        assert(t + w =~= t);
    }
}

/// Base64 text with whitespace around it trims to the text.
proof fn lemma_trim_padded(pre: Seq<char>, s: Seq<char>, post: Seq<char>)
    requires
        all_white_space(pre),
        all_white_space(post),
        all_base64(s),
    ensures
        trim(pre + s + post) == s,
{
    lemma_no_white_space(s);
    assert(pre + s + post =~= pre + (s + post));
    lemma_trim_start_skips_white_space(pre, s + post);
    if s.len() > 0 {
        assert((s + post)[0] == s[0]);
        assert(crate::text::trim_start(s + post) == s + post);
        lemma_trim_end_skips_white_space(s, post);
        assert(crate::text::trim_end(s) == s);
    } else {
        assert(s + post =~= post);
        lemma_trim_start_skips_white_space(post, Seq::<char>::empty());
        assert(post + Seq::<char>::empty() =~= post);
        assert(crate::text::trim_start(Seq::<char>::empty()) == Seq::<char>::empty());
        assert(s =~= Seq::<char>::empty());
    }
}

proof fn lemma_raw_payload(pre: Seq<char>, s: Seq<char>, post: Seq<char>)
    requires
        all_white_space(pre),
        all_white_space(post),
        all_base64(s),
    ensures
        payload_base64_text(pre + s + post) == s,
{
    lemma_trim_padded(pre, s, post);
    let raw = pre + s + post;
    assert forall|i: int| !occurs_at(raw, base64_marker(), i) by {
        if occurs_at(raw, base64_marker(), i) {
            assert(raw.subrange(i, i + 7)[6] == ',');
            assert(raw[i + 6] == ',');
            if i + 6 < pre.len() {
                assert(raw[i + 6] == pre[i + 6]);
            } else if i + 6 < pre.len() + s.len() {
                assert(raw[i + 6] == s[i + 6 - pre.len()]);
            } else {
                assert(raw[i + 6] == post[i + 6 - pre.len() - s.len()]);
            }
        }
    }
}

proof fn lemma_payload_at(data: Seq<char>, i: int)
    requires
        occurs_at(data, base64_marker(), i),
        forall|j: int| 0 <= j < i ==> !occurs_at(data, base64_marker(), j),
    ensures
        payload_base64_text(data) == trim(data.skip(i + 7)),
{
    let c = choose|c: int|
        occurs_at(data, base64_marker(), c) && forall|j: int|
            0 <= j < c ==> !occurs_at(data, base64_marker(), j);
    assert(c == i) by {
        if c < i {
            assert(!occurs_at(data, base64_marker(), c));
        }
        if i < c {
            assert(!occurs_at(data, base64_marker(), i));
        }
    }
}

#[verifier::spinoff_prover]
proof fn lemma_marker_first(head: Seq<char>, rest: Seq<char>)
    requires
        forall|j: int| 0 <= j < head.len() ==> !occurs_at(head + base64_marker(), base64_marker(), j),
    ensures
        payload_base64_text(head + base64_marker() + rest) == trim(rest),
{
    let hm = head + base64_marker();
    let url = hm + rest;
    let k = head.len() as int;
    assert(occurs_at(url, base64_marker(), k)) by {
        assert(url.subrange(k, k + 7) =~= base64_marker());
    }
    assert forall|j: int| 0 <= j < k implies !occurs_at(url, base64_marker(), j) by {
        assert(url.subrange(j, j + 7) =~= hm.subrange(j, j + 7));
        assert(!occurs_at(hm, base64_marker(), j));
    }
    lemma_payload_at(url, k);
    assert(url.skip(k + 7) =~= rest);
}

/// Law of image payloads: base64 text is decoded as it stands when sent
/// raw with whitespace around it, or as a data URL: whatever header comes
/// before the (first) `base64,` marker, and whitespace around the text.
pub proof fn lemma_payload_forms(head: Seq<char>, pre: Seq<char>, s: Seq<char>, post: Seq<char>)
    requires
        all_white_space(pre),
        all_white_space(post),
        all_base64(s),
        forall|j: int| 0 <= j < head.len() ==> !occurs_at(head + base64_marker(), base64_marker(), j),
    ensures
        payload_bytes(pre + s + post) == base64_standard_decode(s),
        payload_bytes(head + base64_marker() + pre + s + post) == base64_standard_decode(s),
{
    lemma_raw_payload(pre, s, post);
    lemma_trim_padded(pre, s, post);
    lemma_marker_first(head, pre + s + post);
    assert(head + base64_marker() + pre + s + post =~= head + base64_marker() + (pre + s + post));
}

/// What `image::load_from_memory(bytes)` followed by `to_rgb8()` yields:
/// the image's RGB pixels (row-major, three bytes each), its height and its
/// width, or `None` when the format is not recognised or the data does not
/// decode.
pub uninterp spec fn image_rgb8(bytes: Seq<u8>) -> Option<(Seq<u8>, nat, nat)>;

/// `image::load_from_memory(bytes)` and the image as 8-bit RGB
/// (`to_rgb8`, `dimensions`, `into_raw`); an error comes back as its
/// description (`ImageError`'s `Display`).
#[verifier::external_body]
fn decode_rgb8(bytes: &[u8]) -> (r: Result<(Vec<u8>, u32, u32), String>)
    ensures
        match r {
            Ok((p, h, w)) => image_rgb8(bytes@) == Some((p@, h as nat, w as nat)),
            Err(_) => image_rgb8(bytes@) is None,
        },
{
    match image::load_from_memory(bytes) {
        Ok(img) => {
            let rgb = img.to_rgb8();
            let (w, h) = rgb.dimensions();
            Ok((rgb.into_raw(), h, w))
        },
        Err(e) => Err(e.to_string()),
    }
}

/// Decodes an encoded image (PNG, JPEG, WebP, BMP) into its RGB pixels,
/// height and width; bytes the decoder refuses give its description.
pub fn load_image_rgb(bytes: &[u8]) -> (r: Result<(Vec<u8>, usize, usize), ImageError>)
    ensures
        match image_rgb8(bytes@) {
            Some((p, h, w)) => r matches Ok((v, rh, rw)) && v@ == p && rh == h && rw == w,
            None => r matches Err(e) && e is UndecodableImage,
        },
{
    match decode_rgb8(bytes) {
        Ok((pixels, h, w)) => Ok((pixels, h as usize, w as usize)),
        Err(d) => Err(ImageError::UndecodableImage(d)),
    }
}

} // verus!
